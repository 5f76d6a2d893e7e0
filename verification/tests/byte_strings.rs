use httm::bytes::{append_bytes, bytes_equal, copy_bytes, ends_with, occurs_at, replace_all};

fn bytes(text: &str) -> Vec<u8> {
    text.as_bytes().to_vec()
}

#[test]
fn copy_is_equal_to_the_source() {
    assert_eq!(copy_bytes(&bytes("tank/rpool")), bytes("tank/rpool"));
    assert_eq!(copy_bytes(&bytes("")), bytes(""));
}

#[test]
fn equality_is_byte_exact() {
    assert!(bytes_equal(&bytes("rpool"), &bytes("rpool")));
    assert!(!bytes_equal(&bytes("rpool"), &bytes("rpooL")));
    assert!(!bytes_equal(&bytes("rpool"), &bytes("rpool/")));
    assert!(bytes_equal(&bytes(""), &bytes("")));
}

#[test]
fn suffix_is_plain() {
    assert!(ends_with(&bytes("tank/rpool"), &bytes("rpool")));
    assert!(ends_with(&bytes("notrpool"), &bytes("rpool")));
    assert!(ends_with(&bytes("rpool"), &bytes("rpool")));
    assert!(ends_with(&bytes("rpool"), &bytes("")));
    assert!(!ends_with(&bytes("rpool"), &bytes("tank/rpool")));
    assert!(!ends_with(&bytes("tank/rpool2"), &bytes("rpool")));
}

#[test]
fn append_adds_at_the_end() {
    let mut target = bytes("snap");
    append_bytes(&mut target, &bytes("shot"));
    assert_eq!(target, bytes("snapshot"));
    append_bytes(&mut target, &bytes(""));
    assert_eq!(target, bytes("snapshot"));
}

#[test]
fn occurs_at_looks_at_one_position() {
    let text = bytes("cat {snap_file}");
    assert!(occurs_at(&text, 4, &bytes("{snap_file}")));
    assert!(!occurs_at(&text, 3, &bytes("{snap_file}")));
    assert!(!occurs_at(&text, 10, &bytes("{snap_file}")));
    assert!(occurs_at(&text, 15, &bytes("")));
}

#[test]
fn replace_all_replaces_every_occurrence() {
    assert_eq!(
        replace_all(&bytes("diff {a} {b} {a}"), &bytes("{a}"), &bytes("x")),
        bytes("diff x {b} x")
    );
    assert_eq!(replace_all(&bytes("aaa"), &bytes("aa"), &bytes("b")), bytes("ba"));
    assert_eq!(replace_all(&bytes("abc"), &bytes("abcd"), &bytes("x")), bytes("abc"));
    assert_eq!(replace_all(&bytes(""), &bytes("a"), &bytes("x")), bytes(""));
    assert_eq!(replace_all(&bytes("xay"), &bytes("a"), &bytes("")), bytes("xy"));
}

#[test]
fn replace_all_is_that_of_the_standard_library() {
    let texts = ["", "a", "aaaa", "abcabc", "{snap_file} and {snap_file}", "no match", "ababab"];
    let patterns = ["a", "aa", "ab", "abc", "{snap_file}", "b"];
    let replacements = ["", "a", "xyz", "\"$snap_file\""];
    for text in texts {
        for pattern in patterns {
            for replacement in replacements {
                assert_eq!(
                    replace_all(&bytes(text), &bytes(pattern), &bytes(replacement)),
                    text.replace(pattern, replacement).into_bytes()
                );
            }
        }
    }
}
