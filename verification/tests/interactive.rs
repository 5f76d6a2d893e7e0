use httm::exec::interactive::{
    browse_allows_multi, format_selection, get_delimiter, interactive_exec, interactive_restore,
    interactive_select, is_same_path, is_same_record, last_snap_version, parse_consent,
    parse_preview_command, parse_quoted, parse_selection, restore_destination,
    select_restore_preview, text_to_bytes, to_upper, Consent, InteractiveStep, RestoreStep,
    SelectStep, SelectionCandidate,
};
use httm::{
    Config, DeletedMode, ExecMode, FileKind, FilesystemAndMount, HttmError, InteractiveMode,
    LastSnapMode, PathAndMaybeFileType, PathData, SnapPoint,
};
use std::sync::Arc;

fn bytes(text: &str) -> Vec<u8> {
    text.as_bytes().to_vec()
}

fn record(path: &str, system_time: i128, size: u64) -> PathData {
    PathData::new(bytes(path), system_time, size)
}

fn config() -> Config {
    Config {
        paths: vec![record("/home/a.txt", 300, 3)],
        opt_raw: false,
        opt_zeros: false,
        opt_no_pretty: false,
        opt_recursive: false,
        opt_no_live_vers: false,
        opt_exact: false,
        opt_overwrite: false,
        opt_no_filter: false,
        opt_no_snap: false,
        opt_debug: false,
        opt_no_traverse: false,
        opt_omit_ditto: false,
        opt_alt_replicated: false,
        opt_last_snap: None,
        opt_preview: None,
        requested_utc_offset: 0,
        exec_mode: ExecMode::Interactive(InteractiveMode::Browse),
        deleted_mode: None,
        snap_point: SnapPoint::Native(vec![FilesystemAndMount { filesystem: bytes("tank"), mount: bytes("/") }]),
        pwd: record("/home", 1, 1),
        opt_requested_dir: Some(record("/home", 1, 1)),
    }
}

fn versions_of_a() -> Vec<(PathData, Vec<PathData>)> {
    vec![(
        record("/home/a.txt", 300, 3),
        vec![
            record("/.zfs/snapshot/s1/home/a.txt", 100, 1),
            record("/.zfs/snapshot/s2/home/a.txt", 200, 2),
            record("/.zfs/snapshot/s3/home/a.txt", 300, 3),
        ],
    )]
}

#[test]
fn a_candidate_keeps_the_path_and_the_kind() {
    let entry = PathAndMaybeFileType { path: bytes("/home/a.txt"), file_type: Some(FileKind::Regular) };
    let candidate = SelectionCandidate::new(Arc::new(config()), entry, false);
    assert_eq!(candidate.path(), bytes("/home/a.txt"));
    assert_eq!(candidate.text(), bytes("/home/a.txt"));
    assert_eq!(candidate.file_type(), Some(FileKind::Regular));
}

#[test]
fn a_candidate_has_the_file_name_of_its_path() {
    let shared = Arc::new(config());
    let named = PathAndMaybeFileType { path: bytes("/home/docs/a.txt"), file_type: None };
    let candidate = SelectionCandidate::new(shared.clone(), named, false);
    assert_eq!(candidate.file_name(), bytes("a.txt"));
    assert_eq!(candidate.output(), bytes("/home/docs/a.txt"));
    assert_eq!(candidate.config().pwd, shared.pwd);
    let root = PathAndMaybeFileType { path: bytes("/"), file_type: None };
    assert_eq!(SelectionCandidate::new(shared, root, false).file_name(), bytes(""));
}

#[test]
fn a_phantom_candidate_has_no_kind() {
    let entry = PathAndMaybeFileType { path: bytes("/home/b.txt"), file_type: Some(FileKind::Regular) };
    let candidate = SelectionCandidate::new(Arc::new(config()), entry, true);
    assert_eq!(candidate.path(), bytes("/home/b.txt"));
    assert_eq!(candidate.file_type(), None);
}

#[test]
fn a_candidate_is_shown_below_the_requested_directory() {
    let shared = Arc::new(config());
    let inside = PathAndMaybeFileType { path: bytes("/home/docs/a.txt"), file_type: None };
    assert_eq!(SelectionCandidate::new(shared.clone(), inside, false).display(), bytes("docs/a.txt"));
    let outside = PathAndMaybeFileType { path: bytes("/srv/a.txt"), file_type: None };
    assert_eq!(SelectionCandidate::new(shared, outside, false).display(), bytes("/srv/a.txt"));
}

#[test]
fn display_options_turn_the_switches_off() {
    let mut options = config();
    options.opt_raw = true;
    options.opt_zeros = true;
    options.opt_recursive = true;
    options.opt_no_live_vers = true;
    options.opt_overwrite = true;
    options.opt_omit_ditto = true;
    options.opt_alt_replicated = true;
    options.opt_last_snap = Some(LastSnapMode::Any);
    options.opt_preview = Some(bytes("default"));
    options.deleted_mode = Some(DeletedMode::Only);
    options.requested_utc_offset = 3600;
    let selected = vec![record("/home/b.txt", 5, 5)];
    let display = SelectionCandidate::generate_config_for_display(&options, &selected);
    let mut expected = config();
    expected.paths = selected;
    expected.opt_omit_ditto = true;
    expected.opt_alt_replicated = true;
    expected.requested_utc_offset = 3600;
    expected.exec_mode = ExecMode::Display;
    assert_eq!(display, expected);
}

#[test]
fn a_session_with_a_requested_directory_browses_first() {
    assert_eq!(
        interactive_exec(&config(), &InteractiveMode::Browse, None),
        InteractiveStep::Browse(bytes("/home"))
    );
    assert_eq!(
        interactive_exec(&config(), &InteractiveMode::Restore, None),
        InteractiveStep::Browse(bytes("/home"))
    );
}

#[test]
fn a_browse_without_a_choice_is_shown_again() {
    assert_eq!(
        interactive_exec(&config(), &InteractiveMode::Select, Some(Vec::new())),
        InteractiveStep::Browse(bytes("/home"))
    );
}

#[test]
fn the_choice_of_a_browse_ends_a_browse_session() {
    let chosen = vec![record("/home/a.txt", 300, 3), record("/home/b.txt", 301, 3)];
    assert_eq!(
        interactive_exec(&config(), &InteractiveMode::Browse, Some(chosen.clone())),
        InteractiveStep::Finished(chosen)
    );
}

#[test]
fn the_choice_of_a_browse_goes_on_to_the_selection() {
    let chosen = vec![record("/home/a.txt", 300, 3)];
    for mode in [InteractiveMode::Select, InteractiveMode::Restore] {
        assert_eq!(
            interactive_exec(&config(), &mode, Some(chosen.clone())),
            InteractiveStep::Select(chosen.clone())
        );
    }
}

#[test]
fn a_session_without_a_requested_directory_selects_the_first_path() {
    let mut options = config();
    options.opt_requested_dir = None;
    options.paths = vec![record("/home/a.txt", 300, 3), record("/home/b.txt", 301, 3)];
    for mode in [InteractiveMode::Browse, InteractiveMode::Select, InteractiveMode::Restore] {
        assert_eq!(
            interactive_exec(&options, &mode, None),
            InteractiveStep::Select(vec![record("/home/a.txt", 300, 3)])
        );
    }
}

#[test]
fn a_browse_allows_several_choices_unless_a_last_snapshot_is_previewed() {
    let mut options = config();
    assert!(browse_allows_multi(&options));
    options.opt_last_snap = Some(LastSnapMode::Any);
    assert!(browse_allows_multi(&options));
    options.opt_preview = Some(bytes("default"));
    assert!(!browse_allows_multi(&options));
    options.opt_last_snap = None;
    assert!(browse_allows_multi(&options));
}

#[test]
fn the_quoted_part_is_between_the_first_two_quotes() {
    assert_eq!(
        parse_quoted(&bytes("Mon Jan  1 00:00:00 2024  1.0 KiB  \"/.zfs/snapshot/s1/home/a.txt\"")),
        Some(bytes("/.zfs/snapshot/s1/home/a.txt"))
    );
    assert_eq!(parse_quoted(&bytes("a\"b\"c\"d\"")), Some(bytes("b")));
    assert_eq!(parse_quoted(&bytes("a\"b")), Some(bytes("b")));
    assert_eq!(parse_quoted(&bytes("a\"\"b")), Some(bytes("")));
}

#[test]
fn a_line_without_a_quoted_part_chooses_nothing() {
    assert_eq!(parse_quoted(&bytes("no quotes here")), None);
    assert_eq!(parse_quoted(&bytes("")), None);
    assert_eq!(parse_quoted(&bytes("ends with \"")), None);
    assert_eq!(parse_quoted(&bytes("\"")), None);
}

#[test]
fn the_quoted_part_is_the_second_piece_of_the_line() {
    let lines = ["", "\"", "\"\"", "a", "a\"", "a\"b", "a\"b\"", "a\"b\"c", "\"b\"", "\"\"c", "x\"y\"z\"w", "\"a"];
    for line in lines {
        let pieces: Vec<&str> = line.split_terminator('"').collect();
        let expected = pieces.get(1).map(|piece| piece.as_bytes().to_vec());
        assert_eq!(parse_quoted(&bytes(line)), expected, "quoted part of {:?}", line);
    }
}

#[test]
fn paths_are_the_same_by_their_components() {
    assert!(is_same_path(&bytes("/home/a.txt"), &bytes("/home//a.txt/")));
    assert!(is_same_path(&bytes("/home/./a.txt"), &bytes("/home/a.txt")));
    assert!(!is_same_path(&bytes("/home/a.txt"), &bytes("home/a.txt")));
    assert!(!is_same_path(&bytes("/home/a.txt"), &bytes("/home/a.txt/b")));
    assert!(!is_same_path(&bytes("/home/a.txt/b"), &bytes("/home/a.txt")));
    assert!(is_same_path(&bytes(""), &bytes("")));
}

#[test]
fn records_are_the_same_by_path_and_metadata() {
    assert!(is_same_record(&record("/s1/a", 1, 2), &record("/s1//a", 1, 2)));
    assert!(!is_same_record(&record("/s1/a", 1, 2), &record("/s1/a", 1, 3)));
    assert!(!is_same_record(&record("/s1/a", 1, 2), &record("/s1/a", 2, 2)));
    assert!(!is_same_record(&record("/s1/a", 1, 2), &record("/s2/a", 1, 2)));
    assert!(!is_same_record(&record("/s1/a", 0, 0), &PathData::phantom(bytes("/s1/a"))));
}

#[test]
fn a_selection_names_a_snapshot_version() {
    let map = versions_of_a();
    assert_eq!(
        parse_selection(&bytes("date size \"/.zfs/snapshot/s1/home/a.txt\""), &map),
        Some(bytes("/.zfs/snapshot/s1/home/a.txt"))
    );
}

#[test]
fn a_live_version_cannot_be_selected() {
    let map = versions_of_a();
    assert_eq!(parse_selection(&bytes("date size \"/home/a.txt\""), &map), None);
    assert_eq!(parse_selection(&bytes("date size \"/home//a.txt\""), &map), None);
    assert_eq!(parse_selection(&bytes("--------"), &map), None);
}

#[test]
fn the_last_snapshot_is_the_last_version() {
    assert_eq!(
        last_snap_version(&config(), &record("/home/a.txt", 300, 3), &versions_of_a()),
        Ok(bytes("/.zfs/snapshot/s3/home/a.txt"))
    );
}

#[test]
fn the_last_snapshot_can_leave_out_what_is_the_same_as_the_live_file() {
    let mut options = config();
    options.opt_omit_ditto = true;
    assert_eq!(
        last_snap_version(&options, &record("/home/a.txt", 300, 3), &versions_of_a()),
        Ok(bytes("/.zfs/snapshot/s2/home/a.txt"))
    );
}

#[test]
fn the_last_snapshot_is_taken_over_all_live_paths() {
    let mut map = versions_of_a();
    map.push((record("/home/b.txt", 1, 1), vec![record("/.zfs/snapshot/s1/home/b.txt", 50, 1)]));
    map.push((record("/home/c.txt", 1, 1), Vec::new()));
    assert_eq!(
        last_snap_version(&config(), &record("/home/a.txt", 300, 3), &map),
        Ok(bytes("/.zfs/snapshot/s1/home/b.txt"))
    );
}

#[test]
fn no_last_snapshot_without_a_version_that_counts() {
    let mut options = config();
    options.opt_omit_ditto = true;
    let map = vec![(record("/home/a.txt", 300, 3), vec![record("/.zfs/snapshot/s3/home/a.txt", 300, 3)])];
    assert_eq!(
        last_snap_version(&options, &record("/home/a.txt", 300, 3), &map),
        Err(HttmError::NoLastSnapshot)
    );
    let empty = vec![(record("/home/a.txt", 300, 3), Vec::new())];
    assert_eq!(last_snap_version(&config(), &record("/home/a.txt", 300, 3), &empty), Err(HttmError::NoLastSnapshot));
}

#[test]
fn lines_end_with_a_line_feed_or_a_zero_byte() {
    let mut options = config();
    assert_eq!(get_delimiter(&options), b'\n');
    options.opt_zeros = true;
    assert_eq!(get_delimiter(&options), 0);
}

#[test]
fn a_selection_is_written_between_quotes() {
    assert_eq!(
        format_selection(&config(), &bytes("/.zfs/snapshot/s1/home/a.txt")),
        bytes("\"/.zfs/snapshot/s1/home/a.txt\"\n")
    );
}

#[test]
fn a_raw_selection_is_written_as_it_is() {
    let mut options = config();
    options.opt_raw = true;
    assert_eq!(format_selection(&options, &bytes("/s1/a.txt")), bytes("/s1/a.txt\n"));
    options.opt_raw = false;
    options.opt_zeros = true;
    assert_eq!(format_selection(&options, &bytes("/s1/a.txt")), bytes("/s1/a.txt\0"));
}

#[test]
fn nothing_can_be_selected_without_snapshots() {
    let selected = vec![record("/home/a.txt", 300, 3)];
    assert_eq!(
        interactive_select(&config(), &selected, &Vec::new(), &InteractiveMode::Select, None),
        Err(HttmError::NoSnapshotsForPaths)
    );
}

#[test]
fn a_selection_asks_until_a_version_is_chosen() {
    let selected = vec![record("/home/a.txt", 300, 3)];
    let map = versions_of_a();
    assert_eq!(
        interactive_select(&config(), &selected, &map, &InteractiveMode::Select, None),
        Ok(SelectStep::Ask)
    );
    assert_eq!(
        interactive_select(&config(), &selected, &map, &InteractiveMode::Select, Some(&bytes("-----"))),
        Ok(SelectStep::Ask)
    );
    assert_eq!(
        interactive_select(&config(), &selected, &map, &InteractiveMode::Restore, Some(&bytes("x \"/home/a.txt\""))),
        Ok(SelectStep::Ask)
    );
}

#[test]
fn a_chosen_version_is_printed_in_a_select_session() {
    let selected = vec![record("/home/a.txt", 300, 3)];
    let line = bytes("date  size  \"/.zfs/snapshot/s2/home/a.txt\"");
    assert_eq!(
        interactive_select(&config(), &selected, &versions_of_a(), &InteractiveMode::Select, Some(&line)),
        Ok(SelectStep::Print(bytes("\"/.zfs/snapshot/s2/home/a.txt\"\n")))
    );
}

#[test]
fn a_chosen_version_is_restored_in_a_restore_session() {
    let selected = vec![record("/home/a.txt", 300, 3)];
    let line = bytes("date  size  \"/.zfs/snapshot/s2/home/a.txt\"");
    assert_eq!(
        interactive_select(&config(), &selected, &versions_of_a(), &InteractiveMode::Restore, Some(&line)),
        Ok(SelectStep::Restore(bytes("/.zfs/snapshot/s2/home/a.txt")))
    );
}

#[test]
fn the_last_snapshot_is_selected_without_asking() {
    let mut options = config();
    options.opt_last_snap = Some(LastSnapMode::Any);
    options.opt_raw = true;
    let selected = vec![record("/home/a.txt", 300, 3)];
    assert_eq!(
        interactive_select(&options, &selected, &versions_of_a(), &InteractiveMode::Select, None),
        Ok(SelectStep::Print(bytes("/.zfs/snapshot/s3/home/a.txt\n")))
    );
    options.opt_omit_ditto = true;
    assert_eq!(
        interactive_select(&options, &selected, &versions_of_a(), &InteractiveMode::Restore, None),
        Ok(SelectStep::Restore(bytes("/.zfs/snapshot/s2/home/a.txt")))
    );
    let nothing = vec![(record("/home/a.txt", 300, 3), Vec::new())];
    assert_eq!(
        interactive_select(&options, &selected, &nothing, &InteractiveMode::Restore, None),
        Err(HttmError::NoLastSnapshot)
    );
}

#[test]
fn the_default_preview_compares_with_the_live_version() {
    assert_eq!(
        parse_preview_command(&bytes("default"), &Some(bytes("/home/a.txt"))),
        bytes("snap_file=\"$( echo {} | cut -d'\"' -f2 )\"; if [[ -f \"$snap_file\" ]]; then bowie --direct \"$snap_file\" \"/home/a.txt\" ; fi")
    );
}

#[test]
fn the_default_preview_without_a_live_version_shows_the_file() {
    assert_eq!(
        parse_preview_command(&bytes("default"), &None),
        bytes("snap_file=\"$( echo {} | cut -d'\"' -f2 )\"; if [[ -f \"$snap_file\" ]]; then cat \"$snap_file\"; fi")
    );
}

#[test]
fn a_preview_command_has_its_placeholders_filled_in() {
    assert_eq!(
        parse_preview_command(&bytes("diff {snap_file} {live_file}"), &Some(bytes("/home/a.txt"))),
        bytes("snap_file=\"$( echo {} | cut -d'\"' -f2 )\"; if [[ -f \"$snap_file\" ]]; then diff \"$snap_file\" \"/home/a.txt\"; fi")
    );
    assert_eq!(
        parse_preview_command(&bytes("head {snap_file}"), &None),
        bytes("snap_file=\"$( echo {} | cut -d'\"' -f2 )\"; if [[ -f \"$snap_file\" ]]; then head \"$snap_file; fi")
    );
}

#[test]
fn a_view_without_a_preview_has_no_command() {
    assert_eq!(select_restore_preview(&None, &Some(bytes("/home/a.txt"))), bytes(""));
    assert_eq!(
        select_restore_preview(&Some(bytes("default")), &None),
        parse_preview_command(&bytes("default"), &None)
    );
}

#[test]
fn text_is_turned_into_its_bytes() {
    assert_eq!(text_to_bytes(".httm_restored."), b".httm_restored.".to_vec());
    assert_eq!(text_to_bytes(""), Vec::<u8>::new());
}

#[test]
fn a_version_is_restored_beside_the_live_files_under_a_new_name() {
    let snap = record("/.zfs/snapshot/s1/home/a.txt", 100, 1);
    assert_eq!(
        restore_destination(&config(), &snap, &versions_of_a(), &bytes("2024-01-01-00:00:00")),
        Ok(bytes("/home/a.txt.httm_restored.2024-01-01-00:00:00"))
    );
}

#[test]
fn a_version_that_overwrites_goes_to_its_live_path() {
    let mut options = config();
    options.opt_overwrite = true;
    let mut map = vec![(record("/home/b.txt", 1, 1), vec![record("/.zfs/snapshot/s1/home/b.txt", 50, 1)])];
    map.extend(versions_of_a());
    let snap = record("/.zfs/snapshot/s2/home/a.txt", 200, 2);
    assert_eq!(restore_destination(&options, &snap, &map, &bytes("now")), Ok(bytes("/home/a.txt")));
}

#[test]
fn a_version_of_no_chosen_path_cannot_overwrite() {
    let mut options = config();
    options.opt_overwrite = true;
    let snap = record("/.zfs/snapshot/s9/home/a.txt", 900, 9);
    assert_eq!(
        restore_destination(&options, &snap, &versions_of_a(), &bytes("now")),
        Err(HttmError::NoOriginalPath)
    );
}

#[test]
fn a_version_that_is_not_on_disk_cannot_be_restored() {
    let snap = PathData::phantom(bytes("/.zfs/snapshot/s1/home/a.txt"));
    assert_eq!(
        restore_destination(&config(), &snap, &versions_of_a(), &bytes("now")),
        Err(HttmError::SourceMissing)
    );
}

#[test]
fn small_letters_become_capitals() {
    assert_eq!(to_upper(&bytes("yes, Please! az{`")), bytes("YES, PLEASE! AZ{`"));
    assert_eq!(to_upper(&bytes("")), bytes(""));
}

#[test]
fn consent_is_yes_or_no() {
    for answer in ["YES", "yes", "Yes", "y", "Y"] {
        assert_eq!(parse_consent(&bytes(answer)), Consent::Yes);
    }
    for answer in ["NO", "no", "nO", "n", "N"] {
        assert_eq!(parse_consent(&bytes(answer)), Consent::No);
    }
    for answer in ["", "maybe", "yes ", "ye", "nope", "YES\n"] {
        assert_eq!(parse_consent(&bytes(answer)), Consent::Unclear);
    }
}

#[test]
fn a_restore_asks_for_consent_first() {
    assert_eq!(interactive_restore(&config(), false, None), Ok(RestoreStep::AskConsent));
    assert_eq!(interactive_restore(&config(), false, Some(&bytes("what?"))), Ok(RestoreStep::AskConsent));
}

#[test]
fn a_restore_copies_after_consent() {
    assert_eq!(interactive_restore(&config(), false, Some(&bytes("yes"))), Ok(RestoreStep::Copy));
    assert_eq!(interactive_restore(&config(), false, Some(&bytes("n"))), Ok(RestoreStep::Declined));
}

#[test]
fn a_restore_does_not_write_over_a_file_unless_asked_to() {
    assert_eq!(interactive_restore(&config(), true, Some(&bytes("yes"))), Err(HttmError::DestinationExists));
    assert_eq!(interactive_restore(&config(), true, None), Err(HttmError::DestinationExists));
    let mut options = config();
    options.opt_overwrite = true;
    assert_eq!(interactive_restore(&options, true, Some(&bytes("yes"))), Ok(RestoreStep::Copy));
}
