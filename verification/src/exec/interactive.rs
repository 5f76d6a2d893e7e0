//! The decisions of an interactive session.
//!
//! Showing a picker, reading metadata and copying files are the caller's
//! business. The functions here say what comes next: they take what the
//! user or the disk answered and return the next step.

use std::sync::Arc;
use vstd::prelude::*;
use vstd::string::{StrSliceExecFns, StringSliceAdditionalSpecFns};
use crate::bytes::{
    append_bytes, byte_views, bytes_equal, copy_bytes, pieces, replace_all, replaced, split_on,
};
use crate::data::{
    duplicate_records, record_views, Config, ExecMode, FileKind, HttmError, InteractiveMode,
    PathAndMaybeFileType, PathData,
};
use crate::path::{
    components, file_name, file_name_of, has_prefix, join, joined, split_components,
    strip_prefix, stripped,
};

verus! {

/// An item that is ready for selection and preview: a path, and the kind
/// of file that it is, which is left out for a phantom.
pub struct SelectionCandidate {
    config: Arc<Config>,
    path: Vec<u8>,
    file_type: Option<FileKind>,
}

/// A `SelectionCandidate` as a plain value.
pub struct SelectionView {
    pub path: Seq<u8>,
    pub file_type: Option<FileKind>,
}

impl View for SelectionCandidate {
    type V = SelectionView;

    closed spec fn view(&self) -> SelectionView {
        SelectionView { path: self.path@, file_type: self.file_type }
    }
}

impl SelectionCandidate {
    /// The options that the candidate was made under.
    pub closed spec fn options(&self) -> Config {
        *self.config
    }

    /// Makes a candidate of a directory entry. The kind of a phantom is
    /// left out, so that it is shown as a file that is not there.
    pub fn new(
        config: Arc<Config>,
        basic_dir_entry_info: PathAndMaybeFileType,
        is_phantom: bool,
    ) -> (candidate: SelectionCandidate)
        ensures
            candidate@.path == basic_dir_entry_info.path@,
            candidate@.file_type == (if is_phantom {
                None
            } else {
                basic_dir_entry_info.file_type
            }),
            candidate.options() == *config,
    {
        SelectionCandidate {
            config,
            path: basic_dir_entry_info.path,
            file_type: if is_phantom {
                None
            } else {
                basic_dir_entry_info.file_type
            },
        }
    }

    /// The options that the candidate was made under.
    pub fn config(&self) -> (shared: Arc<Config>)
        ensures
            *shared == self.options(),
    {
        self.config.clone()
    }

    /// The path of the candidate.
    pub fn path(&self) -> (path: Vec<u8>)
        ensures
            path@ == self@.path,
    {
        copy_bytes(&self.path)
    }

    /// The kind of file that the candidate is.
    pub fn file_type(&self) -> (kind: Option<FileKind>)
        ensures
            kind == self@.file_type,
    {
        self.file_type
    }

    /// The file name of the candidate, which is empty where its path has
    /// none.
    pub fn file_name(&self) -> (name: Vec<u8>)
        ensures
            name@ == match file_name_of(self@.path) {
                Some(last) => last,
                None => Seq::<u8>::empty(),
            },
    {
        match file_name(&self.path) {
            Some(last) => last,
            None => Vec::new(),
        }
    }

    /// The text by which the candidate is found: its path.
    pub fn text(&self) -> (text: Vec<u8>)
        ensures
            text@ == self@.path,
    {
        copy_bytes(&self.path)
    }

    /// The text that is handed on when the candidate is chosen: its path.
    pub fn output(&self) -> (text: Vec<u8>)
        ensures
            text@ == self@.path,
    {
        self.text()
    }

    /// What is shown of a path in a browse of `requested_dir`: the path
    /// below that directory, or the whole path where it is not below it.
    pub open spec fn shown_path(path: Seq<u8>, requested_dir: Seq<u8>) -> Seq<u8> {
        match stripped(path, requested_dir) {
            Some(rest) => rest,
            None => path,
        }
    }

    /// The path to show for the candidate in a browse of the requested
    /// directory.
    pub fn display(&self) -> (shown: Vec<u8>)
        requires
            self.options().opt_requested_dir is Some,
        ensures
            shown@ == Self::shown_path(self@.path, self.options().opt_requested_dir->0.path_buf@),
    {
        match &self.config.opt_requested_dir {
            Some(requested_dir) => match strip_prefix(&self.path, &requested_dir.path_buf) {
                Some(rest) => rest,
                None => copy_bytes(&self.path),
            },
            None => copy_bytes(&self.path),
        }
    }

    /// The options for showing the versions of `paths_selected` in a
    /// preview: those of `config` that say where snapshots are and how a
    /// time is written, with every switch that changes what a plain
    /// display shows turned off.
    pub fn generate_config_for_display(config: &Config, paths_selected: &Vec<PathData>) -> (display:
        Config)
        ensures
            record_views(display.paths@) == record_views(paths_selected@),
            !display.opt_raw && !display.opt_zeros && !display.opt_no_pretty
                && !display.opt_recursive && !display.opt_no_live_vers && !display.opt_exact
                && !display.opt_overwrite && !display.opt_no_filter && !display.opt_no_snap
                && !display.opt_debug && !display.opt_no_traverse,
            display.opt_last_snap is None,
            display.opt_preview is None,
            display.deleted_mode is None,
            display.exec_mode == ExecMode::Display,
            display.opt_omit_ditto == config.opt_omit_ditto,
            display.opt_alt_replicated == config.opt_alt_replicated,
            display.requested_utc_offset == config.requested_utc_offset,
            display.snap_point@ == config.snap_point@,
            display.pwd@ == config.pwd@,
            match config.opt_requested_dir {
                Some(requested_dir) => display.opt_requested_dir is Some
                    && display.opt_requested_dir->0@ == requested_dir@,
                None => display.opt_requested_dir is None,
            },
    {
        Config {
            paths: duplicate_records(paths_selected),
            opt_raw: false,
            opt_zeros: false,
            opt_no_pretty: false,
            opt_recursive: false,
            opt_no_live_vers: false,
            opt_exact: false,
            opt_overwrite: false,
            opt_no_filter: false,
            opt_no_snap: false,
            opt_debug: false,
            opt_no_traverse: false,
            opt_omit_ditto: config.opt_omit_ditto,
            opt_alt_replicated: config.opt_alt_replicated,
            opt_last_snap: None,
            opt_preview: None,
            requested_utc_offset: config.requested_utc_offset,
            exec_mode: ExecMode::Display,
            deleted_mode: None,
            snap_point: config.snap_point.duplicate(),
            pwd: config.pwd.duplicate(),
            opt_requested_dir: match &config.opt_requested_dir {
                Some(requested_dir) => Some(requested_dir.duplicate()),
                None => None,
            },
        }
    }
}

/// The bytes of a text.
pub open spec fn text_bytes(text: &str) -> Seq<u8> {
    text.spec_bytes()
}

/// The bytes of a text, as a vector.
pub fn text_to_bytes(text: &str) -> (bytes: Vec<u8>)
    ensures
        bytes@ == text_bytes(text),
{
    text.as_bytes_vec()
}

/// How every preview command begins: it takes the path of the snapshot
/// version from between the quotes of the chosen line, and goes on only
/// where that path is a file.
pub open spec fn preview_opening() -> Seq<u8> {
    text_bytes("snap_file=\"$( echo {} | cut -d'\"' -f2 )\"; if [[ -f \"$snap_file\" ]]; then ")
}

/// The command that previews the version chosen in a select or restore
/// view.
///
/// The command `default` stands for a comparison with the live version
/// where there is one, and for the contents of the snapshot version where
/// there is none. In any other command `{snap_file}` stands for the
/// snapshot version and `{live_file}` for the live version.
pub open spec fn preview_command(defined_command: Seq<u8>, opt_live_version: Option<Seq<u8>>) -> Seq<
    u8,
> {
    if defined_command == text_bytes("default") {
        match opt_live_version {
            Some(live_version) => preview_opening() + text_bytes(
                "bowie --direct \"$snap_file\" \"",
            ) + live_version + text_bytes("\" ; fi"),
            None => preview_opening() + text_bytes("cat \"$snap_file\"; fi"),
        }
    } else {
        let parsed_command = match opt_live_version {
            Some(live_version) => replaced(
                replaced(defined_command, text_bytes("{snap_file}"), text_bytes("\"$snap_file\"")),
                text_bytes("{live_file}"),
                text_bytes("\"") + live_version + text_bytes("\""),
            ),
            None => replaced(defined_command, text_bytes("{snap_file}"), text_bytes("\"$snap_file")),
        };
        preview_opening() + parsed_command + text_bytes("; fi")
    }
}

/// Writes the command that previews the version chosen in a select or
/// restore view.
pub fn parse_preview_command(defined_command: &Vec<u8>, opt_live_version: &Option<Vec<u8>>) -> (command:
    Vec<u8>)
    ensures
        command@ == preview_command(
            defined_command@,
            match *opt_live_version {
                Some(live_version) => Some(live_version@),
                None => None,
            },
        ),
{
    let mut command = text_to_bytes(
        "snap_file=\"$( echo {} | cut -d'\"' -f2 )\"; if [[ -f \"$snap_file\" ]]; then ",
    );
    if bytes_equal(defined_command, &text_to_bytes("default")) {
        match opt_live_version {
            Some(live_version) => {
                append_bytes(&mut command, &text_to_bytes("bowie --direct \"$snap_file\" \""));
                append_bytes(&mut command, live_version);
                append_bytes(&mut command, &text_to_bytes("\" ; fi"));
            },
            None => {
                append_bytes(&mut command, &text_to_bytes("cat \"$snap_file\"; fi"));
            },
        }
    } else {
        let snap_pattern = text_to_bytes("{snap_file}");
        let live_pattern = text_to_bytes("{live_file}");
        proof {
            lemma_patterns_not_empty();
        }
        let parsed_command = match opt_live_version {
            Some(live_version) => {
                let mut live_formatted = text_to_bytes("\"");
                append_bytes(&mut live_formatted, live_version);
                append_bytes(&mut live_formatted, &text_to_bytes("\""));
                let with_snap = replace_all(
                    defined_command,
                    &snap_pattern,
                    &text_to_bytes("\"$snap_file\""),
                );
                replace_all(&with_snap, &live_pattern, &live_formatted)
            },
            None => replace_all(defined_command, &snap_pattern, &text_to_bytes("\"$snap_file")),
        };
        append_bytes(&mut command, &parsed_command);
        append_bytes(&mut command, &text_to_bytes("; fi"));
    }
    command
}

/// The two placeholders of a preview command are not empty.
proof fn lemma_patterns_not_empty()
    ensures
        text_bytes("{snap_file}").len() > 0,
        text_bytes("{live_file}").len() > 0,
{
    reveal_strlit("{snap_file}");
    reveal_strlit("{live_file}");
    assert(vstd::utf8::is_ascii_chars("{snap_file}"@));
    assert(vstd::utf8::is_ascii_chars("{live_file}"@));
    vstd::utf8::is_ascii_chars_encode_utf8("{snap_file}"@);
    vstd::utf8::is_ascii_chars_encode_utf8("{live_file}"@);
}

/// The byte that quotes a path in a line of a select or restore view.
pub const QUOTE: u8 = 34;

/// What an interactive session does next.
#[derive(Clone, Debug, PartialEq, Eq)]
pub enum InteractiveStep {
    /// Show what is below this directory and let the user choose paths.
    Browse(Vec<u8>),
    /// Let the user choose among the versions of these paths.
    Select(Vec<PathData>),
    /// The session is over, with these paths chosen.
    Finished(Vec<PathData>),
}

/// Whether `step` is what an interactive session with the given options
/// does next, where `selected` is what the last browse returned, if there
/// was a browse.
pub open spec fn is_next_step(
    step: InteractiveStep,
    config: Config,
    interactive_mode: InteractiveMode,
    selected: Option<Vec<PathData>>,
) -> bool {
    match config.opt_requested_dir {
        Some(requested_dir) => {
            if selected is Some && selected->0@.len() > 0 {
                if interactive_mode == InteractiveMode::Browse {
                    step == InteractiveStep::Finished(selected->0)
                } else {
                    step == InteractiveStep::Select(selected->0)
                }
            } else {
                step is Browse && step->Browse_0@ == requested_dir.path_buf@
            }
        },
        None => step is Select && record_views(step->Select_0@) == seq![config.paths@[0]@],
    }
}

/// Decides what an interactive session does next.
///
/// A session with a requested directory browses it until the user has
/// chosen at least one path; a session without one goes on with the first
/// requested path. The chosen paths end a browse session, and are handed
/// to the selection of a version in a select or restore session.
pub fn interactive_exec(
    config: &Config,
    interactive_mode: &InteractiveMode,
    selected_in_browse: Option<Vec<PathData>>,
) -> (step: InteractiveStep)
    requires
        config.opt_requested_dir is None ==> config.paths@.len() > 0,
    ensures
        is_next_step(step, *config, *interactive_mode, selected_in_browse),
{
    match &config.opt_requested_dir {
        Some(requested_dir) => {
            match selected_in_browse {
                Some(selected_pathdata) => {
                    if selected_pathdata.len() > 0 {
                        match interactive_mode {
                            InteractiveMode::Browse => InteractiveStep::Finished(selected_pathdata),
                            _ => InteractiveStep::Select(selected_pathdata),
                        }
                    } else {
                        InteractiveStep::Browse(copy_bytes(&requested_dir.path_buf))
                    }
                },
                None => InteractiveStep::Browse(copy_bytes(&requested_dir.path_buf)),
            }
        },
        None => {
            let mut first: Vec<PathData> = Vec::new();
            first.push(config.paths[0].duplicate());
            assert(record_views(first@) =~= seq![config.paths@[0]@]);
            InteractiveStep::Select(first)
        },
    }
}

/// Whether a browse lets the user choose more than one path: it does
/// unless both a last snapshot and a preview are asked for.
pub fn browse_allows_multi(config: &Config) -> (multi: bool)
    ensures
        multi == (config.opt_last_snap is None || config.opt_preview is None),
{
    config.opt_last_snap.is_none() || config.opt_preview.is_none()
}

/// The pieces of `line` between its quotes, without the last piece where
/// that is empty.
pub open spec fn quoted_pieces(line: Seq<u8>) -> Seq<Seq<u8>> {
    let cut = pieces(line, QUOTE);
    if cut.len() > 0 && cut.last().len() == 0 {
        cut.drop_last()
    } else {
        cut
    }
}

/// The part of `line` between its first quote and the next quote, or up
/// to the end of `line` where no other quote follows: the second of the
/// pieces between the quotes. A line without a quote has no such part,
/// and neither has a line that ends with its only quote.
pub open spec fn quoted_part(line: Seq<u8>) -> Option<Seq<u8>> {
    if quoted_pieces(line).len() >= 2 {
        Some(quoted_pieces(line)[1])
    } else {
        None
    }
}

/// Takes the path from a line of a select or restore view: what stands
/// between the quotes.
pub fn parse_quoted(line: &Vec<u8>) -> (part: Option<Vec<u8>>)
    ensures
        match part {
            Some(path) => quoted_part(line@) == Some(path@),
            None => quoted_part(line@) is None,
        },
{
    let cut = split_on(line, QUOTE);
    let ghost all = byte_views(cut@);
    let kept = if cut.len() > 0 && cut[cut.len() - 1].len() == 0 {
        cut.len() - 1
    } else {
        cut.len()
    };
    proof {
        if cut.len() > 0 {
            assert(all.last() == cut@[cut.len() - 1]@);
        }
        assert(quoted_pieces(line@).len() == kept);
    }
    if kept >= 2 {
        assert(quoted_pieces(line@)[1] == cut@[1]@);
        Some(copy_bytes(&cut[1]))
    } else {
        None
    }
}

/// Whether two byte strings name the same path: they have the same
/// components.
pub open spec fn same_path(first: Seq<u8>, second: Seq<u8>) -> bool {
    components(first) == components(second)
}

/// Whether two byte strings name the same path.
pub fn is_same_path(first: &Vec<u8>, second: &Vec<u8>) -> (same: bool)
    ensures
        same == same_path(first@, second@),
{
    let left = split_components(first);
    let right = split_components(second);
    let same = left.len() == right.len() && has_prefix(&left, &right);
    proof {
        let a = byte_views(left@);
        let b = byte_views(right@);
        if a.len() == b.len() {
            assert(a.subrange(0, a.len() as int) =~= a);
        }
    }
    same
}

/// Whether one of the live paths of `map_live_to_snaps` is `path`.
pub open spec fn is_live_path(map_live_to_snaps: Seq<(PathData, Vec<PathData>)>, path: Seq<u8>) -> bool {
    exists|at: int|
        0 <= at < map_live_to_snaps.len() && same_path(
            path,
            (#[trigger] map_live_to_snaps[at]).0.path_buf@,
        )
}

/// The snapshot version that a line of a select or restore view chooses:
/// the path between its quotes, unless that is one of the live paths.
pub open spec fn chosen_version(
    line: Seq<u8>,
    map_live_to_snaps: Seq<(PathData, Vec<PathData>)>,
) -> Option<Seq<u8>> {
    match quoted_part(line) {
        Some(path) => if is_live_path(map_live_to_snaps, path) {
            None
        } else {
            Some(path)
        },
        None => None,
    }
}

/// Reads which snapshot version the user has chosen.
pub fn parse_selection(line: &Vec<u8>, map_live_to_snaps: &Vec<(PathData, Vec<PathData>)>) -> (chosen:
    Option<Vec<u8>>)
    ensures
        match chosen {
            Some(path) => chosen_version(line@, map_live_to_snaps@) == Some(path@),
            None => chosen_version(line@, map_live_to_snaps@) is None,
        },
{
    let path = match parse_quoted(line) {
        Some(path) => path,
        None => {
            return None;
        },
    };
    let mut at: usize = 0;
    while at < map_live_to_snaps.len()
        invariant
            at <= map_live_to_snaps.len(),
            quoted_part(line@) == Some(path@),
            forall|seen: int|
                0 <= seen < at ==> !same_path(path@, (#[trigger] map_live_to_snaps@[seen]).0.path_buf@),
        decreases map_live_to_snaps.len() - at,
    {
        if is_same_path(&path, &map_live_to_snaps[at].0.path_buf) {
            assert(same_path(path@, map_live_to_snaps@[at as int].0.path_buf@));
            assert(is_live_path(map_live_to_snaps@, path@));
            return None;
        }
        at = at + 1;
    }
    Some(path)
}

/// The snapshot versions of all the live paths of `map_live_to_snaps`,
/// in the order of the live paths.
pub open spec fn all_snap_versions(map_live_to_snaps: Seq<(PathData, Vec<PathData>)>) -> Seq<
    PathData,
> {
    map_live_to_snaps.map_values(|entry: (PathData, Vec<PathData>)| entry.1@).flatten()
}

/// Which snapshot versions count when the last one is asked for: all of
/// them, or, where versions that are the same as the live file are left
/// out, those whose modification time is not that of the live file.
pub open spec fn differs_from_live(opt_omit_ditto: bool, live_time: i128) -> spec_fn(
    PathData,
) -> bool {
    |snap_version: PathData| !opt_omit_ditto || snap_version.system_time != live_time
}

/// What `last_snap_version` owes: the path of the last snapshot version
/// that counts, or an error where none counts.
pub open spec fn last_snap_outcome(
    found: Result<Vec<u8>, HttmError>,
    opt_omit_ditto: bool,
    live_time: i128,
    map_live_to_snaps: Seq<(PathData, Vec<PathData>)>,
) -> bool {
    let counted = all_snap_versions(map_live_to_snaps).filter(
        differs_from_live(opt_omit_ditto, live_time),
    );
    match found {
        Ok(path) => counted.len() > 0 && path@ == counted.last().path_buf@,
        Err(error) => error == HttmError::NoLastSnapshot && counted.len() == 0,
    }
}

/// Filtering after one more record was pushed.
proof fn lemma_filter_push(records: Seq<PathData>, record: PathData, counts: spec_fn(PathData) -> bool)
    ensures
        records.push(record).filter(counts) == if counts(record) {
            records.filter(counts).push(record)
        } else {
            records.filter(counts)
        },
        Seq::<PathData>::empty().filter(counts) == Seq::<PathData>::empty(),
{
    reveal(Seq::filter);
    assert(records.push(record).drop_last() =~= records);
}

/// Finds the last snapshot version of the live file.
pub fn last_snap_version(
    config: &Config,
    live_version: &PathData,
    map_live_to_snaps: &Vec<(PathData, Vec<PathData>)>,
) -> (found: Result<Vec<u8>, HttmError>)
    ensures
        last_snap_outcome(
            found,
            config.opt_omit_ditto,
            live_version.system_time,
            map_live_to_snaps@,
        ),
{
    let ghost counts = differs_from_live(config.opt_omit_ditto, live_version.system_time);
    let ghost values = map_live_to_snaps@.map_values(|entry: (PathData, Vec<PathData>)| entry.1@);
    let ghost mut seen: Seq<PathData> = Seq::empty();
    let mut last: Option<(usize, usize)> = None;
    let mut at: usize = 0;
    proof {
        lemma_filter_push(seen, *live_version, counts);
        assert(values.take(0) =~= Seq::<Seq<PathData>>::empty());
    }
    while at < map_live_to_snaps.len()
        invariant
            at <= map_live_to_snaps.len(),
            counts == differs_from_live(config.opt_omit_ditto, live_version.system_time),
            values == map_live_to_snaps@.map_values(|entry: (PathData, Vec<PathData>)| entry.1@),
            seen == values.take(at as int).flatten(),
            match last {
                Some((outer, inner)) => outer < map_live_to_snaps.len() && inner
                    < map_live_to_snaps@[outer as int].1.len() && seen.filter(counts).len() > 0
                    && seen.filter(counts).last() == map_live_to_snaps@[outer as int].1@[inner as int],
                None => seen.filter(counts).len() == 0,
            },
        decreases map_live_to_snaps.len() - at,
    {
        let snaps = &map_live_to_snaps[at].1;
        let ghost before = seen;
        let mut k: usize = 0;
        assert(snaps@.take(0) =~= Seq::<PathData>::empty());
        assert(before + snaps@.take(0) =~= before);
        while k < snaps.len()
            invariant
                k <= snaps.len(),
                at < map_live_to_snaps.len(),
                snaps == &map_live_to_snaps@[at as int].1,
                counts == differs_from_live(config.opt_omit_ditto, live_version.system_time),
                seen == before + snaps@.take(k as int),
                match last {
                    Some((outer, inner)) => outer < map_live_to_snaps.len() && inner
                        < map_live_to_snaps@[outer as int].1.len() && seen.filter(counts).len() > 0
                        && seen.filter(counts).last()
                        == map_live_to_snaps@[outer as int].1@[inner as int],
                    None => seen.filter(counts).len() == 0,
                },
            decreases snaps.len() - k,
        {
            proof {
                lemma_filter_push(seen, snaps@[k as int], counts);
                assert(seen.push(snaps@[k as int]) =~= before + snaps@.take(k as int + 1));
                seen = seen.push(snaps@[k as int]);
            }
            if !config.opt_omit_ditto || snaps[k].system_time != live_version.system_time {
                last = Some((at, k));
            }
            k = k + 1;
        }
        proof {
            assert(snaps@.take(snaps.len() as int) =~= snaps@);
            assert(values.take(at as int + 1) =~= values.take(at as int).push(snaps@));
            values.take(at as int).lemma_flatten_push(snaps@);
        }
        at = at + 1;
    }
    assert(values.take(map_live_to_snaps.len() as int) =~= values);
    match last {
        Some((outer, inner)) => Ok(copy_bytes(&map_live_to_snaps[outer].1[inner].path_buf)),
        None => Err(HttmError::NoLastSnapshot),
    }
}

/// The byte that ends a line of output: a zero byte where zero-terminated
/// output is asked for, a line feed otherwise.
pub open spec fn delimiter_of(opt_zeros: bool) -> u8 {
    if opt_zeros {
        0u8
    } else {
        10u8
    }
}

/// The byte that ends a line of output.
pub fn get_delimiter(config: &Config) -> (delimiter: u8)
    ensures
        delimiter == delimiter_of(config.opt_zeros),
{
    if config.opt_zeros {
        0u8
    } else {
        10u8
    }
}

/// How a chosen path is written out: as it is where raw or
/// zero-terminated output is asked for, between quotes otherwise, and with
/// the delimiter after it.
pub open spec fn selection_output(opt_raw: bool, opt_zeros: bool, path: Seq<u8>) -> Seq<u8> {
    if opt_raw || opt_zeros {
        path.push(delimiter_of(opt_zeros))
    } else {
        seq![QUOTE] + path + seq![QUOTE, delimiter_of(opt_zeros)]
    }
}

/// Writes a chosen path as the output of a select session.
pub fn format_selection(config: &Config, path_string: &Vec<u8>) -> (output: Vec<u8>)
    ensures
        output@ == selection_output(config.opt_raw, config.opt_zeros, path_string@),
{
    let delimiter = get_delimiter(config);
    let mut output: Vec<u8> = Vec::new();
    if config.opt_raw || config.opt_zeros {
        append_bytes(&mut output, path_string);
        output.push(delimiter);
        assert(output@ =~= path_string@.push(delimiter));
    } else {
        output.push(QUOTE);
        append_bytes(&mut output, path_string);
        output.push(QUOTE);
        output.push(delimiter);
        assert(output@ =~= seq![QUOTE] + path_string@ + seq![QUOTE, delimiter]);
    }
    output
}

/// What the selection of a version does next.
#[derive(Clone, Debug, PartialEq, Eq)]
pub enum SelectStep {
    /// Show the versions and let the user choose one.
    Ask,
    /// Restore from the snapshot version at this path.
    Restore(Vec<u8>),
    /// Write this out and end the session.
    Print(Vec<u8>),
}

/// Whether `step` is what follows once the snapshot version at `path` is
/// chosen: a restore in a restore session, the output of the path in any
/// other.
pub open spec fn follows_choice(
    step: SelectStep,
    config: Config,
    interactive_mode: InteractiveMode,
    path: Seq<u8>,
) -> bool {
    if interactive_mode == InteractiveMode::Restore {
        step is Restore && step->Restore_0@ == path
    } else {
        step is Print && step->Print_0@ == selection_output(config.opt_raw, config.opt_zeros, path)
    }
}

/// What `interactive_select` owes.
pub open spec fn select_outcome(
    found: Result<SelectStep, HttmError>,
    config: Config,
    paths_selected_in_browse: Seq<PathData>,
    map_live_to_snaps: Seq<(PathData, Vec<PathData>)>,
    interactive_mode: InteractiveMode,
    answer: Option<Seq<u8>>,
) -> bool {
    if map_live_to_snaps.len() == 0 {
        found == Err::<SelectStep, HttmError>(HttmError::NoSnapshotsForPaths)
    } else if config.opt_last_snap is Some {
        let counted = all_snap_versions(map_live_to_snaps).filter(
            differs_from_live(config.opt_omit_ditto, paths_selected_in_browse[0].system_time),
        );
        match found {
            Ok(step) => counted.len() > 0 && follows_choice(
                step,
                config,
                interactive_mode,
                counted.last().path_buf@,
            ),
            Err(error) => error == HttmError::NoLastSnapshot && counted.len() == 0,
        }
    } else {
        let chosen = match answer {
            Some(line) => chosen_version(line, map_live_to_snaps),
            None => None,
        };
        match chosen {
            Some(path) => found is Ok && follows_choice(
                found->Ok_0,
                config,
                interactive_mode,
                path,
            ),
            None => found is Ok && found->Ok_0 is Ask,
        }
    }
}

/// Decides what the selection of a version does next.
///
/// `map_live_to_snaps` holds each chosen live path with its snapshot
/// versions, and `answer` the line that the user chose in the view, if
/// the view was shown. Without any live path there is nothing to choose
/// from. Where the last snapshot is asked for it is taken without a view.
/// Otherwise the view is shown until a line names a snapshot version.
pub fn interactive_select(
    config: &Config,
    paths_selected_in_browse: &Vec<PathData>,
    map_live_to_snaps: &Vec<(PathData, Vec<PathData>)>,
    interactive_mode: &InteractiveMode,
    answer: Option<&Vec<u8>>,
) -> (found: Result<SelectStep, HttmError>)
    requires
        config.opt_last_snap is Some && map_live_to_snaps@.len() > 0
            ==> paths_selected_in_browse@.len() > 0,
    ensures
        select_outcome(
            found,
            *config,
            paths_selected_in_browse@,
            map_live_to_snaps@,
            *interactive_mode,
            match answer {
                Some(line) => Some(line@),
                None => None,
            },
        ),
{
    if map_live_to_snaps.len() == 0 {
        return Err(HttmError::NoSnapshotsForPaths);
    }
    let path_string = if config.opt_last_snap.is_some() {
        match last_snap_version(config, &paths_selected_in_browse[0], map_live_to_snaps) {
            Ok(path) => path,
            Err(error) => {
                return Err(error);
            },
        }
    } else {
        let chosen = match answer {
            Some(line) => parse_selection(line, map_live_to_snaps),
            None => None,
        };
        match chosen {
            Some(path) => path,
            None => {
                return Ok(SelectStep::Ask);
            },
        }
    };
    match interactive_mode {
        InteractiveMode::Restore => Ok(SelectStep::Restore(path_string)),
        _ => Ok(SelectStep::Print(format_selection(config, &path_string))),
    }
}

/// Whether two records are the same: they name the same path and hold the
/// same metadata.
pub open spec fn same_record(first: PathData, second: PathData) -> bool {
    &&& same_path(first.path_buf@, second.path_buf@)
    &&& first.system_time == second.system_time
    &&& first.size == second.size
    &&& first.is_phantom == second.is_phantom
}

/// Whether two records are the same.
pub fn is_same_record(first: &PathData, second: &PathData) -> (same: bool)
    ensures
        same == same_record(*first, *second),
{
    first.system_time == second.system_time && first.size == second.size && first.is_phantom
        == second.is_phantom && is_same_path(&first.path_buf, &second.path_buf)
}

/// Whether `snap_version` is one of the snapshot versions of `entry`.
pub open spec fn holds_version(entry: (PathData, Vec<PathData>), snap_version: PathData) -> bool {
    exists|k: int| 0 <= k < entry.1@.len() && same_record(#[trigger] entry.1@[k], snap_version)
}

/// Whether one of `versions` is `snap_version`.
fn has_version(entry: &(PathData, Vec<PathData>), snap_version: &PathData) -> (yes: bool)
    ensures
        yes == holds_version(*entry, *snap_version),
{
    let mut k: usize = 0;
    while k < entry.1.len()
        invariant
            k <= entry.1.len(),
            forall|seen: int| 0 <= seen < k ==> !same_record(#[trigger] entry.1@[seen], *snap_version),
        decreases entry.1.len() - k,
    {
        if is_same_record(&entry.1[k], snap_version) {
            assert(same_record(entry.1@[k as int], *snap_version));
            return true;
        }
        k = k + 1;
    }
    false
}

/// What marks a restored file: it stands between the name of the file and
/// the time of the snapshot version.
pub open spec fn restored_mark() -> Seq<u8> {
    text_bytes(".httm_restored.")
}

/// The name under which a snapshot version is restored beside the live
/// files: its file name, the mark, and the time it was modified at.
pub open spec fn restored_name(file_name: Seq<u8>, timestamp: Seq<u8>) -> Seq<u8> {
    file_name + restored_mark() + timestamp
}

/// What `restore_destination` owes.
pub open spec fn destination_outcome(
    found: Result<Vec<u8>, HttmError>,
    config: Config,
    snap_pathdata: PathData,
    map_live_to_snaps: Seq<(PathData, Vec<PathData>)>,
    timestamp: Seq<u8>,
) -> bool {
    if snap_pathdata.is_phantom {
        found == Err::<Vec<u8>, HttmError>(HttmError::SourceMissing)
    } else if config.opt_overwrite {
        match found {
            Ok(path) => exists|at: int|
                0 <= at < map_live_to_snaps.len() && #[trigger] holds_version(
                    map_live_to_snaps[at],
                    snap_pathdata,
                ) && path@ == map_live_to_snaps[at].0.path_buf@ && forall|before: int|
                    0 <= before < at ==> !#[trigger] holds_version(
                        map_live_to_snaps[before],
                        snap_pathdata,
                    ),
            Err(error) => error == HttmError::NoOriginalPath && forall|at: int|
                0 <= at < map_live_to_snaps.len() ==> !#[trigger] holds_version(
                    map_live_to_snaps[at],
                    snap_pathdata,
                ),
        }
    } else {
        found is Ok && found->Ok_0@ == joined(
            config.pwd.path_buf@,
            restored_name(file_name_of(snap_pathdata.path_buf@)->0, timestamp),
        )
    }
}

/// Decides where a snapshot version is restored to.
///
/// A version that is not on disk cannot be restored. Where the live file
/// is to be overwritten, the destination is the first of the chosen live
/// paths that has the snapshot version among its versions. Otherwise it is
/// a new file in the working directory, named after the snapshot version
/// and `timestamp`, the time the version was modified at as the caller
/// writes it.
pub fn restore_destination(
    config: &Config,
    snap_pathdata: &PathData,
    map_live_to_snaps: &Vec<(PathData, Vec<PathData>)>,
    timestamp: &Vec<u8>,
) -> (found: Result<Vec<u8>, HttmError>)
    requires
        !snap_pathdata.is_phantom && !config.opt_overwrite ==> file_name_of(
            snap_pathdata.path_buf@,
        ) is Some,
    ensures
        destination_outcome(found, *config, *snap_pathdata, map_live_to_snaps@, timestamp@),
{
    if snap_pathdata.is_phantom {
        return Err(HttmError::SourceMissing);
    }
    if config.opt_overwrite {
        let mut at: usize = 0;
        while at < map_live_to_snaps.len()
            invariant
                at <= map_live_to_snaps.len(),
                !snap_pathdata.is_phantom,
                config.opt_overwrite,
                forall|before: int|
                    0 <= before < at ==> !#[trigger] holds_version(
                        map_live_to_snaps@[before],
                        *snap_pathdata,
                    ),
            decreases map_live_to_snaps.len() - at,
        {
            if has_version(&map_live_to_snaps[at], snap_pathdata) {
                return Ok(copy_bytes(&map_live_to_snaps[at].0.path_buf));
            }
            at = at + 1;
        }
        Err(HttmError::NoOriginalPath)
    } else {
        let mut new_filename = match file_name(&snap_pathdata.path_buf) {
            Some(snap_filename) => snap_filename,
            None => Vec::new(),
        };
        append_bytes(&mut new_filename, &text_to_bytes(".httm_restored."));
        append_bytes(&mut new_filename, timestamp);
        Ok(join(&config.pwd.path_buf, &new_filename))
    }
}

/// A byte with a small letter of the alphabet turned into the capital.
pub open spec fn upper_byte(byte: u8) -> u8 {
    if 97 <= byte <= 122 {
        (byte - 32) as u8
    } else {
        byte
    }
}

/// A text with its small letters turned into capitals.
pub open spec fn upper(text: Seq<u8>) -> Seq<u8> {
    text.map_values(|byte: u8| upper_byte(byte))
}

/// Turns the small letters of a text into capitals.
pub fn to_upper(text: &Vec<u8>) -> (capitals: Vec<u8>)
    ensures
        capitals@ == upper(text@),
{
    let mut capitals: Vec<u8> = Vec::new();
    let mut at: usize = 0;
    while at < text.len()
        invariant
            at <= text.len(),
            capitals.len() == at,
            forall|k: int| 0 <= k < at ==> capitals@[k] == upper_byte(text@[k]),
        decreases text.len() - at,
    {
        let byte = text[at];
        if 97 <= byte && byte <= 122 {
            capitals.push(byte - 32);
        } else {
            capitals.push(byte);
        }
        at = at + 1;
    }
    assert(capitals@ =~= upper(text@));
    capitals
}

/// What the user has answered to the question whether to restore.
#[derive(Clone, Copy, Debug, PartialEq, Eq, Structural)]
pub enum Consent {
    Yes,
    No,
    Unclear,
}

/// How an answer is read: `YES` and `Y` consent, `NO` and `N` decline, in
/// small letters or in capitals, and anything else is no answer.
pub open spec fn consent_of(answer: Seq<u8>) -> Consent {
    if upper(answer) == seq![89u8, 69u8, 83u8] || upper(answer) == seq![89u8] {
        Consent::Yes
    } else if upper(answer) == seq![78u8, 79u8] || upper(answer) == seq![78u8] {
        Consent::No
    } else {
        Consent::Unclear
    }
}

/// Reads the answer to the question whether to restore.
pub fn parse_consent(answer: &Vec<u8>) -> (consent: Consent)
    ensures
        consent == consent_of(answer@),
{
    let capitals = to_upper(answer);
    let yes: Vec<u8> = vec![89u8, 69u8, 83u8];
    let y: Vec<u8> = vec![89u8];
    let no: Vec<u8> = vec![78u8, 79u8];
    let n: Vec<u8> = vec![78u8];
    assert(yes@ =~= seq![89u8, 69u8, 83u8]);
    assert(y@ =~= seq![89u8]);
    assert(no@ =~= seq![78u8, 79u8]);
    assert(n@ =~= seq![78u8]);
    if bytes_equal(&capitals, &yes) || bytes_equal(&capitals, &y) {
        Consent::Yes
    } else if bytes_equal(&capitals, &no) || bytes_equal(&capitals, &n) {
        Consent::No
    } else {
        Consent::Unclear
    }
}

/// What a restore does next.
#[derive(Clone, Copy, Debug, PartialEq, Eq, Structural)]
pub enum RestoreStep {
    /// Say what will be copied where, and ask for consent.
    AskConsent,
    /// Copy the snapshot version to the destination.
    Copy,
    /// The user has declined: nothing is restored.
    Declined,
}

/// What a restore does next, or why it cannot go on: a new file is never
/// written over one that is there, and nothing is copied before the user
/// has consented.
pub open spec fn restore_step(
    opt_overwrite: bool,
    destination_exists: bool,
    answer: Option<Seq<u8>>,
) -> Result<RestoreStep, HttmError> {
    if !opt_overwrite && destination_exists {
        Err(HttmError::DestinationExists)
    } else {
        match answer {
            Some(text) => match consent_of(text) {
                Consent::Yes => Ok(RestoreStep::Copy),
                Consent::No => Ok(RestoreStep::Declined),
                Consent::Unclear => Ok(RestoreStep::AskConsent),
            },
            None => Ok(RestoreStep::AskConsent),
        }
    }
}

/// Decides what a restore does next, once its destination is known.
/// `destination_exists` says whether a file is at the destination, and
/// `answer` holds what the user answered when asked for consent, if the
/// question was put.
pub fn interactive_restore(config: &Config, destination_exists: bool, answer: Option<&Vec<u8>>) -> (step:
    Result<RestoreStep, HttmError>)
    ensures
        step == restore_step(
            config.opt_overwrite,
            destination_exists,
            match answer {
                Some(text) => Some(text@),
                None => None,
            },
        ),
{
    if !config.opt_overwrite && destination_exists {
        return Err(HttmError::DestinationExists);
    }
    match answer {
        Some(text) => match parse_consent(text) {
            Consent::Yes => Ok(RestoreStep::Copy),
            Consent::No => Ok(RestoreStep::Declined),
            Consent::Unclear => Ok(RestoreStep::AskConsent),
        },
        None => Ok(RestoreStep::AskConsent),
    }
}

/// The preview command of a select or restore view: the command that
/// previews a version where a preview is asked for, nothing otherwise.
pub fn select_restore_preview(opt_preview: &Option<Vec<u8>>, opt_live_version: &Option<Vec<u8>>) -> (command:
    Vec<u8>)
    ensures
        command@ == match *opt_preview {
            Some(defined_command) => preview_command(
                defined_command@,
                match *opt_live_version {
                    Some(live_version) => Some(live_version@),
                    None => None,
                },
            ),
            None => Seq::<u8>::empty(),
        },
{
    match opt_preview {
        Some(defined_command) => parse_preview_command(defined_command, opt_live_version),
        None => Vec::new(),
    }
}

} // verus!
