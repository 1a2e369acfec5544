//! The decisions of the batch modes: which format to read, where repaired
//! records go and what becomes of each, which records a deduplicated export
//! keeps, and on which port the server listens.

use vstd::prelude::*;
use vstd::string::StringSliceAdditionalSpecFns;
use vstd::utf8::valid_utf8;
use crate::data::{Dataset, record, record_count};
use crate::engine::{DedupResult, DedupStrategy};
use crate::fixer::{count_for, Fixer, FixResult, FixSummary, Outcome, repair, tally};
use crate::format::{format_for_extension, format_for_name, InputFormat};
use crate::text::{
    decimal, extension_of, join_path, lowercase, parent_of, path_extension, path_join, path_parent,
    path_stem, push_decimal, push_str, stem_of, str_equal,
};

verus! {

// ─── Format ─────────────────────────────────────────────────────────────────

/// The format to read a file in: the one that is named, or the one that
/// the name of the file suggests when `auto` or no known format is named.
pub open spec fn chosen_format(named: Seq<char>, file: Seq<char>) -> InputFormat {
    if named == "auto"@ {
        format_for_extension(path_extension(file))
    } else {
        match format_for_name(lowercase(named)) {
            Some(format) => format,
            None => format_for_extension(path_extension(file)),
        }
    }
}

/// Choose the format to read a file in. The flag says whether a format
/// was named that is not known.
pub fn choose_format(named: &str, file: &str) -> (chosen: (InputFormat, bool))
    ensures
        chosen.0 == chosen_format(named@, file@),
        chosen.1 == (named@ != "auto"@ && format_for_name(lowercase(named@)) is None),
{
    if str_equal(named, "auto") {
        (InputFormat::detect(file), false)
    } else {
        match InputFormat::parse(named) {
            Some(format) => (format, false),
            None => (InputFormat::detect(file), true),
        }
    }
}

// ─── Deduplication ──────────────────────────────────────────────────────────

/// The strategy that a name stands for: exact when named so, similarity
/// with the given threshold for every other name.
pub fn strategy_for_name(name: &str, threshold: u32) -> (strategy: DedupStrategy)
    ensures
        strategy == if name@ == "exact"@ {
            DedupStrategy::Exact
        } else {
            DedupStrategy::SimHash { threshold }
        },
{
    if str_equal(name, "exact") {
        DedupStrategy::Exact
    } else {
        DedupStrategy::SimHash { threshold }
    }
}

/// The records among the first `n` that an export keeps: those that are
/// not flagged as duplicates and can be read, as bytes, in record order.
pub open spec fn kept_records(bytes: Seq<u8>, flags: Seq<bool>, n: nat) -> Seq<Seq<u8>>
    decreases n,
{
    if n == 0 {
        Seq::empty()
    } else {
        let earlier = kept_records(bytes, flags, (n - 1) as nat);
        if !(n - 1 < flags.len() && flags[n - 1]) && valid_utf8(record(bytes, n - 1)) {
            earlier.push(record(bytes, n - 1))
        } else {
            earlier
        }
    }
}

/// The lines that a deduplicated export writes: every record that the scan
/// did not flag as a duplicate, in record order.
pub fn export_unique<'a>(dataset: &'a Dataset, result: &DedupResult) -> (lines: Vec<&'a str>)
    ensures
        lines@.len() == kept_records(
            dataset.bytes(),
            result.duplicates@,
            record_count(dataset.bytes()),
        ).len(),
        forall|k: int|
            0 <= k < lines@.len() ==> (#[trigger] lines@[k]).spec_bytes() == kept_records(
                dataset.bytes(),
                result.duplicates@,
                record_count(dataset.bytes()),
            )[k],
{
    let count: usize = dataset.line_count();
    let mut lines: Vec<&'a str> = Vec::new();
    let mut i: usize = 0;
    while i < count
        invariant
            i <= count,
            count == record_count(dataset.bytes()),
            lines@.len() == kept_records(dataset.bytes(), result.duplicates@, i as nat).len(),
            forall|k: int|
                0 <= k < lines@.len() ==> (#[trigger] lines@[k]).spec_bytes() == kept_records(
                    dataset.bytes(),
                    result.duplicates@,
                    i as nat,
                )[k],
        decreases count - i,
    {
        if !result.is_duplicate(i) {
            match dataset.get_line(i) {
                Some(line) => {
                    lines.push(line);
                },
                None => {},
            }
        }
        i = i + 1;
    }
    lines
}

/// The bytes of the first `n` records that can be read, a newline after each.
pub open spec fn snapshot_bytes(bytes: Seq<u8>, n: nat) -> Seq<u8>
    decreases n,
{
    if n == 0 {
        Seq::empty()
    } else {
        let earlier = snapshot_bytes(bytes, (n - 1) as nat);
        if valid_utf8(record(bytes, n - 1)) {
            (earlier + record(bytes, n - 1)).push(0x0a)
        } else {
            earlier
        }
    }
}

/// A copy of a dataset for the server to read from: the records that can
/// be read, a newline after each, under the same path and format.
pub fn server_snapshot(dataset: &Dataset) -> (copy: Dataset)
    ensures
        copy.bytes() == snapshot_bytes(dataset.bytes(), record_count(dataset.bytes())),
        copy.path@ == dataset.path@,
        copy.format == dataset.format,
        copy.size == copy.bytes().len(),
{
    let count: usize = dataset.line_count();
    let mut buffer: Vec<u8> = Vec::new();
    let mut i: usize = 0;
    while i < count
        invariant
            i <= count,
            count == record_count(dataset.bytes()),
            buffer@ == snapshot_bytes(dataset.bytes(), i as nat),
        decreases count - i,
    {
        match dataset.get_line(i) {
            Some(line) => {
                buffer.extend_from_slice(line.as_bytes());
                buffer.push(0x0au8);
            },
            None => {},
        }
        i = i + 1;
    }
    Dataset::from_bytes(buffer, dataset.path.clone(), dataset.format)
}

// ─── Repair ─────────────────────────────────────────────────────────────────

/// The name of a repaired file next to its source: the stem of the source,
/// `_fixed`, and the extension of the source; for a source without an
/// extension, the whole source and `_fixed`.
pub open spec fn default_output(file: Seq<char>) -> Seq<char> {
    match path_extension(file) {
        Some(extension) => if extension.len() == 0 {
            file + "_fixed"@
        } else {
            path_join(
                match path_parent(file) {
                    Some(parent) => parent,
                    None => Seq::empty(),
                },
                (match path_stem(file) {
                    Some(stem) => stem,
                    None => Seq::empty(),
                }) + "_fixed."@ + extension,
            )
        },
        None => file + "_fixed"@,
    }
}

/// The path that repaired records are written to when none is given.
pub fn default_fix_output(file: &str) -> (path: String)
    ensures
        path@ == default_output(file@),
{
    proof {
        reveal_strlit("");
        assert(""@ =~= Seq::<char>::empty());
    }
    let extension: &str = match extension_of(file) {
        Some(extension) => extension,
        None => "",
    };
    if extension.is_empty() {
        proof {
            if path_extension(file@) is Some {
                assert(extension@.len() == 0);
            }
        }
        let mut path = file.to_owned();
        push_str(&mut path, "_fixed");
        path
    } else {
        let stem: &str = match stem_of(file) {
            Some(stem) => stem,
            None => "",
        };
        let parent: &str = match parent_of(file) {
            Some(parent) => parent,
            None => "",
        };
        let mut name = stem.to_owned();
        push_str(&mut name, "_fixed.");
        push_str(&mut name, extension);
        join_path(parent, name.as_str())
    }
}

/// Where repaired records go: the file they end up in, and the file they
/// are written to first. In place, that is the source itself, by way of a
/// temporary file next to it; else the path that is given, or the default
/// one, written directly.
pub fn fix_paths(file: &str, given: Option<&str>, in_place: bool) -> (paths: (String, String))
    ensures
        paths.0@ == if in_place {
            file@
        } else {
            match given {
                Some(path) => path@,
                None => default_output(file@),
            }
        },
        paths.1@ == if in_place {
            paths.0@ + ".tmp"@
        } else {
            paths.0@
        },
{
    if in_place {
        let mut temp = file.to_owned();
        push_str(&mut temp, ".tmp");
        (file.to_owned(), temp)
    } else {
        let output: String = match given {
            Some(path) => path.to_owned(),
            None => default_fix_output(file),
        };
        let temp = output.clone();
        (output, temp)
    }
}

/// What becomes of one record in a repair run: the line to write, if any,
/// and the note to show, if any.
pub struct RecordOutput {
    pub line: Option<String>,
    pub note: Option<String>,
}

/// What becomes of one record, over plain text.
pub struct OutputView {
    pub line: Option<Seq<char>>,
    pub note: Option<Seq<char>>,
}

impl View for RecordOutput {
    type V = OutputView;

    open spec fn view(&self) -> OutputView {
        OutputView {
            line: match self.line {
                Some(line) => Some(line@),
                None => None,
            },
            note: match self.note {
                Some(note) => Some(note@),
                None => None,
            },
        }
    }
}

/// The note for a record that was skipped.
pub open spec fn skip_note(index: nat, cause: Seq<char>, dropped: bool) -> Seq<char> {
    "Line "@ + decimal(index + 1) + ": "@ + cause + if dropped {
        " (skipped)"@
    } else {
        " (kept as-is)"@
    }
}

/// What becomes of record `index` with text `line`: a repaired or
/// unchanged record is written as the repair gives it; a record that is
/// skipped is written as it was, or dropped when invalid records are to be
/// left out, and noted either way.
pub open spec fn record_output(line: Seq<char>, index: nat, skip_invalid: bool) -> OutputView {
    match repair(line) {
        Outcome::Fixed { line: fixed, fixes } => OutputView { line: Some(fixed), note: None },
        Outcome::Unchanged(same) => OutputView { line: Some(same), note: None },
        Outcome::SkippedInvalid(message) => OutputView {
            line: if skip_invalid {
                None
            } else {
                Some(line)
            },
            note: Some(skip_note(index, "Invalid JSON: "@ + message, skip_invalid)),
        },
        Outcome::SkippedEmpty => OutputView {
            line: if skip_invalid {
                None
            } else {
                Some(line)
            },
            note: Some(skip_note(index, "Empty line"@, skip_invalid)),
        },
    }
}

/// Whether a summary can count one more record with these fixes.
pub open spec fn has_room(summary: FixSummary, fixes: nat) -> bool {
    &&& summary.total_lines < usize::MAX
    &&& summary.fixed_lines < usize::MAX
    &&& summary.unchanged_lines < usize::MAX
    &&& summary.skipped_lines < usize::MAX
    &&& forall|label: Seq<char>| count_for(summary.fixes_by_type@, label) + fixes <= usize::MAX
}

/// Whether `after` is `before` with one more record counted for the
/// outcome of its repair.
pub open spec fn counted(before: FixSummary, after: FixSummary, outcome: Outcome) -> bool {
    let fixed: int = if outcome is Fixed {
        1
    } else {
        0
    };
    let unchanged: int = if outcome is Unchanged {
        1
    } else {
        0
    };
    &&& after.total_lines == before.total_lines + 1
    &&& after.fixed_lines == before.fixed_lines + fixed
    &&& after.unchanged_lines == before.unchanged_lines + unchanged
    &&& after.skipped_lines == before.skipped_lines + 1 - fixed - unchanged
    &&& after.fixes_by_type@ == match outcome {
        Outcome::Fixed { line, fixes } => tally(before.fixes_by_type@, fixes, fixes.len()),
        _ => before.fixes_by_type@,
    }
}

/// Repair record `index` of a run and count it in the summary.
pub fn repair_record(
    fixer: &Fixer,
    line: &str,
    index: usize,
    skip_invalid: bool,
    summary: &mut FixSummary,
) -> (output: RecordOutput)
    requires
        has_room(*old(summary), 4),
    ensures
        output@ == record_output(line@, index as nat, skip_invalid),
        counted(*old(summary), *final(summary), repair(line@)),
{
    match fixer.fix_line(line) {
        FixResult::Fixed { line: fixed, fixes } => {
            proof {
                crate::fixer::lemma_repair_log(line@);
            }
            summary.record_fixed(fixes.as_slice());
            RecordOutput { line: Some(fixed), note: None }
        },
        FixResult::Unchanged(same) => {
            summary.record_unchanged();
            RecordOutput { line: Some(same), note: None }
        },
        FixResult::Skipped(reason) => {
            summary.record_skipped();
            let mut note = "Line ".to_owned();
            push_decimal(&mut note, index as u128 + 1);
            push_str(&mut note, ": ");
            push_str(&mut note, reason.description().as_str());
            if skip_invalid {
                push_str(&mut note, " (skipped)");
                RecordOutput { line: None, note: Some(note) }
            } else {
                push_str(&mut note, " (kept as-is)");
                RecordOutput { line: Some(line.to_owned()), note: Some(note) }
            }
        },
    }
}

// ─── Server ─────────────────────────────────────────────────────────────────

/// The port that the server listens on when none is given.
pub const DEFAULT_MCP_PORT: u16 = 3100;

/// The port to start the server on, if it is to be started: the port that
/// is given; or the default port when only the server is to run.
pub fn choose_mcp_port(given: u16, server_only: bool) -> (port: Option<u16>)
    ensures
        port == if given > 0 {
            Some(given)
        } else if server_only {
            Some(DEFAULT_MCP_PORT)
        } else {
            None
        },
{
    if given > 0 {
        Some(given)
    } else if server_only {
        Some(DEFAULT_MCP_PORT)
    } else {
        None
    }
}

} // verus!
