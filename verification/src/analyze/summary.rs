//! The human-readable summary of a run, printed at the end of compression.
use vstd::prelude::*;
use crate::analyze::report::{skip_reason_text, FileResult, FileStatus, Report};
use crate::text::texts;
use crate::utils::{decimal, format_size, format_size_spec, push_decimal};

verus! {

/// A line of sixty `=`.
pub open spec fn wide_rule() -> Seq<char> {
    "============================================================"@
}

/// The mark a file's status is shown with.
pub open spec fn status_icon(st: FileStatus) -> Seq<char> {
    match st {
        FileStatus::Compressed => "✓"@,
        FileStatus::Skipped => "⚠"@,
        FileStatus::Error => "✗"@,
    }
}

/// The head of the summary: title, counts, sizes with the total reduction,
/// and the elapsed time (the two figures already formatted).
pub open spec fn summary_head(report: Report, total_reduction: Seq<char>, elapsed: Seq<char>) -> Seq<
    char,
> {
    let s = report.summary;
    "\n"@ + wide_rule() + "\n"@ + "  pdf-slim "@ + report.version@ + " — "@ + report.preset@ + "\n"@
        + wide_rule() + "\n"@ + "  Files: "@ + decimal(s.total_files as nat) + " total, "@ + decimal(
        s.compressed as nat,
    ) + " compressed, "@ + decimal(s.skipped as nat) + " skipped, "@ + decimal(s.errors as nat)
        + " error\n"@ + "  Size:  "@ + format_size_spec(s.total_original_size_bytes as nat)
        + " → "@ + format_size_spec(s.total_output_size_bytes as nat) + " ("@ + total_reduction
        + "% reduction)\n"@ + "  Time: "@ + elapsed + "s\n"@
}

/// The sizes shown for a file: the original, and where it has an output,
/// the output size and its reduction (already formatted).
pub open spec fn file_detail(f: FileResult, reduction: Seq<char>) -> Seq<char> {
    match f.output_size_bytes {
        Some(out) => " "@ + format_size_spec(f.original_size_bytes as nat) + " → "@
            + format_size_spec(out as nat) + " ("@ + reduction + "%)"@,
        None => " "@ + format_size_spec(f.original_size_bytes as nat),
    }
}

/// The skip reason shown for a file, if any.
pub open spec fn file_reason(f: FileResult) -> Seq<char> {
    match f.skip_reason {
        Some(r) => " ("@ + skip_reason_text(r) + ")"@,
        None => seq![],
    }
}

/// The error line shown under a file, if any.
pub open spec fn file_error(f: FileResult) -> Seq<char> {
    match f.error {
        Some(e) => "       — "@ + e@ + "\n"@,
        None => seq![],
    }
}

/// The summary lines of one file: its mark, path, sizes (with its reduction,
/// already formatted, where it has an output), skip reason, and error.
pub open spec fn file_lines(f: FileResult, reduction: Seq<char>) -> Seq<char> {
    "  "@ + status_icon(f.status) + " "@ + f.input_path@ + file_detail(f, reduction) + file_reason(f)
        + "\n"@ + file_error(f)
}

/// The summary lines of the files, in order.
pub open spec fn files_lines(files: Seq<FileResult>, reductions: Seq<Seq<char>>) -> Seq<char>
    decreases files.len(),
{
    if files.len() == 0 {
        seq![]
    } else {
        files_lines(files.drop_last(), reductions.take(files.len() - 1)) + file_lines(
            files.last(),
            reductions[files.len() - 1],
        )
    }
}

/// No file, no lines.
pub proof fn lemma_files_lines_empty(reductions: Seq<Seq<char>>)
    ensures
        files_lines(Seq::<FileResult>::empty(), reductions) == Seq::<char>::empty(),
{
}

/// One more file adds its own lines, shown with its own reduction: the
/// lines of file `i` carry reduction `i`.
pub proof fn lemma_files_lines_push(
    files: Seq<FileResult>,
    reductions: Seq<Seq<char>>,
    f: FileResult,
    r: Seq<char>,
)
    requires
        reductions.len() == files.len(),
    ensures
        files_lines(files.push(f), reductions.push(r)) == files_lines(files, reductions) + file_lines(
            f,
            r,
        ),
{
    assert(files.push(f).drop_last() =~= files);
    assert(reductions.push(r).take(files.len() as int) =~= reductions);
}

/// The whole summary printed after a run.
pub open spec fn summary_text_spec(
    report: Report,
    total_reduction: Seq<char>,
    elapsed: Seq<char>,
    file_reductions: Seq<Seq<char>>,
) -> Seq<char> {
    summary_head(report, total_reduction, elapsed) + files_lines(report.files@, file_reductions)
        + wide_rule() + "\n"@
}

/// Appends the sizes shown for a file.
fn push_file_detail(s: &mut String, f: &FileResult, reduction: &str)
    ensures
        final(s)@ == old(s)@ + file_detail(*f, reduction@),
{
    let ghost start = s@;
    s.append(" ");
    let original = format_size(f.original_size_bytes);
    s.append(original.as_str());
    match f.output_size_bytes {
        Some(out) => {
            s.append(" → ");
            let output = format_size(out);
            s.append(output.as_str());
            s.append(" (");
            s.append(reduction);
            s.append("%)");
        },
        None => {},
    }
    assert(s@ =~= start + file_detail(*f, reduction@));
}

/// Appends the skip reason shown for a file.
fn push_file_reason(s: &mut String, f: &FileResult)
    ensures
        final(s)@ == old(s)@ + file_reason(*f),
{
    let ghost start = s@;
    match f.skip_reason {
        Some(r) => {
            s.append(" (");
            let phrase = r.to_string();
            s.append(phrase.as_str());
            s.append(")");
        },
        None => {},
    }
    assert(s@ =~= start + file_reason(*f));
}

/// Appends the error line shown under a file.
fn push_file_error(s: &mut String, f: &FileResult)
    ensures
        final(s)@ == old(s)@ + file_error(*f),
{
    let ghost start = s@;
    match &f.error {
        Some(e) => {
            s.append("       — ");
            s.append(e.as_str());
            s.append("\n");
        },
        None => {},
    }
    assert(s@ =~= start + file_error(*f));
}

/// Appends the summary lines of one file.
fn push_file_lines(s: &mut String, f: &FileResult, reduction: &str)
    ensures
        final(s)@ == old(s)@ + file_lines(*f, reduction@),
{
    let ghost start = s@;
    s.append("  ");
    match f.status {
        FileStatus::Compressed => s.append("✓"),
        FileStatus::Skipped => s.append("⚠"),
        FileStatus::Error => s.append("✗"),
    }
    s.append(" ");
    s.append(f.input_path.as_str());
    push_file_detail(s, f, reduction);
    push_file_reason(s, f);
    s.append("\n");
    push_file_error(s, f);
    assert(s@ =~= start + file_lines(*f, reduction@));
}

/// The human-readable summary of a run: title, file counts, total sizes
/// with the reduction, elapsed time, and one entry per file. The floating
/// figures come already formatted: the total reduction, the elapsed
/// seconds, and each file's reduction (read only where it has an output).
pub fn summary_text(
    report: &Report,
    total_reduction: &str,
    elapsed: &str,
    file_reductions: &Vec<String>,
) -> (s: String)
    requires
        file_reductions@.len() == report.files@.len(),
    ensures
        s@ == summary_text_spec(*report, total_reduction@, elapsed@, texts(file_reductions@)),
{
    let mut s = String::new();
    let rule = "============================================================";
    s.append("\n");
    s.append(rule);
    s.append("\n");
    s.append("  pdf-slim ");
    s.append(report.version.as_str());
    s.append(" — ");
    s.append(report.preset.as_str());
    s.append("\n");
    s.append(rule);
    s.append("\n");
    s.append("  Files: ");
    push_decimal(&mut s, report.summary.total_files as u64);
    s.append(" total, ");
    push_decimal(&mut s, report.summary.compressed as u64);
    s.append(" compressed, ");
    push_decimal(&mut s, report.summary.skipped as u64);
    s.append(" skipped, ");
    push_decimal(&mut s, report.summary.errors as u64);
    s.append(" error\n");
    s.append("  Size:  ");
    let original = format_size(report.summary.total_original_size_bytes);
    s.append(original.as_str());
    s.append(" → ");
    let output = format_size(report.summary.total_output_size_bytes);
    s.append(output.as_str());
    s.append(" (");
    s.append(total_reduction);
    s.append("% reduction)\n");
    s.append("  Time: ");
    s.append(elapsed);
    s.append("s\n");
    assert(s@ =~= summary_head(*report, total_reduction@, elapsed@));
    let ghost head = s@;
    let ghost reds = texts(file_reductions@);
    let n = report.files.len();
    let mut i: usize = 0;
    while i < n
        invariant
            n == report.files@.len(),
            reds.len() == n,
            reds == texts(file_reductions@),
            file_reductions@.len() == n,
            i <= n,
            s@ == head + files_lines(report.files@.take(i as int), reds.take(i as int)),
        decreases n - i,
    {
        proof {
            let fs = report.files@.take(i + 1);
            assert(fs.drop_last() =~= report.files@.take(i as int));
            assert(reds.take(i + 1).take(i as int) =~= reds.take(i as int));
            assert(reds.take(i + 1)[i as int] == file_reductions@[i as int]@);
        }
        push_file_lines(&mut s, &report.files[i], file_reductions[i].as_str());
        proof {
            assert(s@ =~= head + files_lines(report.files@.take(i + 1), reds.take(i + 1)));
        }
        i = i + 1;
    }
    proof {
        assert(report.files@.take(n as int) =~= report.files@);
        assert(reds.take(n as int) =~= reds);
    }
    s.append(rule);
    s.append("\n");
    s
}

} // verus!
