//! What an OCR run reports: a Markdown table with one line per image, and
//! the progress line with its estimate of the time remaining.
use vstd::prelude::*;
use crate::render::{escape_markdown_table_cell, escaped_cell};
use crate::text::{dec, strs};
use crate::textops::{append_chars, dec_chars, from_chars, join_chars, push_str, strings_to_chars, to_chars};
use crate::tools::{duration_text, format_duration};
use crate::validate::ValidationReport;

verus! {

broadcast use vstd::string::group_string_axioms;

/// What an OCR run did for an image.
pub enum OcrAction {
    Generated,
    Existing,
    Skipped,
    FailedToGenerate(String),
}

/// The outcome of the OCR of one image: its stem, where its Markdown went,
/// what was done and how the Markdown validated.
pub struct ImageOcrReport {
    pub stem: String,
    pub output_path: String,
    pub action: OcrAction,
    pub validation: ValidationReport,
}

/// The status column of a report line.
pub open spec fn ocr_status(v: ValidationReport) -> Seq<char> {
    if v.skipped {
        "SKIP"@
    } else if v.passed {
        "PASS"@
    } else {
        "FAIL"@
    }
}

/// The action column of a report line.
pub open spec fn ocr_action_text(a: OcrAction) -> Seq<char> {
    match a {
        OcrAction::Generated => "generated"@,
        OcrAction::Existing => "existing"@,
        OcrAction::Skipped => "skipped"@,
        OcrAction::FailedToGenerate(_) => "failed"@,
    }
}

/// The details column of a report line: the error of a failed generation,
/// else the output path when the Markdown validated without errors, else
/// the validation errors.
pub open spec fn ocr_details(r: ImageOcrReport) -> Seq<char> {
    match r.action {
        OcrAction::FailedToGenerate(e) => escaped_cell(e@),
        _ => if r.validation.errors@.len() == 0 {
            r.output_path@
        } else {
            escaped_cell(crate::text::join(strs(r.validation.errors@), "; "@))
        },
    }
}

/// The report line of one image.
pub open spec fn ocr_report_line(r: ImageOcrReport) -> Seq<char> {
    "| "@ + ocr_status(r.validation) + " | "@ + ocr_action_text(r.action) + " | "@ + escaped_cell(r.stem@)
        + " | "@ + ocr_details(r) + " |\n"@
}

/// The report lines of the first `k` images.
pub open spec fn ocr_report_lines(rs: Seq<ImageOcrReport>, k: int) -> Seq<char>
    decreases k,
{
    if k <= 0 {
        Seq::empty()
    } else {
        ocr_report_lines(rs, k - 1) + ocr_report_line(rs[k - 1])
    }
}

/// The report of an OCR run titled `title`.
pub open spec fn ocr_report_text(title: Seq<char>, rs: Seq<ImageOcrReport>) -> Seq<char> {
    "\n"@ + title + ":\n"@ + "| Status | Action | Item | Details |\n"@ + "|---|---|---|---|\n"@
        + ocr_report_lines(rs, rs.len() as int)
}

/// The report line of one image.
fn ocr_line(r: &ImageOcrReport) -> (s: Vec<char>)
    ensures
        s@ == ocr_report_line(*r),
{
    let mut m = to_chars("| ");
    let status = if r.validation.skipped {
        "SKIP"
    } else if r.validation.passed {
        "PASS"
    } else {
        "FAIL"
    };
    push_str(&mut m, status);
    push_str(&mut m, " | ");
    let action = match &r.action {
        OcrAction::Generated => "generated",
        OcrAction::Existing => "existing",
        OcrAction::Skipped => "skipped",
        OcrAction::FailedToGenerate(_) => "failed",
    };
    push_str(&mut m, action);
    push_str(&mut m, " | ");
    let stem = escape_markdown_table_cell(r.stem.as_str());
    push_str(&mut m, stem.as_str());
    push_str(&mut m, " | ");
    let details = match &r.action {
        OcrAction::FailedToGenerate(e) => escape_markdown_table_cell(e.as_str()),
        _ => if r.validation.errors.len() == 0 {
            r.output_path.clone()
        } else {
            proof {
                reveal_strlit("; ");
            }
            let parts = strings_to_chars(&r.validation.errors);
            let joined = join_chars(&parts, "; ");
            let j = from_chars(&joined);
            escape_markdown_table_cell(j.as_str())
        },
    };
    push_str(&mut m, details.as_str());
    push_str(&mut m, " |\n");
    m
}

/// The report of an OCR run titled `title`: a Markdown table with each
/// image's status (`SKIP`, `PASS` or `FAIL`), action, stem and details.
pub fn print_ocr_report(title: &str, reports: &Vec<ImageOcrReport>) -> (r: String)
    ensures
        r@ == ocr_report_text(title@, reports@),
{
    let mut m = to_chars("\n");
    push_str(&mut m, title);
    push_str(&mut m, ":\n");
    push_str(&mut m, "| Status | Action | Item | Details |\n");
    push_str(&mut m, "|---|---|---|---|\n");
    let ghost head = m@;
    let mut k: usize = 0;
    while k < reports.len()
        invariant
            k <= reports@.len(),
            m@ == head + ocr_report_lines(reports@, k as int),
        decreases reports@.len() - k,
    {
        let line = ocr_line(&reports[k]);
        append_chars(&mut m, &line);
        k = k + 1;
    }
    from_chars(&m)
}

/// The report of a vote-table OCR run.
pub fn print_ocr_votes_report(reports: &Vec<ImageOcrReport>) -> (r: String)
    ensures
        r@ == ocr_report_text("Voting location OCR results"@, reports@),
{
    print_ocr_report("Voting location OCR results", reports)
}

/// Whether to print progress after `completed` of `total` items: never for
/// a single item or before the first is done; always after the first and
/// the last; otherwise when nothing was printed yet or at least half an
/// hour (`since_last_millis`) has passed since the last print.
pub open spec fn progress_due(completed: nat, total: nat, since_last_millis: Option<u128>) -> bool {
    total > 1 && completed > 0 && (completed == 1 || completed == total || match since_last_millis {
        Some(ms) => ms >= 1800000,
        None => true,
    })
}

/// The estimated time remaining in milliseconds: the time per completed
/// item times the items left (the product capped at the largest `u128`),
/// capped at the largest `u64`.
pub open spec fn remaining_millis(completed: nat, total: nat, elapsed_millis: u128) -> nat {
    let left = if total > completed {
        (total - completed) as nat
    } else {
        0nat
    };
    let product = if elapsed_millis * left > u128::MAX {
        u128::MAX as nat
    } else {
        (elapsed_millis * left) as nat
    };
    let r = product / completed;
    if r > u64::MAX {
        u64::MAX as nat
    } else {
        r
    }
}

/// The progress line after `completed` of `total` items, `elapsed_millis`
/// into the run.
pub open spec fn progress_text(completed: nat, total: nat, elapsed_millis: u128) -> Seq<char> {
    "progress "@ + dec(completed) + "/"@ + dec(total) + "; elapsed "@ + duration_text(
        (elapsed_millis / 1000) as nat,
    ) + "; ETA remaining "@ + duration_text(remaining_millis(completed, total, elapsed_millis) / 1000)
}

/// The progress line to print after `completed` of `total` items,
/// `elapsed_millis` into the run and `since_last_millis` after the last
/// progress line (if any): `None` when no line is due.
pub fn progress_eta_line(
    completed: usize,
    total: usize,
    elapsed_millis: u128,
    since_last_millis: Option<u128>,
) -> (r: Option<String>)
    requires
        elapsed_millis / 1000 <= u64::MAX,
    ensures
        match r {
            Some(s) => progress_due(completed as nat, total as nat, since_last_millis) && s@
                == progress_text(completed as nat, total as nat, elapsed_millis),
            None => !progress_due(completed as nat, total as nat, since_last_millis),
        },
{
    if total <= 1 || completed == 0 {
        return None;
    }
    let due = completed == 1 || completed == total || match since_last_millis {
        Some(ms) => ms >= 1800000,
        None => true,
    };
    if !due {
        return None;
    }
    let left: u128 = if total > completed {
        (total - completed) as u128
    } else {
        0
    };
    let product: u128 = match elapsed_millis.checked_mul(left) {
        Some(p) => p,
        None => u128::MAX,
    };
    let per: u128 = product / (completed as u128);
    let remaining: u64 = if per > (u64::MAX as u128) {
        u64::MAX
    } else {
        per as u64
    };
    let mut m = to_chars("progress ");
    let c = dec_chars(completed as u64);
    append_chars(&mut m, &c);
    push_str(&mut m, "/");
    let t = dec_chars(total as u64);
    append_chars(&mut m, &t);
    push_str(&mut m, "; elapsed ");
    let e = format_duration((elapsed_millis / 1000) as u64);
    push_str(&mut m, e.as_str());
    push_str(&mut m, "; ETA remaining ");
    let rem = format_duration(remaining / 1000);
    push_str(&mut m, rem.as_str());
    Some(from_chars(&m))
}

} // verus!
