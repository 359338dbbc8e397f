//! The per-station mismatch report: a Markdown page naming the station,
//! its status and files, the details of what went wrong, the candidate
//! comparison, and notes on the marked-up images and the corrections.
use vstd::prelude::*;
use crate::comparison::{status_label, status_needs_report, ComparisonRow, ComparisonStatus};
use crate::names::{file_safe, safe_file_part};
use crate::problems::{correction_details_upto, correction_issue_details_from_row};
use crate::render::{candidate_note, candidate_note_for_report};
use crate::text::{split_str, strs, trim_end};
use crate::textops::{append_chars, from_chars, is_whitespace, push_str, split_str_chars, to_chars};

verus! {

broadcast use vstd::string::group_string_axioms;

/// The name the report files of a station start with: `station-` and the
/// station code made safe for a file name.
pub open spec fn report_base_name(station: Seq<char>) -> Seq<char> {
    "station-"@ + station.map_values(|c: char| file_safe(c))
}

/// The base name of the report files of a row's station.
pub fn mismatch_report_base_name(row: &ComparisonRow) -> (r: String)
    ensures
        r@ == report_base_name(row.station@),
{
    let safe = safe_file_part(row.station.as_str());
    let mut v = to_chars("station-");
    let w = to_chars(safe.as_str());
    append_chars(&mut v, &w);
    from_chars(&v)
}

/// A Markdown list with one item per entry of `items`.
pub open spec fn bullet_list(items: Seq<Seq<char>>) -> Seq<char>
    decreases items.len(),
{
    if items.len() == 0 {
        Seq::empty()
    } else {
        bullet_list(items.drop_last()) + "- "@ + items.last() + "\n"@
    }
}

/// A Markdown list with one item per non-empty entry of `items`.
pub open spec fn nonempty_bullet_list(items: Seq<Seq<char>>) -> Seq<char>
    decreases items.len(),
{
    if items.len() == 0 {
        Seq::empty()
    } else if items.last().len() == 0 {
        nonempty_bullet_list(items.drop_last())
    } else {
        nonempty_bullet_list(items.drop_last()) + "- "@ + items.last() + "\n"@
    }
}

/// The explanation given for a correction-inconsistent row.
pub open spec fn correction_inconsistency_intro() -> Seq<char> {
    "The correction table does not line up with the first-count Markdown. Inspect the correction crop before treating this as a plain official-result mismatch.\n\n"@
}

/// The head of a mismatch report: the station and its location, its status
/// and the files compared.
pub open spec fn report_head(row: ComparisonRow) -> Seq<char> {
    "# Station "@ + row.station@ + (if row.location@.len() > 0 {
        " - "@ + row.location@
    } else {
        Seq::empty()
    }) + "\n\n"@ + "- Status: `"@ + status_label(row.status) + "`\n"@ + (match row.markdown_path {
        Some(p) => "- Markdown: `"@ + p@ + "`\n"@,
        None => Seq::empty(),
    }) + (match row.correction_path {
        Some(p) => "- Correction OCR: `"@ + p@ + "`\n"@,
        None => Seq::empty(),
    })
}

/// The sections of a mismatch report about what went wrong: for a
/// correction-inconsistent row the correction details, then every detail.
pub open spec fn report_sections(row: ComparisonRow) -> Seq<char> {
    let ds = split_str(row.details@, "; "@);
    (if row.status == ComparisonStatus::CorrectionInconsistent {
        "\n## Correction Inconsistency\n\n"@ + correction_inconsistency_intro() + bullet_list(
            correction_details_upto(ds, ds.len() as int),
        )
    } else {
        Seq::empty()
    }) + "\n## Details\n\n"@ + nonempty_bullet_list(ds)
}

/// The mismatch report of a row, given the note on its marked-up table
/// image and the note on its corrections (the latter only for a station
/// with a problem of its own).
pub open spec fn mismatch_report_text(
    row: ComparisonRow,
    image_note: Seq<char>,
    correction_note: Seq<char>,
) -> Seq<char> {
    report_head(row) + report_sections(row) + candidate_note(row) + image_note + (
    if status_needs_report(row.status) {
        correction_note
    } else {
        Seq::empty()
    })
}

/// Appends one list item per entry.
fn push_bullets(m: &mut Vec<char>, items: &Vec<Vec<char>>, skip_empty: bool)
    ensures
        final(m)@ == old(m)@ + if skip_empty {
            nonempty_bullet_list(items@.map_values(|v: Vec<char>| v@))
        } else {
            bullet_list(items@.map_values(|v: Vec<char>| v@))
        },
{
    let ghost start = m@;
    let ghost iv = items@.map_values(|v: Vec<char>| v@);
    let mut k: usize = 0;
    while k < items.len()
        invariant
            k <= items@.len(),
            iv == items@.map_values(|v: Vec<char>| v@),
            m@ == start + if skip_empty {
                nonempty_bullet_list(iv.take(k as int))
            } else {
                bullet_list(iv.take(k as int))
            },
        decreases items@.len() - k,
    {
        proof {
            assert(iv.take(k + 1).drop_last() =~= iv.take(k as int));
            assert(iv.take(k + 1).last() == items@[k as int]@);
        }
        if !(skip_empty && items[k].len() == 0) {
            let ghost before = m@;
            push_str(m, "- ");
            append_chars(m, &items[k]);
            push_str(m, "\n");
            assert(m@ =~= before + "- "@ + items@[k as int]@ + "\n"@);
        }
        k = k + 1;
    }
    assert(iv.take(items@.len() as int) =~= iv);
}

/// The mismatch report of a row, given the note on its marked-up table
/// image and the note on its corrections; the latter is left out unless
/// the station itself has a problem.
#[verifier::spinoff_prover]
#[verifier::rlimit(40)]
pub fn mismatch_report_markdown(row: &ComparisonRow, image_note: &str, correction_note: &str) -> (r:
    String)
    requires
        row.official_values.wf(),
    ensures
        r@ == mismatch_report_text(*row, image_note@, correction_note@),
{
    proof {
        reveal_strlit("; ");
    }
    let mut m = to_chars("# Station ");
    let st = to_chars(row.station.as_str());
    append_chars(&mut m, &st);
    let loc = to_chars(row.location.as_str());
    if loc.len() > 0 {
        push_str(&mut m, " - ");
        append_chars(&mut m, &loc);
    }
    push_str(&mut m, "\n\n");
    push_str(&mut m, "- Status: `");
    push_str(&mut m, row.status.label());
    push_str(&mut m, "`\n");
    match &row.markdown_path {
        Some(p) => {
            push_str(&mut m, "- Markdown: `");
            push_str(&mut m, p.as_str());
            push_str(&mut m, "`\n");
        },
        None => {},
    }
    match &row.correction_path {
        Some(p) => {
            push_str(&mut m, "- Correction OCR: `");
            push_str(&mut m, p.as_str());
            push_str(&mut m, "`\n");
        },
        None => {},
    }
    assert(m@ =~= report_head(*row));
    let ghost head = m@;
    if row.status == ComparisonStatus::CorrectionInconsistent {
        push_str(&mut m, "\n## Correction Inconsistency\n\n");
        push_str(
            &mut m,
            "The correction table does not line up with the first-count Markdown. Inspect the correction crop before treating this as a plain official-result mismatch.\n\n",
        );
        let issues = correction_issue_details_from_row(row);
        let issue_chars = crate::textops::strings_to_chars(&issues);
        assert(issue_chars@.map_values(|v: Vec<char>| v@) =~= strs(issues@));
        push_bullets(&mut m, &issue_chars, false);
    }
    push_str(&mut m, "\n## Details\n\n");
    let dv = to_chars(row.details.as_str());
    let ds = split_str_chars(&dv, "; ");
    push_bullets(&mut m, &ds, true);
    assert(m@ =~= head + report_sections(*row));
    let note = candidate_note_for_report(row);
    push_str(&mut m, note.as_str());
    push_str(&mut m, image_note);
    if status_is_reported(row.status) {
        push_str(&mut m, correction_note);
    }
    assert(m@ =~= mismatch_report_text(*row, image_note@, correction_note@));
    from_chars(&m)
}

/// Whether a station with this status gets a report of its own problem.
fn status_is_reported(s: ComparisonStatus) -> (r: bool)
    ensures
        r == status_needs_report(s),
{
    match s {
        ComparisonStatus::Incomplete => true,
        ComparisonStatus::CorrectionInconsistent => true,
        ComparisonStatus::InternallyInconsistent => true,
        ComparisonStatus::Mismatch => true,
        _ => false,
    }
}

/// The note on the highlighted table image of a report.
pub open spec fn highlighted_image_note_text(image_name: Seq<char>) -> Seq<char> {
    "\nLegend: yellow/red = official CSV mismatch; blue = internal consistency issue. The right margin shows OCR and official values for official mismatches.\n\n![Highlighted table rows]("@
        + image_name + ")\n"@
}

/// The note on the highlighted table image `image_name` of a report.
pub fn highlighted_image_note(image_name: &str) -> (r: String)
    ensures
        r@ == highlighted_image_note_text(image_name@),
{
    let mut m = to_chars(
        "\nLegend: yellow/red = official CSV mismatch; blue = internal consistency issue. The right margin shows OCR and official values for official mismatches.\n\n![Highlighted table rows](",
    );
    push_str(&mut m, image_name);
    push_str(&mut m, ")\n");
    from_chars(&m)
}

/// The note of a report whose full table crop `path` does not exist.
pub fn missing_table_crop_note(path: &str) -> (r: String)
    ensures
        r@ == "\nFull table crop not found: `"@ + path@ + "`\n"@,
{
    let mut m = to_chars("\nFull table crop not found: `");
    push_str(&mut m, path);
    push_str(&mut m, "`\n");
    from_chars(&m)
}

/// The note of a report on a row without a Markdown file.
pub fn no_markdown_note() -> (r: String)
    ensures
        r@ == "\nNo source Markdown file is available for this row.\n"@,
{
    "\nNo source Markdown file is available for this row.\n".to_owned()
}

/// `s` without trailing whitespace.
pub fn trim_end_chars(v: &Vec<char>) -> (r: Vec<char>)
    ensures
        r@ == trim_end(v@),
{
    let mut j: usize = v.len();
    assert(v@.subrange(0, j as int) =~= v@);
    while j > 0 && is_whitespace(v[j - 1])
        invariant
            j <= v.len(),
            trim_end(v@) == trim_end(v@.subrange(0, j as int)),
        decreases j,
    {
        assert(v@.subrange(0, j as int).drop_last() =~= v@.subrange(0, j - 1));
        j = j - 1;
    }
    crate::textops::subrange_chars(v, 0, j)
}

/// The block quoting a correction OCR table read from `path`: the table
/// in a Markdown code block, or why it could not be read.
pub open spec fn correction_block(path: Seq<char>, read: Result<Seq<char>, Seq<char>>) -> Seq<char> {
    match read {
        Ok(markdown) => "```markdown\n"@ + trim_end(markdown) + "\n```\n"@,
        Err(error) => "Could not read correction OCR `"@ + path + "`: "@ + error + "\n"@,
    }
}

/// What the corrections section says of the correction table crop: its
/// image when the crop exists, or that it was not found.
pub open spec fn crop_line(base_name: Seq<char>, crop: Option<(Seq<char>, bool)>) -> Seq<char> {
    match crop {
        Some((path, true)) => "\n![Correction table]("@ + base_name + "-corrections.png)\n"@,
        Some((path, false)) => "\nCorrection table crop not found: `"@ + path + "`\n"@,
        None => Seq::empty(),
    }
}

/// The corrections section of a report: nothing for a row with neither a
/// Markdown nor a correction file; otherwise the correction table read
/// from the row's correction file (`read` is what reading it gave), or
/// that there is none, then the line on the correction table crop (`crop`
/// is its path and whether it exists, if a crop is known).
pub open spec fn correction_note_text(
    row: ComparisonRow,
    base_name: Seq<char>,
    read: Result<Seq<char>, Seq<char>>,
    crop: Option<(Seq<char>, bool)>,
) -> Seq<char> {
    if row.markdown_path is None && row.correction_path is None {
        Seq::empty()
    } else {
        "\n## Corrections\n\n"@ + (match row.correction_path {
            Some(p) => correction_block(p@, read),
            None => "No correction OCR Markdown is available for this station.\n"@,
        }) + crop_line(base_name, crop)
    }
}

/// The corrections section of the report of `row`, whose files start with
/// `base_name`: `read` is what reading its correction file gave (used only
/// when it has one), `crop` the path of its correction table crop and
/// whether that exists, when a crop is known.
pub fn correction_note_for_report(
    row: &ComparisonRow,
    base_name: &str,
    read: &Result<String, String>,
    crop: Option<(&str, bool)>,
) -> (r: String)
    ensures
        r@ == correction_note_text(
            *row,
            base_name@,
            match read {
                Ok(s) => Ok(s@),
                Err(e) => Err(e@),
            },
            match crop {
                Some((p, e)) => Some((p@, e)),
                None => None,
            },
        ),
{
    if row.markdown_path.is_none() && row.correction_path.is_none() {
        return String::new();
    }
    let mut m = to_chars("\n## Corrections\n\n");
    match &row.correction_path {
        Some(p) => match read {
            Ok(markdown) => {
                push_str(&mut m, "```markdown\n");
                let v = to_chars(markdown.as_str());
                let t = trim_end_chars(&v);
                append_chars(&mut m, &t);
                push_str(&mut m, "\n```\n");
            },
            Err(error) => {
                push_str(&mut m, "Could not read correction OCR `");
                push_str(&mut m, p.as_str());
                push_str(&mut m, "`: ");
                push_str(&mut m, error.as_str());
                push_str(&mut m, "\n");
            },
        },
        None => {
            push_str(&mut m, "No correction OCR Markdown is available for this station.\n");
        },
    }
    match crop {
        Some((path, true)) => {
            push_str(&mut m, "\n![Correction table](");
            push_str(&mut m, base_name);
            push_str(&mut m, "-corrections.png)\n");
        },
        Some((path, false)) => {
            push_str(&mut m, "\nCorrection table crop not found: `");
            push_str(&mut m, path);
            push_str(&mut m, "`\n");
        },
        None => {},
    }
    from_chars(&m)
}

} // verus!
