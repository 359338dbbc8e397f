//! The outcome of comparing one station's OCR Markdown with the official
//! results: statuses, comparison rows and the decision of each row.
use vstd::prelude::*;
use crate::candidates::CandidateValues;
use crate::compare::{
    inconsistencies, mismatches, reverse_errors, reverse_fits, reversed_values, votes_of,
    correction_inconsistency_details, official_mismatches, parse_votes_markdown_values,
    reverse_official_values, CorrectionDocument,
};
use crate::corrections::Correction;
use crate::text::{join, seqs, strs};
use crate::textops::{append_chars, from_chars, join_chars, strings_to_chars, to_chars};
use crate::validate::{is_skipped, validate_votes_markdown, vote_sums_fit, votes_errors};
use crate::votes::VoteValues;

verus! {

broadcast use vstd::string::group_string_axioms;

/// How a station's OCR result relates to the official result.
#[derive(Clone, Copy, Debug, PartialEq, Eq, Structural)]
pub enum ComparisonStatus {
    Missing,
    Incomplete,
    CorrectionInconsistent,
    InternallyInconsistent,
    FullyMatches,
    Mismatch,
}

/// The words for a comparison status.
pub open spec fn status_label(s: ComparisonStatus) -> Seq<char> {
    match s {
        ComparisonStatus::Missing => "missing"@,
        ComparisonStatus::Incomplete => "incomplete"@,
        ComparisonStatus::CorrectionInconsistent => "correction inconsistent"@,
        ComparisonStatus::InternallyInconsistent => "internally inconsistent"@,
        ComparisonStatus::FullyMatches => "fully matches"@,
        ComparisonStatus::Mismatch => "mismatch"@,
    }
}

impl ComparisonStatus {
    /// The words for this status, as reports show it.
    pub fn label(self) -> (r: &'static str)
        ensures
            r@ == status_label(self),
    {
        match self {
            ComparisonStatus::Missing => "missing",
            ComparisonStatus::Incomplete => "incomplete",
            ComparisonStatus::CorrectionInconsistent => "correction inconsistent",
            ComparisonStatus::InternallyInconsistent => "internally inconsistent",
            ComparisonStatus::FullyMatches => "fully matches",
            ComparisonStatus::Mismatch => "mismatch",
        }
    }
}

/// How a station's candidate OCR relates to the official candidate values.
#[derive(Clone, Copy, Debug, PartialEq, Eq, Structural)]
pub enum CandidateComparisonStatus {
    Incomplete,
    InternallyInconsistent,
    FullyMatches,
    Mismatch,
}

/// The words for a candidate comparison status.
pub open spec fn candidate_status_text(s: CandidateComparisonStatus) -> Seq<char> {
    match s {
        CandidateComparisonStatus::Incomplete => "incomplete"@,
        CandidateComparisonStatus::InternallyInconsistent => "internally inconsistent"@,
        CandidateComparisonStatus::FullyMatches => "fully matches"@,
        CandidateComparisonStatus::Mismatch => "mismatch"@,
    }
}

impl CandidateComparisonStatus {
    /// The words for this status, as reports show it.
    pub fn label(self) -> (r: &'static str)
        ensures
            r@ == candidate_status_text(self),
    {
        match self {
            CandidateComparisonStatus::Incomplete => "incomplete",
            CandidateComparisonStatus::InternallyInconsistent => "internally inconsistent",
            CandidateComparisonStatus::FullyMatches => "fully matches",
            CandidateComparisonStatus::Mismatch => "mismatch",
        }
    }
}

/// The comparison of a station's candidate OCR files with the official
/// candidate values.
#[derive(Debug)]
pub struct CandidateComparison {
    pub paths: Vec<String>,
    pub status: CandidateComparisonStatus,
    pub details: String,
    pub compared_values: usize,
    pub expected_values: usize,
}

/// The two candidate comparisons say the same.
pub open spec fn same_candidates(a: CandidateComparison, b: CandidateComparison) -> bool {
    &&& strs(a.paths@) == strs(b.paths@)
    &&& a.status == b.status
    &&& a.details@ == b.details@
    &&& a.compared_values == b.compared_values
    &&& a.expected_values == b.expected_values
}

/// The two optional candidate comparisons say the same.
pub open spec fn same_opt_candidates(a: Option<CandidateComparison>, b: Option<CandidateComparison>) -> bool {
    match (a, b) {
        (Some(x), Some(y)) => same_candidates(x, y),
        (None, None) => true,
        _ => false,
    }
}

/// A copy of a list of strings.
pub fn copy_strings(v: &Vec<String>) -> (r: Vec<String>)
    ensures
        strs(r@) == strs(v@),
{
    let mut out: Vec<String> = Vec::new();
    let mut i: usize = 0;
    while i < v.len()
        invariant
            i <= v.len(),
            strs(out@) == strs(v@).take(i as int),
        decreases v.len() - i,
    {
        let s = v[i].clone();
        let ghost old_out = strs(out@);
        out.push(s);
        assert(strs(out@) =~= old_out.push(s@));
        assert(strs(v@).take(i + 1) =~= strs(v@).take(i as int).push(v@[i as int]@));
        i = i + 1;
    }
    assert(strs(v@).take(v.len() as int) =~= strs(v@));
    out
}

impl CandidateComparison {
    /// A copy of this comparison.
    pub fn duplicate(&self) -> (r: CandidateComparison)
        ensures
            same_candidates(r, *self),
    {
        CandidateComparison {
            paths: copy_strings(&self.paths),
            status: self.status,
            details: self.details.clone(),
            compared_values: self.compared_values,
            expected_values: self.expected_values,
        }
    }
}

/// A copy of an optional candidate comparison.
pub fn duplicate_candidates(c: &Option<CandidateComparison>) -> (r: Option<CandidateComparison>)
    ensures
        same_opt_candidates(r, *c),
{
    match c {
        Some(x) => Some(x.duplicate()),
        None => None,
    }
}

/// The official results of one polling station.
#[derive(Debug)]
pub struct OfficialStationResult {
    pub location: String,
    pub values: VoteValues,
    pub candidate_values: CandidateValues,
}

impl OfficialStationResult {
    /// One value slot per vote row and candidate keys in order.
    pub open spec fn wf(&self) -> bool {
        self.values.wf() && self.candidate_values.wf()
    }
}

/// One line of the comparison report: a station's OCR file (or its absence)
/// against the official values.
#[derive(Debug)]
pub struct ComparisonRow {
    pub station: String,
    pub location: String,
    pub markdown_path: Option<String>,
    pub correction_path: Option<String>,
    pub official_values: VoteValues,
    pub status: ComparisonStatus,
    pub details: String,
    pub candidates: Option<CandidateComparison>,
}

/// The text of an optional string.
pub open spec fn opt_view(o: Option<String>) -> Option<Seq<char>> {
    match o {
        Some(s) => Some(s@),
        None => None,
    }
}

/// What a comparison needs of a correction document: whether it passed
/// validation, its validation errors and its corrections.
pub open spec fn doc_view(c: Option<&CorrectionDocument>) -> Option<
    (bool, Seq<Seq<char>>, Seq<Option<Correction>>),
> {
    match c {
        Some(d) => Some((d.validation.passed, strs(d.validation.errors@), d.corrections@)),
        None => None,
    }
}

/// The errors of validating the vote table `md` (none for a skipped file).
pub open spec fn vote_table_errors(md: Seq<char>) -> Seq<Seq<char>> {
    if is_skipped(md) {
        Seq::empty()
    } else {
        votes_errors(md)
    }
}

/// The status and details of a row, given the validation errors, the
/// official values compared with, the mismatches and the correction issues.
pub open spec fn settle(
    verrs: Seq<Seq<char>>,
    ov: Seq<Option<u32>>,
    mm: Seq<Seq<char>>,
    ci: Seq<Seq<char>>,
) -> (ComparisonStatus, Seq<char>, Seq<Option<u32>>) {
    if verrs.len() > 0 {
        (ComparisonStatus::InternallyInconsistent, join(verrs + ci + mm, "; "@), ov)
    } else if ci.len() > 0 {
        (ComparisonStatus::CorrectionInconsistent, join(ci + mm, "; "@), ov)
    } else if mm.len() == 0 {
        (ComparisonStatus::FullyMatches, Seq::empty(), ov)
    } else {
        (ComparisonStatus::Mismatch, join(mm, "; "@), ov)
    }
}

/// The status, details and official values of the row for the vote table
/// `md`, given the station's official values `off`, its correction document
/// and whether a first-count table is compared with recounted values.
pub open spec fn one_markdown_outcome(
    md: Seq<char>,
    off: Seq<Option<u32>>,
    doc: Option<(bool, Seq<Seq<char>>, Seq<Option<Correction>>)>,
    reverse: bool,
) -> (ComparisonStatus, Seq<char>, Seq<Option<u32>>) {
    let vals = votes_of(md);
    let verrs = vote_table_errors(md);
    let m2 = mismatches(vals, off);
    if !reverse || m2.len() == 0 {
        settle(verrs, off, m2, Seq::empty())
    } else {
        match doc {
            None => (ComparisonStatus::Incomplete, "missing correction OCR"@, off),
            Some((passed, errs, corr)) => if !passed {
                (
                    ComparisonStatus::Incomplete,
                    "invalid correction OCR: "@ + join(errs, "; "@),
                    off,
                )
            } else {
                let rerrs = reverse_errors(off, corr);
                let rv = reversed_values(off, corr);
                if rerrs.len() > 0 {
                    (
                        ComparisonStatus::CorrectionInconsistent,
                        "could not apply corrections: "@ + join(rerrs, "; "@),
                        rv,
                    )
                } else {
                    settle(verrs, rv, mismatches(vals, rv), inconsistencies(vals, off, corr))
                }
            },
        }
    }
}

/// What comparing the vote table `md` needs to stay within `u32`: its sums,
/// and the sums of the first-round values where they are computed.
pub open spec fn one_markdown_fits(
    md: Seq<char>,
    off: Seq<Option<u32>>,
    doc: Option<(bool, Seq<Seq<char>>, Seq<Option<Correction>>)>,
    reverse: bool,
) -> bool {
    &&& is_skipped(md) || vote_sums_fit(md)
    &&& reverse && mismatches(votes_of(md), off).len() > 0 ==> match doc {
        Some((passed, errs, corr)) => passed ==> reverse_fits(off, corr),
        None => true,
    }
}

/// `parts.join(sep)` for strings.
pub fn join_strings(parts: &Vec<String>, sep: &str) -> (r: Vec<char>)
    ensures
        r@ == join(strs(parts@), sep@),
{
    let c = strings_to_chars(parts);
    join_chars(&c, sep)
}

/// Appends the strings of `b` to `a`.
fn extend_lines(a: &mut Vec<Vec<char>>, b: &Vec<String>)
    ensures
        seqs(final(a)@) == seqs(old(a)@) + strs(b@),
{
    let ghost a0 = seqs(a@);
    let mut i: usize = 0;
    while i < b.len()
        invariant
            i <= b.len(),
            seqs(a@) == a0 + strs(b@).take(i as int),
        decreases b.len() - i,
    {
        let c = to_chars(b[i].as_str());
        let ghost before = seqs(a@);
        a.push(c);
        assert(seqs(a@) =~= before.push(c@));
        assert(strs(b@).take(i + 1) =~= strs(b@).take(i as int).push(b@[i as int]@));
        assert(a0 + strs(b@).take(i + 1) =~= (a0 + strs(b@).take(i as int)).push(b@[i as int]@));
        i = i + 1;
    }
    assert(strs(b@).take(b.len() as int) =~= strs(b@));
}

/// The status and details for validation errors `verrs`, mismatches `mm`
/// and correction issues `ci`.
fn settle_exec(verrs: &Vec<String>, mm: &Vec<String>, ci: &Vec<String>) -> (r: (
    ComparisonStatus,
    String,
))
    ensures
        r.0 == settle(strs(verrs@), Seq::empty(), strs(mm@), strs(ci@)).0,
        r.1@ == settle(strs(verrs@), Seq::empty(), strs(mm@), strs(ci@)).1,
{
    if verrs.len() > 0 {
        let mut all: Vec<Vec<char>> = Vec::new();
        assert(seqs(all@) =~= Seq::<Seq<char>>::empty());
        extend_lines(&mut all, verrs);
        extend_lines(&mut all, ci);
        extend_lines(&mut all, mm);
        assert(Seq::<Seq<char>>::empty() + strs(verrs@) + strs(ci@) + strs(mm@) =~= strs(verrs@)
            + strs(ci@) + strs(mm@));
        let d = join_chars(&all, "; ");
        (ComparisonStatus::InternallyInconsistent, from_chars(&d))
    } else if ci.len() > 0 {
        let mut all: Vec<Vec<char>> = Vec::new();
        assert(seqs(all@) =~= Seq::<Seq<char>>::empty());
        extend_lines(&mut all, ci);
        extend_lines(&mut all, mm);
        assert(Seq::<Seq<char>>::empty() + strs(ci@) + strs(mm@) =~= strs(ci@) + strs(mm@));
        let d = join_chars(&all, "; ");
        (ComparisonStatus::CorrectionInconsistent, from_chars(&d))
    } else if mm.len() == 0 {
        (ComparisonStatus::FullyMatches, String::new())
    } else {
        let d = join_strings(mm, "; ");
        (ComparisonStatus::Mismatch, from_chars(&d))
    }
}

/// A row for `path` with the given outcome.
fn row_for(
    path: &str,
    station_code: &str,
    official: &OfficialStationResult,
    correction_path: Option<String>,
    official_values: VoteValues,
    status: ComparisonStatus,
    details: String,
    candidates: Option<CandidateComparison>,
) -> (r: ComparisonRow)
    ensures
        r.station@ == station_code@,
        r.location@ == official.location@,
        opt_view(r.markdown_path) == Some(path@),
        r.correction_path == correction_path,
        r.official_values == official_values,
        r.status == status,
        r.details == details,
        r.candidates == candidates,
{
    ComparisonRow {
        station: station_code.to_owned(),
        location: official.location.clone(),
        markdown_path: Some(path.to_owned()),
        correction_path,
        official_values,
        status,
        details,
        candidates,
    }
}

/// Compares the OCR vote table read from `path` (its text, or the reason
/// it could not be read) with the station's official values. Where a first
/// count is compared with recounted official values and they differ, the
/// station's corrections are undone first; a missing, invalid or
/// inapplicable correction document makes the row incomplete or
/// correction-inconsistent. A table that fails validation makes the row
/// internally inconsistent; correction issues make it correction
/// inconsistent; otherwise it fully matches or mismatches.
pub fn compare_one_markdown(
    path: &str,
    markdown: &Result<String, String>,
    station_code: &str,
    official: &OfficialStationResult,
    correction: Option<&CorrectionDocument>,
    candidates: Option<CandidateComparison>,
    reverse_corrections: bool,
) -> (r: ComparisonRow)
    requires
        official.wf(),
        match correction {
            Some(d) => d.wf(),
            None => true,
        },
        match markdown {
            Ok(md) => one_markdown_fits(
                md@,
                official.values@,
                doc_view(correction),
                reverse_corrections,
            ),
            Err(_) => true,
        },
    ensures
        r.station@ == station_code@,
        r.location@ == official.location@,
        opt_view(r.markdown_path) == Some(path@),
        opt_view(r.correction_path) == match correction {
            Some(d) => Some(d.path@),
            None => None,
        },
        r.official_values.wf(),
        r.candidates == candidates,
        match markdown {
            Err(e) => {
                &&& r.status == ComparisonStatus::InternallyInconsistent
                &&& r.details@ == "could not read Markdown: "@ + e@
                &&& r.official_values@ == official.values@
            },
            Ok(md) => (r.status, r.details@, r.official_values@) == one_markdown_outcome(
                md@,
                official.values@,
                doc_view(correction),
                reverse_corrections,
            ),
        },
{
    let correction_path = match correction {
        Some(d) => Some(d.path.clone()),
        None => None,
    };
    let md = match markdown {
        Ok(m) => m,
        Err(e) => {
            let mut d = to_chars("could not read Markdown: ");
            let ec = to_chars(e.as_str());
            append_chars(&mut d, &ec);
            return row_for(
                path,
                station_code,
                official,
                correction_path,
                official.values.duplicate(),
                ComparisonStatus::InternallyInconsistent,
                from_chars(&d),
                candidates,
            );
        },
    };
    let validation = validate_votes_markdown(md.as_str());
    let values = parse_votes_markdown_values(md.as_str());
    let round_two_mismatches = official_mismatches(&values, &official.values);
    if !reverse_corrections || round_two_mismatches.len() == 0 {
        let no_issues: Vec<String> = Vec::new();
        let (status, details) = settle_exec(&validation.errors, &round_two_mismatches, &no_issues);
        return row_for(
            path,
            station_code,
            official,
            correction_path,
            official.values.duplicate(),
            status,
            details,
            candidates,
        );
    }
    let doc = match correction {
        Some(d) => d,
        None => {
            return row_for(
                path,
                station_code,
                official,
                None,
                official.values.duplicate(),
                ComparisonStatus::Incomplete,
                "missing correction OCR".to_owned(),
                candidates,
            );
        },
    };
    if !doc.validation.passed {
        let mut d = to_chars("invalid correction OCR: ");
        let j = join_strings(&doc.validation.errors, "; ");
        append_chars(&mut d, &j);
        return row_for(
            path,
            station_code,
            official,
            correction_path,
            official.values.duplicate(),
            ComparisonStatus::Incomplete,
            from_chars(&d),
            candidates,
        );
    }
    let (official_values, correction_errors) = reverse_official_values(&official.values, doc);
    if correction_errors.len() > 0 {
        let mut d = to_chars("could not apply corrections: ");
        let j = join_strings(&correction_errors, "; ");
        append_chars(&mut d, &j);
        return row_for(
            path,
            station_code,
            official,
            correction_path,
            official_values,
            ComparisonStatus::CorrectionInconsistent,
            from_chars(&d),
            candidates,
        );
    }
    let mm = official_mismatches(&values, &official_values);
    let ci = correction_inconsistency_details(&values, &official.values, doc);
    let (status, details) = settle_exec(&validation.errors, &mm, &ci);
    row_for(
        path,
        station_code,
        official,
        correction_path,
        official_values,
        status,
        details,
        candidates,
    )
}

/// The status is one that a mismatch report is written for.
pub open spec fn status_needs_report(s: ComparisonStatus) -> bool {
    match s {
        ComparisonStatus::Incomplete => true,
        ComparisonStatus::CorrectionInconsistent => true,
        ComparisonStatus::InternallyInconsistent => true,
        ComparisonStatus::Mismatch => true,
        _ => false,
    }
}

/// Whether the row's station-level status calls for a mismatch report:
/// incomplete, correction inconsistent, internally inconsistent or
/// mismatch.
pub fn station_needs_mismatch_report(row: &ComparisonRow) -> (r: bool)
    ensures
        r == status_needs_report(row.status),
{
    match row.status {
        ComparisonStatus::Incomplete => true,
        ComparisonStatus::CorrectionInconsistent => true,
        ComparisonStatus::InternallyInconsistent => true,
        ComparisonStatus::Mismatch => true,
        _ => false,
    }
}

/// The row calls for a mismatch report: its station status does, or its
/// candidate comparison does not fully match.
pub open spec fn row_needs_report(row: ComparisonRow) -> bool {
    status_needs_report(row.status) || match row.candidates {
        Some(c) => c.status != CandidateComparisonStatus::FullyMatches,
        None => false,
    }
}

/// Whether the row calls for a mismatch report: its station status does,
/// or its candidate comparison exists and does not fully match.
pub fn row_needs_mismatch_report(row: &ComparisonRow) -> (r: bool)
    ensures
        r == row_needs_report(*row),
{
    station_needs_mismatch_report(row) || match &row.candidates {
        Some(c) => c.status != CandidateComparisonStatus::FullyMatches,
        None => false,
    }
}

/// The note given to a row that calls for a report while no candidate OCR
/// was compared.
pub open spec fn no_candidate_ocr_note() -> Seq<char> {
    "candidate OCR not available; known list/correction issues are shown"@
}

/// Whether marking the row for missing candidate OCR applies: the row calls
/// for a report, has no candidate comparison, and the station has official
/// candidate values.
pub open spec fn marks_missing_candidates(row: ComparisonRow, official: OfficialStationResult) -> bool {
    status_needs_report(row.status) && row.candidates is None && official.candidate_values@.len() > 0
}

/// Gives a row that calls for a report, but has no candidate comparison, an
/// incomplete candidate comparison when the station has official candidate
/// values, so that the report shows the known list and correction issues.
pub fn mark_missing_candidate_ocr_incomplete(row: &mut ComparisonRow, official: &OfficialStationResult)
    ensures
        final(row).station == old(row).station,
        final(row).location == old(row).location,
        final(row).markdown_path == old(row).markdown_path,
        final(row).correction_path == old(row).correction_path,
        final(row).official_values == old(row).official_values,
        final(row).status == old(row).status,
        final(row).details == old(row).details,
        if marks_missing_candidates(*old(row), *official) {
            &&& final(row).candidates is Some
            &&& final(row).candidates->0.paths@.len() == 0
            &&& final(row).candidates->0.status == CandidateComparisonStatus::Incomplete
            &&& final(row).candidates->0.details@ == no_candidate_ocr_note()
            &&& final(row).candidates->0.compared_values == 0
            &&& final(row).candidates->0.expected_values == official.candidate_values@.len()
        } else {
            final(row).candidates == old(row).candidates
        },
{
    if !station_needs_mismatch_report(row) || row.candidates.is_some()
        || official.candidate_values.entries.len() == 0 {
        return;
    }
    row.candidates = Some(
        CandidateComparison {
            paths: Vec::new(),
            status: CandidateComparisonStatus::Incomplete,
            details: "candidate OCR not available; known list/correction issues are shown".to_owned(),
            compared_values: 0,
            expected_values: official.candidate_values.entries.len(),
        },
    );
}

} // verus!
