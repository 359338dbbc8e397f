//! Comparison of every station: the rows of the comparison report, one per
//! OCR vote table, in the order of the official station columns, followed
//! by the OCR tables of stations the official results lack.
use vstd::prelude::*;
use crate::candidate_compare::{
    candidate_contents_fit, candidate_outcome, compare_candidate_markdown_to_official,
    contents_view,
};
use crate::compare::CorrectionDocument;
use crate::comparison::{
    compare_one_markdown, duplicate_candidates, mark_missing_candidate_ocr_incomplete,
    no_candidate_ocr_note, one_markdown_fits, one_markdown_outcome, status_needs_report,
    CandidateComparison, CandidateComparisonStatus, ComparisonRow, ComparisonStatus,
    OfficialStationResult,
};
use crate::corrections::Correction;
use crate::official::{last_station, lemma_last_station, OfficialResults};
use crate::paths::{display_file_name, display_name, file_stem_of, path_file_stem};
use crate::text::{contains, strs};
use crate::textops::{append_chars, chars_eq, contains_str, from_chars, to_chars};
use crate::votes::{no_values, VoteValues};

verus! {

broadcast use vstd::string::group_string_axioms;

/// The OCR files found for one station: their paths and their texts (or
/// the reasons they could not be read).
#[derive(Debug)]
pub struct StationFiles {
    pub station: String,
    pub paths: Vec<String>,
    pub contents: Vec<Result<String, String>>,
}

impl StationFiles {
    /// One text per path.
    pub open spec fn wf(&self) -> bool {
        self.paths@.len() == self.contents@.len()
    }
}

/// A station's correction document.
#[derive(Debug)]
pub struct StationCorrection {
    pub station: String,
    pub document: CorrectionDocument,
}

/// What a report shows of a candidate comparison.
pub type CandView = (Seq<Seq<char>>, CandidateComparisonStatus, Seq<char>, nat, nat);

/// What a report shows of a comparison row.
pub type RowView = (
    Seq<char>,
    Seq<char>,
    Option<Seq<char>>,
    Option<Seq<char>>,
    Seq<Option<u32>>,
    ComparisonStatus,
    Seq<char>,
    Option<CandView>,
);

pub open spec fn cand_view(c: CandidateComparison) -> CandView {
    (strs(c.paths@), c.status, c.details@, c.compared_values as nat, c.expected_values as nat)
}

pub open spec fn opt_cand_view(c: Option<CandidateComparison>) -> Option<CandView> {
    match c {
        Some(x) => Some(cand_view(x)),
        None => None,
    }
}

pub open spec fn opt_string_view(o: Option<String>) -> Option<Seq<char>> {
    match o {
        Some(s) => Some(s@),
        None => None,
    }
}

pub open spec fn row_view(r: ComparisonRow) -> RowView {
    (
        r.station@,
        r.location@,
        opt_string_view(r.markdown_path),
        opt_string_view(r.correction_path),
        r.official_values@,
        r.status,
        r.details@,
        opt_cand_view(r.candidates),
    )
}

pub open spec fn rows_view(rows: Seq<ComparisonRow>) -> Seq<RowView> {
    rows.map_values(|r: ComparisonRow| row_view(r))
}

/// The first entry of `files` for station `code`.
pub open spec fn files_index(files: Seq<StationFiles>, code: Seq<char>) -> Option<int> {
    files_index_from(files, code, 0)
}

pub open spec fn files_index_from(files: Seq<StationFiles>, code: Seq<char>, k: int) -> Option<int>
    decreases files.len() - k,
{
    if k < 0 || k >= files.len() {
        None
    } else if files[k].station@ == code {
        Some(k)
    } else {
        files_index_from(files, code, k + 1)
    }
}

/// The first correction document of station `code`.
pub open spec fn doc_index_from(docs: Seq<StationCorrection>, code: Seq<char>, k: int) -> Option<int>
    decreases docs.len() - k,
{
    if k < 0 || k >= docs.len() {
        None
    } else if docs[k].station@ == code {
        Some(k)
    } else {
        doc_index_from(docs, code, k + 1)
    }
}

/// The correction document of station `code`, if any.
pub open spec fn station_doc(docs: Seq<StationCorrection>, code: Seq<char>) -> Option<CorrectionDocument> {
    match doc_index_from(docs, code, 0) {
        Some(i) => Some(docs[i].document),
        None => None,
    }
}

/// What a comparison needs of an optional correction document.
pub open spec fn doc_spec(d: Option<CorrectionDocument>) -> Option<(bool, Seq<Seq<char>>, Seq<Option<Correction>>)> {
    match d {
        Some(x) => Some((x.validation.passed, strs(x.validation.errors@), x.corrections@)),
        None => None,
    }
}

/// The path of an optional correction document.
pub open spec fn doc_path(d: Option<CorrectionDocument>) -> Option<Seq<char>> {
    match d {
        Some(x) => Some(x.path@),
        None => None,
    }
}

/// The OCR vote table at `p` is a first count: its file stem contains
/// `_eerste_telling`.
pub open spec fn is_first_count(p: Seq<char>) -> bool {
    match file_stem_of(p) {
        Some(stem) => contains(stem, "_eerste_telling"@),
        None => false,
    }
}

/// Whether the OCR vote table at `path` is a first count.
pub fn is_first_count_markdown(path: &str) -> (r: bool)
    ensures
        r == is_first_count(path@),
{
    match path_file_stem(path) {
        Some(stem) => {
            let v = to_chars(stem.as_str());
            contains_str(&v, "_eerste_telling")
        },
        None => false,
    }
}

/// The official result of station `code`: that of the last column with the
/// code.
pub open spec fn station_of(res: OfficialResults, code: Seq<char>) -> OfficialStationResult {
    res.stations@[last_station(strs(res.station_order@), code, res.station_order@.len() as int)->0]
}

/// The view of the text of a file, or of the reason it was not read.
pub open spec fn content_view(c: Result<String, String>) -> Result<Seq<char>, Seq<char>> {
    match c {
        Ok(s) => Ok(s@),
        Err(e) => Err(e@),
    }
}

/// The row for one OCR vote table of station `code`.
pub open spec fn one_row_view(
    path: Seq<char>,
    content: Result<Seq<char>, Seq<char>>,
    code: Seq<char>,
    official: OfficialStationResult,
    doc: Option<CorrectionDocument>,
    cand: Option<CandView>,
    reverse: bool,
) -> RowView {
    match content {
        Err(e) => (
            code,
            official.location@,
            Some(path),
            doc_path(doc),
            official.values@,
            ComparisonStatus::InternallyInconsistent,
            "could not read Markdown: "@ + e,
            cand,
        ),
        Ok(md) => {
            let o = one_markdown_outcome(md, official.values@, doc_spec(doc), reverse);
            (code, official.location@, Some(path), doc_path(doc), o.2, o.0, o.1, cand)
        },
    }
}

/// A row with an incomplete candidate comparison added when it calls for a
/// report but has none, and the station has official candidate values.
pub open spec fn mark_view(r: RowView, official: OfficialStationResult) -> RowView {
    if status_needs_report(r.5) && r.7 is None && official.candidate_values@.len() > 0 {
        (
            r.0,
            r.1,
            r.2,
            r.3,
            r.4,
            r.5,
            r.6,
            Some(
                (
                    Seq::empty(),
                    CandidateComparisonStatus::Incomplete,
                    no_candidate_ocr_note(),
                    0,
                    official.candidate_values@.len(),
                ),
            ),
        )
    } else {
        r
    }
}

/// The candidate comparison of station `code`, when it has candidate files.
pub open spec fn station_cand(
    official: OfficialStationResult,
    cfiles: Seq<StationFiles>,
    code: Seq<char>,
) -> Option<CandView> {
    match files_index(cfiles, code) {
        Some(k) => {
            let f = cfiles[k];
            let o = candidate_outcome(
                official.candidate_values@,
                strs(f.paths@),
                contents_view(f.contents@),
            );
            Some((strs(f.paths@), o.0, o.1, o.2, o.3))
        },
        None => None,
    }
}

/// The rows of station `code` of the official results.
pub open spec fn station_rows(
    res: OfficialResults,
    files: Seq<StationFiles>,
    docs: Seq<StationCorrection>,
    cfiles: Seq<StationFiles>,
    reverse: bool,
    code: Seq<char>,
) -> Seq<RowView> {
    let official = station_of(res, code);
    let cand = station_cand(official, cfiles, code);
    let doc = station_doc(docs, code);
    match files_index(files, code) {
        Some(k) => Seq::new(
            files[k].paths@.len(),
            |j: int|
                mark_view(
                    one_row_view(
                        files[k].paths@[j]@,
                        content_view(files[k].contents@[j]),
                        code,
                        official,
                        doc,
                        cand,
                        reverse && is_first_count(files[k].paths@[j]@),
                    ),
                    official,
                ),
        ),
        None => seq![
            mark_view(
                (
                    code,
                    official.location@,
                    None,
                    doc_path(doc),
                    official.values@,
                    ComparisonStatus::Missing,
                    "no Markdown result"@,
                    cand,
                ),
                official,
            ),
        ],
    }
}

/// The rows of the first `k` official stations, in column order.
pub open spec fn official_rows_upto(
    res: OfficialResults,
    files: Seq<StationFiles>,
    docs: Seq<StationCorrection>,
    cfiles: Seq<StationFiles>,
    reverse: bool,
    k: int,
) -> Seq<RowView>
    decreases k,
{
    if k <= 0 {
        Seq::empty()
    } else {
        official_rows_upto(res, files, docs, cfiles, reverse, k - 1) + station_rows(
            res,
            files,
            docs,
            cfiles,
            reverse,
            res.station_order@[k - 1]@,
        )
    }
}

/// The rows of the OCR files of station entry `f`, which the official
/// results lack.
pub open spec fn unknown_station_rows(
    f: StationFiles,
    docs: Seq<StationCorrection>,
    cfiles: Seq<StationFiles>,
) -> Seq<RowView> {
    let code = f.station@;
    let cand = match files_index(cfiles, code) {
        Some(k) => Some(
            (
                strs(cfiles[k].paths@),
                CandidateComparisonStatus::Incomplete,
                "station not found in official CSV"@,
                0nat,
                0nat,
            ),
        ),
        None => None,
    };
    Seq::new(
        f.paths@.len(),
        |j: int|
            (
                code,
                Seq::empty(),
                Some(f.paths@[j]@),
                doc_path(station_doc(docs, code)),
                no_values(),
                ComparisonStatus::Missing,
                "station not found in official CSV: "@ + display_name(f.paths@[j]@),
                cand,
            ),
    )
}

/// The rows of the first `k` station entries of `files` whose station the
/// official results lack.
pub open spec fn unknown_rows_upto(
    res: OfficialResults,
    files: Seq<StationFiles>,
    docs: Seq<StationCorrection>,
    cfiles: Seq<StationFiles>,
    k: int,
) -> Seq<RowView>
    decreases k,
{
    if k <= 0 {
        Seq::empty()
    } else {
        let prev = unknown_rows_upto(res, files, docs, cfiles, k - 1);
        if last_station(
            strs(res.station_order@),
            files[k - 1].station@,
            res.station_order@.len() as int,
        ) is Some {
            prev
        } else {
            prev + unknown_station_rows(files[k - 1], docs, cfiles)
        }
    }
}

/// Every row of the comparison.
pub open spec fn comparison_rows(
    res: OfficialResults,
    files: Seq<StationFiles>,
    docs: Seq<StationCorrection>,
    cfiles: Seq<StationFiles>,
    reverse: bool,
) -> Seq<RowView> {
    official_rows_upto(res, files, docs, cfiles, reverse, res.station_order@.len() as int)
        + unknown_rows_upto(res, files, docs, cfiles, files.len() as int)
}

/// Comparing the OCR files of station `code` stays within `u32`.
pub open spec fn station_fits(
    res: OfficialResults,
    files: Seq<StationFiles>,
    docs: Seq<StationCorrection>,
    cfiles: Seq<StationFiles>,
    reverse: bool,
    code: Seq<char>,
) -> bool {
    let official = station_of(res, code);
    let doc = station_doc(docs, code);
    &&& match files_index(cfiles, code) {
        Some(k) => candidate_contents_fit(cfiles[k].contents@),
        None => true,
    }
    &&& match files_index(files, code) {
        Some(k) => forall|j: int|
            0 <= j < files[k].contents@.len() ==> match #[trigger] files[k].contents@[j] {
                Ok(md) => one_markdown_fits(
                    md@,
                    official.values@,
                    doc_spec(doc),
                    reverse && is_first_count(files[k].paths@[j]@),
                ),
                Err(_) => true,
            },
        None => true,
    }
}

/// The inputs of a comparison are well-formed.
pub open spec fn inputs_wf(
    res: OfficialResults,
    files: Seq<StationFiles>,
    docs: Seq<StationCorrection>,
    cfiles: Seq<StationFiles>,
) -> bool {
    &&& res.wf()
    &&& forall|i: int| 0 <= i < files.len() ==> (#[trigger] files[i]).wf()
    &&& forall|i: int| 0 <= i < cfiles.len() ==> (#[trigger] cfiles[i]).wf()
    &&& forall|i: int| 0 <= i < docs.len() ==> (#[trigger] docs[i]).document.wf()
}

/// The first entry of `files` for station `code`.
fn find_files(files: &Vec<StationFiles>, code: &Vec<char>) -> (r: Option<usize>)
    ensures
        match r {
            Some(k) => files_index(files@, code@) == Some(k as int) && k < files@.len(),
            None => files_index(files@, code@) is None,
        },
{
    let mut k: usize = 0;
    while k < files.len()
        invariant
            k <= files.len(),
            files_index(files@, code@) == files_index_from(files@, code@, k as int),
        decreases files.len() - k,
    {
        let s = to_chars(files[k].station.as_str());
        if chars_eq(&s, code) {
            return Some(k);
        }
        k = k + 1;
    }
    None
}

/// The first correction document of station `code`.
fn find_doc(docs: &Vec<StationCorrection>, code: &Vec<char>) -> (r: Option<usize>)
    ensures
        match r {
            Some(k) => doc_index_from(docs@, code@, 0) == Some(k as int) && k < docs@.len(),
            None => doc_index_from(docs@, code@, 0) is None,
        },
{
    let mut k: usize = 0;
    while k < docs.len()
        invariant
            k <= docs.len(),
            doc_index_from(docs@, code@, 0) == doc_index_from(docs@, code@, k as int),
        decreases docs.len() - k,
    {
        let s = to_chars(docs[k].station.as_str());
        if chars_eq(&s, code) {
            return Some(k);
        }
        k = k + 1;
    }
    None
}

proof fn lemma_files_index_from(files: Seq<StationFiles>, code: Seq<char>, k: int)
    requires
        0 <= k,
    ensures
        match files_index_from(files, code, k) {
            Some(i) => k <= i < files.len() && files[i].station@ == code,
            None => forall|i: int| k <= i < files.len() ==> (#[trigger] files[i]).station@ != code,
        },
    decreases files.len() - k,
{
    if k < files.len() {
        lemma_files_index_from(files, code, k + 1);
    }
}

proof fn lemma_doc_index_from(docs: Seq<StationCorrection>, code: Seq<char>, k: int)
    requires
        0 <= k,
    ensures
        match doc_index_from(docs, code, k) {
            Some(i) => k <= i < docs.len(),
            None => true,
        },
    decreases docs.len() - k,
{
    if k < docs.len() {
        lemma_doc_index_from(docs, code, k + 1);
    }
}

/// The path of a station's correction document, if it has one.
fn doc_path_exec(docs: &Vec<StationCorrection>, d: Option<usize>) -> (r: Option<String>)
    requires
        match d {
            Some(i) => i < docs@.len(),
            None => true,
        },
    ensures
        opt_string_view(r) == match d {
            Some(i) => Some(docs@[i as int].document.path@),
            None => None,
        },
{
    match d {
        Some(i) => Some(docs[i].document.path.clone()),
        None => None,
    }
}

/// The rows of the station at index `i` of the official results.
fn station_rows_exec(
    res: &OfficialResults,
    files: &Vec<StationFiles>,
    docs: &Vec<StationCorrection>,
    cfiles: &Vec<StationFiles>,
    reverse: bool,
    i: usize,
) -> (r: Vec<ComparisonRow>)
    requires
        inputs_wf(*res, files@, docs@, cfiles@),
        i < res.station_order@.len(),
        station_fits(*res, files@, docs@, cfiles@, reverse, res.station_order@[i as int]@),
    ensures
        rows_view(r@) == station_rows(
            *res,
            files@,
            docs@,
            cfiles@,
            reverse,
            res.station_order@[i as int]@,
        ),
        forall|k: int| 0 <= k < r@.len() ==> (#[trigger] r@[k]).official_values.wf(),
{
    let code = to_chars(res.station_order[i].as_str());
    let ghost ov = strs(res.station_order@);
    proof {
        lemma_last_station(ov, code@, ov.len() as int);
        assert(ov[i as int] == code@);
    }
    let si = crate::official::last_station_index(&res.station_order, &code);
    let official = &res.stations[si];
    assert(res.stations@[si as int].wf());
    let ghost gof = station_of(*res, code@);
    assert(gof == *official);
    let cf = find_files(cfiles, &code);
    let cand: Option<CandidateComparison> = match cf {
        Some(k) => {
            assert(cfiles@[k as int].wf());
            assert(candidate_contents_fit(cfiles@[k as int].contents@));
            Some(
                compare_candidate_markdown_to_official(
                    official,
                    &cfiles[k].paths,
                    &cfiles[k].contents,
                ),
            )
        },
        None => None,
    };
    assert(opt_cand_view(cand) == station_cand(*official, cfiles@, code@));
    let d = find_doc(docs, &code);
    proof {
        lemma_doc_index_from(docs@, code@, 0);
    }
    let ghost gdoc = station_doc(docs@, code@);
    let mut rows: Vec<ComparisonRow> = Vec::new();
    match find_files(files, &code) {
        Some(k) => {
            let f = &files[k];
            assert(f.wf());
            assert(files_index(files@, code@) == Some(k as int));
            let ghost expected = station_rows(*res, files@, docs@, cfiles@, reverse, code@);
            let mut j: usize = 0;
            while j < f.paths.len()
                invariant
                    *f == files@[k as int],
                    k < files@.len(),
                    f.wf(),
                    i < res.station_order@.len(),
                    res.station_order@[i as int]@ == code@,
                    official == &res.stations@[si as int],
                    official.wf(),
                    gof == *official,
                    gof == station_of(*res, code@),
                    expected == station_rows(*res, files@, docs@, cfiles@, reverse, code@),
                    files_index(files@, code@) == Some(k as int),
                    station_fits(*res, files@, docs@, cfiles@, reverse, code@),
                    opt_cand_view(cand) == station_cand(*official, cfiles@, code@),
                    gdoc == station_doc(docs@, code@),
                    match d {
                        Some(x) => x < docs@.len() && gdoc == Some(docs@[x as int].document)
                            && docs@[x as int].document.wf(),
                        None => gdoc is None,
                    },
                    j <= f.paths@.len(),
                    rows_view(rows@) == expected.take(j as int),
                    forall|q: int| 0 <= q < rows@.len() ==> (#[trigger] rows@[q]).official_values.wf(),
                decreases f.paths@.len() - j,
            {
                let doc: Option<&CorrectionDocument> = match d {
                    Some(x) => Some(&docs[x].document),
                    None => None,
                };
                let first = is_first_count_markdown(f.paths[j].as_str());
                assert(files@[k as int].contents@[j as int] == f.contents@[j as int]);
                assert(match f.contents@[j as int] {
                    Ok(md) => one_markdown_fits(
                        md@,
                        official.values@,
                        doc_spec(gdoc),
                        reverse && is_first_count(f.paths@[j as int]@),
                    ),
                    Err(_) => true,
                });
                let c = duplicate_candidates(&cand);
                let mut row = compare_one_markdown(
                    f.paths[j].as_str(),
                    &f.contents[j],
                    res.station_order[i].as_str(),
                    official,
                    doc,
                    c,
                    reverse && first,
                );
                mark_missing_candidate_ocr_incomplete(&mut row, official);
                let ghost old_rows = rows_view(rows@);
                assert(row_view(row) == expected[j as int]);
                rows.push(row);
                assert(rows_view(rows@) =~= old_rows.push(row_view(row)));
                assert(expected.take(j + 1) =~= expected.take(j as int).push(expected[j as int]));
                j = j + 1;
            }
            assert(expected.take(f.paths@.len() as int) =~= expected);
        },
        None => {
            let mut row = ComparisonRow {
                station: res.station_order[i].clone(),
                location: official.location.clone(),
                markdown_path: None,
                correction_path: doc_path_exec(docs, d),
                official_values: official.values.duplicate(),
                status: ComparisonStatus::Missing,
                details: "no Markdown result".to_owned(),
                candidates: cand,
            };
            mark_missing_candidate_ocr_incomplete(&mut row, official);
            rows.push(row);
            assert(rows_view(rows@) =~= seq![row_view(row)]);
        },
    }
    rows
}

/// The rows of the OCR files of station entry `f`, which the official
/// results lack.
fn unknown_station_rows_exec(
    f: &StationFiles,
    docs: &Vec<StationCorrection>,
    cfiles: &Vec<StationFiles>,
) -> (r: Vec<ComparisonRow>)
    requires
        f.wf(),
    ensures
        rows_view(r@) == unknown_station_rows(*f, docs@, cfiles@),
        forall|k: int| 0 <= k < r@.len() ==> (#[trigger] r@[k]).official_values.wf(),
{
    let code = to_chars(f.station.as_str());
    let cf = find_files(cfiles, &code);
    let d = find_doc(docs, &code);
    proof {
        lemma_doc_index_from(docs@, code@, 0);
    }
    let ghost expected = unknown_station_rows(*f, docs@, cfiles@);
    let mut rows: Vec<ComparisonRow> = Vec::new();
    let mut j: usize = 0;
    while j < f.paths.len()
        invariant
            f.wf(),
            code@ == f.station@,
            expected == unknown_station_rows(*f, docs@, cfiles@),
            match cf {
                Some(k) => files_index(cfiles@, code@) == Some(k as int) && k < cfiles@.len(),
                None => files_index(cfiles@, code@) is None,
            },
            match d {
                Some(x) => doc_index_from(docs@, code@, 0) == Some(x as int) && x < docs@.len(),
                None => doc_index_from(docs@, code@, 0) is None,
            },
            j <= f.paths@.len(),
            rows_view(rows@) == expected.take(j as int),
            forall|q: int| 0 <= q < rows@.len() ==> (#[trigger] rows@[q]).official_values.wf(),
        decreases f.paths@.len() - j,
    {
        let cand = match cf {
            Some(k) => Some(
                CandidateComparison {
                    paths: crate::comparison::copy_strings(&cfiles[k].paths),
                    status: CandidateComparisonStatus::Incomplete,
                    details: "station not found in official CSV".to_owned(),
                    compared_values: 0,
                    expected_values: 0,
                },
            ),
            None => None,
        };
        let name = display_file_name(f.paths[j].as_str());
        let mut m = to_chars("station not found in official CSV: ");
        let nc = to_chars(name.as_str());
        append_chars(&mut m, &nc);
        let row = ComparisonRow {
            station: f.station.clone(),
            location: String::new(),
            markdown_path: Some(f.paths[j].clone()),
            correction_path: doc_path_exec(docs, d),
            official_values: VoteValues::new(),
            status: ComparisonStatus::Missing,
            details: from_chars(&m),
            candidates: cand,
        };
        let ghost old_rows = rows_view(rows@);
        assert(row_view(row) == expected[j as int]);
        rows.push(row);
        assert(rows_view(rows@) =~= old_rows.push(row_view(row)));
        assert(expected.take(j + 1) =~= expected.take(j as int).push(expected[j as int]));
        j = j + 1;
    }
    assert(expected.take(f.paths@.len() as int) =~= expected);
    rows
}

/// Appends `more` to `rows`.
fn append_rows(rows: &mut Vec<ComparisonRow>, more: Vec<ComparisonRow>)
    requires
        forall|k: int| 0 <= k < old(rows)@.len() ==> (#[trigger] old(rows)@[k]).official_values.wf(),
        forall|k: int| 0 <= k < more@.len() ==> (#[trigger] more@[k]).official_values.wf(),
    ensures
        rows_view(final(rows)@) == rows_view(old(rows)@) + rows_view(more@),
        forall|k: int| 0 <= k < final(rows)@.len() ==> (#[trigger] final(rows)@[k]).official_values.wf(),
{
    let mut m = more;
    let ghost r0 = rows@;
    let ghost m0 = m@;
    rows.append(&mut m);
    assert(rows@ == r0 + m0);
    assert(rows_view(rows@) =~= rows_view(r0) + rows_view(m0));
    assert forall|k: int| 0 <= k < rows@.len() implies (#[trigger] rows@[k]).official_values.wf() by {
        if k < r0.len() {
            assert(rows@[k] == r0[k]);
        } else {
            assert(rows@[k] == m0[k - r0.len()]);
        }
    }
}

/// Whether some official station has code `code`.
fn is_official_station(order: &Vec<String>, code: &Vec<char>) -> (r: bool)
    ensures
        r == (last_station(strs(order@), code@, order@.len() as int) is Some),
{
    let ghost ov = strs(order@);
    let mut k: usize = order.len();
    while k > 0
        invariant
            ov == strs(order@),
            k <= order.len(),
            last_station(ov, code@, order@.len() as int) == last_station(ov, code@, k as int),
        decreases k,
    {
        assert(ov[k - 1] == order@[k - 1]@);
        let c = to_chars(order[k - 1].as_str());
        if chars_eq(&c, code) {
            return true;
        }
        k = k - 1;
    }
    false
}

/// Every comparison of the stations stays within `u32`.
pub open spec fn comparison_fits(
    res: OfficialResults,
    files: Seq<StationFiles>,
    docs: Seq<StationCorrection>,
    cfiles: Seq<StationFiles>,
    reverse: bool,
) -> bool {
    forall|i: int|
        0 <= i < res.station_order@.len() ==> station_fits(
            res,
            files,
            docs,
            cfiles,
            reverse,
            #[trigger] res.station_order@[i]@,
        )
}

/// Compares the OCR vote tables of every station with the official
/// results. For each official station, in column order: one row per OCR
/// vote table of the station (comparing first counts with the recount's
/// corrections undone when `reverse_corrections` is set), or a `missing`
/// row when it has none; the station's candidate tables, if any, are
/// compared once and shown with each of its rows. Then one `missing` row
/// for each OCR vote table of a station the official results lack.
pub fn compare_markdown_to_official(
    official_results: &OfficialResults,
    markdown_by_station: &Vec<StationFiles>,
    corrections_by_station: &Vec<StationCorrection>,
    candidate_markdown_by_station: &Vec<StationFiles>,
    reverse_corrections: bool,
) -> (r: Vec<ComparisonRow>)
    requires
        inputs_wf(
            *official_results,
            markdown_by_station@,
            corrections_by_station@,
            candidate_markdown_by_station@,
        ),
        comparison_fits(
            *official_results,
            markdown_by_station@,
            corrections_by_station@,
            candidate_markdown_by_station@,
            reverse_corrections,
        ),
    ensures
        rows_view(r@) == comparison_rows(
            *official_results,
            markdown_by_station@,
            corrections_by_station@,
            candidate_markdown_by_station@,
            reverse_corrections,
        ),
        forall|k: int| 0 <= k < r@.len() ==> (#[trigger] r@[k]).official_values.wf(),
{
    let ghost res = *official_results;
    let ghost files = markdown_by_station@;
    let ghost docs = corrections_by_station@;
    let ghost cfiles = candidate_markdown_by_station@;
    let mut rows: Vec<ComparisonRow> = Vec::new();
    let mut i: usize = 0;
    assert(rows_view(rows@) =~= Seq::<RowView>::empty());
    while i < official_results.station_order.len()
        invariant
            res == *official_results,
            files == markdown_by_station@,
            docs == corrections_by_station@,
            cfiles == candidate_markdown_by_station@,
            inputs_wf(res, files, docs, cfiles),
            comparison_fits(res, files, docs, cfiles, reverse_corrections),
            i <= res.station_order@.len(),
            rows_view(rows@) == official_rows_upto(res, files, docs, cfiles, reverse_corrections, i as int),
            forall|k: int| 0 <= k < rows@.len() ==> (#[trigger] rows@[k]).official_values.wf(),
        decreases res.station_order@.len() - i,
    {
        assert(station_fits(res, files, docs, cfiles, reverse_corrections, res.station_order@[i as int]@));
        let more = station_rows_exec(
            official_results,
            markdown_by_station,
            corrections_by_station,
            candidate_markdown_by_station,
            reverse_corrections,
            i,
        );
        append_rows(&mut rows, more);
        i = i + 1;
    }
    let ghost part1 = rows_view(rows@);
    let mut k: usize = 0;
    while k < markdown_by_station.len()
        invariant
            res == *official_results,
            files == markdown_by_station@,
            docs == corrections_by_station@,
            cfiles == candidate_markdown_by_station@,
            inputs_wf(res, files, docs, cfiles),
            k <= files.len(),
            rows_view(rows@) == part1 + unknown_rows_upto(res, files, docs, cfiles, k as int),
            forall|q: int| 0 <= q < rows@.len() ==> (#[trigger] rows@[q]).official_values.wf(),
        decreases files.len() - k,
    {
        let code = to_chars(markdown_by_station[k].station.as_str());
        if !is_official_station(&official_results.station_order, &code) {
            assert(files[k as int].wf());
            let more = unknown_station_rows_exec(
                &markdown_by_station[k],
                corrections_by_station,
                candidate_markdown_by_station,
            );
            let ghost before = rows_view(rows@);
            append_rows(&mut rows, more);
            assert(part1 + unknown_rows_upto(res, files, docs, cfiles, k + 1) =~= before
                + rows_view(more@));
        } else {
            assert(unknown_rows_upto(res, files, docs, cfiles, k + 1) == unknown_rows_upto(
                res,
                files,
                docs,
                cfiles,
                k as int,
            ));
        }
        k = k + 1;
    }
    rows
}

/// Whether the candidate tables `contents` can be checked within `u32`.
fn candidate_contents_fit_exec(contents: &Vec<Result<String, String>>) -> (r: bool)
    ensures
        r == candidate_contents_fit(contents@),
{
    let mut j: usize = 0;
    while j < contents.len()
        invariant
            j <= contents@.len(),
            forall|i: int|
                0 <= i < j ==> match #[trigger] contents@[i] {
                    Ok(md) => crate::validate::is_skipped(md@) || crate::validate::candidates_fit(
                        md@,
                    ),
                    Err(_) => true,
                },
        decreases contents@.len() - j,
    {
        match &contents[j] {
            Ok(md) => {
                let v = to_chars(md.as_str());
                if !(crate::validate::markdown_is_skipped(&v)
                    || crate::validate::candidates_markdown_fits(md.as_str())) {
                    return false;
                }
            },
            Err(_) => {},
        }
        j = j + 1;
    }
    true
}

/// Whether the comparison of one OCR vote table stays within `u32`, as
/// `one_markdown_fits` states it.
fn one_markdown_fits_exec(
    md: &str,
    official: &VoteValues,
    doc: Option<&CorrectionDocument>,
    reverse: bool,
) -> (r: bool)
    requires
        official.wf(),
        match doc {
            Some(d) => d.wf(),
            None => true,
        },
    ensures
        r == one_markdown_fits(
            md@,
            official@,
            doc_spec(
                match doc {
                    Some(d) => Some(*d),
                    None => None,
                },
            ),
            reverse,
        ),
{
    let v = to_chars(md);
    if !(crate::validate::markdown_is_skipped(&v) || crate::validate::votes_markdown_fits(md)) {
        return false;
    }
    if !reverse {
        return true;
    }
    let values = crate::compare::parse_votes_markdown_values(md);
    let found = crate::compare::official_mismatches(&values, official);
    if found.len() == 0 {
        return true;
    }
    match doc {
        Some(d) => !d.validation.passed || crate::compare::reverse_values_fit(official, d),
        None => true,
    }
}

/// Whether the comparison of station `code` stays within `u32`, as
/// `station_fits` states it.
fn station_fits_exec(
    res: &OfficialResults,
    files: &Vec<StationFiles>,
    docs: &Vec<StationCorrection>,
    cfiles: &Vec<StationFiles>,
    reverse: bool,
    code: &str,
) -> (r: bool)
    requires
        inputs_wf(*res, files@, docs@, cfiles@),
        last_station(strs(res.station_order@), code@, res.station_order@.len() as int) is Some,
    ensures
        r == station_fits(*res, files@, docs@, cfiles@, reverse, code@),
{
    let c = to_chars(code);
    let official = match res.station(code) {
        Some(o) => o,
        None => {
            return false;
        },
    };
    proof {
        lemma_last_station(strs(res.station_order@), code@, res.station_order@.len() as int);
        lemma_files_index_from(cfiles@, code@, 0);
        lemma_files_index_from(files@, code@, 0);
        lemma_doc_index_from(docs@, code@, 0);
    }
    match find_files(cfiles, &c) {
        Some(k) => {
            if !candidate_contents_fit_exec(&cfiles[k].contents) {
                return false;
            }
        },
        None => {},
    }
    let d = find_doc(docs, &c);
    let doc: Option<&CorrectionDocument> = match d {
        Some(i) => Some(&docs[i].document),
        None => None,
    };
    assert(match doc {
        Some(x) => Some(*x),
        None => None::<CorrectionDocument>,
    } == station_doc(docs@, code@));
    match find_files(files, &c) {
        Some(k) => {
            let f = &files[k];
            let mut j: usize = 0;
            while j < f.contents.len()
                invariant
                    f.wf(),
                    k < files@.len(),
                    *f == files@[k as int],
                    files_index(files@, code@) == Some(k as int),
                    j <= f.contents@.len(),
                    official.wf(),
                    *official == station_of(*res, code@),
                    match doc {
                        Some(x) => x.wf(),
                        None => true,
                    },
                    forall|i: int|
                        0 <= i < j ==> match #[trigger] f.contents@[i] {
                            Ok(md) => one_markdown_fits(
                                md@,
                                official.values@,
                                doc_spec(station_doc(docs@, code@)),
                                reverse && is_first_count(f.paths@[i]@),
                            ),
                            Err(_) => true,
                        },
                    match doc {
                        Some(x) => Some(*x),
                        None => None::<CorrectionDocument>,
                    } == station_doc(docs@, code@),
                decreases f.contents@.len() - j,
            {
                match &f.contents[j] {
                    Ok(md) => {
                        let first = is_first_count_markdown(f.paths[j].as_str());
                        if !one_markdown_fits_exec(md.as_str(), &official.values, doc, reverse && first) {
                            assert(!match f.contents@[j as int] {
                                Ok(m) => one_markdown_fits(
                                    m@,
                                    official.values@,
                                    doc_spec(station_doc(docs@, code@)),
                                    reverse && is_first_count(f.paths@[j as int]@),
                                ),
                                Err(_) => true,
                            });
                            return false;
                        }
                    },
                    Err(_) => {},
                }
                j = j + 1;
            }
        },
        None => {},
    }
    true
}

/// Whether the arithmetic of comparing these inputs stays within `u32`,
/// as `compare_markdown_to_official` needs: vote and candidate tables whose
/// sums fit, and corrections that can be undone with totals that fit.
pub fn comparison_inputs_fit(
    official_results: &OfficialResults,
    markdown_by_station: &Vec<StationFiles>,
    corrections_by_station: &Vec<StationCorrection>,
    candidate_markdown_by_station: &Vec<StationFiles>,
    reverse_corrections: bool,
) -> (r: bool)
    requires
        inputs_wf(
            *official_results,
            markdown_by_station@,
            corrections_by_station@,
            candidate_markdown_by_station@,
        ),
    ensures
        r == comparison_fits(
            *official_results,
            markdown_by_station@,
            corrections_by_station@,
            candidate_markdown_by_station@,
            reverse_corrections,
        ),
{
    let res = official_results;
    let mut i: usize = 0;
    while i < res.station_order.len()
        invariant
            res == official_results,
            inputs_wf(
                *res,
                markdown_by_station@,
                corrections_by_station@,
                candidate_markdown_by_station@,
            ),
            i <= res.station_order@.len(),
            forall|k: int|
                0 <= k < i ==> station_fits(
                    *res,
                    markdown_by_station@,
                    corrections_by_station@,
                    candidate_markdown_by_station@,
                    reverse_corrections,
                    #[trigger] res.station_order@[k]@,
                ),
        decreases res.station_order@.len() - i,
    {
        proof {
            lemma_last_station(
                strs(res.station_order@),
                res.station_order@[i as int]@,
                res.station_order@.len() as int,
            );
            if last_station(
                strs(res.station_order@),
                res.station_order@[i as int]@,
                res.station_order@.len() as int,
            ) is None {
                assert(strs(res.station_order@)[i as int] == res.station_order@[i as int]@);
            }
        }
        if !station_fits_exec(
            res,
            markdown_by_station,
            corrections_by_station,
            candidate_markdown_by_station,
            reverse_corrections,
            res.station_order[i].as_str(),
        ) {
            assert(!station_fits(
                *res,
                markdown_by_station@,
                corrections_by_station@,
                candidate_markdown_by_station@,
                reverse_corrections,
                res.station_order@[i as int]@,
            ));
            return false;
        }
        i = i + 1;
    }
    true
}

/// The indices, in order, of the first `k` of rows with station codes
/// `codes` whose station is among `stations`.
pub open spec fn requested_indices(stations: Seq<Seq<char>>, codes: Seq<Seq<char>>, k: int) -> Seq<int>
    decreases k,
{
    if k <= 0 {
        Seq::empty()
    } else {
        let prev = requested_indices(stations, codes, k - 1);
        if stations.contains(codes[k - 1]) {
            prev.push(k - 1)
        } else {
            prev
        }
    }
}

/// Whether the code `c` is among `stations`.
fn station_requested(stations: &Vec<Vec<char>>, c: &Vec<char>) -> (r: bool)
    ensures
        r == crate::text::seqs(stations@).contains(c@),
{
    let ghost ss = crate::text::seqs(stations@);
    let mut k: usize = 0;
    while k < stations.len()
        invariant
            k <= stations@.len(),
            ss == crate::text::seqs(stations@),
            forall|j: int| 0 <= j < k ==> ss[j] != c@,
        decreases stations@.len() - k,
    {
        if chars_eq(&stations[k], c) {
            assert(ss[k as int] == c@);
            return true;
        }
        k = k + 1;
    }
    false
}

/// The rows of the stations asked for: the indices, in order, of the rows
/// whose station is among `stations`.
pub fn requested_rows(rows: &Vec<ComparisonRow>, stations: &Vec<String>) -> (r: Vec<usize>)
    ensures
        r@.map_values(|i: usize| i as int) == requested_indices(
            strs(stations@),
            rows@.map_values(|row: ComparisonRow| row.station@),
            rows@.len() as int,
        ),
{
    let wanted = crate::textops::strings_to_chars(stations);
    let ghost codes = rows@.map_values(|row: ComparisonRow| row.station@);
    let mut r: Vec<usize> = Vec::new();
    let mut k: usize = 0;
    while k < rows.len()
        invariant
            k <= rows@.len(),
            codes == rows@.map_values(|row: ComparisonRow| row.station@),
            crate::text::seqs(wanted@) == strs(stations@),
            r@.map_values(|i: usize| i as int) == requested_indices(strs(stations@), codes, k as int),
        decreases rows@.len() - k,
    {
        let c = to_chars(rows[k].station.as_str());
        if station_requested(&wanted, &c) {
            r.push(k);
            assert(r@.map_values(|i: usize| i as int) =~= requested_indices(
                strs(stations@),
                codes,
                k as int,
            ).push(k as int));
        }
        k = k + 1;
    }
    r
}

/// The rows of the first `k` official stations start the rows of the first
/// `n`, for `k <= n`.
proof fn lemma_official_rows_prefix(
    res: OfficialResults,
    files: Seq<StationFiles>,
    docs: Seq<StationCorrection>,
    cfiles: Seq<StationFiles>,
    reverse: bool,
    k: int,
    n: int,
)
    requires
        0 <= k <= n,
    ensures
        official_rows_upto(res, files, docs, cfiles, reverse, k).len() <= official_rows_upto(
            res,
            files,
            docs,
            cfiles,
            reverse,
            n,
        ).len(),
        forall|j: int|
            0 <= j < official_rows_upto(res, files, docs, cfiles, reverse, k).len() ==> (
            #[trigger] official_rows_upto(res, files, docs, cfiles, reverse, n)[j])
                == official_rows_upto(res, files, docs, cfiles, reverse, k)[j],
    decreases n - k,
{
    if k < n {
        lemma_official_rows_prefix(res, files, docs, cfiles, reverse, k, n - 1);
    }
}

/// The official CSV is the source of truth for the list of polling
/// stations: each of its stations gets a row of the comparison, given that
/// each station entry of OCR vote tables lists at least one file.
pub proof fn law_every_official_station_reported(
    res: OfficialResults,
    files: Seq<StationFiles>,
    docs: Seq<StationCorrection>,
    cfiles: Seq<StationFiles>,
    reverse: bool,
    i: int,
)
    requires
        0 <= i < res.station_order@.len(),
        forall|k: int| 0 <= k < files.len() ==> (#[trigger] files[k]).paths@.len() > 0,
    ensures
        exists|j: int|
            0 <= j < comparison_rows(res, files, docs, cfiles, reverse).len() && (#[trigger] comparison_rows(
                res,
                files,
                docs,
                cfiles,
                reverse,
            )[j]).0 == res.station_order@[i]@,
{
    let code = res.station_order@[i]@;
    let before = official_rows_upto(res, files, docs, cfiles, reverse, i);
    let own = station_rows(res, files, docs, cfiles, reverse, code);
    lemma_files_index_from(files, code, 0);
    assert(own.len() > 0 && own[0].0 == code);
    assert(official_rows_upto(res, files, docs, cfiles, reverse, i + 1) == before + own);
    let n = res.station_order@.len() as int;
    lemma_official_rows_prefix(res, files, docs, cfiles, reverse, i + 1, n);
    let j = before.len() as int;
    let rows = comparison_rows(res, files, docs, cfiles, reverse);
    assert(official_rows_upto(res, files, docs, cfiles, reverse, n)[j] == own[0]);
    assert(rows[j] == official_rows_upto(res, files, docs, cfiles, reverse, n)[j]);
    assert(rows[j].0 == code);
}

/// The comparison's rows, as a whole: the rows of each official station in
/// column order, then the rows of the OCR files of stations the official
/// results lack, entry by entry.
pub proof fn law_comparison_row_order(
    res: OfficialResults,
    files: Seq<StationFiles>,
    docs: Seq<StationCorrection>,
    cfiles: Seq<StationFiles>,
    reverse: bool,
)
    ensures
        comparison_rows(res, files, docs, cfiles, reverse) == official_rows_upto(
            res,
            files,
            docs,
            cfiles,
            reverse,
            res.station_order@.len() as int,
        ) + unknown_rows_upto(res, files, docs, cfiles, files.len() as int),
        official_rows_upto(res, files, docs, cfiles, reverse, 0) == Seq::<RowView>::empty(),
        forall|k: int|
            0 <= k < res.station_order@.len() ==> #[trigger] official_rows_upto(
                res,
                files,
                docs,
                cfiles,
                reverse,
                k + 1,
            ) == official_rows_upto(res, files, docs, cfiles, reverse, k) + station_rows(
                res,
                files,
                docs,
                cfiles,
                reverse,
                res.station_order@[k]@,
            ),
        unknown_rows_upto(res, files, docs, cfiles, 0) == Seq::<RowView>::empty(),
        forall|k: int|
            0 <= k < files.len() ==> #[trigger] unknown_rows_upto(res, files, docs, cfiles, k + 1)
                == unknown_rows_upto(res, files, docs, cfiles, k) + (if strs(
                res.station_order@,
            ).contains(files[k].station@) {
                Seq::<RowView>::empty()
            } else {
                unknown_station_rows(files[k], docs, cfiles)
            }),
{
    let n = res.station_order@.len() as int;
    assert forall|k: int| 0 <= k < files.len() implies #[trigger] unknown_rows_upto(
        res,
        files,
        docs,
        cfiles,
        k + 1,
    ) == unknown_rows_upto(res, files, docs, cfiles, k) + (if strs(res.station_order@).contains(
        files[k].station@,
    ) {
        Seq::<RowView>::empty()
    } else {
        unknown_station_rows(files[k], docs, cfiles)
    }) by {
        let code = files[k].station@;
        lemma_last_station(strs(res.station_order@), code, n);
        assert(strs(res.station_order@).len() == n);
        if last_station(strs(res.station_order@), code, n) is Some {
            let i = last_station(strs(res.station_order@), code, n)->0;
            assert(strs(res.station_order@)[i] == code);
            assert(strs(res.station_order@).contains(code));
        } else {
            if strs(res.station_order@).contains(code) {
                let i = choose|i: int| 0 <= i < n && strs(res.station_order@)[i] == code;
                assert(strs(res.station_order@)[i] == code);
            }
        }
        let prev = unknown_rows_upto(res, files, docs, cfiles, k);
        assert(prev + Seq::<RowView>::empty() =~= prev);
    }
}

/// The rows of one official station: one per OCR vote table of the station
/// (the first entry of the files for it), each naming the station, its
/// location, official values and the table's path; or, when it has none, a
/// single `missing` row "no Markdown result" without a path.
pub proof fn law_station_rows_shape(
    res: OfficialResults,
    files: Seq<StationFiles>,
    docs: Seq<StationCorrection>,
    cfiles: Seq<StationFiles>,
    reverse: bool,
    code: Seq<char>,
)
    requires
        forall|k: int| 0 <= k < files.len() ==> (#[trigger] files[k]).wf(),
    ensures
        ({
            let rows = station_rows(res, files, docs, cfiles, reverse, code);
            let official = station_of(res, code);
            match files_index(files, code) {
                Some(k) => {
                    &&& 0 <= k < files.len()
                    &&& files[k].station@ == code
                    &&& rows.len() == files[k].paths@.len()
                    &&& forall|j: int|
                        0 <= j < rows.len() ==> {
                            &&& (#[trigger] rows[j]).0 == code
                            &&& rows[j].1 == official.location@
                            &&& rows[j].2 == Some(files[k].paths@[j]@)
                            &&& rows[j].3 == doc_path(station_doc(docs, code))
                        }
                },
                None => {
                    &&& forall|k: int| 0 <= k < files.len() ==> (#[trigger] files[k]).station@ != code
                    &&& rows.len() == 1
                    &&& rows[0].0 == code
                    &&& rows[0].1 == official.location@
                    &&& rows[0].2 is None
                    &&& rows[0].4 == official.values@
                    &&& rows[0].5 == ComparisonStatus::Missing
                    &&& rows[0].6 == "no Markdown result"@
                },
            }
        }),
{
    lemma_files_index_from(files, code, 0);
}

/// The rows of the OCR files of a station the official results lack: one
/// `missing` row per file, with its path, no location and no official
/// values.
pub proof fn law_unknown_station_rows_shape(
    f: StationFiles,
    docs: Seq<StationCorrection>,
    cfiles: Seq<StationFiles>,
)
    ensures
        unknown_station_rows(f, docs, cfiles).len() == f.paths@.len(),
        forall|j: int|
            0 <= j < f.paths@.len() ==> {
                let r = #[trigger] unknown_station_rows(f, docs, cfiles)[j];
                &&& r.0 == f.station@
                &&& r.1 == Seq::<char>::empty()
                &&& r.2 == Some(f.paths@[j]@)
                &&& r.4 == no_values()
                &&& r.5 == ComparisonStatus::Missing
                &&& r.6 == "station not found in official CSV: "@ + display_name(f.paths@[j]@)
            },
{
}

} // verus!
