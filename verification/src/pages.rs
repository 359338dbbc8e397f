//! Finding tables in the text of a polling-station report, page by page
//! (pages are separated by form feeds): the pages of the vote, correction
//! and candidate-list tables.
use vstd::prelude::*;
use crate::candidate_lists::{
    candidate_columns_from_count, count_from, detected_candidate_columns, parse_candidate_list_title,
    title_from, utrecht_candidate_list, utrecht_entry, CandidateListPage,
};
use crate::error::{error_from_chars, PvError};
use crate::names::{anchors_in, lowercase_of, to_lowercase, CropKind};
use crate::paths::{file_name_of, path_file_name};
use crate::text::{contains, lines, split, starts_with, strs, trim};
use crate::textops::{
    append_chars, contains_str, from_chars, push_str, split_chars, starts_with_str, to_chars,
    to_strings, trim_chars,
};

verus! {

broadcast use vstd::string::group_string_axioms;

/// The pages of a text: the parts between form feeds.
pub open spec fn text_pages(text: Seq<char>) -> Seq<Seq<char>> {
    split(text, '\x0c')
}

/// The pages of `text`, split at form feeds.
pub fn split_pages(text: &str) -> (r: Vec<String>)
    ensures
        strs(r@) == text_pages(text@),
{
    let v = to_chars(text);
    let parts = split_chars(&v, '\x0c');
    let r = to_strings(&parts);
    r
}

/// The first of the first `k` pages whose lowered text holds the headings
/// of `kind`'s table.
pub open spec fn first_anchor_page(pages: Seq<Seq<char>>, kind: CropKind, k: int) -> Option<int>
    decreases k,
{
    if k <= 0 {
        None
    } else {
        match first_anchor_page(pages, kind, k - 1) {
            Some(i) => Some(i),
            None => if anchors_in(kind, lowercase_of(pages[k - 1])) {
                Some(k - 1)
            } else {
                None
            },
        }
    }
}

/// The lowered text of a page announces the vote table on the next page:
/// the section `2.1` on admitted voters and its instruction to count the
/// valid voting passes.
pub open spec fn announces_votes(lower: Seq<char>) -> bool {
    contains(lower, "2.1"@) && contains(lower, "toegelaten kiezers"@) && contains(
        lower,
        "tel het aantal geldige stempassen"@,
    )
}

/// The first of the first `k` pages that announces the vote table.
pub open spec fn first_votes_announcement(pages: Seq<Seq<char>>, k: int) -> Option<int>
    decreases k,
{
    if k <= 0 {
        None
    } else {
        match first_votes_announcement(pages, k - 1) {
            Some(i) => Some(i),
            None => if announces_votes(lowercase_of(pages[k - 1])) {
                Some(k - 1)
            } else {
                None
            },
        }
    }
}

/// The page (counted from 1) of `kind`'s table, when `kinds` asks for it:
/// the first page with its headings; for the vote table without one, the
/// page after the first that announces it.
pub open spec fn section_page(pages: Seq<Seq<char>>, kinds: Seq<CropKind>, kind: CropKind) -> Option<
    int,
> {
    if !kinds.contains(kind) {
        None
    } else {
        match first_anchor_page(pages, kind, pages.len() as int) {
            Some(i) => Some(i + 1),
            None => if kind == CropKind::Votes {
                match first_votes_announcement(pages, pages.len() as int) {
                    Some(i) => Some(i + 2),
                    None => None,
                }
            } else {
                None
            },
        }
    }
}

/// The located tables in kind order (votes, corrections, candidate lists),
/// each with its page.
pub open spec fn section_pages_of(pages: Seq<Seq<char>>, kinds: Seq<CropKind>) -> Seq<(CropKind, int)> {
    section_entry(pages, kinds, CropKind::Votes) + section_entry(pages, kinds, CropKind::Corrections)
        + section_entry(pages, kinds, CropKind::CandidateLists)
}

/// The located table of `kind`, if it was found.
pub open spec fn section_entry(pages: Seq<Seq<char>>, kinds: Seq<CropKind>, kind: CropKind) -> Seq<
    (CropKind, int),
> {
    match section_page(pages, kinds, kind) {
        Some(p) => seq![(kind, p)],
        None => Seq::empty(),
    }
}

/// Whether `kinds` holds `kind`.
fn has_kind(kinds: &Vec<CropKind>, kind: CropKind) -> (r: bool)
    ensures
        r == kinds@.contains(kind),
{
    let mut i: usize = 0;
    while i < kinds.len()
        invariant
            i <= kinds@.len(),
            forall|j: int| 0 <= j < i ==> kinds@[j] != kind,
        decreases kinds@.len() - i,
    {
        if kinds[i] == kind {
            return true;
        }
        i = i + 1;
    }
    false
}

/// The page of `kind`'s table among the lowered pages.
fn find_section_page(
    pages: &Vec<String>,
    lowered: &Vec<String>,
    kinds: &Vec<CropKind>,
    kind: CropKind,
) -> (r: Option<u32>)
    requires
        lowered@.len() == pages@.len(),
        pages@.len() + 1 < u32::MAX,
        forall|i: int| 0 <= i < pages@.len() ==> (#[trigger] lowered@[i])@ == lowercase_of(pages@[i]@),
    ensures
        match section_page(strs(pages@), kinds@, kind) {
            Some(p) => r is Some && r->0 as int == p,
            None => r is None,
        },
{
    let ghost ps = strs(pages@);
    if !has_kind(kinds, kind) {
        return None;
    }
    let mut i: usize = 0;
    while i < pages.len()
        invariant
            i <= pages@.len(),
            lowered@.len() == pages@.len(),
            pages@.len() + 1 < u32::MAX,
            ps == strs(pages@),
            forall|j: int| 0 <= j < pages@.len() ==> (#[trigger] lowered@[j])@ == lowercase_of(pages@[j]@),
            first_anchor_page(ps, kind, i as int) is None,
            kinds@.contains(kind),
        decreases pages@.len() - i,
    {
        if kind.anchor_matches(pages[i].as_str()) {
            assert(first_anchor_page(ps, kind, i + 1) == Some(i as int));
            proof {
                lemma_first_anchor_stable(ps, kind, i + 1, ps.len() as int);
            }
            return Some((i as u32) + 1);
        }
        i = i + 1;
    }
    if kind != CropKind::Votes {
        return None;
    }
    proof {
        reveal_strlit("2.1");
        reveal_strlit("toegelaten kiezers");
        reveal_strlit("tel het aantal geldige stempassen");
    }
    let mut j: usize = 0;
    while j < lowered.len()
        invariant
            j <= pages@.len(),
            lowered@.len() == pages@.len(),
            pages@.len() + 1 < u32::MAX,
            ps == strs(pages@),
            forall|k: int| 0 <= k < pages@.len() ==> (#[trigger] lowered@[k])@ == lowercase_of(pages@[k]@),
            first_anchor_page(ps, kind, ps.len() as int) is None,
            first_votes_announcement(ps, j as int) is None,
            kind == CropKind::Votes,
            kinds@.contains(kind),
        decreases pages@.len() - j,
    {
        let l = to_chars(lowered[j].as_str());
        if contains_str(&l, "2.1") && contains_str(&l, "toegelaten kiezers") && contains_str(
            &l,
            "tel het aantal geldige stempassen",
        ) {
            assert(first_votes_announcement(ps, j + 1) == Some(j as int));
            proof {
                lemma_first_votes_stable(ps, j + 1, ps.len() as int);
            }
            return Some((j as u32) + 2);
        }
        j = j + 1;
    }
    None
}

proof fn lemma_first_anchor_stable(pages: Seq<Seq<char>>, kind: CropKind, k: int, n: int)
    requires
        k <= n,
        first_anchor_page(pages, kind, k) is Some,
    ensures
        first_anchor_page(pages, kind, n) == first_anchor_page(pages, kind, k),
    decreases n - k,
{
    if k < n {
        lemma_first_anchor_stable(pages, kind, k, n - 1);
    }
}

proof fn lemma_first_votes_stable(pages: Seq<Seq<char>>, k: int, n: int)
    requires
        k <= n,
        first_votes_announcement(pages, k) is Some,
    ensures
        first_votes_announcement(pages, n) == first_votes_announcement(pages, k),
    decreases n - k,
{
    if k < n {
        lemma_first_votes_stable(pages, k, n - 1);
    }
}

/// The pages of the tables of `kinds` in the page texts `pages`, in kind
/// order: each kind's first page with its headings; the vote table, when
/// no page has its headings, on the page after the first that announces
/// it. A kind whose table is not found is left out.
pub fn locate_section_pages(pages: &Vec<String>, kinds: &Vec<CropKind>) -> (r: Vec<(CropKind, u32)>)
    requires
        pages@.len() + 1 < u32::MAX,
    ensures
        r@.map_values(|e: (CropKind, u32)| (e.0, e.1 as int)) == section_pages_of(strs(pages@), kinds@),
{
    let mut lowered: Vec<String> = Vec::new();
    let mut i: usize = 0;
    while i < pages.len()
        invariant
            i <= pages@.len(),
            lowered@.len() == i,
            forall|j: int| 0 <= j < i ==> (#[trigger] lowered@[j])@ == lowercase_of(pages@[j]@),
        decreases pages@.len() - i,
    {
        lowered.push(to_lowercase(pages[i].as_str()));
        i = i + 1;
    }
    let mut out: Vec<(CropKind, u32)> = Vec::new();
    let ghost ps = strs(pages@);
    let ghost view = |e: (CropKind, u32)| (e.0, e.1 as int);
    let votes = find_section_page(pages, &lowered, kinds, CropKind::Votes);
    let corrections = find_section_page(pages, &lowered, kinds, CropKind::Corrections);
    let lists = find_section_page(pages, &lowered, kinds, CropKind::CandidateLists);
    if let Some(p) = votes {
        out.push((CropKind::Votes, p));
    }
    assert(out@.map_values(view) =~= section_entry(ps, kinds@, CropKind::Votes));
    let ghost o1 = out@.map_values(view);
    if let Some(p) = corrections {
        out.push((CropKind::Corrections, p));
    }
    assert(out@.map_values(view) =~= o1 + section_entry(ps, kinds@, CropKind::Corrections));
    let ghost o2 = out@.map_values(view);
    if let Some(p) = lists {
        out.push((CropKind::CandidateLists, p));
    }
    assert(out@.map_values(view) =~= o2 + section_entry(ps, kinds@, CropKind::CandidateLists));
    out
}

/// The list page at page `p` known in advance in the Utrecht report: list
/// 1 on page 7, lists 2 to 20 on pages 9 to 27.
pub open spec fn utrecht_list_on_page(p: int) -> Option<u32> {
    if p == 7 {
        Some(1)
    } else if 9 <= p <= 27 {
        Some((p - 7) as u32)
    } else {
        None
    }
}

/// The page map is the inverse of the list table's pages.
pub proof fn lemma_utrecht_pages(n: u32)
    ensures
        utrecht_entry(n) matches Some((page, name, count)) ==> utrecht_list_on_page(page as int)
            == Some(n),
        forall|p: int|
            #![trigger utrecht_list_on_page(p)]
            utrecht_list_on_page(p) matches Some(m) ==> utrecht_entry(m) matches Some(
                (page, name, count),
            ) && page == p,
{
}

/// A located candidate-list page: its page, list number and name, known
/// candidate count and number of candidate columns.
pub open spec fn page_view(p: CandidateListPage) -> (u32, u32, Seq<char>, Option<u32>, u8) {
    (p.page, p.list_number, p.list_name@, p.candidate_count, p.detected_columns)
}

/// The entry for page `p` (counted from 1) of a report, whose text is
/// `text`: the list known in advance on that page in the Utrecht report;
/// otherwise the list whose title the page carries, named and counted as
/// known in advance for the Utrecht report (unless the known name is
/// blank), with the columns detected from its text.
pub open spec fn list_page_entry(p: int, text: Seq<char>, utrecht: bool) -> Option<
    (u32, u32, Seq<char>, Option<u32>, u8),
> {
    match (if utrecht {
        utrecht_list_on_page(p)
    } else {
        None
    }) {
        Some(n) => match utrecht_entry(n) {
            Some((page, name, count)) => Some(
                (page, n, name, Some(count), if count > 25 {
                    2u8
                } else {
                    1u8
                }),
            ),
            None => None,
        },
        None => match title_from(lines(text), 0) {
            Some((n, parsed)) => {
                let known = if utrecht {
                    utrecht_entry(n)
                } else {
                    None
                };
                let name = match known {
                    Some((page, name, count)) => if trim(name).len() > 0 {
                        name
                    } else {
                        parsed
                    },
                    None => parsed,
                };
                let cols = if count_from(lowercase_of(text), "kandidaat"@, 0) >= 2 && count_from(
                    lowercase_of(text),
                    "stemmen"@,
                    0,
                ) >= 2 {
                    2u8
                } else {
                    1u8
                };
                Some(
                    (
                        p as u32,
                        n,
                        name,
                        match known {
                            Some((page, name, count)) => Some(count),
                            None => None,
                        },
                        cols,
                    ),
                )
            },
            None => None,
        },
    }
}

/// The entries of the first `k` pages, in page order.
pub open spec fn list_pages_upto(pages: Seq<Seq<char>>, utrecht: bool, k: int) -> Seq<
    (u32, u32, Seq<char>, Option<u32>, u8),
>
    decreases k,
{
    if k <= 0 {
        Seq::empty()
    } else {
        let prev = list_pages_upto(pages, utrecht, k - 1);
        match list_page_entry(k, pages[k - 1], utrecht) {
            Some(e) => prev.push(e),
            None => prev,
        }
    }
}

/// Whether the report is Utrecht's: a page names the municipality, or the
/// PDF's file name starts with `Utrecht_`.
pub open spec fn is_utrecht_report(pages: Seq<Seq<char>>, pdf: Seq<char>) -> bool {
    (exists|i: int| 0 <= i < pages.len() && contains(#[trigger] pages[i], "Gemeente 0344 Utrecht"@))
        || match file_name_of(pdf) {
        Some(n) => starts_with(n, "Utrecht_"@),
        None => false,
    }
}

/// Whether the report whose pages are `pages` and whose file is `pdf` is
/// Utrecht's.
fn utrecht_report(pages: &Vec<String>, pdf: &str) -> (r: bool)
    ensures
        r == is_utrecht_report(strs(pages@), pdf@),
{
    let mut i: usize = 0;
    while i < pages.len()
        invariant
            i <= pages@.len(),
            forall|j: int| 0 <= j < i ==> !contains(strs(pages@)[j], "Gemeente 0344 Utrecht"@),
        decreases pages@.len() - i,
    {
        let v = to_chars(pages[i].as_str());
        if contains_str(&v, "Gemeente 0344 Utrecht") {
            assert(contains(strs(pages@)[i as int], "Gemeente 0344 Utrecht"@));
            return true;
        }
        i = i + 1;
    }
    match path_file_name(pdf) {
        Some(n) => {
            let v = to_chars(n.as_str());
            starts_with_str(&v, "Utrecht_")
        },
        None => false,
    }
}

/// The entry for page `p` of text `text`, as `list_page_entry` gives it.
fn list_page_at(p: u32, text: &str, utrecht: bool) -> (r: Option<CandidateListPage>)
    ensures
        match list_page_entry(p as int, text@, utrecht) {
            Some(e) => r is Some && page_view(r->0) == e,
            None => r is None,
        },
{
    let known_page: Option<u32> = if utrecht {
        if p == 7 {
            Some(1)
        } else if 9 <= p && p <= 27 {
            Some(p - 7)
        } else {
            None
        }
    } else {
        None
    };
    match known_page {
        Some(n) => match utrecht_candidate_list(n) {
            Some(info) => {
                return Some(
                    CandidateListPage {
                        page: info.page,
                        list_number: n,
                        list_name: info.name.to_owned(),
                        candidate_count: Some(info.candidate_count),
                        detected_columns: candidate_columns_from_count(info.candidate_count),
                    },
                );
            },
            None => {
                return None;
            },
        },
        None => {},
    }
    match parse_candidate_list_title(text) {
        Some((n, parsed)) => {
            let known = if utrecht {
                utrecht_candidate_list(n)
            } else {
                None
            };
            let name = match known {
                Some(info) => {
                    let nv = to_chars(info.name);
                    let t = trim_chars(&nv);
                    if t.len() > 0 {
                        info.name.to_owned()
                    } else {
                        parsed
                    }
                },
                None => parsed,
            };
            let count = match known {
                Some(info) => Some(info.candidate_count),
                None => None,
            };
            Some(
                CandidateListPage {
                    page: p,
                    list_number: n,
                    list_name: name,
                    candidate_count: count,
                    detected_columns: detected_candidate_columns(text),
                },
            )
        },
        None => None,
    }
}

/// The candidate-list pages of a report, in page order, from the text of
/// its pages and its file `pdf`: each page carrying a list title, and for
/// the Utrecht report each page known in advance to hold a list (the
/// known list, name and candidate count taking precedence); an error when
/// there is none.
pub fn locate_candidate_list_pages(pages: &Vec<String>, pdf: &str) -> (r: Result<
    Vec<CandidateListPage>,
    PvError,
>)
    requires
        pages@.len() < u32::MAX,
    ensures
        ({
            let entries = list_pages_upto(
                strs(pages@),
                is_utrecht_report(strs(pages@), pdf@),
                pages@.len() as int,
            );
            if entries.len() == 0 {
                r is Err && r->Err_0.message@ == "could not locate B1-3.5 candidate list pages in "@
                    + pdf@
            } else {
                r is Ok && r->Ok_0@.map_values(|p: CandidateListPage| page_view(p)) == entries
            }
        }),
{
    let utrecht = utrecht_report(pages, pdf);
    let ghost ps = strs(pages@);
    let mut out: Vec<CandidateListPage> = Vec::new();
    let mut i: usize = 0;
    while i < pages.len()
        invariant
            i <= pages@.len(),
            pages@.len() < u32::MAX,
            ps == strs(pages@),
            utrecht == is_utrecht_report(ps, pdf@),
            out@.map_values(|p: CandidateListPage| page_view(p)) == list_pages_upto(
                ps,
                utrecht,
                i as int,
            ),
        decreases pages@.len() - i,
    {
        let ghost prev = out@;
        match list_page_at((i as u32) + 1, pages[i].as_str(), utrecht) {
            Some(page) => {
                out.push(page);
                assert(out@.map_values(|p: CandidateListPage| page_view(p)) =~= prev.map_values(
                    |p: CandidateListPage| page_view(p),
                ).push(page_view(out@[prev.len() as int])));
            },
            None => {},
        }
        i = i + 1;
    }
    if out.len() == 0 {
        let mut m = to_chars("could not locate B1-3.5 candidate list pages in ");
        push_str(&mut m, pdf);
        return Err(error_from_chars(&m));
    }
    Ok(out)
}

} // verus!
