//! Which vote rows of a station's table a report highlights, read from the
//! comparison details, and the notes of the mismatch reports.
use vstd::prelude::*;
use crate::args::set_insert;
use crate::compare::{parse_votes_markdown_values, votes_of};
use crate::comparison::{CandidateComparison, ComparisonRow, candidate_status_text};
use crate::text::{dec, parse_u32, seqs, split_once, split_str, starts_with, strip_prefix, strs, trim};
use crate::textops::{
    append_chars, dec_chars, from_chars, parse_u32_chars, push_str, split_once_str,
    split_str_chars, starts_with_str, strip_prefix_str, to_chars, trim_chars, eq_str,
};
use crate::votes::{vote_label, vote_label_string, VoteValues};

verus! {

broadcast use vstd::string::group_string_axioms;

/// The vote-row identifier that `value` names once trimmed: `E`, `F`, `G`,
/// `H`, or `E.` followed by an unsigned number.
pub open spec fn vote_id_of(value: Seq<char>) -> Option<Seq<char>> {
    let id = trim(value);
    if id == "E"@ || id == "F"@ || id == "G"@ || id == "H"@ {
        Some(id)
    } else {
        match strip_prefix(id, "E."@) {
            Some(n) => if parse_u32(n) is Some {
                Some(id)
            } else {
                None
            },
            None => None,
        }
    }
}

/// The set `ids` with the identifier `value` names added, if it names one.
pub open spec fn with_vote_id(ids: Seq<Seq<char>>, value: Seq<char>) -> Seq<Seq<char>> {
    match vote_id_of(value) {
        Some(id) => set_insert(ids, id),
        None => ids,
    }
}

/// Adds `x` to a set of strings unless it is there.
fn insert_text(ids: &mut Vec<String>, x: Vec<char>)
    ensures
        strs(final(ids)@) == set_insert(strs(old(ids)@), x@),
{
    let ghost s = strs(ids@);
    let mut i: usize = 0;
    while i < ids.len()
        invariant
            s == strs(ids@),
            i <= ids.len(),
            forall|j: int| 0 <= j < i ==> s[j] != x@,
        decreases ids.len() - i,
    {
        let c = to_chars(ids[i].as_str());
        assert(s[i as int] == c@);
        if crate::textops::chars_eq(&c, &x) {
            assert(s.contains(x@));
            return;
        }
        i = i + 1;
    }
    assert(!s.contains(x@));
    ids.push(from_chars(&x));
    assert(strs(ids@) =~= s.push(x@));
}

/// Adds the vote-row identifier that `value` names, if it names one, to the
/// set `ids`.
pub fn insert_vote_id(ids: &mut Vec<String>, value: &str)
    ensures
        strs(final(ids)@) == with_vote_id(strs(old(ids)@), value@),
{
    let id = crate::textops::trim_str(value);
    if eq_str(&id, "E") || eq_str(&id, "F") || eq_str(&id, "G") || eq_str(&id, "H") {
        insert_text(ids, id);
    } else {
        match strip_prefix_str(&id, "E.") {
            Some(n) => {
                if parse_u32_chars(&n).is_some() {
                    insert_text(ids, id);
                }
            },
            None => {},
        }
    }
}

/// The identifiers named by the mismatch details (`{id}: md=…`) among the
/// first `k` details.
pub open spec fn official_ids_upto(ds: Seq<Seq<char>>, k: int) -> Seq<Seq<char>>
    decreases k,
{
    if k <= 0 {
        Seq::empty()
    } else {
        let prev = official_ids_upto(ds, k - 1);
        match split_once(ds[k - 1], ": md="@) {
            Some((id, _)) => with_vote_id(prev, id),
            None => prev,
        }
    }
}

/// The vote rows that the mismatch details of `details` name, as a set.
pub fn official_problem_ids_from_details(details: &str) -> (r: Vec<String>)
    ensures
        ({
            let ds = split_str(details@, "; "@);
            strs(r@) == official_ids_upto(ds, ds.len() as int)
        }),
{
    proof {
        reveal_strlit("; ");
    }
    let v = to_chars(details);
    let ds = split_str_chars(&v, "; ");
    let ghost dv = seqs(ds@);
    let mut ids: Vec<String> = Vec::new();
    let mut k: usize = 0;
    assert(strs(ids@) =~= Seq::<Seq<char>>::empty());
    while k < ds.len()
        invariant
            dv == seqs(ds@),
            dv == split_str(details@, "; "@),
            k <= ds.len(),
            strs(ids@) == official_ids_upto(dv, k as int),
        decreases ds.len() - k,
    {
        assert(dv[k as int] == ds@[k as int]@);
        match split_once_str(&ds[k], ": md=") {
            Some((id, _)) => {
                let s = from_chars(&id);
                insert_vote_id(&mut ids, s.as_str());
            },
            None => {},
        }
        k = k + 1;
    }
    ids
}

/// The identifiers that one detail points at as an internal problem.
pub open spec fn internal_ids_of(ids: Seq<Seq<char>>, d: Seq<char>) -> Seq<Seq<char>> {
    if starts_with(d, "E.1 through E.20 sum to "@) {
        set_insert(ids, "E"@)
    } else if starts_with(d, "E + F + G is "@) {
        set_insert(ids, "H"@)
    } else if strip_prefix(d, "row "@) is Some {
        let rest = strip_prefix(d, "row "@)->0;
        match split_once(rest, " expected ID "@) {
            Some((_, r2)) => match split_once(r2, ", found "@) {
                Some((e, f)) => with_vote_id(with_vote_id(ids, e), f),
                None => ids,
            },
            None => match split_once(rest, " value for "@) {
                Some((_, r2)) => match split_once(r2, " is not digits only"@) {
                    Some((id, _)) => with_vote_id(ids, id),
                    None => match split_once(r2, " could not be parsed"@) {
                        Some((id, _)) => with_vote_id(ids, id),
                        None => ids,
                    },
                },
                None => ids,
            },
        }
    } else {
        match strip_prefix(d, "missing row "@) {
            Some(rest) => match split_once(rest, " for "@) {
                Some((_, id)) => with_vote_id(ids, id),
                None => ids,
            },
            None => ids,
        }
    }
}

/// The identifiers the first `k` details point at as internal problems.
pub open spec fn internal_ids_upto(ds: Seq<Seq<char>>, k: int) -> Seq<Seq<char>>
    decreases k,
{
    if k <= 0 {
        Seq::empty()
    } else {
        internal_ids_of(internal_ids_upto(ds, k - 1), ds[k - 1])
    }
}

/// Applies one detail to the set of internal problem rows.
fn internal_ids_step(ids: &mut Vec<String>, d: &Vec<char>)
    ensures
        strs(final(ids)@) == internal_ids_of(strs(old(ids)@), d@),
{
    if starts_with_str(d, "E.1 through E.20 sum to ") {
        insert_text(ids, to_chars("E"));
        return;
    }
    if starts_with_str(d, "E + F + G is ") {
        insert_text(ids, to_chars("H"));
        return;
    }
    match strip_prefix_str(d, "row ") {
        Some(rest) => {
            match split_once_str(&rest, " expected ID ") {
                Some((_, r2)) => {
                    match split_once_str(&r2, ", found ") {
                        Some((e, f)) => {
                            let es = from_chars(&e);
                            let fs = from_chars(&f);
                            insert_vote_id(ids, es.as_str());
                            insert_vote_id(ids, fs.as_str());
                        },
                        None => {},
                    }
                },
                None => {
                    match split_once_str(&rest, " value for ") {
                        Some((_, r2)) => {
                            match split_once_str(&r2, " is not digits only") {
                                Some((id, _)) => {
                                    let s = from_chars(&id);
                                    insert_vote_id(ids, s.as_str());
                                },
                                None => {
                                    match split_once_str(&r2, " could not be parsed") {
                                        Some((id, _)) => {
                                            let s = from_chars(&id);
                                            insert_vote_id(ids, s.as_str());
                                        },
                                        None => {},
                                    }
                                },
                            }
                        },
                        None => {},
                    }
                },
            }
            return;
        },
        None => {},
    }
    match strip_prefix_str(d, "missing row ") {
        Some(rest) => {
            match split_once_str(&rest, " for ") {
                Some((_, id)) => {
                    let s = from_chars(&id);
                    insert_vote_id(ids, s.as_str());
                },
                None => {},
            }
        },
        None => {},
    }
}

/// The vote rows that validation details point at: `E` for a wrong list
/// sum, `H` for a wrong ballot sum, and the rows named by row-order, value
/// and missing-row errors; as a set.
pub fn internal_problem_ids_from_details(details: &str) -> (r: Vec<String>)
    ensures
        ({
            let ds = split_str(details@, "; "@);
            strs(r@) == internal_ids_upto(ds, ds.len() as int)
        }),
{
    proof {
        reveal_strlit("; ");
    }
    let v = to_chars(details);
    let ds = split_str_chars(&v, "; ");
    let ghost dv = seqs(ds@);
    let mut ids: Vec<String> = Vec::new();
    let mut k: usize = 0;
    assert(strs(ids@) =~= Seq::<Seq<char>>::empty());
    while k < ds.len()
        invariant
            dv == seqs(ds@),
            dv == split_str(details@, "; "@),
            k <= ds.len(),
            strs(ids@) == internal_ids_upto(dv, k as int),
        decreases ds.len() - k,
    {
        assert(dv[k as int] == ds@[k as int]@);
        internal_ids_step(&mut ids, &ds[k]);
        k = k + 1;
    }
    ids
}

/// The identifiers of the vote rows among the first `k` whose values in
/// `md` and `off` differ.
pub open spec fn differing_ids_upto(md: Seq<Option<u32>>, off: Seq<Option<u32>>, k: int) -> Seq<
    Seq<char>,
>
    decreases k,
{
    if k <= 0 {
        Seq::empty()
    } else {
        let prev = differing_ids_upto(md, off, k - 1);
        if md[k - 1] != off[k - 1] {
            set_insert(prev, vote_label(k - 1))
        } else {
            prev
        }
    }
}

/// The rows of a comparison row that differ from the official values: read
/// from the OCR table `markdown` when there is one and official values are
/// known, else (or when none differ there) from the mismatch details.
pub open spec fn official_ids_for(row: ComparisonRow, markdown: Option<Seq<char>>) -> Seq<Seq<char>> {
    let from_details = official_ids_upto(
        split_str(row.details@, "; "@),
        split_str(row.details@, "; "@).len() as int,
    );
    match markdown {
        None => from_details,
        Some(md) => if forall|i: int| 0 <= i < 24 ==> row.official_values@[i] is None {
            from_details
        } else {
            let ids = differing_ids_upto(votes_of(md), row.official_values@, 24);
            if ids.len() == 0 {
                from_details
            } else {
                ids
            }
        },
    }
}

/// The vote rows of a comparison row whose OCR value differs from the
/// official one, as a set. `markdown` is the text of the row's OCR table,
/// when it has one that could be read.
pub fn official_problem_ids_for_row(row: &ComparisonRow, markdown: Option<&str>) -> (r: Vec<String>)
    requires
        row.official_values.wf(),
    ensures
        strs(r@) == official_ids_for(*row, match markdown {
            Some(m) => Some(m@),
            None => None,
        }),
{
    let md = match markdown {
        Some(m) => m,
        None => {
            return official_problem_ids_from_details(row.details.as_str());
        },
    };
    if row.official_values.is_empty() {
        return official_problem_ids_from_details(row.details.as_str());
    }
    let values = parse_votes_markdown_values(md);
    let mut ids: Vec<String> = Vec::new();
    let mut i: usize = 0;
    assert(strs(ids@) =~= Seq::<Seq<char>>::empty());
    while i < 24
        invariant
            values.wf(),
            row.official_values.wf(),
            values@ == votes_of(md@),
            i <= 24,
            strs(ids@) == differing_ids_upto(values@, row.official_values@, i as int),
        decreases 24 - i,
    {
        if values.slots[i] != row.official_values.slots[i] {
            let l = crate::votes::vote_label_chars(i);
            insert_text(&mut ids, l);
        }
        i = i + 1;
    }
    if ids.len() == 0 {
        official_problem_ids_from_details(row.details.as_str())
    } else {
        ids
    }
}

/// The rows a mismatch report highlights in a station's vote table: those
/// that differ from the official values, and those validation found at
/// fault.
#[derive(Debug)]
pub struct HighlightRows {
    pub official: Vec<String>,
    pub internal: Vec<String>,
}

/// The rows to highlight for a comparison row; `markdown` is the text of
/// its OCR table, when it could be read.
pub fn highlight_rows_for_row(row: &ComparisonRow, markdown: Option<&str>) -> (r: HighlightRows)
    requires
        row.official_values.wf(),
    ensures
        strs(r.official@) == official_ids_for(*row, match markdown {
            Some(m) => Some(m@),
            None => None,
        }),
        ({
            let ds = split_str(row.details@, "; "@);
            strs(r.internal@) == internal_ids_upto(ds, ds.len() as int)
        }),
{
    HighlightRows {
        official: official_problem_ids_for_row(row, markdown),
        internal: internal_problem_ids_from_details(row.details.as_str()),
    }
}

/// The details of a row that are about corrections.
pub open spec fn correction_details_upto(ds: Seq<Seq<char>>, k: int) -> Seq<Seq<char>>
    decreases k,
{
    if k <= 0 {
        Seq::empty()
    } else {
        let prev = correction_details_upto(ds, k - 1);
        if starts_with(ds[k - 1], "correction "@) {
            prev.push(ds[k - 1])
        } else {
            prev
        }
    }
}

/// The details of a row that start with `correction `, in order.
pub fn correction_issue_details_from_row(row: &ComparisonRow) -> (r: Vec<String>)
    ensures
        ({
            let ds = split_str(row.details@, "; "@);
            strs(r@) == correction_details_upto(ds, ds.len() as int)
        }),
{
    proof {
        reveal_strlit("; ");
    }
    let v = to_chars(row.details.as_str());
    let ds = split_str_chars(&v, "; ");
    let ghost dv = seqs(ds@);
    let mut out: Vec<String> = Vec::new();
    let mut k: usize = 0;
    assert(strs(out@) =~= Seq::<Seq<char>>::empty());
    while k < ds.len()
        invariant
            dv == seqs(ds@),
            dv == split_str(row.details@, "; "@),
            k <= ds.len(),
            strs(out@) == correction_details_upto(dv, k as int),
        decreases ds.len() - k,
    {
        assert(dv[k as int] == ds@[k as int]@);
        if starts_with_str(&ds[k], "correction ") {
            let s = from_chars(&ds[k]);
            let ghost o = strs(out@);
            out.push(s);
            assert(strs(out@) =~= o.push(s@));
        }
        k = k + 1;
    }
    out
}

/// The identifiers named by the correction details among the first `k`:
/// the word after `correction `.
pub open spec fn correction_ids_upto(ds: Seq<Seq<char>>, k: int) -> Seq<Seq<char>>
    decreases k,
{
    if k <= 0 {
        Seq::empty()
    } else {
        let prev = correction_ids_upto(ds, k - 1);
        match strip_prefix(ds[k - 1], "correction "@) {
            Some(rest) => match split_once(rest, " "@) {
                Some((id, _)) => set_insert(prev, id),
                None => prev,
            },
            None => prev,
        }
    }
}

/// The identifiers that the correction details of a row are about, as a
/// set.
pub fn correction_issue_ids_from_row(row: &ComparisonRow) -> (r: Vec<String>)
    ensures
        ({
            let ds = split_str(row.details@, "; "@);
            strs(r@) == correction_ids_upto(ds, ds.len() as int)
        }),
{
    proof {
        reveal_strlit("; ");
    }
    let v = to_chars(row.details.as_str());
    let ds = split_str_chars(&v, "; ");
    let ghost dv = seqs(ds@);
    let mut ids: Vec<String> = Vec::new();
    let mut k: usize = 0;
    assert(strs(ids@) =~= Seq::<Seq<char>>::empty());
    while k < ds.len()
        invariant
            dv == seqs(ds@),
            dv == split_str(row.details@, "; "@),
            k <= ds.len(),
            strs(ids@) == correction_ids_upto(dv, k as int),
        decreases ds.len() - k,
    {
        assert(dv[k as int] == ds@[k as int]@);
        match strip_prefix_str(&ds[k], "correction ") {
            Some(rest) => match split_once_str(&rest, " ") {
                Some((id, _)) => {
                    insert_text(&mut ids, id);
                },
                None => {},
            },
            None => {},
        }
        k = k + 1;
    }
    ids
}

} // verus!
