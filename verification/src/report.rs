//! The short forms of report details that the terminal report shows.
use vstd::prelude::*;
use crate::text::{dec, find_from, join, seqs, split_once, split_str, starts_with, strip_prefix};
use crate::textops::{
    append_chars, dec_chars, from_chars, join_chars, lemma_find_from, push_str, split_once_str,
    split_str_chars, strip_prefix_str, to_chars, eq_str,
};

verus! {

broadcast use vstd::string::group_string_axioms;

/// `{id}: md={a}, official={b}` becomes `{id} {a}->{b}`.
pub open spec fn short_mismatch(d: Seq<char>) -> Option<Seq<char>> {
    match split_once(d, ": md="@) {
        None => None,
        Some((id, rest)) => match split_once(rest, ", official="@) {
            None => None,
            Some((md, off)) => Some(id + " "@ + md + "->"@ + off),
        },
    }
}

/// `correction {id} first={f}, Markdown={m}, second={s}[, maybe belongs
/// to {c}]` becomes `correction {id} {f}->{s}[, maybe {c}], md={m}`.
pub open spec fn short_correction(d: Seq<char>) -> Option<Seq<char>> {
    match strip_prefix(d, "correction "@) {
        None => None,
        Some(r0) => match split_once(r0, " first="@) {
            None => None,
            Some((id, r1)) => match split_once(r1, ", Markdown="@) {
                None => None,
                Some((first, r2)) => match split_once(r2, ", second="@) {
                    None => None,
                    Some((md, r3)) => {
                        let second = match split_once(r3, ", maybe belongs to "@) {
                            Some((s, c)) => s + ", maybe "@ + c,
                            None => r3,
                        };
                        Some("correction "@ + id + " "@ + first + "->"@ + second + ", md="@ + md)
                    },
                },
            },
        },
    }
}

/// `E.1 through E.20 sum to {s}, but E is {e}` becomes
/// `sum(E.1-E.20) {s}!={e}`.
pub open spec fn short_candidate_sum(d: Seq<char>) -> Option<Seq<char>> {
    match strip_prefix(d, "E.1 through E.20 sum to "@) {
        None => None,
        Some(r) => match split_once(r, ", but E is "@) {
            None => None,
            Some((sum, e)) => Some("sum(E.1-E.20) "@ + sum + "!="@ + e),
        },
    }
}

/// `E + F + G is {s}, but H is {h}` becomes `E+F+G {s}!={h}`.
pub open spec fn short_ballot_sum(d: Seq<char>) -> Option<Seq<char>> {
    match strip_prefix(d, "E + F + G is "@) {
        None => None,
        Some(r) => match split_once(r, ", but H is "@) {
            None => None,
            Some((sum, h)) => Some("E+F+G "@ + sum + "!="@ + h),
        },
    }
}

/// `expected {n} non-empty table lines, found {m}` becomes `rows {m}/{n}`.
pub open spec fn short_row_count(d: Seq<char>) -> Option<Seq<char>> {
    match strip_prefix(d, "expected "@) {
        None => None,
        Some(r) => match split_once(r, " non-empty table lines, found "@) {
            None => None,
            Some((expected, found)) => Some("rows "@ + found + "/"@ + expected),
        },
    }
}

/// `row {r} expected ID {e}, found {f}` becomes `row {r} {e}->{f}`.
pub open spec fn short_row_id(d: Seq<char>) -> Option<Seq<char>> {
    match strip_prefix(d, "row "@) {
        None => None,
        Some(r0) => match split_once(r0, " expected ID "@) {
            None => None,
            Some((row, r1)) => match split_once(r1, ", found "@) {
                None => None,
                Some((expected, found)) => Some("row "@ + row + " "@ + expected + "->"@ + found),
            },
        },
    }
}

/// `missing row {r} for {id}` becomes `missing row {r} {id}`.
pub open spec fn short_missing_row(d: Seq<char>) -> Option<Seq<char>> {
    match strip_prefix(d, "missing row "@) {
        None => None,
        Some(r) => match split_once(r, " for "@) {
            None => None,
            Some((row, id)) => Some("missing row "@ + row + " "@ + id),
        },
    }
}

/// The short form of a detail that is not a candidate comparison.
pub open spec fn short_other(d: Seq<char>) -> Seq<char> {
    if short_mismatch(d) is Some {
        short_mismatch(d)->0
    } else if short_correction(d) is Some {
        short_correction(d)->0
    } else if short_candidate_sum(d) is Some {
        short_candidate_sum(d)->0
    } else if short_ballot_sum(d) is Some {
        short_ballot_sum(d)->0
    } else if short_row_count(d) is Some {
        short_row_count(d)->0
    } else if short_row_id(d) is Some {
        short_row_id(d)->0
    } else if short_missing_row(d) is Some {
        short_missing_row(d)->0
    } else if strip_prefix(d, "could not read Markdown: "@) is Some {
        "read error: "@ + strip_prefix(d, "could not read Markdown: "@)->0
    } else if strip_prefix(d, "station not found in official CSV: "@) is Some {
        "not in CSV: "@ + strip_prefix(d, "station not found in official CSV: "@)->0
    } else if d == "missing correction OCR"@ {
        "missing correction OCR"@
    } else if strip_prefix(d, "invalid correction OCR: "@) is Some {
        "bad correction OCR: "@ + strip_prefix(d, "invalid correction OCR: "@)->0
    } else if strip_prefix(d, "could not apply corrections: "@) is Some {
        "bad correction: "@ + strip_prefix(d, "could not apply corrections: "@)->0
    } else {
        d
    }
}

/// The short form of one report detail. A candidate comparison detail
/// `candidate votes {status}: {detail}` becomes `candidate {status}:
/// {short detail}`.
pub open spec fn short_detail(d: Seq<char>) -> Seq<char>
    decreases d.len(),
{
    let p = "candidate votes "@;
    let sep = ": "@;
    if starts_with(d, p) && sep.len() > 0 {
        let rest = d.skip(p.len() as int);
        match find_from(rest, sep, 0) {
            Some(i) => if 0 <= i && i + sep.len() <= rest.len() {
                "candidate "@ + rest.take(i) + ": "@ + short_detail(rest.skip(i + sep.len()))
            } else {
                short_other(d)
            },
            None => short_other(d),
        }
    } else {
        short_other(d)
    }
}

/// A detail the report does not recognise is shown as it is: one holding
/// no `: md=` and starting with none of the openings the report shortens.
pub proof fn law_unrecognised_detail_unchanged(d: Seq<char>)
    requires
        !crate::text::contains(d, ": md="@),
        !starts_with(d, "candidate votes "@),
        !starts_with(d, "correction "@),
        !starts_with(d, "E.1 through E.20 sum to "@),
        !starts_with(d, "E + F + G is "@),
        !starts_with(d, "expected "@),
        !starts_with(d, "row "@),
        !starts_with(d, "missing row "@),
        !starts_with(d, "could not read Markdown: "@),
        !starts_with(d, "station not found in official CSV: "@),
        !starts_with(d, "invalid correction OCR: "@),
        !starts_with(d, "could not apply corrections: "@),
    ensures
        short_detail(d) == d,
{
}

/// The short form of a candidate comparison detail, if `d` is one.
pub open spec fn short_candidate_comparison(d: Seq<char>) -> Option<Seq<char>> {
    match strip_prefix(d, "candidate votes "@) {
        None => None,
        Some(rest) => match split_once(rest, ": "@) {
            None => None,
            Some((status, det)) => Some("candidate "@ + status + ": "@ + short_detail(det)),
        },
    }
}

proof fn lemma_split_once(s: Seq<char>, p: Seq<char>)
    ensures
        match split_once(s, p) {
            Some((a, b)) => {
                let i = find_from(s, p, 0)->0;
                &&& 0 <= i && i + p.len() <= s.len()
                &&& a == s.take(i)
                &&& b == s.skip(i + p.len())
                &&& b.len() == s.len() - i - p.len()
            },
            None => find_from(s, p, 0) is None,
        },
{
    lemma_find_from(s, p, 0);
}

/// `short_detail` is the candidate-comparison form where it applies and the
/// other forms otherwise.
proof fn lemma_short_detail(d: Seq<char>)
    ensures
        short_detail(d) == match short_candidate_comparison(d) {
            Some(s) => s,
            None => short_other(d),
        },
{
    reveal_strlit(": ");
    reveal_strlit("candidate votes ");
    if starts_with(d, "candidate votes "@) {
        let rest = d.skip("candidate votes "@.len() as int);
        assert(strip_prefix(d, "candidate votes "@) == Some(rest));
        lemma_split_once(rest, ": "@);
    }
}

/// The short form of a candidate comparison detail.
pub fn shorten_candidate_comparison_detail(detail: &str) -> (r: Option<String>)
    ensures
        match short_candidate_comparison(detail@) {
            Some(s) => r is Some && r->0@ == s,
            None => r is None,
        },
    decreases detail@.len(), 0nat,
{
    let v = to_chars(detail);
    let rest = match strip_prefix_str(&v, "candidate votes ") {
        Some(rest) => rest,
        None => {
            return None;
        },
    };
    proof {
        lemma_split_once(rest@, ": "@);
        reveal_strlit(": ");
        reveal_strlit("candidate votes ");
    }
    match split_once_str(&rest, ": ") {
        Some((status, det)) => {
            let ds = from_chars(&det);
            assert(ds@.len() < detail@.len());
            let short = shorten_detail(ds.as_str());
            let mut m = to_chars("candidate ");
            append_chars(&mut m, &status);
            push_str(&mut m, ": ");
            let sc = to_chars(short.as_str());
            append_chars(&mut m, &sc);
            Some(from_chars(&m))
        },
        None => None,
    }
}

/// The short form of a vote mismatch detail.
pub fn shorten_mismatch_detail(detail: &str) -> (r: Option<String>)
    ensures
        match short_mismatch(detail@) {
            Some(s) => r is Some && r->0@ == s,
            None => r is None,
        },
{
    let v = to_chars(detail);
    let (id, rest) = match split_once_str(&v, ": md=") {
        Some(x) => x,
        None => {
            return None;
        },
    };
    let (md, off) = match split_once_str(&rest, ", official=") {
        Some(x) => x,
        None => {
            return None;
        },
    };
    let mut m = id;
    push_str(&mut m, " ");
    append_chars(&mut m, &md);
    push_str(&mut m, "->");
    append_chars(&mut m, &off);
    Some(from_chars(&m))
}

/// The short form of a correction inconsistency detail.
pub fn shorten_correction_inconsistency_detail(detail: &str) -> (r: Option<String>)
    ensures
        match short_correction(detail@) {
            Some(s) => r is Some && r->0@ == s,
            None => r is None,
        },
{
    let v = to_chars(detail);
    let r0 = match strip_prefix_str(&v, "correction ") {
        Some(x) => x,
        None => {
            return None;
        },
    };
    let (id, r1) = match split_once_str(&r0, " first=") {
        Some(x) => x,
        None => {
            return None;
        },
    };
    let (first, r2) = match split_once_str(&r1, ", Markdown=") {
        Some(x) => x,
        None => {
            return None;
        },
    };
    let (md, r3) = match split_once_str(&r2, ", second=") {
        Some(x) => x,
        None => {
            return None;
        },
    };
    let second = match split_once_str(&r3, ", maybe belongs to ") {
        Some((s, c)) => {
            let mut x = s;
            push_str(&mut x, ", maybe ");
            append_chars(&mut x, &c);
            x
        },
        None => r3,
    };
    let mut m = to_chars("correction ");
    append_chars(&mut m, &id);
    push_str(&mut m, " ");
    append_chars(&mut m, &first);
    push_str(&mut m, "->");
    append_chars(&mut m, &second);
    push_str(&mut m, ", md=");
    append_chars(&mut m, &md);
    Some(from_chars(&m))
}

/// The short form of the `E.1` to `E.20` sum detail.
pub fn shorten_candidate_sum_detail(detail: &str) -> (r: Option<String>)
    ensures
        match short_candidate_sum(detail@) {
            Some(s) => r is Some && r->0@ == s,
            None => r is None,
        },
{
    let v = to_chars(detail);
    let rest = match strip_prefix_str(&v, "E.1 through E.20 sum to ") {
        Some(x) => x,
        None => {
            return None;
        },
    };
    let (sum, e) = match split_once_str(&rest, ", but E is ") {
        Some(x) => x,
        None => {
            return None;
        },
    };
    let mut m = to_chars("sum(E.1-E.20) ");
    append_chars(&mut m, &sum);
    push_str(&mut m, "!=");
    append_chars(&mut m, &e);
    Some(from_chars(&m))
}

/// The short form of the `E + F + G` sum detail.
pub fn shorten_ballot_sum_detail(detail: &str) -> (r: Option<String>)
    ensures
        match short_ballot_sum(detail@) {
            Some(s) => r is Some && r->0@ == s,
            None => r is None,
        },
{
    let v = to_chars(detail);
    let rest = match strip_prefix_str(&v, "E + F + G is ") {
        Some(x) => x,
        None => {
            return None;
        },
    };
    let (sum, h) = match split_once_str(&rest, ", but H is ") {
        Some(x) => x,
        None => {
            return None;
        },
    };
    let mut m = to_chars("E+F+G ");
    append_chars(&mut m, &sum);
    push_str(&mut m, "!=");
    append_chars(&mut m, &h);
    Some(from_chars(&m))
}

/// The short form of the table line count detail.
pub fn shorten_row_count_detail(detail: &str) -> (r: Option<String>)
    ensures
        match short_row_count(detail@) {
            Some(s) => r is Some && r->0@ == s,
            None => r is None,
        },
{
    let v = to_chars(detail);
    let rest = match strip_prefix_str(&v, "expected ") {
        Some(x) => x,
        None => {
            return None;
        },
    };
    let (expected, found) = match split_once_str(&rest, " non-empty table lines, found ") {
        Some(x) => x,
        None => {
            return None;
        },
    };
    let mut m = to_chars("rows ");
    append_chars(&mut m, &found);
    push_str(&mut m, "/");
    append_chars(&mut m, &expected);
    Some(from_chars(&m))
}

/// The short form of an unexpected row identifier detail.
pub fn shorten_row_id_detail(detail: &str) -> (r: Option<String>)
    ensures
        match short_row_id(detail@) {
            Some(s) => r is Some && r->0@ == s,
            None => r is None,
        },
{
    let v = to_chars(detail);
    let r0 = match strip_prefix_str(&v, "row ") {
        Some(x) => x,
        None => {
            return None;
        },
    };
    let (row, r1) = match split_once_str(&r0, " expected ID ") {
        Some(x) => x,
        None => {
            return None;
        },
    };
    let (expected, found) = match split_once_str(&r1, ", found ") {
        Some(x) => x,
        None => {
            return None;
        },
    };
    let mut m = to_chars("row ");
    append_chars(&mut m, &row);
    push_str(&mut m, " ");
    append_chars(&mut m, &expected);
    push_str(&mut m, "->");
    append_chars(&mut m, &found);
    Some(from_chars(&m))
}

/// The short form of a missing row detail.
pub fn shorten_missing_row_detail(detail: &str) -> (r: Option<String>)
    ensures
        match short_missing_row(detail@) {
            Some(s) => r is Some && r->0@ == s,
            None => r is None,
        },
{
    let v = to_chars(detail);
    let rest = match strip_prefix_str(&v, "missing row ") {
        Some(x) => x,
        None => {
            return None;
        },
    };
    let (row, id) = match split_once_str(&rest, " for ") {
        Some(x) => x,
        None => {
            return None;
        },
    };
    let mut m = to_chars("missing row ");
    append_chars(&mut m, &row);
    push_str(&mut m, " ");
    append_chars(&mut m, &id);
    Some(from_chars(&m))
}

/// `replacement` followed by what follows `prefix` in `v`, if `v` starts
/// with `prefix`.
fn replace_prefix(v: &Vec<char>, prefix: &str, replacement: &str) -> (r: Option<String>)
    ensures
        match strip_prefix(v@, prefix@) {
            Some(rest) => r is Some && r->0@ == replacement@ + rest,
            None => r is None,
        },
{
    match strip_prefix_str(v, prefix) {
        Some(rest) => {
            let mut m = to_chars(replacement);
            append_chars(&mut m, &rest);
            Some(from_chars(&m))
        },
        None => None,
    }
}

/// The short form of one report detail, as the terminal report shows it:
/// vote mismatches, correction issues, sum errors, row errors and the
/// usual failure messages get compact forms; other details stay as they
/// are.
pub fn shorten_detail(detail: &str) -> (r: String)
    ensures
        r@ == short_detail(detail@),
    decreases detail@.len(), 1nat,
{
    proof {
        lemma_short_detail(detail@);
    }
    if let Some(s) = shorten_candidate_comparison_detail(detail) {
        return s;
    }
    if let Some(s) = shorten_mismatch_detail(detail) {
        return s;
    }
    if let Some(s) = shorten_correction_inconsistency_detail(detail) {
        return s;
    }
    if let Some(s) = shorten_candidate_sum_detail(detail) {
        return s;
    }
    if let Some(s) = shorten_ballot_sum_detail(detail) {
        return s;
    }
    if let Some(s) = shorten_row_count_detail(detail) {
        return s;
    }
    if let Some(s) = shorten_row_id_detail(detail) {
        return s;
    }
    if let Some(s) = shorten_missing_row_detail(detail) {
        return s;
    }
    let v = to_chars(detail);
    if let Some(s) = replace_prefix(&v, "could not read Markdown: ", "read error: ") {
        return s;
    }
    if let Some(s) = replace_prefix(&v, "station not found in official CSV: ", "not in CSV: ") {
        return s;
    }
    if eq_str(&v, "missing correction OCR") {
        return "missing correction OCR".to_owned();
    }
    if let Some(s) = replace_prefix(&v, "invalid correction OCR: ", "bad correction OCR: ") {
        return s;
    }
    if let Some(s) = replace_prefix(&v, "could not apply corrections: ", "bad correction: ") {
        return s;
    }
    detail.to_owned()
}

/// The short form of a `; `-separated list of details: each detail
/// shortened, and only the first two kept, followed by `+{n}` for the `n`
/// left out.
pub open spec fn short_reason(details: Seq<char>) -> Seq<char> {
    let parts = split_str(details, "; "@).map_values(|d: Seq<char>| short_detail(d));
    if parts.len() <= 2 {
        join(parts, "; "@)
    } else {
        join(parts.take(2), "; "@) + "; +"@ + dec((parts.len() - 2) as nat)
    }
}

/// Shortens each `; `-separated detail and keeps the first two, adding
/// `+{n}` for the others.
pub fn shorten_reason(details: &str) -> (r: String)
    ensures
        r@ == short_reason(details@),
{
    proof {
        reveal_strlit("; ");
    }
    let v = to_chars(details);
    let parts = split_str_chars(&v, "; ");
    let ghost ps = seqs(parts@);
    let mut short: Vec<Vec<char>> = Vec::new();
    let mut i: usize = 0;
    while i < parts.len()
        invariant
            ps == seqs(parts@),
            i <= parts.len(),
            seqs(short@) == ps.map_values(|d: Seq<char>| short_detail(d)).take(i as int),
        decreases parts.len() - i,
    {
        let p = from_chars(&parts[i]);
        assert(p@ == ps[i as int]);
        let s = shorten_detail(p.as_str());
        let sc = to_chars(s.as_str());
        let ghost o = seqs(short@);
        short.push(sc);
        assert(seqs(short@) =~= o.push(sc@));
        assert(ps.map_values(|d: Seq<char>| short_detail(d)).take(i + 1) =~= ps.map_values(
            |d: Seq<char>| short_detail(d),
        ).take(i as int).push(short_detail(ps[i as int])));
        i = i + 1;
    }
    let ghost all = ps.map_values(|d: Seq<char>| short_detail(d));
    assert(all.take(parts.len() as int) =~= all);
    if short.len() <= 2 {
        let j = join_chars(&short, "; ");
        from_chars(&j)
    } else {
        let n = short.len() - 2;
        let mut first: Vec<Vec<char>> = Vec::new();
        first.push(crate::textops::copy_chars(&short[0]));
        first.push(crate::textops::copy_chars(&short[1]));
        assert(seqs(first@) =~= all.take(2));
        let mut m = join_chars(&first, "; ");
        push_str(&mut m, "; +");
        let d = dec_chars(n as u64);
        append_chars(&mut m, &d);
        from_chars(&m)
    }
}

} // verus!
