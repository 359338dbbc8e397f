//! Comparison of OCR vote values with the official results: reading the
//! values of a vote table, listing the rows that differ, recomputing the
//! aggregate rows and undoing the corrections of a recount.
use vstd::prelude::*;
use crate::markdown::{md_cells, md_cells_chars};
use crate::text::{dec, parse_u32, seqs, strs, trimmed_lines};
use crate::textops::{
    append_chars, chars_eq, dec_chars, from_chars, parse_u32_chars, push_str, to_chars, to_strings,
    trimmed_lines_chars,
};
use crate::corrections::{
    corrections_fit, corrections_of, parse_correction_markdown_values, Correction, CorrectionTable,
};
use crate::validate::{
    corrections_errors, is_skipped, report_matches, slot_sum, validate_corrections_markdown, value_of,
    ValidationReport,
};
use crate::votes::{lemma_find_vote_slot, no_values, vote_label, vote_label_chars, vote_slot, vote_slot_of, VoteValues};

verus! {

broadcast use vstd::string::group_string_axioms;

/// A count as reports show it: its decimal notation, or `missing`.
pub open spec fn opt_text(v: Option<u32>) -> Seq<char> {
    match v {
        Some(x) => dec(x as nat),
        None => "missing"@,
    }
}

/// The decimal notation of `value`, or `missing` when there is none.
pub fn optional_u32(value: Option<u32>) -> (r: String)
    ensures
        r@ == opt_text(value),
{
    let v = optional_u32_chars(value);
    from_chars(&v)
}

/// The characters of `optional_u32(value)`.
pub fn optional_u32_chars(value: Option<u32>) -> (r: Vec<char>)
    ensures
        r@ == opt_text(value),
{
    match value {
        Some(x) => dec_chars(x as u64),
        None => to_chars("missing"),
    }
}

/// The vote row and value that a line of a vote table gives: two cells, a
/// known row identifier and an unsigned count.
pub open spec fn vote_line_value(line: Seq<char>) -> Option<(int, u32)> {
    let cells = md_cells(line);
    if cells.len() == 2 {
        match vote_slot(cells[0]) {
            Some(i) => match parse_u32(cells[1]) {
                Some(v) => Some((i, v)),
                None => None,
            },
            None => None,
        }
    } else {
        None
    }
}

/// The values given by the first `k` lines; a later line for the same row
/// replaces an earlier one.
pub open spec fn votes_fold(lines: Seq<Seq<char>>, k: int) -> Seq<Option<u32>>
    decreases k,
{
    if k <= 0 {
        no_values()
    } else {
        let prev = votes_fold(lines, k - 1);
        match vote_line_value(lines[k - 1]) {
            Some((i, v)) => prev.update(i, Some(v)),
            None => prev,
        }
    }
}

/// The vote values that the Markdown text `md` gives, per row slot.
pub open spec fn votes_of(md: Seq<char>) -> Seq<Option<u32>> {
    votes_fold(trimmed_lines(md), trimmed_lines(md).len() as int)
}

/// Vote values read from lines have one slot per vote row.
pub proof fn lemma_votes_fold_len(lines: Seq<Seq<char>>, k: int)
    ensures
        votes_fold(lines, k).len() == 24,
    decreases k,
{
    if k > 0 {
        lemma_votes_fold_len(lines, k - 1);
        match vote_line_value(lines[k - 1]) {
            Some((i, v)) => {
                lemma_find_vote_slot(md_cells(lines[k - 1])[0], 0);
            },
            None => {},
        }
    }
}

/// The value of every vote row that a line of the Markdown text gives as
/// `| ID | count |`; other lines are ignored.
pub fn parse_votes_markdown_values(markdown: &str) -> (r: VoteValues)
    ensures
        r.wf(),
        r@ == votes_of(markdown@),
{
    let v = to_chars(markdown);
    let t = trimmed_lines_chars(&v);
    let ghost ts = seqs(t@);
    let mut values = VoteValues::new();
    let mut k: usize = 0;
    while k < t.len()
        invariant
            k <= t.len(),
            ts == seqs(t@),
            ts == trimmed_lines(markdown@),
            values.wf(),
            values@ == votes_fold(ts, k as int),
        decreases t.len() - k,
    {
        assert(ts[k as int] == t@[k as int]@);
        let cells = md_cells_chars(&t[k]);
        let ghost cs = seqs(cells@);
        if cells.len() == 2 {
            assert(cs[0] == cells@[0]@ && cs[1] == cells@[1]@);
            proof {
                lemma_find_vote_slot(cs[0], 0);
            }
            match vote_slot_of(&cells[0]) {
                Some(i) => match parse_u32_chars(&cells[1]) {
                    Some(x) => {
                        values.set_slot(i, Some(x));
                    },
                    None => {},
                },
                None => {},
            }
        }
        k = k + 1;
    }
    values
}

/// The report line for a row whose Markdown value `a` differs from the
/// official value `b`.
pub open spec fn mismatch_text(i: int, a: Option<u32>, b: Option<u32>) -> Seq<char> {
    vote_label(i) + ": md="@ + opt_text(a) + ", official="@ + opt_text(b)
}

/// The report lines for the rows among the first `k` whose values differ.
pub open spec fn mismatches_upto(md: Seq<Option<u32>>, off: Seq<Option<u32>>, k: int) -> Seq<
    Seq<char>,
>
    decreases k,
{
    if k <= 0 {
        Seq::empty()
    } else {
        let prev = mismatches_upto(md, off, k - 1);
        if md[k - 1] == off[k - 1] {
            prev
        } else {
            prev.push(mismatch_text(k - 1, md[k - 1], off[k - 1]))
        }
    }
}

/// The report lines for every vote row whose values differ, in table order.
pub open spec fn mismatches(md: Seq<Option<u32>>, off: Seq<Option<u32>>) -> Seq<Seq<char>> {
    mismatches_upto(md, off, 24)
}

/// The line `{id}: md={a}, official={b}`.
fn mismatch_line(i: usize, a: Option<u32>, b: Option<u32>) -> (r: Vec<char>)
    requires
        i < 24,
    ensures
        r@ == mismatch_text(i as int, a, b),
{
    let mut m = vote_label_chars(i);
    push_str(&mut m, ": md=");
    let x = optional_u32_chars(a);
    append_chars(&mut m, &x);
    push_str(&mut m, ", official=");
    let y = optional_u32_chars(b);
    append_chars(&mut m, &y);
    m
}

/// One line `{id}: md={value}, official={value}` for every vote row whose
/// Markdown value differs from the official one, in table order; a value
/// that is absent shows as `missing`.
pub fn official_mismatches(markdown_values: &VoteValues, official_values: &VoteValues) -> (r: Vec<
    String,
>)
    requires
        markdown_values.wf(),
        official_values.wf(),
    ensures
        strs(r@) == mismatches(markdown_values@, official_values@),
{
    let mut out: Vec<Vec<char>> = Vec::new();
    let mut i: usize = 0;
    while i < 24
        invariant
            markdown_values.wf(),
            official_values.wf(),
            i <= 24,
            seqs(out@) == mismatches_upto(markdown_values@, official_values@, i as int),
        decreases 24 - i,
    {
        let a = markdown_values.slots[i];
        let b = official_values.slots[i];
        if a != b {
            let m = mismatch_line(i, a, b);
            let ghost old_out = seqs(out@);
            out.push(m);
            assert(seqs(out@) =~= old_out.push(m@));
        }
        i = i + 1;
    }
    to_strings(&out)
}

proof fn lemma_mismatches_empty(md: Seq<Option<u32>>, off: Seq<Option<u32>>, k: int)
    ensures
        mismatches_upto(md, off, k).len() == 0 <==> forall|i: int| 0 <= i < k ==> md[i] == off[i],
    decreases k,
{
    if k > 0 {
        lemma_mismatches_empty(md, off, k - 1);
        if (forall|i: int| 0 <= i < k - 1 ==> md[i] == off[i]) && md[k - 1] == off[k - 1] {
            assert forall|i: int| 0 <= i < k implies md[i] == off[i] by {
                if i < k - 1 {
                } else {
                }
            }
        }
    }
}

/// Two sets of vote values are reported as mismatching on no row exactly
/// when they agree on every row.
pub proof fn law_no_mismatches_iff_equal(md: Seq<Option<u32>>, off: Seq<Option<u32>>)
    requires
        md.len() == 24,
        off.len() == 24,
    ensures
        mismatches(md, off).len() == 0 <==> md == off,
{
    lemma_mismatches_empty(md, off, 24);
    if forall|i: int| 0 <= i < 24 ==> md[i] == off[i] {
        assert(md =~= off);
    }
}

/// The values with `E` set to the sum of `E.1` through `E.20` and then `H`
/// set to `E + F + G`, absent values counting as zero.
pub open spec fn with_aggregates(vals: Seq<Option<u32>>) -> Seq<Option<u32>> {
    let e = slot_sum(vals, 20);
    let v1 = vals.update(20, Some(e as u32));
    v1.update(23, Some((value_of(v1, 20) + value_of(v1, 21) + value_of(v1, 22)) as u32))
}

/// The two sums that recomputing the aggregate rows takes fit in `u32`.
pub open spec fn aggregates_fit(vals: Seq<Option<u32>>) -> bool {
    &&& slot_sum(vals, 20) <= u32::MAX
    &&& slot_sum(vals, 20) + value_of(vals, 21) + value_of(vals, 22) <= u32::MAX
}

proof fn lemma_slot_sum_update(vals: Seq<Option<u32>>, k: int, j: int, x: Option<u32>)
    requires
        0 <= k <= j < vals.len(),
    ensures
        slot_sum(vals.update(j, x), k) == slot_sum(vals, k),
    decreases k,
{
    if k > 0 {
        lemma_slot_sum_update(vals, k - 1, j, x);
    }
}

/// Sets `E` to the sum of `E.1` through `E.20` and `H` to `E + F + G`,
/// counting absent values as zero.
pub fn recompute_aggregate_vote_totals(values: &mut VoteValues)
    requires
        old(values).wf(),
        aggregates_fit(old(values)@),
    ensures
        final(values).wf(),
        final(values)@ == with_aggregates(old(values)@),
{
    let ghost v0 = values@;
    let mut total: u32 = 0;
    let mut i: usize = 0;
    while i < 20
        invariant
            values@ == v0,
            values.wf(),
            aggregates_fit(v0),
            i <= 20,
            total == slot_sum(v0, i as int),
        decreases 20 - i,
    {
        proof {
            lemma_slot_sum_mono(v0, i as int + 1, 20);
        }
        match values.slots[i] {
            Some(x) => {
                total = total + x;
            },
            None => {},
        }
        i = i + 1;
    }
    values.set_slot(20, Some(total));
    let f = match values.slots[21] {
        Some(x) => x,
        None => 0,
    };
    let g = match values.slots[22] {
        Some(x) => x,
        None => 0,
    };
    values.set_slot(23, Some(total + f + g));
}

proof fn lemma_slot_sum_mono(vals: Seq<Option<u32>>, k: int, n: int)
    requires
        0 <= k <= n,
    ensures
        slot_sum(vals, k) <= slot_sum(vals, n),
    decreases n,
{
    if k < n {
        lemma_slot_sum_mono(vals, k, n - 1);
    }
}

/// Recomputing the aggregate rows a second time changes nothing.
pub proof fn law_aggregates_idempotent(vals: Seq<Option<u32>>)
    requires
        vals.len() == 24,
        aggregates_fit(vals),
    ensures
        aggregates_fit(with_aggregates(vals)),
        with_aggregates(with_aggregates(vals)) == with_aggregates(vals),
{
    let w = with_aggregates(vals);
    let v1 = vals.update(20, Some(slot_sum(vals, 20) as u32));
    lemma_slot_sum_update(vals, 20, 20, Some(slot_sum(vals, 20) as u32));
    lemma_slot_sum_update(v1, 20, 23, w[23]);
    assert(slot_sum(w, 20) == slot_sum(vals, 20));
    assert(with_aggregates(w) =~= w);
}

/// The slot of the `k`-th vote row when the rows are ordered by their
/// identifiers as text: `E`, `E.1`, `E.10` to `E.19`, `E.2`, `E.20`, `E.3`
/// to `E.9`, `F`, `G`, `H`. Tables keyed by identifier are walked in this
/// order.
pub open spec fn text_order(k: int) -> int {
    if k == 0 {
        20
    } else if k == 1 {
        0
    } else if 2 <= k <= 11 {
        k + 7
    } else if k == 12 {
        1
    } else if k == 13 {
        19
    } else if 14 <= k <= 20 {
        k - 12
    } else {
        k
    }
}

/// The slot of the `k`-th vote row in identifier text order.
pub fn text_order_slot(k: usize) -> (r: usize)
    requires
        k < 24,
    ensures
        r == text_order(k as int),
        r < 24,
{
    if k == 0 {
        20
    } else if k == 1 {
        0
    } else if k <= 11 {
        k + 7
    } else if k == 12 {
        1
    } else if k == 13 {
        19
    } else if k <= 20 {
        k - 12
    } else {
        k
    }
}

/// The recount's first-round value of slot `s` under correction `c`, or the
/// reason it cannot be had from the official (second-round) values `off`.
pub open spec fn reverse_step(off: Seq<Option<u32>>, s: int, c: Correction) -> Result<
    u32,
    Seq<char>,
> {
    match off[s] {
        None => Err(vote_label(s) + " is not present in official CSV"@),
        Some(r2) => if c.second is Some && c.second->0 != r2 {
            Err(
                vote_label(s) + " second="@ + dec(c.second->0 as nat) + ", official="@ + dec(
                    r2 as nat,
                ),
            )
        } else {
            match c.first {
                Some(f) => Ok(f),
                None => if r2 - c.difference < 0 {
                    Err(vote_label(s) + " reverses below zero"@)
                } else {
                    Ok((r2 - c.difference) as u32)
                },
            }
        },
    }
}

/// Undoing the corrections of the first `k` rows in identifier text order:
/// the values so far and the errors so far.
pub open spec fn reverse_fold(off: Seq<Option<u32>>, corr: Seq<Option<Correction>>, k: int) -> (
    Seq<Option<u32>>,
    Seq<Seq<char>>,
)
    decreases k,
{
    if k <= 0 {
        (off, Seq::empty())
    } else {
        let prev = reverse_fold(off, corr, k - 1);
        let s = text_order(k - 1);
        match corr[s] {
            None => prev,
            Some(c) => match reverse_step(off, s, c) {
                Ok(v) => (prev.0.update(s, Some(v)), prev.1),
                Err(e) => (prev.0, prev.1.push(e)),
            },
        }
    }
}

/// The position in identifier text order of the row in slot `s`.
pub open spec fn text_rank(s: int) -> int {
    if s == 20 {
        0
    } else if s == 0 {
        1
    } else if 9 <= s <= 18 {
        s - 7
    } else if s == 1 {
        12
    } else if s == 19 {
        13
    } else if 2 <= s <= 8 {
        s + 12
    } else {
        s
    }
}

proof fn lemma_text_rank(s: int, k: int)
    requires
        0 <= s < 24,
        0 <= k < 24,
    ensures
        0 <= text_rank(s) < 24,
        text_order(text_rank(s)) == s,
        text_order(k) == s ==> k == text_rank(s),
        0 <= text_order(k) < 24,
{
}

/// The value in slot `s` after undoing the corrections of the first `m`
/// rows in text order: the slot's own correction applied once its turn has
/// come.
proof fn lemma_reverse_fold_slot(off: Seq<Option<u32>>, corr: Seq<Option<Correction>>, m: int, s: int)
    requires
        off.len() == 24,
        0 <= m <= 24,
        0 <= s < 24,
    ensures
        reverse_fold(off, corr, m).0[s] == if text_rank(s) < m {
            match corr[s] {
                None => off[s],
                Some(c) => match reverse_step(off, s, c) {
                    Ok(v) => Some(v),
                    Err(_) => off[s],
                },
            }
        } else {
            off[s]
        },
    decreases m,
{
    lemma_text_rank(s, 0);
    if m > 0 {
        lemma_reverse_fold_slot(off, corr, m - 1, s);
        lemma_reverse_fold_len(off, corr, m - 1);
        lemma_text_rank(s, m - 1);
    }
}

/// Undoing the corrections of a recount gives each corrected list, blank or
/// invalid row its first-count value: the first count the correction table
/// gives, or else the official value less the difference, so that adding
/// the difference back gives the official value again (where that first
/// value fits in `u32`). A row without a
/// correction, or whose correction does not fit the official value, keeps
/// its official value.
pub proof fn law_reversal_undoes_corrections(off: Seq<Option<u32>>, corr: Seq<Option<Correction>>, s: int)
    requires
        off.len() == 24,
        0 <= s < 24,
        s != 20,
        s != 23,
    ensures
        reversed_values(off, corr)[s] == match corr[s] {
            None => off[s],
            Some(c) => match reverse_step(off, s, c) {
                Ok(v) => Some(v),
                Err(_) => off[s],
            },
        },
        match corr[s] {
            Some(c) => c.first is None && reverse_step(off, s, c) is Ok && value_of(off, s)
                - c.difference <= u32::MAX ==> off[s] is Some && value_of(reversed_values(off, corr), s)
                + c.difference == value_of(off, s),
            None => true,
        },
{
    lemma_reverse_fold_slot(off, corr, 24, s);
    lemma_reverse_fold_len(off, corr, 24);
    lemma_text_rank(s, 0);
}

/// Undoing the first `k` corrections in text order reports no error
/// exactly when each of those corrections fits the official values.
proof fn lemma_reverse_fold_errors(off: Seq<Option<u32>>, corr: Seq<Option<Correction>>, k: int)
    requires
        0 <= k <= 24,
    ensures
        (reverse_fold(off, corr, k).1.len() == 0) == (forall|j: int|
            0 <= j < k ==> match #[trigger] corr[text_order(j)] {
                Some(c) => reverse_step(off, text_order(j), c) is Ok,
                None => true,
            }),
    decreases k,
{
    if k > 0 {
        lemma_reverse_fold_errors(off, corr, k - 1);
        let s = text_order(k - 1);
        match corr[s] {
            Some(c) => {
                if reverse_step(off, s, c) is Err {
                    assert(!(match corr[text_order(k - 1)] {
                        Some(c) => reverse_step(off, text_order(k - 1), c) is Ok,
                        None => true,
                    }));
                }
            },
            None => {},
        }
    }
}

/// The error of undoing the correction of the `k`-th row in identifier
/// text order, if it does not fit the official values.
pub open spec fn reverse_error_in_text_order(
    off: Seq<Option<u32>>,
    corr: Seq<Option<Correction>>,
) -> spec_fn(int) -> Option<Seq<char>> {
    |k: int|
        match corr[text_order(k)] {
            Some(c) => match reverse_step(off, text_order(k), c) {
                Ok(_) => None,
                Err(e) => Some(e),
            },
            None => None,
        }
}

proof fn lemma_reverse_errors_filter(off: Seq<Option<u32>>, corr: Seq<Option<Correction>>, k: int)
    requires
        0 <= k <= 24,
    ensures
        reverse_fold(off, corr, k).1 == Seq::new(24, |i: int| i).take(k).filter_map(
            reverse_error_in_text_order(off, corr),
        ),
    decreases k,
{
    let ks = Seq::new(24, |i: int| i);
    let f = reverse_error_in_text_order(off, corr);
    if k == 0 {
        assert(ks.take(0) =~= Seq::<int>::empty());
    } else {
        lemma_reverse_errors_filter(off, corr, k - 1);
        ks.lemma_filter_map_take_succ(f, k - 1);
        let prev = reverse_fold(off, corr, k - 1).1;
        assert(ks[k - 1] == k - 1);
        match f(k - 1) {
            Some(d) => {
                assert(prev.push(d) =~= prev + seq![d]);
            },
            None => {
                assert(prev + Seq::<Seq<char>>::empty() =~= prev);
            },
        }
    }
}

/// Undoing the corrections of a recount as a whole: each row other than
/// `E` and `H` gets the value `law_reversal_undoes_corrections` states;
/// `E` becomes the sum of `E.1` through `E.20` and `H` the sum of `E`, `F`
/// and `G` (absent values counting as zero); and the errors are, in
/// identifier text order, one for each correction that does not fit the
/// official values (its row is absent there, its second count differs
/// from the official value, or, without a first count, the difference
/// exceeds the official value).
pub proof fn law_reversal_as_a_whole(off: Seq<Option<u32>>, corr: Seq<Option<Correction>>)
    requires
        off.len() == 24,
        reverse_fits(off, corr),
    ensures
        reversed_values(off, corr).len() == 24,
        forall|s: int|
            0 <= s < 24 && s != 20 && s != 23 ==> #[trigger] reversed_values(off, corr)[s] == match corr[s] {
                None => off[s],
                Some(c) => match reverse_step(off, s, c) {
                    Ok(v) => Some(v),
                    Err(_) => off[s],
                },
            },
        reversed_values(off, corr)[20] is Some,
        value_of(reversed_values(off, corr), 20) == slot_sum(reversed_values(off, corr), 20),
        reversed_values(off, corr)[23] is Some,
        value_of(reversed_values(off, corr), 23) == value_of(reversed_values(off, corr), 20)
            + value_of(reversed_values(off, corr), 21) + value_of(reversed_values(off, corr), 22),
        reverse_errors(off, corr) == Seq::new(24, |i: int| i).filter_map(
            reverse_error_in_text_order(off, corr),
        ),
        (reverse_errors(off, corr).len() == 0) == (forall|s: int|
            0 <= s < 24 ==> match #[trigger] corr[s] {
                Some(c) => reverse_step(off, s, c) is Ok,
                None => true,
            }),
{
    lemma_reverse_errors_filter(off, corr, 24);
    assert(Seq::new(24, |i: int| i).take(24) =~= Seq::new(24, |i: int| i));
    let fold = reverse_fold(off, corr, 24).0;
    lemma_reverse_fold_len(off, corr, 24);
    let v1 = fold.update(20, Some(slot_sum(fold, 20) as u32));
    let w = reversed_values(off, corr);
    lemma_slot_sum_update(fold, 20, 20, Some(slot_sum(fold, 20) as u32));
    lemma_slot_sum_update(v1, 20, 23, w[23]);
    lemma_slot_sum_mono(fold, 0, 20);
    assert(w == with_aggregates(fold));
    assert(w[20] == Some(slot_sum(fold, 20) as u32));
    assert(value_of(w, 20) == slot_sum(fold, 20));
    assert(value_of(w, 21) == value_of(fold, 21) && value_of(w, 22) == value_of(fold, 22));
    assert(value_of(w, 23) == value_of(w, 20) + value_of(w, 21) + value_of(w, 22));
    assert forall|s: int| 0 <= s < 24 && s != 20 && s != 23 implies #[trigger] w[s] == match corr[s] {
        None => off[s],
        Some(c) => match reverse_step(off, s, c) {
            Ok(v) => Some(v),
            Err(_) => off[s],
        },
    } by {
        law_reversal_undoes_corrections(off, corr, s);
    }
    lemma_reverse_fold_errors(off, corr, 24);
    let all_text = forall|j: int|
        0 <= j < 24 ==> match #[trigger] corr[text_order(j)] {
            Some(c) => reverse_step(off, text_order(j), c) is Ok,
            None => true,
        };
    let all_slots = forall|s: int|
        0 <= s < 24 ==> match #[trigger] corr[s] {
            Some(c) => reverse_step(off, s, c) is Ok,
            None => true,
        };
    if all_text {
        assert forall|s: int| 0 <= s < 24 implies match #[trigger] corr[s] {
            Some(c) => reverse_step(off, s, c) is Ok,
            None => true,
        } by {
            lemma_text_rank(s, 0);
            let j = text_rank(s);
            assert(text_order(j) == s);
            assert(match corr[text_order(j)] {
                Some(c) => reverse_step(off, text_order(j), c) is Ok,
                None => true,
            });
        }
    }
    if all_slots {
        assert forall|j: int| 0 <= j < 24 implies match #[trigger] corr[text_order(j)] {
            Some(c) => reverse_step(off, text_order(j), c) is Ok,
            None => true,
        } by {
            lemma_text_rank(0, j);
            let s = text_order(j);
            assert(0 <= s < 24);
            assert(match corr[s] {
                Some(c) => reverse_step(off, s, c) is Ok,
                None => true,
            });
        }
    }
}

/// The first-round values: the official values with every correction that
/// applies undone, then the aggregate rows recomputed.
pub open spec fn reversed_values(off: Seq<Option<u32>>, corr: Seq<Option<Correction>>) -> Seq<
    Option<u32>,
> {
    with_aggregates(reverse_fold(off, corr, 24).0)
}

/// The corrections that could not be undone, in identifier text order.
pub open spec fn reverse_errors(off: Seq<Option<u32>>, corr: Seq<Option<Correction>>) -> Seq<
    Seq<char>,
> {
    reverse_fold(off, corr, 24).1
}

/// Recomputing the aggregates after undoing the corrections stays in `u32`.
pub open spec fn reverse_fits(off: Seq<Option<u32>>, corr: Seq<Option<Correction>>) -> bool {
    aggregates_fit(reverse_fold(off, corr, 24).0)
}

proof fn lemma_reverse_fold_len(off: Seq<Option<u32>>, corr: Seq<Option<Correction>>, k: int)
    requires
        off.len() == 24,
        k <= 24,
    ensures
        reverse_fold(off, corr, k).0.len() == 24,
    decreases k,
{
    if k > 0 {
        lemma_reverse_fold_len(off, corr, k - 1);
    }
}

/// A correction table read from OCR Markdown, with its validation.
#[derive(Debug)]
pub struct CorrectionDocument {
    pub path: String,
    pub validation: ValidationReport,
    pub corrections: CorrectionTable,
}

impl CorrectionDocument {
    /// One correction slot per vote row.
    pub open spec fn wf(&self) -> bool {
        self.corrections.wf()
    }
}

/// The validation and the corrections of the correction table `markdown`
/// read from `path`.
pub fn parse_correction_document(path: &str, markdown: &str) -> (r: CorrectionDocument)
    requires
        corrections_fit(markdown@),
    ensures
        r.wf(),
        r.path@ == path@,
        report_matches(r.validation, is_skipped(markdown@), corrections_errors(markdown@)),
        r.corrections@ == corrections_of(markdown@),
{
    let validation = validate_corrections_markdown(markdown);
    let corrections = parse_correction_markdown_values(markdown);
    CorrectionDocument { path: path.to_owned(), validation, corrections }
}

/// The text `{id}{middle}` for the row in slot `s`.
fn labelled(s: usize, rest: &str) -> (r: Vec<char>)
    requires
        s < 24,
    ensures
        r@ == vote_label(s as int) + rest@,
{
    let mut m = vote_label_chars(s);
    push_str(&mut m, rest);
    m
}

/// The official values with every correction that applies undone, and
/// the corrections that could not be undone, in identifier text order.
fn undo_corrections(official_values: &VoteValues, correction: &CorrectionDocument) -> (r: (
    VoteValues,
    Vec<Vec<char>>,
))
    requires
        official_values.wf(),
        correction.wf(),
    ensures
        r.0.wf(),
        r.0@ == reverse_fold(official_values@, correction.corrections@, 24).0,
        seqs(r.1@) == reverse_fold(official_values@, correction.corrections@, 24).1,
{
    let ghost off = official_values@;
    let ghost corr = correction.corrections@;
    let mut values = official_values.duplicate();
    let mut errors: Vec<Vec<char>> = Vec::new();
    let mut k: usize = 0;
    while k < 24
        invariant
            official_values.wf(),
            correction.wf(),
            off == official_values@,
            corr == correction.corrections@,
            k <= 24,
            values.wf(),
            values@ == reverse_fold(off, corr, k as int).0,
            seqs(errors@) == reverse_fold(off, corr, k as int).1,
        decreases 24 - k,
    {
        let s = text_order_slot(k);
        match correction.corrections.slots[s] {
            None => {},
            Some(c) => {
                match official_values.slots[s] {
                    None => {
                        let m = labelled(s, " is not present in official CSV");
                        let ghost old_e = seqs(errors@);
                        errors.push(m);
                        assert(seqs(errors@) =~= old_e.push(m@));
                    },
                    Some(round_two) => {
                        let bad_second = match c.second {
                            Some(second) => second != round_two,
                            None => false,
                        };
                        if bad_second {
                            let second = c.second.unwrap();
                            let mut m = labelled(s, " second=");
                            let a = dec_chars(second as u64);
                            append_chars(&mut m, &a);
                            push_str(&mut m, ", official=");
                            let b = dec_chars(round_two as u64);
                            append_chars(&mut m, &b);
                            let ghost old_e = seqs(errors@);
                            errors.push(m);
                            assert(seqs(errors@) =~= old_e.push(m@));
                        } else {
                            match c.first {
                                Some(first) => {
                                    values.set_slot(s, Some(first));
                                },
                                None => {
                                    let reversed: i64 = round_two as i64 - c.difference as i64;
                                    if reversed < 0 {
                                        let m = labelled(s, " reverses below zero");
                                        let ghost old_e = seqs(errors@);
                                        errors.push(m);
                                        assert(seqs(errors@) =~= old_e.push(m@));
                                    } else {
                                        values.set_slot(s, Some(reversed as u32));
                                    }
                                },
                            }
                        }
                    },
                }
            },
        }
        k = k + 1;
    }
    (values, errors)
}

/// Undoes the corrections of a recount on the official values: each
/// corrected row gets its first-round value (the table's first count, else
/// the official value minus the difference), then `E` and `H` are
/// recomputed. Corrections that do not fit the official values are
/// reported, in identifier order, and leave their row unchanged.
pub fn reverse_official_values(official_values: &VoteValues, correction: &CorrectionDocument) -> (r: (
    VoteValues,
    Vec<String>,
))
    requires
        official_values.wf(),
        correction.wf(),
        reverse_fits(official_values@, correction.corrections@),
    ensures
        r.0.wf(),
        r.0@ == reversed_values(official_values@, correction.corrections@),
        strs(r.1@) == reverse_errors(official_values@, correction.corrections@),
{
    let (mut values, errors) = undo_corrections(official_values, correction);
    recompute_aggregate_vote_totals(&mut values);
    (values, to_strings(&errors))
}

/// Whether the sums of `E.1` to `E.20` and of `E`, `F` and `G` stay within
/// `u32` (absent values counting as zero).
pub fn aggregates_fit_exec(values: &VoteValues) -> (r: bool)
    requires
        values.wf(),
    ensures
        r == aggregates_fit(values@),
{
    let mut sum: u64 = 0;
    let mut i: usize = 0;
    while i < 20
        invariant
            values.wf(),
            i <= 20,
            sum == slot_sum(values@, i as int),
            sum <= i * 0xffff_ffff,
        decreases 20 - i,
    {
        let v = match values.slots[i] {
            Some(v) => v as u64,
            None => 0,
        };
        sum = sum + v;
        i = i + 1;
    }
    let f = match values.slots[21] {
        Some(v) => v as u64,
        None => 0,
    };
    let g = match values.slots[22] {
        Some(v) => v as u64,
        None => 0,
    };
    sum <= 0xffff_ffff && sum + f + g <= 0xffff_ffff
}

/// Whether undoing `correction` on the official values keeps the
/// recomputed totals within `u32`, as `reverse_official_values` needs.
pub fn reverse_values_fit(official_values: &VoteValues, correction: &CorrectionDocument) -> (r: bool)
    requires
        official_values.wf(),
        correction.wf(),
    ensures
        r == reverse_fits(official_values@, correction.corrections@),
{
    let (values, _) = undo_corrections(official_values, correction);
    aggregates_fit_exec(&values)
}

/// The first slot at or after `j` of a row other than `id` that has no
/// correction of its own and whose Markdown value is `first` and official
/// value is `second`.
pub open spec fn target_from(
    md: Seq<Option<u32>>,
    r2: Seq<Option<u32>>,
    corr: Seq<Option<Correction>>,
    id: Seq<char>,
    first: u32,
    second: u32,
    j: int,
) -> Option<int>
    decreases 24 - j,
{
    if j < 0 || j >= 24 {
        None
    } else if vote_label(j) != id && corr[j] is None && md[j] == Some(first) && r2[j] == Some(
        second,
    ) {
        Some(j)
    } else {
        target_from(md, r2, corr, id, first, second, j + 1)
    }
}

/// The row, in table order, that a correction from `first` to `second`
/// recorded for `id` may have been meant for.
pub open spec fn correction_target(
    md: Seq<Option<u32>>,
    r2: Seq<Option<u32>>,
    corr: Seq<Option<Correction>>,
    id: Seq<char>,
    first: u32,
    second: u32,
) -> Option<int> {
    target_from(md, r2, corr, id, first, second, 0)
}

proof fn lemma_target_from(
    md: Seq<Option<u32>>,
    r2: Seq<Option<u32>>,
    corr: Seq<Option<Correction>>,
    id: Seq<char>,
    first: u32,
    second: u32,
    j: int,
)
    requires
        0 <= j,
    ensures
        match target_from(md, r2, corr, id, first, second, j) {
            Some(t) => j <= t < 24,
            None => true,
        },
    decreases 24 - j,
{
    if j < 24 {
        lemma_target_from(md, r2, corr, id, first, second, j + 1);
    }
}

/// The vote row other than `correction_id`, without a correction of its
/// own, whose Markdown value is `first` and whose official value is
/// `second`: the first such row in table order.
pub fn possible_correction_target(
    markdown_values: &VoteValues,
    round_two_values: &VoteValues,
    correction: &CorrectionDocument,
    correction_id: &str,
    first: u32,
    second: u32,
) -> (r: Option<String>)
    requires
        markdown_values.wf(),
        round_two_values.wf(),
        correction.wf(),
    ensures
        match correction_target(
            markdown_values@,
            round_two_values@,
            correction.corrections@,
            correction_id@,
            first,
            second,
        ) {
            Some(j) => r is Some && r->0@ == vote_label(j),
            None => r is None,
        },
{
    let id = to_chars(correction_id);
    let mut j: usize = 0;
    while j < 24
        invariant
            markdown_values.wf(),
            round_two_values.wf(),
            correction.wf(),
            id@ == correction_id@,
            j <= 24,
            correction_target(
                markdown_values@,
                round_two_values@,
                correction.corrections@,
                correction_id@,
                first,
                second,
            ) == target_from(
                markdown_values@,
                round_two_values@,
                correction.corrections@,
                correction_id@,
                first,
                second,
                j as int,
            ),
        decreases 24 - j,
    {
        let label = vote_label_chars(j);
        if !chars_eq(&label, &id) && correction.corrections.slots[j].is_none()
            && markdown_values.slots[j] == Some(first) && round_two_values.slots[j] == Some(
            second,
        ) {
            return Some(from_chars(&label));
        }
        j = j + 1;
    }
    None
}

/// The report line for the correction in slot `s` whose first count
/// disagrees with the Markdown value while its second count (or, without
/// one, the official value) equals it: the correction looks misplaced.
pub open spec fn inconsistency_detail(
    md: Seq<Option<u32>>,
    r2: Seq<Option<u32>>,
    corr: Seq<Option<Correction>>,
    s: int,
) -> Option<Seq<char>> {
    match corr[s] {
        None => None,
        Some(c) => match c.first {
            None => None,
            Some(first) => match md[s] {
                None => None,
                Some(mv) => {
                    let second = if c.second is Some {
                        c.second
                    } else {
                        r2[s]
                    };
                    if first == mv || second != Some(mv) {
                        None
                    } else {
                        let base = "correction "@ + vote_label(s) + " first="@ + dec(first as nat)
                            + ", Markdown="@ + dec(mv as nat) + ", second="@ + opt_text(second);
                        match correction_target(md, r2, corr, vote_label(s), first, mv) {
                            Some(j) => Some(base + ", maybe belongs to "@ + vote_label(j)),
                            None => Some(base),
                        }
                    }
                },
            },
        },
    }
}

/// The report lines for the first `k` rows in identifier text order.
pub open spec fn inconsistencies_upto(
    md: Seq<Option<u32>>,
    r2: Seq<Option<u32>>,
    corr: Seq<Option<Correction>>,
    k: int,
) -> Seq<Seq<char>>
    decreases k,
{
    if k <= 0 {
        Seq::empty()
    } else {
        let prev = inconsistencies_upto(md, r2, corr, k - 1);
        match inconsistency_detail(md, r2, corr, text_order(k - 1)) {
            Some(d) => prev.push(d),
            None => prev,
        }
    }
}

/// The report lines of every misplaced-looking correction, in identifier
/// text order.
pub open spec fn inconsistencies(
    md: Seq<Option<u32>>,
    r2: Seq<Option<u32>>,
    corr: Seq<Option<Correction>>,
) -> Seq<Seq<char>> {
    inconsistencies_upto(md, r2, corr, 24)
}

/// Corrections whose first count disagrees with the Markdown value while
/// their second count (or the official value) equals it, each described as
/// `correction {id} first={first}, Markdown={value}, second={second}`,
/// with `, maybe belongs to {id}` when another uncorrected row has exactly
/// these two values.
pub fn correction_inconsistency_details(
    markdown_values: &VoteValues,
    round_two_values: &VoteValues,
    correction: &CorrectionDocument,
) -> (r: Vec<String>)
    requires
        markdown_values.wf(),
        round_two_values.wf(),
        correction.wf(),
    ensures
        strs(r@) == inconsistencies(markdown_values@, round_two_values@, correction.corrections@),
{
    let ghost md = markdown_values@;
    let ghost r2 = round_two_values@;
    let ghost corr = correction.corrections@;
    let mut details: Vec<Vec<char>> = Vec::new();
    let mut k: usize = 0;
    while k < 24
        invariant
            markdown_values.wf(),
            round_two_values.wf(),
            correction.wf(),
            md == markdown_values@,
            r2 == round_two_values@,
            corr == correction.corrections@,
            k <= 24,
            seqs(details@) == inconsistencies_upto(md, r2, corr, k as int),
        decreases 24 - k,
    {
        let s = text_order_slot(k);
        match correction.corrections.slots[s] {
            None => {},
            Some(c) => match (c.first, markdown_values.slots[s]) {
                (Some(first), Some(mv)) => {
                    let second = if c.second.is_some() {
                        c.second
                    } else {
                        round_two_values.slots[s]
                    };
                    if first != mv && second == Some(mv) {
                        let mut m = to_chars("correction ");
                        let l = vote_label_chars(s);
                        append_chars(&mut m, &l);
                        push_str(&mut m, " first=");
                        let a = dec_chars(first as u64);
                        append_chars(&mut m, &a);
                        push_str(&mut m, ", Markdown=");
                        let b = dec_chars(mv as u64);
                        append_chars(&mut m, &b);
                        push_str(&mut m, ", second=");
                        let c2 = optional_u32_chars(second);
                        append_chars(&mut m, &c2);
                        let id = from_chars(&l);
                        proof {
                            lemma_target_from(md, r2, corr, vote_label(s as int), first, mv, 0);
                        }
                        match possible_correction_target(
                            markdown_values,
                            round_two_values,
                            correction,
                            id.as_str(),
                            first,
                            mv,
                        ) {
                            Some(t) => {
                                push_str(&mut m, ", maybe belongs to ");
                                let tc = to_chars(t.as_str());
                                append_chars(&mut m, &tc);
                            },
                            None => {},
                        }
                        let ghost old_d = seqs(details@);
                        details.push(m);
                        assert(seqs(details@) =~= old_d.push(m@));
                    }
                },
                _ => {},
            },
        }
        k = k + 1;
    }
    to_strings(&details)
}

/// The report line of the `k`-th row in identifier text order, if any.
pub open spec fn detail_in_text_order(
    md: Seq<Option<u32>>,
    r2: Seq<Option<u32>>,
    corr: Seq<Option<Correction>>,
) -> spec_fn(int) -> Option<Seq<char>> {
    |k: int| inconsistency_detail(md, r2, corr, text_order(k))
}

proof fn lemma_inconsistencies_filter(
    md: Seq<Option<u32>>,
    r2: Seq<Option<u32>>,
    corr: Seq<Option<Correction>>,
    k: int,
)
    requires
        0 <= k <= 24,
    ensures
        inconsistencies_upto(md, r2, corr, k) == Seq::new(24, |i: int| i).take(k).filter_map(
            detail_in_text_order(md, r2, corr),
        ),
    decreases k,
{
    let ks = Seq::new(24, |i: int| i);
    let f = detail_in_text_order(md, r2, corr);
    if k == 0 {
        assert(ks.take(0) =~= Seq::<int>::empty());
    } else {
        lemma_inconsistencies_filter(md, r2, corr, k - 1);
        ks.lemma_filter_map_take_succ(f, k - 1);
        let prev = inconsistencies_upto(md, r2, corr, k - 1);
        assert(ks[k - 1] == k - 1);
        match f(k - 1) {
            Some(d) => {
                assert(prev.push(d) =~= prev + seq![d]);
            },
            None => {
                assert(prev + Seq::<Seq<char>>::empty() =~= prev);
            },
        }
    }
}

/// The correction-inconsistency list, entry by entry: in identifier text
/// order, one entry for each row whose correction has a first count that
/// differs from the row's Markdown value while its second count (or,
/// without one, the official value) equals it. The entry reads
/// `correction {id} first={first}, Markdown={value}, second={value}`,
/// followed by `, maybe belongs to {row}` exactly when another row
/// without a correction of its own has the first count as Markdown value
/// and the Markdown value as official value (the first such row).
pub proof fn law_inconsistencies_entry_by_entry(
    md: Seq<Option<u32>>,
    r2: Seq<Option<u32>>,
    corr: Seq<Option<Correction>>,
)
    ensures
        inconsistencies(md, r2, corr) == Seq::new(24, |i: int| i).filter_map(
            detail_in_text_order(md, r2, corr),
        ),
        forall|s: int|
            0 <= s < 24 ==> ((#[trigger] inconsistency_detail(md, r2, corr, s)) is Some <==> {
                &&& corr[s] is Some
                &&& corr[s]->0.first is Some
                &&& md[s] is Some
                &&& corr[s]->0.first != md[s]
                &&& (if corr[s]->0.second is Some {
                    corr[s]->0.second
                } else {
                    r2[s]
                }) == md[s]
            }),
        forall|s: int|
            #![trigger inconsistency_detail(md, r2, corr, s)]
            0 <= s < 24 && inconsistency_detail(md, r2, corr, s) is Some ==> {
                let first = corr[s]->0.first->0;
                let value = md[s]->0;
                inconsistency_detail(md, r2, corr, s)->0 == "correction "@ + vote_label(s)
                    + " first="@ + dec(first as nat) + ", Markdown="@ + dec(value as nat)
                    + ", second="@ + dec(value as nat) + match correction_target(
                    md,
                    r2,
                    corr,
                    vote_label(s),
                    first,
                    value,
                ) {
                    Some(j) => ", maybe belongs to "@ + vote_label(j),
                    None => Seq::<char>::empty(),
                }
            },
{
    lemma_inconsistencies_filter(md, r2, corr, 24);
    assert(Seq::new(24, |i: int| i).take(24) =~= Seq::new(24, |i: int| i));
    assert forall|s: int|
        #![trigger inconsistency_detail(md, r2, corr, s)]
        0 <= s < 24 && inconsistency_detail(md, r2, corr, s) is Some implies {
            let first = corr[s]->0.first->0;
            let value = md[s]->0;
            inconsistency_detail(md, r2, corr, s)->0 == "correction "@ + vote_label(s) + " first="@
                + dec(first as nat) + ", Markdown="@ + dec(value as nat) + ", second="@ + dec(
                value as nat,
            ) + match correction_target(md, r2, corr, vote_label(s), first, value) {
                Some(j) => ", maybe belongs to "@ + vote_label(j),
                None => Seq::<char>::empty(),
            }
        } by {
        let first = corr[s]->0.first->0;
        let value = md[s]->0;
        let base = "correction "@ + vote_label(s) + " first="@ + dec(first as nat)
            + ", Markdown="@ + dec(value as nat) + ", second="@ + dec(value as nat);
        assert(base + Seq::<char>::empty() =~= base);
    }
}

} // verus!
