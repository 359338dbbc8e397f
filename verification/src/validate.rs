//! Validation of the OCR Markdown tables: the vote table (2.2), the
//! correction table (B1-2.4) and the candidate vote tables (B1-3.5).
use vstd::prelude::*;
use crate::compare::{vote_line_value, votes_fold, votes_of};
use crate::markdown::{
    correction_cells, correction_cells_chars, is_separator_row, is_separator_row_chars, md_cells,
    md_cells_chars,
};
use crate::text::{
    all_digits, dec, drop_empty, parse_u32, seqs, starts_with, strs, trim, trim_start,
    trimmed_lines,
};
use crate::corrections::{
    correction_slot, correction_slot_of, optional_count, optional_count_chars, signed_cell,
    signed_cell_chars,
};
use crate::textops::{
    append_chars, chars_eq, debug_chars, dec_chars, eq_str, is_ascii_digit, nonempty_trimmed_lines,
    parse_u32_chars, push_str, starts_with_str, to_chars, to_strings, trim_chars,
};
use crate::votes::{
    lemma_find_vote_slot, lemma_vote_slot_of_label, no_values, vote_label, vote_label_chars, vote_slot,
    vote_slot_of, VoteValues,
};

verus! {

broadcast use vstd::string::group_string_axioms;

/// Outcome of validating one OCR Markdown file.
#[derive(Debug)]
pub struct ValidationReport {
    pub passed: bool,
    pub skipped: bool,
    pub errors: Vec<String>,
}

/// The marker that a deliberately skipped OCR output starts with.
pub open spec fn skip_marker() -> Seq<char> {
    "<!-- pv-ocr-votes: skip -->"@
}

/// The file is a deliberately skipped OCR output.
pub open spec fn is_skipped(md: Seq<char>) -> bool {
    starts_with(trim_start(md), skip_marker())
}

/// The non-empty trimmed lines of a Markdown file.
pub open spec fn table_lines(md: Seq<char>) -> Seq<Seq<char>> {
    drop_empty(trimmed_lines(md))
}

/// Every line starts and ends with `|`.
pub open spec fn all_table_rows(lines: Seq<Seq<char>>) -> bool {
    forall|i: int|
        0 <= i < lines.len() ==> (#[trigger] lines[i]).len() > 0 && lines[i][0] == '|'
            && lines[i].last() == '|'
}

pub open spec fn row_format_errors(lines: Seq<Seq<char>>) -> Seq<Seq<char>> {
    if all_table_rows(lines) {
        Seq::empty()
    } else {
        seq!["all non-empty lines must be Markdown table rows"@]
    }
}

/// The first line, or the empty text when there is none.
pub open spec fn header_line(lines: Seq<Seq<char>>) -> Seq<char> {
    if lines.len() > 0 {
        lines[0]
    } else {
        Seq::empty()
    }
}

pub open spec fn separator_errors(lines: Seq<Seq<char>>, n: int) -> Seq<Seq<char>> {
    if lines.len() < 2 || !is_separator_row(lines[1], n) {
        seq!["expected Markdown separator row after header"@]
    } else {
        Seq::empty()
    }
}

/// The `Display` text of the error of `str::parse::<u32>` on a string of
/// digits that does not parse: empty, or too large.
pub open spec fn digits_parse_error(s: Seq<char>) -> Seq<char> {
    if s.len() == 0 {
        "cannot parse integer from empty string"@
    } else {
        "number too large to fit in target type"@
    }
}

/// Errors of vote row `k` (line `k + 3` of the table).
pub open spec fn vote_row_errors(lines: Seq<Seq<char>>, k: int) -> Seq<Seq<char>> {
    let ln = dec((k + 3) as nat);
    let id = vote_label(k);
    if lines.len() <= k + 2 {
        seq!["missing row "@ + ln + " for "@ + id]
    } else {
        let cells = md_cells(lines[k + 2]);
        if cells.len() != 2 {
            seq!["row "@ + ln + " should have exactly 2 cells, found "@ + dec(cells.len())]
        } else {
            let e_id = if cells[0] != id {
                seq!["row "@ + ln + " expected ID "@ + id + ", found "@ + cells[0]]
            } else {
                Seq::empty()
            };
            let e_val = if !all_digits(cells[1]) {
                seq!["row "@ + ln + " value for "@ + cells[0] + " is not digits only: "@ + cells[1]]
            } else if parse_u32(cells[1]) is None {
                seq![
                    "row "@ + ln + " value for "@ + cells[0] + " could not be parsed: "@
                        + digits_parse_error(cells[1]),
                ]
            } else {
                Seq::empty()
            };
            e_id + e_val
        }
    }
}

/// The value that vote row `k` records, with the slot of the identifier in
/// its first cell.
pub open spec fn vote_row_value(lines: Seq<Seq<char>>, k: int) -> Option<(int, u32)> {
    if lines.len() <= k + 2 {
        None
    } else {
        let cells = md_cells(lines[k + 2]);
        if cells.len() == 2 && all_digits(cells[1]) && parse_u32(cells[1]) is Some {
            match vote_slot(cells[0]) {
                Some(s) => Some((s, parse_u32(cells[1])->0)),
                None => None,
            }
        } else {
            None
        }
    }
}

pub open spec fn vote_rows_errors(lines: Seq<Seq<char>>, k: int) -> Seq<Seq<char>>
    decreases k,
{
    if k <= 0 {
        Seq::empty()
    } else {
        vote_rows_errors(lines, k - 1) + vote_row_errors(lines, k - 1)
    }
}

/// The values read from the first `k` vote rows.
pub open spec fn vote_rows_values(lines: Seq<Seq<char>>, k: int) -> Seq<Option<u32>>
    decreases k,
{
    if k <= 0 {
        no_values()
    } else {
        let prev = vote_rows_values(lines, k - 1);
        match vote_row_value(lines, k - 1) {
            Some((s, v)) => prev.update(s, Some(v)),
            None => prev,
        }
    }
}

/// Slots `0..k` all hold a value.
pub open spec fn all_some(vals: Seq<Option<u32>>, k: int) -> bool {
    forall|i: int| 0 <= i < k ==> (#[trigger] vals[i]) is Some
}

/// The sum of the values in slots `0..k`.
pub open spec fn slot_sum(vals: Seq<Option<u32>>, k: int) -> int
    decreases k,
{
    if k <= 0 {
        0
    } else {
        slot_sum(vals, k - 1) + match vals[k - 1] {
            Some(v) => v as int,
            None => 0,
        }
    }
}

pub open spec fn value_of(vals: Seq<Option<u32>>, i: int) -> int {
    match vals[i] {
        Some(v) => v as int,
        None => 0,
    }
}

/// E, F, G and H all hold a value.
pub open spec fn totals_present(vals: Seq<Option<u32>>) -> bool {
    vals[20] is Some && vals[21] is Some && vals[22] is Some && vals[23] is Some
}

/// The arithmetic errors of a vote table with values `vals`.
pub open spec fn vote_sum_errors(vals: Seq<Option<u32>>) -> Seq<Seq<char>> {
    let e1 = if all_some(vals, 20) && vals[20] is Some && slot_sum(vals, 20) != value_of(vals, 20) {
        seq![
            "E.1 through E.20 sum to "@ + dec(slot_sum(vals, 20) as nat) + ", but E is "@ + dec(
                value_of(vals, 20) as nat,
            ),
        ]
    } else {
        Seq::empty()
    };
    let total = value_of(vals, 20) + value_of(vals, 21) + value_of(vals, 22);
    let e2 = if totals_present(vals) && total != value_of(vals, 23) {
        seq!["E + F + G is "@ + dec(total as nat) + ", but H is "@ + dec(value_of(vals, 23) as nat)]
    } else {
        Seq::empty()
    };
    e1 + e2
}

/// The sums that validation computes fit in `u32` (the tool computes them
/// in `u32` and would overflow otherwise).
pub open spec fn vote_sums_fit(md: Seq<char>) -> bool {
    let vals = vote_rows_values(table_lines(md), 24);
    &&& all_some(vals, 20) ==> slot_sum(vals, 20) <= u32::MAX
    &&& totals_present(vals) ==> value_of(vals, 20) + value_of(vals, 21) + value_of(vals, 22)
        <= u32::MAX
}

/// Every error of the vote table `md`, in the order the tool reports them.
pub open spec fn votes_errors(md: Seq<char>) -> Seq<Seq<char>> {
    let lines = table_lines(md);
    let header = header_line(lines);
    let e_count = if lines.len() != 26 {
        seq!["expected 26 non-empty table lines, found "@ + dec(lines.len())]
    } else {
        Seq::empty()
    };
    let e_header = if md_cells(header) != seq!["ID"@, "Value"@] {
        seq!["expected header `| ID | Value |`, found "@ + crate::text::debug_quoted(header)]
    } else {
        Seq::empty()
    };
    e_count + row_format_errors(lines) + e_header + separator_errors(lines, 2) + vote_rows_errors(
        lines,
        24,
    ) + vote_sum_errors(vote_rows_values(lines, 24))
}

/// A vote row without errors carries its own identifier and a value.
proof fn lemma_clean_vote_row(lines: Seq<Seq<char>>, k: int)
    requires
        0 <= k < 24,
        vote_row_errors(lines, k).len() == 0,
    ensures
        lines.len() > k + 2,
        md_cells(lines[k + 2]).len() == 2,
        md_cells(lines[k + 2])[0] == vote_label(k),
        vote_row_value(lines, k) == Some((k, parse_u32(md_cells(lines[k + 2])[1])->0)),
{
    lemma_vote_slot_of_label(k);
}

/// Every row of the first `m` has no errors when their errors together are
/// none.
proof fn lemma_clean_vote_rows(lines: Seq<Seq<char>>, m: int, k: int)
    requires
        0 <= k < m,
        vote_rows_errors(lines, m).len() == 0,
    ensures
        vote_row_errors(lines, k).len() == 0,
    decreases m,
{
    assert(vote_rows_errors(lines, m) == vote_rows_errors(lines, m - 1) + vote_row_errors(
        lines,
        m - 1,
    ));
    if k < m - 1 {
        lemma_clean_vote_rows(lines, m - 1, k);
    }
}

/// When each of the first `m` rows carries its own slot, each of their
/// slots holds the row's value.
proof fn lemma_vote_rows_values(lines: Seq<Seq<char>>, m: int)
    requires
        0 <= m <= 24,
        forall|k: int| 0 <= k < m ==> (#[trigger] vote_row_value(lines, k)) is Some
            && (vote_row_value(lines, k)->0).0 == k,
    ensures
        vote_rows_values(lines, m).len() == 24,
        forall|s: int| 0 <= s < m ==> (#[trigger] vote_rows_values(lines, m)[s]) == Some(
            (vote_row_value(lines, s)->0).1,
        ),
    decreases m,
{
    if m > 0 {
        lemma_vote_rows_values(lines, m - 1);
        assert(vote_row_value(lines, m - 1) is Some);
    }
}

/// What the validation of vote tables promises: a table that validates
/// without errors has 26 table lines, its vote rows come in table order
/// (`E.1` through `E.20`, `E`, `F`, `G`, `H`) each with a value, the values
/// of `E.1` through `E.20` sum to `E`, and `E + F + G` equals `H`.
pub proof fn law_valid_vote_table_adds_up(md: Seq<char>)
    requires
        !is_skipped(md),
        votes_errors(md).len() == 0,
    ensures
        ({
            let lines = table_lines(md);
            let vals = vote_rows_values(lines, 24);
            &&& lines.len() == 26
            &&& forall|k: int|
                0 <= k < 24 ==> md_cells(#[trigger] lines[k + 2])[0] == vote_label(k)
            &&& all_some(vals, 24)
            &&& slot_sum(vals, 20) == value_of(vals, 20)
            &&& value_of(vals, 20) + value_of(vals, 21) + value_of(vals, 22) == value_of(vals, 23)
        }),
{
    let lines = table_lines(md);
    let vals = vote_rows_values(lines, 24);
    let header = header_line(lines);
    let e_count = if lines.len() != 26 {
        seq!["expected 26 non-empty table lines, found "@ + dec(lines.len())]
    } else {
        Seq::empty()
    };
    let e_header = if md_cells(header) != seq!["ID"@, "Value"@] {
        seq!["expected header `| ID | Value |`, found "@ + crate::text::debug_quoted(header)]
    } else {
        Seq::empty()
    };
    assert(votes_errors(md) == e_count + row_format_errors(lines) + e_header + separator_errors(
        lines,
        2,
    ) + vote_rows_errors(lines, 24) + vote_sum_errors(vals));
    assert(e_count.len() == 0);
    assert(vote_rows_errors(lines, 24).len() == 0);
    assert(vote_sum_errors(vals).len() == 0);
    assert forall|k: int| 0 <= k < 24 implies (#[trigger] vote_row_value(lines, k)) is Some
        && (vote_row_value(lines, k)->0).0 == k by {
        lemma_clean_vote_rows(lines, 24, k);
        lemma_clean_vote_row(lines, k);
    }
    assert forall|k: int| 0 <= k < 24 implies md_cells(#[trigger] lines[k + 2])[0] == vote_label(
        k,
    ) by {
        lemma_clean_vote_rows(lines, 24, k);
        lemma_clean_vote_row(lines, k);
    }
    lemma_vote_rows_values(lines, 24);
    assert(all_some(vals, 24));
}

/// Vote row `k` (line `k + 3`) has two cells: the row's own identifier and
/// a value of decimal digits that fits in `u32`.
pub open spec fn vote_row_ok(lines: Seq<Seq<char>>, k: int) -> bool {
    let cells = md_cells(lines[k + 2]);
    &&& cells.len() == 2
    &&& cells[0] == vote_label(k)
    &&& all_digits(cells[1])
    &&& parse_u32(cells[1]) is Some
}

/// A well-formed vote table: 26 non-empty lines, all table rows; the
/// header `| ID | Value |` and a separator row; the rows `E.1` through
/// `E.20`, `E`, `F`, `G`, `H` in that order with digit-only values; `E.1`
/// through `E.20` summing to `E`, and `E + F + G` equal to `H`.
pub open spec fn well_formed_vote_table(md: Seq<char>) -> bool {
    let lines = table_lines(md);
    let vals = vote_rows_values(lines, 24);
    &&& lines.len() == 26
    &&& all_table_rows(lines)
    &&& md_cells(lines[0]) == seq!["ID"@, "Value"@]
    &&& is_separator_row(lines[1], 2)
    &&& forall|k: int| 0 <= k < 24 ==> #[trigger] vote_row_ok(lines, k)
    &&& slot_sum(vals, 20) == value_of(vals, 20)
    &&& value_of(vals, 20) + value_of(vals, 21) + value_of(vals, 22) == value_of(vals, 23)
}

proof fn lemma_ok_rows_no_errors(lines: Seq<Seq<char>>, m: int)
    requires
        0 <= m <= 24,
        lines.len() == 26,
        forall|k: int| 0 <= k < 24 ==> #[trigger] vote_row_ok(lines, k),
    ensures
        vote_rows_errors(lines, m).len() == 0,
    decreases m,
{
    if m > 0 {
        lemma_ok_rows_no_errors(lines, m - 1);
        assert(vote_row_ok(lines, m - 1));
        assert(vote_row_errors(lines, m - 1).len() == 0);
    }
}

/// A vote table that is not skipped validates without errors exactly when
/// it is well formed (`well_formed_vote_table`).
pub proof fn law_vote_table_passes_iff_well_formed(md: Seq<char>)
    requires
        !is_skipped(md),
    ensures
        (votes_errors(md).len() == 0) == well_formed_vote_table(md),
{
    let lines = table_lines(md);
    let vals = vote_rows_values(lines, 24);
    let header = header_line(lines);
    let e_count = if lines.len() != 26 {
        seq!["expected 26 non-empty table lines, found "@ + dec(lines.len())]
    } else {
        Seq::empty()
    };
    let e_header = if md_cells(header) != seq!["ID"@, "Value"@] {
        seq!["expected header `| ID | Value |`, found "@ + crate::text::debug_quoted(header)]
    } else {
        Seq::empty()
    };
    assert(votes_errors(md) == e_count + row_format_errors(lines) + e_header + separator_errors(
        lines,
        2,
    ) + vote_rows_errors(lines, 24) + vote_sum_errors(vals));
    if votes_errors(md).len() == 0 {
        law_valid_vote_table_adds_up(md);
        assert(row_format_errors(lines).len() == 0);
        assert(e_header.len() == 0);
        assert(separator_errors(lines, 2).len() == 0);
        assert(vote_rows_errors(lines, 24).len() == 0);
        assert forall|k: int| 0 <= k < 24 implies #[trigger] vote_row_ok(lines, k) by {
            lemma_clean_vote_rows(lines, 24, k);
            lemma_clean_vote_row(lines, k);
        }
    }
    if well_formed_vote_table(md) {
        lemma_ok_rows_no_errors(lines, 24);
        assert(vote_sum_errors(vals).len() == 0);
        assert(votes_errors(md).len() == 0);
    }
}

/// A line that is empty gives no vote value.
proof fn lemma_empty_line_no_vote(line: Seq<char>)
    requires
        line.len() == 0,
    ensures
        vote_line_value(line) is None,
{
    assert(crate::text::split(line, '|') =~= seq![Seq::<char>::empty()]);
}

/// The vote values read from the first `k` lines depend on those lines
/// alone.
proof fn lemma_votes_fold_same(a: Seq<Seq<char>>, b: Seq<Seq<char>>, k: int)
    requires
        0 <= k <= a.len(),
        k <= b.len(),
        forall|i: int| 0 <= i < k ==> a[i] == b[i],
    ensures
        votes_fold(a, k) == votes_fold(b, k),
    decreases k,
{
    if k > 0 {
        lemma_votes_fold_same(a, b, k - 1);
    }
}

/// Reading vote values skips empty lines.
proof fn lemma_votes_fold_drop_empty(s: Seq<Seq<char>>)
    ensures
        votes_fold(s, s.len() as int) == votes_fold(drop_empty(s), drop_empty(s).len() as int),
    decreases s.len(),
{
    if s.len() > 0 {
        let t = s.drop_last();
        lemma_votes_fold_drop_empty(t);
        lemma_votes_fold_same(s, t, t.len() as int);
        let d = drop_empty(t);
        if s.last().len() == 0 {
            lemma_empty_line_no_vote(s.last());
        } else {
            let e = d.push(s.last());
            lemma_votes_fold_same(e, d, d.len() as int);
            assert(e[d.len() as int] == s.last());
        }
    }
}

/// In a well-formed table, the vote values read from the first `m` vote
/// rows (after the header and the separator) are those rows' values.
proof fn lemma_votes_fold_rows(lines: Seq<Seq<char>>, m: int)
    requires
        0 <= m <= 24,
        lines.len() == 26,
        forall|k: int| 0 <= k < 24 ==> #[trigger] vote_row_ok(lines, k),
    ensures
        votes_fold(lines, m + 2).len() == 24,
        forall|s: int|
            0 <= s < m ==> #[trigger] votes_fold(lines, m + 2)[s] == Some(
                parse_u32(md_cells(lines[s + 2])[1])->0,
            ),
    decreases m,
{
    crate::compare::lemma_votes_fold_len(lines, m + 2);
    if m > 0 {
        lemma_votes_fold_rows(lines, m - 1);
        assert(vote_row_ok(lines, m - 1));
        lemma_vote_slot_of_label(m - 1);
        assert(vote_line_value(lines[m + 1]) == Some((m - 1, parse_u32(md_cells(lines[m + 1])[1])->0)));
    }
}

/// The values the comparison reads from a vote table that validates are
/// the table's own row values: every row has a value, `E.1` through `E.20`
/// sum to `E`, and `E + F + G` equals `H`.
pub proof fn law_parsed_values_of_valid_table(md: Seq<char>)
    requires
        !is_skipped(md),
        votes_errors(md).len() == 0,
    ensures
        votes_of(md) == vote_rows_values(table_lines(md), 24),
        all_some(votes_of(md), 24),
        slot_sum(votes_of(md), 20) == value_of(votes_of(md), 20),
        value_of(votes_of(md), 20) + value_of(votes_of(md), 21) + value_of(votes_of(md), 22)
            == value_of(votes_of(md), 23),
{
    let lines = table_lines(md);
    law_vote_table_passes_iff_well_formed(md);
    law_valid_vote_table_adds_up(md);
    lemma_votes_fold_drop_empty(trimmed_lines(md));
    lemma_votes_fold_rows(lines, 24);
    let vals = vote_rows_values(lines, 24);
    assert forall|k: int| 0 <= k < 24 implies (#[trigger] vote_row_value(lines, k)) is Some && (
    vote_row_value(lines, k)->0).0 == k by {
        lemma_clean_vote_rows(lines, 24, k);
        lemma_clean_vote_row(lines, k);
    }
    lemma_vote_rows_values(lines, 24);
    assert forall|s: int| 0 <= s < 24 implies votes_fold(lines, 26)[s] == vals[s] by {
        lemma_clean_vote_rows(lines, 24, s);
        lemma_clean_vote_row(lines, s);
    }
    assert(votes_fold(lines, 26) =~= vals);
}

/// The report a validation produces: skipped files pass; otherwise the file
/// passes when there are no errors.
pub open spec fn report_matches(r: ValidationReport, skipped: bool, errors: Seq<Seq<char>>) -> bool {
    if skipped {
        r.passed && r.skipped && r.errors@.len() == 0
    } else {
        !r.skipped && strs(r.errors@) == errors && r.passed == (errors.len() == 0)
    }
}

/// Appends one error message to `errors`.
fn push_error(errors: &mut Vec<Vec<char>>, m: Vec<char>)
    ensures
        seqs(final(errors)@) == seqs(old(errors)@).push(m@),
{
    let ghost old_e = seqs(errors@);
    errors.push(m);
    assert(seqs(errors@) =~= old_e.push(m@));
}

/// Whether `md` is a deliberately skipped OCR output.
pub fn markdown_is_skipped(md: &Vec<char>) -> (r: bool)
    ensures
        r == is_skipped(md@),
{
    let t = crate::textops::trim_start_chars(md);
    starts_with_str(&t, "<!-- pv-ocr-votes: skip -->")
}

fn all_table_rows_exec(lines: &Vec<Vec<char>>) -> (r: bool)
    ensures
        r == all_table_rows(seqs(lines@)),
{
    let ghost ls = seqs(lines@);
    let mut i: usize = 0;
    while i < lines.len()
        invariant
            i <= lines.len(),
            ls == seqs(lines@),
            forall|k: int|
                0 <= k < i ==> (#[trigger] ls[k]).len() > 0 && ls[k][0] == '|' && ls[k].last() == '|',
        decreases lines.len() - i,
    {
        assert(ls[i as int] == lines@[i as int]@);
        let l = &lines[i];
        if !(l.len() > 0 && l[0] == '|' && l[l.len() - 1] == '|') {
            return false;
        }
        i = i + 1;
    }
    true
}

/// The first line, or an empty line when there is none.
fn header_exec(lines: &Vec<Vec<char>>) -> (r: Vec<char>)
    ensures
        r@ == header_line(seqs(lines@)),
{
    if lines.len() > 0 {
        crate::textops::copy_chars(&lines[0])
    } else {
        Vec::new()
    }
}

/// Whether `cells` are exactly the two cells `a` and `b`.
fn cells_are2(cells: &Vec<Vec<char>>, a: &str, b: &str) -> (r: bool)
    ensures
        r == (seqs(cells@) == seq![a@, b@]),
{
    if cells.len() != 2 {
        assert(seqs(cells@).len() != 2);
        return false;
    }
    let r = eq_str(&cells[0], a) && eq_str(&cells[1], b);
    if r {
        assert(seqs(cells@) =~= seq![a@, b@]);
    } else {
        assert(seqs(cells@)[0] == cells@[0]@ && seqs(cells@)[1] == cells@[1]@);
    }
    r
}

fn separator_errors_exec(lines: &Vec<Vec<char>>, n: usize, errors: &mut Vec<Vec<char>>)
    ensures
        seqs(final(errors)@) == seqs(old(errors)@) + separator_errors(seqs(lines@), n as int),
{
    let ghost ls = seqs(lines@);
    if lines.len() < 2 || !is_separator_row_chars(&lines[1], n) {
        push_error(errors, to_chars("expected Markdown separator row after header"));
    } else {
        assert(ls[1] == lines@[1]@);
        assert(seqs(errors@) =~= seqs(errors@) + Seq::<Seq<char>>::empty());
    }
}

fn row_format_errors_exec(lines: &Vec<Vec<char>>, errors: &mut Vec<Vec<char>>)
    ensures
        seqs(final(errors)@) == seqs(old(errors)@) + row_format_errors(seqs(lines@)),
{
    if !all_table_rows_exec(lines) {
        push_error(errors, to_chars("all non-empty lines must be Markdown table rows"));
    } else {
        assert(seqs(errors@) =~= seqs(errors@) + Seq::<Seq<char>>::empty());
    }
}

/// Whether all characters of `v` are ASCII digits.
pub fn all_digits_chars(v: &Vec<char>) -> (r: bool)
    ensures
        r == all_digits(v@),
{
    let mut i: usize = 0;
    while i < v.len()
        invariant
            i <= v.len(),
            forall|k: int| 0 <= k < i ==> crate::text::is_digit(#[trigger] v@[k]),
        decreases v.len() - i,
    {
        if !is_ascii_digit(v[i]) {
            return false;
        }
        i = i + 1;
    }
    true
}

fn digits_parse_error_exec(v: &Vec<char>) -> (r: Vec<char>)
    ensures
        r@ == digits_parse_error(v@),
{
    if v.len() == 0 {
        to_chars("cannot parse integer from empty string")
    } else {
        to_chars("number too large to fit in target type")
    }
}

/// Checks vote row `k`: appends its errors and records its value.
fn check_vote_row(
    lines: &Vec<Vec<char>>,
    k: usize,
    values: &mut VoteValues,
    errors: &mut Vec<Vec<char>>,
)
    requires
        k < 24,
        old(values).wf(),
    ensures
        final(values).wf(),
        seqs(final(errors)@) == seqs(old(errors)@) + vote_row_errors(seqs(lines@), k as int),
        final(values)@ == match vote_row_value(seqs(lines@), k as int) {
            Some((s, v)) => old(values)@.update(s, Some(v)),
            None => old(values)@,
        },
{
    let ghost ls = seqs(lines@);
    let ln = dec_chars((k + 3) as u64);
    let id = vote_label_chars(k);
    if lines.len() <= k + 2 {
        let mut m = to_chars("missing row ");
        append_chars(&mut m, &ln);
        push_str(&mut m, " for ");
        append_chars(&mut m, &id);
        push_error(errors, m);
        return;
    }
    assert(ls[k + 2] == lines@[k + 2]@);
    let cells = md_cells_chars(&lines[k + 2]);
    let ghost cs = seqs(cells@);
    if cells.len() != 2 {
        let mut m = to_chars("row ");
        append_chars(&mut m, &ln);
        push_str(&mut m, " should have exactly 2 cells, found ");
        let n = dec_chars(cells.len() as u64);
        append_chars(&mut m, &n);
        push_error(errors, m);
        return;
    }
    assert(cs[0] == cells@[0]@ && cs[1] == cells@[1]@);
    let ghost before = seqs(errors@);
    if !chars_eq(&cells[0], &id) {
        let mut m = to_chars("row ");
        append_chars(&mut m, &ln);
        push_str(&mut m, " expected ID ");
        append_chars(&mut m, &id);
        push_str(&mut m, ", found ");
        append_chars(&mut m, &cells[0]);
        push_error(errors, m);
    }
    let ghost mid = seqs(errors@);
    if !all_digits_chars(&cells[1]) {
        let mut m = to_chars("row ");
        append_chars(&mut m, &ln);
        push_str(&mut m, " value for ");
        append_chars(&mut m, &cells[0]);
        push_str(&mut m, " is not digits only: ");
        append_chars(&mut m, &cells[1]);
        push_error(errors, m);
        assert(seqs(errors@) =~= before + vote_row_errors(ls, k as int));
        return;
    }
    match parse_u32_chars(&cells[1]) {
        Some(v) => {
            proof {
                lemma_find_vote_slot(cs[0], 0);
            }
            match vote_slot_of(&cells[0]) {
                Some(s) => values.set_slot(s, Some(v)),
                None => {},
            }
            assert(seqs(errors@) =~= before + vote_row_errors(ls, k as int));
        },
        None => {
            let mut m = to_chars("row ");
            append_chars(&mut m, &ln);
            push_str(&mut m, " value for ");
            append_chars(&mut m, &cells[0]);
            push_str(&mut m, " could not be parsed: ");
            let pe = digits_parse_error_exec(&cells[1]);
            append_chars(&mut m, &pe);
            push_error(errors, m);
            assert(seqs(errors@) =~= before + vote_row_errors(ls, k as int));
        },
    }
}

proof fn lemma_slot_sum_bound(vals: Seq<Option<u32>>, k: int)
    requires
        0 <= k <= vals.len(),
    ensures
        0 <= slot_sum(vals, k) <= k * 0xFFFF_FFFF,
    decreases k,
{
    if k > 0 {
        lemma_slot_sum_bound(vals, k - 1);
    }
}

/// Appends the arithmetic errors of a vote table with values `values`.
fn vote_sum_errors_exec(values: &VoteValues, errors: &mut Vec<Vec<char>>)
    requires
        values.wf(),
        all_some(values@, 20) ==> slot_sum(values@, 20) <= u32::MAX,
        totals_present(values@) ==> value_of(values@, 20) + value_of(values@, 21) + value_of(
            values@,
            22,
        ) <= u32::MAX,
    ensures
        seqs(final(errors)@) == seqs(old(errors)@) + vote_sum_errors(values@),
{
    let ghost vals = values@;
    let ghost before = seqs(errors@);
    let mut sum: u64 = 0;
    let mut all = true;
    let mut i: usize = 0;
    while i < 20
        invariant
            values.wf(),
            vals == values@,
            i <= 20,
            all == all_some(vals, i as int),
            sum == slot_sum(vals, i as int),
            sum <= i * 0xFFFF_FFFF,
        decreases 20 - i,
    {
        match values.get_slot(i) {
            Some(v) => {
                sum = sum + v as u64;
            },
            None => {
                all = false;
            },
        }
        i = i + 1;
    }
    match values.get_slot(20) {
        Some(e) => {
            if all && sum != e as u64 {
                let mut m = to_chars("E.1 through E.20 sum to ");
                let d = dec_chars(sum);
                append_chars(&mut m, &d);
                push_str(&mut m, ", but E is ");
                let d2 = dec_chars(e as u64);
                append_chars(&mut m, &d2);
                push_error(errors, m);
            }
        },
        None => {},
    }
    let ghost mid = seqs(errors@);
    match (values.get_slot(20), values.get_slot(21), values.get_slot(22), values.get_slot(23)) {
        (Some(e), Some(f), Some(g), Some(h)) => {
            let total = e as u64 + f as u64 + g as u64;
            if total != h as u64 {
                let mut m = to_chars("E + F + G is ");
                let d = dec_chars(total);
                append_chars(&mut m, &d);
                push_str(&mut m, ", but H is ");
                let d2 = dec_chars(h as u64);
                append_chars(&mut m, &d2);
                push_error(errors, m);
            }
        },
        _ => {},
    }
    assert(seqs(errors@) =~= before + vote_sum_errors(vals));
}

/// Validates an OCR vote table (table 2.2): 26 non-empty lines that are all
/// table rows, the header `| ID | Value |`, a separator row, the rows `E.1`
/// through `E.20`, `E`, `F`, `G`, `H` in that order with digit-only values,
/// `E.1` through `E.20` summing to `E`, and `E + F + G` equal to `H`.
pub fn validate_votes_markdown(markdown: &str) -> (r: ValidationReport)
    requires
        is_skipped(markdown@) || vote_sums_fit(markdown@),
    ensures
        report_matches(r, is_skipped(markdown@), votes_errors(markdown@)),
{
    let md = to_chars(markdown);
    if markdown_is_skipped(&md) {
        return ValidationReport { passed: true, skipped: true, errors: Vec::new() };
    }
    let lines = nonempty_trimmed_lines(markdown);
    let ghost ls = seqs(lines@);
    let mut errors: Vec<Vec<char>> = Vec::new();
    assert(seqs(errors@) =~= Seq::<Seq<char>>::empty());
    if lines.len() != 26 {
        let mut m = to_chars("expected 26 non-empty table lines, found ");
        let d = dec_chars(lines.len() as u64);
        append_chars(&mut m, &d);
        push_error(&mut errors, m);
    }
    let ghost e0 = seqs(errors@);
    row_format_errors_exec(&lines, &mut errors);
    let header = header_exec(&lines);
    let hc = md_cells_chars(&header);
    let ghost e1 = seqs(errors@);
    if !cells_are2(&hc, "ID", "Value") {
        let mut m = to_chars("expected header `| ID | Value |`, found ");
        let q = debug_chars(&header);
        append_chars(&mut m, &q);
        push_error(&mut errors, m);
    }
    let ghost e2 = seqs(errors@);
    separator_errors_exec(&lines, 2, &mut errors);
    let ghost e3 = seqs(errors@);
    let mut values = VoteValues::new();
    let mut k: usize = 0;
    while k < 24
        invariant
            k <= 24,
            ls == seqs(lines@),
            values.wf(),
            values@ == vote_rows_values(ls, k as int),
            seqs(errors@) == e3 + vote_rows_errors(ls, k as int),
        decreases 24 - k,
    {
        let ghost pre = seqs(errors@);
        check_vote_row(&lines, k, &mut values, &mut errors);
        assert(seqs(errors@) =~= e3 + vote_rows_errors(ls, k + 1));
        k = k + 1;
    }
    let ghost e4 = seqs(errors@);
    vote_sum_errors_exec(&values, &mut errors);
    let ghost spec_errors = votes_errors(markdown@);
    assert(seqs(errors@) =~= spec_errors);
    let passed = errors.len() == 0;
    let strings = to_strings(&errors);
    ValidationReport { passed, skipped: false, errors: strings }
}

/// Errors of the correction-table line `line` at index `index` of the
/// non-empty lines (row number `index + 1`).
pub open spec fn correction_row_errors(line: Seq<char>, index: int) -> Seq<Seq<char>> {
    let ln = dec((index + 1) as nat);
    let cells = correction_cells(line);
    if cells.len() != 5 {
        seq!["row "@ + ln + " should have exactly 5 cells, found "@ + dec(cells.len())]
    } else if correction_slot(cells[0]) is None {
        seq!["row "@ + ln + " has unknown correction ID "@ + cells[0]]
    } else {
        let e1 = if optional_count(cells[1]) is None && trim(cells[1]).len() != 0 && trim(cells[1])
            != "-"@ {
            seq!["row "@ + ln + " first count is not numeric: "@ + cells[1]]
        } else {
            Seq::empty()
        };
        let e2 = if optional_count(cells[2]) is None && trim(cells[2]).len() != 0 && trim(cells[2])
            != "-"@ {
            seq!["row "@ + ln + " second count is not numeric: "@ + cells[2]]
        } else {
            Seq::empty()
        };
        let e3 = if signed_cell(cells[3]) is None {
            seq!["row "@ + ln + " difference is not signed integer: "@ + cells[3]]
        } else {
            Seq::empty()
        };
        e1 + e2 + e3
    }
}

/// Errors of the correction-table lines with index `2..k`.
pub open spec fn correction_rows_errors(lines: Seq<Seq<char>>, k: int) -> Seq<Seq<char>>
    decreases k,
{
    if k <= 2 {
        Seq::empty()
    } else {
        correction_rows_errors(lines, k - 1) + correction_row_errors(lines[k - 1], k - 1)
    }
}

/// A correction-table row has five cells: a known row identifier, first
/// and second counts that are empty, `-` or a `u32`, and a difference that
/// is an `i32`.
pub open spec fn correction_row_ok(line: Seq<char>) -> bool {
    let cells = correction_cells(line);
    &&& cells.len() == 5
    &&& correction_slot(cells[0]) is Some
    &&& (optional_count(cells[1]) is Some || trim(cells[1]).len() == 0 || trim(cells[1]) == "-"@)
    &&& (optional_count(cells[2]) is Some || trim(cells[2]).len() == 0 || trim(cells[2]) == "-"@)
    &&& signed_cell(cells[3]) is Some
}

/// A well-formed correction table: at least two non-empty lines, all table
/// rows; the header `| ID | First | Second | Difference | Note |` and a
/// separator row; every further row as `correction_row_ok` states.
pub open spec fn well_formed_correction_table(md: Seq<char>) -> bool {
    let lines = table_lines(md);
    &&& lines.len() >= 2
    &&& all_table_rows(lines)
    &&& md_cells(lines[0]) == seq!["ID"@, "First"@, "Second"@, "Difference"@, "Note"@]
    &&& is_separator_row(lines[1], 5)
    &&& forall|k: int| 2 <= k < lines.len() ==> correction_row_ok(#[trigger] lines[k])
}

proof fn lemma_correction_rows_errors(lines: Seq<Seq<char>>, m: int)
    requires
        2 <= m <= lines.len(),
    ensures
        (correction_rows_errors(lines, m).len() == 0) == (forall|k: int|
            2 <= k < m ==> correction_row_ok(#[trigger] lines[k])),
    decreases m,
{
    if m > 2 {
        lemma_correction_rows_errors(lines, m - 1);
        let line = lines[m - 1];
        assert((correction_row_errors(line, m - 1).len() == 0) == correction_row_ok(line));
        if correction_rows_errors(lines, m).len() == 0 {
            assert(correction_rows_errors(lines, m - 1).len() == 0);
        }
        if !correction_row_ok(line) {
            assert(!(forall|k: int| 2 <= k < m ==> correction_row_ok(#[trigger] lines[k])));
        }
    }
}

/// Validating a correction table finds no error exactly when it is well
/// formed (`well_formed_correction_table`); a skipped file passes apart.
pub proof fn law_correction_table_passes_iff_well_formed(md: Seq<char>)
    ensures
        (corrections_errors(md).len() == 0) == well_formed_correction_table(md),
{
    let lines = table_lines(md);
    if lines.len() >= 2 {
        lemma_correction_rows_errors(lines, lines.len() as int);
    }
}

/// Every error of the correction table `md`, in the order the tool reports
/// them.
pub open spec fn corrections_errors(md: Seq<char>) -> Seq<Seq<char>> {
    let lines = table_lines(md);
    let header = header_line(lines);
    let e_count = if lines.len() < 2 {
        seq!["expected at least 2 non-empty table lines, found "@ + dec(lines.len())]
    } else {
        Seq::empty()
    };
    let e_header = if md_cells(header) != seq![
        "ID"@,
        "First"@,
        "Second"@,
        "Difference"@,
        "Note"@,
    ] {
        seq![
            "expected header `| ID | First | Second | Difference | Note |`, found "@
                + crate::text::debug_quoted(header),
        ]
    } else {
        Seq::empty()
    };
    e_count + row_format_errors(lines) + e_header + separator_errors(lines, 5)
        + correction_rows_errors(lines, lines.len() as int)
}

/// The errors of candidate-table line `line` at index `index` (row number
/// `index + 1`), given the candidate number of the previous valid row, and
/// the candidate number this row establishes.
pub open spec fn candidate_row_step(line: Seq<char>, index: int, prev: Option<u32>) -> (
    Seq<Seq<char>>,
    Option<u32>,
) {
    let ln = dec((index + 1) as nat);
    let cells = md_cells(line);
    if cells.len() != 2 {
        (seq!["row "@ + ln + " should have exactly 2 cells, found "@ + dec(cells.len())], prev)
    } else if !all_digits(cells[0]) {
        (seq!["row "@ + ln + " candidate is not digits only: "@ + cells[0]], prev)
    } else {
        match parse_u32(cells[0]) {
            None => (
                seq![
                    "row "@ + ln + " candidate could not be parsed: "@ + digits_parse_error(
                        cells[0],
                    ),
                ],
                prev,
            ),
            Some(c) => if c == 0 {
                (seq!["row "@ + ln + " candidate must be greater than zero"@], prev)
            } else {
                let e1 = match prev {
                    Some(p) => if c != p + 1 {
                        seq![
                            "row "@ + ln + " candidate expected "@ + dec((p + 1) as nat)
                                + ", found "@ + dec(c as nat),
                        ]
                    } else {
                        Seq::empty()
                    },
                    None => Seq::empty(),
                };
                let e2 = if !all_digits(cells[1]) {
                    seq!["row "@ + ln + " votes are not digits only: "@ + cells[1]]
                } else if parse_u32(cells[1]) is None {
                    seq![
                        "row "@ + ln + " votes could not be parsed: "@ + digits_parse_error(
                            cells[1],
                        ),
                    ]
                } else {
                    Seq::empty()
                };
                (e1 + e2, Some(c))
            },
        }
    }
}

/// A valid candidate row after a row with candidate number `u32::MAX` would
/// overflow the tool's `previous + 1`.
pub open spec fn candidate_row_fits(line: Seq<char>, prev: Option<u32>) -> bool {
    let cells = md_cells(line);
    (cells.len() == 2 && all_digits(cells[0]) && parse_u32(cells[0]) is Some && parse_u32(
        cells[0],
    )->0 != 0 && prev is Some) ==> prev->0 < u32::MAX
}

/// Errors of the candidate-table lines with index `2..k`, and the last
/// valid candidate number among them.
pub open spec fn candidate_rows(lines: Seq<Seq<char>>, k: int) -> (Seq<Seq<char>>, Option<u32>)
    decreases k,
{
    if k <= 2 {
        (Seq::empty(), None)
    } else {
        let (e, p) = candidate_rows(lines, k - 1);
        let (e2, p2) = candidate_row_step(lines[k - 1], k - 1, p);
        (e + e2, p2)
    }
}

pub open spec fn candidate_rows_fit(lines: Seq<Seq<char>>, k: int) -> bool
    decreases k,
{
    if k <= 2 {
        true
    } else {
        candidate_rows_fit(lines, k - 1) && candidate_row_fit_at(lines, k - 1)
    }
}

pub open spec fn candidate_row_fit_at(lines: Seq<Seq<char>>, i: int) -> bool {
    candidate_row_fits(lines[i], candidate_rows(lines, i).1)
}

/// Validating the candidate table `md` needs no candidate number above
/// `u32::MAX`.
pub open spec fn candidates_fit(md: Seq<char>) -> bool {
    candidate_rows_fit(table_lines(md), table_lines(md).len() as int)
}

/// The candidate number in the first cell of a candidate-table row.
pub open spec fn candidate_number(line: Seq<char>) -> int {
    parse_u32(md_cells(line)[0])->0 as int
}

/// A candidate-table row has two cells of decimal digits that fit in
/// `u32`, the first a candidate number above zero.
pub open spec fn candidate_row_ok(line: Seq<char>) -> bool {
    let cells = md_cells(line);
    &&& cells.len() == 2
    &&& all_digits(cells[0])
    &&& parse_u32(cells[0]) is Some
    &&& parse_u32(cells[0])->0 != 0
    &&& all_digits(cells[1])
    &&& parse_u32(cells[1]) is Some
}

/// The rows from index 2 up to `m` are all well formed and number their
/// candidates one after the other.
pub open spec fn candidate_rows_ok(lines: Seq<Seq<char>>, m: int) -> bool {
    &&& forall|k: int| 2 <= k < m ==> candidate_row_ok(#[trigger] lines[k])
    &&& forall|k: int|
        3 <= k < m ==> #[trigger] candidate_number(lines[k]) == candidate_number(lines[k - 1]) + 1
}

/// A well-formed candidate table: at least three non-empty lines, all
/// table rows; the header `| Candidate | Votes |` and a separator row;
/// every further row as `candidate_row_ok` states, the candidates numbered
/// one after the other.
pub open spec fn well_formed_candidate_table(md: Seq<char>) -> bool {
    let lines = table_lines(md);
    &&& lines.len() >= 3
    &&& all_table_rows(lines)
    &&& md_cells(lines[0]) == seq!["Candidate"@, "Votes"@]
    &&& is_separator_row(lines[1], 2)
    &&& candidate_rows_ok(lines, lines.len() as int)
}

proof fn lemma_candidate_rows(lines: Seq<Seq<char>>, m: int)
    requires
        2 <= m <= lines.len(),
    ensures
        (candidate_rows(lines, m).0.len() == 0) == candidate_rows_ok(lines, m),
        candidate_rows(lines, m).0.len() == 0 && m > 2 ==> candidate_rows(lines, m).1 == Some(
            parse_u32(md_cells(lines[m - 1])[0])->0,
        ),
        m == 2 ==> candidate_rows(lines, m).1 is None,
    decreases m,
{
    if m > 2 {
        lemma_candidate_rows(lines, m - 1);
        let (e, p) = candidate_rows(lines, m - 1);
        let line = lines[m - 1];
        let (e2, p2) = candidate_row_step(line, m - 1, p);
        assert(candidate_rows(lines, m) == (e + e2, p2));
        if candidate_rows(lines, m).0.len() == 0 {
            assert(e.len() == 0 && e2.len() == 0);
            assert(candidate_row_ok(line));
            if m > 3 {
                assert(candidate_number(lines[m - 1]) == candidate_number(lines[m - 2]) + 1);
            }
            assert(candidate_rows_ok(lines, m));
        }
        if candidate_rows_ok(lines, m) {
            assert(candidate_rows_ok(lines, m - 1));
            assert(candidate_row_ok(line));
            if m > 3 {
                assert(candidate_number(lines[m - 1]) == candidate_number(lines[m - 2]) + 1);
            }
            assert(e2.len() == 0);
        }
    }
}

/// Validating a candidate table finds no error exactly when it is well
/// formed (`well_formed_candidate_table`); a skipped file passes apart.
pub proof fn law_candidate_table_passes_iff_well_formed(md: Seq<char>)
    ensures
        (candidates_errors(md).len() == 0) == well_formed_candidate_table(md),
{
    let lines = table_lines(md);
    if lines.len() >= 3 {
        lemma_candidate_rows(lines, lines.len() as int);
    }
}

/// Every error of the candidate table `md`, in the order the tool reports
/// them.
pub open spec fn candidates_errors(md: Seq<char>) -> Seq<Seq<char>> {
    let lines = table_lines(md);
    let header = header_line(lines);
    let e_count = if lines.len() < 3 {
        seq!["expected at least 3 non-empty table lines, found "@ + dec(lines.len())]
    } else {
        Seq::empty()
    };
    let e_header = if md_cells(header) != seq!["Candidate"@, "Votes"@] {
        seq!["expected header `| Candidate | Votes |`, found "@ + crate::text::debug_quoted(header)]
    } else {
        Seq::empty()
    };
    e_count + row_format_errors(lines) + e_header + separator_errors(lines, 2) + candidate_rows(
        lines,
        lines.len() as int,
    ).0
}

fn correction_row_errors_exec(line: &Vec<char>, index: usize, errors: &mut Vec<Vec<char>>)
    requires
        index < usize::MAX,
    ensures
        seqs(final(errors)@) == seqs(old(errors)@) + correction_row_errors(line@, index as int),
{
    let ghost before = seqs(errors@);
    let ln = dec_chars((index + 1) as u64);
    let cells = correction_cells_chars(line);
    let ghost cs = seqs(cells@);
    if cells.len() != 5 {
        let mut m = to_chars("row ");
        append_chars(&mut m, &ln);
        push_str(&mut m, " should have exactly 5 cells, found ");
        let n = dec_chars(cells.len() as u64);
        append_chars(&mut m, &n);
        push_error(errors, m);
        return;
    }
    assert(cs[0] == cells@[0]@ && cs[1] == cells@[1]@ && cs[2] == cells@[2]@ && cs[3]
        == cells@[3]@);
    if correction_slot_of(&cells[0]).is_none() {
        let mut m = to_chars("row ");
        append_chars(&mut m, &ln);
        push_str(&mut m, " has unknown correction ID ");
        append_chars(&mut m, &cells[0]);
        push_error(errors, m);
        return;
    }
    let t1 = trim_chars(&cells[1]);
    if optional_count_chars(&cells[1]).is_none() && t1.len() != 0 && !eq_str(&t1, "-") {
        let mut m = to_chars("row ");
        append_chars(&mut m, &ln);
        push_str(&mut m, " first count is not numeric: ");
        append_chars(&mut m, &cells[1]);
        push_error(errors, m);
    }
    let t2 = trim_chars(&cells[2]);
    if optional_count_chars(&cells[2]).is_none() && t2.len() != 0 && !eq_str(&t2, "-") {
        let mut m = to_chars("row ");
        append_chars(&mut m, &ln);
        push_str(&mut m, " second count is not numeric: ");
        append_chars(&mut m, &cells[2]);
        push_error(errors, m);
    }
    if signed_cell_chars(&cells[3]).is_none() {
        let mut m = to_chars("row ");
        append_chars(&mut m, &ln);
        push_str(&mut m, " difference is not signed integer: ");
        append_chars(&mut m, &cells[3]);
        push_error(errors, m);
    }
    assert(seqs(errors@) =~= before + correction_row_errors(line@, index as int));
}

/// Whether `cells` are exactly the five given cells.
fn cells_are5(cells: &Vec<Vec<char>>, a: &str, b: &str, c: &str, d: &str, e: &str) -> (r: bool)
    ensures
        r == (seqs(cells@) == seq![a@, b@, c@, d@, e@]),
{
    if cells.len() != 5 {
        assert(seqs(cells@).len() != 5);
        return false;
    }
    let r = eq_str(&cells[0], a) && eq_str(&cells[1], b) && eq_str(&cells[2], c) && eq_str(
        &cells[3],
        d,
    ) && eq_str(&cells[4], e);
    assert(seqs(cells@)[0] == cells@[0]@ && seqs(cells@)[1] == cells@[1]@ && seqs(cells@)[2]
        == cells@[2]@ && seqs(cells@)[3] == cells@[3]@ && seqs(cells@)[4] == cells@[4]@);
    if r {
        assert(seqs(cells@) =~= seq![a@, b@, c@, d@, e@]);
    }
    r
}

/// Validates an OCR correction table (B1-2.4): at least two non-empty lines
/// that are all table rows, the header `| ID | First | Second | Difference |
/// Note |`, a separator row, and body rows of five cells with a known row
/// identifier, numeric (or empty or `-`) counts and a signed difference.
pub fn validate_corrections_markdown(markdown: &str) -> (r: ValidationReport)
    ensures
        report_matches(r, is_skipped(markdown@), corrections_errors(markdown@)),
{
    let md = to_chars(markdown);
    if markdown_is_skipped(&md) {
        return ValidationReport { passed: true, skipped: true, errors: Vec::new() };
    }
    let lines = nonempty_trimmed_lines(markdown);
    let ghost ls = seqs(lines@);
    let mut errors: Vec<Vec<char>> = Vec::new();
    assert(seqs(errors@) =~= Seq::<Seq<char>>::empty());
    if lines.len() < 2 {
        let mut m = to_chars("expected at least 2 non-empty table lines, found ");
        let d = dec_chars(lines.len() as u64);
        append_chars(&mut m, &d);
        push_error(&mut errors, m);
    }
    row_format_errors_exec(&lines, &mut errors);
    let header = header_exec(&lines);
    let hc = md_cells_chars(&header);
    if !cells_are5(&hc, "ID", "First", "Second", "Difference", "Note") {
        let mut m = to_chars("expected header `| ID | First | Second | Difference | Note |`, found ");
        let q = debug_chars(&header);
        append_chars(&mut m, &q);
        push_error(&mut errors, m);
    }
    separator_errors_exec(&lines, 5, &mut errors);
    let ghost e3 = seqs(errors@);
    let mut k: usize = 2;
    while k < lines.len()
        invariant
            2 <= k,
            k <= lines.len() || k == 2,
            ls == seqs(lines@),
            seqs(errors@) == e3 + correction_rows_errors(ls, k as int),
        decreases lines.len() - k,
    {
        assert(ls[k as int] == lines@[k as int]@);
        correction_row_errors_exec(&lines[k], k, &mut errors);
        assert(seqs(errors@) =~= e3 + correction_rows_errors(ls, k + 1));
        k = k + 1;
    }
    assert(ls.len() == lines@.len());
    if lines.len() < 2 {
        assert(correction_rows_errors(ls, k as int) =~= Seq::<Seq<char>>::empty());
        assert(correction_rows_errors(ls, ls.len() as int) =~= Seq::<Seq<char>>::empty());
    }
    let ghost spec_errors = corrections_errors(markdown@);
    assert(seqs(errors@) =~= spec_errors);
    let passed = errors.len() == 0;
    let strings = to_strings(&errors);
    ValidationReport { passed, skipped: false, errors: strings }
}

fn candidate_row_exec(line: &Vec<char>, index: usize, prev: Option<u32>, errors: &mut Vec<
    Vec<char>,
>) -> (p: Option<u32>)
    requires
        index < usize::MAX,
        candidate_row_fits(line@, prev),
    ensures
        seqs(final(errors)@) == seqs(old(errors)@) + candidate_row_step(line@, index as int, prev).0,
        p == candidate_row_step(line@, index as int, prev).1,
{
    let ghost before = seqs(errors@);
    let ln = dec_chars((index + 1) as u64);
    let cells = md_cells_chars(line);
    let ghost cs = seqs(cells@);
    if cells.len() != 2 {
        let mut m = to_chars("row ");
        append_chars(&mut m, &ln);
        push_str(&mut m, " should have exactly 2 cells, found ");
        let n = dec_chars(cells.len() as u64);
        append_chars(&mut m, &n);
        push_error(errors, m);
        return prev;
    }
    assert(cs[0] == cells@[0]@ && cs[1] == cells@[1]@);
    if !all_digits_chars(&cells[0]) {
        let mut m = to_chars("row ");
        append_chars(&mut m, &ln);
        push_str(&mut m, " candidate is not digits only: ");
        append_chars(&mut m, &cells[0]);
        push_error(errors, m);
        return prev;
    }
    let c = match parse_u32_chars(&cells[0]) {
        None => {
            let mut m = to_chars("row ");
            append_chars(&mut m, &ln);
            push_str(&mut m, " candidate could not be parsed: ");
            let pe = digits_parse_error_exec(&cells[0]);
            append_chars(&mut m, &pe);
            push_error(errors, m);
            return prev;
        },
        Some(c) => c,
    };
    if c == 0 {
        let mut m = to_chars("row ");
        append_chars(&mut m, &ln);
        push_str(&mut m, " candidate must be greater than zero");
        push_error(errors, m);
        return prev;
    }
    match prev {
        Some(p) => {
            if c != p + 1 {
                let mut m = to_chars("row ");
                append_chars(&mut m, &ln);
                push_str(&mut m, " candidate expected ");
                let d = dec_chars((p + 1) as u64);
                append_chars(&mut m, &d);
                push_str(&mut m, ", found ");
                let d2 = dec_chars(c as u64);
                append_chars(&mut m, &d2);
                push_error(errors, m);
            }
        },
        None => {},
    }
    if !all_digits_chars(&cells[1]) {
        let mut m = to_chars("row ");
        append_chars(&mut m, &ln);
        push_str(&mut m, " votes are not digits only: ");
        append_chars(&mut m, &cells[1]);
        push_error(errors, m);
    } else if parse_u32_chars(&cells[1]).is_none() {
        let mut m = to_chars("row ");
        append_chars(&mut m, &ln);
        push_str(&mut m, " votes could not be parsed: ");
        let pe = digits_parse_error_exec(&cells[1]);
        append_chars(&mut m, &pe);
        push_error(errors, m);
    }
    assert(seqs(errors@) =~= before + candidate_row_step(line@, index as int, prev).0);
    Some(c)
}

proof fn lemma_candidate_fits_prefix(lines: Seq<Seq<char>>, k: int, j: int)
    requires
        candidate_rows_fit(lines, k),
        j <= k,
    ensures
        candidate_rows_fit(lines, j),
    decreases k,
{
    if j < k && k > 2 {
        lemma_candidate_fits_prefix(lines, k - 1, j);
    }
}

/// Validates an OCR candidate vote table (B1-3.5): at least three non-empty
/// lines that are all table rows, the header `| Candidate | Votes |`, a
/// separator row, and body rows of two digit-only cells whose candidate
/// numbers are positive and consecutive.
pub fn validate_candidates_markdown(markdown: &str) -> (r: ValidationReport)
    requires
        is_skipped(markdown@) || candidates_fit(markdown@),
    ensures
        report_matches(r, is_skipped(markdown@), candidates_errors(markdown@)),
{
    let md = to_chars(markdown);
    if markdown_is_skipped(&md) {
        return ValidationReport { passed: true, skipped: true, errors: Vec::new() };
    }
    let lines = nonempty_trimmed_lines(markdown);
    let ghost ls = seqs(lines@);
    let mut errors: Vec<Vec<char>> = Vec::new();
    assert(seqs(errors@) =~= Seq::<Seq<char>>::empty());
    if lines.len() < 3 {
        let mut m = to_chars("expected at least 3 non-empty table lines, found ");
        let d = dec_chars(lines.len() as u64);
        append_chars(&mut m, &d);
        push_error(&mut errors, m);
    }
    row_format_errors_exec(&lines, &mut errors);
    let header = header_exec(&lines);
    let hc = md_cells_chars(&header);
    if !cells_are2(&hc, "Candidate", "Votes") {
        let mut m = to_chars("expected header `| Candidate | Votes |`, found ");
        let q = debug_chars(&header);
        append_chars(&mut m, &q);
        push_error(&mut errors, m);
    }
    separator_errors_exec(&lines, 2, &mut errors);
    let ghost e3 = seqs(errors@);
    let mut prev: Option<u32> = None;
    let mut k: usize = 2;
    while k < lines.len()
        invariant
            2 <= k,
            k <= lines.len() || k == 2,
            ls == seqs(lines@),
            candidate_rows_fit(ls, ls.len() as int),
            seqs(errors@) == e3 + candidate_rows(ls, k as int).0,
            prev == candidate_rows(ls, k as int).1,
        decreases lines.len() - k,
    {
        assert(ls[k as int] == lines@[k as int]@);
        proof {
            lemma_candidate_fits_prefix(ls, ls.len() as int, k + 1);
        }
        prev = candidate_row_exec(&lines[k], k, prev, &mut errors);
        assert(seqs(errors@) =~= e3 + candidate_rows(ls, k + 1).0);
        k = k + 1;
    }
    assert(ls.len() == lines@.len());
    if lines.len() < 2 {
        assert(candidate_rows(ls, k as int) == candidate_rows(ls, ls.len() as int));
    }
    let ghost spec_errors = candidates_errors(markdown@);
    assert(seqs(errors@) =~= spec_errors);
    let passed = errors.len() == 0;
    let strings = to_strings(&errors);
    ValidationReport { passed, skipped: false, errors: strings }
}

/// Whether the sums that validating the vote table `markdown` computes fit
/// in `u32`.
pub fn votes_markdown_fits(markdown: &str) -> (r: bool)
    ensures
        r == vote_sums_fit(markdown@),
{
    let lines = nonempty_trimmed_lines(markdown);
    let ghost ls = seqs(lines@);
    let mut scratch: Vec<Vec<char>> = Vec::new();
    let mut values = VoteValues::new();
    let mut k: usize = 0;
    while k < 24
        invariant
            k <= 24,
            ls == seqs(lines@),
            ls == table_lines(markdown@),
            values.wf(),
            values@ == vote_rows_values(ls, k as int),
        decreases 24 - k,
    {
        check_vote_row(&lines, k, &mut values, &mut scratch);
        k = k + 1;
    }
    let ghost vals = values@;
    let mut sum: u64 = 0;
    let mut all = true;
    let mut i: usize = 0;
    while i < 20
        invariant
            values.wf(),
            vals == values@,
            i <= 20,
            all == all_some(vals, i as int),
            sum == slot_sum(vals, i as int),
            sum <= i * 0xFFFF_FFFF,
        decreases 20 - i,
    {
        match values.get_slot(i) {
            Some(v) => {
                sum = sum + v as u64;
            },
            None => {
                all = false;
            },
        }
        i = i + 1;
    }
    if all && sum > 0xFFFF_FFFF {
        return false;
    }
    match (values.get_slot(20), values.get_slot(21), values.get_slot(22), values.get_slot(23)) {
        (Some(e), Some(f), Some(g), Some(_)) => e as u64 + f as u64 + g as u64 <= 0xFFFF_FFFF,
        _ => true,
    }
}

/// The candidate number that candidate-table line `line` establishes.
fn candidate_row_prev(line: &Vec<char>, prev: Option<u32>) -> (p: (Option<u32>, bool))
    ensures
        p.0 == candidate_row_step(line@, 0, prev).1,
        p.1 == candidate_row_fits(line@, prev),
{
    let cells = md_cells_chars(line);
    let ghost cs = seqs(cells@);
    if cells.len() != 2 {
        return (prev, true);
    }
    assert(cs[0] == cells@[0]@ && cs[1] == cells@[1]@);
    if !all_digits_chars(&cells[0]) {
        return (prev, true);
    }
    match parse_u32_chars(&cells[0]) {
        None => (prev, true),
        Some(c) => if c == 0 {
            (prev, true)
        } else {
            let fits = match prev {
                Some(p) => p < 0xFFFF_FFFF,
                None => true,
            };
            (Some(c), fits)
        },
    }
}

/// Whether validating the candidate table `markdown` stays within `u32`.
pub fn candidates_markdown_fits(markdown: &str) -> (r: bool)
    ensures
        r == candidates_fit(markdown@),
{
    let lines = nonempty_trimmed_lines(markdown);
    let ghost ls = seqs(lines@);
    assert(ls.len() == lines@.len());
    let mut prev: Option<u32> = None;
    let mut k: usize = 2;
    while k < lines.len()
        invariant
            2 <= k,
            k <= lines.len() || k == 2,
            ls == seqs(lines@),
            ls == table_lines(markdown@),
            ls.len() == lines@.len(),
            candidate_rows_fit(ls, k as int),
            prev == candidate_rows(ls, k as int).1,
        decreases lines.len() - k,
    {
        assert(ls[k as int] == lines@[k as int]@);
        let (p, ok) = candidate_row_prev(&lines[k], prev);
        if !ok {
            proof {
                lemma_candidate_not_fit_extend(ls, k as int + 1, ls.len() as int);
            }
            return false;
        }
        prev = p;
        k = k + 1;
    }
    true
}

proof fn lemma_candidate_not_fit_extend(lines: Seq<Seq<char>>, j: int, n: int)
    requires
        2 < j <= n,
        !candidate_rows_fit(lines, j),
    ensures
        !candidate_rows_fit(lines, n),
    decreases n - j,
{
    if j < n {
        lemma_candidate_not_fit_extend(lines, j + 1, n);
    }
}

} // verus!
