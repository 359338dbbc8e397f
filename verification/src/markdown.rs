//! Cells of Markdown table rows and recognition of separator rows.
use vstd::prelude::*;
use crate::text::{seqs, split, strs, trim};
use crate::textops::{split_chars, to_chars, to_strings, trim_chars};

verus! {

broadcast use vstd::string::group_string_axioms;

/// The trimmed cells of a Markdown table row: the text between `|`
/// characters, without the empty text before a leading `|` and after a
/// trailing `|`.
pub open spec fn md_cells(line: Seq<char>) -> Seq<Seq<char>> {
    let c0 = split(line, '|');
    let c1 = if line.len() > 0 && line[0] == '|' {
        c0.drop_first()
    } else {
        c0
    };
    let c2 = if line.len() > 0 && line.last() == '|' && c1.len() > 0 {
        c1.drop_last()
    } else {
        c1
    };
    c2.map_values(|c: Seq<char>| trim(c))
}

/// The cells of a correction-table row; a row of four cells gets an empty
/// fifth (note) cell.
pub open spec fn correction_cells(line: Seq<char>) -> Seq<Seq<char>> {
    let c = md_cells(line);
    if c.len() == 4 {
        c.push(Seq::empty())
    } else {
        c
    }
}

pub open spec fn trim_colons_start(s: Seq<char>) -> Seq<char>
    decreases s.len(),
{
    if s.len() > 0 && s[0] == ':' {
        trim_colons_start(s.drop_first())
    } else {
        s
    }
}

pub open spec fn trim_colons_end(s: Seq<char>) -> Seq<char>
    decreases s.len(),
{
    if s.len() > 0 && s.last() == ':' {
        trim_colons_end(s.drop_last())
    } else {
        s
    }
}

/// A separator cell: after removing `:` at both ends, three or more `-`
/// and nothing else.
pub open spec fn is_separator_cell(c: Seq<char>) -> bool {
    let st = trim_colons_end(trim_colons_start(c));
    st.len() >= 3 && forall|i: int| 0 <= i < st.len() ==> st[i] == '-'
}

/// A separator row with exactly `n` cells.
pub open spec fn is_separator_row(line: Seq<char>, n: int) -> bool {
    let cells = md_cells(line);
    cells.len() == n && forall|i: int| 0 <= i < cells.len() ==> is_separator_cell(#[trigger] cells[i])
}

pub proof fn lemma_split_nonempty(s: Seq<char>, sep: char)
    ensures
        split(s, sep).len() >= 1,
{
    lemma_split_acc_nonempty(s, sep, Seq::empty());
}

proof fn lemma_split_acc_nonempty(s: Seq<char>, sep: char, cur: Seq<char>)
    ensures
        crate::text::split_acc(s, sep, cur).len() >= 1,
    decreases s.len(),
{
    if s.len() > 0 {
        if s[0] == sep {
            lemma_split_acc_nonempty(s.drop_first(), sep, Seq::empty());
        } else {
            lemma_split_acc_nonempty(s.drop_first(), sep, cur.push(s[0]));
        }
    }
}

/// The trimmed cells of the row `line`.
pub fn md_cells_chars(line: &Vec<char>) -> (r: Vec<Vec<char>>)
    ensures
        seqs(r@) == md_cells(line@),
{
    let mut cells = split_chars(line, '|');
    proof {
        lemma_split_nonempty(line@, '|');
    }
    let ghost c0 = seqs(cells@);
    if line.len() > 0 && line[0] == '|' {
        cells.remove(0);
        assert(seqs(cells@) =~= c0.drop_first());
    }
    let ghost c1 = seqs(cells@);
    if line.len() > 0 && line[line.len() - 1] == '|' && cells.len() > 0 {
        cells.pop();
        assert(seqs(cells@) =~= c1.drop_last());
    }
    let ghost c2 = seqs(cells@);
    let mut out: Vec<Vec<char>> = Vec::new();
    let mut i: usize = 0;
    while i < cells.len()
        invariant
            i <= cells.len(),
            c2 == seqs(cells@),
            seqs(out@) == c2.map_values(|c: Seq<char>| trim(c)).take(i as int),
        decreases cells.len() - i,
    {
        let t = trim_chars(&cells[i]);
        let ghost old_out = seqs(out@);
        out.push(t);
        assert(seqs(out@) =~= old_out.push(t@));
        assert(c2.map_values(|c: Seq<char>| trim(c)).take(i + 1) =~= c2.map_values(
            |c: Seq<char>| trim(c),
        ).take(i as int).push(trim(c2[i as int])));
        i = i + 1;
    }
    assert(c2.map_values(|c: Seq<char>| trim(c)).take(cells.len() as int) =~= c2.map_values(
        |c: Seq<char>| trim(c),
    ));
    out
}

/// The trimmed cells of a Markdown table row.
pub fn markdown_cells(line: &str) -> (r: Vec<String>)
    ensures
        strs(r@) == md_cells(line@),
{
    let v = to_chars(line);
    let c = md_cells_chars(&v);
    to_strings(&c)
}

/// The cells of the correction-table row `line`.
pub fn correction_cells_chars(line: &Vec<char>) -> (r: Vec<Vec<char>>)
    ensures
        seqs(r@) == correction_cells(line@),
{
    let mut c = md_cells_chars(line);
    if c.len() == 4 {
        let ghost old_c = seqs(c@);
        c.push(Vec::new());
        assert(seqs(c@) =~= old_c.push(Seq::<char>::empty()));
    }
    c
}

/// The cells of a correction-table row, padded to five when the note cell
/// is absent.
pub fn correction_markdown_cells(line: &str) -> (r: Vec<String>)
    ensures
        strs(r@) == correction_cells(line@),
{
    let v = to_chars(line);
    let c = correction_cells_chars(&v);
    to_strings(&c)
}

fn is_separator_cell_chars(c: &Vec<char>) -> (r: bool)
    ensures
        r == is_separator_cell(c@),
{
    let mut i: usize = 0;
    assert(c@.skip(0) =~= c@);
    while i < c.len() && c[i] == ':'
        invariant
            i <= c.len(),
            trim_colons_start(c@) == trim_colons_start(c@.skip(i as int)),
        decreases c.len() - i,
    {
        assert(c@.skip(i as int).drop_first() =~= c@.skip(i + 1));
        i = i + 1;
    }
    assert(trim_colons_start(c@) == c@.skip(i as int));
    let mut j: usize = c.len();
    assert(c@.skip(i as int) =~= c@.subrange(i as int, j as int));
    while j > i && c[j - 1] == ':'
        invariant
            i <= j <= c.len(),
            trim_colons_end(trim_colons_start(c@)) == trim_colons_end(c@.subrange(i as int, j as int)),
        decreases j - i,
    {
        assert(c@.subrange(i as int, j as int).drop_last() =~= c@.subrange(i as int, j - 1));
        j = j - 1;
    }
    let ghost st = c@.subrange(i as int, j as int);
    assert(trim_colons_end(trim_colons_start(c@)) == st);
    if j - i < 3 {
        return false;
    }
    let mut k = i;
    while k < j
        invariant
            i <= k <= j,
            j <= c.len(),
            st == c@.subrange(i as int, j as int),
            trim_colons_end(trim_colons_start(c@)) == st,
            forall|m: int| 0 <= m < k - i ==> st[m] == '-',
        decreases j - k,
    {
        if c[k] != '-' {
            assert(st[(k - i) as int] == c@[k as int]);
            assert(st[(k - i) as int] != '-');
            return false;
        }
        k = k + 1;
    }
    true
}

/// Whether `line` is a separator row with exactly `n` cells.
pub fn is_separator_row_chars(line: &Vec<char>, n: usize) -> (r: bool)
    ensures
        r == is_separator_row(line@, n as int),
{
    let cells = md_cells_chars(line);
    if cells.len() != n {
        return false;
    }
    let mut i: usize = 0;
    while i < cells.len()
        invariant
            i <= cells.len(),
            seqs(cells@) == md_cells(line@),
            forall|k: int| 0 <= k < i ==> is_separator_cell(#[trigger] md_cells(line@)[k]),
        decreases cells.len() - i,
    {
        assert(md_cells(line@)[i as int] == cells@[i as int]@);
        if !is_separator_cell_chars(&cells[i]) {
            return false;
        }
        i = i + 1;
    }
    true
}

/// Whether `line` is the separator row of a two-column table.
pub fn is_markdown_separator(line: &str) -> (r: bool)
    ensures
        r == is_separator_row(line@, 2),
{
    let v = to_chars(line);
    is_separator_row_chars(&v, 2)
}

/// Whether `line` is the separator row of the five-column correction table.
pub fn is_corrections_separator(line: &str) -> (r: bool)
    ensures
        r == is_separator_row(line@, 5),
{
    let v = to_chars(line);
    is_separator_row_chars(&v, 5)
}

} // verus!
