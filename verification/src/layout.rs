//! Integer layout of the highlighted report images: the bitmap font of the
//! value labels, grouping of detected table lines, row bands and blending.
use vstd::prelude::*;
use crate::text::seqs;
use crate::textops::to_chars;

verus! {

broadcast use vstd::string::group_string_axioms;

/// The ASCII upper-case form of a character.
pub open spec fn ascii_upper(c: char) -> char {
    if 'a' <= c <= 'z' {
        ((c as u32) - 32) as char
    } else {
        c
    }
}

/// The seven rows of five pixels (`1` set) of an upper-case character of
/// the bitmap font, if the font has it.
pub open spec fn glyph_rows(c: char) -> Option<Seq<Seq<char>>> {
    if c == '0' {
        Some(seq!["01110"@, "10001"@, "10011"@, "10101"@, "11001"@, "10001"@, "01110"@])
    } else if c == '1' {
        Some(seq!["00100"@, "01100"@, "00100"@, "00100"@, "00100"@, "00100"@, "01110"@])
    } else if c == '2' {
        Some(seq!["01110"@, "10001"@, "00001"@, "00010"@, "00100"@, "01000"@, "11111"@])
    } else if c == '3' {
        Some(seq!["11110"@, "00001"@, "00001"@, "01110"@, "00001"@, "00001"@, "11110"@])
    } else if c == '4' {
        Some(seq!["00010"@, "00110"@, "01010"@, "10010"@, "11111"@, "00010"@, "00010"@])
    } else if c == '5' {
        Some(seq!["11111"@, "10000"@, "10000"@, "11110"@, "00001"@, "00001"@, "11110"@])
    } else if c == '6' {
        Some(seq!["01110"@, "10000"@, "10000"@, "11110"@, "10001"@, "10001"@, "01110"@])
    } else if c == '7' {
        Some(seq!["11111"@, "00001"@, "00010"@, "00100"@, "01000"@, "01000"@, "01000"@])
    } else if c == '8' {
        Some(seq!["01110"@, "10001"@, "10001"@, "01110"@, "10001"@, "10001"@, "01110"@])
    } else if c == '9' {
        Some(seq!["01110"@, "10001"@, "10001"@, "01111"@, "00001"@, "00001"@, "01110"@])
    } else if c == 'A' {
        Some(seq!["01110"@, "10001"@, "10001"@, "11111"@, "10001"@, "10001"@, "10001"@])
    } else if c == 'C' {
        Some(seq!["01111"@, "10000"@, "10000"@, "10000"@, "10000"@, "10000"@, "01111"@])
    } else if c == 'D' {
        Some(seq!["11110"@, "10001"@, "10001"@, "10001"@, "10001"@, "10001"@, "11110"@])
    } else if c == 'E' {
        Some(seq!["11111"@, "10000"@, "10000"@, "11110"@, "10000"@, "10000"@, "11111"@])
    } else if c == 'F' {
        Some(seq!["11111"@, "10000"@, "10000"@, "11110"@, "10000"@, "10000"@, "10000"@])
    } else if c == 'I' {
        Some(seq!["11111"@, "00100"@, "00100"@, "00100"@, "00100"@, "00100"@, "11111"@])
    } else if c == 'L' {
        Some(seq!["10000"@, "10000"@, "10000"@, "10000"@, "10000"@, "10000"@, "11111"@])
    } else if c == 'O' {
        Some(seq!["01110"@, "10001"@, "10001"@, "10001"@, "10001"@, "10001"@, "01110"@])
    } else if c == 'R' {
        Some(seq!["11110"@, "10001"@, "10001"@, "11110"@, "10100"@, "10010"@, "10001"@])
    } else if c == 'T' {
        Some(seq!["11111"@, "00100"@, "00100"@, "00100"@, "00100"@, "00100"@, "00100"@])
    } else if c == '(' {
        Some(seq!["00010"@, "00100"@, "01000"@, "01000"@, "01000"@, "00100"@, "00010"@])
    } else if c == ')' {
        Some(seq!["01000"@, "00100"@, "00010"@, "00010"@, "00010"@, "00100"@, "01000"@])
    } else if c == '-' {
        Some(seq!["00000"@, "00000"@, "00000"@, "11111"@, "00000"@, "00000"@, "00000"@])
    } else {
        None
    }
}

/// Every character the report images write has a glyph: the decimal
/// digits, `-`, and the letters and brackets of `ERROR`, `OCR`,
/// `OFFICIAL` and `(CORRECTED)`, in either ASCII case.
pub proof fn law_report_texts_have_glyphs(c: char)
    requires
        is_digit_char(c) || c == '-' || "ERROR"@.contains(c) || "OCR"@.contains(c)
            || "OFFICIAL"@.contains(c) || "(CORRECTED)"@.contains(c)
            || "error"@.contains(c) || "official"@.contains(c) || "(corrected)"@.contains(c),
    ensures
        glyph_rows(ascii_upper(c)) is Some,
{
    reveal_strlit("ERROR");
    reveal_strlit("OCR");
    reveal_strlit("OFFICIAL");
    reveal_strlit("(CORRECTED)");
    reveal_strlit("error");
    reveal_strlit("official");
    reveal_strlit("(corrected)");
}

/// A decimal digit `0` to `9`.
pub open spec fn is_digit_char(c: char) -> bool {
    '0' <= c <= '9'
}

/// The rows of the glyph of an upper-case character.
fn glyph_upper(c: char) -> (r: Option<[&'static str; 7]>)
    ensures
        match glyph_rows(c) {
            Some(rows) => r is Some && forall|i: int| 0 <= i < 7 ==> (#[trigger] r->0@[i])@ == rows[i],
            None => r is None,
        },
{
    if c == '0' {
        Some(["01110", "10001", "10011", "10101", "11001", "10001", "01110"])
    } else if c == '1' {
        Some(["00100", "01100", "00100", "00100", "00100", "00100", "01110"])
    } else if c == '2' {
        Some(["01110", "10001", "00001", "00010", "00100", "01000", "11111"])
    } else if c == '3' {
        Some(["11110", "00001", "00001", "01110", "00001", "00001", "11110"])
    } else if c == '4' {
        Some(["00010", "00110", "01010", "10010", "11111", "00010", "00010"])
    } else if c == '5' {
        Some(["11111", "10000", "10000", "11110", "00001", "00001", "11110"])
    } else if c == '6' {
        Some(["01110", "10000", "10000", "11110", "10001", "10001", "01110"])
    } else if c == '7' {
        Some(["11111", "00001", "00010", "00100", "01000", "01000", "01000"])
    } else if c == '8' {
        Some(["01110", "10001", "10001", "01110", "10001", "10001", "01110"])
    } else if c == '9' {
        Some(["01110", "10001", "10001", "01111", "00001", "00001", "01110"])
    } else if c == 'A' {
        Some(["01110", "10001", "10001", "11111", "10001", "10001", "10001"])
    } else if c == 'C' {
        Some(["01111", "10000", "10000", "10000", "10000", "10000", "01111"])
    } else if c == 'D' {
        Some(["11110", "10001", "10001", "10001", "10001", "10001", "11110"])
    } else if c == 'E' {
        Some(["11111", "10000", "10000", "11110", "10000", "10000", "11111"])
    } else if c == 'F' {
        Some(["11111", "10000", "10000", "11110", "10000", "10000", "10000"])
    } else if c == 'I' {
        Some(["11111", "00100", "00100", "00100", "00100", "00100", "11111"])
    } else if c == 'L' {
        Some(["10000", "10000", "10000", "10000", "10000", "10000", "11111"])
    } else if c == 'O' {
        Some(["01110", "10001", "10001", "10001", "10001", "10001", "01110"])
    } else if c == 'R' {
        Some(["11110", "10001", "10001", "11110", "10100", "10010", "10001"])
    } else if c == 'T' {
        Some(["11111", "00100", "00100", "00100", "00100", "00100", "00100"])
    } else if c == '(' {
        Some(["00010", "00100", "01000", "01000", "01000", "00100", "00010"])
    } else if c == ')' {
        Some(["01000", "00100", "00010", "00010", "00010", "00100", "01000"])
    } else if c == '-' {
        Some(["00000", "00000", "00000", "11111", "00000", "00000", "00000"])
    } else {
        None
    }
}

/// The ASCII upper-case form of a character.
fn to_ascii_upper(c: char) -> (r: char)
    ensures
        r == ascii_upper(c),
{
    if 'a' <= c && c <= 'z' {
        let u = c as u32 - 32;
        assert(u == (c as u32) - 32);
        let b = u as u8;
        let r = b as char;
        assert(r == ascii_upper(c)) by {
            assert((c as u32) - 32 == b);
        }
        r
    } else {
        c
    }
}

/// The glyph of a character in the bitmap font used on report images,
/// letters taken in upper case: seven rows of five pixels, `1` set.
pub fn bitmap_glyph(ch: char) -> (r: Option<[&'static str; 7]>)
    ensures
        match glyph_rows(ascii_upper(ch)) {
            Some(rows) => r is Some && forall|i: int| 0 <= i < 7 ==> (#[trigger] r->0@[i])@ == rows[i],
            None => r is None,
        },
{
    glyph_upper(to_ascii_upper(ch))
}

/// The advance of the first `k` characters of a label at `scale`: six
/// pixel columns for a character of the font, four for a space or a
/// character it lacks.
pub open spec fn text_advance(s: Seq<char>, scale: u32, k: int) -> int
    decreases k,
{
    if k <= 0 {
        0
    } else {
        text_advance(s, scale, k - 1) + if s[k - 1] != ' ' && glyph_rows(ascii_upper(s[k - 1])) is Some {
            scale * 6
        } else {
            scale * 4
        }
    }
}

pub proof fn lemma_text_advance_mono(s: Seq<char>, scale: u32, k: int, n: int)
    requires
        0 <= k <= n,
    ensures
        text_advance(s, scale, k) <= text_advance(s, scale, n),
    decreases n,
{
    if k < n {
        lemma_text_advance_mono(s, scale, k, n - 1);
    }
}

/// The width in pixels of a label drawn at `scale`: the advance of its
/// characters less the gap after the last one.
pub fn bitmap_text_width(text: &str, scale: u32) -> (r: u32)
    requires
        text_advance(text@, scale, text@.len() as int) <= u32::MAX,
    ensures
        r == if text_advance(text@, scale, text@.len() as int) > scale {
            text_advance(text@, scale, text@.len() as int) - scale
        } else {
            0
        },
{
    let v = to_chars(text);
    let mut width: u32 = 0;
    let mut i: usize = 0;
    while i < v.len()
        invariant
            v@ == text@,
            i <= v.len(),
            text_advance(text@, scale, text@.len() as int) <= u32::MAX,
            width == text_advance(text@, scale, i as int),
        decreases v.len() - i,
    {
        proof {
            lemma_text_advance_mono(text@, scale, i + 1, text@.len() as int);
        }
        let c = v[i];
        let step = if c != ' ' && bitmap_glyph(c).is_some() {
            scale * 6
        } else {
            scale * 4
        };
        width = width + step;
        i = i + 1;
    }
    if width > scale {
        width - scale
    } else {
        0
    }
}

/// The height in pixels of a label drawn at `scale`: seven pixel rows.
pub fn bitmap_text_height(scale: u32) -> (r: u32)
    requires
        scale * 7 <= u32::MAX,
    ensures
        r == scale * 7,
{
    scale * 7
}

/// Grouping the first `k` rows (sorted pixel rows of detected lines) into
/// runs whose rows are at most two apart: the centres of the finished runs,
/// and the first and last row of the current run.
pub open spec fn group_fold(rows: Seq<u32>, k: int) -> (Seq<u32>, Option<u32>, Option<u32>)
    decreases k,
{
    if k <= 0 {
        (Seq::empty(), None, None)
    } else {
        let (c, start, prev) = group_fold(rows, k - 1);
        let row = rows[k - 1];
        match (start, prev) {
            (Some(s), Some(p)) => if row <= p + 2 {
                (c, Some(s), Some(row))
            } else {
                (c.push(((s + p) / 2) as u32), Some(row), Some(row))
            },
            _ => (c, Some(row), Some(row)),
        }
    }
}

/// The centre of each run of rows at most two apart.
pub open spec fn line_centers(rows: Seq<u32>) -> Seq<u32> {
    let (c, start, prev) = group_fold(rows, rows.len() as int);
    match (start, prev) {
        (Some(s), Some(p)) => c.push(((s + p) / 2) as u32),
        _ => c,
    }
}

proof fn lemma_group_fold(rows: Seq<u32>, k: int)
    requires
        0 <= k <= rows.len(),
    ensures
        ({
            let (c, start, prev) = group_fold(rows, k);
            &&& (start is Some <==> prev is Some)
            &&& (start is Some ==> k > 0 && exists|i: int| 0 <= i < k && rows[i] == start->0)
            &&& (prev is Some ==> prev->0 == rows[k - 1])
        }),
    decreases k,
{
    if k > 0 {
        lemma_group_fold(rows, k - 1);
        let (c, start, prev) = group_fold(rows, k - 1);
        if start is Some {
            let i = choose|i: int| 0 <= i < k - 1 && rows[i] == start->0;
            assert(0 <= i < k && rows[i] == start->0);
        }
        assert(rows[k - 1] == rows[k - 1]);
    }
}

/// The sums grouping the first `k` rows takes fit in `u32`: each row after
/// the first is compared with the previous row plus two, and each run that
/// ends before the `k`-th row adds its first and last row.
pub open spec fn groups_fit(rows: Seq<u32>, k: int) -> bool
    decreases k,
{
    if k <= 0 {
        true
    } else {
        &&& groups_fit(rows, k - 1)
        &&& match group_fold(rows, k - 1) {
            (_, Some(s), Some(p)) => p + 2 <= u32::MAX && (rows[k - 1] <= p + 2 || s + p
                <= u32::MAX),
            _ => true,
        }
    }
}

/// The sums `grouped_line_centers` takes on `rows` fit in `u32`.
pub open spec fn line_centers_fit(rows: Seq<u32>) -> bool {
    &&& groups_fit(rows, rows.len() as int)
    &&& match group_fold(rows, rows.len() as int) {
        (_, Some(s), Some(p)) => s + p <= u32::MAX,
        _ => true,
    }
}

proof fn lemma_groups_fit_prefix(rows: Seq<u32>, k: int, n: int)
    requires
        0 <= k <= n,
        groups_fit(rows, n),
    ensures
        groups_fit(rows, k),
    decreases n - k,
{
    if k < n {
        lemma_groups_fit_prefix(rows, k, n - 1);
    }
}

/// Rows of at most half of `u32::MAX` always group within `u32`.
pub proof fn lemma_half_rows_fit(rows: Seq<u32>)
    requires
        forall|i: int| 0 <= i < rows.len() ==> rows[i] <= u32::MAX / 2,
    ensures
        line_centers_fit(rows),
{
    lemma_half_rows_groups_fit(rows, rows.len() as int);
    lemma_group_fold(rows, rows.len() as int);
}

proof fn lemma_half_rows_groups_fit(rows: Seq<u32>, k: int)
    requires
        0 <= k <= rows.len(),
        forall|i: int| 0 <= i < rows.len() ==> rows[i] <= u32::MAX / 2,
    ensures
        groups_fit(rows, k),
    decreases k,
{
    if k > 0 {
        lemma_half_rows_groups_fit(rows, k - 1);
        lemma_group_fold(rows, k - 1);
    }
}

/// Whether grouping `rows` into lines stays within `u32`, as
/// `line_centers_fit` states it.
pub fn line_centers_fit_exec(rows: &[u32]) -> (r: bool)
    ensures
        r == line_centers_fit(rows@),
{
    let mut start: Option<u32> = None;
    let mut previous: Option<u32> = None;
    let mut i: usize = 0;
    while i < rows.len()
        invariant
            i <= rows@.len(),
            groups_fit(rows@, i as int),
            start == group_fold(rows@, i as int).1,
            previous == group_fold(rows@, i as int).2,
        decreases rows@.len() - i,
    {
        proof {
            lemma_group_fold(rows@, i as int);
        }
        let row = rows[i];
        match (start, previous) {
            (Some(s), Some(p)) => {
                if (p as u64) + 2 > (u32::MAX as u64) {
                    proof {
                        lemma_groups_fit_prefix_fails(rows@, i + 1, rows@.len() as int);
                    }
                    return false;
                }
                if row <= p + 2 {
                    previous = Some(row);
                } else {
                    if (s as u64) + (p as u64) > (u32::MAX as u64) {
                        proof {
                            lemma_groups_fit_prefix_fails(rows@, i + 1, rows@.len() as int);
                        }
                        return false;
                    }
                    start = Some(row);
                    previous = Some(row);
                }
            },
            _ => {
                start = Some(row);
                previous = Some(row);
            },
        }
        i = i + 1;
    }
    proof {
        lemma_group_fold(rows@, rows@.len() as int);
    }
    match (start, previous) {
        (Some(s), Some(p)) => (s as u64) + (p as u64) <= (u32::MAX as u64),
        _ => true,
    }
}

proof fn lemma_groups_fit_prefix_fails(rows: Seq<u32>, k: int, n: int)
    requires
        0 <= k <= n,
        !groups_fit(rows, k),
    ensures
        !line_centers_fit(rows) || n != rows.len(),
{
    if n == rows.len() && groups_fit(rows, n) {
        lemma_groups_fit_prefix(rows, k, n);
    }
}

/// The runs of the first `k` rows, as pairs of first and last index: a run
/// starts at the first row and wherever a row lies more than two below
/// the one before it.
pub open spec fn row_runs(rows: Seq<u32>, k: int) -> Seq<(int, int)>
    decreases k,
{
    if k <= 0 {
        Seq::empty()
    } else {
        let prev = row_runs(rows, k - 1);
        if k == 1 || rows[k - 1] > rows[k - 2] + 2 {
            prev.push((k - 1, k - 1))
        } else {
            prev.update(prev.len() - 1, (prev.last().0, k - 1))
        }
    }
}

/// The centre of a run: halfway between its first and last row.
pub open spec fn run_center(rows: Seq<u32>, run: (int, int)) -> u32 {
    ((rows[run.0] + rows[run.1]) / 2) as u32
}

proof fn lemma_group_fold_runs(rows: Seq<u32>, k: int)
    requires
        0 <= k <= rows.len(),
    ensures
        ({
            let runs = row_runs(rows, k);
            let (c, start, prev) = group_fold(rows, k);
            &&& k == 0 ==> runs.len() == 0 && start is None && prev is None && c.len() == 0
            &&& k > 0 ==> {
                &&& runs.len() >= 1
                &&& runs.last().1 == k - 1
                &&& 0 <= runs.last().0 <= k - 1
                &&& start == Some(rows[runs.last().0])
                &&& prev == Some(rows[k - 1])
                &&& c == runs.drop_last().map_values(|r: (int, int)| run_center(rows, r))
            }
            &&& runs.len() <= k
            &&& forall|r: int|
                0 <= r < runs.len() ==> 0 <= (#[trigger] runs[r]).0 <= runs[r].1 < k
            &&& forall|r: int| 0 < r < runs.len() ==> (#[trigger] runs[r]).0 == runs[r - 1].1 + 1
            &&& forall|r: int| 0 < r < runs.len() ==> rows[(#[trigger] runs[r]).0] > rows[runs[r - 1].1] + 2
        }),
    decreases k,
{
    if k > 0 {
        lemma_group_fold_runs(rows, k - 1);
        let runs0 = row_runs(rows, k - 1);
        let runs = row_runs(rows, k);
        let (c0, s0, p0) = group_fold(rows, k - 1);
        if k == 1 || rows[k - 1] > rows[k - 2] + 2 {
            if k > 1 {
                assert(runs0.push((k - 1, k - 1)).drop_last() =~= runs0);
                assert(runs0 =~= runs0.drop_last().push(runs0.last()));
                assert(c0.push(run_center(rows, runs0.last())) =~= runs0.map_values(
                    |r: (int, int)| run_center(rows, r),
                ));
            } else {
                assert(runs.drop_last() =~= Seq::<(int, int)>::empty());
            }
        } else {
            assert(runs.drop_last() =~= runs0.drop_last());
        }
    }
}

/// The centres of the grouped lines: one per run of rows (a run ending
/// where the next row lies more than two below), halfway between its first
/// and last row, in order; there are at most as many as rows, and none
/// exactly when there are no rows. For rows in increasing order the
/// centres increase too.
pub proof fn law_line_centers_of_runs(rows: Seq<u32>)
    ensures
        line_centers(rows) == row_runs(rows, rows.len() as int).map_values(
            |r: (int, int)| run_center(rows, r),
        ),
        line_centers(rows).len() <= rows.len(),
        (line_centers(rows).len() == 0) == (rows.len() == 0),
        (forall|i: int, j: int| 0 <= i < j < rows.len() ==> rows[i] < rows[j]) ==> (forall|
            i: int,
            j: int,
        | 0 <= i < j < line_centers(rows).len() ==> line_centers(rows)[i] < line_centers(rows)[j]),
{
    lemma_line_centers_runs(rows);
    if forall|i: int, j: int| 0 <= i < j < rows.len() ==> rows[i] < rows[j] {
        lemma_centers_increase(rows);
    }
}

proof fn lemma_line_centers_runs(rows: Seq<u32>)
    ensures
        line_centers(rows) == row_runs(rows, rows.len() as int).map_values(
            |r: (int, int)| run_center(rows, r),
        ),
        line_centers(rows).len() <= rows.len(),
        (line_centers(rows).len() == 0) == (rows.len() == 0),
{
    let n = rows.len() as int;
    lemma_group_fold_runs(rows, n);
    let runs = row_runs(rows, n);
    if n > 0 {
        assert(runs =~= runs.drop_last().push(runs.last()));
    }
    assert(line_centers(rows) =~= runs.map_values(|r: (int, int)| run_center(rows, r)));
}

proof fn lemma_center_within(rows: Seq<u32>, a: int, b: int)
    requires
        0 <= a <= b < rows.len(),
        rows[a] <= rows[b],
    ensures
        rows[a] <= run_center(rows, (a, b)) <= rows[b],
{
}

proof fn lemma_centers_increase(rows: Seq<u32>)
    requires
        forall|i: int, j: int| 0 <= i < j < rows.len() ==> rows[i] < rows[j],
    ensures
        forall|i: int, j: int|
            0 <= i < j < line_centers(rows).len() ==> line_centers(rows)[i] < line_centers(rows)[j],
{
    let n = rows.len() as int;
    lemma_group_fold_runs(rows, n);
    lemma_line_centers_runs(rows);
    let runs = row_runs(rows, n);
    let cs = line_centers(rows);
    assert forall|i: int, j: int| 0 <= i < j < cs.len() implies cs[i] < cs[j] by {
        let (ai, bi) = runs[i];
        let (aj, bj) = runs[j];
        lemma_runs_ordered(rows, runs, i, j - 1);
        assert(aj == runs[j - 1].1 + 1);
        assert(bi < aj);
        if ai < bi {
            assert(rows[ai] < rows[bi]);
        }
        if aj < bj {
            assert(rows[aj] < rows[bj]);
        }
        assert(rows[bi] < rows[aj]);
        lemma_center_within(rows, ai, bi);
        lemma_center_within(rows, aj, bj);
        assert(cs[i] == run_center(rows, runs[i]));
        assert(cs[j] == run_center(rows, runs[j]));
    }
}

proof fn lemma_runs_ordered(rows: Seq<u32>, runs: Seq<(int, int)>, i: int, j: int)
    requires
        0 <= i <= j < runs.len(),
        forall|r: int| 0 <= r < runs.len() ==> (#[trigger] runs[r]).0 <= runs[r].1,
        forall|r: int| 0 < r < runs.len() ==> (#[trigger] runs[r]).0 == runs[r - 1].1 + 1,
    ensures
        runs[i].1 <= runs[j].1,
    decreases j - i,
{
    if i < j {
        lemma_runs_ordered(rows, runs, i, j - 1);
        assert(runs[j].0 == runs[j - 1].1 + 1);
    }
}

/// The centres of the groups of detected line rows: consecutive rows at
/// most two apart form one line, whose centre is halfway between its first
/// and last row.
pub fn grouped_line_centers(rows: &[u32]) -> (r: Vec<u32>)
    requires
        line_centers_fit(rows@),
    ensures
        r@ == line_centers(rows@),
{
    let mut centers: Vec<u32> = Vec::new();
    let mut current_start: Option<u32> = None;
    let mut previous: Option<u32> = None;
    let mut i: usize = 0;
    while i < rows.len()
        invariant
            i <= rows@.len(),
            line_centers_fit(rows@),
            (centers@, current_start, previous) == group_fold(rows@, i as int),
        decreases rows@.len() - i,
    {
        proof {
            lemma_group_fold(rows@, i as int);
            lemma_groups_fit_prefix(rows@, i + 1, rows@.len() as int);
        }
        let row = rows[i];
        match (current_start, previous) {
            (Some(start), Some(prev)) => {
                if row <= prev + 2 {
                    previous = Some(row);
                } else {
                    centers.push((start + prev) / 2);
                    current_start = Some(row);
                    previous = Some(row);
                }
            },
            _ => {
                current_start = Some(row);
                previous = Some(row);
            },
        }
        i = i + 1;
    }
    proof {
        lemma_group_fold(rows@, rows@.len() as int);
    }
    match (current_start, previous) {
        (Some(start), Some(prev)) => {
            centers.push((start + prev) / 2);
        },
        _ => {},
    }
    centers
}

/// The padding added on each side of the band from `top` to `bottom`: a
/// tenth of its height, at least two pixels.
pub open spec fn band_padding(top: u32, bottom: u32) -> int {
    let d = if bottom > top {
        (bottom - top) as int
    } else {
        0
    };
    if d / 10 > 2 {
        d / 10
    } else {
        2
    }
}

/// The band from `top` to `bottom` widened by a tenth of its height (at
/// least two pixels) on each side, kept within `height`.
pub open spec fn padded(top: u32, bottom: u32, height: u32) -> (u32, u32) {
    let padding = band_padding(top, bottom);
    let t = if top > padding {
        top - padding
    } else {
        0
    };
    let b = bottom + padding;
    ((if t < height {
        t
    } else {
        height as int
    }) as u32, (if b < height {
        b
    } else {
        height as int
    }) as u32)
}

/// The band from `top` to `bottom` widened by a tenth of its height (at
/// least two pixels) on each side, kept within `height`.
pub fn padded_band(top: u32, bottom: u32, height: u32) -> (r: (u32, u32))
    requires
        bottom + band_padding(top, bottom) <= u32::MAX,
    ensures
        r == padded(top, bottom, height),
{
    let d = if bottom > top {
        bottom - top
    } else {
        0
    };
    let padding = if d / 10 > 2 {
        d / 10
    } else {
        2
    };
    let t = if top > padding {
        top - padding
    } else {
        0
    };
    let b = bottom + padding;
    (if t < height {
        t
    } else {
        height
    }, if b < height {
        b
    } else {
        height
    })
}

/// The colour channels of a pixel mixed with `color` at opacity
/// `alpha`/255.
pub open spec fn blended(p: u8, c: u8, alpha: u16) -> u8 {
    ((p * (255 - alpha) + c * alpha) / 255) as u8
}

/// Mixes the first three channels of `pixel` with `color` at opacity
/// `alpha` out of 255.
pub fn blend_pixel(pixel: &mut [u8], color: [u8; 3], alpha: u16)
    requires
        old(pixel)@.len() >= 3,
        alpha <= 255,
    ensures
        final(pixel)@.len() == old(pixel)@.len(),
        forall|i: int| 0 <= i < 3 ==> final(pixel)@[i] == blended(old(pixel)@[i], color@[i], alpha),
        forall|i: int| 3 <= i < old(pixel)@.len() ==> final(pixel)@[i] == old(pixel)@[i],
{
    let mut channel: usize = 0;
    while channel < 3
        invariant
            channel <= 3,
            alpha <= 255,
            old(pixel)@.len() >= 3,
            pixel@.len() == old(pixel)@.len(),
            forall|i: int| 0 <= i < channel ==> pixel@[i] == blended(old(pixel)@[i], color@[i], alpha),
            forall|i: int| channel <= i < pixel@.len() ==> pixel@[i] == old(pixel)@[i],
        decreases 3 - channel,
    {
        let mixed = blend_channel(pixel[channel], color[channel], alpha);
        pixel[channel] = mixed;
        channel = channel + 1;
    }
}

/// One colour channel `p` mixed with `c` at opacity `alpha` out of 255.
pub fn blend_channel(p: u8, c: u8, alpha: u16) -> (r: u8)
    requires
        alpha <= 255,
    ensures
        r == blended(p, c, alpha),
{
    let p = p as u16;
    let c = c as u16;
    assert(p * (255 - alpha) <= 255 * 255) by (nonlinear_arith)
        requires
            p <= 255,
            alpha <= 255,
    ;
    assert(c * alpha <= 255 * 255 - p * (255 - alpha)) by (nonlinear_arith)
        requires
            p <= 255,
            c <= 255,
            alpha <= 255,
    ;
    let mixed = (p * (255 - alpha) + c * alpha) / 255;
    mixed as u8
}

/// The spacings between consecutive lines among the first `k`, leaving out
/// pairs where the second line is above the first.
pub open spec fn spacings_upto(lines: Seq<u32>, k: int) -> Seq<u32>
    decreases k,
{
    if k <= 1 {
        Seq::empty()
    } else {
        let prev = spacings_upto(lines, k - 1);
        if lines[k - 1] >= lines[k - 2] {
            prev.push((lines[k - 1] - lines[k - 2]) as u32)
        } else {
            prev
        }
    }
}

/// The order of `u32` values.
pub open spec fn le_u32() -> spec_fn(u32, u32) -> bool {
    |a: u32, b: u32| a <= b
}

/// The median spacing between lines: the lower middle of the sorted
/// spacings, or 1 when there is none.
pub open spec fn median_of(lines: Seq<u32>) -> u32 {
    let s = spacings_upto(lines, lines.len() as int).sort_by(le_u32());
    if s.len() == 0 {
        1
    } else {
        s[(s.len() - 1) / 2]
    }
}

proof fn lemma_le_u32_total()
    ensures
        vstd::relations::total_ordering(le_u32()),
{
    let f = le_u32();
    assert(vstd::relations::reflexive(f));
    assert(vstd::relations::antisymmetric(f));
    assert(vstd::relations::transitive(f));
    assert(vstd::relations::strongly_connected(f));
}

/// `v` sorted in increasing order.
fn sort_u32(v: &Vec<u32>) -> (r: Vec<u32>)
    ensures
        r@ == v@.sort_by(le_u32()),
{
    broadcast use vstd::seq_lib::group_to_multiset_ensures;
    let mut out: Vec<u32> = Vec::new();
    let mut i: usize = 0;
    while i < v.len()
        invariant
            i <= v.len(),
            vstd::relations::sorted_by(out@, le_u32()),
            out@.to_multiset() == v@.take(i as int).to_multiset(),
        decreases v.len() - i,
    {
        let x = v[i];
        let mut p: usize = 0;
        while p < out.len() && out[p] <= x
            invariant
                p <= out.len(),
                forall|j: int| 0 <= j < p ==> out@[j] <= x,
            decreases out.len() - p,
        {
            p = p + 1;
        }
        let ghost o = out@;
        out.insert(p, x);
        proof {
            assert(out@ == o.insert(p as int, x));
            vstd::seq_lib::to_multiset_insert(o, p as int, x);
            assert(v@.take(i + 1) =~= v@.take(i as int).push(x));
            vstd::seq_lib::to_multiset_build(v@.take(i as int), x);
            assert(forall|j: int| p <= j < o.len() ==> x < o[j]) by {
                if p < o.len() {
                    assert(x < o[p as int]);
                    assert forall|j: int| p <= j < o.len() implies x < o[j] by {
                        assert(le_u32()(o[p as int], o[j]) || j == p);
                    }
                }
            }
            assert(vstd::relations::sorted_by(out@, le_u32())) by {
                assert forall|a: int, b: int| 0 <= a < b < out@.len() implies #[trigger] le_u32()(
                    out@[a],
                    out@[b],
                ) by {
                    if b < p {
                        assert(le_u32()(o[a], o[b]));
                    } else if b == p {
                        assert(out@[a] == o[a]);
                    } else if a < p {
                        assert(out@[b] == o[b - 1]);
                    } else if a == p {
                        assert(out@[b] == o[b - 1]);
                    } else {
                        assert(le_u32()(o[a - 1], o[b - 1]));
                    }
                }
            }
        }
        i = i + 1;
    }
    proof {
        assert(v@.take(v.len() as int) =~= v@);
        lemma_le_u32_total();
        v@.lemma_sort_by_ensures(le_u32());
        vstd::seq_lib::lemma_sorted_unique(out@, v@.sort_by(le_u32()), le_u32());
    }
    out
}

/// The typical spacing between detected lines: the lower median of the
/// spacings between consecutive lines, or 1 when there are none.
pub fn median_spacing(lines: &[u32]) -> (r: u32)
    ensures
        r == median_of(lines@),
{
    let n = lines.len();
    let mut spacings: Vec<u32> = Vec::new();
    if n >= 2 {
        let mut k: usize = 1;
        while k < n
            invariant
                1 <= k <= n,
                n == lines@.len(),
                spacings@ == spacings_upto(lines@, k as int),
            decreases n - k,
        {
            if lines[k] >= lines[k - 1] {
                spacings.push(lines[k] - lines[k - 1]);
            }
            k = k + 1;
        }
    } else {
        assert(spacings@ =~= spacings_upto(lines@, n as int));
    }
    let sorted = sort_u32(&spacings);
    if sorted.len() == 0 {
        1
    } else {
        sorted[(sorted.len() - 1) / 2]
    }
}

} // verus!
