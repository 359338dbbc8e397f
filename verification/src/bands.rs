//! Row bands of the scanned tables: the pixel rows each table row covers,
//! taken from the detected ruling lines or, when too few were found, from
//! the usual position of the rows on the form.
use vstd::prelude::*;
use crate::layout::{band_padding, median_of, median_spacing, padded, padded_band};

verus! {

/// How many row heights below the bottom of the last vote row summary line
/// `j` starts (`j` is 0 for `E`, 1 for `F`, 2 for `G`, 3 for `H`): `E`,
/// `F` and `G` follow one empty row down, `H` one row further.
pub open spec fn summary_row_offset(j: int) -> int {
    if j == 3 {
        5
    } else {
        j + 1
    }
}

/// The band of summary line `j` below a last vote row ending at
/// `last_bottom`, rows being `rh` pixels high.
pub open spec fn summary_band(last_bottom: int, rh: int, j: int, height: u32) -> (u32, u32) {
    padded(
        (last_bottom + rh * summary_row_offset(j)) as u32,
        (last_bottom + rh * (summary_row_offset(j) + 1)) as u32,
        height,
    )
}

/// The four summary bands (`E`, `F`, `G`, `H`).
pub open spec fn summary_bands(last_bottom: int, rh: int, height: u32) -> Seq<(u32, u32)> {
    Seq::new(4, |j: int| summary_band(last_bottom, rh, j, height))
}

/// The height of a row given a measured height: at least one pixel.
pub open spec fn at_least_one(raw: int) -> int {
    if raw > 1 {
        raw
    } else {
        1
    }
}

/// The row height measured from detected lines: the median spacing of the
/// first 21 lines, at least one pixel.
pub open spec fn line_spacing(lines: Seq<u32>) -> int {
    at_least_one(median_of(lines.take(21)) as int)
}

/// The bands of the 24 vote rows, in slot order, from at least 21 detected
/// lines: `E.k` lies between lines `k - 1` and `k`, the summary rows are
/// spaced by the median line spacing below line 20.
pub open spec fn line_row_bands(lines: Seq<u32>, height: u32) -> Seq<(u32, u32)> {
    Seq::new(20, |i: int| padded(lines[i], lines[i + 1], height)) + summary_bands(
        lines[20] as int,
        line_spacing(lines),
        height,
    )
}

/// The bands from detected lines stay within `u32`.
pub open spec fn line_bands_fit(lines: Seq<u32>) -> bool {
    &&& lines.len() >= 21
    &&& forall|k: int|
        0 <= k < 20 ==> lines[k + 1] + #[trigger] band_padding(lines[k], lines[k + 1]) <= u32::MAX
    &&& lines[20] + line_spacing(lines) * 6 + band_padding(0, line_spacing(lines) as u32)
        <= u32::MAX
}

/// The bands of the 24 vote rows, in slot order, when the lines could not
/// be detected: `E.1` starts at `e_top` and rows are `raw` pixels high (at
/// least one).
pub open spec fn fallback_row_bands(e_top: u32, raw: u32, height: u32) -> Seq<(u32, u32)> {
    let rh = at_least_one(raw as int);
    Seq::new(
        20,
        |i: int| padded((e_top + rh * i) as u32, (e_top + rh * (i + 1)) as u32, height),
    ) + summary_bands(e_top + rh * 20, rh, height)
}

/// The fallback bands stay within `u32`.
pub open spec fn fallback_bands_fit(e_top: u32, raw: u32) -> bool {
    let rh = at_least_one(raw as int);
    e_top + rh * 26 + band_padding(0, rh as u32) <= u32::MAX
}

/// Appends the bands of the summary lines below a last vote row ending at
/// `last_bottom`.
fn push_summary_bands(bands: &mut Vec<(u32, u32)>, last_bottom: u32, rh: u32, height: u32)
    requires
        rh >= 1,
        last_bottom + rh * 6 + band_padding(0, rh) <= u32::MAX,
    ensures
        final(bands)@ == old(bands)@ + summary_bands(last_bottom as int, rh as int, height),
{
    let ghost start = bands@;
    let b1 = last_bottom + rh;
    let b2 = b1 + rh;
    let b3 = b2 + rh;
    let b4 = b3 + rh;
    let b5 = b4 + rh;
    let b6 = b5 + rh;
    assert(band_padding(b1, b2) == band_padding(0, rh));
    assert(band_padding(b2, b3) == band_padding(0, rh));
    assert(band_padding(b3, b4) == band_padding(0, rh));
    assert(band_padding(b5, b6) == band_padding(0, rh));
    bands.push(padded_band(b1, b2, height));
    bands.push(padded_band(b2, b3, height));
    bands.push(padded_band(b3, b4, height));
    bands.push(padded_band(b5, b6, height));
    assert(bands@ =~= start + summary_bands(last_bottom as int, rh as int, height)) by {
        let s = summary_bands(last_bottom as int, rh as int, height);
        let r = rh as int;
        assert(r * summary_row_offset(0) == r && r * (summary_row_offset(0) + 1) == r + r)
            by (nonlinear_arith);
        assert(r * summary_row_offset(1) == r + r && r * (summary_row_offset(1) + 1) == r + r + r)
            by (nonlinear_arith);
        assert(r * summary_row_offset(2) == r + r + r && r * (summary_row_offset(2) + 1) == r + r
            + r + r) by (nonlinear_arith);
        assert(r * summary_row_offset(3) == r + r + r + r + r && r * (summary_row_offset(3) + 1)
            == r + r + r + r + r + r) by (nonlinear_arith);
        assert(s[0] == padded(b1, b2, height));
        assert(s[1] == padded(b2, b3, height));
        assert(s[2] == padded(b3, b4, height));
        assert(s[3] == padded(b5, b6, height));
    }
}

proof fn lemma_row_offsets(rh: int, i: int)
    requires
        rh >= 1,
        0 <= i < 20,
    ensures
        rh * (i + 1) == rh * i + rh,
        rh * i + rh <= rh * 20,
        rh * 20 + rh * 6 == rh * 26,
{
    assert(rh * (i + 1) == rh * i + rh) by (nonlinear_arith);
    assert(rh * (i + 1) <= rh * 20) by (nonlinear_arith)
        requires
            rh >= 1,
            i + 1 <= 20,
    ;
}

/// Appends the bands of the 24 vote rows at their usual place on the form,
/// for when the table lines could not be detected: the first vote row at
/// `e_top`, rows `e_row_height` pixels high (at least one).
pub fn insert_fallback_row_bands(
    bands: &mut Vec<(u32, u32)>,
    height: u32,
    e_top: u32,
    e_row_height: u32,
)
    requires
        fallback_bands_fit(e_top, e_row_height),
    ensures
        final(bands)@ == old(bands)@ + fallback_row_bands(e_top, e_row_height, height),
{
    let ghost start = bands@;
    let ghost all = fallback_row_bands(e_top, e_row_height, height);
    let rh: u32 = if e_row_height > 1 {
        e_row_height
    } else {
        1
    };
    let mut index: u32 = 0;
    let mut top: u32 = e_top;
    while index < 20
        invariant
            rh as int == at_least_one(e_row_height as int),
            index <= 20,
            top == e_top + rh * index,
            fallback_bands_fit(e_top, e_row_height),
            all == fallback_row_bands(e_top, e_row_height, height),
            bands@ == start + all.take(index as int),
        decreases 20 - index,
    {
        proof {
            lemma_row_offsets(rh as int, index as int);
        }
        let bottom = top + rh;
        assert(band_padding(top, bottom) == band_padding(0, rh));
        bands.push(padded_band(top, bottom, height));
        proof {
            assert(all[index as int] == padded(top, bottom, height));
            assert(bands@ =~= start + all.take(index + 1));
        }
        top = bottom;
        index = index + 1;
    }
    proof {
        lemma_row_offsets(rh as int, 19);
    }
    push_summary_bands(bands, top, rh, height);
    assert(bands@ =~= start + all);
}

/// The first `n` values of `lines`.
fn first_values(lines: &[u32], n: usize) -> (r: Vec<u32>)
    requires
        n <= lines@.len(),
    ensures
        r@ == lines@.take(n as int),
{
    let mut out: Vec<u32> = Vec::new();
    let mut i: usize = 0;
    while i < n
        invariant
            i <= n <= lines@.len(),
            out@ == lines@.take(i as int),
        decreases n - i,
    {
        out.push(lines[i]);
        i = i + 1;
        assert(out@ =~= lines@.take(i as int));
    }
    out
}

/// The bands of the 24 vote rows of a results table, in slot order (`E.1`
/// to `E.20`, `E`, `F`, `G`, `H`). With at least 21 detected ruling
/// `lines`, vote row `E.k` lies between lines `k - 1` and `k` and the
/// summary rows are spaced by the median line spacing below line 20;
/// otherwise the rows are put at their usual place: the first at
/// `fallback_top`, `fallback_row_height` pixels high.
pub fn result_row_bands(lines: &[u32], height: u32, fallback_top: u32, fallback_row_height: u32) -> (r:
    Vec<(u32, u32)>)
    requires
        lines@.len() >= 21 ==> line_bands_fit(lines@),
        lines@.len() < 21 ==> fallback_bands_fit(fallback_top, fallback_row_height),
    ensures
        r@ == if lines@.len() >= 21 {
            line_row_bands(lines@, height)
        } else {
            fallback_row_bands(fallback_top, fallback_row_height, height)
        },
{
    let mut bands: Vec<(u32, u32)> = Vec::new();
    if lines.len() >= 21 {
        let first = first_values(lines, 21);
        let m = median_spacing(first.as_slice());
        let rh: u32 = if m > 1 {
            m
        } else {
            1
        };
        assert(rh as int == line_spacing(lines@));
        let ghost all = line_row_bands(lines@, height);
        let mut k: usize = 0;
        while k < 20
            invariant
                k <= 20,
                lines@.len() >= 21,
                line_bands_fit(lines@),
                all == line_row_bands(lines@, height),
                bands@ == all.take(k as int),
            decreases 20 - k,
        {
            bands.push(padded_band(lines[k], lines[k + 1], height));
            proof {
                assert(all[k as int] == padded(lines@[k as int], lines@[k + 1], height));
                assert(bands@ =~= all.take(k + 1));
            }
            k = k + 1;
        }
        push_summary_bands(&mut bands, lines[20], rh, height);
        assert(bands@ =~= all);
    } else {
        insert_fallback_row_bands(&mut bands, height, fallback_top, fallback_row_height);
        assert(bands@ =~= fallback_row_bands(fallback_top, fallback_row_height, height));
    }
    bands
}

/// The bands of the first `row_count` rows of a correction table: between
/// consecutive detected ruling lines when there are more lines than rows,
/// otherwise at their usual place, the first at `row_top` and `raw` pixels
/// high (at least one).
pub open spec fn correction_bands(
    lines: Seq<u32>,
    row_count: nat,
    height: u32,
    row_top: u32,
    raw: u32,
) -> Seq<(u32, u32)> {
    if lines.len() > row_count {
        Seq::new(row_count, |i: int| padded(lines[i], lines[i + 1], height))
    } else {
        let rh = at_least_one(raw as int);
        Seq::new(
            row_count,
            |i: int| padded((row_top + rh * i) as u32, (row_top + rh * (i + 1)) as u32, height),
        )
    }
}

/// The correction table bands stay within `u32`.
pub open spec fn correction_bands_fit(lines: Seq<u32>, row_count: nat, row_top: u32, raw: u32) -> bool {
    if lines.len() > row_count {
        forall|k: int|
            0 <= k < row_count ==> lines[k + 1] + #[trigger] band_padding(lines[k], lines[k + 1]) <= u32::MAX
    } else {
        let rh = at_least_one(raw as int);
        row_count == 0 || row_top + rh * row_count + band_padding(0, rh as u32) <= u32::MAX
    }
}

proof fn lemma_fallback_row(rh: int, i: int, n: int)
    requires
        rh >= 1,
        0 <= i < n,
    ensures
        rh * (i + 1) == rh * i + rh,
        rh * (i + 1) <= rh * n,
{
    assert(rh * (i + 1) == rh * i + rh) by (nonlinear_arith);
    assert(rh * (i + 1) <= rh * n) by (nonlinear_arith)
        requires
            rh >= 1,
            i + 1 <= n,
    ;
}

/// The bands of the `row_count` rows of a correction table: between
/// consecutive detected ruling `lines` when there are more lines than rows,
/// otherwise at their usual place, the first at `row_top` and
/// `row_height` pixels high (at least one).
pub fn correction_table_row_bands(
    lines: &[u32],
    row_count: usize,
    height: u32,
    row_top: u32,
    row_height: u32,
) -> (r: Vec<(u32, u32)>)
    requires
        correction_bands_fit(lines@, row_count as nat, row_top, row_height),
    ensures
        r@ == correction_bands(lines@, row_count as nat, height, row_top, row_height),
{
    let ghost all = correction_bands(lines@, row_count as nat, height, row_top, row_height);
    let mut bands: Vec<(u32, u32)> = Vec::new();
    if lines.len() > row_count {
        let mut k: usize = 0;
        while k < row_count
            invariant
                k <= row_count < lines@.len(),
                correction_bands_fit(lines@, row_count as nat, row_top, row_height),
                all == correction_bands(lines@, row_count as nat, height, row_top, row_height),
                bands@ == all.take(k as int),
            decreases row_count - k,
        {
            bands.push(padded_band(lines[k], lines[k + 1], height));
            proof {
                assert(all[k as int] == padded(lines@[k as int], lines@[k + 1], height));
                assert(bands@ =~= all.take(k + 1));
            }
            k = k + 1;
        }
    } else {
        let rh: u32 = if row_height > 1 {
            row_height
        } else {
            1
        };
        let mut k: usize = 0;
        let mut top: u32 = row_top;
        while k < row_count
            invariant
                rh as int == at_least_one(row_height as int),
                k <= row_count,
                lines@.len() <= row_count,
                top == row_top + rh * k,
                correction_bands_fit(lines@, row_count as nat, row_top, row_height),
                all == correction_bands(lines@, row_count as nat, height, row_top, row_height),
                bands@ == all.take(k as int),
            decreases row_count - k,
        {
            proof {
                lemma_fallback_row(rh as int, k as int, row_count as int);
            }
            let bottom = top + rh;
            assert(band_padding(top, bottom) == band_padding(0, rh));
            bands.push(padded_band(top, bottom, height));
            proof {
                assert(all[k as int] == padded(top, bottom, height));
                assert(bands@ =~= all.take(k + 1));
            }
            top = bottom;
            k = k + 1;
        }
    }
    assert(bands@ =~= all);
    bands
}

/// The padding of the band from `top` to `bottom`, as `band_padding`
/// states it.
fn band_padding_exec(top: u32, bottom: u32) -> (r: u64)
    ensures
        r == band_padding(top, bottom),
{
    let d: u64 = if bottom > top {
        (bottom - top) as u64
    } else {
        0
    };
    if d / 10 > 2 {
        d / 10
    } else {
        2
    }
}

/// Whether the bands of the first `n` gaps between consecutive `lines`
/// stay within `u32`.
fn gap_bands_fit(lines: &[u32], n: usize) -> (r: bool)
    requires
        n < lines@.len(),
    ensures
        r == forall|k: int|
            0 <= k < n ==> lines@[k + 1] + #[trigger] band_padding(lines@[k], lines@[k + 1])
                <= u32::MAX,
{
    let mut k: usize = 0;
    while k < n
        invariant
            k <= n < lines@.len(),
            forall|j: int|
                0 <= j < k ==> lines@[j + 1] + #[trigger] band_padding(lines@[j], lines@[j + 1])
                    <= u32::MAX,
        decreases n - k,
    {
        let pad = band_padding_exec(lines[k], lines[k + 1]);
        if (lines[k + 1] as u64) + pad > (u32::MAX as u64) {
            assert(lines@[k + 1] + band_padding(lines@[k as int], lines@[k + 1]) > u32::MAX);
            return false;
        }
        k = k + 1;
    }
    true
}

/// Whether `result_row_bands` can lay out the vote rows from `lines`, or
/// from the usual place at `fallback_top` and `fallback_row_height`,
/// within `u32`: what it requires.
pub fn row_bands_fit(lines: &[u32], fallback_top: u32, fallback_row_height: u32) -> (r: bool)
    ensures
        r == ((lines@.len() >= 21 ==> line_bands_fit(lines@)) && (lines@.len() < 21
            ==> fallback_bands_fit(fallback_top, fallback_row_height))),
{
    if lines.len() >= 21 {
        if !gap_bands_fit(lines, 20) {
            return false;
        }
        let first = first_values(lines, 21);
        let m = median_spacing(first.as_slice());
        let rh: u32 = if m > 1 {
            m
        } else {
            1
        };
        assert(rh as int == line_spacing(lines@));
        let pad = band_padding_exec(0, rh);
        (lines[20] as u64) + (rh as u64) * 6 + pad <= (u32::MAX as u64)
    } else {
        let rh: u32 = if fallback_row_height > 1 {
            fallback_row_height
        } else {
            1
        };
        let pad = band_padding_exec(0, rh);
        (fallback_top as u64) + (rh as u64) * 26 + pad <= (u32::MAX as u64)
    }
}

/// Whether `correction_table_row_bands` can lay out `row_count` rows
/// within `u32`: what it requires.
pub fn correction_row_bands_fit(lines: &[u32], row_count: usize, row_top: u32, row_height: u32) -> (r:
    bool)
    ensures
        r == correction_bands_fit(lines@, row_count as nat, row_top, row_height),
{
    if lines.len() > row_count {
        gap_bands_fit(lines, row_count)
    } else {
        let rh: u32 = if row_height > 1 {
            row_height
        } else {
            1
        };
        let pad = band_padding_exec(0, rh);
        assert((rh as u128) * (row_count as u128) <= 0x1_0000_0000u128 * 0x1_0000_0000_0000_0000u128)
            by (nonlinear_arith)
            requires
                (rh as u128) < 0x1_0000_0000u128,
                (row_count as u128) < 0x1_0000_0000_0000_0000u128,
        ;
        row_count == 0 || (row_top as u128) + (rh as u128) * (row_count as u128) + (pad as u128)
            <= (u32::MAX as u128)
    }
}

/// How many row heights below the top of `E.1` vote row `i` starts in the
/// usual layout: `E.k` at `k - 1`, `E`, `F`, `G` one empty row below
/// `E.20`, `H` one row further.
pub open spec fn fallback_offset(i: int) -> int {
    if i < 20 {
        i
    } else if i < 23 {
        i + 1
    } else {
        25
    }
}

proof fn lemma_padded_shape(top: u32, bottom: u32, height: u32)
    requires
        top <= bottom,
    ensures
        padded(top, bottom, height).0 <= padded(top, bottom, height).1 <= height,
{
}

proof fn lemma_fallback_band(e_top: u32, raw: u32, height: u32, i: int)
    requires
        fallback_bands_fit(e_top, raw),
        0 <= i < 24,
    ensures
        ({
            let rh = at_least_one(raw as int);
            let top = e_top + rh * fallback_offset(i);
            &&& 0 <= top
            &&& top + rh <= u32::MAX
            &&& fallback_row_bands(e_top, raw, height)[i] == padded(
                top as u32,
                (top + rh) as u32,
                height,
            )
        }),
{
    let rh = at_least_one(raw as int);
    let off = fallback_offset(i);
    assert(0 <= off <= 25);
    assert(rh * off + rh <= rh * 26) by (nonlinear_arith)
        requires
            rh >= 1,
            0 <= off <= 25,
    ;
    assert(rh * off >= 0) by (nonlinear_arith)
        requires
            rh >= 1,
            0 <= off,
    ;
    assert(rh * (off + 1) == rh * off + rh) by (nonlinear_arith);
    if i >= 20 {
        let j = i - 20;
        assert(e_top + rh * 20 + rh * summary_row_offset(j) == e_top + rh * off) by (nonlinear_arith)
            requires
                off == 20 + summary_row_offset(j),
        ;
        assert(e_top + rh * 20 + rh * (summary_row_offset(j) + 1) == e_top + rh * off + rh)
            by (nonlinear_arith)
            requires
                off == 20 + summary_row_offset(j),
        ;
    }
}

/// The usual layout of the vote rows, used when too few lines were
/// detected, gives each of the 24 rows a band that ends at or below where
/// it starts and within the image, and the bands start in row order.
pub proof fn law_fallback_bands_ordered(e_top: u32, raw: u32, height: u32)
    requires
        fallback_bands_fit(e_top, raw),
    ensures
        fallback_row_bands(e_top, raw, height).len() == 24,
        forall|i: int|
            0 <= i < 24 ==> (#[trigger] fallback_row_bands(e_top, raw, height)[i]).0
                <= fallback_row_bands(e_top, raw, height)[i].1 <= height,
        forall|i: int, j: int|
            0 <= i <= j < 24 ==> (#[trigger] fallback_row_bands(e_top, raw, height)[i]).0
                <= (#[trigger] fallback_row_bands(e_top, raw, height)[j]).0,
{
    let rh = at_least_one(raw as int);
    let fb = fallback_row_bands(e_top, raw, height);
    assert forall|i: int| 0 <= i < 24 implies (#[trigger] fb[i]).0 <= fb[i].1 <= height by {
        lemma_fallback_band(e_top, raw, height, i);
        let top = e_top + rh * fallback_offset(i);
        lemma_padded_shape(top as u32, (top + rh) as u32, height);
    }
    assert forall|i: int, j: int| 0 <= i <= j < 24 implies (#[trigger] fb[i]).0 <= (#[trigger] fb[j]).0 by {
        lemma_fallback_band(e_top, raw, height, i);
        lemma_fallback_band(e_top, raw, height, j);
        let oi = fallback_offset(i);
        let oj = fallback_offset(j);
        assert(oi <= oj);
        assert(rh * oi <= rh * oj) by (nonlinear_arith)
            requires
                rh >= 1,
                oi <= oj,
        ;
    }
}

} // verus!
