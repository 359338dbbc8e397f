//! The value labels of the highlighted results table: for each row that
//! differs from the official result, the OCR value and the official value
//! written in two right-aligned columns in the right margin, under the
//! headers `OCR` and `OFFICIAL (CORRECTED)`.
use vstd::prelude::*;
use crate::canvas::{draw_bitmap_text, on_image, opaque, text_covers, text_fits, Canvas};
use crate::layout::{bitmap_text_width, text_advance};
use crate::text::{dec, strs};
use crate::textops::{dec_chars, from_chars};
use crate::votes::{lemma_find_vote_slot, vote_slot, VoteValues};

verus! {

broadcast use vstd::string::group_string_axioms;

/// A label to draw: its text, its top-left corner, its scale and colour.
pub struct TextPlacement {
    pub text: String,
    pub x: u32,
    pub y: u32,
    pub scale: u32,
    pub color: [u8; 3],
}

/// The text, corner, scale and colour of a placement.
pub open spec fn pview(p: TextPlacement) -> (Seq<char>, int, int, u32, [u8; 3]) {
    (p.text@, p.x as int, p.y as int, p.scale, p.color)
}

/// The colour of pixel (`px`, `py`) after drawing the first `k` labels:
/// that of the last one whose glyphs cover it, if any does.
pub open spec fn placement_color(
    ps: Seq<(Seq<char>, int, int, u32, [u8; 3])>,
    k: int,
    px: int,
    py: int,
) -> Option<[u8; 3]>
    decreases k,
{
    if k <= 0 {
        None
    } else if text_covers(ps[k - 1].0, ps[k - 1].1, ps[k - 1].2, ps[k - 1].3, ps[k - 1].0.len() as int, px, py) {
        Some(ps[k - 1].4)
    } else {
        placement_color(ps, k - 1, px, py)
    }
}

/// Every label of `ps` stays within `u32` where it is drawn.
pub open spec fn placements_fit(ps: Seq<(Seq<char>, int, int, u32, [u8; 3])>) -> bool {
    forall|i: int| 0 <= i < ps.len() ==> #[trigger] text_fits(ps[i].0, ps[i].1, ps[i].2, ps[i].3)
}

/// Draws the labels in order.
pub fn paint_placements(c: &mut Canvas, ps: &Vec<TextPlacement>)
    requires
        old(c).wf(),
        placements_fit(ps@.map_values(|p: TextPlacement| pview(p))),
    ensures
        final(c).wf(),
        final(c).same_size(old(c)),
        forall|px: int, py: int, ch: int|
            #![trigger final(c).at(px, py, ch)]
            on_image(old(c).width as int, old(c).height as int, px, py) && 0 <= ch < 4
                ==> final(c).at(px, py, ch) == match placement_color(
                ps@.map_values(|p: TextPlacement| pview(p)),
                ps@.len() as int,
                px,
                py,
            ) {
                Some(color) => opaque(color, ch),
                None => old(c).at(px, py, ch),
            },
{
    let ghost start = *c;
    let ghost w = c.width as int;
    let ghost h = c.height as int;
    let ghost sp = ps@.map_values(|p: TextPlacement| pview(p));
    let mut i: usize = 0;
    while i < ps.len()
        invariant
            c.wf(),
            c.same_size(&start),
            w == c.width as int,
            h == c.height as int,
            start.width as int == w,
            i <= ps@.len(),
            sp == ps@.map_values(|p: TextPlacement| pview(p)),
            placements_fit(sp),
            forall|px: int, py: int, ch: int|
                #![trigger c.at(px, py, ch)]
                on_image(w, h, px, py) && 0 <= ch < 4 ==> c.at(px, py, ch) == match placement_color(
                    sp,
                    i as int,
                    px,
                    py,
                ) {
                    Some(color) => opaque(color, ch),
                    None => start.at(px, py, ch),
                },
        decreases ps@.len() - i,
    {
        let p = &ps[i];
        assert(sp[i as int] == pview(ps@[i as int]));
        assert(text_fits(sp[i as int].0, sp[i as int].1, sp[i as int].2, sp[i as int].3));
        draw_bitmap_text(c, p.text.as_str(), p.x, p.y, p.scale, p.color);
        i = i + 1;
    }
}

/// The text of a value in a label: the number, or `-` when there is none.
pub open spec fn value_text(v: Option<u32>) -> Seq<char> {
    match v {
        Some(n) => dec(n as nat),
        None => "-"@,
    }
}

/// The rows to label: for each identifier of `ids` that names a vote row,
/// in order, its band and its OCR and official value texts.
pub open spec fn label_rows(
    bands: Seq<(u32, u32)>,
    ids: Seq<Seq<char>>,
    ocr: Seq<Option<u32>>,
    official: Seq<Option<u32>>,
) -> Seq<(u32, u32, Seq<char>, Seq<char>)>
    decreases ids.len(),
{
    if ids.len() == 0 {
        Seq::empty()
    } else {
        let prev = label_rows(bands, ids.drop_last(), ocr, official);
        match vote_slot(ids.last()) {
            Some(i) => prev.push(
                (bands[i].0, bands[i].1, value_text(ocr[i]), value_text(official[i])),
            ),
            None => prev,
        }
    }
}

/// The width of a label at `scale`, as `bitmap_text_width` measures it.
pub open spec fn text_width(t: Seq<char>, scale: u32) -> int {
    let a = text_advance(t, scale, t.len() as int);
    if a > scale {
        a - scale
    } else {
        0
    }
}

/// `a - b`, or 0 when `b` is larger.
pub open spec fn sat_sub(a: int, b: int) -> int {
    if a > b {
        a - b
    } else {
        0
    }
}

/// The larger of two integers.
pub open spec fn max_int(a: int, b: int) -> int {
    if a > b {
        a
    } else {
        b
    }
}

/// The widest OCR value text of the first `k` rows at `scale` (0 when
/// there are none).
pub open spec fn widest_ocr(rows: Seq<(u32, u32, Seq<char>, Seq<char>)>, scale: u32, k: int) -> int
    decreases k,
{
    if k <= 0 {
        0
    } else {
        max_int(widest_ocr(rows, scale, k - 1), text_width(rows[k - 1].2, scale))
    }
}

/// The widest official value text of the first `k` rows at `scale` (0
/// when there are none).
pub open spec fn widest_official(
    rows: Seq<(u32, u32, Seq<char>, Seq<char>)>,
    scale: u32,
    k: int,
) -> int
    decreases k,
{
    if k <= 0 {
        0
    } else {
        max_int(widest_official(rows, scale, k - 1), text_width(rows[k - 1].3, scale))
    }
}

/// The highest band top of the first `k` rows (`k` at least one).
pub open spec fn highest_top(rows: Seq<(u32, u32, Seq<char>, Seq<char>)>, k: int) -> int
    decreases k,
{
    if k <= 1 {
        rows[0].0 as int
    } else {
        let prev = highest_top(rows, k - 1);
        if (rows[k - 1].0 as int) < prev {
            rows[k - 1].0 as int
        } else {
            prev
        }
    }
}

/// The scale of the value texts: a 360th of the image height, from 5 to 8.
pub open spec fn value_scale(height: u32) -> u32 {
    let v = height / 360;
    if v < 5 {
        5
    } else if v > 8 {
        8
    } else {
        v
    }
}

/// The scale of the headers: two less than that of the values, at least 3.
pub open spec fn header_scale(vs: u32) -> u32 {
    if vs > 5 {
        (vs - 2) as u32
    } else {
        3
    }
}

/// The colour of the OCR column.
pub open spec fn ocr_color() -> [u8; 3] {
    [0u8, 80u8, 180u8]
}

/// The colour of the official column.
pub open spec fn official_color() -> [u8; 3] {
    [180u8, 0u8, 0u8]
}

/// The two labels of each row: its OCR value right-aligned in the OCR
/// column and its official value right-aligned in the official column,
/// both centred on the row's band.
pub open spec fn value_placements(
    rows: Seq<(u32, u32, Seq<char>, Seq<char>)>,
    vs: u32,
    ocr_x: int,
    ocr_width: int,
    official_x: int,
    official_width: int,
) -> Seq<(Seq<char>, int, int, u32, [u8; 3])>
    decreases rows.len(),
{
    if rows.len() == 0 {
        Seq::empty()
    } else {
        let (top, bottom, o, f) = rows.last();
        let center = top + sat_sub(bottom as int, top as int) / 2;
        let y = sat_sub(center, 7 * vs / 2);
        value_placements(rows.drop_last(), vs, ocr_x, ocr_width, official_x, official_width)
            + seq![
            (o, ocr_x + sat_sub(ocr_width, text_width(o, vs)), y, vs, ocr_color()),
            (f, official_x + sat_sub(official_width, text_width(f, vs)), y, vs, official_color()),
        ]
    }
}

/// The OCR column width: the widest OCR value and the `OCR` header.
pub open spec fn ocr_column_width(rows: Seq<(u32, u32, Seq<char>, Seq<char>)>, vs: u32, hs: u32) -> int {
    max_int(widest_ocr(rows, vs, rows.len() as int), text_width("OCR"@, hs))
}

/// The official column width: the widest official value and the two
/// header lines `OFFICIAL` and `(CORRECTED)`.
pub open spec fn official_column_width(
    rows: Seq<(u32, u32, Seq<char>, Seq<char>)>,
    vs: u32,
    hs: u32,
) -> int {
    max_int(
        max_int(widest_official(rows, vs, rows.len() as int), text_width("OFFICIAL"@, hs)),
        text_width("(CORRECTED)"@, hs),
    )
}

/// The right margin kept free: at least 40 pixels.
pub open spec fn right_margin(raw: u32) -> int {
    if raw > 40 {
        raw as int
    } else {
        40
    }
}

/// The labels drawn for `rows` on an image `width` by `height`: nothing
/// when there is no row; otherwise the headers above the highest band (at
/// least at `header_floor`), then the two value labels of each row. The
/// official column ends `right_margin_raw` (at least 40) pixels from the
/// right edge, the OCR column six value cells to its left.
pub open spec fn label_layout(
    width: u32,
    height: u32,
    rows: Seq<(u32, u32, Seq<char>, Seq<char>)>,
    right_margin_raw: u32,
    header_floor: u32,
) -> Seq<(Seq<char>, int, int, u32, [u8; 3])> {
    if rows.len() == 0 {
        Seq::empty()
    } else {
        let vs = value_scale(height);
        let hs = header_scale(vs);
        let ow = ocr_column_width(rows, vs, hs);
        let fw = official_column_width(rows, vs, hs);
        let official_x = sat_sub(width as int, right_margin(right_margin_raw) + fw);
        let ocr_x = sat_sub(official_x, 6 * vs + ow);
        let header_y = max_int(
            sat_sub(highest_top(rows, rows.len() as int), 7 * hs * 2 + vs * 3),
            header_floor as int,
        );
        seq![
            ("OCR"@, ocr_x, header_y, hs, ocr_color()),
            (
                "OFFICIAL"@,
                official_x + sat_sub(fw, text_width("OFFICIAL"@, hs)),
                header_y,
                hs,
                official_color(),
            ),
            ("(CORRECTED)"@, official_x, header_y + 7 * hs + hs, hs, official_color()),
        ] + value_placements(rows, vs, ocr_x, ow, official_x, fw)
    }
}

/// The labels of `rows` can be placed and drawn within `u32`.
pub open spec fn labels_fit(
    width: u32,
    height: u32,
    rows: Seq<(u32, u32, Seq<char>, Seq<char>)>,
    right_margin_raw: u32,
    header_floor: u32,
) -> bool {
    let vs = value_scale(height);
    let hs = header_scale(vs);
    &&& right_margin(right_margin_raw) + official_column_width(rows, vs, hs) <= u32::MAX
    &&& placements_fit(label_layout(width, height, rows, right_margin_raw, header_floor))
}

/// The advance of a label is at most six cells per character.
proof fn lemma_advance_bound(t: Seq<char>, scale: u32, k: int)
    requires
        0 <= k <= t.len(),
    ensures
        0 <= text_advance(t, scale, k) <= 6 * scale * k,
    decreases k,
{
    if k > 0 {
        lemma_advance_bound(t, scale, k - 1);
        assert(6 * scale * (k - 1) + 6 * scale == 6 * scale * k) by (nonlinear_arith);
    }
}

/// Ten to the power `k`.
pub open spec fn pow10(k: nat) -> nat
    decreases k,
{
    if k == 0 {
        1
    } else {
        10 * pow10((k - 1) as nat)
    }
}

/// A number below `10^k` has at most `k` digits.
proof fn lemma_dec_len(n: nat, k: nat)
    requires
        k >= 1,
        n < pow10(k),
    ensures
        dec(n).len() <= k,
    decreases k,
{
    if n >= 10 {
        let q = pow10((k - 1) as nat);
        assert(k >= 2);
        assert(n / 10 < q) by (nonlinear_arith)
            requires
                n < 10 * q,
        ;
        lemma_dec_len(n / 10, (k - 1) as nat);
    }
}

/// The text of a value has at most ten characters.
proof fn lemma_value_text_len(v: Option<u32>)
    ensures
        value_text(v).len() <= 10,
{
    reveal_strlit("-");
    if let Some(n) = v {
        reveal_with_fuel(pow10, 11);
        assert(pow10(10) == 10000000000);
        lemma_dec_len(n as nat, 10);
    }
}

/// The text of a value.
pub fn value_string(v: Option<u32>) -> (r: String)
    ensures
        r@ == value_text(v),
{
    match v {
        Some(n) => {
            let d = dec_chars(n as u64);
            from_chars(&d)
        },
        None => "-".to_owned(),
    }
}

/// The rows to label, as `label_rows` describes them.
fn collect_label_rows(
    bands: &Vec<(u32, u32)>,
    ids: &Vec<String>,
    ocr: &VoteValues,
    official: &VoteValues,
) -> (r: Vec<(u32, u32, String, String)>)
    requires
        bands@.len() == 24,
        ocr.wf(),
        official.wf(),
    ensures
        r@.map_values(|t: (u32, u32, String, String)| (t.0, t.1, t.2@, t.3@)) == label_rows(
            bands@,
            strs(ids@),
            ocr@,
            official@,
        ),
{
    let mut out: Vec<(u32, u32, String, String)> = Vec::new();
    let mut k: usize = 0;
    while k < ids.len()
        invariant
            bands@.len() == 24,
            ocr.wf(),
            official.wf(),
            k <= ids@.len(),
            out@.map_values(|t: (u32, u32, String, String)| (t.0, t.1, t.2@, t.3@)) == label_rows(
                bands@,
                strs(ids@).take(k as int),
                ocr@,
                official@,
            ),
        decreases ids@.len() - k,
    {
        let ghost prev = out@;
        let id = ids[k].as_str();
        proof {
            lemma_find_vote_slot(id@, 0);
            assert(strs(ids@).take(k + 1).drop_last() =~= strs(ids@).take(k as int));
            assert(strs(ids@).take(k + 1).last() == id@);
        }
        let slot = crate::votes::vote_slot_of(&crate::textops::to_chars(id));
        match slot {
            Some(i) => {
                let (top, bottom) = bands[i];
                let o = value_string(ocr.get_slot(i));
                let f = value_string(official.get_slot(i));
                out.push((top, bottom, o, f));
                assert(out@.map_values(|t: (u32, u32, String, String)| (t.0, t.1, t.2@, t.3@))
                    =~= prev.map_values(|t: (u32, u32, String, String)| (t.0, t.1, t.2@, t.3@)).push(
                    (top, bottom, value_text(ocr@[i as int]), value_text(official@[i as int])),
                ));
            },
            None => {},
        }
        k = k + 1;
    }
    assert(strs(ids@).take(ids@.len() as int) =~= strs(ids@));
    out
}

/// The value texts of the rows to label have at most ten characters.
proof fn lemma_label_rows_texts(
    bands: Seq<(u32, u32)>,
    ids: Seq<Seq<char>>,
    ocr: Seq<Option<u32>>,
    official: Seq<Option<u32>>,
)
    ensures
        forall|i: int|
            0 <= i < label_rows(bands, ids, ocr, official).len() ==> (#[trigger] label_rows(
                bands,
                ids,
                ocr,
                official,
            )[i]).2.len() <= 10 && label_rows(bands, ids, ocr, official)[i].3.len() <= 10,
    decreases ids.len(),
{
    if ids.len() > 0 {
        lemma_label_rows_texts(bands, ids.drop_last(), ocr, official);
        let prev = label_rows(bands, ids.drop_last(), ocr, official);
        let all = label_rows(bands, ids, ocr, official);
        match vote_slot(ids.last()) {
            Some(i) => {
                lemma_value_text_len(ocr[i]);
                lemma_value_text_len(official[i]);
                assert(all == prev.push(
                    (bands[i].0, bands[i].1, value_text(ocr[i]), value_text(official[i])),
                ));
                assert forall|j: int| 0 <= j < all.len() implies (#[trigger] all[j]).2.len() <= 10
                    && all[j].3.len() <= 10 by {
                    if j < prev.len() {
                        assert(all[j] == prev[j]);
                    }
                }
            },
            None => {
                assert(all == prev);
            },
        }
    }
}

/// Each row's value texts are no wider than the widest of the first `k`.
proof fn lemma_widest(rows: Seq<(u32, u32, Seq<char>, Seq<char>)>, scale: u32, k: int)
    requires
        0 <= k <= rows.len(),
    ensures
        forall|i: int|
            0 <= i < k ==> text_width((#[trigger] rows[i]).2, scale) <= widest_ocr(rows, scale, k)
                && text_width(rows[i].3, scale) <= widest_official(rows, scale, k),
    decreases k,
{
    if k > 0 {
        lemma_widest(rows, scale, k - 1);
    }
}

/// The width of a label of at most eleven characters at a scale of at most
/// eight.
fn label_width(t: &str, scale: u32) -> (r: u32)
    requires
        t@.len() <= 11,
        scale <= 8,
    ensures
        r == text_width(t@, scale),
        r <= 528,
{
    proof {
        lemma_advance_bound(t@, scale, t@.len() as int);
        assert(6 * scale * t@.len() <= 528) by (nonlinear_arith)
            requires
                scale <= 8,
                t@.len() <= 11,
        ;
    }
    bitmap_text_width(t, scale)
}

/// The larger of two numbers.
fn max_u32(a: u32, b: u32) -> (r: u32)
    ensures
        r == max_int(a as int, b as int),
{
    if a > b {
        a
    } else {
        b
    }
}

/// The labels to draw for the rows `problem_ids` names (those that name a
/// vote row) on an image `width` by `height`, as `label_layout` places
/// them; `bands` gives the band of each vote row by slot.
pub fn value_label_layout(
    width: u32,
    height: u32,
    bands: &Vec<(u32, u32)>,
    problem_ids: &Vec<String>,
    ocr_values: &VoteValues,
    official_values: &VoteValues,
    right_margin_raw: u32,
    header_floor: u32,
) -> (r: Vec<TextPlacement>)
    requires
        bands@.len() == 24,
        ocr_values.wf(),
        official_values.wf(),
        labels_fit(
            width,
            height,
            label_rows(bands@, strs(problem_ids@), ocr_values@, official_values@),
            right_margin_raw,
            header_floor,
        ),
    ensures
        r@.map_values(|p: TextPlacement| pview(p)) == label_layout(
            width,
            height,
            label_rows(bands@, strs(problem_ids@), ocr_values@, official_values@),
            right_margin_raw,
            header_floor,
        ),
{
    let ghost rv = label_rows(bands@, strs(problem_ids@), ocr_values@, official_values@);
    let rows = collect_label_rows(bands, problem_ids, ocr_values, official_values);
    let mut out: Vec<TextPlacement> = Vec::new();
    if rows.len() == 0 {
        assert(out@.map_values(|p: TextPlacement| pview(p)) =~= Seq::empty());
        return out;
    }
    proof {
        lemma_label_rows_texts(bands@, strs(problem_ids@), ocr_values@, official_values@);
        reveal_strlit("OCR");
        reveal_strlit("OFFICIAL");
        reveal_strlit("(CORRECTED)");
        assert(forall|i: int|
            0 <= i < rows@.len() ==> (#[trigger] rows@[i]).2@ == rv[i].2 && rows@[i].3@ == rv[i].3
                && rows@[i].0 == rv[i].0 && rows@[i].1 == rv[i].1);
    }
    let v0 = height / 360;
    let vs: u32 = if v0 < 5 {
        5
    } else if v0 > 8 {
        8
    } else {
        v0
    };
    let hs: u32 = if vs > 5 {
        vs - 2
    } else {
        3
    };
    let mut wo: u32 = 0;
    let mut wf: u32 = 0;
    let mut top_min: u32 = rows[0].0;
    let mut k: usize = 0;
    while k < rows.len()
        invariant
            k <= rows@.len(),
            rows@.len() == rv.len(),
            rv.len() >= 1,
            vs == value_scale(height),
            vs <= 8,
            forall|i: int|
                0 <= i < rows@.len() ==> (#[trigger] rows@[i]).2@ == rv[i].2 && rows@[i].3@
                    == rv[i].3 && rows@[i].0 == rv[i].0 && rows@[i].1 == rv[i].1,
            forall|i: int| 0 <= i < rv.len() ==> (#[trigger] rv[i]).2.len() <= 10 && rv[i].3.len() <= 10,
            wo == widest_ocr(rv, vs, k as int),
            wf == widest_official(rv, vs, k as int),
            wo <= 528,
            wf <= 528,
            top_min == highest_top(rv, if k == 0 {
                1
            } else {
                k as int
            }),
        decreases rows@.len() - k,
    {
        let a = label_width(rows[k].2.as_str(), vs);
        let b = label_width(rows[k].3.as_str(), vs);
        wo = max_u32(wo, a);
        wf = max_u32(wf, b);
        if k > 0 && rows[k].0 < top_min {
            top_min = rows[k].0;
        }
        k = k + 1;
    }
    proof {
        lemma_widest(rv, vs, rv.len() as int);
    }
    let ow = max_u32(wo, label_width("OCR", hs));
    let off_w = label_width("OFFICIAL", hs);
    let fw = max_u32(max_u32(wf, off_w), label_width("(CORRECTED)", hs));
    let rm: u32 = if right_margin_raw > 40 {
        right_margin_raw
    } else {
        40
    };
    assert(rm as int + fw <= u32::MAX);
    let official_x = if width > rm + fw {
        width - (rm + fw)
    } else {
        0
    };
    let gap = vs * 6;
    let ocr_x = if official_x > gap + ow {
        official_x - (gap + ow)
    } else {
        0
    };
    let lift = hs * 7 * 2 + vs * 3;
    let hy0 = if top_min > lift {
        top_min - lift
    } else {
        0
    };
    let header_y = max_u32(hy0, header_floor);
    let ghost layout = label_layout(width, height, rv, right_margin_raw, header_floor);
    let ghost heads = layout.take(3);
    proof {
        assert(ow as int == ocr_column_width(rv, vs, hs));
        assert(fw as int == official_column_width(rv, vs, hs));
        assert(placements_fit(layout));
        assert(text_fits(layout[2].0, layout[2].1, layout[2].2, layout[2].3));
        assert(crate::canvas::has_glyph(layout[2].0)) by {
            assert(crate::layout::glyph_rows(crate::layout::ascii_upper(layout[2].0[0])) is Some);
        }
        assert(header_y + 7 * hs + hs + 7 * hs <= u32::MAX);
    }
    out.push(TextPlacement { text: "OCR".to_owned(), x: ocr_x, y: header_y, scale: hs, color: [0, 80, 180] });
    out.push(
        TextPlacement {
            text: "OFFICIAL".to_owned(),
            x: official_x + (fw - off_w),
            y: header_y,
            scale: hs,
            color: [180, 0, 0],
        },
    );
    out.push(
        TextPlacement {
            text: "(CORRECTED)".to_owned(),
            x: official_x,
            y: header_y + hs * 7 + hs,
            scale: hs,
            color: [180, 0, 0],
        },
    );
    assert(out@.map_values(|p: TextPlacement| pview(p)) =~= heads);
    let mut k: usize = 0;
    while k < rows.len()
        invariant
            k <= rows@.len(),
            rows@.len() == rv.len(),
            rv.len() >= 1,
            vs == value_scale(height),
            vs <= 8,
            forall|i: int|
                0 <= i < rows@.len() ==> (#[trigger] rows@[i]).2@ == rv[i].2 && rows@[i].3@
                    == rv[i].3 && rows@[i].0 == rv[i].0 && rows@[i].1 == rv[i].1,
            forall|i: int| 0 <= i < rv.len() ==> (#[trigger] rv[i]).2.len() <= 10 && rv[i].3.len() <= 10,
            forall|i: int|
                0 <= i < rv.len() ==> text_width((#[trigger] rv[i]).2, vs) <= ow && text_width(
                    rv[i].3,
                    vs,
                ) <= fw,
            ocr_x as int + ow <= u32::MAX,
            official_x as int + fw <= u32::MAX,
            out@.map_values(|p: TextPlacement| pview(p)) == heads + value_placements(
                rv.take(k as int),
                vs,
                ocr_x as int,
                ow as int,
                official_x as int,
                fw as int,
            ),
        decreases rows@.len() - k,
    {
        let ghost prev = out@;
        let top = rows[k].0;
        let bottom = rows[k].1;
        let half = if bottom > top {
            (bottom - top) / 2
        } else {
            0
        };
        let center = top + half;
        let down = vs * 7 / 2;
        let y = if center > down {
            center - down
        } else {
            0
        };
        let ow_k = label_width(rows[k].2.as_str(), vs);
        let fw_k = label_width(rows[k].3.as_str(), vs);
        let o = rows[k].2.clone();
        let f = rows[k].3.clone();
        out.push(TextPlacement { text: o, x: ocr_x + (ow - ow_k), y, scale: vs, color: [0, 80, 180] });
        out.push(
            TextPlacement { text: f, x: official_x + (fw - fw_k), y, scale: vs, color: [180, 0, 0] },
        );
        proof {
            assert(rv.take(k + 1).drop_last() =~= rv.take(k as int));
            assert(rv.take(k + 1).last() == rv[k as int]);
            let (t, b, os, fs) = rv[k as int];
            let center = t + sat_sub(b as int, t as int) / 2;
            assert(y as int == sat_sub(center, 7 * vs / 2));
            assert(o@ == os);
            assert(f@ == fs);
            assert(ow - ow_k == sat_sub(ow as int, text_width(os, vs)));
            assert(fw - fw_k == sat_sub(fw as int, text_width(fs, vs)));
            assert(out@[prev.len() as int].color =~= ocr_color());
            assert(out@[prev.len() as int + 1].color =~= official_color());
            let a = (
                os,
                ocr_x + sat_sub(ow as int, text_width(os, vs)),
                sat_sub(center, 7 * vs / 2),
                vs,
                ocr_color(),
            );
            let bb = (
                fs,
                official_x + sat_sub(fw as int, text_width(fs, vs)),
                sat_sub(center, 7 * vs / 2),
                vs,
                official_color(),
            );
            assert(value_placements(rv.take(k + 1), vs, ocr_x as int, ow as int, official_x as int, fw as int)
                == value_placements(rv.take(k as int), vs, ocr_x as int, ow as int, official_x as int, fw as int)
                + seq![a, bb]);
            assert(pview(out@[prev.len() as int]) == a);
            assert(pview(out@[prev.len() as int + 1]) == bb);
            assert(out@.map_values(|p: TextPlacement| pview(p)) =~= prev.map_values(
                |p: TextPlacement| pview(p),
            ) + seq![a, bb]);
        }
        assert(out@.map_values(|p: TextPlacement| pview(p)) =~= heads + value_placements(
            rv.take(k + 1),
            vs,
            ocr_x as int,
            ow as int,
            official_x as int,
            fw as int,
        ));
        k = k + 1;
    }
    assert(rv.take(rv.len() as int) =~= rv);
    assert(out@.map_values(|p: TextPlacement| pview(p)) =~= layout);
    out
}

/// Writes, in the right margin of the image, the OCR value and the official
/// value of each row that `problem_ids` names, right-aligned in two columns
/// under the headers `OCR` and `OFFICIAL (CORRECTED)`, level with the row's
/// band; nothing when no identifier names a vote row.
pub fn draw_ocr_and_official_values(
    c: &mut Canvas,
    bands: &Vec<(u32, u32)>,
    problem_ids: &Vec<String>,
    ocr_values: &VoteValues,
    official_values: &VoteValues,
    right_margin_raw: u32,
    header_floor: u32,
)
    requires
        old(c).wf(),
        bands@.len() == 24,
        ocr_values.wf(),
        official_values.wf(),
        labels_fit(
            old(c).width,
            old(c).height,
            label_rows(bands@, strs(problem_ids@), ocr_values@, official_values@),
            right_margin_raw,
            header_floor,
        ),
    ensures
        final(c).wf(),
        final(c).same_size(old(c)),
        forall|px: int, py: int, ch: int|
            #![trigger final(c).at(px, py, ch)]
            on_image(old(c).width as int, old(c).height as int, px, py) && 0 <= ch < 4
                ==> final(c).at(px, py, ch) == match placement_color(
                label_layout(
                    old(c).width,
                    old(c).height,
                    label_rows(bands@, strs(problem_ids@), ocr_values@, official_values@),
                    right_margin_raw,
                    header_floor,
                ),
                label_layout(
                    old(c).width,
                    old(c).height,
                    label_rows(bands@, strs(problem_ids@), ocr_values@, official_values@),
                    right_margin_raw,
                    header_floor,
                ).len() as int,
                px,
                py,
            ) {
                Some(color) => opaque(color, ch),
                None => old(c).at(px, py, ch),
            },
{
    let ps = value_label_layout(
        c.width,
        c.height,
        bands,
        problem_ids,
        ocr_values,
        official_values,
        right_margin_raw,
        header_floor,
    );
    paint_placements(c, &ps);
}

/// The scale of the `ERROR` label on a correction table `width` pixels
/// wide: a 320th of the width, from 4 to 8.
pub open spec fn error_label_scale(width: u32) -> u32 {
    let v = width / 320;
    if v < 4 {
        4
    } else if v > 8 {
        8
    } else {
        v
    }
}

/// Where the `ERROR` label of a band from `top` to `bottom` goes: `margin`
/// pixels left of the right edge, centred in the band.
pub open spec fn error_label_position(width: u32, top: u32, bottom: u32, margin: u32) -> (int, int) {
    let s = error_label_scale(width);
    (
        sat_sub(sat_sub(width as int, text_width("ERROR"@, s)), margin as int),
        top + sat_sub(sat_sub(bottom as int, top as int), 7 * s) / 2,
    )
}

/// Writes `ERROR` in purple at the right of the band from `top` to
/// `bottom` of a correction table, `margin` pixels from the right edge and
/// centred in the band.
pub fn draw_correction_error_label(c: &mut Canvas, top: u32, bottom: u32, margin: u32)
    requires
        old(c).wf(),
        text_fits(
            "ERROR"@,
            error_label_position(old(c).width, top, bottom, margin).0,
            error_label_position(old(c).width, top, bottom, margin).1,
            error_label_scale(old(c).width),
        ),
    ensures
        final(c).wf(),
        final(c).same_size(old(c)),
        forall|px: int, py: int, ch: int|
            #![trigger final(c).at(px, py, ch)]
            on_image(old(c).width as int, old(c).height as int, px, py) && 0 <= ch < 4
                ==> final(c).at(px, py, ch) == if text_covers(
                "ERROR"@,
                error_label_position(old(c).width, top, bottom, margin).0,
                error_label_position(old(c).width, top, bottom, margin).1,
                error_label_scale(old(c).width),
                5,
                px,
                py,
            ) {
                opaque([160u8, 0u8, 160u8], ch)
            } else {
                old(c).at(px, py, ch)
            },
{
    proof {
        reveal_strlit("ERROR");
    }
    let width = c.width;
    let v = width / 320;
    let scale: u32 = if v < 4 {
        4
    } else if v > 8 {
        8
    } else {
        v
    };
    let label = "ERROR";
    let text_width = label_width(label, scale);
    let x0 = if width > text_width {
        width - text_width
    } else {
        0
    };
    let x = if x0 > margin {
        x0 - margin
    } else {
        0
    };
    let row_height = if bottom > top {
        bottom - top
    } else {
        0
    };
    let text_height = scale * 7;
    let spare = if row_height > text_height {
        row_height - text_height
    } else {
        0
    };
    let y = top + spare / 2;
    draw_bitmap_text(c, label, x, y, scale, [160, 0, 160]);
}

} // verus!
