//! The marked-up images of the mismatch reports: the results table with
//! its problem rows highlighted and labelled with the OCR and official
//! values, and the correction table with its problem rows marked `ERROR`.
use vstd::prelude::*;
use crate::canvas::{
    correction_highlight, correction_highlight_style, highlight_image_band, highlighted,
    internal_highlight, internal_highlight_style, official_highlight, official_highlight_style,
    on_image, opaque, text_covers, Canvas, HighlightStyle,
};
use crate::compare::{text_order, text_order_slot};
use crate::labels::{
    draw_correction_error_label, draw_ocr_and_official_values, error_label_position,
    error_label_scale, label_layout, label_rows, labels_fit, placement_color,
};
use crate::problems::HighlightRows;
use crate::text::strs;
use crate::textops::{chars_eq, to_chars};
use crate::votes::{vote_label, vote_label_string, VoteValues};

verus! {

broadcast use vstd::string::group_string_axioms;

/// The vote-row identifiers among `ids`, in the order of their text (the
/// order in which a set of identifiers is walked), taking the first `k`
/// rows of that order.
pub open spec fn ordered_ids_upto(ids: Seq<Seq<char>>, k: int) -> Seq<Seq<char>>
    decreases k,
{
    if k <= 0 {
        Seq::empty()
    } else {
        let prev = ordered_ids_upto(ids, k - 1);
        let id = vote_label(text_order(k - 1));
        if ids.contains(id) {
            prev.push(id)
        } else {
            prev
        }
    }
}

/// The vote-row identifiers among `ids`, in text order.
pub open spec fn ordered_ids(ids: Seq<Seq<char>>) -> Seq<Seq<char>> {
    ordered_ids_upto(ids, 24)
}

/// Whether `v` is one of `ids`.
fn contains_text(ids: &Vec<String>, v: &Vec<char>) -> (r: bool)
    ensures
        r == strs(ids@).contains(v@),
{
    let mut i: usize = 0;
    while i < ids.len()
        invariant
            i <= ids@.len(),
            forall|j: int| 0 <= j < i ==> strs(ids@)[j] != v@,
        decreases ids@.len() - i,
    {
        let c = to_chars(ids[i].as_str());
        if chars_eq(&c, v) {
            assert(strs(ids@)[i as int] == v@);
            return true;
        }
        i = i + 1;
    }
    proof {
        if strs(ids@).contains(v@) {
            let j = choose|j: int| 0 <= j < strs(ids@).len() && strs(ids@)[j] == v@;
            assert(strs(ids@)[j] != v@);
        }
    }
    false
}

/// The vote-row identifiers among `ids`, in text order.
pub fn vote_ids_in_text_order(ids: &Vec<String>) -> (r: Vec<String>)
    ensures
        strs(r@) == ordered_ids(strs(ids@)),
{
    let mut out: Vec<String> = Vec::new();
    let mut k: usize = 0;
    while k < 24
        invariant
            k <= 24,
            strs(out@) == ordered_ids_upto(strs(ids@), k as int),
        decreases 24 - k,
    {
        let slot = text_order_slot(k);
        let label = vote_label_string(slot);
        let lc = to_chars(label.as_str());
        if contains_text(ids, &lc) {
            let ghost prev = strs(out@);
            out.push(label);
            assert(strs(out@) =~= prev.push(vote_label(text_order(k as int))));
        }
        k = k + 1;
    }
    out
}

/// The bands of the rows that `ids` names, in order (identifiers that name
/// no vote row have none).
pub open spec fn id_bands(bands: Seq<(u32, u32)>, ids: Seq<Seq<char>>) -> Seq<(u32, u32)>
    decreases ids.len(),
{
    if ids.len() == 0 {
        Seq::empty()
    } else {
        let prev = id_bands(bands, ids.drop_last());
        match crate::votes::vote_slot(ids.last()) {
            Some(i) => prev.push(bands[i]),
            None => prev,
        }
    }
}

/// The bands of the rows that `ids` names.
fn bands_for_ids(bands: &Vec<(u32, u32)>, ids: &Vec<String>) -> (r: Vec<(u32, u32)>)
    requires
        bands@.len() == 24,
    ensures
        r@ == id_bands(bands@, strs(ids@)),
{
    let mut out: Vec<(u32, u32)> = Vec::new();
    let mut k: usize = 0;
    while k < ids.len()
        invariant
            bands@.len() == 24,
            k <= ids@.len(),
            out@ == id_bands(bands@, strs(ids@).take(k as int)),
        decreases ids@.len() - k,
    {
        let v = to_chars(ids[k].as_str());
        proof {
            crate::votes::lemma_find_vote_slot(v@, 0);
            assert(strs(ids@).take(k + 1).drop_last() =~= strs(ids@).take(k as int));
            assert(strs(ids@).take(k + 1).last() == v@);
        }
        match crate::votes::vote_slot_of(&v) {
            Some(i) => {
                out.push(bands[i]);
            },
            None => {},
        }
        k = k + 1;
    }
    assert(strs(ids@).take(ids@.len() as int) =~= strs(ids@));
    out
}

/// The band from `b.0` to `b.1` cut to an image `h` pixels high.
pub open spec fn cut(v: u32, h: u32) -> int {
    if v < h {
        v as int
    } else {
        h as int
    }
}

/// Colour channel `ch` of a pixel in row `py` with value `p` after
/// highlighting the first `k` bands of `list` in `style`, in order.
pub open spec fn bands_fold(
    p: u8,
    ch: int,
    py: int,
    list: Seq<(u32, u32)>,
    h: u32,
    style: HighlightStyle,
    k: int,
) -> u8
    decreases k,
{
    if k <= 0 {
        p
    } else {
        highlighted(
            bands_fold(p, ch, py, list, h, style, k - 1),
            ch,
            py,
            cut(list[k - 1].0, h),
            cut(list[k - 1].1, h),
            style,
        )
    }
}

/// The edges of every band of `list`, cut to the image, stay two pixels
/// within `u32`.
pub open spec fn bands_fit(list: Seq<(u32, u32)>, h: u32) -> bool {
    forall|i: int|
        0 <= i < list.len() ==> cut((#[trigger] list[i]).0, h) + 2 <= u32::MAX && cut(list[i].1, h)
            + 2 <= u32::MAX
}

/// Highlights each band of `list` in `style`, in order.
pub fn highlight_bands(c: &mut Canvas, list: &Vec<(u32, u32)>, style: HighlightStyle)
    requires
        old(c).wf(),
        style.fill_alpha <= 255,
        style.border_alpha <= 255,
        bands_fit(list@, old(c).height),
    ensures
        final(c).wf(),
        final(c).same_size(old(c)),
        forall|px: int, py: int, ch: int|
            #![trigger final(c).at(px, py, ch)]
            on_image(old(c).width as int, old(c).height as int, px, py) && 0 <= ch < 4
                ==> final(c).at(px, py, ch) == if ch < 3 {
                bands_fold(old(c).at(px, py, ch), ch, py, list@, old(c).height, style, list@.len() as int)
            } else {
                old(c).at(px, py, ch)
            },
{
    let ghost start = *c;
    let ghost w = c.width as int;
    let ghost h = c.height as int;
    let mut k: usize = 0;
    while k < list.len()
        invariant
            c.wf(),
            c.same_size(&start),
            w == c.width as int,
            h == c.height as int,
            start.width as int == w,
            start.height == c.height,
            style.fill_alpha <= 255,
            style.border_alpha <= 255,
            bands_fit(list@, c.height),
            k <= list@.len(),
            forall|px: int, py: int, ch: int|
                #![trigger c.at(px, py, ch)]
                on_image(w, h, px, py) && 0 <= ch < 4 ==> c.at(px, py, ch) == if ch < 3 {
                    bands_fold(start.at(px, py, ch), ch, py, list@, c.height, style, k as int)
                } else {
                    start.at(px, py, ch)
                },
        decreases list@.len() - k,
    {
        let (top, bottom) = list[k];
        assert(cut(list@[k as int].0, c.height) + 2 <= u32::MAX);
        highlight_image_band(c, top, bottom, style);
        k = k + 1;
    }
}

/// The bands of the rows of a results table to highlight, in text order:
/// first the rows of internal inconsistencies, then those that differ from
/// the official result.
pub open spec fn result_highlight_lists(bands: Seq<(u32, u32)>, rows: HighlightRows) -> (Seq<
    (u32, u32),
>, Seq<(u32, u32)>) {
    (
        id_bands(bands, ordered_ids(strs(rows.internal@))),
        id_bands(bands, ordered_ids(strs(rows.official@))),
    )
}

/// Marks up a results table: the bands of the rows of internal
/// inconsistencies highlighted in blue, then those of the rows that differ
/// from the official result in yellow and red, then the OCR and official
/// values of the latter written in the right margin. `bands` gives the
/// band of each vote row by slot.
pub fn highlight_result_table(
    c: &mut Canvas,
    bands: &Vec<(u32, u32)>,
    rows: &HighlightRows,
    ocr_values: &VoteValues,
    official_values: &VoteValues,
    right_margin_raw: u32,
    header_floor: u32,
)
    requires
        old(c).wf(),
        bands@.len() == 24,
        ocr_values.wf(),
        official_values.wf(),
        bands_fit(result_highlight_lists(bands@, *rows).0, old(c).height),
        bands_fit(result_highlight_lists(bands@, *rows).1, old(c).height),
        labels_fit(
            old(c).width,
            old(c).height,
            label_rows(bands@, ordered_ids(strs(rows.official@)), ocr_values@, official_values@),
            right_margin_raw,
            header_floor,
        ),
    ensures
        final(c).wf(),
        final(c).same_size(old(c)),
        forall|px: int, py: int, ch: int|
            #![trigger final(c).at(px, py, ch)]
            on_image(old(c).width as int, old(c).height as int, px, py) && 0 <= ch < 4 ==> {
                let layout = label_layout(
                    old(c).width,
                    old(c).height,
                    label_rows(bands@, ordered_ids(strs(rows.official@)), ocr_values@, official_values@),
                    right_margin_raw,
                    header_floor,
                );
                let lists = result_highlight_lists(bands@, *rows);
                final(c).at(px, py, ch) == match placement_color(layout, layout.len() as int, px, py) {
                    Some(color) => opaque(color, ch),
                    None => if ch < 3 {
                        bands_fold(
                            bands_fold(
                                old(c).at(px, py, ch),
                                ch,
                                py,
                                lists.0,
                                old(c).height,
                                internal_highlight_style(),
                                lists.0.len() as int,
                            ),
                            ch,
                            py,
                            lists.1,
                            old(c).height,
                            official_highlight_style(),
                            lists.1.len() as int,
                        )
                    } else {
                        old(c).at(px, py, ch)
                    },
                }
            },
{
    let ghost c0 = *c;
    let internal = vote_ids_in_text_order(&rows.internal);
    let official = vote_ids_in_text_order(&rows.official);
    let internal_bands = bands_for_ids(bands, &internal);
    let official_bands = bands_for_ids(bands, &official);
    let internal_style = internal_highlight();
    let official_style = official_highlight();
    assert(internal_style == internal_highlight_style());
    assert(official_style == official_highlight_style());
    highlight_bands(c, &internal_bands, internal_style);
    let ghost c1 = *c;
    highlight_bands(c, &official_bands, official_style);
    let ghost c2 = *c;
    draw_ocr_and_official_values(
        c,
        bands,
        &official,
        ocr_values,
        official_values,
        right_margin_raw,
        header_floor,
    );
    assert forall|px: int, py: int, ch: int|
        on_image(c0.width as int, c0.height as int, px, py) && 0 <= ch < 4 implies c2.at(px, py, ch)
        == if ch < 3 {
        bands_fold(
            bands_fold(
                c0.at(px, py, ch),
                ch,
                py,
                internal_bands@,
                c0.height,
                internal_highlight_style(),
                internal_bands@.len() as int,
            ),
            ch,
            py,
            official_bands@,
            c0.height,
            official_highlight_style(),
            official_bands@.len() as int,
        )
    } else {
        c0.at(px, py, ch)
    } by {
        assert(c1.at(px, py, ch) == if ch < 3 {
            bands_fold(
                c0.at(px, py, ch),
                ch,
                py,
                internal_bands@,
                c0.height,
                internal_style,
                internal_bands@.len() as int,
            )
        } else {
            c0.at(px, py, ch)
        });
        assert(c2.at(px, py, ch) == if ch < 3 {
            bands_fold(
                c1.at(px, py, ch),
                ch,
                py,
                official_bands@,
                c0.height,
                official_style,
                official_bands@.len() as int,
            )
        } else {
            c1.at(px, py, ch)
        });
    }
}

/// The position of the first of the first `k` entries of `s` equal to `x`.
pub open spec fn first_index(s: Seq<Seq<char>>, x: Seq<char>, k: int) -> Option<int>
    decreases k,
{
    if k <= 0 {
        None
    } else {
        match first_index(s, x, k - 1) {
            Some(i) => Some(i),
            None => if s[k - 1] == x {
                Some(k - 1)
            } else {
                None
            },
        }
    }
}

/// The position of the first entry of `ids` equal to `v`.
fn position_of(ids: &Vec<String>, v: &Vec<char>) -> (r: Option<usize>)
    ensures
        match r {
            Some(i) => first_index(strs(ids@), v@, ids@.len() as int) == Some(i as int),
            None => first_index(strs(ids@), v@, ids@.len() as int) is None,
        },
{
    let mut i: usize = 0;
    while i < ids.len()
        invariant
            i <= ids@.len(),
            first_index(strs(ids@), v@, i as int) is None,
        decreases ids@.len() - i,
    {
        let c = to_chars(ids[i].as_str());
        if chars_eq(&c, v) {
            assert(first_index(strs(ids@), v@, i + 1) == Some(i as int));
            proof {
                lemma_first_index_stable(strs(ids@), v@, i + 1, ids@.len() as int);
            }
            return Some(i);
        }
        i = i + 1;
    }
    None
}

proof fn lemma_first_index_stable(s: Seq<Seq<char>>, x: Seq<char>, k: int, n: int)
    requires
        k <= n,
        first_index(s, x, k) is Some,
    ensures
        first_index(s, x, n) == first_index(s, x, k),
    decreases n - k,
{
    if k < n {
        lemma_first_index_stable(s, x, k, n - 1);
    }
}

/// The bands of the correction rows to mark: for each issue identifier in
/// `issues`, in order, the band of the first correction row with that
/// identifier, when there is one and it has a band.
pub open spec fn issue_bands(
    bands: Seq<(u32, u32)>,
    correction_ids: Seq<Seq<char>>,
    issues: Seq<Seq<char>>,
) -> Seq<(u32, u32)>
    decreases issues.len(),
{
    if issues.len() == 0 {
        Seq::empty()
    } else {
        let prev = issue_bands(bands, correction_ids, issues.drop_last());
        match first_index(correction_ids, issues.last(), correction_ids.len() as int) {
            Some(i) => if i < bands.len() {
                prev.push(bands[i])
            } else {
                prev
            },
            None => prev,
        }
    }
}

/// Colour channel `ch` of pixel (`px`, `py`) with value `v` after marking
/// the first `k` bands of `marks` on a correction table `w` by `h`: each
/// band highlighted, then labelled `ERROR`.
pub open spec fn marks_fold(
    v: u8,
    ch: int,
    px: int,
    py: int,
    marks: Seq<(u32, u32)>,
    w: u32,
    h: u32,
    margin: u32,
    k: int,
) -> u8
    decreases k,
{
    if k <= 0 {
        v
    } else {
        let prev = marks_fold(v, ch, px, py, marks, w, h, margin, k - 1);
        let (t, b) = marks[k - 1];
        let pos = error_label_position(w, t, b, margin);
        if text_covers("ERROR"@, pos.0, pos.1, error_label_scale(w), 5, px, py) {
            opaque([160u8, 0u8, 160u8], ch)
        } else if ch < 3 {
            highlighted(prev, ch, py, cut(t, h), cut(b, h), correction_highlight_style())
        } else {
            prev
        }
    }
}

/// Every mark of `marks` can be drawn within `u32`.
pub open spec fn marks_fit(marks: Seq<(u32, u32)>, w: u32, h: u32, margin: u32) -> bool {
    &&& bands_fit(marks, h)
    &&& forall|i: int|
        0 <= i < marks.len() ==> crate::canvas::text_fits(
            "ERROR"@,
            error_label_position(w, (#[trigger] marks[i]).0, marks[i].1, margin).0,
            error_label_position(w, marks[i].0, marks[i].1, margin).1,
            error_label_scale(w),
        )
}

/// Marks up a correction table: for each issue identifier that names a
/// vote row, in text order, the first correction row with that identifier
/// (`correction_ids` lists them in table order, `bands` gives their bands)
/// is highlighted in magenta and labelled `ERROR`, `margin` pixels from
/// the right edge.
pub fn mark_correction_issues(
    c: &mut Canvas,
    bands: &Vec<(u32, u32)>,
    correction_ids: &Vec<String>,
    issue_ids: &Vec<String>,
    margin: u32,
)
    requires
        old(c).wf(),
        marks_fit(
            issue_bands(bands@, strs(correction_ids@), ordered_ids(strs(issue_ids@))),
            old(c).width,
            old(c).height,
            margin,
        ),
    ensures
        final(c).wf(),
        final(c).same_size(old(c)),
        forall|px: int, py: int, ch: int|
            #![trigger final(c).at(px, py, ch)]
            on_image(old(c).width as int, old(c).height as int, px, py) && 0 <= ch < 4 ==> {
                let marks = issue_bands(bands@, strs(correction_ids@), ordered_ids(strs(issue_ids@)));
                final(c).at(px, py, ch) == marks_fold(
                    old(c).at(px, py, ch),
                    ch,
                    px,
                    py,
                    marks,
                    old(c).width,
                    old(c).height,
                    margin,
                    marks.len() as int,
                )
            },
{
    let ghost start = *c;
    let ghost w = c.width as int;
    let ghost h = c.height as int;
    let ordered = vote_ids_in_text_order(issue_ids);
    let ghost issues = strs(ordered@);
    let ghost cids = strs(correction_ids@);
    let ghost all = issue_bands(bands@, cids, issues);
    let style = correction_highlight();
    let mut k: usize = 0;
    while k < ordered.len()
        invariant
            c.wf(),
            c.same_size(&start),
            w == c.width as int,
            h == c.height as int,
            start.width as int == w,
            start.height == c.height,
            start.width == c.width,
            style == correction_highlight_style(),
            issues == strs(ordered@),
            cids == strs(correction_ids@),
            all == issue_bands(bands@, cids, issues),
            marks_fit(all, c.width, c.height, margin),
            k <= ordered@.len(),
            forall|px: int, py: int, ch: int|
                #![trigger c.at(px, py, ch)]
                on_image(w, h, px, py) && 0 <= ch < 4 ==> {
                    let marks = issue_bands(bands@, cids, issues.take(k as int));
                    c.at(px, py, ch) == marks_fold(
                        start.at(px, py, ch),
                        ch,
                        px,
                        py,
                        marks,
                        c.width,
                        c.height,
                        margin,
                        marks.len() as int,
                    )
                },
        decreases ordered@.len() - k,
    {
        let ghost before = *c;
        let ghost prev_marks = issue_bands(bands@, cids, issues.take(k as int));
        let v = to_chars(ordered[k].as_str());
        proof {
            assert(issues.take(k + 1).drop_last() =~= issues.take(k as int));
            assert(issues.take(k + 1).last() == v@);
        }
        match position_of(correction_ids, &v) {
            Some(i) => {
                if i < bands.len() {
                    let (top, bottom) = bands[i];
                    let ghost marks = issue_bands(bands@, cids, issues.take(k + 1));
                    proof {
                        assert(cids.len() == correction_ids@.len());
                        assert(first_index(cids, v@, cids.len() as int) == Some(i as int));
                        assert(bands@[i as int] == (top, bottom));
                        assert(issues.take(k + 1).len() > 0);
                        assert(marks == prev_marks.push((top, bottom)));
                        lemma_issue_bands_prefix(bands@, cids, issues, k + 1);
                        let m = prev_marks.len() as int;
                        assert(marks[m] == (top, bottom));
                        assert(all.take(marks.len() as int)[m] == all[m]);
                        assert(all[m] == (top, bottom));
                        assert(cut(all[prev_marks.len() as int].0, c.height) + 2 <= u32::MAX);
                        assert(crate::canvas::text_fits(
                            "ERROR"@,
                            error_label_position(c.width, top, bottom, margin).0,
                            error_label_position(c.width, top, bottom, margin).1,
                            error_label_scale(c.width),
                        ));
                    }
                    highlight_image_band(c, top, bottom, style);
                    let ghost mid = *c;
                    draw_correction_error_label(c, top, bottom, margin);
                    proof {
                        reveal_strlit("ERROR");
                        assert forall|px: int, py: int, ch: int|
                            on_image(w, h, px, py) && 0 <= ch < 4 implies #[trigger] c.at(px, py, ch)
                            == marks_fold(
                            start.at(px, py, ch),
                            ch,
                            px,
                            py,
                            marks,
                            c.width,
                            c.height,
                            margin,
                            marks.len() as int,
                        ) by {
                            assert(before.at(px, py, ch) == marks_fold(
                                start.at(px, py, ch),
                                ch,
                                px,
                                py,
                                prev_marks,
                                c.width,
                                c.height,
                                margin,
                                prev_marks.len() as int,
                            ));
                            assert(marks.take(prev_marks.len() as int) =~= prev_marks);
                            lemma_marks_fold_prefix(
                                start.at(px, py, ch),
                                ch,
                                px,
                                py,
                                marks,
                                prev_marks,
                                c.width,
                                c.height,
                                margin,
                                prev_marks.len() as int,
                            );
                            assert(mid.at(px, py, ch) == if ch < 3 {
                                highlighted(before.at(px, py, ch), ch, py, cut(top, c.height), cut(bottom, c.height), style)
                            } else {
                                before.at(px, py, ch)
                            });
                        }
                    }
                } else {
                    assert(issue_bands(bands@, cids, issues.take(k + 1)) == prev_marks);
                }
            },
            None => {
                assert(issue_bands(bands@, cids, issues.take(k + 1)) == prev_marks);
            },
        }
        k = k + 1;
    }
    assert(issues.take(ordered@.len() as int) =~= issues);
}

/// The marks of a prefix of the issues are a prefix of all the marks.
proof fn lemma_issue_bands_prefix(
    bands: Seq<(u32, u32)>,
    cids: Seq<Seq<char>>,
    issues: Seq<Seq<char>>,
    k: int,
)
    requires
        0 <= k <= issues.len(),
    ensures
        issue_bands(bands, cids, issues.take(k)).len() <= issue_bands(bands, cids, issues).len(),
        issue_bands(bands, cids, issues).take(issue_bands(bands, cids, issues.take(k)).len() as int)
            == issue_bands(bands, cids, issues.take(k)),
    decreases issues.len() - k,
{
    if k < issues.len() {
        lemma_issue_bands_prefix(bands, cids, issues.drop_last(), k);
        assert(issues.drop_last().take(k) =~= issues.take(k));
        let pre = issue_bands(bands, cids, issues.drop_last());
        let all = issue_bands(bands, cids, issues);
        assert(all.take(pre.len() as int) =~= pre);
    } else {
        assert(issues.take(k) =~= issues);
    }
}

/// Folding marks depends only on the marks folded.
proof fn lemma_marks_fold_prefix(
    v: u8,
    ch: int,
    px: int,
    py: int,
    marks: Seq<(u32, u32)>,
    prefix: Seq<(u32, u32)>,
    w: u32,
    h: u32,
    margin: u32,
    k: int,
)
    requires
        0 <= k <= prefix.len() <= marks.len(),
        marks.take(prefix.len() as int) == prefix,
    ensures
        marks_fold(v, ch, px, py, marks, w, h, margin, k) == marks_fold(v, ch, px, py, prefix, w, h, margin, k),
    decreases k,
{
    if k > 0 {
        lemma_marks_fold_prefix(v, ch, px, py, marks, prefix, w, h, margin, k - 1);
        assert(marks[k - 1] == prefix[k - 1]);
    }
}

} // verus!
