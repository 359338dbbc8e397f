//! An RGBA raster (four bytes per pixel, rows from the top) and the drawing
//! done on the report images: filled cells, bitmap text, highlighted
//! bands, and the scan for dark ruling lines.
use vstd::prelude::*;
use crate::layout::{
    ascii_upper, bitmap_glyph, blend_channel, blended, glyph_rows, lemma_text_advance_mono,
    line_centers, line_centers_fit, grouped_line_centers, text_advance,
};
use crate::textops::to_chars;

verus! {

broadcast use vstd::string::group_string_axioms;

/// An RGBA image: `width` by `height` pixels of four bytes, row by row.
pub struct Canvas {
    pub width: u32,
    pub height: u32,
    pub pixels: Vec<u8>,
}

/// The position in the byte buffer of channel `ch` of pixel (`x`, `y`) in
/// an image `w` pixels wide.
pub open spec fn idx(w: int, x: int, y: int, ch: int) -> int {
    (y * w + x) * 4 + ch
}

/// Pixel (`x`, `y`) lies on an image of `w` by `h` pixels.
pub open spec fn on_image(w: int, h: int, x: int, y: int) -> bool {
    0 <= x < w && 0 <= y < h
}

impl Canvas {
    /// The buffer holds exactly four bytes per pixel.
    pub open spec fn wf(&self) -> bool {
        self.pixels@.len() == (self.width as int) * (self.height as int) * 4
    }

    /// Channel `ch` of pixel (`x`, `y`).
    pub open spec fn at(&self, x: int, y: int, ch: int) -> u8 {
        self.pixels@[idx(self.width as int, x, y, ch)]
    }

    /// Same size as `other`.
    pub open spec fn same_size(&self, other: &Canvas) -> bool {
        self.width == other.width && self.height == other.height && self.pixels@.len()
            == other.pixels@.len()
    }
}

/// The bytes of the pixel at (`x`, `y`) lie within the buffer and no other
/// pixel shares them.
pub proof fn lemma_idx(w: int, h: int, x: int, y: int, ch: int)
    requires
        on_image(w, h, x, y),
        0 <= ch < 4,
    ensures
        0 <= idx(w, x, y, ch) < w * h * 4,
        idx(w, x, y, ch) == idx(w, x, y, 0) + ch,
{
    assert(0 <= y * w + x < w * h) by (nonlinear_arith)
        requires
            0 <= x < w,
            0 <= y < h,
    ;
}

/// Distinct pixels or channels have distinct positions.
pub proof fn lemma_idx_injective(w: int, x1: int, y1: int, c1: int, x2: int, y2: int, c2: int)
    requires
        0 <= x1 < w,
        0 <= x2 < w,
        0 <= y1,
        0 <= y2,
        0 <= c1 < 4,
        0 <= c2 < 4,
        idx(w, x1, y1, c1) == idx(w, x2, y2, c2),
    ensures
        x1 == x2 && y1 == y2 && c1 == c2,
{
    let a = y1 * w + x1;
    let b = y2 * w + x2;
    assert(a == b && c1 == c2);
    if y1 < y2 {
        assert(y2 * w >= y1 * w + w) by (nonlinear_arith)
            requires
                y1 < y2,
                w > 0,
        ;
    } else if y2 < y1 {
        assert(y1 * w >= y2 * w + w) by (nonlinear_arith)
            requires
                y2 < y1,
                w > 0,
        ;
    }
}

/// The byte position of channel `ch` of pixel (`x`, `y`).
fn index_of(c: &Canvas, x: u32, y: u32, ch: usize) -> (r: usize)
    requires
        c.wf(),
        on_image(c.width as int, c.height as int, x as int, y as int),
        ch < 4,
    ensures
        r == idx(c.width as int, x as int, y as int, ch as int),
        r < c.pixels@.len(),
{
    proof {
        lemma_idx(c.width as int, c.height as int, x as int, y as int, ch as int);
        assert((y as int) * (c.width as int) <= (y as int) * (c.width as int) + x) by (
        nonlinear_arith)
            requires
                x >= 0,
        ;
    }
    let len = c.pixels.len();
    proof {
        assert((y as int) * (c.width as int) + x <= ((y as int) * (c.width as int) + x) * 4)
            by (nonlinear_arith)
            requires
                (y as int) * (c.width as int) + x >= 0,
        ;
    }
    let row = (y as usize) * (c.width as usize);
    ((row + (x as usize)) * 4) + ch
}

/// Sets pixel (`x`, `y`) to `rgba`.
pub fn put_pixel(c: &mut Canvas, x: u32, y: u32, rgba: [u8; 4])
    requires
        old(c).wf(),
        on_image(old(c).width as int, old(c).height as int, x as int, y as int),
    ensures
        final(c).wf(),
        final(c).same_size(old(c)),
        forall|px: int, py: int, ch: int|
            #![trigger final(c).at(px, py, ch)]
            on_image(old(c).width as int, old(c).height as int, px, py) && 0 <= ch < 4
                ==> final(c).at(px, py, ch) == if px == x && py == y {
                rgba@[ch]
            } else {
                old(c).at(px, py, ch)
            },
{
    let ghost w = c.width as int;
    let ghost h = c.height as int;
    let ghost before = c.pixels@;
    let mut ch: usize = 0;
    while ch < 4
        invariant
            c.wf(),
            c.width == old(c).width,
            c.height == old(c).height,
            w == c.width as int,
            h == c.height as int,
            before == old(c).pixels@,
            on_image(w, h, x as int, y as int),
            ch <= 4,
            c.pixels@.len() == before.len(),
            forall|px: int, py: int, k: int|
                #![trigger c.pixels@[idx(w, px, py, k)]]
                on_image(w, h, px, py) && 0 <= k < 4 ==> c.pixels@[idx(w, px, py, k)] == if px
                    == x && py == y && k < ch {
                    rgba@[k]
                } else {
                    before[idx(w, px, py, k)]
                },
        decreases 4 - ch,
    {
        let i = index_of(c, x, y, ch);
        let v = rgba[ch];
        c.pixels.set(i, v);
        proof {
            assert forall|px: int, py: int, k: int|
                on_image(w, h, px, py) && 0 <= k < 4 implies #[trigger] c.pixels@[idx(
                w,
                px,
                py,
                k,
            )] == if px == x && py == y && k < ch + 1 {
                rgba@[k]
            } else {
                before[idx(w, px, py, k)]
            } by {
                lemma_idx(w, h, px, py, k);
                if idx(w, px, py, k) == i {
                    lemma_idx_injective(w, px, py, k, x as int, y as int, ch as int);
                }
            }
        }
        ch = ch + 1;
    }
}

/// Pixel (`px`, `py`) lies in the rectangle from (`x0`, `y0`) up to but
/// not including (`x1`, `y1`).
pub open spec fn in_rect(x0: int, y0: int, x1: int, y1: int, px: int, py: int) -> bool {
    x0 <= px < x1 && y0 <= py < y1
}

/// The opaque RGBA form of an RGB colour.
pub open spec fn opaque(color: [u8; 3], ch: int) -> u8 {
    if ch == 3 {
        255
    } else {
        color@[ch]
    }
}

/// Paints the rectangle from (`x0`, `y0`) up to but not including
/// (`x1`, `y1`), cut to the image, in `color`.
pub fn fill_rect(c: &mut Canvas, x0: u32, y0: u32, x1: u32, y1: u32, color: [u8; 3])
    requires
        old(c).wf(),
    ensures
        final(c).wf(),
        final(c).same_size(old(c)),
        forall|px: int, py: int, ch: int|
            #![trigger final(c).at(px, py, ch)]
            on_image(old(c).width as int, old(c).height as int, px, py) && 0 <= ch < 4
                ==> final(c).at(px, py, ch) == if in_rect(
                x0 as int,
                y0 as int,
                x1 as int,
                y1 as int,
                px,
                py,
            ) {
                opaque(color, ch)
            } else {
                old(c).at(px, py, ch)
            },
{
    let ghost start = *c;
    let ghost w = c.width as int;
    let ghost h = c.height as int;
    let rgba: [u8; 4] = [color[0], color[1], color[2], 255];
    assert(forall|ch: int| 0 <= ch < 4 ==> rgba@[ch] == opaque(color, ch));
    let y_end = if y1 < c.height {
        y1
    } else {
        c.height
    };
    let x_end = if x1 < c.width {
        x1
    } else {
        c.width
    };
    let mut y = y0;
    while y < y_end
        invariant
            c.wf(),
            c.same_size(&start),
            w == c.width as int,
            h == c.height as int,
            start.width as int == w,
            y_end <= h,
            x_end <= w,
            y_end as int == if y1 < h {
                y1 as int
            } else {
                h
            },
            x_end as int == if x1 < w {
                x1 as int
            } else {
                w
            },
            y0 <= y,
            y <= y_end || y == y0,
            forall|k: int| 0 <= k < 4 ==> rgba@[k] == opaque(color, k),
            forall|px: int, py: int, ch: int|
                #![trigger c.at(px, py, ch)]
                on_image(w, h, px, py) && 0 <= ch < 4 ==> c.at(px, py, ch) == if in_rect(
                    x0 as int,
                    y0 as int,
                    x1 as int,
                    y as int,
                    px,
                    py,
                ) {
                    opaque(color, ch)
                } else {
                    start.at(px, py, ch)
                },
        decreases y_end - y,
    {
        let mut x = x0;
        while x < x_end
            invariant
                c.wf(),
                c.same_size(&start),
                w == c.width as int,
                h == c.height as int,
                start.width as int == w,
                y0 <= y < y_end <= h,
                x_end <= w,
                x_end as int == if x1 < w {
                    x1 as int
                } else {
                    w
                },
                x0 <= x,
                x <= x_end || x == x0,
                forall|k: int| 0 <= k < 4 ==> rgba@[k] == opaque(color, k),
                forall|px: int, py: int, ch: int|
                    #![trigger c.at(px, py, ch)]
                    on_image(w, h, px, py) && 0 <= ch < 4 ==> c.at(px, py, ch) == if in_rect(
                        x0 as int,
                        y0 as int,
                        x1 as int,
                        y as int,
                        px,
                        py,
                    ) || (py == y && x0 <= px < x) {
                        opaque(color, ch)
                    } else {
                        start.at(px, py, ch)
                    },
            decreases x_end - x,
        {
            put_pixel(c, x, y, rgba);
            x = x + 1;
        }
        y = y + 1;
    }
}

/// Pixel (`px`, `py`) lies in the cell in row `row` and column `col` of a
/// glyph drawn at (`gx`, `gy`) with cells `s` pixels square.
pub open spec fn in_cell(gx: int, gy: int, s: int, row: int, col: int, px: int, py: int) -> bool {
    in_rect(gx + col * s, gy + row * s, gx + col * s + s, gy + row * s + s, px, py)
}

/// Pixel (`px`, `py`) lies in a set cell (`1`) among the first `n` of
/// glyph row `row`, whose pattern is `line`.
pub open spec fn line_covers(
    line: Seq<char>,
    gx: int,
    gy: int,
    s: int,
    row: int,
    n: int,
    px: int,
    py: int,
) -> bool
    decreases n,
{
    if n <= 0 {
        false
    } else {
        line_covers(line, gx, gy, s, row, n - 1, px, py) || (line[n - 1] == '1' && in_cell(
            gx,
            gy,
            s,
            row,
            n - 1,
            px,
            py,
        ))
    }
}

/// Pixel (`px`, `py`) lies in a set cell of the first `n` rows of a glyph
/// drawn at (`gx`, `gy`) with cells `s` pixels square.
pub open spec fn glyph_covers(
    rows: Seq<Seq<char>>,
    gx: int,
    gy: int,
    s: int,
    n: int,
    px: int,
    py: int,
) -> bool
    decreases n,
{
    if n <= 0 {
        false
    } else {
        glyph_covers(rows, gx, gy, s, n - 1, px, py) || line_covers(
            rows[n - 1],
            gx,
            gy,
            s,
            n - 1,
            rows[n - 1].len() as int,
            px,
            py,
        )
    }
}

/// Every set cell of a glyph drawn at (`gx`, `gy`) ends within `u32`.
pub open spec fn glyph_fits(rows: Seq<Seq<char>>, gx: int, gy: int, s: int) -> bool {
    forall|r: int, col: int|
        0 <= r < rows.len() && 0 <= col < rows[r].len() && #[trigger] rows[r][col] == '1' ==> gx
            + col * s + s <= u32::MAX && gy + r * s + s <= u32::MAX
}

/// The rows of a glyph pattern.
pub open spec fn pattern_rows(pattern: [&str; 7]) -> Seq<Seq<char>> {
    Seq::new(7, |r: int| pattern@[r]@)
}

/// Paints the set cells (`1`) of a seven-row glyph pattern at (`x`, `y`),
/// each cell `scale` pixels square, in `color`.
pub fn draw_bitmap_glyph(
    c: &mut Canvas,
    pattern: &[&str; 7],
    x: u32,
    y: u32,
    scale: u32,
    color: [u8; 3],
)
    requires
        old(c).wf(),
        glyph_fits(pattern_rows(*pattern), x as int, y as int, scale as int),
    ensures
        final(c).wf(),
        final(c).same_size(old(c)),
        forall|px: int, py: int, ch: int|
            #![trigger final(c).at(px, py, ch)]
            on_image(old(c).width as int, old(c).height as int, px, py) && 0 <= ch < 4
                ==> final(c).at(px, py, ch) == if glyph_covers(
                pattern_rows(*pattern),
                x as int,
                y as int,
                scale as int,
                7,
                px,
                py,
            ) {
                opaque(color, ch)
            } else {
                old(c).at(px, py, ch)
            },
{
    let ghost start = *c;
    let ghost rows = pattern_rows(*pattern);
    let ghost w = c.width as int;
    let ghost h = c.height as int;
    let ghost gx = x as int;
    let ghost gy = y as int;
    let ghost s = scale as int;
    let mut row: usize = 0;
    while row < 7
        invariant
            c.wf(),
            c.same_size(&start),
            w == c.width as int,
            h == c.height as int,
            start.width as int == w,
            row <= 7,
            rows == pattern_rows(*pattern),
            glyph_fits(rows, gx, gy, s),
            gx == x,
            gy == y,
            s == scale,
            forall|px: int, py: int, ch: int|
                #![trigger c.at(px, py, ch)]
                on_image(w, h, px, py) && 0 <= ch < 4 ==> c.at(px, py, ch) == if glyph_covers(
                    rows,
                    gx,
                    gy,
                    s,
                    row as int,
                    px,
                    py,
                ) {
                    opaque(color, ch)
                } else {
                    start.at(px, py, ch)
                },
        decreases 7 - row,
    {
        let line = to_chars(pattern[row]);
        assert(line@ == rows[row as int]);
        let mut col: usize = 0;
        while col < line.len()
            invariant
                c.wf(),
                c.same_size(&start),
                w == c.width as int,
                h == c.height as int,
                start.width as int == w,
                row < 7,
                col <= line@.len(),
                rows == pattern_rows(*pattern),
                line@ == rows[row as int],
                glyph_fits(rows, gx, gy, s),
                gx == x,
                gy == y,
                s == scale,
                forall|px: int, py: int, ch: int|
                    #![trigger c.at(px, py, ch)]
                    on_image(w, h, px, py) && 0 <= ch < 4 ==> c.at(px, py, ch) == if glyph_covers(
                        rows,
                        gx,
                        gy,
                        s,
                        row as int,
                        px,
                        py,
                    ) || line_covers(line@, gx, gy, s, row as int, col as int, px, py) {
                        opaque(color, ch)
                    } else {
                        start.at(px, py, ch)
                    },
            decreases line@.len() - col,
        {
            if line[col] == '1' {
                proof {
                    assert(rows[row as int][col as int] == '1');
                    assert(gx + col * s + s <= u32::MAX && gy + row * s + s <= u32::MAX);
                    if s > 0 {
                        assert(col <= col * s) by (nonlinear_arith)
                            requires
                                s > 0,
                                col >= 0,
                        ;
                        assert(row <= row * s) by (nonlinear_arith)
                            requires
                                s > 0,
                                row >= 0,
                        ;
                    }
                }
                let cx = (col as u32) * scale;
                let cy = (row as u32) * scale;
                proof {
                    if s > 0 {
                        assert(cx == col * s);
                        assert(cy == row * s);
                    } else {
                        assert(cx == 0 && col * s == 0) by (nonlinear_arith)
                            requires
                                s == 0,
                                cx == (col as u32) * scale,
                                scale == s,
                        ;
                        assert(cy == 0 && row * s == 0) by (nonlinear_arith)
                            requires
                                s == 0,
                                cy == (row as u32) * scale,
                                scale == s,
                        ;
                    }
                }
                let sx = x + cx;
                let sy = y + cy;
                fill_rect(c, sx, sy, sx + scale, sy + scale, color);
            }
            col = col + 1;
        }
        assert(line@.len() == rows[row as int].len());
        row = row + 1;
    }
}

/// A glyph of the font has seven rows of five cells.
pub proof fn lemma_glyph_shape(ch: char)
    ensures
        glyph_rows(ch) matches Some(rows) ==> rows.len() == 7 && forall|r: int|
            0 <= r < 7 ==> #[trigger] rows[r].len() == 5,
{
    reveal_strlit("00000");
    reveal_strlit("00001");
    reveal_strlit("00010");
    reveal_strlit("00100");
    reveal_strlit("00110");
    reveal_strlit("01000");
    reveal_strlit("01010");
    reveal_strlit("01100");
    reveal_strlit("01110");
    reveal_strlit("01111");
    reveal_strlit("10000");
    reveal_strlit("10001");
    reveal_strlit("10010");
    reveal_strlit("10011");
    reveal_strlit("10100");
    reveal_strlit("10101");
    reveal_strlit("11001");
    reveal_strlit("11110");
    reveal_strlit("11111");
}

/// The characters the bitmap font draws: the digits, `A`, `C`, `D`, `E`,
/// `F`, `I`, `L`, `O`, `R`, `T`, `(`, `)` and `-`.
pub open spec fn font_char(c: char) -> bool {
    ||| '0' <= c <= '9'
    ||| c == 'A' || c == 'C' || c == 'D' || c == 'E' || c == 'F'
    ||| c == 'I' || c == 'L' || c == 'O' || c == 'R' || c == 'T'
    ||| c == '(' || c == ')' || c == '-'
}

proof fn lemma_glyph_cells(c: char)
    ensures
        glyph_rows(c) matches Some(rows) ==> forall|r: int, i: int|
            0 <= r < 7 && 0 <= i < 5 ==> (#[trigger] rows[r][i] == '0' || rows[r][i] == '1'),
{
    reveal_strlit("00000");
    reveal_strlit("00001");
    reveal_strlit("00010");
    reveal_strlit("00100");
    reveal_strlit("00110");
    reveal_strlit("01000");
    reveal_strlit("01010");
    reveal_strlit("01100");
    reveal_strlit("01110");
    reveal_strlit("01111");
    reveal_strlit("10000");
    reveal_strlit("10001");
    reveal_strlit("10010");
    reveal_strlit("10011");
    reveal_strlit("10100");
    reveal_strlit("10101");
    reveal_strlit("11001");
    reveal_strlit("11110");
    reveal_strlit("11111");
}

proof fn lemma_glyph_unique_0(d: char)
    ensures
        glyph_rows(d) == glyph_rows('0') ==> d == '0',
{
    reveal_strlit("00000");
    reveal_strlit("00001");
    reveal_strlit("00010");
    reveal_strlit("00100");
    reveal_strlit("00110");
    reveal_strlit("01000");
    reveal_strlit("01010");
    reveal_strlit("01100");
    reveal_strlit("01110");
    reveal_strlit("01111");
    reveal_strlit("10000");
    reveal_strlit("10001");
    reveal_strlit("10010");
    reveal_strlit("10011");
    reveal_strlit("10100");
    reveal_strlit("10101");
    reveal_strlit("11001");
    reveal_strlit("11110");
    reveal_strlit("11111");
    if glyph_rows(d) == glyph_rows('0') {
        lemma_glyph_shape(d);
        if d == '1' {
            assert(glyph_rows(d)->0[0][1] != glyph_rows('0')->0[0][1]);
        }
        if d == '2' {
            assert(glyph_rows(d)->0[2][0] != glyph_rows('0')->0[2][0]);
        }
        if d == '3' {
            assert(glyph_rows(d)->0[0][0] != glyph_rows('0')->0[0][0]);
        }
        if d == '4' {
            assert(glyph_rows(d)->0[0][1] != glyph_rows('0')->0[0][1]);
        }
        if d == '5' {
            assert(glyph_rows(d)->0[0][0] != glyph_rows('0')->0[0][0]);
        }
        if d == '6' {
            assert(glyph_rows(d)->0[1][4] != glyph_rows('0')->0[1][4]);
        }
        if d == '7' {
            assert(glyph_rows(d)->0[0][0] != glyph_rows('0')->0[0][0]);
        }
        if d == '8' {
            assert(glyph_rows(d)->0[2][3] != glyph_rows('0')->0[2][3]);
        }
        if d == '9' {
            assert(glyph_rows(d)->0[2][3] != glyph_rows('0')->0[2][3]);
        }
        if d == 'A' {
            assert(glyph_rows(d)->0[2][3] != glyph_rows('0')->0[2][3]);
        }
        if d == 'C' {
            assert(glyph_rows(d)->0[0][4] != glyph_rows('0')->0[0][4]);
        }
        if d == 'D' {
            assert(glyph_rows(d)->0[0][0] != glyph_rows('0')->0[0][0]);
        }
        if d == 'E' {
            assert(glyph_rows(d)->0[0][0] != glyph_rows('0')->0[0][0]);
        }
        if d == 'F' {
            assert(glyph_rows(d)->0[0][0] != glyph_rows('0')->0[0][0]);
        }
        if d == 'I' {
            assert(glyph_rows(d)->0[0][0] != glyph_rows('0')->0[0][0]);
        }
        if d == 'L' {
            assert(glyph_rows(d)->0[0][0] != glyph_rows('0')->0[0][0]);
        }
        if d == 'O' {
            assert(glyph_rows(d)->0[2][3] != glyph_rows('0')->0[2][3]);
        }
        if d == 'R' {
            assert(glyph_rows(d)->0[0][0] != glyph_rows('0')->0[0][0]);
        }
        if d == 'T' {
            assert(glyph_rows(d)->0[0][0] != glyph_rows('0')->0[0][0]);
        }
        if d == '(' {
            assert(glyph_rows(d)->0[0][1] != glyph_rows('0')->0[0][1]);
        }
        if d == ')' {
            assert(glyph_rows(d)->0[0][2] != glyph_rows('0')->0[0][2]);
        }
        if d == '-' {
            assert(glyph_rows(d)->0[0][1] != glyph_rows('0')->0[0][1]);
        }
    }
}

proof fn lemma_glyph_unique_1(d: char)
    ensures
        glyph_rows(d) == glyph_rows('1') ==> d == '1',
{
    reveal_strlit("00000");
    reveal_strlit("00001");
    reveal_strlit("00010");
    reveal_strlit("00100");
    reveal_strlit("00110");
    reveal_strlit("01000");
    reveal_strlit("01010");
    reveal_strlit("01100");
    reveal_strlit("01110");
    reveal_strlit("01111");
    reveal_strlit("10000");
    reveal_strlit("10001");
    reveal_strlit("10010");
    reveal_strlit("10011");
    reveal_strlit("10100");
    reveal_strlit("10101");
    reveal_strlit("11001");
    reveal_strlit("11110");
    reveal_strlit("11111");
    if glyph_rows(d) == glyph_rows('1') {
        lemma_glyph_shape(d);
        if d == '0' {
            assert(glyph_rows(d)->0[0][1] != glyph_rows('1')->0[0][1]);
        }
        if d == '2' {
            assert(glyph_rows(d)->0[0][1] != glyph_rows('1')->0[0][1]);
        }
        if d == '3' {
            assert(glyph_rows(d)->0[0][0] != glyph_rows('1')->0[0][0]);
        }
        if d == '4' {
            assert(glyph_rows(d)->0[0][2] != glyph_rows('1')->0[0][2]);
        }
        if d == '5' {
            assert(glyph_rows(d)->0[0][0] != glyph_rows('1')->0[0][0]);
        }
        if d == '6' {
            assert(glyph_rows(d)->0[0][1] != glyph_rows('1')->0[0][1]);
        }
        if d == '7' {
            assert(glyph_rows(d)->0[0][0] != glyph_rows('1')->0[0][0]);
        }
        if d == '8' {
            assert(glyph_rows(d)->0[0][1] != glyph_rows('1')->0[0][1]);
        }
        if d == '9' {
            assert(glyph_rows(d)->0[0][1] != glyph_rows('1')->0[0][1]);
        }
        if d == 'A' {
            assert(glyph_rows(d)->0[0][1] != glyph_rows('1')->0[0][1]);
        }
        if d == 'C' {
            assert(glyph_rows(d)->0[0][1] != glyph_rows('1')->0[0][1]);
        }
        if d == 'D' {
            assert(glyph_rows(d)->0[0][0] != glyph_rows('1')->0[0][0]);
        }
        if d == 'E' {
            assert(glyph_rows(d)->0[0][0] != glyph_rows('1')->0[0][0]);
        }
        if d == 'F' {
            assert(glyph_rows(d)->0[0][0] != glyph_rows('1')->0[0][0]);
        }
        if d == 'I' {
            assert(glyph_rows(d)->0[0][0] != glyph_rows('1')->0[0][0]);
        }
        if d == 'L' {
            assert(glyph_rows(d)->0[0][0] != glyph_rows('1')->0[0][0]);
        }
        if d == 'O' {
            assert(glyph_rows(d)->0[0][1] != glyph_rows('1')->0[0][1]);
        }
        if d == 'R' {
            assert(glyph_rows(d)->0[0][0] != glyph_rows('1')->0[0][0]);
        }
        if d == 'T' {
            assert(glyph_rows(d)->0[0][0] != glyph_rows('1')->0[0][0]);
        }
        if d == '(' {
            assert(glyph_rows(d)->0[0][2] != glyph_rows('1')->0[0][2]);
        }
        if d == ')' {
            assert(glyph_rows(d)->0[0][1] != glyph_rows('1')->0[0][1]);
        }
        if d == '-' {
            assert(glyph_rows(d)->0[0][2] != glyph_rows('1')->0[0][2]);
        }
    }
}

proof fn lemma_glyph_unique_2(d: char)
    ensures
        glyph_rows(d) == glyph_rows('2') ==> d == '2',
{
    reveal_strlit("00000");
    reveal_strlit("00001");
    reveal_strlit("00010");
    reveal_strlit("00100");
    reveal_strlit("00110");
    reveal_strlit("01000");
    reveal_strlit("01010");
    reveal_strlit("01100");
    reveal_strlit("01110");
    reveal_strlit("01111");
    reveal_strlit("10000");
    reveal_strlit("10001");
    reveal_strlit("10010");
    reveal_strlit("10011");
    reveal_strlit("10100");
    reveal_strlit("10101");
    reveal_strlit("11001");
    reveal_strlit("11110");
    reveal_strlit("11111");
    if glyph_rows(d) == glyph_rows('2') {
        lemma_glyph_shape(d);
        if d == '0' {
            assert(glyph_rows(d)->0[2][0] != glyph_rows('2')->0[2][0]);
        }
        if d == '1' {
            assert(glyph_rows(d)->0[0][1] != glyph_rows('2')->0[0][1]);
        }
        if d == '3' {
            assert(glyph_rows(d)->0[0][0] != glyph_rows('2')->0[0][0]);
        }
        if d == '4' {
            assert(glyph_rows(d)->0[0][1] != glyph_rows('2')->0[0][1]);
        }
        if d == '5' {
            assert(glyph_rows(d)->0[0][0] != glyph_rows('2')->0[0][0]);
        }
        if d == '6' {
            assert(glyph_rows(d)->0[1][4] != glyph_rows('2')->0[1][4]);
        }
        if d == '7' {
            assert(glyph_rows(d)->0[0][0] != glyph_rows('2')->0[0][0]);
        }
        if d == '8' {
            assert(glyph_rows(d)->0[2][0] != glyph_rows('2')->0[2][0]);
        }
        if d == '9' {
            assert(glyph_rows(d)->0[2][0] != glyph_rows('2')->0[2][0]);
        }
        if d == 'A' {
            assert(glyph_rows(d)->0[2][0] != glyph_rows('2')->0[2][0]);
        }
        if d == 'C' {
            assert(glyph_rows(d)->0[0][4] != glyph_rows('2')->0[0][4]);
        }
        if d == 'D' {
            assert(glyph_rows(d)->0[0][0] != glyph_rows('2')->0[0][0]);
        }
        if d == 'E' {
            assert(glyph_rows(d)->0[0][0] != glyph_rows('2')->0[0][0]);
        }
        if d == 'F' {
            assert(glyph_rows(d)->0[0][0] != glyph_rows('2')->0[0][0]);
        }
        if d == 'I' {
            assert(glyph_rows(d)->0[0][0] != glyph_rows('2')->0[0][0]);
        }
        if d == 'L' {
            assert(glyph_rows(d)->0[0][0] != glyph_rows('2')->0[0][0]);
        }
        if d == 'O' {
            assert(glyph_rows(d)->0[2][0] != glyph_rows('2')->0[2][0]);
        }
        if d == 'R' {
            assert(glyph_rows(d)->0[0][0] != glyph_rows('2')->0[0][0]);
        }
        if d == 'T' {
            assert(glyph_rows(d)->0[0][0] != glyph_rows('2')->0[0][0]);
        }
        if d == '(' {
            assert(glyph_rows(d)->0[0][1] != glyph_rows('2')->0[0][1]);
        }
        if d == ')' {
            assert(glyph_rows(d)->0[0][2] != glyph_rows('2')->0[0][2]);
        }
        if d == '-' {
            assert(glyph_rows(d)->0[0][1] != glyph_rows('2')->0[0][1]);
        }
    }
}

proof fn lemma_glyph_unique_3(d: char)
    ensures
        glyph_rows(d) == glyph_rows('3') ==> d == '3',
{
    reveal_strlit("00000");
    reveal_strlit("00001");
    reveal_strlit("00010");
    reveal_strlit("00100");
    reveal_strlit("00110");
    reveal_strlit("01000");
    reveal_strlit("01010");
    reveal_strlit("01100");
    reveal_strlit("01110");
    reveal_strlit("01111");
    reveal_strlit("10000");
    reveal_strlit("10001");
    reveal_strlit("10010");
    reveal_strlit("10011");
    reveal_strlit("10100");
    reveal_strlit("10101");
    reveal_strlit("11001");
    reveal_strlit("11110");
    reveal_strlit("11111");
    if glyph_rows(d) == glyph_rows('3') {
        lemma_glyph_shape(d);
        if d == '0' {
            assert(glyph_rows(d)->0[0][0] != glyph_rows('3')->0[0][0]);
        }
        if d == '1' {
            assert(glyph_rows(d)->0[0][0] != glyph_rows('3')->0[0][0]);
        }
        if d == '2' {
            assert(glyph_rows(d)->0[0][0] != glyph_rows('3')->0[0][0]);
        }
        if d == '4' {
            assert(glyph_rows(d)->0[0][0] != glyph_rows('3')->0[0][0]);
        }
        if d == '5' {
            assert(glyph_rows(d)->0[0][4] != glyph_rows('3')->0[0][4]);
        }
        if d == '6' {
            assert(glyph_rows(d)->0[0][0] != glyph_rows('3')->0[0][0]);
        }
        if d == '7' {
            assert(glyph_rows(d)->0[0][4] != glyph_rows('3')->0[0][4]);
        }
        if d == '8' {
            assert(glyph_rows(d)->0[0][0] != glyph_rows('3')->0[0][0]);
        }
        if d == '9' {
            assert(glyph_rows(d)->0[0][0] != glyph_rows('3')->0[0][0]);
        }
        if d == 'A' {
            assert(glyph_rows(d)->0[0][0] != glyph_rows('3')->0[0][0]);
        }
        if d == 'C' {
            assert(glyph_rows(d)->0[0][0] != glyph_rows('3')->0[0][0]);
        }
        if d == 'D' {
            assert(glyph_rows(d)->0[1][0] != glyph_rows('3')->0[1][0]);
        }
        if d == 'E' {
            assert(glyph_rows(d)->0[0][4] != glyph_rows('3')->0[0][4]);
        }
        if d == 'F' {
            assert(glyph_rows(d)->0[0][4] != glyph_rows('3')->0[0][4]);
        }
        if d == 'I' {
            assert(glyph_rows(d)->0[0][4] != glyph_rows('3')->0[0][4]);
        }
        if d == 'L' {
            assert(glyph_rows(d)->0[0][1] != glyph_rows('3')->0[0][1]);
        }
        if d == 'O' {
            assert(glyph_rows(d)->0[0][0] != glyph_rows('3')->0[0][0]);
        }
        if d == 'R' {
            assert(glyph_rows(d)->0[1][0] != glyph_rows('3')->0[1][0]);
        }
        if d == 'T' {
            assert(glyph_rows(d)->0[0][4] != glyph_rows('3')->0[0][4]);
        }
        if d == '(' {
            assert(glyph_rows(d)->0[0][0] != glyph_rows('3')->0[0][0]);
        }
        if d == ')' {
            assert(glyph_rows(d)->0[0][0] != glyph_rows('3')->0[0][0]);
        }
        if d == '-' {
            assert(glyph_rows(d)->0[0][0] != glyph_rows('3')->0[0][0]);
        }
    }
}

proof fn lemma_glyph_unique_4(d: char)
    ensures
        glyph_rows(d) == glyph_rows('4') ==> d == '4',
{
    reveal_strlit("00000");
    reveal_strlit("00001");
    reveal_strlit("00010");
    reveal_strlit("00100");
    reveal_strlit("00110");
    reveal_strlit("01000");
    reveal_strlit("01010");
    reveal_strlit("01100");
    reveal_strlit("01110");
    reveal_strlit("01111");
    reveal_strlit("10000");
    reveal_strlit("10001");
    reveal_strlit("10010");
    reveal_strlit("10011");
    reveal_strlit("10100");
    reveal_strlit("10101");
    reveal_strlit("11001");
    reveal_strlit("11110");
    reveal_strlit("11111");
    if glyph_rows(d) == glyph_rows('4') {
        lemma_glyph_shape(d);
        if d == '0' {
            assert(glyph_rows(d)->0[0][1] != glyph_rows('4')->0[0][1]);
        }
        if d == '1' {
            assert(glyph_rows(d)->0[0][2] != glyph_rows('4')->0[0][2]);
        }
        if d == '2' {
            assert(glyph_rows(d)->0[0][1] != glyph_rows('4')->0[0][1]);
        }
        if d == '3' {
            assert(glyph_rows(d)->0[0][0] != glyph_rows('4')->0[0][0]);
        }
        if d == '5' {
            assert(glyph_rows(d)->0[0][0] != glyph_rows('4')->0[0][0]);
        }
        if d == '6' {
            assert(glyph_rows(d)->0[0][1] != glyph_rows('4')->0[0][1]);
        }
        if d == '7' {
            assert(glyph_rows(d)->0[0][0] != glyph_rows('4')->0[0][0]);
        }
        if d == '8' {
            assert(glyph_rows(d)->0[0][1] != glyph_rows('4')->0[0][1]);
        }
        if d == '9' {
            assert(glyph_rows(d)->0[0][1] != glyph_rows('4')->0[0][1]);
        }
        if d == 'A' {
            assert(glyph_rows(d)->0[0][1] != glyph_rows('4')->0[0][1]);
        }
        if d == 'C' {
            assert(glyph_rows(d)->0[0][1] != glyph_rows('4')->0[0][1]);
        }
        if d == 'D' {
            assert(glyph_rows(d)->0[0][0] != glyph_rows('4')->0[0][0]);
        }
        if d == 'E' {
            assert(glyph_rows(d)->0[0][0] != glyph_rows('4')->0[0][0]);
        }
        if d == 'F' {
            assert(glyph_rows(d)->0[0][0] != glyph_rows('4')->0[0][0]);
        }
        if d == 'I' {
            assert(glyph_rows(d)->0[0][0] != glyph_rows('4')->0[0][0]);
        }
        if d == 'L' {
            assert(glyph_rows(d)->0[0][0] != glyph_rows('4')->0[0][0]);
        }
        if d == 'O' {
            assert(glyph_rows(d)->0[0][1] != glyph_rows('4')->0[0][1]);
        }
        if d == 'R' {
            assert(glyph_rows(d)->0[0][0] != glyph_rows('4')->0[0][0]);
        }
        if d == 'T' {
            assert(glyph_rows(d)->0[0][0] != glyph_rows('4')->0[0][0]);
        }
        if d == '(' {
            assert(glyph_rows(d)->0[1][3] != glyph_rows('4')->0[1][3]);
        }
        if d == ')' {
            assert(glyph_rows(d)->0[0][1] != glyph_rows('4')->0[0][1]);
        }
        if d == '-' {
            assert(glyph_rows(d)->0[0][3] != glyph_rows('4')->0[0][3]);
        }
    }
}

proof fn lemma_glyph_unique_5(d: char)
    ensures
        glyph_rows(d) == glyph_rows('5') ==> d == '5',
{
    reveal_strlit("00000");
    reveal_strlit("00001");
    reveal_strlit("00010");
    reveal_strlit("00100");
    reveal_strlit("00110");
    reveal_strlit("01000");
    reveal_strlit("01010");
    reveal_strlit("01100");
    reveal_strlit("01110");
    reveal_strlit("01111");
    reveal_strlit("10000");
    reveal_strlit("10001");
    reveal_strlit("10010");
    reveal_strlit("10011");
    reveal_strlit("10100");
    reveal_strlit("10101");
    reveal_strlit("11001");
    reveal_strlit("11110");
    reveal_strlit("11111");
    if glyph_rows(d) == glyph_rows('5') {
        lemma_glyph_shape(d);
        if d == '0' {
            assert(glyph_rows(d)->0[0][0] != glyph_rows('5')->0[0][0]);
        }
        if d == '1' {
            assert(glyph_rows(d)->0[0][0] != glyph_rows('5')->0[0][0]);
        }
        if d == '2' {
            assert(glyph_rows(d)->0[0][0] != glyph_rows('5')->0[0][0]);
        }
        if d == '3' {
            assert(glyph_rows(d)->0[0][4] != glyph_rows('5')->0[0][4]);
        }
        if d == '4' {
            assert(glyph_rows(d)->0[0][0] != glyph_rows('5')->0[0][0]);
        }
        if d == '6' {
            assert(glyph_rows(d)->0[0][0] != glyph_rows('5')->0[0][0]);
        }
        if d == '7' {
            assert(glyph_rows(d)->0[1][0] != glyph_rows('5')->0[1][0]);
        }
        if d == '8' {
            assert(glyph_rows(d)->0[0][0] != glyph_rows('5')->0[0][0]);
        }
        if d == '9' {
            assert(glyph_rows(d)->0[0][0] != glyph_rows('5')->0[0][0]);
        }
        if d == 'A' {
            assert(glyph_rows(d)->0[0][0] != glyph_rows('5')->0[0][0]);
        }
        if d == 'C' {
            assert(glyph_rows(d)->0[0][0] != glyph_rows('5')->0[0][0]);
        }
        if d == 'D' {
            assert(glyph_rows(d)->0[0][4] != glyph_rows('5')->0[0][4]);
        }
        if d == 'E' {
            assert(glyph_rows(d)->0[4][0] != glyph_rows('5')->0[4][0]);
        }
        if d == 'F' {
            assert(glyph_rows(d)->0[4][0] != glyph_rows('5')->0[4][0]);
        }
        if d == 'I' {
            assert(glyph_rows(d)->0[1][0] != glyph_rows('5')->0[1][0]);
        }
        if d == 'L' {
            assert(glyph_rows(d)->0[0][1] != glyph_rows('5')->0[0][1]);
        }
        if d == 'O' {
            assert(glyph_rows(d)->0[0][0] != glyph_rows('5')->0[0][0]);
        }
        if d == 'R' {
            assert(glyph_rows(d)->0[0][4] != glyph_rows('5')->0[0][4]);
        }
        if d == 'T' {
            assert(glyph_rows(d)->0[1][0] != glyph_rows('5')->0[1][0]);
        }
        if d == '(' {
            assert(glyph_rows(d)->0[0][0] != glyph_rows('5')->0[0][0]);
        }
        if d == ')' {
            assert(glyph_rows(d)->0[0][0] != glyph_rows('5')->0[0][0]);
        }
        if d == '-' {
            assert(glyph_rows(d)->0[0][0] != glyph_rows('5')->0[0][0]);
        }
    }
}

proof fn lemma_glyph_unique_6(d: char)
    ensures
        glyph_rows(d) == glyph_rows('6') ==> d == '6',
{
    reveal_strlit("00000");
    reveal_strlit("00001");
    reveal_strlit("00010");
    reveal_strlit("00100");
    reveal_strlit("00110");
    reveal_strlit("01000");
    reveal_strlit("01010");
    reveal_strlit("01100");
    reveal_strlit("01110");
    reveal_strlit("01111");
    reveal_strlit("10000");
    reveal_strlit("10001");
    reveal_strlit("10010");
    reveal_strlit("10011");
    reveal_strlit("10100");
    reveal_strlit("10101");
    reveal_strlit("11001");
    reveal_strlit("11110");
    reveal_strlit("11111");
    if glyph_rows(d) == glyph_rows('6') {
        lemma_glyph_shape(d);
        if d == '0' {
            assert(glyph_rows(d)->0[1][4] != glyph_rows('6')->0[1][4]);
        }
        if d == '1' {
            assert(glyph_rows(d)->0[0][1] != glyph_rows('6')->0[0][1]);
        }
        if d == '2' {
            assert(glyph_rows(d)->0[1][4] != glyph_rows('6')->0[1][4]);
        }
        if d == '3' {
            assert(glyph_rows(d)->0[0][0] != glyph_rows('6')->0[0][0]);
        }
        if d == '4' {
            assert(glyph_rows(d)->0[0][1] != glyph_rows('6')->0[0][1]);
        }
        if d == '5' {
            assert(glyph_rows(d)->0[0][0] != glyph_rows('6')->0[0][0]);
        }
        if d == '7' {
            assert(glyph_rows(d)->0[0][0] != glyph_rows('6')->0[0][0]);
        }
        if d == '8' {
            assert(glyph_rows(d)->0[1][4] != glyph_rows('6')->0[1][4]);
        }
        if d == '9' {
            assert(glyph_rows(d)->0[1][4] != glyph_rows('6')->0[1][4]);
        }
        if d == 'A' {
            assert(glyph_rows(d)->0[1][4] != glyph_rows('6')->0[1][4]);
        }
        if d == 'C' {
            assert(glyph_rows(d)->0[0][4] != glyph_rows('6')->0[0][4]);
        }
        if d == 'D' {
            assert(glyph_rows(d)->0[0][0] != glyph_rows('6')->0[0][0]);
        }
        if d == 'E' {
            assert(glyph_rows(d)->0[0][0] != glyph_rows('6')->0[0][0]);
        }
        if d == 'F' {
            assert(glyph_rows(d)->0[0][0] != glyph_rows('6')->0[0][0]);
        }
        if d == 'I' {
            assert(glyph_rows(d)->0[0][0] != glyph_rows('6')->0[0][0]);
        }
        if d == 'L' {
            assert(glyph_rows(d)->0[0][0] != glyph_rows('6')->0[0][0]);
        }
        if d == 'O' {
            assert(glyph_rows(d)->0[1][4] != glyph_rows('6')->0[1][4]);
        }
        if d == 'R' {
            assert(glyph_rows(d)->0[0][0] != glyph_rows('6')->0[0][0]);
        }
        if d == 'T' {
            assert(glyph_rows(d)->0[0][0] != glyph_rows('6')->0[0][0]);
        }
        if d == '(' {
            assert(glyph_rows(d)->0[0][1] != glyph_rows('6')->0[0][1]);
        }
        if d == ')' {
            assert(glyph_rows(d)->0[0][2] != glyph_rows('6')->0[0][2]);
        }
        if d == '-' {
            assert(glyph_rows(d)->0[0][1] != glyph_rows('6')->0[0][1]);
        }
    }
}

proof fn lemma_glyph_unique_7(d: char)
    ensures
        glyph_rows(d) == glyph_rows('7') ==> d == '7',
{
    reveal_strlit("00000");
    reveal_strlit("00001");
    reveal_strlit("00010");
    reveal_strlit("00100");
    reveal_strlit("00110");
    reveal_strlit("01000");
    reveal_strlit("01010");
    reveal_strlit("01100");
    reveal_strlit("01110");
    reveal_strlit("01111");
    reveal_strlit("10000");
    reveal_strlit("10001");
    reveal_strlit("10010");
    reveal_strlit("10011");
    reveal_strlit("10100");
    reveal_strlit("10101");
    reveal_strlit("11001");
    reveal_strlit("11110");
    reveal_strlit("11111");
    if glyph_rows(d) == glyph_rows('7') {
        lemma_glyph_shape(d);
        if d == '0' {
            assert(glyph_rows(d)->0[0][0] != glyph_rows('7')->0[0][0]);
        }
        if d == '1' {
            assert(glyph_rows(d)->0[0][0] != glyph_rows('7')->0[0][0]);
        }
        if d == '2' {
            assert(glyph_rows(d)->0[0][0] != glyph_rows('7')->0[0][0]);
        }
        if d == '3' {
            assert(glyph_rows(d)->0[0][4] != glyph_rows('7')->0[0][4]);
        }
        if d == '4' {
            assert(glyph_rows(d)->0[0][0] != glyph_rows('7')->0[0][0]);
        }
        if d == '5' {
            assert(glyph_rows(d)->0[1][0] != glyph_rows('7')->0[1][0]);
        }
        if d == '6' {
            assert(glyph_rows(d)->0[0][0] != glyph_rows('7')->0[0][0]);
        }
        if d == '8' {
            assert(glyph_rows(d)->0[0][0] != glyph_rows('7')->0[0][0]);
        }
        if d == '9' {
            assert(glyph_rows(d)->0[0][0] != glyph_rows('7')->0[0][0]);
        }
        if d == 'A' {
            assert(glyph_rows(d)->0[0][0] != glyph_rows('7')->0[0][0]);
        }
        if d == 'C' {
            assert(glyph_rows(d)->0[0][0] != glyph_rows('7')->0[0][0]);
        }
        if d == 'D' {
            assert(glyph_rows(d)->0[0][4] != glyph_rows('7')->0[0][4]);
        }
        if d == 'E' {
            assert(glyph_rows(d)->0[1][0] != glyph_rows('7')->0[1][0]);
        }
        if d == 'F' {
            assert(glyph_rows(d)->0[1][0] != glyph_rows('7')->0[1][0]);
        }
        if d == 'I' {
            assert(glyph_rows(d)->0[1][2] != glyph_rows('7')->0[1][2]);
        }
        if d == 'L' {
            assert(glyph_rows(d)->0[0][1] != glyph_rows('7')->0[0][1]);
        }
        if d == 'O' {
            assert(glyph_rows(d)->0[0][0] != glyph_rows('7')->0[0][0]);
        }
        if d == 'R' {
            assert(glyph_rows(d)->0[0][4] != glyph_rows('7')->0[0][4]);
        }
        if d == 'T' {
            assert(glyph_rows(d)->0[1][2] != glyph_rows('7')->0[1][2]);
        }
        if d == '(' {
            assert(glyph_rows(d)->0[0][0] != glyph_rows('7')->0[0][0]);
        }
        if d == ')' {
            assert(glyph_rows(d)->0[0][0] != glyph_rows('7')->0[0][0]);
        }
        if d == '-' {
            assert(glyph_rows(d)->0[0][0] != glyph_rows('7')->0[0][0]);
        }
    }
}

proof fn lemma_glyph_unique_8(d: char)
    ensures
        glyph_rows(d) == glyph_rows('8') ==> d == '8',
{
    reveal_strlit("00000");
    reveal_strlit("00001");
    reveal_strlit("00010");
    reveal_strlit("00100");
    reveal_strlit("00110");
    reveal_strlit("01000");
    reveal_strlit("01010");
    reveal_strlit("01100");
    reveal_strlit("01110");
    reveal_strlit("01111");
    reveal_strlit("10000");
    reveal_strlit("10001");
    reveal_strlit("10010");
    reveal_strlit("10011");
    reveal_strlit("10100");
    reveal_strlit("10101");
    reveal_strlit("11001");
    reveal_strlit("11110");
    reveal_strlit("11111");
    if glyph_rows(d) == glyph_rows('8') {
        lemma_glyph_shape(d);
        if d == '0' {
            assert(glyph_rows(d)->0[2][3] != glyph_rows('8')->0[2][3]);
        }
        if d == '1' {
            assert(glyph_rows(d)->0[0][1] != glyph_rows('8')->0[0][1]);
        }
        if d == '2' {
            assert(glyph_rows(d)->0[2][0] != glyph_rows('8')->0[2][0]);
        }
        if d == '3' {
            assert(glyph_rows(d)->0[0][0] != glyph_rows('8')->0[0][0]);
        }
        if d == '4' {
            assert(glyph_rows(d)->0[0][1] != glyph_rows('8')->0[0][1]);
        }
        if d == '5' {
            assert(glyph_rows(d)->0[0][0] != glyph_rows('8')->0[0][0]);
        }
        if d == '6' {
            assert(glyph_rows(d)->0[1][4] != glyph_rows('8')->0[1][4]);
        }
        if d == '7' {
            assert(glyph_rows(d)->0[0][0] != glyph_rows('8')->0[0][0]);
        }
        if d == '9' {
            assert(glyph_rows(d)->0[3][4] != glyph_rows('8')->0[3][4]);
        }
        if d == 'A' {
            assert(glyph_rows(d)->0[3][0] != glyph_rows('8')->0[3][0]);
        }
        if d == 'C' {
            assert(glyph_rows(d)->0[0][4] != glyph_rows('8')->0[0][4]);
        }
        if d == 'D' {
            assert(glyph_rows(d)->0[0][0] != glyph_rows('8')->0[0][0]);
        }
        if d == 'E' {
            assert(glyph_rows(d)->0[0][0] != glyph_rows('8')->0[0][0]);
        }
        if d == 'F' {
            assert(glyph_rows(d)->0[0][0] != glyph_rows('8')->0[0][0]);
        }
        if d == 'I' {
            assert(glyph_rows(d)->0[0][0] != glyph_rows('8')->0[0][0]);
        }
        if d == 'L' {
            assert(glyph_rows(d)->0[0][0] != glyph_rows('8')->0[0][0]);
        }
        if d == 'O' {
            assert(glyph_rows(d)->0[3][0] != glyph_rows('8')->0[3][0]);
        }
        if d == 'R' {
            assert(glyph_rows(d)->0[0][0] != glyph_rows('8')->0[0][0]);
        }
        if d == 'T' {
            assert(glyph_rows(d)->0[0][0] != glyph_rows('8')->0[0][0]);
        }
        if d == '(' {
            assert(glyph_rows(d)->0[0][1] != glyph_rows('8')->0[0][1]);
        }
        if d == ')' {
            assert(glyph_rows(d)->0[0][2] != glyph_rows('8')->0[0][2]);
        }
        if d == '-' {
            assert(glyph_rows(d)->0[0][1] != glyph_rows('8')->0[0][1]);
        }
    }
}

proof fn lemma_glyph_unique_9(d: char)
    ensures
        glyph_rows(d) == glyph_rows('9') ==> d == '9',
{
    reveal_strlit("00000");
    reveal_strlit("00001");
    reveal_strlit("00010");
    reveal_strlit("00100");
    reveal_strlit("00110");
    reveal_strlit("01000");
    reveal_strlit("01010");
    reveal_strlit("01100");
    reveal_strlit("01110");
    reveal_strlit("01111");
    reveal_strlit("10000");
    reveal_strlit("10001");
    reveal_strlit("10010");
    reveal_strlit("10011");
    reveal_strlit("10100");
    reveal_strlit("10101");
    reveal_strlit("11001");
    reveal_strlit("11110");
    reveal_strlit("11111");
    if glyph_rows(d) == glyph_rows('9') {
        lemma_glyph_shape(d);
        if d == '0' {
            assert(glyph_rows(d)->0[2][3] != glyph_rows('9')->0[2][3]);
        }
        if d == '1' {
            assert(glyph_rows(d)->0[0][1] != glyph_rows('9')->0[0][1]);
        }
        if d == '2' {
            assert(glyph_rows(d)->0[2][0] != glyph_rows('9')->0[2][0]);
        }
        if d == '3' {
            assert(glyph_rows(d)->0[0][0] != glyph_rows('9')->0[0][0]);
        }
        if d == '4' {
            assert(glyph_rows(d)->0[0][1] != glyph_rows('9')->0[0][1]);
        }
        if d == '5' {
            assert(glyph_rows(d)->0[0][0] != glyph_rows('9')->0[0][0]);
        }
        if d == '6' {
            assert(glyph_rows(d)->0[1][4] != glyph_rows('9')->0[1][4]);
        }
        if d == '7' {
            assert(glyph_rows(d)->0[0][0] != glyph_rows('9')->0[0][0]);
        }
        if d == '8' {
            assert(glyph_rows(d)->0[3][4] != glyph_rows('9')->0[3][4]);
        }
        if d == 'A' {
            assert(glyph_rows(d)->0[3][0] != glyph_rows('9')->0[3][0]);
        }
        if d == 'C' {
            assert(glyph_rows(d)->0[0][4] != glyph_rows('9')->0[0][4]);
        }
        if d == 'D' {
            assert(glyph_rows(d)->0[0][0] != glyph_rows('9')->0[0][0]);
        }
        if d == 'E' {
            assert(glyph_rows(d)->0[0][0] != glyph_rows('9')->0[0][0]);
        }
        if d == 'F' {
            assert(glyph_rows(d)->0[0][0] != glyph_rows('9')->0[0][0]);
        }
        if d == 'I' {
            assert(glyph_rows(d)->0[0][0] != glyph_rows('9')->0[0][0]);
        }
        if d == 'L' {
            assert(glyph_rows(d)->0[0][0] != glyph_rows('9')->0[0][0]);
        }
        if d == 'O' {
            assert(glyph_rows(d)->0[3][0] != glyph_rows('9')->0[3][0]);
        }
        if d == 'R' {
            assert(glyph_rows(d)->0[0][0] != glyph_rows('9')->0[0][0]);
        }
        if d == 'T' {
            assert(glyph_rows(d)->0[0][0] != glyph_rows('9')->0[0][0]);
        }
        if d == '(' {
            assert(glyph_rows(d)->0[0][1] != glyph_rows('9')->0[0][1]);
        }
        if d == ')' {
            assert(glyph_rows(d)->0[0][2] != glyph_rows('9')->0[0][2]);
        }
        if d == '-' {
            assert(glyph_rows(d)->0[0][1] != glyph_rows('9')->0[0][1]);
        }
    }
}

proof fn lemma_glyph_unique_10(d: char)
    ensures
        glyph_rows(d) == glyph_rows('A') ==> d == 'A',
{
    reveal_strlit("00000");
    reveal_strlit("00001");
    reveal_strlit("00010");
    reveal_strlit("00100");
    reveal_strlit("00110");
    reveal_strlit("01000");
    reveal_strlit("01010");
    reveal_strlit("01100");
    reveal_strlit("01110");
    reveal_strlit("01111");
    reveal_strlit("10000");
    reveal_strlit("10001");
    reveal_strlit("10010");
    reveal_strlit("10011");
    reveal_strlit("10100");
    reveal_strlit("10101");
    reveal_strlit("11001");
    reveal_strlit("11110");
    reveal_strlit("11111");
    if glyph_rows(d) == glyph_rows('A') {
        lemma_glyph_shape(d);
        if d == '0' {
            assert(glyph_rows(d)->0[2][3] != glyph_rows('A')->0[2][3]);
        }
        if d == '1' {
            assert(glyph_rows(d)->0[0][1] != glyph_rows('A')->0[0][1]);
        }
        if d == '2' {
            assert(glyph_rows(d)->0[2][0] != glyph_rows('A')->0[2][0]);
        }
        if d == '3' {
            assert(glyph_rows(d)->0[0][0] != glyph_rows('A')->0[0][0]);
        }
        if d == '4' {
            assert(glyph_rows(d)->0[0][1] != glyph_rows('A')->0[0][1]);
        }
        if d == '5' {
            assert(glyph_rows(d)->0[0][0] != glyph_rows('A')->0[0][0]);
        }
        if d == '6' {
            assert(glyph_rows(d)->0[1][4] != glyph_rows('A')->0[1][4]);
        }
        if d == '7' {
            assert(glyph_rows(d)->0[0][0] != glyph_rows('A')->0[0][0]);
        }
        if d == '8' {
            assert(glyph_rows(d)->0[3][0] != glyph_rows('A')->0[3][0]);
        }
        if d == '9' {
            assert(glyph_rows(d)->0[3][0] != glyph_rows('A')->0[3][0]);
        }
        if d == 'C' {
            assert(glyph_rows(d)->0[0][4] != glyph_rows('A')->0[0][4]);
        }
        if d == 'D' {
            assert(glyph_rows(d)->0[0][0] != glyph_rows('A')->0[0][0]);
        }
        if d == 'E' {
            assert(glyph_rows(d)->0[0][0] != glyph_rows('A')->0[0][0]);
        }
        if d == 'F' {
            assert(glyph_rows(d)->0[0][0] != glyph_rows('A')->0[0][0]);
        }
        if d == 'I' {
            assert(glyph_rows(d)->0[0][0] != glyph_rows('A')->0[0][0]);
        }
        if d == 'L' {
            assert(glyph_rows(d)->0[0][0] != glyph_rows('A')->0[0][0]);
        }
        if d == 'O' {
            assert(glyph_rows(d)->0[3][1] != glyph_rows('A')->0[3][1]);
        }
        if d == 'R' {
            assert(glyph_rows(d)->0[0][0] != glyph_rows('A')->0[0][0]);
        }
        if d == 'T' {
            assert(glyph_rows(d)->0[0][0] != glyph_rows('A')->0[0][0]);
        }
        if d == '(' {
            assert(glyph_rows(d)->0[0][1] != glyph_rows('A')->0[0][1]);
        }
        if d == ')' {
            assert(glyph_rows(d)->0[0][2] != glyph_rows('A')->0[0][2]);
        }
        if d == '-' {
            assert(glyph_rows(d)->0[0][1] != glyph_rows('A')->0[0][1]);
        }
    }
}

proof fn lemma_glyph_unique_11(d: char)
    ensures
        glyph_rows(d) == glyph_rows('C') ==> d == 'C',
{
    reveal_strlit("00000");
    reveal_strlit("00001");
    reveal_strlit("00010");
    reveal_strlit("00100");
    reveal_strlit("00110");
    reveal_strlit("01000");
    reveal_strlit("01010");
    reveal_strlit("01100");
    reveal_strlit("01110");
    reveal_strlit("01111");
    reveal_strlit("10000");
    reveal_strlit("10001");
    reveal_strlit("10010");
    reveal_strlit("10011");
    reveal_strlit("10100");
    reveal_strlit("10101");
    reveal_strlit("11001");
    reveal_strlit("11110");
    reveal_strlit("11111");
    if glyph_rows(d) == glyph_rows('C') {
        lemma_glyph_shape(d);
        if d == '0' {
            assert(glyph_rows(d)->0[0][4] != glyph_rows('C')->0[0][4]);
        }
        if d == '1' {
            assert(glyph_rows(d)->0[0][1] != glyph_rows('C')->0[0][1]);
        }
        if d == '2' {
            assert(glyph_rows(d)->0[0][4] != glyph_rows('C')->0[0][4]);
        }
        if d == '3' {
            assert(glyph_rows(d)->0[0][0] != glyph_rows('C')->0[0][0]);
        }
        if d == '4' {
            assert(glyph_rows(d)->0[0][1] != glyph_rows('C')->0[0][1]);
        }
        if d == '5' {
            assert(glyph_rows(d)->0[0][0] != glyph_rows('C')->0[0][0]);
        }
        if d == '6' {
            assert(glyph_rows(d)->0[0][4] != glyph_rows('C')->0[0][4]);
        }
        if d == '7' {
            assert(glyph_rows(d)->0[0][0] != glyph_rows('C')->0[0][0]);
        }
        if d == '8' {
            assert(glyph_rows(d)->0[0][4] != glyph_rows('C')->0[0][4]);
        }
        if d == '9' {
            assert(glyph_rows(d)->0[0][4] != glyph_rows('C')->0[0][4]);
        }
        if d == 'A' {
            assert(glyph_rows(d)->0[0][4] != glyph_rows('C')->0[0][4]);
        }
        if d == 'D' {
            assert(glyph_rows(d)->0[0][0] != glyph_rows('C')->0[0][0]);
        }
        if d == 'E' {
            assert(glyph_rows(d)->0[0][0] != glyph_rows('C')->0[0][0]);
        }
        if d == 'F' {
            assert(glyph_rows(d)->0[0][0] != glyph_rows('C')->0[0][0]);
        }
        if d == 'I' {
            assert(glyph_rows(d)->0[0][0] != glyph_rows('C')->0[0][0]);
        }
        if d == 'L' {
            assert(glyph_rows(d)->0[0][0] != glyph_rows('C')->0[0][0]);
        }
        if d == 'O' {
            assert(glyph_rows(d)->0[0][4] != glyph_rows('C')->0[0][4]);
        }
        if d == 'R' {
            assert(glyph_rows(d)->0[0][0] != glyph_rows('C')->0[0][0]);
        }
        if d == 'T' {
            assert(glyph_rows(d)->0[0][0] != glyph_rows('C')->0[0][0]);
        }
        if d == '(' {
            assert(glyph_rows(d)->0[0][1] != glyph_rows('C')->0[0][1]);
        }
        if d == ')' {
            assert(glyph_rows(d)->0[0][2] != glyph_rows('C')->0[0][2]);
        }
        if d == '-' {
            assert(glyph_rows(d)->0[0][1] != glyph_rows('C')->0[0][1]);
        }
    }
}

proof fn lemma_glyph_unique_12(d: char)
    ensures
        glyph_rows(d) == glyph_rows('D') ==> d == 'D',
{
    reveal_strlit("00000");
    reveal_strlit("00001");
    reveal_strlit("00010");
    reveal_strlit("00100");
    reveal_strlit("00110");
    reveal_strlit("01000");
    reveal_strlit("01010");
    reveal_strlit("01100");
    reveal_strlit("01110");
    reveal_strlit("01111");
    reveal_strlit("10000");
    reveal_strlit("10001");
    reveal_strlit("10010");
    reveal_strlit("10011");
    reveal_strlit("10100");
    reveal_strlit("10101");
    reveal_strlit("11001");
    reveal_strlit("11110");
    reveal_strlit("11111");
    if glyph_rows(d) == glyph_rows('D') {
        lemma_glyph_shape(d);
        if d == '0' {
            assert(glyph_rows(d)->0[0][0] != glyph_rows('D')->0[0][0]);
        }
        if d == '1' {
            assert(glyph_rows(d)->0[0][0] != glyph_rows('D')->0[0][0]);
        }
        if d == '2' {
            assert(glyph_rows(d)->0[0][0] != glyph_rows('D')->0[0][0]);
        }
        if d == '3' {
            assert(glyph_rows(d)->0[1][0] != glyph_rows('D')->0[1][0]);
        }
        if d == '4' {
            assert(glyph_rows(d)->0[0][0] != glyph_rows('D')->0[0][0]);
        }
        if d == '5' {
            assert(glyph_rows(d)->0[0][4] != glyph_rows('D')->0[0][4]);
        }
        if d == '6' {
            assert(glyph_rows(d)->0[0][0] != glyph_rows('D')->0[0][0]);
        }
        if d == '7' {
            assert(glyph_rows(d)->0[0][4] != glyph_rows('D')->0[0][4]);
        }
        if d == '8' {
            assert(glyph_rows(d)->0[0][0] != glyph_rows('D')->0[0][0]);
        }
        if d == '9' {
            assert(glyph_rows(d)->0[0][0] != glyph_rows('D')->0[0][0]);
        }
        if d == 'A' {
            assert(glyph_rows(d)->0[0][0] != glyph_rows('D')->0[0][0]);
        }
        if d == 'C' {
            assert(glyph_rows(d)->0[0][0] != glyph_rows('D')->0[0][0]);
        }
        if d == 'E' {
            assert(glyph_rows(d)->0[0][4] != glyph_rows('D')->0[0][4]);
        }
        if d == 'F' {
            assert(glyph_rows(d)->0[0][4] != glyph_rows('D')->0[0][4]);
        }
        if d == 'I' {
            assert(glyph_rows(d)->0[0][4] != glyph_rows('D')->0[0][4]);
        }
        if d == 'L' {
            assert(glyph_rows(d)->0[0][1] != glyph_rows('D')->0[0][1]);
        }
        if d == 'O' {
            assert(glyph_rows(d)->0[0][0] != glyph_rows('D')->0[0][0]);
        }
        if d == 'R' {
            assert(glyph_rows(d)->0[3][1] != glyph_rows('D')->0[3][1]);
        }
        if d == 'T' {
            assert(glyph_rows(d)->0[0][4] != glyph_rows('D')->0[0][4]);
        }
        if d == '(' {
            assert(glyph_rows(d)->0[0][0] != glyph_rows('D')->0[0][0]);
        }
        if d == ')' {
            assert(glyph_rows(d)->0[0][0] != glyph_rows('D')->0[0][0]);
        }
        if d == '-' {
            assert(glyph_rows(d)->0[0][0] != glyph_rows('D')->0[0][0]);
        }
    }
}

proof fn lemma_glyph_unique_13(d: char)
    ensures
        glyph_rows(d) == glyph_rows('E') ==> d == 'E',
{
    reveal_strlit("00000");
    reveal_strlit("00001");
    reveal_strlit("00010");
    reveal_strlit("00100");
    reveal_strlit("00110");
    reveal_strlit("01000");
    reveal_strlit("01010");
    reveal_strlit("01100");
    reveal_strlit("01110");
    reveal_strlit("01111");
    reveal_strlit("10000");
    reveal_strlit("10001");
    reveal_strlit("10010");
    reveal_strlit("10011");
    reveal_strlit("10100");
    reveal_strlit("10101");
    reveal_strlit("11001");
    reveal_strlit("11110");
    reveal_strlit("11111");
    if glyph_rows(d) == glyph_rows('E') {
        lemma_glyph_shape(d);
        if d == '0' {
            assert(glyph_rows(d)->0[0][0] != glyph_rows('E')->0[0][0]);
        }
        if d == '1' {
            assert(glyph_rows(d)->0[0][0] != glyph_rows('E')->0[0][0]);
        }
        if d == '2' {
            assert(glyph_rows(d)->0[0][0] != glyph_rows('E')->0[0][0]);
        }
        if d == '3' {
            assert(glyph_rows(d)->0[0][4] != glyph_rows('E')->0[0][4]);
        }
        if d == '4' {
            assert(glyph_rows(d)->0[0][0] != glyph_rows('E')->0[0][0]);
        }
        if d == '5' {
            assert(glyph_rows(d)->0[4][0] != glyph_rows('E')->0[4][0]);
        }
        if d == '6' {
            assert(glyph_rows(d)->0[0][0] != glyph_rows('E')->0[0][0]);
        }
        if d == '7' {
            assert(glyph_rows(d)->0[1][0] != glyph_rows('E')->0[1][0]);
        }
        if d == '8' {
            assert(glyph_rows(d)->0[0][0] != glyph_rows('E')->0[0][0]);
        }
        if d == '9' {
            assert(glyph_rows(d)->0[0][0] != glyph_rows('E')->0[0][0]);
        }
        if d == 'A' {
            assert(glyph_rows(d)->0[0][0] != glyph_rows('E')->0[0][0]);
        }
        if d == 'C' {
            assert(glyph_rows(d)->0[0][0] != glyph_rows('E')->0[0][0]);
        }
        if d == 'D' {
            assert(glyph_rows(d)->0[0][4] != glyph_rows('E')->0[0][4]);
        }
        if d == 'F' {
            assert(glyph_rows(d)->0[6][1] != glyph_rows('E')->0[6][1]);
        }
        if d == 'I' {
            assert(glyph_rows(d)->0[1][0] != glyph_rows('E')->0[1][0]);
        }
        if d == 'L' {
            assert(glyph_rows(d)->0[0][1] != glyph_rows('E')->0[0][1]);
        }
        if d == 'O' {
            assert(glyph_rows(d)->0[0][0] != glyph_rows('E')->0[0][0]);
        }
        if d == 'R' {
            assert(glyph_rows(d)->0[0][4] != glyph_rows('E')->0[0][4]);
        }
        if d == 'T' {
            assert(glyph_rows(d)->0[1][0] != glyph_rows('E')->0[1][0]);
        }
        if d == '(' {
            assert(glyph_rows(d)->0[0][0] != glyph_rows('E')->0[0][0]);
        }
        if d == ')' {
            assert(glyph_rows(d)->0[0][0] != glyph_rows('E')->0[0][0]);
        }
        if d == '-' {
            assert(glyph_rows(d)->0[0][0] != glyph_rows('E')->0[0][0]);
        }
    }
}

proof fn lemma_glyph_unique_14(d: char)
    ensures
        glyph_rows(d) == glyph_rows('F') ==> d == 'F',
{
    reveal_strlit("00000");
    reveal_strlit("00001");
    reveal_strlit("00010");
    reveal_strlit("00100");
    reveal_strlit("00110");
    reveal_strlit("01000");
    reveal_strlit("01010");
    reveal_strlit("01100");
    reveal_strlit("01110");
    reveal_strlit("01111");
    reveal_strlit("10000");
    reveal_strlit("10001");
    reveal_strlit("10010");
    reveal_strlit("10011");
    reveal_strlit("10100");
    reveal_strlit("10101");
    reveal_strlit("11001");
    reveal_strlit("11110");
    reveal_strlit("11111");
    if glyph_rows(d) == glyph_rows('F') {
        lemma_glyph_shape(d);
        if d == '0' {
            assert(glyph_rows(d)->0[0][0] != glyph_rows('F')->0[0][0]);
        }
        if d == '1' {
            assert(glyph_rows(d)->0[0][0] != glyph_rows('F')->0[0][0]);
        }
        if d == '2' {
            assert(glyph_rows(d)->0[0][0] != glyph_rows('F')->0[0][0]);
        }
        if d == '3' {
            assert(glyph_rows(d)->0[0][4] != glyph_rows('F')->0[0][4]);
        }
        if d == '4' {
            assert(glyph_rows(d)->0[0][0] != glyph_rows('F')->0[0][0]);
        }
        if d == '5' {
            assert(glyph_rows(d)->0[4][0] != glyph_rows('F')->0[4][0]);
        }
        if d == '6' {
            assert(glyph_rows(d)->0[0][0] != glyph_rows('F')->0[0][0]);
        }
        if d == '7' {
            assert(glyph_rows(d)->0[1][0] != glyph_rows('F')->0[1][0]);
        }
        if d == '8' {
            assert(glyph_rows(d)->0[0][0] != glyph_rows('F')->0[0][0]);
        }
        if d == '9' {
            assert(glyph_rows(d)->0[0][0] != glyph_rows('F')->0[0][0]);
        }
        if d == 'A' {
            assert(glyph_rows(d)->0[0][0] != glyph_rows('F')->0[0][0]);
        }
        if d == 'C' {
            assert(glyph_rows(d)->0[0][0] != glyph_rows('F')->0[0][0]);
        }
        if d == 'D' {
            assert(glyph_rows(d)->0[0][4] != glyph_rows('F')->0[0][4]);
        }
        if d == 'E' {
            assert(glyph_rows(d)->0[6][1] != glyph_rows('F')->0[6][1]);
        }
        if d == 'I' {
            assert(glyph_rows(d)->0[1][0] != glyph_rows('F')->0[1][0]);
        }
        if d == 'L' {
            assert(glyph_rows(d)->0[0][1] != glyph_rows('F')->0[0][1]);
        }
        if d == 'O' {
            assert(glyph_rows(d)->0[0][0] != glyph_rows('F')->0[0][0]);
        }
        if d == 'R' {
            assert(glyph_rows(d)->0[0][4] != glyph_rows('F')->0[0][4]);
        }
        if d == 'T' {
            assert(glyph_rows(d)->0[1][0] != glyph_rows('F')->0[1][0]);
        }
        if d == '(' {
            assert(glyph_rows(d)->0[0][0] != glyph_rows('F')->0[0][0]);
        }
        if d == ')' {
            assert(glyph_rows(d)->0[0][0] != glyph_rows('F')->0[0][0]);
        }
        if d == '-' {
            assert(glyph_rows(d)->0[0][0] != glyph_rows('F')->0[0][0]);
        }
    }
}

proof fn lemma_glyph_unique_15(d: char)
    ensures
        glyph_rows(d) == glyph_rows('I') ==> d == 'I',
{
    reveal_strlit("00000");
    reveal_strlit("00001");
    reveal_strlit("00010");
    reveal_strlit("00100");
    reveal_strlit("00110");
    reveal_strlit("01000");
    reveal_strlit("01010");
    reveal_strlit("01100");
    reveal_strlit("01110");
    reveal_strlit("01111");
    reveal_strlit("10000");
    reveal_strlit("10001");
    reveal_strlit("10010");
    reveal_strlit("10011");
    reveal_strlit("10100");
    reveal_strlit("10101");
    reveal_strlit("11001");
    reveal_strlit("11110");
    reveal_strlit("11111");
    if glyph_rows(d) == glyph_rows('I') {
        lemma_glyph_shape(d);
        if d == '0' {
            assert(glyph_rows(d)->0[0][0] != glyph_rows('I')->0[0][0]);
        }
        if d == '1' {
            assert(glyph_rows(d)->0[0][0] != glyph_rows('I')->0[0][0]);
        }
        if d == '2' {
            assert(glyph_rows(d)->0[0][0] != glyph_rows('I')->0[0][0]);
        }
        if d == '3' {
            assert(glyph_rows(d)->0[0][4] != glyph_rows('I')->0[0][4]);
        }
        if d == '4' {
            assert(glyph_rows(d)->0[0][0] != glyph_rows('I')->0[0][0]);
        }
        if d == '5' {
            assert(glyph_rows(d)->0[1][0] != glyph_rows('I')->0[1][0]);
        }
        if d == '6' {
            assert(glyph_rows(d)->0[0][0] != glyph_rows('I')->0[0][0]);
        }
        if d == '7' {
            assert(glyph_rows(d)->0[1][2] != glyph_rows('I')->0[1][2]);
        }
        if d == '8' {
            assert(glyph_rows(d)->0[0][0] != glyph_rows('I')->0[0][0]);
        }
        if d == '9' {
            assert(glyph_rows(d)->0[0][0] != glyph_rows('I')->0[0][0]);
        }
        if d == 'A' {
            assert(glyph_rows(d)->0[0][0] != glyph_rows('I')->0[0][0]);
        }
        if d == 'C' {
            assert(glyph_rows(d)->0[0][0] != glyph_rows('I')->0[0][0]);
        }
        if d == 'D' {
            assert(glyph_rows(d)->0[0][4] != glyph_rows('I')->0[0][4]);
        }
        if d == 'E' {
            assert(glyph_rows(d)->0[1][0] != glyph_rows('I')->0[1][0]);
        }
        if d == 'F' {
            assert(glyph_rows(d)->0[1][0] != glyph_rows('I')->0[1][0]);
        }
        if d == 'L' {
            assert(glyph_rows(d)->0[0][1] != glyph_rows('I')->0[0][1]);
        }
        if d == 'O' {
            assert(glyph_rows(d)->0[0][0] != glyph_rows('I')->0[0][0]);
        }
        if d == 'R' {
            assert(glyph_rows(d)->0[0][4] != glyph_rows('I')->0[0][4]);
        }
        if d == 'T' {
            assert(glyph_rows(d)->0[6][0] != glyph_rows('I')->0[6][0]);
        }
        if d == '(' {
            assert(glyph_rows(d)->0[0][0] != glyph_rows('I')->0[0][0]);
        }
        if d == ')' {
            assert(glyph_rows(d)->0[0][0] != glyph_rows('I')->0[0][0]);
        }
        if d == '-' {
            assert(glyph_rows(d)->0[0][0] != glyph_rows('I')->0[0][0]);
        }
    }
}

proof fn lemma_glyph_unique_16(d: char)
    ensures
        glyph_rows(d) == glyph_rows('L') ==> d == 'L',
{
    reveal_strlit("00000");
    reveal_strlit("00001");
    reveal_strlit("00010");
    reveal_strlit("00100");
    reveal_strlit("00110");
    reveal_strlit("01000");
    reveal_strlit("01010");
    reveal_strlit("01100");
    reveal_strlit("01110");
    reveal_strlit("01111");
    reveal_strlit("10000");
    reveal_strlit("10001");
    reveal_strlit("10010");
    reveal_strlit("10011");
    reveal_strlit("10100");
    reveal_strlit("10101");
    reveal_strlit("11001");
    reveal_strlit("11110");
    reveal_strlit("11111");
    if glyph_rows(d) == glyph_rows('L') {
        lemma_glyph_shape(d);
        if d == '0' {
            assert(glyph_rows(d)->0[0][0] != glyph_rows('L')->0[0][0]);
        }
        if d == '1' {
            assert(glyph_rows(d)->0[0][0] != glyph_rows('L')->0[0][0]);
        }
        if d == '2' {
            assert(glyph_rows(d)->0[0][0] != glyph_rows('L')->0[0][0]);
        }
        if d == '3' {
            assert(glyph_rows(d)->0[0][1] != glyph_rows('L')->0[0][1]);
        }
        if d == '4' {
            assert(glyph_rows(d)->0[0][0] != glyph_rows('L')->0[0][0]);
        }
        if d == '5' {
            assert(glyph_rows(d)->0[0][1] != glyph_rows('L')->0[0][1]);
        }
        if d == '6' {
            assert(glyph_rows(d)->0[0][0] != glyph_rows('L')->0[0][0]);
        }
        if d == '7' {
            assert(glyph_rows(d)->0[0][1] != glyph_rows('L')->0[0][1]);
        }
        if d == '8' {
            assert(glyph_rows(d)->0[0][0] != glyph_rows('L')->0[0][0]);
        }
        if d == '9' {
            assert(glyph_rows(d)->0[0][0] != glyph_rows('L')->0[0][0]);
        }
        if d == 'A' {
            assert(glyph_rows(d)->0[0][0] != glyph_rows('L')->0[0][0]);
        }
        if d == 'C' {
            assert(glyph_rows(d)->0[0][0] != glyph_rows('L')->0[0][0]);
        }
        if d == 'D' {
            assert(glyph_rows(d)->0[0][1] != glyph_rows('L')->0[0][1]);
        }
        if d == 'E' {
            assert(glyph_rows(d)->0[0][1] != glyph_rows('L')->0[0][1]);
        }
        if d == 'F' {
            assert(glyph_rows(d)->0[0][1] != glyph_rows('L')->0[0][1]);
        }
        if d == 'I' {
            assert(glyph_rows(d)->0[0][1] != glyph_rows('L')->0[0][1]);
        }
        if d == 'O' {
            assert(glyph_rows(d)->0[0][0] != glyph_rows('L')->0[0][0]);
        }
        if d == 'R' {
            assert(glyph_rows(d)->0[0][1] != glyph_rows('L')->0[0][1]);
        }
        if d == 'T' {
            assert(glyph_rows(d)->0[0][1] != glyph_rows('L')->0[0][1]);
        }
        if d == '(' {
            assert(glyph_rows(d)->0[0][0] != glyph_rows('L')->0[0][0]);
        }
        if d == ')' {
            assert(glyph_rows(d)->0[0][0] != glyph_rows('L')->0[0][0]);
        }
        if d == '-' {
            assert(glyph_rows(d)->0[0][0] != glyph_rows('L')->0[0][0]);
        }
    }
}

proof fn lemma_glyph_unique_17(d: char)
    ensures
        glyph_rows(d) == glyph_rows('O') ==> d == 'O',
{
    reveal_strlit("00000");
    reveal_strlit("00001");
    reveal_strlit("00010");
    reveal_strlit("00100");
    reveal_strlit("00110");
    reveal_strlit("01000");
    reveal_strlit("01010");
    reveal_strlit("01100");
    reveal_strlit("01110");
    reveal_strlit("01111");
    reveal_strlit("10000");
    reveal_strlit("10001");
    reveal_strlit("10010");
    reveal_strlit("10011");
    reveal_strlit("10100");
    reveal_strlit("10101");
    reveal_strlit("11001");
    reveal_strlit("11110");
    reveal_strlit("11111");
    if glyph_rows(d) == glyph_rows('O') {
        lemma_glyph_shape(d);
        if d == '0' {
            assert(glyph_rows(d)->0[2][3] != glyph_rows('O')->0[2][3]);
        }
        if d == '1' {
            assert(glyph_rows(d)->0[0][1] != glyph_rows('O')->0[0][1]);
        }
        if d == '2' {
            assert(glyph_rows(d)->0[2][0] != glyph_rows('O')->0[2][0]);
        }
        if d == '3' {
            assert(glyph_rows(d)->0[0][0] != glyph_rows('O')->0[0][0]);
        }
        if d == '4' {
            assert(glyph_rows(d)->0[0][1] != glyph_rows('O')->0[0][1]);
        }
        if d == '5' {
            assert(glyph_rows(d)->0[0][0] != glyph_rows('O')->0[0][0]);
        }
        if d == '6' {
            assert(glyph_rows(d)->0[1][4] != glyph_rows('O')->0[1][4]);
        }
        if d == '7' {
            assert(glyph_rows(d)->0[0][0] != glyph_rows('O')->0[0][0]);
        }
        if d == '8' {
            assert(glyph_rows(d)->0[3][0] != glyph_rows('O')->0[3][0]);
        }
        if d == '9' {
            assert(glyph_rows(d)->0[3][0] != glyph_rows('O')->0[3][0]);
        }
        if d == 'A' {
            assert(glyph_rows(d)->0[3][1] != glyph_rows('O')->0[3][1]);
        }
        if d == 'C' {
            assert(glyph_rows(d)->0[0][4] != glyph_rows('O')->0[0][4]);
        }
        if d == 'D' {
            assert(glyph_rows(d)->0[0][0] != glyph_rows('O')->0[0][0]);
        }
        if d == 'E' {
            assert(glyph_rows(d)->0[0][0] != glyph_rows('O')->0[0][0]);
        }
        if d == 'F' {
            assert(glyph_rows(d)->0[0][0] != glyph_rows('O')->0[0][0]);
        }
        if d == 'I' {
            assert(glyph_rows(d)->0[0][0] != glyph_rows('O')->0[0][0]);
        }
        if d == 'L' {
            assert(glyph_rows(d)->0[0][0] != glyph_rows('O')->0[0][0]);
        }
        if d == 'R' {
            assert(glyph_rows(d)->0[0][0] != glyph_rows('O')->0[0][0]);
        }
        if d == 'T' {
            assert(glyph_rows(d)->0[0][0] != glyph_rows('O')->0[0][0]);
        }
        if d == '(' {
            assert(glyph_rows(d)->0[0][1] != glyph_rows('O')->0[0][1]);
        }
        if d == ')' {
            assert(glyph_rows(d)->0[0][2] != glyph_rows('O')->0[0][2]);
        }
        if d == '-' {
            assert(glyph_rows(d)->0[0][1] != glyph_rows('O')->0[0][1]);
        }
    }
}

proof fn lemma_glyph_unique_18(d: char)
    ensures
        glyph_rows(d) == glyph_rows('R') ==> d == 'R',
{
    reveal_strlit("00000");
    reveal_strlit("00001");
    reveal_strlit("00010");
    reveal_strlit("00100");
    reveal_strlit("00110");
    reveal_strlit("01000");
    reveal_strlit("01010");
    reveal_strlit("01100");
    reveal_strlit("01110");
    reveal_strlit("01111");
    reveal_strlit("10000");
    reveal_strlit("10001");
    reveal_strlit("10010");
    reveal_strlit("10011");
    reveal_strlit("10100");
    reveal_strlit("10101");
    reveal_strlit("11001");
    reveal_strlit("11110");
    reveal_strlit("11111");
    if glyph_rows(d) == glyph_rows('R') {
        lemma_glyph_shape(d);
        if d == '0' {
            assert(glyph_rows(d)->0[0][0] != glyph_rows('R')->0[0][0]);
        }
        if d == '1' {
            assert(glyph_rows(d)->0[0][0] != glyph_rows('R')->0[0][0]);
        }
        if d == '2' {
            assert(glyph_rows(d)->0[0][0] != glyph_rows('R')->0[0][0]);
        }
        if d == '3' {
            assert(glyph_rows(d)->0[1][0] != glyph_rows('R')->0[1][0]);
        }
        if d == '4' {
            assert(glyph_rows(d)->0[0][0] != glyph_rows('R')->0[0][0]);
        }
        if d == '5' {
            assert(glyph_rows(d)->0[0][4] != glyph_rows('R')->0[0][4]);
        }
        if d == '6' {
            assert(glyph_rows(d)->0[0][0] != glyph_rows('R')->0[0][0]);
        }
        if d == '7' {
            assert(glyph_rows(d)->0[0][4] != glyph_rows('R')->0[0][4]);
        }
        if d == '8' {
            assert(glyph_rows(d)->0[0][0] != glyph_rows('R')->0[0][0]);
        }
        if d == '9' {
            assert(glyph_rows(d)->0[0][0] != glyph_rows('R')->0[0][0]);
        }
        if d == 'A' {
            assert(glyph_rows(d)->0[0][0] != glyph_rows('R')->0[0][0]);
        }
        if d == 'C' {
            assert(glyph_rows(d)->0[0][0] != glyph_rows('R')->0[0][0]);
        }
        if d == 'D' {
            assert(glyph_rows(d)->0[3][1] != glyph_rows('R')->0[3][1]);
        }
        if d == 'E' {
            assert(glyph_rows(d)->0[0][4] != glyph_rows('R')->0[0][4]);
        }
        if d == 'F' {
            assert(glyph_rows(d)->0[0][4] != glyph_rows('R')->0[0][4]);
        }
        if d == 'I' {
            assert(glyph_rows(d)->0[0][4] != glyph_rows('R')->0[0][4]);
        }
        if d == 'L' {
            assert(glyph_rows(d)->0[0][1] != glyph_rows('R')->0[0][1]);
        }
        if d == 'O' {
            assert(glyph_rows(d)->0[0][0] != glyph_rows('R')->0[0][0]);
        }
        if d == 'T' {
            assert(glyph_rows(d)->0[0][4] != glyph_rows('R')->0[0][4]);
        }
        if d == '(' {
            assert(glyph_rows(d)->0[0][0] != glyph_rows('R')->0[0][0]);
        }
        if d == ')' {
            assert(glyph_rows(d)->0[0][0] != glyph_rows('R')->0[0][0]);
        }
        if d == '-' {
            assert(glyph_rows(d)->0[0][0] != glyph_rows('R')->0[0][0]);
        }
    }
}

proof fn lemma_glyph_unique_19(d: char)
    ensures
        glyph_rows(d) == glyph_rows('T') ==> d == 'T',
{
    reveal_strlit("00000");
    reveal_strlit("00001");
    reveal_strlit("00010");
    reveal_strlit("00100");
    reveal_strlit("00110");
    reveal_strlit("01000");
    reveal_strlit("01010");
    reveal_strlit("01100");
    reveal_strlit("01110");
    reveal_strlit("01111");
    reveal_strlit("10000");
    reveal_strlit("10001");
    reveal_strlit("10010");
    reveal_strlit("10011");
    reveal_strlit("10100");
    reveal_strlit("10101");
    reveal_strlit("11001");
    reveal_strlit("11110");
    reveal_strlit("11111");
    if glyph_rows(d) == glyph_rows('T') {
        lemma_glyph_shape(d);
        if d == '0' {
            assert(glyph_rows(d)->0[0][0] != glyph_rows('T')->0[0][0]);
        }
        if d == '1' {
            assert(glyph_rows(d)->0[0][0] != glyph_rows('T')->0[0][0]);
        }
        if d == '2' {
            assert(glyph_rows(d)->0[0][0] != glyph_rows('T')->0[0][0]);
        }
        if d == '3' {
            assert(glyph_rows(d)->0[0][4] != glyph_rows('T')->0[0][4]);
        }
        if d == '4' {
            assert(glyph_rows(d)->0[0][0] != glyph_rows('T')->0[0][0]);
        }
        if d == '5' {
            assert(glyph_rows(d)->0[1][0] != glyph_rows('T')->0[1][0]);
        }
        if d == '6' {
            assert(glyph_rows(d)->0[0][0] != glyph_rows('T')->0[0][0]);
        }
        if d == '7' {
            assert(glyph_rows(d)->0[1][2] != glyph_rows('T')->0[1][2]);
        }
        if d == '8' {
            assert(glyph_rows(d)->0[0][0] != glyph_rows('T')->0[0][0]);
        }
        if d == '9' {
            assert(glyph_rows(d)->0[0][0] != glyph_rows('T')->0[0][0]);
        }
        if d == 'A' {
            assert(glyph_rows(d)->0[0][0] != glyph_rows('T')->0[0][0]);
        }
        if d == 'C' {
            assert(glyph_rows(d)->0[0][0] != glyph_rows('T')->0[0][0]);
        }
        if d == 'D' {
            assert(glyph_rows(d)->0[0][4] != glyph_rows('T')->0[0][4]);
        }
        if d == 'E' {
            assert(glyph_rows(d)->0[1][0] != glyph_rows('T')->0[1][0]);
        }
        if d == 'F' {
            assert(glyph_rows(d)->0[1][0] != glyph_rows('T')->0[1][0]);
        }
        if d == 'I' {
            assert(glyph_rows(d)->0[6][0] != glyph_rows('T')->0[6][0]);
        }
        if d == 'L' {
            assert(glyph_rows(d)->0[0][1] != glyph_rows('T')->0[0][1]);
        }
        if d == 'O' {
            assert(glyph_rows(d)->0[0][0] != glyph_rows('T')->0[0][0]);
        }
        if d == 'R' {
            assert(glyph_rows(d)->0[0][4] != glyph_rows('T')->0[0][4]);
        }
        if d == '(' {
            assert(glyph_rows(d)->0[0][0] != glyph_rows('T')->0[0][0]);
        }
        if d == ')' {
            assert(glyph_rows(d)->0[0][0] != glyph_rows('T')->0[0][0]);
        }
        if d == '-' {
            assert(glyph_rows(d)->0[0][0] != glyph_rows('T')->0[0][0]);
        }
    }
}

proof fn lemma_glyph_unique_20(d: char)
    ensures
        glyph_rows(d) == glyph_rows('(') ==> d == '(',
{
    reveal_strlit("00000");
    reveal_strlit("00001");
    reveal_strlit("00010");
    reveal_strlit("00100");
    reveal_strlit("00110");
    reveal_strlit("01000");
    reveal_strlit("01010");
    reveal_strlit("01100");
    reveal_strlit("01110");
    reveal_strlit("01111");
    reveal_strlit("10000");
    reveal_strlit("10001");
    reveal_strlit("10010");
    reveal_strlit("10011");
    reveal_strlit("10100");
    reveal_strlit("10101");
    reveal_strlit("11001");
    reveal_strlit("11110");
    reveal_strlit("11111");
    if glyph_rows(d) == glyph_rows('(') {
        lemma_glyph_shape(d);
        if d == '0' {
            assert(glyph_rows(d)->0[0][1] != glyph_rows('(')->0[0][1]);
        }
        if d == '1' {
            assert(glyph_rows(d)->0[0][2] != glyph_rows('(')->0[0][2]);
        }
        if d == '2' {
            assert(glyph_rows(d)->0[0][1] != glyph_rows('(')->0[0][1]);
        }
        if d == '3' {
            assert(glyph_rows(d)->0[0][0] != glyph_rows('(')->0[0][0]);
        }
        if d == '4' {
            assert(glyph_rows(d)->0[1][3] != glyph_rows('(')->0[1][3]);
        }
        if d == '5' {
            assert(glyph_rows(d)->0[0][0] != glyph_rows('(')->0[0][0]);
        }
        if d == '6' {
            assert(glyph_rows(d)->0[0][1] != glyph_rows('(')->0[0][1]);
        }
        if d == '7' {
            assert(glyph_rows(d)->0[0][0] != glyph_rows('(')->0[0][0]);
        }
        if d == '8' {
            assert(glyph_rows(d)->0[0][1] != glyph_rows('(')->0[0][1]);
        }
        if d == '9' {
            assert(glyph_rows(d)->0[0][1] != glyph_rows('(')->0[0][1]);
        }
        if d == 'A' {
            assert(glyph_rows(d)->0[0][1] != glyph_rows('(')->0[0][1]);
        }
        if d == 'C' {
            assert(glyph_rows(d)->0[0][1] != glyph_rows('(')->0[0][1]);
        }
        if d == 'D' {
            assert(glyph_rows(d)->0[0][0] != glyph_rows('(')->0[0][0]);
        }
        if d == 'E' {
            assert(glyph_rows(d)->0[0][0] != glyph_rows('(')->0[0][0]);
        }
        if d == 'F' {
            assert(glyph_rows(d)->0[0][0] != glyph_rows('(')->0[0][0]);
        }
        if d == 'I' {
            assert(glyph_rows(d)->0[0][0] != glyph_rows('(')->0[0][0]);
        }
        if d == 'L' {
            assert(glyph_rows(d)->0[0][0] != glyph_rows('(')->0[0][0]);
        }
        if d == 'O' {
            assert(glyph_rows(d)->0[0][1] != glyph_rows('(')->0[0][1]);
        }
        if d == 'R' {
            assert(glyph_rows(d)->0[0][0] != glyph_rows('(')->0[0][0]);
        }
        if d == 'T' {
            assert(glyph_rows(d)->0[0][0] != glyph_rows('(')->0[0][0]);
        }
        if d == ')' {
            assert(glyph_rows(d)->0[0][1] != glyph_rows('(')->0[0][1]);
        }
        if d == '-' {
            assert(glyph_rows(d)->0[0][3] != glyph_rows('(')->0[0][3]);
        }
    }
}

proof fn lemma_glyph_unique_21(d: char)
    ensures
        glyph_rows(d) == glyph_rows(')') ==> d == ')',
{
    reveal_strlit("00000");
    reveal_strlit("00001");
    reveal_strlit("00010");
    reveal_strlit("00100");
    reveal_strlit("00110");
    reveal_strlit("01000");
    reveal_strlit("01010");
    reveal_strlit("01100");
    reveal_strlit("01110");
    reveal_strlit("01111");
    reveal_strlit("10000");
    reveal_strlit("10001");
    reveal_strlit("10010");
    reveal_strlit("10011");
    reveal_strlit("10100");
    reveal_strlit("10101");
    reveal_strlit("11001");
    reveal_strlit("11110");
    reveal_strlit("11111");
    if glyph_rows(d) == glyph_rows(')') {
        lemma_glyph_shape(d);
        if d == '0' {
            assert(glyph_rows(d)->0[0][2] != glyph_rows(')')->0[0][2]);
        }
        if d == '1' {
            assert(glyph_rows(d)->0[0][1] != glyph_rows(')')->0[0][1]);
        }
        if d == '2' {
            assert(glyph_rows(d)->0[0][2] != glyph_rows(')')->0[0][2]);
        }
        if d == '3' {
            assert(glyph_rows(d)->0[0][0] != glyph_rows(')')->0[0][0]);
        }
        if d == '4' {
            assert(glyph_rows(d)->0[0][1] != glyph_rows(')')->0[0][1]);
        }
        if d == '5' {
            assert(glyph_rows(d)->0[0][0] != glyph_rows(')')->0[0][0]);
        }
        if d == '6' {
            assert(glyph_rows(d)->0[0][2] != glyph_rows(')')->0[0][2]);
        }
        if d == '7' {
            assert(glyph_rows(d)->0[0][0] != glyph_rows(')')->0[0][0]);
        }
        if d == '8' {
            assert(glyph_rows(d)->0[0][2] != glyph_rows(')')->0[0][2]);
        }
        if d == '9' {
            assert(glyph_rows(d)->0[0][2] != glyph_rows(')')->0[0][2]);
        }
        if d == 'A' {
            assert(glyph_rows(d)->0[0][2] != glyph_rows(')')->0[0][2]);
        }
        if d == 'C' {
            assert(glyph_rows(d)->0[0][2] != glyph_rows(')')->0[0][2]);
        }
        if d == 'D' {
            assert(glyph_rows(d)->0[0][0] != glyph_rows(')')->0[0][0]);
        }
        if d == 'E' {
            assert(glyph_rows(d)->0[0][0] != glyph_rows(')')->0[0][0]);
        }
        if d == 'F' {
            assert(glyph_rows(d)->0[0][0] != glyph_rows(')')->0[0][0]);
        }
        if d == 'I' {
            assert(glyph_rows(d)->0[0][0] != glyph_rows(')')->0[0][0]);
        }
        if d == 'L' {
            assert(glyph_rows(d)->0[0][0] != glyph_rows(')')->0[0][0]);
        }
        if d == 'O' {
            assert(glyph_rows(d)->0[0][2] != glyph_rows(')')->0[0][2]);
        }
        if d == 'R' {
            assert(glyph_rows(d)->0[0][0] != glyph_rows(')')->0[0][0]);
        }
        if d == 'T' {
            assert(glyph_rows(d)->0[0][0] != glyph_rows(')')->0[0][0]);
        }
        if d == '(' {
            assert(glyph_rows(d)->0[0][1] != glyph_rows(')')->0[0][1]);
        }
        if d == '-' {
            assert(glyph_rows(d)->0[0][1] != glyph_rows(')')->0[0][1]);
        }
    }
}

proof fn lemma_glyph_unique_22(d: char)
    ensures
        glyph_rows(d) == glyph_rows('-') ==> d == '-',
{
    reveal_strlit("00000");
    reveal_strlit("00001");
    reveal_strlit("00010");
    reveal_strlit("00100");
    reveal_strlit("00110");
    reveal_strlit("01000");
    reveal_strlit("01010");
    reveal_strlit("01100");
    reveal_strlit("01110");
    reveal_strlit("01111");
    reveal_strlit("10000");
    reveal_strlit("10001");
    reveal_strlit("10010");
    reveal_strlit("10011");
    reveal_strlit("10100");
    reveal_strlit("10101");
    reveal_strlit("11001");
    reveal_strlit("11110");
    reveal_strlit("11111");
    if glyph_rows(d) == glyph_rows('-') {
        lemma_glyph_shape(d);
        if d == '0' {
            assert(glyph_rows(d)->0[0][1] != glyph_rows('-')->0[0][1]);
        }
        if d == '1' {
            assert(glyph_rows(d)->0[0][2] != glyph_rows('-')->0[0][2]);
        }
        if d == '2' {
            assert(glyph_rows(d)->0[0][1] != glyph_rows('-')->0[0][1]);
        }
        if d == '3' {
            assert(glyph_rows(d)->0[0][0] != glyph_rows('-')->0[0][0]);
        }
        if d == '4' {
            assert(glyph_rows(d)->0[0][3] != glyph_rows('-')->0[0][3]);
        }
        if d == '5' {
            assert(glyph_rows(d)->0[0][0] != glyph_rows('-')->0[0][0]);
        }
        if d == '6' {
            assert(glyph_rows(d)->0[0][1] != glyph_rows('-')->0[0][1]);
        }
        if d == '7' {
            assert(glyph_rows(d)->0[0][0] != glyph_rows('-')->0[0][0]);
        }
        if d == '8' {
            assert(glyph_rows(d)->0[0][1] != glyph_rows('-')->0[0][1]);
        }
        if d == '9' {
            assert(glyph_rows(d)->0[0][1] != glyph_rows('-')->0[0][1]);
        }
        if d == 'A' {
            assert(glyph_rows(d)->0[0][1] != glyph_rows('-')->0[0][1]);
        }
        if d == 'C' {
            assert(glyph_rows(d)->0[0][1] != glyph_rows('-')->0[0][1]);
        }
        if d == 'D' {
            assert(glyph_rows(d)->0[0][0] != glyph_rows('-')->0[0][0]);
        }
        if d == 'E' {
            assert(glyph_rows(d)->0[0][0] != glyph_rows('-')->0[0][0]);
        }
        if d == 'F' {
            assert(glyph_rows(d)->0[0][0] != glyph_rows('-')->0[0][0]);
        }
        if d == 'I' {
            assert(glyph_rows(d)->0[0][0] != glyph_rows('-')->0[0][0]);
        }
        if d == 'L' {
            assert(glyph_rows(d)->0[0][0] != glyph_rows('-')->0[0][0]);
        }
        if d == 'O' {
            assert(glyph_rows(d)->0[0][1] != glyph_rows('-')->0[0][1]);
        }
        if d == 'R' {
            assert(glyph_rows(d)->0[0][0] != glyph_rows('-')->0[0][0]);
        }
        if d == 'T' {
            assert(glyph_rows(d)->0[0][0] != glyph_rows('-')->0[0][0]);
        }
        if d == '(' {
            assert(glyph_rows(d)->0[0][3] != glyph_rows('-')->0[0][3]);
        }
        if d == ')' {
            assert(glyph_rows(d)->0[0][1] != glyph_rows('-')->0[0][1]);
        }
    }
}

/// The bitmap font of the report images: a character has the glyph of its
/// ASCII upper-case form; the font has glyphs for exactly the characters
/// of `font_char`; each glyph is seven rows of five cells, each `0` or
/// `1`; and different characters have different glyphs.
#[verifier::rlimit(60)]
pub proof fn law_bitmap_font(c: char, d: char)
    ensures
        glyph_rows(ascii_upper(ascii_upper(c))) == glyph_rows(ascii_upper(c)),
        (glyph_rows(c) is Some) == font_char(c),
        glyph_rows(c) matches Some(rows) ==> rows.len() == 7 && forall|r: int, i: int|
            0 <= r < 7 && 0 <= i < 5 ==> rows[r].len() == 5 && (#[trigger] rows[r][i] == '0'
                || rows[r][i] == '1'),
        glyph_rows(c) is Some && glyph_rows(c) == glyph_rows(d) ==> c == d,
{
    lemma_glyph_shape(c);
    lemma_glyph_cells(c);
    if c == '0' {
        lemma_glyph_unique_0(d);
    }
    if c == '1' {
        lemma_glyph_unique_1(d);
    }
    if c == '2' {
        lemma_glyph_unique_2(d);
    }
    if c == '3' {
        lemma_glyph_unique_3(d);
    }
    if c == '4' {
        lemma_glyph_unique_4(d);
    }
    if c == '5' {
        lemma_glyph_unique_5(d);
    }
    if c == '6' {
        lemma_glyph_unique_6(d);
    }
    if c == '7' {
        lemma_glyph_unique_7(d);
    }
    if c == '8' {
        lemma_glyph_unique_8(d);
    }
    if c == '9' {
        lemma_glyph_unique_9(d);
    }
    if c == 'A' {
        lemma_glyph_unique_10(d);
    }
    if c == 'C' {
        lemma_glyph_unique_11(d);
    }
    if c == 'D' {
        lemma_glyph_unique_12(d);
    }
    if c == 'E' {
        lemma_glyph_unique_13(d);
    }
    if c == 'F' {
        lemma_glyph_unique_14(d);
    }
    if c == 'I' {
        lemma_glyph_unique_15(d);
    }
    if c == 'L' {
        lemma_glyph_unique_16(d);
    }
    if c == 'O' {
        lemma_glyph_unique_17(d);
    }
    if c == 'R' {
        lemma_glyph_unique_18(d);
    }
    if c == 'T' {
        lemma_glyph_unique_19(d);
    }
    if c == '(' {
        lemma_glyph_unique_20(d);
    }
    if c == ')' {
        lemma_glyph_unique_21(d);
    }
    if c == '-' {
        lemma_glyph_unique_22(d);
    }
    reveal_strlit("00000");
    reveal_strlit("00001");
    reveal_strlit("00010");
    reveal_strlit("00100");
    reveal_strlit("00110");
    reveal_strlit("01000");
    reveal_strlit("01010");
    reveal_strlit("01100");
    reveal_strlit("01110");
    reveal_strlit("01111");
    reveal_strlit("10000");
    reveal_strlit("10001");
    reveal_strlit("10010");
    reveal_strlit("10011");
    reveal_strlit("10100");
    reveal_strlit("10101");
    reveal_strlit("11001");
    reveal_strlit("11110");
    reveal_strlit("11111");
}

/// The label has a character that the font draws.
pub open spec fn has_glyph(text: Seq<char>) -> bool {
    exists|k: int|
        0 <= k < text.len() && text[k] != ' ' && #[trigger] glyph_rows(ascii_upper(text[k])) is Some
}

/// Pixel (`px`, `py`) lies in a set cell of one of the glyphs of the first
/// `k` characters of `text` drawn from (`x`, `y`) at `scale`.
pub open spec fn text_covers(
    text: Seq<char>,
    x: int,
    y: int,
    scale: u32,
    k: int,
    px: int,
    py: int,
) -> bool
    decreases k,
{
    if k <= 0 {
        false
    } else {
        text_covers(text, x, y, scale, k - 1, px, py) || (text[k - 1] != ' ' && match glyph_rows(
            ascii_upper(text[k - 1]),
        ) {
            Some(rows) => glyph_covers(
                rows,
                x + text_advance(text, scale, k - 1),
                y,
                scale as int,
                7,
                px,
                py,
            ),
            None => false,
        })
    }
}

/// A label drawn from (`x`, `y`) at `scale` stays within `u32`.
pub open spec fn text_fits(text: Seq<char>, x: int, y: int, scale: u32) -> bool {
    &&& x + text_advance(text, scale, text.len() as int) <= u32::MAX
    &&& (y + 7 * scale <= u32::MAX || !has_glyph(text))
}

/// Paints `text` in the bitmap font from (`x`, `y`) at `scale` in `color`:
/// each character the font has is drawn and moves on six cells, a space or
/// any other character moves on four.
pub fn draw_bitmap_text(c: &mut Canvas, text: &str, x: u32, y: u32, scale: u32, color: [u8; 3])
    requires
        old(c).wf(),
        text_fits(text@, x as int, y as int, scale),
    ensures
        final(c).wf(),
        final(c).same_size(old(c)),
        forall|px: int, py: int, ch: int|
            #![trigger final(c).at(px, py, ch)]
            on_image(old(c).width as int, old(c).height as int, px, py) && 0 <= ch < 4
                ==> final(c).at(px, py, ch) == if text_covers(
                text@,
                x as int,
                y as int,
                scale,
                text@.len() as int,
                px,
                py,
            ) {
                opaque(color, ch)
            } else {
                old(c).at(px, py, ch)
            },
{
    let ghost start = *c;
    let ghost w = c.width as int;
    let ghost h = c.height as int;
    let ghost total = text_advance(text@, scale, text@.len() as int);
    let v = to_chars(text);
    let mut cursor: u32 = x;
    let mut i: usize = 0;
    while i < v.len()
        invariant
            c.wf(),
            c.same_size(&start),
            w == c.width as int,
            h == c.height as int,
            start.width as int == w,
            v@ == text@,
            i <= v@.len(),
            total == text_advance(text@, scale, text@.len() as int),
            text_fits(text@, x as int, y as int, scale),
            cursor == x + text_advance(text@, scale, i as int),
            forall|px: int, py: int, ch: int|
                #![trigger c.at(px, py, ch)]
                on_image(w, h, px, py) && 0 <= ch < 4 ==> c.at(px, py, ch) == if text_covers(
                    text@,
                    x as int,
                    y as int,
                    scale,
                    i as int,
                    px,
                    py,
                ) {
                    opaque(color, ch)
                } else {
                    start.at(px, py, ch)
                },
        decreases v@.len() - i,
    {
        proof {
            lemma_text_advance_mono(text@, scale, i + 1, text@.len() as int);
        }
        let ch = v[i];
        if ch == ' ' {
            cursor = cursor + scale * 4;
        } else {
            match bitmap_glyph(ch) {
                Some(pattern) => {
                    proof {
                        let rows = glyph_rows(ascii_upper(ch)).unwrap();
                        lemma_glyph_shape(ascii_upper(ch));
                        assert(pattern_rows(pattern) =~= rows);
                        assert(has_glyph(text@)) by {
                            assert(glyph_rows(ascii_upper(text@[i as int])) is Some);
                        }
                        assert forall|r: int, col: int|
                            0 <= r < rows.len() && 0 <= col < rows[r].len()
                                && #[trigger] rows[r][col] == '1' implies cursor + col * scale
                            + scale <= u32::MAX && y + r * scale + scale <= u32::MAX by {
                            assert(col * scale + scale <= 5 * scale) by (nonlinear_arith)
                                requires
                                    0 <= col < 5,
                            ;
                            assert(r * scale + scale <= 7 * scale) by (nonlinear_arith)
                                requires
                                    0 <= r < 7,
                            ;
                        }
                    }
                    draw_bitmap_glyph(c, &pattern, cursor, y, scale, color);
                    cursor = cursor + scale * 6;
                },
                None => {
                    cursor = cursor + scale * 4;
                },
            }
        }
        i = i + 1;
    }
}

/// Mixes the colour channels of pixel (`x`, `y`) with `color` at opacity
/// `alpha` out of 255.
fn blend_px(c: &mut Canvas, x: u32, y: u32, color: [u8; 3], alpha: u16)
    requires
        old(c).wf(),
        on_image(old(c).width as int, old(c).height as int, x as int, y as int),
        alpha <= 255,
    ensures
        final(c).wf(),
        final(c).same_size(old(c)),
        forall|px: int, py: int, ch: int|
            #![trigger final(c).at(px, py, ch)]
            on_image(old(c).width as int, old(c).height as int, px, py) && 0 <= ch < 4
                ==> final(c).at(px, py, ch) == if px == x && py == y && ch < 3 {
                blended(old(c).at(px, py, ch), color@[ch], alpha)
            } else {
                old(c).at(px, py, ch)
            },
{
    let ghost w = c.width as int;
    let ghost h = c.height as int;
    let ghost before = c.pixels@;
    let mut ch: usize = 0;
    while ch < 3
        invariant
            c.wf(),
            c.width == old(c).width,
            c.height == old(c).height,
            w == c.width as int,
            h == c.height as int,
            before == old(c).pixels@,
            on_image(w, h, x as int, y as int),
            alpha <= 255,
            ch <= 3,
            c.pixels@.len() == before.len(),
            forall|px: int, py: int, k: int|
                #![trigger c.pixels@[idx(w, px, py, k)]]
                on_image(w, h, px, py) && 0 <= k < 4 ==> c.pixels@[idx(w, px, py, k)] == if px
                    == x && py == y && k < ch {
                    blended(before[idx(w, px, py, k)], color@[k], alpha)
                } else {
                    before[idx(w, px, py, k)]
                },
        decreases 3 - ch,
    {
        let i = index_of(c, x, y, ch);
        let v = blend_channel(c.pixels[i], color[ch], alpha);
        c.pixels.set(i, v);
        proof {
            assert forall|px: int, py: int, k: int|
                on_image(w, h, px, py) && 0 <= k < 4 implies #[trigger] c.pixels@[idx(
                w,
                px,
                py,
                k,
            )] == if px == x && py == y && k < ch + 1 {
                blended(before[idx(w, px, py, k)], color@[k], alpha)
            } else {
                before[idx(w, px, py, k)]
            } by {
                lemma_idx(w, h, px, py, k);
                if idx(w, px, py, k) == i {
                    lemma_idx_injective(w, px, py, k, x as int, y as int, ch as int);
                }
            }
        }
        ch = ch + 1;
    }
}

/// Mixes the colour channels of every pixel of row `y` with `color` at
/// opacity `alpha` out of 255.
pub fn blend_row(c: &mut Canvas, y: u32, color: [u8; 3], alpha: u16)
    requires
        old(c).wf(),
        y < old(c).height,
        alpha <= 255,
    ensures
        final(c).wf(),
        final(c).same_size(old(c)),
        forall|px: int, py: int, ch: int|
            #![trigger final(c).at(px, py, ch)]
            on_image(old(c).width as int, old(c).height as int, px, py) && 0 <= ch < 4
                ==> final(c).at(px, py, ch) == if py == y && ch < 3 {
                blended(old(c).at(px, py, ch), color@[ch], alpha)
            } else {
                old(c).at(px, py, ch)
            },
{
    let ghost start = *c;
    let ghost w = c.width as int;
    let ghost h = c.height as int;
    let mut x: u32 = 0;
    while x < c.width
        invariant
            c.wf(),
            c.same_size(&start),
            w == c.width as int,
            h == c.height as int,
            start.width as int == w,
            y < h,
            alpha <= 255,
            x <= w,
            forall|px: int, py: int, ch: int|
                #![trigger c.at(px, py, ch)]
                on_image(w, h, px, py) && 0 <= ch < 4 ==> c.at(px, py, ch) == if py == y && px < x
                    && ch < 3 {
                    blended(start.at(px, py, ch), color@[ch], alpha)
                } else {
                    start.at(px, py, ch)
                },
        decreases w - x,
    {
        blend_px(c, x, y, color, alpha);
        x = x + 1;
    }
}

/// The colours of a highlighted band: a fill over its rows and a border
/// along its top and bottom edges, each with an opacity out of 255.
#[derive(Clone, Copy)]
pub struct HighlightStyle {
    pub fill: [u8; 3],
    pub fill_alpha: u16,
    pub border: [u8; 3],
    pub border_alpha: u16,
}

/// Yellow with a red border: a row that differs from the official result.
pub open spec fn official_highlight_style() -> HighlightStyle {
    HighlightStyle {
        fill: [255u8, 230u8, 0u8],
        fill_alpha: 72,
        border: [220u8, 0u8, 0u8],
        border_alpha: 180,
    }
}

/// Light blue with a blue border: a row of an internal inconsistency.
pub open spec fn internal_highlight_style() -> HighlightStyle {
    HighlightStyle {
        fill: [70u8, 170u8, 255u8],
        fill_alpha: 72,
        border: [0u8, 80u8, 220u8],
        border_alpha: 180,
    }
}

/// Magenta with a purple border: a correction row with a problem.
pub open spec fn correction_highlight_style() -> HighlightStyle {
    HighlightStyle {
        fill: [255u8, 0u8, 180u8],
        fill_alpha: 76,
        border: [160u8, 0u8, 160u8],
        border_alpha: 220,
    }
}

/// The highlight of a row that differs from the official result.
pub fn official_highlight() -> (r: HighlightStyle)
    ensures
        r == official_highlight_style(),
{
    HighlightStyle { fill: [255, 230, 0], fill_alpha: 72, border: [220, 0, 0], border_alpha: 180 }
}

/// The highlight of a row of an internal inconsistency.
pub fn internal_highlight() -> (r: HighlightStyle)
    ensures
        r == internal_highlight_style(),
{
    HighlightStyle { fill: [70, 170, 255], fill_alpha: 72, border: [0, 80, 220], border_alpha: 180 }
}

/// The highlight of a correction row with a problem.
pub fn correction_highlight() -> (r: HighlightStyle)
    ensures
        r == correction_highlight_style(),
{
    HighlightStyle { fill: [255, 0, 180], fill_alpha: 76, border: [160, 0, 160], border_alpha: 220 }
}

/// Row `py` lies within two pixels of the edge at row `edge`.
pub open spec fn near_edge(edge: int, py: int) -> bool {
    edge - 2 <= py < edge + 2
}

/// Colour channel `ch` (below 3) of a pixel in row `py` with value `p`
/// after highlighting the band from `t` to `b`: the fill over the band's
/// rows, then the border around its top edge, then around its bottom edge.
pub open spec fn highlighted(p: u8, ch: int, py: int, t: int, b: int, style: HighlightStyle) -> u8 {
    let p1 = if t <= py < b {
        blended(p, style.fill@[ch], style.fill_alpha)
    } else {
        p
    };
    let p2 = if near_edge(t, py) {
        blended(p1, style.border@[ch], style.border_alpha)
    } else {
        p1
    };
    if near_edge(b, py) {
        blended(p2, style.border@[ch], style.border_alpha)
    } else {
        p2
    }
}

/// Blends every row from `lo` up to but not including `hi` with `color`.
fn blend_rows(c: &mut Canvas, lo: u32, hi: u32, color: [u8; 3], alpha: u16)
    requires
        old(c).wf(),
        hi <= old(c).height,
        alpha <= 255,
    ensures
        final(c).wf(),
        final(c).same_size(old(c)),
        forall|px: int, py: int, ch: int|
            #![trigger final(c).at(px, py, ch)]
            on_image(old(c).width as int, old(c).height as int, px, py) && 0 <= ch < 4
                ==> final(c).at(px, py, ch) == if lo <= py < hi && ch < 3 {
                blended(old(c).at(px, py, ch), color@[ch], alpha)
            } else {
                old(c).at(px, py, ch)
            },
{
    let ghost start = *c;
    let ghost w = c.width as int;
    let ghost h = c.height as int;
    let mut y: u32 = lo;
    while y < hi
        invariant
            c.wf(),
            c.same_size(&start),
            w == c.width as int,
            h == c.height as int,
            start.width as int == w,
            hi <= h,
            alpha <= 255,
            lo <= y,
            y <= hi || y == lo,
            forall|px: int, py: int, ch: int|
                #![trigger c.at(px, py, ch)]
                on_image(w, h, px, py) && 0 <= ch < 4 ==> c.at(px, py, ch) == if lo <= py < y
                    && ch < 3 {
                    blended(start.at(px, py, ch), color@[ch], alpha)
                } else {
                    start.at(px, py, ch)
                },
        decreases hi - y,
    {
        blend_row(c, y, color, alpha);
        y = y + 1;
    }
}

/// Highlights the band of rows from `top` to `bottom` (cut to the image):
/// its rows are mixed with the style's fill, then the two rows on either
/// side of its top edge and of its bottom edge with the border colour.
pub fn highlight_image_band(c: &mut Canvas, top: u32, bottom: u32, style: HighlightStyle)
    requires
        old(c).wf(),
        style.fill_alpha <= 255,
        style.border_alpha <= 255,
        (if top < old(c).height {
            top
        } else {
            old(c).height
        }) + 2 <= u32::MAX,
        (if bottom < old(c).height {
            bottom
        } else {
            old(c).height
        }) + 2 <= u32::MAX,
    ensures
        final(c).wf(),
        final(c).same_size(old(c)),
        forall|px: int, py: int, ch: int|
            #![trigger final(c).at(px, py, ch)]
            on_image(old(c).width as int, old(c).height as int, px, py) && 0 <= ch < 4
                ==> final(c).at(px, py, ch) == if ch < 3 {
                highlighted(
                    old(c).at(px, py, ch),
                    ch,
                    py,
                    if top < old(c).height {
                        top as int
                    } else {
                        old(c).height as int
                    },
                    if bottom < old(c).height {
                        bottom as int
                    } else {
                        old(c).height as int
                    },
                    style,
                )
            } else {
                old(c).at(px, py, ch)
            },
{
    let h = c.height;
    let t = if top < h {
        top
    } else {
        h
    };
    let b = if bottom < h {
        bottom
    } else {
        h
    };
    let ghost c0 = *c;
    blend_rows(c, t, b, style.fill, style.fill_alpha);
    let ghost c1 = *c;
    let t_lo = if t > 2 {
        t - 2
    } else {
        0
    };
    let t_hi = if t + 2 < h {
        t + 2
    } else {
        h
    };
    blend_rows(c, t_lo, t_hi, style.border, style.border_alpha);
    let ghost c2 = *c;
    let b_lo = if b > 2 {
        b - 2
    } else {
        0
    };
    let b_hi = if b + 2 < h {
        b + 2
    } else {
        h
    };
    blend_rows(c, b_lo, b_hi, style.border, style.border_alpha);
    assert forall|px: int, py: int, ch: int|
        on_image(c0.width as int, c0.height as int, px, py) && 0 <= ch < 4 implies #[trigger] c.at(
        px,
        py,
        ch,
    ) == if ch < 3 {
        highlighted(c0.at(px, py, ch), ch, py, t as int, b as int, style)
    } else {
        c0.at(px, py, ch)
    } by {
        assert(c1.at(px, py, ch) == if t <= py < b && ch < 3 {
            blended(c0.at(px, py, ch), style.fill@[ch], style.fill_alpha)
        } else {
            c0.at(px, py, ch)
        });
        assert(c2.at(px, py, ch) == if t_lo <= py < t_hi && ch < 3 {
            blended(c1.at(px, py, ch), style.border@[ch], style.border_alpha)
        } else {
            c1.at(px, py, ch)
        });
    }
}

/// Pixel (`x`, `y`) is darker than `level` in each colour channel.
pub open spec fn is_dark(c: &Canvas, x: int, y: int, level: u8) -> bool {
    c.at(x, y, 0) < level && c.at(x, y, 1) < level && c.at(x, y, 2) < level
}

/// The number of dark pixels of row `y` from column `x_start` up to but
/// not including column `x`.
pub open spec fn dark_count(c: &Canvas, y: int, x_start: int, x: int, level: u8) -> nat
    decreases x - x_start,
{
    if x <= x_start {
        0
    } else {
        dark_count(c, y, x_start, x - 1, level) + if is_dark(c, x - 1, y, level) {
            1nat
        } else {
            0nat
        }
    }
}

/// The rows from `y_start` up to but not including `y` with at least
/// `threshold` dark pixels between columns `x_start` and `x_end`.
pub open spec fn dark_rows(
    c: &Canvas,
    x_start: int,
    x_end: int,
    y_start: int,
    y: int,
    level: u8,
    threshold: u32,
) -> Seq<u32>
    decreases y - y_start,
{
    if y <= y_start {
        Seq::empty()
    } else {
        let prev = dark_rows(c, x_start, x_end, y_start, y - 1, level, threshold);
        if dark_count(c, y - 1, x_start, x_end, level) >= threshold {
            prev.push((y - 1) as u32)
        } else {
            prev
        }
    }
}

/// The scanned area lies on the image whenever it holds a pixel.
pub open spec fn scan_fits(c: &Canvas, x_start: u32, x_end: u32, y_start: u32, y_end: u32) -> bool {
    x_start < x_end && y_start < y_end ==> x_end <= c.width && y_end <= c.height
}

proof fn lemma_dark_count_bound(c: &Canvas, y: int, x_start: int, x: int, level: u8)
    requires
        x_start <= x,
    ensures
        dark_count(c, y, x_start, x, level) <= x - x_start,
    decreases x - x_start,
{
    if x > x_start {
        lemma_dark_count_bound(c, y, x_start, x - 1, level);
    }
}

/// The rows from `y_start` up to but not including `y_end` in which at
/// least `threshold` pixels from column `x_start` up to but not including
/// `x_end` are darker than `level` in every colour channel.
pub fn dark_line_rows(
    c: &Canvas,
    x_start: u32,
    x_end: u32,
    y_start: u32,
    y_end: u32,
    level: u8,
    threshold: u32,
) -> (r: Vec<u32>)
    requires
        c.wf(),
        scan_fits(c, x_start, x_end, y_start, y_end),
    ensures
        r@ == dark_rows(c, x_start as int, x_end as int, y_start as int, y_end as int, level, threshold),
{
    let mut rows: Vec<u32> = Vec::new();
    let mut y = y_start;
    while y < y_end
        invariant
            c.wf(),
            scan_fits(c, x_start, x_end, y_start, y_end),
            y_start <= y,
            y <= y_end || y == y_start,
            rows@ == dark_rows(c, x_start as int, x_end as int, y_start as int, y as int, level, threshold),
        decreases y_end - y,
    {
        let mut dark: u32 = 0;
        let mut x = x_start;
        while x < x_end
            invariant
                c.wf(),
                scan_fits(c, x_start, x_end, y_start, y_end),
                y_start <= y < y_end,
                x_start <= x,
                x <= x_end || x == x_start,
                dark == dark_count(c, y as int, x_start as int, x as int, level),
            decreases x_end - x,
        {
            proof {
                lemma_dark_count_bound(c, y as int, x_start as int, x as int, level);
            }
            let i0 = index_of(c, x, y, 0);
            let i1 = index_of(c, x, y, 1);
            let i2 = index_of(c, x, y, 2);
            if c.pixels[i0] < level && c.pixels[i1] < level && c.pixels[i2] < level {
                dark = dark + 1;
            }
            x = x + 1;
        }
        if dark >= threshold {
            rows.push(y);
        }
        y = y + 1;
    }
    rows
}

/// The centres of the ruling lines of a candidate table: rows of the area
/// scanned with at least `threshold` pixels darker than 170, grouped.
pub fn detect_candidate_row_lines(
    c: &Canvas,
    x_start: u32,
    x_end: u32,
    y_start: u32,
    y_end: u32,
    threshold: u32,
) -> (r: Vec<u32>)
    requires
        c.wf(),
        scan_fits(c, x_start, x_end, y_start, y_end),
        line_centers_fit(dark_rows(c, x_start as int, x_end as int, y_start as int, y_end as int, 170, threshold)),
    ensures
        r@ == line_centers(dark_rows(c, x_start as int, x_end as int, y_start as int, y_end as int, 170, threshold)),
{
    let rows = dark_line_rows(c, x_start, x_end, y_start, y_end, 170, threshold);
    grouped_line_centers(rows.as_slice())
}

/// The centres of the ruling lines of a correction table: rows of the area
/// scanned with at least `threshold` pixels darker than 150, grouped.
pub fn detect_correction_table_lines(
    c: &Canvas,
    x_start: u32,
    x_end: u32,
    y_start: u32,
    y_end: u32,
    threshold: u32,
) -> (r: Vec<u32>)
    requires
        c.wf(),
        scan_fits(c, x_start, x_end, y_start, y_end),
        line_centers_fit(dark_rows(c, x_start as int, x_end as int, y_start as int, y_end as int, 150, threshold)),
    ensures
        r@ == line_centers(dark_rows(c, x_start as int, x_end as int, y_start as int, y_end as int, 150, threshold)),
{
    let rows = dark_line_rows(c, x_start, x_end, y_start, y_end, 150, threshold);
    grouped_line_centers(rows.as_slice())
}

} // verus!
