use crate::blend::transparent_blend;
use crate::canvas::{lemma_index_bound, Canvas};
use crate::font::glyph_builder::{
    decode_rows, encoded_inst_ok, lemma_decode_rows_nonempty, repeat, runs_maximal, same_when_padded,
    GlyphInstructionBuilder,
};
use crate::font::layout::{sat_add, width_to_i32};
use crate::img::Image;
use crate::blend::{with_coverage, ColorAlphaBlendMode};
use crate::rgba::{rgba_of, Rgba};
use vstd::prelude::*;

verus! {

broadcast use vstd::seq::group_seq_axioms;

/// One step of painting a glyph, from its top-left corner, row by row.
#[derive(Clone, Copy, Debug, PartialEq, Eq, Structural, Hash)]
pub enum GlyphInst {
    /// Go to the start of the next row.
    NextRow,
    /// Go down `n` rows, to their start.
    NextNRow(u32),
    /// Skip `n` transparent pixels.
    XOffset(u32),
    /// Paint one pixel with the given coverage.
    Blend(u8),
    /// Paint `n` pixels with the given coverage.
    BlendN(u8, u32),
    /// Paint `n` fully covered pixels.
    Solid(u32),
}

/// The pixel at column `x` of row `y` of decoded rows; what no row reaches is transparent.
pub open spec fn cell(rows: Seq<Seq<u8>>, y: int, x: int) -> u8 {
    if 0 <= y < rows.len() && 0 <= x < rows[y].len() {
        rows[y][x]
    } else {
        0
    }
}

/// The row-major alpha buffer of width `w` and height `h` that replaying `s` onto a
/// blank (transparent) buffer gives.
pub open spec fn replay_spec(s: Seq<GlyphInst>, w: nat, h: nat) -> Seq<u8> {
    let rows = decode_rows(s);
    Seq::new(w * h, |k: int| cell(rows, k / (w as int), k % (w as int)))
}

/// Row `y` of a row-major buffer of width `w`.
pub open spec fn row_of(a: Seq<u8>, w: nat, y: int) -> Seq<u8> {
    a.subrange(y * w, y * w + w)
}

proof fn lemma_index_split(k: int, w: int, h: int)
    requires
        0 <= k < w * h,
        w > 0,
    ensures
        0 <= k / w < h,
        0 <= k % w < w,
        k == w * (k / w) + k % w,
{
    vstd::arithmetic::div_mod::lemma_fundamental_div_mod(k, w);
    vstd::arithmetic::div_mod::lemma_mod_bound(k, w);
    vstd::arithmetic::div_mod::lemma_div_pos_is_pos(k, w);
    if k / w >= h {
        vstd::arithmetic::mul::lemma_mul_inequality(h, k / w, w);
        assert(w * h <= w * (k / w)) by (nonlinear_arith)
            requires
                h <= k / w,
                w > 0,
        ;
    }
}

/// Encodes a row-major alpha buffer as runs of skipped, solid and translucent pixels.
pub fn encode_alpha(alpha: &Vec<u8>, width: u32, height: u32) -> (r: Vec<GlyphInst>)
    requires
        alpha.len() == width * height,
    ensures
        replay_spec(r@, width as nat, height as nat) == alpha@,
        fits(r@, width as nat, height as nat),
        forall|j: int| height <= j < decode_rows(r@).len() ==> (#[trigger] decode_rows(r@)[j]).len() == 0,
        forall|i: int| 0 <= i < r@.len() ==> encoded_inst_ok(#[trigger] r@[i]),
        r@.len() > 0 ==> r@.last() != GlyphInst::NextRow,
        runs_maximal(r@),
{
    let w = width as usize;
    let h = height as usize;
    let mut b = GlyphInstructionBuilder::with_capacity(alpha.len());
    let mut y: usize = 0;
    while y < h
        invariant
            b.wf(),
            alpha.len() == w * h,
            w == width,
            h == height,
            y <= h,
            b.rows().len() == y + 1,
            b.rows().last() == Seq::<u8>::empty(),
            forall|r: int|
                0 <= r < y ==> same_when_padded(row_of(alpha@, w as nat, r), #[trigger] b.rows()[r]),
        decreases h - y,
    {
        assert(y * w + w <= w * h) by (nonlinear_arith)
            requires
                y < h,
        ;
        let row_start = y * w;
        let ghost rows0 = b.rows();
        assert(b.rows().last() =~= alpha@.subrange(row_start as int, row_start as int));
        let mut x: usize = 0;
        while x < w
            invariant
                b.wf(),
                alpha.len() == w * h,
                w == width,
                y < h,
                row_start == y * w,
                row_start + w <= alpha.len(),
                w <= u32::MAX,
                b.rows().len() == y + 1,
                b.rows().drop_last() == rows0.drop_last(),
                x <= w,
                b.rows().last() == alpha@.subrange(row_start as int, row_start + x),
            decreases w - x,
        {
            let ghost before = b.rows();
            b.next_val(alpha[row_start + x]);
            x = x + 1;
            assert(b.rows().last() =~= alpha@.subrange(row_start as int, row_start + x));
            assert(b.rows().drop_last() =~= before.drop_last());
        }
        let ghost filled = b.rows();
        b.next_row();
        y = y + 1;
        proof {
            assert forall|r: int| 0 <= r < y implies same_when_padded(
                row_of(alpha@, w as nat, r),
                #[trigger] b.rows()[r],
            ) by {
                if r < y - 1 {
                    assert(b.rows()[r] == b.rows().drop_last().drop_last()[r]);
                    assert(rows0[r] == rows0.drop_last()[r]);
                    assert(filled.drop_last()[r] == filled[r]);
                } else {
                    assert(b.rows()[r] == b.rows().drop_last().last());
                    assert(filled.last() =~= row_of(alpha@, w as nat, r));
                }
            }
        }
    }
    let ghost rows = b.rows();
    let r = b.into_glyph_instructions();
    proof {
        let d = decode_rows(r@);
        assert forall|yy: int| 0 <= yy < h implies same_when_padded(
            row_of(alpha@, w as nat, yy),
            #[trigger] rows[yy],
        ) by {
            assert(rows[yy] == rows.drop_last()[yy]);
        }
        let rep = replay_spec(r@, w as nat, h as nat);
        assert forall|k: int| 0 <= k < alpha@.len() implies rep[k] == alpha@[k] by {
            lemma_index_split(k, w as int, h as int);
            let yy = k / (w as int);
            let xx = k % (w as int);
            assert(yy * w + xx == k) by (nonlinear_arith)
                requires
                    k == w * yy + xx,
            ;
            assert(yy * w + w <= w * h) by (nonlinear_arith)
                requires
                    yy < h,
            ;
            assert(same_when_padded(row_of(alpha@, w as nat, yy), rows[yy]));
            assert(row_of(alpha@, w as nat, yy)[xx] == alpha@[k]);
            if yy < d.len() {
                assert(d[yy] == rows[yy]);
            } else {
                assert(rows[yy] == Seq::<u8>::empty());
            }
        }
        assert(rep =~= alpha@);
        let bound = Seq::new((h + 1) as nat, |_j: int| Seq::new(w as nat, |_k: int| 0u8));
        assert forall|j: int| 0 <= j < d.len() implies (#[trigger] d[j]).len() <= bound[j].len() by {
            assert(d[j] == rows[j]);
            if j < h {
                assert(same_when_padded(row_of(alpha@, w as nat, j), rows[j]));
                assert(row_of(alpha@, w as nat, j).len() == w) by {
                    assert(j * w + w <= w * h) by (nonlinear_arith)
                        requires
                            j < h,
                            j >= 0,
                    ;
                }
            } else {
                assert(d[j] == rows[j]);
            }
        }
    }
    r
}

} // verus!

verus! {

/// The alpha of the pixel at `k` in the buffer that puts `img` `ox` pixels right and `oy`
/// pixels down in a transparent buffer `img.width + ox` wide.
pub open spec fn padded_alpha(img: &Image, ox: nat, oy: nat, k: int) -> u8 {
    let w = img.spec_width() + ox;
    let x = k % (w as int);
    let y = k / (w as int);
    if x >= ox && y >= oy {
        img.pixel(x - ox, y - oy).0[3]
    } else {
        0
    }
}

/// A rasterized character: how to paint it, and how far it moves the cursor.
pub struct Glyph {
    pub inst: Vec<GlyphInst>,
    pub ch: char,
    pub render_width: u32,
    pub advance_width: i32,
    /// The font's own identifier of the glyph, used to look up kerning.
    pub id: Option<u32>,
}

impl Glyph {
    /// Encodes the alpha channel of `img`, placed `offset` right of and below the glyph's
    /// top-left corner.
    pub fn from_image(ch: char, img: &Image, offset: [u32; 2], id: Option<u32>, advance_width: i32) -> (r: Self)
        requires
            img.wf(),
            (img.spec_width() + offset[0]) * (img.spec_height() + offset[1]) <= usize::MAX,
            img.spec_width() + offset[0] <= u32::MAX,
            img.spec_height() + offset[1] <= u32::MAX,
        ensures
            r.ch == ch,
            r.id == id,
            r.advance_width == advance_width,
            r.render_width == img.spec_width() + offset[0],
            glyph_ok(r.inst@),
            forall|j: int| img.spec_height() + offset[1] <= j < decode_rows(r.inst@).len() ==> (#[trigger] decode_rows(r.inst@)[j]).len() == 0,
            fits(r.inst@, (img.spec_width() + offset[0]) as nat, (img.spec_height() + offset[1]) as nat),
            replay_spec(
                r.inst@,
                (img.spec_width() + offset[0]) as nat,
                (img.spec_height() + offset[1]) as nat,
            ) == Seq::new(
                ((img.spec_width() + offset[0]) * (img.spec_height() + offset[1])) as nat,
                |k: int| padded_alpha(img, offset[0] as nat, offset[1] as nat, k),
            ),
    {
        let ox = offset[0];
        let oy = offset[1];
        let w = img.width() + ox;
        let h = img.height() + oy;
        let len = (w as usize) * (h as usize);
        let mut alpha: Vec<u8> = Vec::with_capacity(len);
        let mut k: usize = 0;
        while k < len
            invariant
                img.wf(),
                w == img.spec_width() + ox,
                h == img.spec_height() + oy,
                len == w * h,
                k <= len,
                alpha.len() == k,
                forall|j: int| 0 <= j < k ==> #[trigger] alpha@[j] == padded_alpha(img, ox as nat, oy as nat, j),
            decreases len - k,
        {
            proof {
                lemma_index_split(k as int, w as int, h as int);
            }
            let x = (k % (w as usize)) as u32;
            let y = (k / (w as usize)) as u32;
            if x >= ox && y >= oy {
                let c = img.get([x - ox, y - oy]);
                alpha.push(c.0[3]);
            } else {
                alpha.push(0);
            }
            k = k + 1;
        }
        let inst = encode_alpha(&alpha, w, h);
        proof {
            let d = decode_rows(inst@);
            let bound = Seq::new((h + 1) as nat, |_j: int| Seq::new(w as nat, |_k: int| 0u8));
            assert forall|j: int| 0 <= j < d.len() implies (#[trigger] d[j]).len() <= u32::MAX by {
                assert(d[j].len() <= bound[j].len());
            }
            assert forall|i: int| 0 <= i < inst@.len() implies !(#[trigger] inst@[i] matches GlyphInst::Blend(v) && v == 0) by {
                assert(encoded_inst_ok(inst@[i]));
            }
            assert forall|i: int| 0 <= i < inst@.len() implies !(#[trigger] inst@[i] matches GlyphInst::BlendN(v, _) && v == 0) by {
                assert(encoded_inst_ok(inst@[i]));
            }
        }
        assert(alpha@ =~= Seq::new(
            (w * h) as nat,
            |j: int| padded_alpha(img, ox as nat, oy as nat, j),
        ));
        Glyph { inst, ch, render_width: w, advance_width, id }
    }

    /// A glyph that paints nothing.
    pub fn empty(ch: char, id: Option<u32>, advance_width: i32) -> (r: Self)
        ensures
            r.inst@.len() == 0,
            glyph_ok(r.inst@),
            r.ch == ch,
            r.id == id,
            r.render_width == 0,
            r.advance_width == advance_width,
    {
        Glyph { inst: Vec::new(), ch, render_width: 0, advance_width, id }
    }
}

} // verus!

verus! {

/// Every row of `a` is at least as long as the same row of `b`, and `b` has all of `a`'s rows.
pub open spec fn rows_within(a: Seq<Seq<u8>>, b: Seq<Seq<u8>>) -> bool {
    &&& a.len() <= b.len()
    &&& forall|j: int| 0 <= j < a.len() ==> (#[trigger] a[j]).len() <= b[j].len()
}

/// The stream paints nothing right of column `w` and no row below row `h`, but for an
/// empty row there; and it never moves down by zero rows.
pub open spec fn fits(s: Seq<GlyphInst>, w: nat, h: nat) -> bool {
    &&& rows_within(decode_rows(s), Seq::new(h + 1, |_j: int| Seq::new(w, |_k: int| 0u8)))
    &&& forall|i: int| 0 <= i < s.len() ==> !(#[trigger] s[i] matches GlyphInst::NextNRow(n) && n == 0)
}

proof fn lemma_rows_step(s: Seq<GlyphInst>, i: int)
    requires
        0 <= i < s.len(),
    ensures
        rows_within(decode_rows(s.subrange(0, i)), decode_rows(s.subrange(0, i + 1))),
{
    let p = s.subrange(0, i + 1);
    assert(p.drop_last() =~= s.subrange(0, i));
    lemma_decode_rows_nonempty(s.subrange(0, i));
}

proof fn lemma_rows_prefix(s: Seq<GlyphInst>, i: int)
    requires
        0 <= i <= s.len(),
    ensures
        rows_within(decode_rows(s.subrange(0, i)), decode_rows(s)),
    decreases s.len() - i,
{
    if i == s.len() {
        assert(s.subrange(0, i) =~= s);
    } else {
        lemma_rows_step(s, i);
        lemma_rows_prefix(s, i + 1);
    }
}

/// The alpha buffer, row by row, that the rows `rows` paint in a `w` by `h` area.
pub open spec fn rows_buffer(rows: Seq<Seq<u8>>, w: nat, h: nat) -> Seq<u8> {
    Seq::new(w * h, |k: int| cell(rows, k / (w as int), k % (w as int)))
}

/// Paints `v` at the cursor: the buffer of rows whose last row grows by `v`.
fn replay_put(out: &mut Vec<u8>, rows: Ghost<Seq<Seq<u8>>>, w: usize, h: usize, x: usize, y: usize, v: u8)
    requires
        old(out)@ == rows_buffer(rows@, w as nat, h as nat),
        rows@.len() == y + 1,
        rows@.last().len() == x,
        x < w,
        w * h <= usize::MAX,
    ensures
        final(out)@ == rows_buffer(rows@.update(y as int, rows@.last().push(v)), w as nat, h as nat),
{
    let ghost r2 = rows@.update(y as int, rows@.last().push(v));
    let ghost target = rows_buffer(r2, w as nat, h as nat);
    if y < h {
        assert(y * w + x < w * h) by (nonlinear_arith)
            requires
                y < h,
                x < w,
        ;
        let ghost before = out@;
        out.set(y * w + x, v);
        proof {
            assert forall|k: int| 0 <= k < w * h implies #[trigger] out@[k] == target[k] by {
                lemma_index_split(k, w as int, h as int);
                let yy = k / (w as int);
                let xx = k % (w as int);
                if k == y * w + x {
                    assert(yy * w + xx == y * w + x) by (nonlinear_arith)
                        requires
                            k == w * yy + xx,
                            k == y * w + x,
                    ;
                    lemma_same_cell(yy, xx, y as int, x as int, w as int);
                } else {
                    assert(out@[k] == before[k]);
                    if yy == y && xx == x {
                        assert(k == y * w + x) by (nonlinear_arith)
                            requires
                                k == w * yy + xx,
                                yy == y,
                                xx == x,
                        ;
                    }
                }
            }
            assert(out@ =~= target);
        }
    } else {
        proof {
            assert forall|k: int| 0 <= k < w * h implies #[trigger] out@[k] == target[k] by {
                lemma_index_split(k, w as int, h as int);
            }
            assert(out@ =~= target);
        }
    }
}

proof fn lemma_same_cell(y1: int, x1: int, y2: int, x2: int, w: int)
    requires
        0 <= x1 < w,
        0 <= x2 < w,
        0 <= y1,
        0 <= y2,
        y1 * w + x1 == y2 * w + x2,
    ensures
        y1 == y2 && x1 == x2,
{
    if y1 < y2 {
        assert(y1 * w + x1 < y2 * w + x2) by (nonlinear_arith)
            requires
                y1 < y2,
                0 <= x1 < w,
                0 <= x2,
        ;
    } else if y2 < y1 {
        assert(y2 * w + x2 < y1 * w + x1) by (nonlinear_arith)
            requires
                y2 < y1,
                0 <= x2 < w,
                0 <= x1,
        ;
    }
}

} // verus!

verus! {

/// Adding empty rows, or transparent pixels at the end of the last row, paints nothing.
proof fn lemma_buffer_same(rows: Seq<Seq<u8>>, rows2: Seq<Seq<u8>>, w: nat, h: nat)
    requires
        rows.len() <= rows2.len(),
        forall|j: int| 0 <= j < rows.len() ==> rows[j] == #[trigger] rows2[j].subrange(0, rows[j].len() as int),
        forall|j: int| 0 <= j < rows.len() ==> rows[j].len() <= (#[trigger] rows2[j]).len(),
        forall|j: int, k: int| 0 <= j < rows2.len() && (j >= rows.len() || rows[j].len() <= k) && 0 <= k < rows2[j].len() ==> #[trigger] rows2[j][k] == 0,
    ensures
        rows_buffer(rows, w, h) == rows_buffer(rows2, w, h),
{
    assert forall|k: int| 0 <= k < w * h implies #[trigger] rows_buffer(rows, w, h)[k] == rows_buffer(rows2, w, h)[k] by {
        let yy = k / (w as int);
        let xx = k % (w as int);
        if 0 <= yy < rows.len() && 0 <= xx < rows[yy].len() {
            assert(rows[yy][xx] == rows2[yy].subrange(0, rows[yy].len() as int)[xx]);
        }
    }
    assert(rows_buffer(rows, w, h) =~= rows_buffer(rows2, w, h));
}

/// Replays an instruction stream onto a transparent alpha buffer `width` by `height`,
/// row by row.
pub fn replay_alpha(inst: &Vec<GlyphInst>, width: u32, height: u32) -> (r: Vec<u8>)
    requires
        width * height <= usize::MAX,
        fits(inst@, width as nat, height as nat),
    ensures
        r@ == replay_spec(inst@, width as nat, height as nat),
{
    let w = width as usize;
    let h = height as usize;
    let mut out: Vec<u8> = vec![0u8; w * h];
    let ghost full = decode_rows(inst@);
    let ghost bound = Seq::new((h + 1) as nat, |_j: int| Seq::new(w as nat, |_k: int| 0u8));
    let ghost mut rows: Seq<Seq<u8>> = seq![Seq::empty()];
    assert(inst@.subrange(0, 0) =~= Seq::<GlyphInst>::empty());
    assert(out@ =~= rows_buffer(rows, w as nat, h as nat));
    let mut x: usize = 0;
    let mut y: usize = 0;
    let mut i: usize = 0;
    while i < inst.len()
        invariant
            w == width,
            h == height,
            w * h <= usize::MAX,
            full == decode_rows(inst@),
            rows_within(full, bound),
            bound == Seq::new((h + 1) as nat, |_j: int| Seq::new(w as nat, |_k: int| 0u8)),
            i <= inst.len(),
            rows == decode_rows(inst@.subrange(0, i as int)),
            fits(inst@, w as nat, h as nat),
            rows.len() == y + 1,
            rows.last().len() == x,
            out@ == rows_buffer(rows, w as nat, h as nat),
        decreases inst.len() - i,
    {
        proof {
            lemma_rows_prefix(inst@, i + 1);
            let p = inst@.subrange(0, i + 1);
            assert(p.drop_last() =~= inst@.subrange(0, i as int));
            assert(p.last() == inst@[i as int]);
        }
        let ghost next = decode_rows(inst@.subrange(0, i + 1));
        match inst[i] {
            GlyphInst::NextRow => {
                proof {
                    assert(next.len() <= h + 1);
                    assert forall|j: int| 0 <= j < rows.len() implies rows[j] == #[trigger] next[j].subrange(0, rows[j].len() as int) by {
                        assert(next[j] == rows[j]);
                        assert(rows[j] =~= rows[j].subrange(0, rows[j].len() as int));
                    }
                    lemma_buffer_same(rows, next, w as nat, h as nat);
                    rows = next;
                }
                y = y + 1;
                x = 0;
            },
            GlyphInst::NextNRow(n) => {
                proof {
                    assert(inst@[i as int] matches GlyphInst::NextNRow(n) && n != 0);
                    assert(next.len() <= h + 1);
                    assert forall|j: int| 0 <= j < rows.len() implies rows[j] == #[trigger] next[j].subrange(0, rows[j].len() as int) by {
                        assert(next[j] == rows[j]);
                        assert(rows[j] =~= rows[j].subrange(0, rows[j].len() as int));
                    }
                    lemma_buffer_same(rows, next, w as nat, h as nat);
                    rows = next;
                }
                y = y + n as usize;
                x = 0;
            },
            GlyphInst::XOffset(n) => {
                proof {
                    assert(next[y as int].len() <= w);
                    assert forall|j: int| 0 <= j < rows.len() implies rows[j] == #[trigger] next[j].subrange(0, rows[j].len() as int) by {
                        if j == y {
                            assert(rows[j] =~= next[j].subrange(0, rows[j].len() as int));
                        } else {
                            assert(rows[j] =~= rows[j].subrange(0, rows[j].len() as int));
                        }
                    }
                    lemma_buffer_same(rows, next, w as nat, h as nat);
                    rows = next;
                }
                x = x + n as usize;
            },
            GlyphInst::Blend(v) => {
                proof {
                    assert(next[y as int].len() <= w);
                }
                replay_put(&mut out, Ghost(rows), w, h, x, y, v);
                proof {
                    assert(rows.last().push(v) =~= rows.last() + seq![v]);
                    assert(rows.update(y as int, rows.last().push(v)) =~= next);
                    rows = next;
                }
                x = x + 1;
            },
            GlyphInst::BlendN(v, n) => {
                proof {
                    assert(next[y as int] == rows.last() + repeat(v, n as nat));
                    assert(next[y as int].len() <= bound[y as int].len());
                }
                x = replay_run(&mut out, Ghost(rows), w, h, x, y, v, n);
                proof {
                    assert(rows.update(y as int, rows.last() + repeat(v, n as nat)) =~= next);
                    rows = next;
                }
            },
            GlyphInst::Solid(n) => {
                proof {
                    assert(next[y as int] == rows.last() + repeat(255, n as nat));
                    assert(next[y as int].len() <= bound[y as int].len());
                }
                x = replay_run(&mut out, Ghost(rows), w, h, x, y, 255, n);
                proof {
                    assert(rows.update(y as int, rows.last() + repeat(255, n as nat)) =~= next);
                    rows = next;
                }
            },
        }
        i = i + 1;
    }
    assert(inst@.subrange(0, inst@.len() as int) =~= inst@);
    out
}

/// Paints `n` pixels of alpha `v` from the cursor; returns the column after them.
fn replay_run(out: &mut Vec<u8>, rows: Ghost<Seq<Seq<u8>>>, w: usize, h: usize, x: usize, y: usize, v: u8, n: u32) -> (r: usize)
    requires
        old(out)@ == rows_buffer(rows@, w as nat, h as nat),
        rows@.len() == y + 1,
        rows@.last().len() == x,
        x + n <= w,
        w * h <= usize::MAX,
    ensures
        r == x + n,
        final(out)@ == rows_buffer(rows@.update(y as int, rows@.last() + repeat(v, n as nat)), w as nat, h as nat),
{
    let mut j: u32 = 0;
    let mut cx = x;
    while j < n
        invariant
            j <= n,
            cx == x + j,
            x + n <= w,
            w * h <= usize::MAX,
            rows@.len() == y + 1,
            rows@.last().len() == x,
            out@ == rows_buffer(rows@.update(y as int, rows@.last() + repeat(v, j as nat)), w as nat, h as nat),
        decreases n - j,
    {
        let ghost cur = rows@.update(y as int, rows@.last() + repeat(v, j as nat));
        replay_put(out, Ghost(cur), w, h, cx, y, v);
        proof {
            assert(cur.last().push(v) =~= rows@.last() + repeat(v, (j + 1) as nat));
            assert(cur.update(y as int, cur.last().push(v)) =~= rows@.update(y as int, rows@.last() + repeat(v, (j + 1) as nat)));
        }
        cx = cx + 1;
        j = j + 1;
    }
    cx
}

} // verus!

verus! {

/// The stream has no zero-row moves and no zero-coverage blends, and fits in rows and
/// columns of `u32`.
pub open spec fn glyph_ok(inst: Seq<GlyphInst>) -> bool {
    &&& forall|i: int| 0 <= i < inst.len() ==> !(#[trigger] inst[i] matches GlyphInst::NextNRow(n) && n == 0)
    &&& forall|i: int| 0 <= i < inst.len() ==> !(#[trigger] inst[i] matches GlyphInst::Blend(v) && v == 0)
    &&& forall|i: int| 0 <= i < inst.len() ==> !(#[trigger] inst[i] matches GlyphInst::BlendN(v, _) && v == 0)
    &&& decode_rows(inst).len() <= u32::MAX + 1
    &&& forall|j: int| 0 <= j < decode_rows(inst).len() ==> (#[trigger] decode_rows(inst)[j]).len() <= u32::MAX
}

/// What a glyph pixel of coverage `v` makes of `old`: nothing where `v` is 0; with a solid
/// color, the color where `v` is 255 and a blend at coverage `v` elsewhere; otherwise a
/// blend with the color's alpha scaled by `v`.
pub open spec fn glyph_pixel(old: Rgba, color: Rgba, v: u8, solid: bool) -> Rgba {
    if v == 0 {
        old
    } else if solid {
        if v == 255 {
            color
        } else {
            transparent_blend(old, rgba_of(color.0[0], color.0[1], color.0[2], v))
        }
    } else {
        transparent_blend(old, with_coverage(color, v))
    }
}

/// The image `old` with the glyph rows `rows` painted at `pos`, where the canvas covers.
pub open spec fn glyph_painted(c: &Canvas, old: Image, rows: Seq<Seq<u8>>, pos: [i32; 2], color: Rgba, solid: bool, img: Image) -> bool {
    forall|px: int, py: int|
        0 <= px < old.spec_width() && 0 <= py < old.spec_height() ==> #[trigger] img.pixel(px, py) == (if c.covers(px, py) {
            glyph_pixel(old.pixel(px, py), color, cell(rows, py - pos[1], px - pos[0]), solid)
        } else {
            old.pixel(px, py)
        })
}

/// Paints the cell at the end of the last row of `rows`, at image column `x`, row `y`.
fn paint_cell(c: &mut Canvas, x: i64, y: i64, v: u8, color: Rgba, solid: bool, rows: Ghost<Seq<Seq<u8>>>, pos: [i32; 2], c0: Ghost<Canvas>)
    requires
        old(c).wf(),
        old(c).same_frame(&c0@),
    ensures
        final(c).wf(),
        final(c).same_frame(&c0@),
        ({
            &&& c0@.wf()
            &&& rows@.len() >= 1
            &&& x == pos[0] + rows@.last().len()
            &&& y == pos[1] + rows@.len() - 1
            &&& v != 0
            &&& (solid ==> color.0[3] == 255)
            &&& glyph_painted(&c0@, c0@.image(), rows@, pos, color, solid, old(c).image())
        }) ==> glyph_painted(&c0@, c0@.image(), rows@.update(rows@.len() - 1, rows@.last().push(v)), pos, color, solid, final(c).image()),
{
    let ghost before = c.image();
    let ghost o = c0@.image();
    let ghost w = o.spec_width() as int;
    let ghost h = o.spec_height() as int;
    let ghost r2 = rows@.update(rows@.len() - 1, rows@.last().push(v));
    let ghost pre = c0@.wf() && rows@.len() >= 1 && x == pos[0] + rows@.last().len() && y == pos[1] + rows@.len() - 1
        && v != 0 && (solid ==> color.0[3] == 255) && glyph_painted(&c0@, c0@.image(), rows@, pos, color, solid, before);
    if x < 0 || x > i32::MAX as i64 || y < 0 || y > i32::MAX as i64 {
        proof {
            if pre {
            assert forall|px: int, py: int| 0 <= px < w && 0 <= py < h implies #[trigger] c.image().pixel(px, py) == (if c0@.covers(px, py) {
                glyph_pixel(o.pixel(px, py), color, cell(r2, py - pos[1], px - pos[0]), solid)
            } else {
                o.pixel(px, py)
            }) by {
                assert(before.pixel(px, py) == c.image().pixel(px, py));
                if c0@.covers(px, py) {
                    assert(cell(r2, py - pos[1], px - pos[0]) == cell(rows@, py - pos[1], px - pos[0]));
                }
            }
            }
        }
        return;
    }
    let xi = x as i32;
    let yi = y as i32;
    let ghost prev = before.pixel(x as int, y as int);
    let done = if solid && v == 255 {
        c.try_set_color([xi, yi], color)
    } else if solid {
        c.try_blend_color([xi, yi], color.with_alpha(v))
    } else {
        c.try_blend_color([xi, yi], color.relative_alpha(v))
    };
    proof {
        if pre {
        if done {
            lemma_index_bound(x as int, y as int, w, h);
            assert(prev == o.pixel(x as int, y as int));
        }
        assert forall|px: int, py: int| 0 <= px < w && 0 <= py < h implies #[trigger] c.image().pixel(px, py) == (if c0@.covers(px, py) {
            glyph_pixel(o.pixel(px, py), color, cell(r2, py - pos[1], px - pos[0]), solid)
        } else {
            o.pixel(px, py)
        }) by {
            lemma_index_bound(px, py, w, h);
            if px == x && py == y {
                if c0@.covers(px, py) {
                    assert(cell(r2, py - pos[1], px - pos[0]) == v);
                }
            } else {
                if done {
                    lemma_index_bound(x as int, y as int, w, h);
                    if px + py * w == x + y * w {
                        lemma_same_cell(py, px, y as int, x as int, w);
                    }
                }
                assert(c.image().pixel(px, py) == before.pixel(px, py));
                if c0@.covers(px, py) {
                    assert(cell(r2, py - pos[1], px - pos[0]) == cell(rows@, py - pos[1], px - pos[0]));
                }
            }
        }
        }
    }
}

/// Paints the cell at the end of the last row of `rows`, at image column `x`, row `y`.
fn paint_cell_mode<M: ColorAlphaBlendMode>(c: &mut Canvas, x: i64, y: i64, v: u8, mode: M, cc: Rgba, rows: Ghost<Seq<Seq<u8>>>, pos: [i32; 2], c0: Ghost<Canvas>)
    requires
        old(c).wf(),
        old(c).same_frame(&c0@),
    ensures
        final(c).wf(),
        final(c).same_frame(&c0@),
        ({
            &&& c0@.wf()
            &&& rows@.len() >= 1
            &&& x == pos[0] + rows@.last().len()
            &&& y == pos[1] + rows@.len() - 1
            &&& v != 0
            &&& mode_painted(&c0@, c0@.image(), rows@, pos, mode, cc, old(c).image())
        }) ==> mode_painted(&c0@, c0@.image(), rows@.update(rows@.len() - 1, rows@.last().push(v)), pos, mode, cc, final(c).image()),
{
    let ghost before = c.image();
    let ghost o = c0@.image();
    let ghost w = o.spec_width() as int;
    let ghost h = o.spec_height() as int;
    let ghost r2 = rows@.update(rows@.len() - 1, rows@.last().push(v));
    let ghost pre = c0@.wf() && rows@.len() >= 1 && x == pos[0] + rows@.last().len() && y == pos[1] + rows@.len() - 1
        && v != 0 && mode_painted(&c0@, c0@.image(), rows@, pos, mode, cc, before);
    if x < 0 || x > i32::MAX as i64 || y < 0 || y > i32::MAX as i64 {
        proof {
            if pre {
            assert forall|px: int, py: int| 0 <= px < w && 0 <= py < h implies #[trigger] c.image().pixel(px, py) == (if c0@.covers(px, py) {
                mode_pixel(mode, o.pixel(px, py), cc, cell(r2, py - pos[1], px - pos[0]))
            } else {
                o.pixel(px, py)
            }) by {
                assert(before.pixel(px, py) == c.image().pixel(px, py));
                if c0@.covers(px, py) {
                    assert(cell(r2, py - pos[1], px - pos[0]) == cell(rows@, py - pos[1], px - pos[0]));
                }
            }
            }
        }
        return;
    }
    let xi = x as i32;
    let yi = y as i32;
    let ghost prev = before.pixel(x as int, y as int);
    let ghost done = c0@.covers(x as int, y as int);
    c.blend_pixel_alpha(mode, [xi, yi], &cc, v);
    proof {
        if pre {
        if done {
            lemma_index_bound(x as int, y as int, w, h);
            assert(prev == o.pixel(x as int, y as int));
        }
        assert forall|px: int, py: int| 0 <= px < w && 0 <= py < h implies #[trigger] c.image().pixel(px, py) == (if c0@.covers(px, py) {
            mode_pixel(mode, o.pixel(px, py), cc, cell(r2, py - pos[1], px - pos[0]))
        } else {
            o.pixel(px, py)
        }) by {
            lemma_index_bound(px, py, w, h);
            if px == x && py == y {
                if c0@.covers(px, py) {
                    assert(cell(r2, py - pos[1], px - pos[0]) == v);
                }
            } else {
                if done {
                    lemma_index_bound(x as int, y as int, w, h);
                    if px + py * w == x + y * w {
                        lemma_same_cell(py, px, y as int, x as int, w);
                    }
                }
                assert(c.image().pixel(px, py) == before.pixel(px, py));
                if c0@.covers(px, py) {
                    assert(cell(r2, py - pos[1], px - pos[0]) == cell(rows@, py - pos[1], px - pos[0]));
                }
            }
        }
        }
    }
}


} // verus!

verus! {

/// Adds, saturating at the bounds of `i64`.
fn add64(a: i64, b: i64) -> (r: i64)
    ensures
        i64::MIN <= a + b <= i64::MAX ==> r == a + b,
{
    if b > 0 && a > i64::MAX - b {
        i64::MAX
    } else if b < 0 && a < i64::MIN - b {
        i64::MIN
    } else {
        a + b
    }
}

impl Glyph {
    /// Paints the glyph in `color` with its top-left corner at `pos`; pixels outside the
    /// canvas are skipped. An opaque color is painted solid, a translucent one blended.
    pub fn draw(&self, c: &mut Canvas, pos: [i32; 2], color: Rgba)
        requires
            old(c).wf(),
        ensures
            final(c).wf(),
            final(c).same_frame(old(c)),
            glyph_ok(self.inst@) ==> glyph_painted(old(c), old(c).image(), decode_rows(self.inst@), pos, color, color.0[3] == 255, final(c).image()),
    {
        if color.alpha() == 255 {
            self.draw_solid(c, pos, color);
        } else {
            self.draw_alpha(c, pos, color);
        }
    }

    fn draw_solid(&self, c: &mut Canvas, pos: [i32; 2], color: Rgba)
        requires
            old(c).wf(),
            color.0[3] == 255,
        ensures
            final(c).wf(),
            final(c).same_frame(old(c)),
            glyph_ok(self.inst@) ==> glyph_painted(old(c), old(c).image(), decode_rows(self.inst@), pos, color, true, final(c).image()),
    {
        self.draw_with(c, pos, color, true);
    }

    fn draw_alpha(&self, c: &mut Canvas, pos: [i32; 2], color: Rgba)
        requires
            old(c).wf(),
        ensures
            final(c).wf(),
            final(c).same_frame(old(c)),
            glyph_ok(self.inst@) ==> glyph_painted(old(c), old(c).image(), decode_rows(self.inst@), pos, color, false, final(c).image()),
    {
        self.draw_with(c, pos, color, false);
    }

    /// Replays the instructions onto the canvas: solid or blended, as `draw_solid` and
    /// `draw_alpha` say.
    fn draw_with(&self, c: &mut Canvas, pos: [i32; 2], color: Rgba, solid: bool)
        requires
            old(c).wf(),
            solid ==> color.0[3] == 255,
        ensures
            final(c).wf(),
            final(c).same_frame(old(c)),
            glyph_ok(self.inst@) ==> glyph_painted(old(c), old(c).image(), decode_rows(self.inst@), pos, color, solid, final(c).image()),
    {
        let ghost c0: Canvas = *c;
        let ghost ok = glyph_ok(self.inst@);
        let ghost full = decode_rows(self.inst@);
        let mut x: i64 = pos[0] as i64;
        let mut y: i64 = pos[1] as i64;
        let ghost mut rows: Seq<Seq<u8>> = seq![Seq::empty()];
        proof {
            assert(self.inst@.subrange(0, 0) =~= Seq::<GlyphInst>::empty());
            if ok {
                assert forall|px: int, py: int|
                    0 <= px < c0.image().spec_width() && 0 <= py < c0.image().spec_height() implies #[trigger] c.image().pixel(px, py) == (if c0.covers(px, py) {
                        glyph_pixel(c0.image().pixel(px, py), color, cell(rows, py - pos[1], px - pos[0]), solid)
                    } else {
                        c0.image().pixel(px, py)
                    }) by {
                }
            }
        }
        let mut i: usize = 0;
        while i < self.inst.len()
            invariant
                c.wf(),
                c.same_frame(&c0),
                c0 == *old(c),
                c0.wf(),
                ok == glyph_ok(self.inst@),
                full == decode_rows(self.inst@),
                solid ==> color.0[3] == 255,
                i <= self.inst.len(),
                ok ==> rows == decode_rows(self.inst@.subrange(0, i as int)),
                ok ==> rows.len() >= 1,
                ok ==> x == pos[0] + rows.last().len(),
                ok ==> y == pos[1] + rows.len() - 1,
                ok ==> glyph_painted(&c0, c0.image(), rows, pos, color, solid, c.image()),
            decreases self.inst.len() - i,
        {
            let ghost next = decode_rows(self.inst@.subrange(0, i + 1));
            proof {
                if ok {
                    lemma_rows_prefix(self.inst@, i + 1);
                    let p = self.inst@.subrange(0, i + 1);
                    assert(p.drop_last() =~= self.inst@.subrange(0, i as int));
                    assert(p.last() == self.inst@[i as int]);
                    lemma_decode_rows_nonempty(p);
                }
            }
            match self.inst[i] {
                GlyphInst::NextRow => {
                    proof {
                        if ok {
                            assert(next.len() <= u32::MAX + 1);
                            assert forall|px: int, py: int|
                                0 <= px < c0.image().spec_width() && 0 <= py < c0.image().spec_height() implies #[trigger] c.image().pixel(px, py) == (if c0.covers(px, py) {
                                    glyph_pixel(c0.image().pixel(px, py), color, cell(next, py - pos[1], px - pos[0]), solid)
                                } else {
                                    c0.image().pixel(px, py)
                                }) by {
                                assert(cell(next, py - pos[1], px - pos[0]) == cell(rows, py - pos[1], px - pos[0]));
                            }
                            rows = next;
                        }
                    }
                    y = add64(y, 1);
                    x = pos[0] as i64;
                },
                GlyphInst::NextNRow(n) => {
                    proof {
                        if ok {
                            assert(self.inst@[i as int] matches GlyphInst::NextNRow(n) && n != 0);
                            assert(next.len() <= u32::MAX + 1);
                            assert forall|px: int, py: int|
                                0 <= px < c0.image().spec_width() && 0 <= py < c0.image().spec_height() implies #[trigger] c.image().pixel(px, py) == (if c0.covers(px, py) {
                                    glyph_pixel(c0.image().pixel(px, py), color, cell(next, py - pos[1], px - pos[0]), solid)
                                } else {
                                    c0.image().pixel(px, py)
                                }) by {
                                assert(cell(next, py - pos[1], px - pos[0]) == cell(rows, py - pos[1], px - pos[0]));
                            }
                            rows = next;
                        }
                    }
                    y = add64(y, n as i64);
                    x = pos[0] as i64;
                },
                GlyphInst::XOffset(n) => {
                    proof {
                        if ok {
                            assert(next[next.len() - 1].len() <= u32::MAX);
                            assert forall|px: int, py: int|
                                0 <= px < c0.image().spec_width() && 0 <= py < c0.image().spec_height() implies #[trigger] c.image().pixel(px, py) == (if c0.covers(px, py) {
                                    glyph_pixel(c0.image().pixel(px, py), color, cell(next, py - pos[1], px - pos[0]), solid)
                                } else {
                                    c0.image().pixel(px, py)
                                }) by {
                                let yy = py - pos[1];
                                let xx = px - pos[0];
                                if yy == rows.len() - 1 && rows.last().len() <= xx < next[yy].len() {
                                    assert(cell(next, yy, xx) == 0);
                                } else {
                                    assert(cell(next, yy, xx) == cell(rows, yy, xx));
                                }
                            }
                            rows = next;
                        }
                    }
                    x = add64(x, n as i64);
                },
                GlyphInst::Blend(v) => {
                    paint_cell(c, x, y, v, color, solid, Ghost(rows), pos, Ghost(c0));
                    proof {
                        if ok {
                            assert(self.inst@[i as int] matches GlyphInst::Blend(v) && v != 0);
                            assert(rows.last().push(v) =~= rows.last() + seq![v]);
                            assert(rows.update(rows.len() - 1, rows.last().push(v)) =~= next);
                            rows = next;
                        }
                    }
                    x = add64(x, 1);
                },
                GlyphInst::BlendN(v, n) => {
                    proof {
                        if ok {
                            assert(self.inst@[i as int] matches GlyphInst::BlendN(v, _) && v != 0);
                            assert(next[rows.len() - 1] == rows.last() + repeat(v, n as nat));
                            assert(next[rows.len() - 1].len() <= full[rows.len() - 1].len());
                        }
                    }
                    x = self.paint_run(c, x, y, v, n, color, solid, Ghost(rows), pos, Ghost(c0), Ghost(ok));
                    proof {
                        if ok {
                            assert(rows.update(rows.len() - 1, rows.last() + repeat(v, n as nat)) =~= next);
                            rows = next;
                        }
                    }
                },
                GlyphInst::Solid(n) => {
                    proof {
                        if ok {
                            assert(next[rows.len() - 1] == rows.last() + repeat(255, n as nat));
                            assert(next[rows.len() - 1].len() <= full[rows.len() - 1].len());
                        }
                    }
                    x = self.paint_run(c, x, y, 255, n, color, solid, Ghost(rows), pos, Ghost(c0), Ghost(ok));
                    proof {
                        if ok {
                            assert(rows.update(rows.len() - 1, rows.last() + repeat(255, n as nat)) =~= next);
                            rows = next;
                        }
                    }
                },
            }
            i = i + 1;
        }
        proof {
            assert(self.inst@.subrange(0, self.inst@.len() as int) =~= self.inst@);
        }
    }

    /// Paints `n` cells of coverage `v` from column `x`; returns the column after them.
    fn paint_run(&self, c: &mut Canvas, x: i64, y: i64, v: u8, n: u32, color: Rgba, solid: bool, rows: Ghost<Seq<Seq<u8>>>, pos: [i32; 2], c0: Ghost<Canvas>, ok: Ghost<bool>) -> (r: i64)
        requires
            old(c).wf(),
            old(c).same_frame(&c0@),
            ok@ ==> c0@.wf() && rows@.len() >= 1 && x == pos[0] + rows@.last().len() && y == pos[1] + rows@.len() - 1 && v != 0
                && (solid ==> color.0[3] == 255) && rows@.last().len() + n <= u32::MAX
                && glyph_painted(&c0@, c0@.image(), rows@, pos, color, solid, old(c).image()),
        ensures
            final(c).wf(),
            final(c).same_frame(&c0@),
            ok@ ==> r == x + n,
            ok@ ==> glyph_painted(&c0@, c0@.image(), rows@.update(rows@.len() - 1, rows@.last() + repeat(v, n as nat)), pos, color, solid, final(c).image()),
    {
        let mut cx = x;
        let mut j: u32 = 0;
        proof {
            if ok@ {
                assert(rows@.update(rows@.len() - 1, rows@.last() + repeat(v, 0)) =~= rows@);
            }
        }
        while j < n
            invariant
                c.wf(),
                c.same_frame(&c0@),
                j <= n,
                ok@ ==> c0@.wf() && rows@.len() >= 1 && x == pos[0] + rows@.last().len() && y == pos[1] + rows@.len() - 1 && v != 0
                    && (solid ==> color.0[3] == 255) && rows@.last().len() + n <= u32::MAX,
                ok@ ==> cx == x + j,
                ok@ ==> glyph_painted(&c0@, c0@.image(), rows@.update(rows@.len() - 1, rows@.last() + repeat(v, j as nat)), pos, color, solid, c.image()),
            decreases n - j,
        {
            let ghost cur = rows@.update(rows@.len() - 1, rows@.last() + repeat(v, j as nat));
            paint_cell(c, cx, y, v, color, solid, Ghost(cur), pos, c0);
            proof {
                if ok@ {
                    assert(cur.last().push(v) =~= rows@.last() + repeat(v, (j + 1) as nat));
                    assert(cur.update(cur.len() - 1, cur.last().push(v)) =~= rows@.update(rows@.len() - 1, rows@.last() + repeat(v, (j + 1) as nat)));
                }
            }
            cx = add64(cx, 1);
            j = j + 1;
        }
        cx
    }
}

} // verus!

verus! {

/// What a glyph pixel of coverage `v` makes of `old` in `mode`: nothing where `v` is 0.
pub open spec fn mode_pixel<M: ColorAlphaBlendMode>(mode: M, old: Rgba, cc: Rgba, v: u8) -> Rgba {
    if v == 0 {
        old
    } else {
        mode.blend_spec(old, cc, v)
    }
}

/// The image `old` with the glyph rows `rows` blended in `mode` at `pos`, where the canvas
/// covers.
pub open spec fn mode_painted<M: ColorAlphaBlendMode>(c: &Canvas, old: Image, rows: Seq<Seq<u8>>, pos: [i32; 2], mode: M, cc: Rgba, img: Image) -> bool {
    forall|px: int, py: int|
        0 <= px < old.spec_width() && 0 <= py < old.spec_height() ==> #[trigger] img.pixel(px, py) == (if c.covers(px, py) {
            mode_pixel(mode, old.pixel(px, py), cc, cell(rows, py - pos[1], px - pos[0]))
        } else {
            old.pixel(px, py)
        })
}

pub fn draw_inst_mode<M: ColorAlphaBlendMode>(inst: &Vec<GlyphInst>, c: &mut Canvas, pos: [i32; 2], mode: M, cc: Rgba)
    requires
        old(c).wf(),
    ensures
        final(c).wf(),
        final(c).same_frame(old(c)),
        glyph_ok(inst@) ==> mode_painted(old(c), old(c).image(), decode_rows(inst@), pos, mode, cc, final(c).image()),
{
    let ghost c0: Canvas = *c;
    let ghost ok = glyph_ok(inst@);
    let ghost full = decode_rows(inst@);
    let mut x: i64 = pos[0] as i64;
    let mut y: i64 = pos[1] as i64;
    let ghost mut rows: Seq<Seq<u8>> = seq![Seq::empty()];
    proof {
        assert(inst@.subrange(0, 0) =~= Seq::<GlyphInst>::empty());
        if ok {
            assert forall|px: int, py: int|
                0 <= px < c0.image().spec_width() && 0 <= py < c0.image().spec_height() implies #[trigger] c.image().pixel(px, py) == (if c0.covers(px, py) {
                    mode_pixel(mode, c0.image().pixel(px, py), cc, cell(rows, py - pos[1], px - pos[0]))
                } else {
                    c0.image().pixel(px, py)
                }) by {
            }
        }
    }
    let mut i: usize = 0;
    while i < inst.len()
        invariant
            c.wf(),
            c.same_frame(&c0),
            c0 == *old(c),
            c0.wf(),
            ok == glyph_ok(inst@),
            full == decode_rows(inst@),
                i <= inst.len(),
            ok ==> rows == decode_rows(inst@.subrange(0, i as int)),
            ok ==> rows.len() >= 1,
            ok ==> x == pos[0] + rows.last().len(),
            ok ==> y == pos[1] + rows.len() - 1,
            ok ==> mode_painted(&c0, c0.image(), rows, pos, mode, cc, c.image()),
        decreases inst.len() - i,
    {
        let ghost next = decode_rows(inst@.subrange(0, i + 1));
        proof {
            if ok {
                lemma_rows_prefix(inst@, i + 1);
                let p = inst@.subrange(0, i + 1);
                assert(p.drop_last() =~= inst@.subrange(0, i as int));
                assert(p.last() == inst@[i as int]);
                lemma_decode_rows_nonempty(p);
            }
        }
        match inst[i] {
            GlyphInst::NextRow => {
                proof {
                    if ok {
                        assert(next.len() <= u32::MAX + 1);
                        assert forall|px: int, py: int|
                            0 <= px < c0.image().spec_width() && 0 <= py < c0.image().spec_height() implies #[trigger] c.image().pixel(px, py) == (if c0.covers(px, py) {
                                mode_pixel(mode, c0.image().pixel(px, py), cc, cell(next, py - pos[1], px - pos[0]))
                            } else {
                                c0.image().pixel(px, py)
                            }) by {
                            assert(cell(next, py - pos[1], px - pos[0]) == cell(rows, py - pos[1], px - pos[0]));
                        }
                        rows = next;
                    }
                }
                y = add64(y, 1);
                x = pos[0] as i64;
            },
            GlyphInst::NextNRow(n) => {
                proof {
                    if ok {
                        assert(inst@[i as int] matches GlyphInst::NextNRow(n) && n != 0);
                        assert(next.len() <= u32::MAX + 1);
                        assert forall|px: int, py: int|
                            0 <= px < c0.image().spec_width() && 0 <= py < c0.image().spec_height() implies #[trigger] c.image().pixel(px, py) == (if c0.covers(px, py) {
                                mode_pixel(mode, c0.image().pixel(px, py), cc, cell(next, py - pos[1], px - pos[0]))
                            } else {
                                c0.image().pixel(px, py)
                            }) by {
                            assert(cell(next, py - pos[1], px - pos[0]) == cell(rows, py - pos[1], px - pos[0]));
                        }
                        rows = next;
                    }
                }
                y = add64(y, n as i64);
                x = pos[0] as i64;
            },
            GlyphInst::XOffset(n) => {
                proof {
                    if ok {
                        assert(next[next.len() - 1].len() <= u32::MAX);
                        assert forall|px: int, py: int|
                            0 <= px < c0.image().spec_width() && 0 <= py < c0.image().spec_height() implies #[trigger] c.image().pixel(px, py) == (if c0.covers(px, py) {
                                mode_pixel(mode, c0.image().pixel(px, py), cc, cell(next, py - pos[1], px - pos[0]))
                            } else {
                                c0.image().pixel(px, py)
                            }) by {
                            let yy = py - pos[1];
                            let xx = px - pos[0];
                            if yy == rows.len() - 1 && rows.last().len() <= xx < next[yy].len() {
                                assert(cell(next, yy, xx) == 0);
                            } else {
                                assert(cell(next, yy, xx) == cell(rows, yy, xx));
                            }
                        }
                        rows = next;
                    }
                }
                x = add64(x, n as i64);
            },
            GlyphInst::Blend(v) => {
                paint_cell_mode(c, x, y, v, mode, cc, Ghost(rows), pos, Ghost(c0));
                proof {
                    if ok {
                        assert(inst@[i as int] matches GlyphInst::Blend(v) && v != 0);
                        assert(rows.last().push(v) =~= rows.last() + seq![v]);
                        assert(rows.update(rows.len() - 1, rows.last().push(v)) =~= next);
                        rows = next;
                    }
                }
                x = add64(x, 1);
            },
            GlyphInst::BlendN(v, n) => {
                proof {
                    if ok {
                        assert(inst@[i as int] matches GlyphInst::BlendN(v, _) && v != 0);
                        assert(next[rows.len() - 1] == rows.last() + repeat(v, n as nat));
                        assert(next[rows.len() - 1].len() <= full[rows.len() - 1].len());
                    }
                }
                x = paint_run_mode(c, x, y, v, n, mode, cc, Ghost(rows), pos, Ghost(c0), Ghost(ok));
                proof {
                    if ok {
                        assert(rows.update(rows.len() - 1, rows.last() + repeat(v, n as nat)) =~= next);
                        rows = next;
                    }
                }
            },
            GlyphInst::Solid(n) => {
                proof {
                    if ok {
                        assert(next[rows.len() - 1] == rows.last() + repeat(255, n as nat));
                        assert(next[rows.len() - 1].len() <= full[rows.len() - 1].len());
                    }
                }
                x = paint_run_mode(c, x, y, 255, n, mode, cc, Ghost(rows), pos, Ghost(c0), Ghost(ok));
                proof {
                    if ok {
                        assert(rows.update(rows.len() - 1, rows.last() + repeat(255, n as nat)) =~= next);
                        rows = next;
                    }
                }
            },
        }
        i = i + 1;
    }
    proof {
        assert(inst@.subrange(0, inst@.len() as int) =~= inst@);
    }
}

/// Paints `n` cells of coverage `v` from column `x`; returns the column after them.
fn paint_run_mode<M: ColorAlphaBlendMode>(c: &mut Canvas, x: i64, y: i64, v: u8, n: u32, mode: M, cc: Rgba, rows: Ghost<Seq<Seq<u8>>>, pos: [i32; 2], c0: Ghost<Canvas>, ok: Ghost<bool>) -> (r: i64)
    requires
        old(c).wf(),
        old(c).same_frame(&c0@),
        ok@ ==> c0@.wf() && rows@.len() >= 1 && x == pos[0] + rows@.last().len() && y == pos[1] + rows@.len() - 1 && v != 0
            && rows@.last().len() + n <= u32::MAX
            && mode_painted(&c0@, c0@.image(), rows@, pos, mode, cc, old(c).image()),
    ensures
        final(c).wf(),
        final(c).same_frame(&c0@),
        ok@ ==> r == x + n,
        ok@ ==> mode_painted(&c0@, c0@.image(), rows@.update(rows@.len() - 1, rows@.last() + repeat(v, n as nat)), pos, mode, cc, final(c).image()),
{
    let mut cx = x;
    let mut j: u32 = 0;
    proof {
        if ok@ {
            assert(rows@.update(rows@.len() - 1, rows@.last() + repeat(v, 0)) =~= rows@);
        }
    }
    while j < n
        invariant
            c.wf(),
            c.same_frame(&c0@),
            j <= n,
            ok@ ==> c0@.wf() && rows@.len() >= 1 && x == pos[0] + rows@.last().len() && y == pos[1] + rows@.len() - 1 && v != 0
                && rows@.last().len() + n <= u32::MAX,
            ok@ ==> cx == x + j,
            ok@ ==> mode_painted(&c0@, c0@.image(), rows@.update(rows@.len() - 1, rows@.last() + repeat(v, j as nat)), pos, mode, cc, c.image()),
        decreases n - j,
    {
        let ghost cur = rows@.update(rows@.len() - 1, rows@.last() + repeat(v, j as nat));
        paint_cell_mode(c, cx, y, v, mode, cc, Ghost(cur), pos, c0);
        proof {
            if ok@ {
                assert(cur.last().push(v) =~= rows@.last() + repeat(v, (j + 1) as nat));
                assert(cur.update(cur.len() - 1, cur.last().push(v)) =~= rows@.update(rows@.len() - 1, rows@.last() + repeat(v, (j + 1) as nat)));
            }
        }
        cx = add64(cx, 1);
        j = j + 1;
    }
    cx
}

} // verus!
