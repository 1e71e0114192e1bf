use crate::blend::{transparent_blend, ColorBlendMode, ColorBlendTransparent};
use crate::canvas::Canvas;
use crate::idx::Indexable2D;
use crate::rgba::{rgba_of, Rgba};
use crate::rows::RowsIter;
use crate::sub_img_params::SubImageBuilder;
use vstd::prelude::*;

verus! {

broadcast use vstd::array::group_array_axioms;

/// The fully transparent black pixel that new images are filled with.
pub open spec fn transparent() -> Rgba {
    rgba_of(0, 0, 0, 0)
}

/// The buffer index of column `x`, row `y`, in rows `w` long.
pub open spec fn flat(x: int, y: int, w: int) -> int {
    x + y * w
}

/// The buffer index that column `k % w` of row `k / w` has once rows are mirrored.
pub open spec fn flip_x_index(k: int, w: int) -> int {
    (w - 1 - k % w) + (k / w) * w
}

/// The buffer index that row `k / w` has once the image, `h` rows high, is mirrored top
/// to bottom.
pub open spec fn flip_y_index(k: int, w: int, h: int) -> int {
    k % w + (h - 1 - k / w) * w
}

proof fn lemma_flip_index_bounds(k: int, w: int, h: int)
    requires
        0 <= k < w * h,
        0 <= h,
    ensures
        w > 0,
        0 <= k % w < w,
        0 <= k / w < h,
        k - k % w == (k / w) * w,
        0 <= flip_x_index(k, w) < w * h,
        0 <= flip_y_index(k, w, h) < w * h,
{
    if w <= 0 {
        assert(w * h <= 0) by (nonlinear_arith)
            requires
                w <= 0,
                h >= 0,
        ;
    }
    vstd::arithmetic::div_mod::lemma_fundamental_div_mod(k, w);
    let q = k / w;
    let r = k % w;
    assert(0 <= r < w);
    assert(q >= 0) by (nonlinear_arith)
        requires
            k == w * q + r,
            0 <= r < w,
            k >= 0,
    ;
    assert(q < h) by (nonlinear_arith)
        requires
            k == w * q + r,
            0 <= r,
            k < w * h,
            w > 0,
    ;
    assert(k - r == q * w) by (nonlinear_arith)
        requires
            k == w * q + r,
    ;
    assert(0 <= (w - 1 - r) + q * w < w * h) by (nonlinear_arith)
        requires
            0 <= r < w,
            0 <= q < h,
    ;
    assert(0 <= r + (h - 1 - q) * w < w * h) by (nonlinear_arith)
        requires
            0 <= r < w,
            0 <= q < h,
    ;
}

/// An image: `width * height` pixels, stored row by row.
#[derive(Clone, Debug)]
pub struct Image {
    dim: [u32; 2],
    contents: Vec<Rgba>,
}

impl Image {
    pub closed spec fn spec_width(&self) -> nat {
        self.dim[0] as nat
    }

    pub closed spec fn spec_height(&self) -> nat {
        self.dim[1] as nat
    }

    /// The pixels, row by row.
    pub closed spec fn pixels(&self) -> Seq<Rgba> {
        self.contents@
    }

    pub open spec fn wf(&self) -> bool {
        &&& self.pixels().len() == self.spec_width() * self.spec_height()
        &&& self.pixels().len() <= usize::MAX
        &&& self.spec_width() <= u32::MAX
        &&& self.spec_height() <= u32::MAX
    }

    /// The pixel at column `x`, row `y`.
    pub open spec fn pixel(&self, x: int, y: int) -> Rgba {
        self.pixels()[x + y * self.spec_width()]
    }

    /// The same size and pixels.
    pub open spec fn same_as(&self, o: &Image) -> bool {
        &&& self.spec_width() == o.spec_width()
        &&& self.spec_height() == o.spec_height()
        &&& self.pixels() == o.pixels()
    }

    /// An image of the given size, fully transparent.
    pub fn new(dim: [u32; 2]) -> (r: Image)
        requires
            dim[0] * dim[1] <= usize::MAX,
        ensures
            r.wf(),
            r.spec_width() == dim[0],
            r.spec_height() == dim[1],
            forall|i: int| 0 <= i < r.pixels().len() ==> r.pixels()[i] == transparent(),
    {
        Self::new_with_color(dim, Rgba([0, 0, 0, 0]))
    }

    /// An image of the given size, filled with `bg`.
    pub fn new_with_color(dim: [u32; 2], bg: Rgba) -> (r: Image)
        requires
            dim[0] * dim[1] <= usize::MAX,
        ensures
            r.wf(),
            r.spec_width() == dim[0],
            r.spec_height() == dim[1],
            forall|i: int| 0 <= i < r.pixels().len() ==> r.pixels()[i] == bg,
    {
        let width = dim[0];
        let height = dim[1];
        let len = (width as usize) * (height as usize);
        let mut buf: Vec<Rgba> = Vec::with_capacity(len);
        let mut i: usize = 0;
        while i < len
            invariant
                i <= len,
                buf.len() == i,
                forall|k: int| 0 <= k < i ==> buf@[k] == bg,
            decreases len - i,
        {
            buf.push(bg);
            i = i + 1;
        }
        Image { dim: [width, height], contents: buf }
    }

    /// An image made from RGBA bytes, four per pixel, row by row.
    pub fn from_raw_rgba_bytes(dim: [u32; 2], raw: &[u8]) -> (r: Image)
        requires
            raw@.len() == dim[0] * dim[1] * 4,
        ensures
            r.wf(),
            r.spec_width() == dim[0],
            r.spec_height() == dim[1],
            forall|i: int|
                0 <= i < r.pixels().len() ==> r.pixels()[i] == rgba_of(
                    raw@[4 * i],
                    raw@[4 * i + 1],
                    raw@[4 * i + 2],
                    raw@[4 * i + 3],
                ),
    {
        let width = dim[0];
        let height = dim[1];
        // The slice's length is a `usize`, which bounds the number of pixels.
        let _raw_len = raw.len();
        assert(width * height <= raw@.len()) by (nonlinear_arith)
            requires
                raw@.len() == width * height * 4,
        ;
        let len = (width as usize) * (height as usize);
        let mut buf: Vec<Rgba> = Vec::with_capacity(len);
        let mut idx: usize = 0;
        while idx < len
            invariant
                idx <= len,
                len == width * height,
                raw@.len() == len * 4,
                raw@.len() <= usize::MAX,
                buf.len() == idx,
                forall|i: int|
                    0 <= i < idx ==> buf@[i] == rgba_of(
                        raw@[4 * i],
                        raw@[4 * i + 1],
                        raw@[4 * i + 2],
                        raw@[4 * i + 3],
                    ),
            decreases len - idx,
        {
            let p = idx * 4;
            buf.push(Rgba([raw[p], raw[p + 1], raw[p + 2], raw[p + 3]]));
            idx = idx + 1;
        }
        Image { dim: [width, height], contents: buf }
    }

    pub fn dim(&self) -> (r: [u32; 2])
        ensures
            r[0] == self.spec_width(),
            r[1] == self.spec_height(),
    {
        self.dim
    }

    pub fn width(&self) -> (r: u32)
        ensures
            r == self.spec_width(),
    {
        self.dim[0]
    }

    pub fn height(&self) -> (r: u32)
        ensures
            r == self.spec_height(),
    {
        self.dim[1]
    }

    /// The pixels, row by row.
    pub fn buffer(&self) -> (r: &[Rgba])
        ensures
            r@ == self.pixels(),
    {
        self.contents.as_slice()
    }

    /// The distance in the buffer from a pixel to the one below it.
    pub fn stride(&self) -> (r: usize)
        ensures
            r == self.spec_width(),
    {
        self.dim[0] as usize
    }

    /// The pixel that `pos` names.
    pub fn get<P: Indexable2D>(&self, pos: P) -> (r: Rgba)
        requires
            self.wf(),
            pos.index_in(self.spec_width(), self.spec_height()) is Some,
        ensures
            r == self.pixels()[pos.index_in(self.spec_width(), self.spec_height())->0],
    {
        let idx = pos.as_index(self);
        self.contents[idx]
    }

    /// The pixel that `pos` names, to be changed in place.
    pub fn get_mut<P: Indexable2D>(&mut self, pos: P) -> (r: &mut Rgba)
        requires
            old(self).wf(),
            pos.index_in(old(self).spec_width(), old(self).spec_height()) is Some,
        ensures
            *r == old(self).pixels()[pos.index_in(
                old(self).spec_width(),
                old(self).spec_height(),
            )->0],
            final(self).spec_width() == old(self).spec_width(),
            final(self).spec_height() == old(self).spec_height(),
            final(self).pixels() == old(self).pixels().update(
                pos.index_in(old(self).spec_width(), old(self).spec_height())->0,
                *final(r),
            ),
    {
        let idx = pos.as_index(self);
        &mut self.contents[idx]
    }

    /// Replaces the pixel that `pos` names.
    pub fn set<P: Indexable2D>(&mut self, pos: P, color: Rgba)
        requires
            old(self).wf(),
            pos.index_in(old(self).spec_width(), old(self).spec_height()) is Some,
        ensures
            final(self).spec_width() == old(self).spec_width(),
            final(self).spec_height() == old(self).spec_height(),
            final(self).pixels() == old(self).pixels().update(
                pos.index_in(old(self).spec_width(), old(self).spec_height())->0,
                color,
            ),
    {
        let idx = pos.as_index(self);
        self.contents.set(idx, color);
    }

    /// Lays `color` over the pixel that `pos` names, with full alpha compositing.
    pub fn blend<P: Indexable2D>(&mut self, pos: P, color: Rgba)
        requires
            old(self).wf(),
            pos.index_in(old(self).spec_width(), old(self).spec_height()) is Some,
        ensures
            final(self).spec_width() == old(self).spec_width(),
            final(self).spec_height() == old(self).spec_height(),
            final(self).pixels() == old(self).pixels().update(
                pos.index_in(old(self).spec_width(), old(self).spec_height())->0,
                transparent_blend(
                    old(self).pixels()[pos.index_in(
                        old(self).spec_width(),
                        old(self).spec_height(),
                    )->0],
                    color,
                ),
            ),
    {
        self.blend_using(ColorBlendTransparent, pos, color);
    }

    /// Paints `color` over the pixel that `pos` names, in the given mode.
    pub fn blend_using<M: ColorBlendMode, P: Indexable2D>(&mut self, mode: M, pos: P, color: Rgba)
        requires
            old(self).wf(),
            pos.index_in(old(self).spec_width(), old(self).spec_height()) is Some,
        ensures
            final(self).spec_width() == old(self).spec_width(),
            final(self).spec_height() == old(self).spec_height(),
            final(self).pixels() == old(self).pixels().update(
                pos.index_in(old(self).spec_width(), old(self).spec_height())->0,
                mode.blend_spec(
                    old(self).pixels()[pos.index_in(
                        old(self).spec_width(),
                        old(self).spec_height(),
                    )->0],
                    color,
                ),
            ),
    {
        let idx = self.index_at(pos);
        self.blend_at(mode, idx, color);
    }

    fn blend_at<M: ColorBlendMode>(&mut self, mode: M, idx: usize, color: Rgba)
        requires
            old(self).wf(),
            idx < old(self).pixels().len(),
        ensures
            final(self).spec_width() == old(self).spec_width(),
            final(self).spec_height() == old(self).spec_height(),
            final(self).pixels() == old(self).pixels().update(
                idx as int,
                mode.blend_spec(old(self).pixels()[idx as int], color),
            ),
    {
        let cc = mode.prepare_color(color);
        let mut p = self.contents[idx];
        mode.blend_color(&mut p, &cc);
        self.contents.set(idx, p);
    }

    /// The pixel that `pos` names, or `None` where it lies outside the image.
    pub fn try_get<P: Indexable2D>(&self, pos: P) -> (r: Option<Rgba>)
        requires
            self.wf(),
        ensures
            r is Some <==> pos.index_in(self.spec_width(), self.spec_height()) is Some,
            r is Some ==> r->0 == self.pixels()[pos.index_in(
                self.spec_width(),
                self.spec_height(),
            )->0],
    {
        if let Some(idx) = pos.try_as_index(self) {
            Some(self.contents[idx])
        } else {
            None
        }
    }

    /// The pixel that `pos` names, to be changed in place, or `None` where it lies outside.
    pub fn try_get_mut<P: Indexable2D>(&mut self, pos: P) -> (r: Option<&mut Rgba>)
        requires
            old(self).wf(),
        ensures
            r is Some <==> pos.index_in(old(self).spec_width(), old(self).spec_height()) is Some,
            r is Some ==> *r->0 == old(self).pixels()[pos.index_in(
                old(self).spec_width(),
                old(self).spec_height(),
            )->0],
    {
        match pos.try_as_index(self) {
            Some(idx) => Some(&mut self.contents[idx]),
            None => None,
        }
    }

    /// The pixels as RGBA bytes, four per pixel, row by row.
    pub fn raw_rgba_bytes(&self) -> (r: Vec<u8>)
        requires
            self.wf(),
            self.pixels().len() * 4 <= usize::MAX,
        ensures
            r@.len() == self.pixels().len() * 4,
            forall|i: int, c: int| 0 <= i < self.pixels().len() && 0 <= c < 4 ==> #[trigger] r@[4 * i + c] == self.pixels()[i].0[c],
    {
        let mut out: Vec<u8> = Vec::with_capacity(self.contents.len() * 4);
        let mut i: usize = 0;
        while i < self.contents.len()
            invariant
                i <= self.contents.len(),
                self.contents.len() * 4 <= usize::MAX,
                out.len() == 4 * i,
                forall|j: int, c: int| 0 <= j < i && 0 <= c < 4 ==> #[trigger] out@[4 * j + c] == self.contents@[j].0[c],
            decreases self.contents.len() - i,
        {
            let p = self.contents[i];
            out.push(p.0[0]);
            out.push(p.0[1]);
            out.push(p.0[2]);
            out.push(p.0[3]);
            proof {
                assert forall|j: int, c: int| 0 <= j < i + 1 && 0 <= c < 4 implies #[trigger] out@[4 * j + c] == self.contents@[j].0[c] by {
                    if j == i {
                        assert(c == 0 || c == 1 || c == 2 || c == 3);
                    }
                }
            }
            i = i + 1;
        }
        out
    }

    /// Replaces the pixel that `pos` names; false, with nothing changed, where it lies outside.
    pub fn try_set<P: Indexable2D>(&mut self, pos: P, color: Rgba) -> (r: bool)
        requires
            old(self).wf(),
        ensures
            r == pos.index_in(old(self).spec_width(), old(self).spec_height()) is Some,
            final(self).spec_width() == old(self).spec_width(),
            final(self).spec_height() == old(self).spec_height(),
            final(self).pixels() == (if r {
                old(self).pixels().update(
                    pos.index_in(old(self).spec_width(), old(self).spec_height())->0,
                    color,
                )
            } else {
                old(self).pixels()
            }),
    {
        if let Some(idx) = pos.try_as_index(self) {
            self.contents.set(idx, color);
            true
        } else {
            false
        }
    }

    /// Lays `color` over the pixel that `pos` names with full alpha compositing; false,
    /// with nothing changed, where it lies outside.
    pub fn try_blend<P: Indexable2D>(&mut self, pos: P, color: Rgba) -> (r: bool)
        requires
            old(self).wf(),
        ensures
            r == pos.index_in(old(self).spec_width(), old(self).spec_height()) is Some,
            final(self).spec_width() == old(self).spec_width(),
            final(self).spec_height() == old(self).spec_height(),
            final(self).pixels() == (if r {
                old(self).pixels().update(
                    pos.index_in(old(self).spec_width(), old(self).spec_height())->0,
                    transparent_blend(
                        old(self).pixels()[pos.index_in(
                            old(self).spec_width(),
                            old(self).spec_height(),
                        )->0],
                        color,
                    ),
                )
            } else {
                old(self).pixels()
            }),
    {
        self.try_blend_using(ColorBlendTransparent, pos, color)
    }

    /// Paints `color` over the pixel that `pos` names in the given mode; false, with
    /// nothing changed, where it lies outside.
    pub fn try_blend_using<M: ColorBlendMode, P: Indexable2D>(
        &mut self,
        mode: M,
        pos: P,
        color: Rgba,
    ) -> (r: bool)
        requires
            old(self).wf(),
        ensures
            r == pos.index_in(old(self).spec_width(), old(self).spec_height()) is Some,
            final(self).spec_width() == old(self).spec_width(),
            final(self).spec_height() == old(self).spec_height(),
            final(self).pixels() == (if r {
                old(self).pixels().update(
                    pos.index_in(old(self).spec_width(), old(self).spec_height())->0,
                    mode.blend_spec(
                        old(self).pixels()[pos.index_in(
                            old(self).spec_width(),
                            old(self).spec_height(),
                        )->0],
                        color,
                    ),
                )
            } else {
                old(self).pixels()
            }),
    {
        if let Some(idx) = pos.try_as_index(self) {
            self.blend_at(mode, idx, color);
            true
        } else {
            false
        }
    }

    /// The buffer index of the pixel that `pos` names.
    pub fn index_at<P: Indexable2D>(&self, pos: P) -> (r: usize)
        requires
            self.wf(),
            pos.index_in(self.spec_width(), self.spec_height()) is Some,
        ensures
            r == pos.index_in(self.spec_width(), self.spec_height())->0,
            r < self.pixels().len(),
    {
        pos.as_index(self)
    }

    /// The buffer index of the pixel that `pos` names, or `None` where it lies outside.
    pub fn try_index_at<P: Indexable2D>(&self, pos: P) -> (r: Option<usize>)
        requires
            self.wf(),
        ensures
            r is Some <==> pos.index_in(self.spec_width(), self.spec_height()) is Some,
            r is Some ==> r->0 == pos.index_in(self.spec_width(), self.spec_height())->0,
    {
        pos.try_as_index(self)
    }

    /// Changes the height: rows are cut off at the bottom, or transparent rows added there.
    pub fn set_height(&mut self, h: u32)
        requires
            old(self).wf(),
            h > 0,
            old(self).spec_width() * h <= usize::MAX,
        ensures
            final(self).wf(),
            final(self).spec_width() == old(self).spec_width(),
            final(self).spec_height() == h,
            forall|i: int|
                0 <= i < final(self).pixels().len() ==> #[trigger] final(self).pixels()[i] == (if i
                    < old(self).pixels().len() {
                    old(self).pixels()[i]
                } else {
                    transparent()
                }),
    {
        let ghost w0 = self.dim[0] as int;
        assert(h * w0 <= usize::MAX) by (nonlinear_arith)
            requires
                w0 * h <= usize::MAX,
        ;
        let len = (h as usize) * self.stride();
        self.dim = [self.dim[0], h];
        if len <= self.contents.len() {
            self.contents.truncate(len);
        } else {
            let ghost old_px = self.contents@;
            while self.contents.len() < len
                invariant
                    self.dim[0] == w0,
                    self.dim[1] == h,
                    old_px.len() <= self.contents.len() <= len,
                    forall|i: int|
                        0 <= i < self.contents.len() ==> #[trigger] self.contents@[i] == (if i
                            < old_px.len() {
                            old_px[i]
                        } else {
                            transparent()
                        }),
                decreases len - self.contents.len(),
            {
                self.contents.push(Rgba([0, 0, 0, 0]));
            }
        }
        assert(self.contents.len() == len);
        assert(len == w0 * h) by (nonlinear_arith)
            requires
                len == h * w0,
        ;
    }

    /// A copy of the `dim`-sized part of the image whose top-left corner is at `pos`.
    pub fn sub_image<P: Indexable2D>(&self, pos: P, dim: [u32; 2]) -> (r: Image)
        requires
            self.wf(),
            dim[0] > 0,
            dim[1] > 0,
            pos.index_in(self.spec_width(), self.spec_height()) is Some,
            pos.index_in(self.spec_width(), self.spec_height())->0 % (self.spec_width() as int)
                + dim[0] <= self.spec_width(),
            pos.index_in(self.spec_width(), self.spec_height())->0 / (self.spec_width() as int)
                + dim[1] <= self.spec_height(),
        ensures
            r.wf(),
            r.spec_width() == dim[0],
            r.spec_height() == dim[1],
            forall|i: int, j: int|
                0 <= i < dim[0] && 0 <= j < dim[1] ==> #[trigger] r.pixel(i, j) == self.pixels()[pos.index_in(
                    self.spec_width(),
                    self.spec_height(),
                )->0 + i + j * self.spec_width()],
    {
        let w = dim[0];
        let h = dim[1];
        let ghost base = pos.index_in(self.spec_width(), self.spec_height())->0;
        let mut row_idx = pos.as_index(self);
        let stride = self.stride();
        let ghost sw = stride as int;
        proof {
            if sw == 0 {
                assert(self.pixels().len() == 0) by (nonlinear_arith)
                    requires
                        self.pixels().len() == sw * self.spec_height(),
                        sw == 0,
                ;
            }
            vstd::arithmetic::div_mod::lemma_fundamental_div_mod(base, sw);
            assert(base + (h - 1) * sw + w <= sw * self.spec_height()) by (nonlinear_arith)
                requires
                    base == sw * (base / sw) + base % sw,
                    base % sw + w <= sw,
                    base / sw + h <= self.spec_height(),
                    h >= 1,
            ;
            assert(w * h <= self.pixels().len()) by (nonlinear_arith)
                requires
                    w <= sw,
                    h <= self.spec_height(),
                    self.pixels().len() == sw * self.spec_height(),
            ;
        }
        let mut buf: Vec<Rgba> = Vec::with_capacity((w as usize) * (h as usize));
        let mut j: u32 = 0;
        while j < h
            invariant
                self.wf(),
                stride == sw,
                sw == self.spec_width(),
                base + (h - 1) * sw + w <= self.pixels().len(),
                j <= h,
                j < h ==> row_idx == base + j * sw,
                buf.len() == j * w,
                forall|ii: int, jj: int|
                    0 <= ii < w && 0 <= jj < j ==> #[trigger] buf@[flat(ii, jj, w as int)] == self.pixels()[base
                        + ii + jj * sw],
            decreases h - j,
        {
            assert forall|ii: int, jj: int| 0 <= ii < w && 0 <= jj < j implies #[trigger] flat(ii, jj, w as int) < j * w by {
                assert(ii + jj * w < j * w) by (nonlinear_arith)
                    requires
                        0 <= ii < w,
                        0 <= jj < j,
                ;
            }
            assert(row_idx + w <= self.pixels().len()) by (nonlinear_arith)
                requires
                    row_idx == base + j * sw,
                    base + (h - 1) * sw + w <= self.pixels().len(),
                    j < h,
                    sw >= 0,
            ;
            let mut i: u32 = 0;
            while i < w
                invariant
                    self.wf(),
                    row_idx + w <= self.pixels().len(),
                    row_idx == base + j * sw,
                    j < h,
                    i <= w,
                    forall|ii: int, jj: int| 0 <= ii < w && 0 <= jj < j ==> #[trigger] flat(ii, jj, w as int) < j * w,
                    buf.len() == j * w + i,
                    forall|ii: int, jj: int|
                        0 <= ii < w && 0 <= jj < j ==> #[trigger] buf@[flat(ii, jj, w as int)]
                            == self.pixels()[base + ii + jj * sw],
                    forall|ii: int| 0 <= ii < i ==> #[trigger] buf@[ii + j * w] == self.pixels()[base + ii + j * sw],
                decreases w - i,
            {
                buf.push(self.contents[row_idx + i as usize]);
                i = i + 1;
            }
            proof {
                assert(buf.len() == (j + 1) * w) by (nonlinear_arith)
                    requires
                        buf.len() == j * w + w,
                ;
                if j + 1 < h {
                    assert(row_idx + sw <= self.pixels().len()) by (nonlinear_arith)
                        requires
                            row_idx == base + j * sw,
                            base + (h - 1) * sw + w <= self.pixels().len(),
                            j + 1 < h,
                            sw >= 0,
                    ;
                }
            }
            if j + 1 < h {
                row_idx = row_idx + stride;
            }
            j = j + 1;
            assert(j < h ==> row_idx == base + j * sw) by (nonlinear_arith)
                requires
                    j < h ==> row_idx == base + (j - 1) * sw + sw,
            ;
        }
        assert(buf.len() == w * h) by (nonlinear_arith)
            requires
                buf.len() == h * w,
        ;
        let r = Image { dim: [w, h], contents: buf };
        assert forall|i: int, j: int| 0 <= i < w && 0 <= j < h implies #[trigger] r.pixel(i, j)
            == self.pixels()[base + i + j * sw] by {
            assert(r.pixel(i, j) == buf@[flat(i, j, w as int)]);
        }
        r
    }

    /// The pixels, row by row, to be changed in place.
    pub fn buffer_mut(&mut self) -> (r: &mut [Rgba])
        ensures
            r@ == old(self).pixels(),
            final(self).pixels() == final(r)@,
            final(self).spec_width() == old(self).spec_width(),
            final(self).spec_height() == old(self).spec_height(),
    {
        self.contents.as_mut_slice()
    }

    /// Mirrors the image left to right.
    pub fn flip_x(&mut self)
        requires
            old(self).wf(),
        ensures
            final(self).wf(),
            final(self).spec_width() == old(self).spec_width(),
            final(self).spec_height() == old(self).spec_height(),
            forall|k: int|
                0 <= k < old(self).pixels().len() ==> #[trigger] final(self).pixels()[k] == old(self).pixels()[flip_x_index(
                    k,
                    old(self).spec_width() as int,
                )],
    {
        let w = self.dim[0] as usize;
        let len = self.contents.len();
        let mut result: Vec<Rgba> = Vec::with_capacity(len);
        let mut k: usize = 0;
        while k < len
            invariant
                self.wf(),
                w == self.spec_width(),
                len == self.pixels().len(),
                k <= len,
                result.len() == k,
                forall|j: int| 0 <= j < k ==> #[trigger] result@[j] == self.pixels()[flip_x_index(j, w as int)],
            decreases len - k,
        {
            proof {
                lemma_flip_index_bounds(k as int, w as int, self.spec_height() as int);
            }
            let x = k % w;
            let src = (w - 1 - x) + (k - x);
            result.push(self.contents[src]);
            k = k + 1;
        }
        self.contents = result;
    }

    /// Mirrors the image top to bottom.
    pub fn flip_y(&mut self)
        requires
            old(self).wf(),
        ensures
            final(self).wf(),
            final(self).spec_width() == old(self).spec_width(),
            final(self).spec_height() == old(self).spec_height(),
            forall|k: int|
                0 <= k < old(self).pixels().len() ==> #[trigger] final(self).pixels()[k] == old(self).pixels()[flip_y_index(
                    k,
                    old(self).spec_width() as int,
                    old(self).spec_height() as int,
                )],
    {
        let w = self.dim[0] as usize;
        let h = self.dim[1] as usize;
        let len = self.contents.len();
        let mut result: Vec<Rgba> = Vec::with_capacity(len);
        let mut k: usize = 0;
        while k < len
            invariant
                self.wf(),
                w == self.spec_width(),
                h == self.spec_height(),
                len == self.pixels().len(),
                k <= len,
                result.len() == k,
                forall|j: int| 0 <= j < k ==> #[trigger] result@[j] == self.pixels()[flip_y_index(j, w as int, h as int)],
            decreases len - k,
        {
            proof {
                lemma_flip_index_bounds(k as int, w as int, h as int);
            }
            let x = k % w;
            let y = k / w;
            let src = x + (h - 1 - y) * w;
            result.push(self.contents[src]);
            k = k + 1;
        }
        self.contents = result;
    }

    /// The rows of the whole image.
    pub fn rows(&self) -> (r: RowsIter<'_>)
        requires
            self.wf(),
            self.spec_width() > 0,
            self.spec_height() > 0,
        ensures
            r.spec_buf() == self.pixels(),
            r.spec_cur_idx() == 0,
    {
        let r = RowsIter::new(self, [0, 0], self.dim);
        assert(0 * self.spec_width() == 0);
        r
    }

    /// The rows of the `dim`-sized rectangle whose top-left corner is the pixel `pos`.
    pub fn rows_at<P: Indexable2D>(&self, pos: P, dim: [u32; 2]) -> (r: RowsIter<'_>)
        requires
            self.wf(),
            pos.index_in(self.spec_width(), self.spec_height()) is Some,
            pos.index_in(self.spec_width(), self.spec_height())->0 % (self.spec_width() as int)
                + dim[0] <= self.spec_width(),
            pos.index_in(self.spec_width(), self.spec_height())->0 / (self.spec_width() as int)
                + dim[1] <= self.spec_height(),
        ensures
            r.spec_buf() == self.pixels(),
            r.spec_cur_idx() == pos.index_in(self.spec_width(), self.spec_height())->0,
    {
        let xy = pos.try_as_xy_pos(self).unwrap();
        proof {
            let w = self.spec_width() as int;
            let i = pos.index_in(self.spec_width(), self.spec_height())->0;
            vstd::arithmetic::div_mod::lemma_fundamental_div_mod_converse(i, w, xy[1] as int, xy[0] as int);
        }
        RowsIter::new(self, xy, dim)
    }

    /// A builder of tiles of the given size, cut from this image.
    pub fn sub_images(&self, size_dim: [u32; 2]) -> (r: SubImageBuilder<'_>)
        ensures
            r.spec_image() == self,
            r.spec_params().size == size_dim,
    {
        SubImageBuilder::new(self, size_dim)
    }

    /// A canvas over the whole image.
    pub fn as_canvas(&mut self) -> (r: Canvas<'_>)
        requires
            old(self).wf(),
            old(self).spec_width() <= i32::MAX,
            old(self).spec_height() <= i32::MAX,
        ensures
            r.wf(),
            r.spec_pos() == (0int, 0int),
            r.spec_dim() == (old(self).spec_width(), old(self).spec_height()),
            r.image().same_as(old(self)),
    {
        let d = self.dim;
        Canvas::new(self, [0, 0], d)
    }
}

} // verus!
