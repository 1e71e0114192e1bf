use crate::blend::{transparent_blend, ColorAlphaBlendMode, ColorBlendMode, ColorBlendOverwrite, ColorBlendTransparent, ImageBlendMode, ImageBlendTransparent};
use crate::img::Image;
use crate::rect::Rect;
use crate::rows::RowsIter;
use crate::rgba::Rgba;
use vstd::prelude::*;

verus! {

broadcast use vstd::array::group_array_axioms, vstd::seq::group_seq_axioms;

/// Column `x`, row `y` lies in the rectangle at `(px, py)` of size `w` by `h`.
pub open spec fn in_rect(x: int, y: int, px: int, py: int, w: int, h: int) -> bool {
    px <= x < px + w && py <= y < py + h
}

/// Distinct pixels of an image have distinct buffer indices.
proof fn lemma_index_injective(x1: int, y1: int, x2: int, y2: int, w: int)
    requires
        0 <= x1 < w,
        0 <= x2 < w,
        0 <= y1,
        0 <= y2,
        x1 + y1 * w == x2 + y2 * w,
    ensures
        x1 == x2 && y1 == y2,
{
    if y1 < y2 {
        assert(x1 + y1 * w < x2 + y2 * w) by (nonlinear_arith)
            requires
                y1 < y2,
                0 <= x1 < w,
                0 <= x2,
        ;
    } else if y2 < y1 {
        assert(x2 + y2 * w < x1 + y1 * w) by (nonlinear_arith)
            requires
                y2 < y1,
                0 <= x2 < w,
                0 <= x1,
        ;
    }
}

pub proof fn lemma_index_bound(x: int, y: int, w: int, h: int)
    requires
        0 <= x < w,
        0 <= y < h,
    ensures
        0 <= x + y * w < w * h,
{
    assert(0 <= x + y * w < w * h) by (nonlinear_arith)
        requires
            0 <= x < w,
            0 <= y < h,
    ;
}

/// A window onto a rectangle of an image, in the image's coordinates.
pub struct Canvas<'a> {
    img: &'a mut Image,
    pos: [i32; 2],
    dim: [u32; 2],
}

impl<'a> Canvas<'a> {
    /// The image as it is now.
    pub closed spec fn image(&self) -> Image {
        *self.img
    }

    /// Where the window's top-left corner lies on the image.
    pub closed spec fn spec_pos(&self) -> (int, int) {
        (self.pos[0] as int, self.pos[1] as int)
    }

    /// The window's width and height.
    pub closed spec fn spec_dim(&self) -> (nat, nat) {
        (self.dim[0] as nat, self.dim[1] as nat)
    }

    /// The window lies within the image.
    pub open spec fn wf(&self) -> bool {
        &&& self.image().wf()
        &&& 0 <= self.spec_pos().0
        &&& 0 <= self.spec_pos().1
        &&& self.spec_pos().0 + self.spec_dim().0 <= self.image().spec_width()
        &&& self.spec_pos().1 + self.spec_dim().1 <= self.image().spec_height()
        &&& self.spec_pos().0 + self.spec_dim().0 <= i32::MAX
        &&& self.spec_pos().1 + self.spec_dim().1 <= i32::MAX
    }

    /// Column `x`, row `y` of the image lies in the window.
    pub open spec fn covers(&self, x: int, y: int) -> bool {
        in_rect(x, y, self.spec_pos().0, self.spec_pos().1, self.spec_dim().0 as int, self.spec_dim().1 as int)
    }

    /// The window keeps its place, and the image its size.
    pub open spec fn same_frame(&self, o: &Canvas) -> bool {
        &&& self.spec_pos() == o.spec_pos()
        &&& self.spec_dim() == o.spec_dim()
        &&& self.image().spec_width() == o.image().spec_width()
        &&& self.image().spec_height() == o.image().spec_height()
    }

    pub(crate) fn new(img: &'a mut Image, pos: [i32; 2], dim: [u32; 2]) -> (r: Canvas<'a>)
        requires
            old(img).wf(),
            0 <= pos[0],
            0 <= pos[1],
            pos[0] + dim[0] <= old(img).spec_width(),
            pos[1] + dim[1] <= old(img).spec_height(),
            pos[0] + dim[0] <= i32::MAX,
            pos[1] + dim[1] <= i32::MAX,
        ensures
            r.wf(),
            r.image() == *old(img),
            r.spec_pos() == (pos[0] as int, pos[1] as int),
            r.spec_dim() == (dim[0] as nat, dim[1] as nat),
    {
        Canvas { img, pos, dim }
    }

    /// Where the window's top-left corner lies on the image.
    pub fn pos(&self) -> (r: [i32; 2])
        ensures
            (r[0] as int, r[1] as int) == self.spec_pos(),
    {
        self.pos
    }

    pub fn dim(&self) -> (r: [u32; 2])
        ensures
            (r[0] as nat, r[1] as nat) == self.spec_dim(),
    {
        self.dim
    }

    pub fn width(&self) -> (r: u32)
        ensures
            r == self.spec_dim().0,
    {
        self.dim[0]
    }

    pub fn height(&self) -> (r: u32)
        ensures
            r == self.spec_dim().1,
    {
        self.dim[1]
    }

    /// Row `n` of the window.
    pub fn nth_row(&self, n: u32) -> (r: &[Rgba])
        requires
            self.wf(),
            n < self.spec_dim().1,
        ensures
            r@.len() == self.spec_dim().0,
            forall|i: int| 0 <= i < self.spec_dim().0 ==> #[trigger] r@[i] == self.image().pixel(
                self.spec_pos().0 + i,
                self.spec_pos().1 + n,
            ),
    {
        let w = self.img.width() as usize;
        let y = self.pos[1] as usize + n as usize;
        let buf = self.img.buffer();
        if self.dim[0] == 0 {
            return &buf[0..0];
        }
        proof {
            lemma_index_bound(
                self.spec_pos().0,
                y as int,
                w as int,
                self.image().spec_height() as int,
            );
            if self.spec_dim().0 > 0 {
                lemma_index_bound(
                    self.spec_pos().0 + self.spec_dim().0 - 1,
                    y as int,
                    w as int,
                    self.image().spec_height() as int,
                );
            }
        }
        let idx = self.pos[0] as usize + y * w;
        let end = idx + self.dim[0] as usize;
        &buf[idx..end]
    }

    /// The rows of the window, top to bottom.
    pub fn rows_iter(&self) -> (r: RowsIter<'_>)
        requires
            self.wf(),
            self.spec_dim().0 > 0,
            self.spec_dim().1 > 0,
        ensures
            r.spec_buf() == self.image().pixels(),
            r.spec_width() == self.spec_dim().0,
            r.spec_stride() == self.image().spec_width(),
            r.spec_cur_idx() == self.spec_pos().0 + self.spec_pos().1 * self.image().spec_width(),
    {
        RowsIter::new(&*self.img, [self.pos[0] as u32, self.pos[1] as u32], self.dim)
    }

    /// Row `n` of the window, to be changed in place.
    pub fn nth_row_mut(&mut self, n: u32) -> (r: &mut [Rgba])
        requires
            old(self).wf(),
            n < old(self).spec_dim().1,
            old(self).spec_dim().0 > 0,
        ensures
            r@.len() == old(self).spec_dim().0,
            forall|i: int| 0 <= i < old(self).spec_dim().0 ==> #[trigger] r@[i] == old(self).image().pixel(
                old(self).spec_pos().0 + i,
                old(self).spec_pos().1 + n,
            ),
            final(self).same_frame(old(self)),
            final(self).image().pixels() == ({
                let start = old(self).spec_pos().0 + (old(self).spec_pos().1 + n) * old(self).image().spec_width();
                old(self).image().pixels().subrange(0, start) + final(r)@ + old(self).image().pixels().subrange(
                    start + old(self).spec_dim().0,
                    old(self).image().pixels().len() as int,
                )
            }),
    {
        let w = self.img.width() as usize;
        let y = self.pos[1] as usize + n as usize;
        proof {
            lemma_index_bound(self.spec_pos().0 + self.spec_dim().0 - 1, y as int, w as int, self.image().spec_height() as int);
        }
        let idx = self.pos[0] as usize + y * w;
        let width = self.dim[0] as usize;
        let buf = self.img.buffer_mut();
        let (_head, rest) = buf.split_at_mut(idx);
        let (row, _tail) = rest.split_at_mut(width);
        row
    }

    /// The part of this window that overlaps the rectangle at `pos` of size `dim`, in the
    /// same coordinates, or `None` where they do not overlap.
    pub fn sub_canvas(&mut self, pos: [i32; 2], dim: [u32; 2]) -> (r: Option<Canvas<'_>>)
        requires
            old(self).wf(),
        ensures
            r is Some ==> r->0.wf() && r->0.image() == old(self).image(),
            r is Some ==> r->0.spec_dim().0 > 0 && r->0.spec_dim().1 > 0,
            r is Some ==> forall|x: int, y: int| #[trigger] r->0.covers(x, y) <==> old(self).covers(x, y)
                && in_rect(x, y, pos[0] as int, pos[1] as int, dim[0] as int, dim[1] as int),
            r is None ==> forall|x: int, y: int| !(#[trigger] old(self).covers(x, y) && in_rect(x, y, pos[0] as int, pos[1] as int, dim[0] as int, dim[1] as int)),
    {
        match self.overlap(pos, dim) {
            Some((p, d)) => Some(Canvas { img: &mut *self.img, pos: p, dim: d }),
            None => None,
        }
    }

    /// The window's overlap with the rectangle at `pos` of size `dim`.
    fn overlap(&self, pos: [i32; 2], dim: [u32; 2]) -> (r: Option<([i32; 2], [u32; 2])>)
        requires
            self.wf(),
        ensures
            r is Some ==> {
                let (p, d) = r->0;
                &&& d[0] > 0 && d[1] > 0
                &&& 0 <= p[0] && 0 <= p[1]
                &&& p[0] + d[0] <= self.image().spec_width()
                &&& p[1] + d[1] <= self.image().spec_height()
                &&& p[0] + d[0] <= i32::MAX
                &&& p[1] + d[1] <= i32::MAX
                &&& forall|x: int, y: int| #[trigger] in_rect(x, y, p[0] as int, p[1] as int, d[0] as int, d[1] as int) <==> self.covers(x, y)
                    && in_rect(x, y, pos[0] as int, pos[1] as int, dim[0] as int, dim[1] as int)
            },
            r is None ==> forall|x: int, y: int| !(#[trigger] self.covers(x, y) && in_rect(x, y, pos[0] as int, pos[1] as int, dim[0] as int, dim[1] as int)),
    {
        let ex = pos[0] as i64 + dim[0] as i64;
        let ey = pos[1] as i64 + dim[1] as i64;
        let cx1 = self.pos[0] as i64 + self.dim[0] as i64;
        let cy1 = self.pos[1] as i64 + self.dim[1] as i64;
        let x0 = if pos[0] > self.pos[0] { pos[0] } else { self.pos[0] };
        let y0 = if pos[1] > self.pos[1] { pos[1] } else { self.pos[1] };
        let x1 = if ex < cx1 { ex } else { cx1 };
        let y1 = if ey < cy1 { ey } else { cy1 };
        if (x0 as i64) >= x1 || (y0 as i64) >= y1 {
            None
        } else {
            Some(([x0, y0], [(x1 - x0 as i64) as u32, (y1 - y0 as i64) as u32]))
        }
    }

    pub fn sub_canvas_rect(&mut self, rect: Rect) -> (r: Option<Canvas<'_>>)
        requires
            old(self).wf(),
        ensures
            r is Some ==> r->0.wf() && r->0.image() == old(self).image(),
    {
        self.sub_canvas(rect.pos, rect.dim)
    }

    /// As `sub_canvas`, but takes the canvas.
    pub fn into_sub_canvas(self, pos: [i32; 2], dim: [u32; 2]) -> (r: Option<Canvas<'a>>)
        requires
            self.wf(),
        ensures
            r is Some ==> r->0.wf() && r->0.image() == self.image(),
            r is Some ==> forall|x: int, y: int| #[trigger] r->0.covers(x, y) <==> self.covers(x, y)
                && in_rect(x, y, pos[0] as int, pos[1] as int, dim[0] as int, dim[1] as int),
    {
        match self.overlap(pos, dim) {
            Some((p, d)) => Some(Canvas { img: self.img, pos: p, dim: d }),
            None => None,
        }
    }

    pub fn into_sub_canvas_rect(self, rect: Rect) -> (r: Option<Canvas<'a>>)
        requires
            self.wf(),
        ensures
            r is Some ==> r->0.wf() && r->0.image() == self.image(),
    {
        self.into_sub_canvas(rect.pos, rect.dim)
    }

    /// The buffer index of image pixel `pos`, if the window covers it.
    fn try_index_at(&self, pos: [i32; 2]) -> (r: Option<usize>)
        requires
            self.wf(),
        ensures
            r is Some <==> self.covers(pos[0] as int, pos[1] as int),
            r is Some ==> r->0 == pos[0] + pos[1] * self.image().spec_width() && r->0
                < self.image().pixels().len(),
    {
        let dx = pos[0] as i64 - self.pos[0] as i64;
        let dy = pos[1] as i64 - self.pos[1] as i64;
        if 0 <= dx && dx < self.dim[0] as i64 && 0 <= dy && dy < self.dim[1] as i64 {
            let w = self.img.width();
            proof {
                lemma_index_bound(
                    pos[0] as int,
                    pos[1] as int,
                    self.image().spec_width() as int,
                    self.image().spec_height() as int,
                );
            }
            Some(pos[0] as usize + (pos[1] as usize) * (w as usize))
        } else {
            None
        }
    }

    /// The color of image pixel `pos`, if the window covers it.
    pub fn try_get_color(&self, pos: [i32; 2]) -> (r: Option<Rgba>)
        requires
            self.wf(),
        ensures
            r is Some <==> self.covers(pos[0] as int, pos[1] as int),
            r is Some ==> r->0 == self.image().pixel(pos[0] as int, pos[1] as int),
    {
        if let Some(idx) = self.try_index_at(pos) {
            Some(self.img.get(idx))
        } else {
            None
        }
    }

    /// Replaces image pixel `pos` if the window covers it; says whether it did.
    pub fn try_set_color(&mut self, pos: [i32; 2], c: Rgba) -> (r: bool)
        requires
            old(self).wf(),
        ensures
            final(self).wf(),
            final(self).same_frame(old(self)),
            r == old(self).covers(pos[0] as int, pos[1] as int),
            final(self).image().pixels() == (if r {
                old(self).image().pixels().update(
                    pos[0] + pos[1] * old(self).image().spec_width(),
                    c,
                )
            } else {
                old(self).image().pixels()
            }),
    {
        if let Some(idx) = self.try_index_at(pos) {
            self.img.set(idx, c);
            true
        } else {
            false
        }
    }

    /// Lays `c` over image pixel `pos` with full alpha compositing, if the window covers it.
    pub fn try_blend_color(&mut self, pos: [i32; 2], c: Rgba) -> (r: bool)
        requires
            old(self).wf(),
        ensures
            final(self).wf(),
            final(self).same_frame(old(self)),
            r == old(self).covers(pos[0] as int, pos[1] as int),
            final(self).image().pixels() == (if r {
                old(self).image().pixels().update(
                    pos[0] + pos[1] * old(self).image().spec_width(),
                    transparent_blend(old(self).image().pixel(pos[0] as int, pos[1] as int), c),
                )
            } else {
                old(self).image().pixels()
            }),
    {
        self.try_blend_color_using(ColorBlendTransparent, pos, c)
    }

    /// Paints `c` over image pixel `pos` in the given mode, if the window covers it.
    pub fn try_blend_color_using<M: ColorBlendMode>(&mut self, mode: M, pos: [i32; 2], c: Rgba) -> (r: bool)
        requires
            old(self).wf(),
        ensures
            final(self).wf(),
            final(self).same_frame(old(self)),
            r == old(self).covers(pos[0] as int, pos[1] as int),
            final(self).image().pixels() == (if r {
                old(self).image().pixels().update(
                    pos[0] + pos[1] * old(self).image().spec_width(),
                    mode.blend_spec(old(self).image().pixel(pos[0] as int, pos[1] as int), c),
                )
            } else {
                old(self).image().pixels()
            }),
    {
        if let Some(idx) = self.try_index_at(pos) {
            self.img.blend_using(mode, idx, c);
            true
        } else {
            false
        }
    }

    /// What painting `c` in `mode` over the image rows `y0..y1`, columns `x0..x1` gives at
    /// column `x`, row `y`.
    pub open spec fn region_blend<M: ColorBlendMode>(
        old_img: Image,
        mode: M,
        x0: int,
        y0: int,
        x1: int,
        y1: int,
        c: Rgba,
        x: int,
        y: int,
    ) -> Rgba {
        if x0 <= x < x1 && y0 <= y < y1 {
            mode.blend_spec(old_img.pixel(x, y), c)
        } else {
            old_img.pixel(x, y)
        }
    }

    /// Paints `c` in `mode` over the image columns `x0..x1`, rows `y0..y1`, all covered.
    fn blend_region<M: ColorBlendMode>(&mut self, mode: M, x0: i32, y0: i32, x1: i32, y1: i32, c: Rgba)
        requires
            old(self).wf(),
            x0 <= x1,
            y0 <= y1,
            x0 < x1 && y0 < y1 ==> old(self).covers(x0 as int, y0 as int) && old(self).covers(
                x1 - 1,
                y1 - 1,
            ),
        ensures
            final(self).wf(),
            final(self).same_frame(old(self)),
            forall|x: int, y: int|
                0 <= x < old(self).image().spec_width() && 0 <= y < old(self).image().spec_height()
                    ==> #[trigger] final(self).image().pixel(x, y) == Self::region_blend(
                    old(self).image(),
                    mode,
                    x0 as int,
                    y0 as int,
                    x1 as int,
                    y1 as int,
                    c,
                    x,
                    y,
                ),
    {
        let ghost old_img = self.image();
        let ghost w = old_img.spec_width() as int;
        let ghost h = old_img.spec_height() as int;
        if x0 >= x1 || y0 >= y1 {
            return;
        }
        let mut y = y0;
        while y < y1
            invariant
                self.wf(),
                self.same_frame(old(self)),
                old_img == old(self).image(),
                w == old_img.spec_width(),
                h == old_img.spec_height(),
                x0 < x1,
                y0 <= y <= y1,
                self.covers(x0 as int, y0 as int),
                self.covers(x1 - 1, y1 - 1),
                forall|xx: int, yy: int|
                    0 <= xx < w && 0 <= yy < h ==> #[trigger] self.image().pixel(xx, yy)
                        == Self::region_blend(old_img, mode, x0 as int, y0 as int, x1 as int, y as int, c, xx, yy),
            decreases y1 - y,
        {
            let mut x = x0;
            while x < x1
                invariant
                    self.wf(),
                    self.same_frame(old(self)),
                    old_img == old(self).image(),
                    w == old_img.spec_width(),
                    h == old_img.spec_height(),
                    x0 <= x <= x1,
                    y0 <= y < y1,
                    self.covers(x0 as int, y0 as int),
                    self.covers(x1 - 1, y1 - 1),
                    forall|xx: int, yy: int|
                        0 <= xx < w && 0 <= yy < h ==> #[trigger] self.image().pixel(xx, yy) == (if yy
                            == y && x0 <= xx < x {
                            mode.blend_spec(old_img.pixel(xx, yy), c)
                        } else {
                            Self::region_blend(old_img, mode, x0 as int, y0 as int, x1 as int, y as int, c, xx, yy)
                        }),
                decreases x1 - x,
            {
                let ghost before = self.image();
                assert(before.pixel(x as int, y as int) == old_img.pixel(x as int, y as int));
                let ok = self.try_blend_color_using(mode, [x, y], c);
                proof {
                    assert(ok);
                    lemma_index_bound(x as int, y as int, w, h);
                    assert(self.image().pixels() == before.pixels().update(
                        x + y * w,
                        mode.blend_spec(before.pixel(x as int, y as int), c),
                    ));
                    assert forall|xx: int, yy: int| 0 <= xx < w && 0 <= yy < h implies #[trigger] self.image().pixel(xx, yy) == (if yy
                        == y && x0 <= xx < x + 1 {
                        mode.blend_spec(old_img.pixel(xx, yy), c)
                    } else {
                        Self::region_blend(old_img, mode, x0 as int, y0 as int, x1 as int, y as int, c, xx, yy)
                    }) by {
                        lemma_index_bound(xx, yy, w, h);
                        if xx + yy * w == x + y * w {
                            lemma_index_injective(xx, yy, x as int, y as int, w);
                        } else {
                            assert(self.image().pixel(xx, yy) == before.pixel(xx, yy));
                        }
                    }
                }
                x = x + 1;
            }
            y = y + 1;
        }
    }

    /// What laying `img`, with its top-left corner at `(px, py)`, over the image rows
    /// `y0..y1`, columns `x0..x1` gives at column `x`, row `y`.
    pub open spec fn image_region_blend<M: ImageBlendMode>(
        old_img: Image,
        mode: M,
        img: &Image,
        px: int,
        py: int,
        x0: int,
        y0: int,
        x1: int,
        y1: int,
        x: int,
        y: int,
    ) -> Rgba {
        if x0 <= x < x1 && y0 <= y < y1 {
            mode.blend_spec(old_img.pixel(x, y), img.pixel(x - px, y - py))
        } else {
            old_img.pixel(x, y)
        }
    }

    /// Combines `src` with image pixel `pos` in `mode`, if the window covers it.
    fn image_blend_at<M: ImageBlendMode>(&mut self, mode: M, pos: [i32; 2], src: Rgba) -> (r: bool)
        requires
            old(self).wf(),
        ensures
            final(self).wf(),
            final(self).same_frame(old(self)),
            r == old(self).covers(pos[0] as int, pos[1] as int),
            final(self).image().pixels() == (if r {
                old(self).image().pixels().update(
                    pos[0] + pos[1] * old(self).image().spec_width(),
                    mode.blend_spec(old(self).image().pixel(pos[0] as int, pos[1] as int), src),
                )
            } else {
                old(self).image().pixels()
            }),
    {
        if let Some(idx) = self.try_index_at(pos) {
            let mut p = self.img.get(idx);
            mode.blend_color(&mut p, src);
            self.img.set(idx, p);
            true
        } else {
            false
        }
    }

    fn blend_image_region<M: ImageBlendMode>(&mut self, mode: M, img: &Image, px: i32, py: i32, x0: i32, y0: i32, x1: i32, y1: i32)
        requires
            old(self).wf(),
            img.wf(),
            x0 < x1 && y0 < y1 ==> px <= x0 && x1 <= px + img.spec_width() && py <= y0 && y1 <= py + img.spec_height(),
            x0 <= x1,
            y0 <= y1,
            x0 < x1 && y0 < y1 ==> old(self).covers(x0 as int, y0 as int) && old(self).covers(
                x1 - 1,
                y1 - 1,
            ),
        ensures
            final(self).wf(),
            final(self).same_frame(old(self)),
            forall|x: int, y: int|
                0 <= x < old(self).image().spec_width() && 0 <= y < old(self).image().spec_height()
                    ==> #[trigger] final(self).image().pixel(x, y) == Self::image_region_blend(
                    old(self).image(),
                    mode,
                    img,
                    px as int,
                    py as int,
                    x0 as int,
                    y0 as int,
                    x1 as int,
                    y1 as int,
                    x,
                    y,
                ),
    {
        let ghost old_img = self.image();
        let ghost w = old_img.spec_width() as int;
        let ghost h = old_img.spec_height() as int;
        if x0 >= x1 || y0 >= y1 {
            return;
        }
        let mut y = y0;
        while y < y1
            invariant
                self.wf(),
                self.same_frame(old(self)),
                old_img == old(self).image(),
                img.wf(),
                px <= x0,
                x1 <= px + img.spec_width(),
                py <= y0,
                y1 <= py + img.spec_height(),
                w == old_img.spec_width(),
                h == old_img.spec_height(),
                x0 < x1,
                y0 <= y <= y1,
                self.covers(x0 as int, y0 as int),
                self.covers(x1 - 1, y1 - 1),
                forall|xx: int, yy: int|
                    0 <= xx < w && 0 <= yy < h ==> #[trigger] self.image().pixel(xx, yy)
                        == Self::image_region_blend(old_img, mode, img, px as int, py as int, x0 as int, y0 as int, x1 as int, y as int, xx, yy),
            decreases y1 - y,
        {
            let mut x = x0;
            while x < x1
                invariant
                    self.wf(),
                    self.same_frame(old(self)),
                    old_img == old(self).image(),
                    img.wf(),
                    px <= x0,
                    x1 <= px + img.spec_width(),
                    py <= y0,
                    y1 <= py + img.spec_height(),
                img.wf(),
                px <= x0,
                x1 <= px + img.spec_width(),
                py <= y0,
                y1 <= py + img.spec_height(),
                    w == old_img.spec_width(),
                    h == old_img.spec_height(),
                    x0 <= x <= x1,
                    y0 <= y < y1,
                    self.covers(x0 as int, y0 as int),
                    self.covers(x1 - 1, y1 - 1),
                    forall|xx: int, yy: int|
                        0 <= xx < w && 0 <= yy < h ==> #[trigger] self.image().pixel(xx, yy) == (if yy
                            == y && x0 <= xx < x {
                            mode.blend_spec(old_img.pixel(xx, yy), img.pixel(xx - px, yy - py))
                        } else {
                            Self::image_region_blend(old_img, mode, img, px as int, py as int, x0 as int, y0 as int, x1 as int, y as int, xx, yy)
                        }),
                decreases x1 - x,
            {
                let ghost before = self.image();
                assert(before.pixel(x as int, y as int) == old_img.pixel(x as int, y as int));
                let src = img.get([(x as i64 - px as i64) as u32, (y as i64 - py as i64) as u32]);
                let ok = self.image_blend_at(mode, [x, y], src);
                proof {
                    assert(ok);
                    lemma_index_bound(x as int, y as int, w, h);
                    assert(self.image().pixels() == before.pixels().update(
                        x + y * w,
                        mode.blend_spec(before.pixel(x as int, y as int), img.pixel(x - px, y - py)),
                    ));
                    assert forall|xx: int, yy: int| 0 <= xx < w && 0 <= yy < h implies #[trigger] self.image().pixel(xx, yy) == (if yy
                        == y && x0 <= xx < x + 1 {
                        mode.blend_spec(old_img.pixel(xx, yy), img.pixel(xx - px, yy - py))
                    } else {
                        Self::image_region_blend(old_img, mode, img, px as int, py as int, x0 as int, y0 as int, x1 as int, y as int, xx, yy)
                    }) by {
                        lemma_index_bound(xx, yy, w, h);
                        if xx + yy * w == x + y * w {
                            lemma_index_injective(xx, yy, x as int, y as int, w);
                        } else {
                            assert(self.image().pixel(xx, yy) == before.pixel(xx, yy));
                        }
                    }
                }
                x = x + 1;
            }
            y = y + 1;
        }
    }

    /// Paints `c` in `mode` over every pixel of the window.
    pub fn fill_using<M: ColorBlendMode>(&mut self, mode: M, c: Rgba)
        requires
            old(self).wf(),
        ensures
            final(self).wf(),
            final(self).same_frame(old(self)),
            forall|x: int, y: int|
                0 <= x < old(self).image().spec_width() && 0 <= y < old(self).image().spec_height()
                    ==> #[trigger] final(self).image().pixel(x, y) == (if old(self).covers(x, y) {
                    mode.blend_spec(old(self).image().pixel(x, y), c)
                } else {
                    old(self).image().pixel(x, y)
                }),
    {
        let x0 = self.pos[0];
        let y0 = self.pos[1];
        let x1 = (self.pos[0] as i64 + self.dim[0] as i64) as i32;
        let y1 = (self.pos[1] as i64 + self.dim[1] as i64) as i32;
        self.blend_region(mode, x0, y0, x1, y1, c);
    }

    /// Paints `c` over every pixel of the window, replacing what is there.
    pub fn clear(&mut self, c: Rgba)
        requires
            old(self).wf(),
        ensures
            final(self).wf(),
            final(self).same_frame(old(self)),
            forall|x: int, y: int|
                0 <= x < old(self).image().spec_width() && 0 <= y < old(self).image().spec_height()
                    ==> #[trigger] final(self).image().pixel(x, y) == (if old(self).covers(x, y) {
                    c
                } else {
                    old(self).image().pixel(x, y)
                }),
    {
        self.fill_using(ColorBlendOverwrite, c);
    }

    /// Paints `c` over every pixel of the window: replacing where `c` is opaque, else with
    /// full alpha compositing.
    pub fn fill(&mut self, c: Rgba)
        requires
            old(self).wf(),
        ensures
            final(self).wf(),
            final(self).same_frame(old(self)),
            forall|x: int, y: int|
                0 <= x < old(self).image().spec_width() && 0 <= y < old(self).image().spec_height()
                    ==> #[trigger] final(self).image().pixel(x, y) == (if old(self).covers(x, y) {
                    if c.0[3] == 255 {
                        c
                    } else {
                        transparent_blend(old(self).image().pixel(x, y), c)
                    }
                } else {
                    old(self).image().pixel(x, y)
                }),
    {
        if c.alpha() == 255 {
            self.fill_using(ColorBlendOverwrite, c);
        } else {
            self.fill_using(ColorBlendTransparent, c);
        }
    }

    /// Paints `c` in `mode` over the part of the rectangle at `pos`, of size `dim`, that the
    /// window covers.
    pub fn fill_rect_using<M: ColorBlendMode>(&mut self, mode: M, pos: [i32; 2], dim: [u32; 2], c: Rgba)
        requires
            old(self).wf(),
        ensures
            final(self).wf(),
            final(self).same_frame(old(self)),
            forall|x: int, y: int|
                0 <= x < old(self).image().spec_width() && 0 <= y < old(self).image().spec_height()
                    ==> #[trigger] final(self).image().pixel(x, y) == (if old(self).covers(x, y)
                    && in_rect(x, y, pos[0] as int, pos[1] as int, dim[0] as int, dim[1] as int) {
                    mode.blend_spec(old(self).image().pixel(x, y), c)
                } else {
                    old(self).image().pixel(x, y)
                }),
    {
        let ex = pos[0] as i64 + dim[0] as i64;
        let ey = pos[1] as i64 + dim[1] as i64;
        let cx1 = self.pos[0] as i64 + self.dim[0] as i64;
        let cy1 = self.pos[1] as i64 + self.dim[1] as i64;
        let x0 = if pos[0] > self.pos[0] { pos[0] } else { self.pos[0] };
        let y0 = if pos[1] > self.pos[1] { pos[1] } else { self.pos[1] };
        let x1 = if ex < cx1 { ex } else { cx1 };
        let y1 = if ey < cy1 { ey } else { cy1 };
        if (x0 as i64) < x1 && (y0 as i64) < y1 {
            self.blend_region(mode, x0, y0, x1 as i32, y1 as i32, c);
        }
    }

    /// The color of image pixel `pos`, to be changed in place, if the window covers it.
    pub fn try_get_color_mut(&mut self, pos: [i32; 2]) -> (r: Option<&mut Rgba>)
        requires
            old(self).wf(),
        ensures
            r is Some <==> old(self).covers(pos[0] as int, pos[1] as int),
            r is Some ==> *r->0 == old(self).image().pixel(pos[0] as int, pos[1] as int),
    {
        match self.try_index_at(pos) {
            Some(idx) => Some(self.img.get_mut(idx)),
            None => None,
        }
    }

    /// `c` painted `n` times over `p` in `mode`.
    pub open spec fn blend_times<M: ColorBlendMode>(mode: M, p: Rgba, c: Rgba, n: nat) -> Rgba
        decreases n,
    {
        if n == 0 {
            p
        } else {
            mode.blend_spec(Self::blend_times(mode, p, c, (n - 1) as nat), c)
        }
    }

    /// How many times the outline of the rectangle at `(x, y)` of size `w` by `h` paints
    /// column `px`, row `py`: the top and bottom rows, then the left and right columns
    /// between them; a row or column that is both counts twice.
    pub open spec fn outline_hits(x: int, y: int, w: int, h: int, px: int, py: int) -> nat {
        let top: nat = if in_rect(px, py, x, y, w, 1) { 1 } else { 0 };
        let bottom: nat = if in_rect(px, py, x, y + h - 1, w, 1) { 1 } else { 0 };
        let side_h = if h >= 2 { h - 2 } else { 0 };
        let left: nat = if in_rect(px, py, x, y + 1, 1, side_h) { 1 } else { 0 };
        let right: nat = if in_rect(px, py, x + w - 1, y + 1, 1, side_h) { 1 } else { 0 };
        top + bottom + left + right
    }

    /// Paints the part of the rectangle at `(x, y)`, of size `dim`, that the window
    /// covers; nothing where `x` or `y` lies outside `i32`.
    fn fill_rect_wide<M: ColorBlendMode>(&mut self, mode: M, x: i64, y: i64, dim: [u32; 2], c: Rgba)
        requires
            old(self).wf(),
            x >= i32::MIN || x + dim[0] <= 0,
            y >= i32::MIN || y + dim[1] <= 0,
        ensures
            final(self).wf(),
            final(self).same_frame(old(self)),
            forall|px: int, py: int|
                0 <= px < old(self).image().spec_width() && 0 <= py < old(self).image().spec_height()
                    ==> #[trigger] final(self).image().pixel(px, py) == (if old(self).covers(px, py)
                    && in_rect(px, py, x as int, y as int, dim[0] as int, dim[1] as int) {
                    mode.blend_spec(old(self).image().pixel(px, py), c)
                } else {
                    old(self).image().pixel(px, py)
                }),
    {
        if i32::MIN as i64 <= x && x <= i32::MAX as i64 && i32::MIN as i64 <= y && y <= i32::MAX as i64 {
            self.fill_rect_using(mode, [x as i32, y as i32], dim, c);
        }
    }

    /// Paints the outline of the rectangle at `pos` of size `dim` in the given mode,
    /// skipping pixels outside the window.
    pub fn draw_rect_using<M: ColorBlendMode>(&mut self, mode: M, pos: [i32; 2], dim: [u32; 2], c: Rgba)
        requires
            old(self).wf(),
        ensures
            final(self).wf(),
            final(self).same_frame(old(self)),
            forall|px: int, py: int|
                0 <= px < old(self).image().spec_width() && 0 <= py < old(self).image().spec_height()
                    ==> #[trigger] final(self).image().pixel(px, py) == (if old(self).covers(px, py) {
                    Self::blend_times(
                        mode,
                        old(self).image().pixel(px, py),
                        c,
                        Self::outline_hits(pos[0] as int, pos[1] as int, dim[0] as int, dim[1] as int, px, py),
                    )
                } else {
                    old(self).image().pixel(px, py)
                }),
    {
        let ghost old_img = self.image();
        let x = pos[0] as i64;
        let y = pos[1] as i64;
        let w = dim[0] as i64;
        let h = dim[1] as i64;
        let side_h: u32 = if dim[1] >= 2 { dim[1] - 2 } else { 0 };
        self.fill_rect_wide(mode, x, y, [dim[0], 1], c);
        let ghost s1 = self.image();
        self.fill_rect_wide(mode, x, y + h - 1, [dim[0], 1], c);
        let ghost s2 = self.image();
        self.fill_rect_wide(mode, x, y + 1, [1, side_h], c);
        let ghost s3 = self.image();
        self.fill_rect_wide(mode, x + w - 1, y + 1, [1, side_h], c);
        proof {
            assert forall|px: int, py: int|
                0 <= px < old_img.spec_width() && 0 <= py < old_img.spec_height() implies #[trigger] self.image().pixel(px, py)
                == (if old(self).covers(px, py) {
                Self::blend_times(
                    mode,
                    old_img.pixel(px, py),
                    c,
                    Self::outline_hits(pos[0] as int, pos[1] as int, dim[0] as int, dim[1] as int, px, py),
                )
            } else {
                old_img.pixel(px, py)
            }) by {
                let start = old_img.pixel(px, py);
                let after_top = s1.pixel(px, py);
                let after_bottom = s2.pixel(px, py);
                let after_left = s3.pixel(px, py);
                let top: nat = if in_rect(px, py, x as int, y as int, w as int, 1) { 1 } else { 0 };
                let bottom: nat = if in_rect(px, py, x as int, y + h - 1, w as int, 1) { 1 } else { 0 };
                let left: nat = if in_rect(px, py, x as int, y + 1, 1, side_h as int) { 1 } else { 0 };
                let right: nat = if in_rect(px, py, x + w - 1, y + 1, 1, side_h as int) { 1 } else { 0 };
                if old(self).covers(px, py) {
                    assert(Self::blend_times(mode, start, c, 0) == start);
                    assert(after_top == Self::blend_times(mode, start, c, top));
                    assert(after_bottom == Self::blend_times(mode, start, c, top + bottom));
                    assert(after_left == Self::blend_times(mode, start, c, top + bottom + left));
                    assert(self.image().pixel(px, py) == Self::blend_times(mode, start, c, top + bottom + left + right));
                }
            }
        }
    }

    /// Paints the outline of a rectangle: replacing where `c` is opaque, else with full
    /// alpha compositing.
    pub fn draw_rect(&mut self, pos: [i32; 2], dim: [u32; 2], c: Rgba)
        requires
            old(self).wf(),
        ensures
            final(self).wf(),
            final(self).same_frame(old(self)),
            c.0[3] == 255 ==> forall|px: int, py: int|
                0 <= px < old(self).image().spec_width() && 0 <= py < old(self).image().spec_height()
                    ==> #[trigger] final(self).image().pixel(px, py) == (if old(self).covers(px, py) {
                    Self::blend_times(
                        ColorBlendOverwrite,
                        old(self).image().pixel(px, py),
                        c,
                        Self::outline_hits(pos[0] as int, pos[1] as int, dim[0] as int, dim[1] as int, px, py),
                    )
                } else {
                    old(self).image().pixel(px, py)
                }),
            c.0[3] != 255 ==> forall|px: int, py: int|
                0 <= px < old(self).image().spec_width() && 0 <= py < old(self).image().spec_height()
                    ==> #[trigger] final(self).image().pixel(px, py) == (if old(self).covers(px, py) {
                    Self::blend_times(
                        ColorBlendTransparent,
                        old(self).image().pixel(px, py),
                        c,
                        Self::outline_hits(pos[0] as int, pos[1] as int, dim[0] as int, dim[1] as int, px, py),
                    )
                } else {
                    old(self).image().pixel(px, py)
                }),
    {
        if c.alpha() == 255 {
            self.draw_rect_using(ColorBlendOverwrite, pos, dim, c);
        } else {
            self.draw_rect_using(ColorBlendTransparent, pos, dim, c);
        }
    }

    /// Lays `img` over the window with its top-left corner at `pos`, in the given mode;
    /// pixels that fall outside the window are skipped.
    pub fn draw_image_using<M: ImageBlendMode>(&mut self, mode: M, img: &Image, pos: [i32; 2])
        requires
            old(self).wf(),
            img.wf(),
        ensures
            final(self).wf(),
            final(self).same_frame(old(self)),
            forall|x: int, y: int|
                0 <= x < old(self).image().spec_width() && 0 <= y < old(self).image().spec_height()
                    ==> #[trigger] final(self).image().pixel(x, y) == (if old(self).covers(x, y)
                    && in_rect(x, y, pos[0] as int, pos[1] as int, img.spec_width() as int, img.spec_height() as int) {
                    mode.blend_spec(old(self).image().pixel(x, y), img.pixel(x - pos[0], y - pos[1]))
                } else {
                    old(self).image().pixel(x, y)
                }),
    {
        match self.overlap(pos, img.dim()) {
            Some((p, d)) => {
                let x1 = (p[0] as i64 + d[0] as i64) as i32;
                let y1 = (p[1] as i64 + d[1] as i64) as i32;
                proof {
                    if d[0] > 0 && d[1] > 0 {
                        assert(in_rect(p[0] as int, p[1] as int, p[0] as int, p[1] as int, d[0] as int, d[1] as int));
                        assert(in_rect(x1 - 1, y1 - 1, p[0] as int, p[1] as int, d[0] as int, d[1] as int));
                    }
                }
                let ghost before = self.image();
                self.blend_image_region(mode, img, pos[0], pos[1], p[0], p[1], x1, y1);
                proof {
                    assert forall|x: int, y: int|
                        0 <= x < before.spec_width() && 0 <= y < before.spec_height() implies #[trigger] self.image().pixel(x, y) == (if old(self).covers(x, y)
                        && in_rect(x, y, pos[0] as int, pos[1] as int, img.spec_width() as int, img.spec_height() as int) {
                        mode.blend_spec(old(self).image().pixel(x, y), img.pixel(x - pos[0], y - pos[1]))
                    } else {
                        old(self).image().pixel(x, y)
                    }) by {
                        assert(in_rect(x, y, p[0] as int, p[1] as int, d[0] as int, d[1] as int) == (old(self).covers(x, y)
                            && in_rect(x, y, pos[0] as int, pos[1] as int, img.spec_width() as int, img.spec_height() as int)));
                    }
                }
            },
            None => {},
        }
    }

    /// Lays `img` over the window with full alpha compositing.
    pub fn draw_image(&mut self, img: &Image, pos: [i32; 2])
        requires
            old(self).wf(),
            img.wf(),
        ensures
            final(self).wf(),
            final(self).same_frame(old(self)),
            forall|x: int, y: int|
                0 <= x < old(self).image().spec_width() && 0 <= y < old(self).image().spec_height()
                    ==> #[trigger] final(self).image().pixel(x, y) == (if old(self).covers(x, y)
                    && in_rect(x, y, pos[0] as int, pos[1] as int, img.spec_width() as int, img.spec_height() as int) {
                    transparent_blend(old(self).image().pixel(x, y), img.pixel(x - pos[0], y - pos[1]))
                } else {
                    old(self).image().pixel(x, y)
                }),
    {
        self.draw_image_using(ImageBlendTransparent, img, pos);
    }

    /// Blends `cc` with coverage `alpha` over image pixel `pos` in `mode`, if the window
    /// covers it.
    pub(crate) fn blend_pixel_alpha<M: ColorAlphaBlendMode>(&mut self, mode: M, pos: [i32; 2], cc: &Rgba, alpha: u8)
        requires
            old(self).wf(),
        ensures
            final(self).wf(),
            final(self).same_frame(old(self)),
            old(self).covers(pos[0] as int, pos[1] as int) ==> final(self).image().pixels() == old(self).image().pixels().update(
                pos[0] + pos[1] * old(self).image().spec_width(),
                mode.blend_spec(old(self).image().pixel(pos[0] as int, pos[1] as int), *cc, alpha),
            ),
            !old(self).covers(pos[0] as int, pos[1] as int) ==> final(self).image().pixels() == old(self).image().pixels(),
    {
        if let Some(idx) = self.try_index_at(pos) {
            let mut p = self.img.get(idx);
            mode.blend_color(&mut p, cc, alpha);
            self.img.set(idx, p);
        }
    }

    /// Paints `c` over the covered part of a rectangle: replacing where `c` is opaque,
    /// else with full alpha compositing.
    pub fn fill_rect(&mut self, pos: [i32; 2], dim: [u32; 2], c: Rgba)
        requires
            old(self).wf(),
        ensures
            final(self).wf(),
            final(self).same_frame(old(self)),
            forall|x: int, y: int|
                0 <= x < old(self).image().spec_width() && 0 <= y < old(self).image().spec_height()
                    ==> #[trigger] final(self).image().pixel(x, y) == (if old(self).covers(x, y)
                    && in_rect(x, y, pos[0] as int, pos[1] as int, dim[0] as int, dim[1] as int) {
                    if c.0[3] == 255 {
                        c
                    } else {
                        transparent_blend(old(self).image().pixel(x, y), c)
                    }
                } else {
                    old(self).image().pixel(x, y)
                }),
    {
        if c.alpha() == 255 {
            self.fill_rect_using(ColorBlendOverwrite, pos, dim, c);
        } else {
            self.fill_rect_using(ColorBlendTransparent, pos, dim, c);
        }
    }
}

} // verus!
