use crate::font::layout::{sat_add, width_to_i32};
use crate::img::Image;
use crate::rgba::Rgba;
use vstd::prelude::*;

verus! {

/// Walks the rows of a rectangle of an image, top to bottom.
pub struct RowsIter<'a> {
    buf: &'a [Rgba],
    cur_idx: usize,
    cur_pos: [i32; 2],
    width: usize,
    stride: usize,
    max_idx: usize,
}

impl<'a> RowsIter<'a> {
    pub closed spec fn spec_buf(&self) -> Seq<Rgba> {
        self.buf@
    }

    pub closed spec fn spec_cur_idx(&self) -> int {
        self.cur_idx as int
    }

    pub closed spec fn spec_width(&self) -> int {
        self.width as int
    }

    pub closed spec fn spec_stride(&self) -> int {
        self.stride as int
    }

    pub closed spec fn spec_end(&self) -> int {
        self.max_idx as int
    }

    /// The rows of the `dim`-sized rectangle of `img` whose top-left corner is `loc`.
    pub fn new(img: &'a Image, loc: [u32; 2], dim: [u32; 2]) -> (r: RowsIter<'a>)
        requires
            img.wf(),
            loc[0] < img.spec_width(),
            loc[1] < img.spec_height(),
            loc[0] + dim[0] <= img.spec_width(),
            loc[1] + dim[1] <= img.spec_height(),
        ensures
            r.spec_buf() == img.pixels(),
            r.spec_width() == dim[0],
            r.spec_stride() == img.spec_width(),
            r.spec_cur_idx() == loc[0] + loc[1] * img.spec_width(),
            dim[1] == 0 ==> r.spec_end() == r.spec_cur_idx(),
    {
        let stride = img.stride();
        let w = img.width();
        let h = img.height();
        let ghost len = img.pixels().len();
        proof {
            assert(loc[1] * w <= len) by (nonlinear_arith)
                requires
                    loc[1] <= h,
                    len == w * h,
            ;
            assert(loc[0] + (loc[1] + dim[1]) * w <= len + loc[0]) by (nonlinear_arith)
                requires
                    loc[1] + dim[1] <= h,
                    len == w * h,
            ;
            assert(loc[0] + loc[1] * w <= len) by (nonlinear_arith)
                requires
                    loc[0] < w,
                    loc[1] < h,
                    len == w * h,
            ;
        }
        let idx0 = loc[0] as usize + (loc[1] as usize) * stride;
        let max_idx = if dim[1] == 0 {
            idx0
        } else {
            proof {
                assert(loc[0] + loc[1] * w + dim[1] * w <= len + loc[0]) by (nonlinear_arith)
                    requires
                        loc[1] + dim[1] <= h,
                        len == w * h,
                ;
            }
            idx0.saturating_add((dim[1] as usize) * stride)
        };
        RowsIter {
            buf: img.buffer(),
            cur_idx: idx0,
            cur_pos: [width_to_i32(loc[0]), width_to_i32(loc[1])],
            width: dim[0] as usize,
            stride,
            max_idx,
        }
    }

    /// The next row, or `None` after the last one.
    pub fn next(&mut self) -> (r: Option<&'a [Rgba]>)
        ensures
            final(self).spec_buf() == old(self).spec_buf(),
            final(self).spec_width() == old(self).spec_width(),
            final(self).spec_stride() == old(self).spec_stride(),
            final(self).spec_end() == old(self).spec_end(),
            old(self).spec_cur_idx() >= old(self).spec_end() ==> r is None,
            r is Some ==> r->0@ == old(self).spec_buf().subrange(
                old(self).spec_cur_idx(),
                old(self).spec_cur_idx() + old(self).spec_width(),
            ),
    {
        if self.cur_idx < self.max_idx && self.cur_idx <= self.buf.len() && self.width <= self.buf.len()
            - self.cur_idx {
            let start = self.cur_idx;
            let result = &self.buf[start..start + self.width];
            self.cur_idx = self.cur_idx.saturating_add(self.stride);
            self.cur_pos = [self.cur_pos[0], sat_add(self.cur_pos[1], 1)];
            Some(result)
        } else {
            None
        }
    }

    /// The same rows, each with the position of its first pixel.
    pub fn with_pos(self) -> RowsPosIter<'a> {
        RowsPosIter(self)
    }
}

/// Walks rows, each with the position of its first pixel.
pub struct RowsPosIter<'a>(RowsIter<'a>);

impl<'a> RowsPosIter<'a> {
    /// The next row and its position, or `None` after the last one.
    pub fn next(&mut self) -> Option<([i32; 2], &'a [Rgba])> {
        let pos = self.0.cur_pos;
        match self.0.next() {
            Some(row) => Some((pos, row)),
            None => None,
        }
    }
}

} // verus!
