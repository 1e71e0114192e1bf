use crate::img::Image;
use vstd::prelude::*;

verus! {

/// The buffer index of the pixel at column `x`, row `y`, in an image `w` pixels wide, if
/// that pixel lies in a `w` by `h` image.
pub open spec fn xy_index(x: int, y: int, w: nat, h: nat) -> Option<int> {
    if 0 <= x < w && 0 <= y < h {
        Some(x + y * w)
    } else {
        None
    }
}

/// A buffer index, if it lies in a `w` by `h` image.
pub open spec fn flat_index(i: int, w: nat, h: nat) -> Option<int> {
    if 0 <= i < w * h {
        Some(i)
    } else {
        None
    }
}

proof fn lemma_xy_index_in_range(x: int, y: int, w: nat, h: nat)
    requires
        0 <= x < w,
        0 <= y < h,
    ensures
        0 <= x + y * w < w * h,
{
    assert(0 <= x + y * w < w * h) by (nonlinear_arith)
        requires
            0 <= x < w,
            0 <= y < h,
    ;
}

/// A way of naming one pixel of an image: a buffer index or a position.
pub trait Indexable2D {
    /// The buffer index named, in a `w` by `h` image, or `None` where it lies outside.
    spec fn index_in(&self, w: nat, h: nat) -> Option<int>;

    fn try_as_index(&self, img: &Image) -> (r: Option<usize>)
        requires
            img.wf(),
        ensures
            r is Some <==> self.index_in(img.spec_width(), img.spec_height()) is Some,
            r is Some ==> r->0 == self.index_in(img.spec_width(), img.spec_height())->0,
            r is Some ==> r->0 < img.pixels().len(),
    ;

    fn try_as_xy_pos(&self, img: &Image) -> (r: Option<[u32; 2]>)
        requires
            img.wf(),
        ensures
            r is Some <==> self.index_in(img.spec_width(), img.spec_height()) is Some,
            r is Some ==> r->0[0] < img.spec_width() && r->0[1] < img.spec_height() && r->0[0]
                + r->0[1] * img.spec_width() == self.index_in(
                img.spec_width(),
                img.spec_height(),
            )->0,
    ;

    fn is_valid(&self, img: &Image) -> (r: bool)
        requires
            img.wf(),
        ensures
            r == self.index_in(img.spec_width(), img.spec_height()) is Some,
    {
        self.try_as_index(img).is_some()
    }

    fn as_index(&self, img: &Image) -> (r: usize)
        requires
            img.wf(),
            self.index_in(img.spec_width(), img.spec_height()) is Some,
        ensures
            r == self.index_in(img.spec_width(), img.spec_height())->0,
            r < img.pixels().len(),
    {
        self.try_as_index(img).unwrap()
    }
}

impl Indexable2D for usize {
    open spec fn index_in(&self, w: nat, h: nat) -> Option<int> {
        flat_index(*self as int, w, h)
    }

    fn try_as_index(&self, img: &Image) -> (r: Option<usize>) {
        if *self >= img.buffer().len() {
            None
        } else {
            Some(*self)
        }
    }

    fn try_as_xy_pos(&self, img: &Image) -> (r: Option<[u32; 2]>) {
        if let Some(idx) = self.try_as_index(img) {
            let stride = img.stride();
            proof {
                if stride == 0 {
                    assert(img.pixels().len() == 0) by (nonlinear_arith)
                        requires
                            img.pixels().len() == stride * img.spec_height(),
                            stride == 0,
                    ;
                }
                vstd::arithmetic::div_mod::lemma_fundamental_div_mod(idx as int, stride as int);
                assert(idx / stride < img.spec_height()) by (nonlinear_arith)
                    requires
                        idx < stride * img.spec_height(),
                        stride > 0,
                ;
            }
            let x = idx % stride;
            let y = idx / stride;
            assert(x + y * stride == idx) by (nonlinear_arith)
                requires
                    idx == stride * (idx / stride) + idx % stride,
                    x == idx % stride,
                    y == idx / stride,
            ;
            assert(x < stride);
            let r = [x as u32, y as u32];
            assert(r[0] == x && r[1] == y);
            Some(r)
        } else {
            None
        }
    }
}

impl Indexable2D for isize {
    open spec fn index_in(&self, w: nat, h: nat) -> Option<int> {
        flat_index(*self as int, w, h)
    }

    fn try_as_index(&self, img: &Image) -> (r: Option<usize>) {
        if *self < 0 || (*self as usize) >= img.buffer().len() {
            None
        } else {
            Some(*self as usize)
        }
    }

    fn try_as_xy_pos(&self, img: &Image) -> (r: Option<[u32; 2]>) {
        if *self < 0 {
            None
        } else {
            (*self as usize).try_as_xy_pos(img)
        }
    }
}

impl Indexable2D for [i32; 2] {
    open spec fn index_in(&self, w: nat, h: nat) -> Option<int> {
        xy_index(self[0] as int, self[1] as int, w, h)
    }

    fn try_as_index(&self, img: &Image) -> (r: Option<usize>) {
        let x = self[0];
        let y = self[1];
        let w = img.width();
        let h = img.height();
        if x < 0 || (x as i64) >= (w as i64) || y < 0 || (y as i64) >= (h as i64) {
            None
        } else {
            proof {
                lemma_xy_index_in_range(x as int, y as int, w as nat, h as nat);
            }
            Some((x as usize) + (y as usize) * (w as usize))
        }
    }

    fn try_as_xy_pos(&self, img: &Image) -> (r: Option<[u32; 2]>) {
        if self.is_valid(img) {
            Some([self[0] as u32, self[1] as u32])
        } else {
            None
        }
    }
}

impl Indexable2D for (i32, i32) {
    open spec fn index_in(&self, w: nat, h: nat) -> Option<int> {
        xy_index(self.0 as int, self.1 as int, w, h)
    }

    fn try_as_index(&self, img: &Image) -> (r: Option<usize>) {
        [self.0, self.1].try_as_index(img)
    }

    fn try_as_xy_pos(&self, img: &Image) -> (r: Option<[u32; 2]>) {
        [self.0, self.1].try_as_xy_pos(img)
    }
}

impl Indexable2D for [u32; 2] {
    open spec fn index_in(&self, w: nat, h: nat) -> Option<int> {
        xy_index(self[0] as int, self[1] as int, w, h)
    }

    fn try_as_index(&self, img: &Image) -> (r: Option<usize>) {
        let x = self[0];
        let y = self[1];
        let w = img.width();
        let h = img.height();
        if x >= w || y >= h {
            None
        } else {
            proof {
                lemma_xy_index_in_range(x as int, y as int, w as nat, h as nat);
            }
            Some((x as usize) + (y as usize) * (w as usize))
        }
    }

    fn try_as_xy_pos(&self, img: &Image) -> (r: Option<[u32; 2]>) {
        if self.is_valid(img) {
            Some(*self)
        } else {
            None
        }
    }
}

impl Indexable2D for (u32, u32) {
    open spec fn index_in(&self, w: nat, h: nat) -> Option<int> {
        xy_index(self.0 as int, self.1 as int, w, h)
    }

    fn try_as_index(&self, img: &Image) -> (r: Option<usize>) {
        [self.0, self.1].try_as_index(img)
    }

    fn try_as_xy_pos(&self, img: &Image) -> (r: Option<[u32; 2]>) {
        [self.0, self.1].try_as_xy_pos(img)
    }
}

} // verus!
