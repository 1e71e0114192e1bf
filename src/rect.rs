use vstd::prelude::*;

verus! {

/// A rectangle given by its top-left corner and its size. A rectangle with a zero width or
/// height is empty.
#[derive(Clone, Copy, Debug, Eq, Hash)]
pub struct Rect {
    pub pos: [i32; 2],
    pub dim: [u32; 2],
}

impl PartialEq for Rect {
    fn eq(&self, o: &Rect) -> (r: bool)
        ensures
            r == (self.pos@ == o.pos@ && self.dim@ == o.dim@),
    {
        let r = self.pos[0] == o.pos[0] && self.pos[1] == o.pos[1] && self.dim[0] == o.dim[0]
            && self.dim[1] == o.dim[1];
        proof {
            if r {
                assert(self.pos@ =~= o.pos@);
                assert(self.dim@ =~= o.dim@);
            }
        }
        r
    }
}

impl vstd::std_specs::cmp::PartialEqSpecImpl for Rect {
    open spec fn obeys_eq_spec() -> bool {
        true
    }

    open spec fn eq_spec(&self, o: &Rect) -> bool {
        self.pos@ == o.pos@ && self.dim@ == o.dim@
    }
}

/// A negative length taken as zero.
pub open spec fn clamp_len(v: int) -> int {
    if v < 0 {
        0
    } else {
        v
    }
}

fn clamp_to_u32(v: i32) -> (r: u32)
    ensures
        r == clamp_len(v as int),
{
    if v < 0 {
        0
    } else {
        v as u32
    }
}

impl Rect {
    pub fn new(pos: [i32; 2], dim: [u32; 2]) -> (r: Self)
        ensures
            r.pos == pos,
            r.dim == dim,
    {
        Self { pos, dim }
    }

    pub fn x(&self) -> (r: i32)
        ensures
            r == self.pos[0],
    {
        self.pos[0]
    }

    pub fn y(&self) -> (r: i32)
        ensures
            r == self.pos[1],
    {
        self.pos[1]
    }

    pub fn width(&self) -> (r: u32)
        ensures
            r == self.dim[0],
    {
        self.dim[0]
    }

    pub fn height(&self) -> (r: u32)
        ensures
            r == self.dim[1],
    {
        self.dim[1]
    }

    /// The size as signed integers.
    pub fn idim(&self) -> (r: [i32; 2])
        requires
            self.dim[0] <= i32::MAX,
            self.dim[1] <= i32::MAX,
        ensures
            r[0] == self.dim[0],
            r[1] == self.dim[1],
    {
        [self.dim[0] as i32, self.dim[1] as i32]
    }

    /// The corner just past the bottom-right one.
    pub fn end_pos(&self) -> (r: [i32; 2])
        requires
            self.pos[0] + self.dim[0] <= i32::MAX,
            self.pos[1] + self.dim[1] <= i32::MAX,
        ensures
            r[0] == self.pos[0] + self.dim[0],
            r[1] == self.pos[1] + self.dim[1],
    {
        [self.end_x(), self.end_y()]
    }

    pub fn end_x(&self) -> (r: i32)
        requires
            self.pos[0] + self.dim[0] <= i32::MAX,
        ensures
            r == self.pos[0] + self.dim[0],
    {
        (self.pos[0] as i64 + self.dim[0] as i64) as i32
    }

    pub fn end_y(&self) -> (r: i32)
        requires
            self.pos[1] + self.dim[1] <= i32::MAX,
        ensures
            r == self.pos[1] + self.dim[1],
    {
        (self.pos[1] as i64 + self.dim[1] as i64) as i32
    }

    /// True when the width or the height is zero.
    pub fn is_empty(&self) -> (r: bool)
        ensures
            r == (self.dim[0] == 0 || self.dim[1] == 0),
    {
        self.dim[0] == 0 || self.dim[1] == 0
    }

    /// True when `pt` lies inside the rectangle; never for an empty rectangle.
    pub fn contains(&self, pt: [i32; 2]) -> (r: bool)
        ensures
            r == (self.pos[0] <= pt[0] < self.pos[0] + self.dim[0] && self.pos[1] <= pt[1]
                < self.pos[1] + self.dim[1]),
    {
        if pt[0] < self.pos[0] || pt[1] < self.pos[1] {
            false
        } else {
            if (pt[0] as i64) >= (self.pos[0] as i64) + (self.dim[0] as i64) || (pt[1] as i64) >= (
            self.pos[1] as i64) + (self.dim[1] as i64) {
                false
            } else {
                true
            }
        }
    }

    pub fn with_pos(&self, pos: [i32; 2]) -> (r: Self)
        ensures
            r.pos == pos,
            r.dim == self.dim,
    {
        Self { pos, dim: self.dim }
    }

    pub fn with_dim(&self, dim: [u32; 2]) -> (r: Self)
        ensures
            r.pos == self.pos,
            r.dim == dim,
    {
        Self { pos: self.pos, dim }
    }

    pub fn with_x(&self, x: i32) -> (r: Self)
        ensures
            r.pos@ == seq![x, self.pos[1]],
            r.dim == self.dim,
    {
        let r = Self { pos: [x, self.pos[1]], dim: self.dim };
        assert(r.pos@ =~= seq![x, self.pos[1]]);
        r
    }

    pub fn with_y(&self, y: i32) -> (r: Self)
        ensures
            r.pos@ == seq![self.pos[0], y],
            r.dim == self.dim,
    {
        let r = Self { pos: [self.pos[0], y], dim: self.dim };
        assert(r.pos@ =~= seq![self.pos[0], y]);
        r
    }

    pub fn with_width(&self, width: u32) -> (r: Self)
        ensures
            r.pos == self.pos,
            r.dim@ == seq![width, self.dim[1]],
    {
        let r = Self { pos: self.pos, dim: [width, self.dim[1]] };
        assert(r.dim@ =~= seq![width, self.dim[1]]);
        r
    }

    pub fn with_height(&self, height: u32) -> (r: Self)
        ensures
            r.pos == self.pos,
            r.dim@ == seq![self.dim[0], height],
    {
        let r = Self { pos: self.pos, dim: [self.dim[0], height] };
        assert(r.dim@ =~= seq![self.dim[0], height]);
        r
    }

    /// The same rectangle with another width; a negative width gives zero.
    pub fn with_iwidth(&self, width: i32) -> (r: Self)
        ensures
            r.pos == self.pos,
            r.dim[0] == clamp_len(width as int),
            r.dim[1] == self.dim[1],
    {
        self.with_width(clamp_to_u32(width))
    }

    /// The same rectangle with another height; a negative height gives zero.
    pub fn with_iheight(&self, height: i32) -> (r: Self)
        ensures
            r.pos == self.pos,
            r.dim[0] == self.dim[0],
            r.dim[1] == clamp_len(height as int),
    {
        self.with_height(clamp_to_u32(height))
    }

    /// The same rectangle with another size; negative lengths give zero.
    pub fn with_idim(&self, dim: [i32; 2]) -> (r: Self)
        ensures
            r.pos == self.pos,
            r.dim[0] == clamp_len(dim[0] as int),
            r.dim[1] == clamp_len(dim[1] as int),
    {
        self.with_dim([clamp_to_u32(dim[0]), clamp_to_u32(dim[1])])
    }

    /// The size grown by `delta`; a length that would fall below zero becomes zero.
    pub fn with_delta_dim(&self, delta: [i32; 2]) -> (r: Self)
        requires
            self.dim[0] + delta[0] <= i32::MAX,
            self.dim[1] + delta[1] <= i32::MAX,
            self.dim[0] <= i32::MAX,
            self.dim[1] <= i32::MAX,
        ensures
            r.pos == self.pos,
            r.dim[0] == clamp_len(self.dim[0] + delta[0]),
            r.dim[1] == clamp_len(self.dim[1] + delta[1]),
    {
        let d = self.idim();
        self.with_idim([d[0] + delta[0], d[1] + delta[1]])
    }

    pub fn with_delta_pos(&self, delta: [i32; 2]) -> (r: Self)
        requires
            i32::MIN <= self.pos[0] + delta[0] <= i32::MAX,
            i32::MIN <= self.pos[1] + delta[1] <= i32::MAX,
        ensures
            r.pos[0] == self.pos[0] + delta[0],
            r.pos[1] == self.pos[1] + delta[1],
            r.dim == self.dim,
    {
        Self { pos: [self.pos[0] + delta[0], self.pos[1] + delta[1]], dim: self.dim }
    }

    pub fn with_delta_x(&self, delta: i32) -> (r: Self)
        requires
            i32::MIN <= self.pos[0] + delta <= i32::MAX,
        ensures
            r.pos[0] == self.pos[0] + delta,
            r.pos[1] == self.pos[1],
            r.dim == self.dim,
    {
        Self { pos: [self.pos[0] + delta, self.pos[1]], dim: self.dim }
    }

    pub fn with_delta_y(&self, delta: i32) -> (r: Self)
        requires
            i32::MIN <= self.pos[1] + delta <= i32::MAX,
        ensures
            r.pos[0] == self.pos[0],
            r.pos[1] == self.pos[1] + delta,
            r.dim == self.dim,
    {
        Self { pos: [self.pos[0], self.pos[1] + delta], dim: self.dim }
    }

    pub fn with_delta_width(&self, delta: i32) -> (r: Self)
        requires
            self.dim[0] + delta <= i32::MAX,
            self.dim[0] <= i32::MAX,
            self.dim[1] <= i32::MAX,
        ensures
            r.pos == self.pos,
            r.dim[0] == clamp_len(self.dim[0] + delta),
            r.dim[1] == self.dim[1],
    {
        self.with_delta_dim([delta, 0])
    }

    pub fn with_delta_height(&self, delta: i32) -> (r: Self)
        requires
            self.dim[1] + delta <= i32::MAX,
            self.dim[0] <= i32::MAX,
            self.dim[1] <= i32::MAX,
        ensures
            r.pos == self.pos,
            r.dim[0] == self.dim[0],
            r.dim[1] == clamp_len(self.dim[1] + delta),
    {
        self.with_delta_dim([0, delta])
    }
}

} // verus!
