use crate::img::Image;
use vstd::prelude::*;

verus! {

broadcast use vstd::array::group_array_axioms;

/// How to cut an image into equal tiles: the tile size, the margins round the tiles, and
/// the spacing between them.
#[derive(Clone, Copy, Debug)]
pub struct SubImageParams {
    pub size: [u32; 2],
    pub margin_left: u32,
    pub margin_right: u32,
    pub margin_top: u32,
    pub margin_bottom: u32,
    pub spacing_horz: u32,
    pub spacing_vert: u32,
    pub transform_for_3dgfx: bool,
}

/// A margin given as one value for all sides, `[top/bottom, left/right]`, or
/// `[top, right, bottom, left]`.
pub trait MarginValue {
    spec fn margins_spec(&self) -> [u32; 4];

    /// The margins as `[top, right, bottom, left]`.
    fn expand_margins(&self) -> (r: [u32; 4])
        ensures
            r == self.margins_spec(),
    ;
}

impl MarginValue for u32 {
    open spec fn margins_spec(&self) -> [u32; 4] {
        [*self, *self, *self, *self]
    }

    fn expand_margins(&self) -> (r: [u32; 4]) {
        let m = *self;
        [m, m, m, m]
    }
}

impl MarginValue for [u32; 2] {
    open spec fn margins_spec(&self) -> [u32; 4] {
        [self[0], self[1], self[0], self[1]]
    }

    fn expand_margins(&self) -> (r: [u32; 4]) {
        [self[0], self[1], self[0], self[1]]
    }
}

impl MarginValue for [u32; 4] {
    open spec fn margins_spec(&self) -> [u32; 4] {
        *self
    }

    fn expand_margins(&self) -> (r: [u32; 4]) {
        *self
    }
}

/// A spacing given as one value for both directions, or as `[vertical, horizontal]`.
pub trait SpacingValue {
    spec fn spacings_spec(&self) -> [u32; 2];

    /// The spacings as `[vertical, horizontal]`.
    fn expand_spacings(&self) -> (r: [u32; 2])
        ensures
            r == self.spacings_spec(),
    ;
}

impl SpacingValue for u32 {
    open spec fn spacings_spec(&self) -> [u32; 2] {
        [*self, *self]
    }

    fn expand_spacings(&self) -> (r: [u32; 2]) {
        let s = *self;
        [s, s]
    }
}

impl SpacingValue for [u32; 2] {
    open spec fn spacings_spec(&self) -> [u32; 2] {
        *self
    }

    fn expand_spacings(&self) -> (r: [u32; 2]) {
        *self
    }
}

impl SubImageParams {
    /// Tiles of the given size, with no margin and no spacing.
    pub fn size(size_dim: [u32; 2]) -> (r: Self)
        ensures
            r.size == size_dim,
            r.margin_left == 0 && r.margin_right == 0 && r.margin_top == 0 && r.margin_bottom == 0,
            r.spacing_horz == 0 && r.spacing_vert == 0,
            !r.transform_for_3dgfx,
    {
        SubImageParams {
            size: size_dim,
            margin_left: 0,
            margin_right: 0,
            margin_top: 0,
            margin_bottom: 0,
            spacing_horz: 0,
            spacing_vert: 0,
            transform_for_3dgfx: false,
        }
    }

    pub fn with_margin_left(self, margin: u32) -> (r: Self)
        ensures
            r == (SubImageParams { margin_left: margin, ..self }),
    {
        SubImageParams { margin_left: margin, ..self }
    }

    pub fn with_margin_right(self, margin: u32) -> (r: Self)
        ensures
            r == (SubImageParams { margin_right: margin, ..self }),
    {
        SubImageParams { margin_right: margin, ..self }
    }

    pub fn with_margin_top(self, margin: u32) -> (r: Self)
        ensures
            r == (SubImageParams { margin_top: margin, ..self }),
    {
        SubImageParams { margin_top: margin, ..self }
    }

    pub fn with_margin_bottom(self, margin: u32) -> (r: Self)
        ensures
            r == (SubImageParams { margin_bottom: margin, ..self }),
    {
        SubImageParams { margin_bottom: margin, ..self }
    }

    /// Sets all four margins.
    pub fn with_margin<M: MarginValue>(self, margin: M) -> (r: Self)
        ensures
            r == (SubImageParams {
                margin_top: margin.margins_spec()[0],
                margin_right: margin.margins_spec()[1],
                margin_bottom: margin.margins_spec()[2],
                margin_left: margin.margins_spec()[3],
                ..self
            }),
    {
        let m = margin.expand_margins();
        SubImageParams {
            margin_top: m[0],
            margin_right: m[1],
            margin_bottom: m[2],
            margin_left: m[3],
            ..self
        }
    }

    pub fn with_spacing_horz(self, space: u32) -> (r: Self)
        ensures
            r == (SubImageParams { spacing_horz: space, ..self }),
    {
        SubImageParams { spacing_horz: space, ..self }
    }

    pub fn with_spacing_vert(self, space: u32) -> (r: Self)
        ensures
            r == (SubImageParams { spacing_vert: space, ..self }),
    {
        SubImageParams { spacing_vert: space, ..self }
    }

    /// Sets both spacings.
    pub fn with_spacing<S: SpacingValue>(self, space: S) -> (r: Self)
        ensures
            r == (SubImageParams {
                spacing_vert: space.spacings_spec()[0],
                spacing_horz: space.spacings_spec()[1],
                ..self
            }),
    {
        let s = space.expand_spacings();
        SubImageParams { spacing_vert: s[0], spacing_horz: s[1], ..self }
    }

    /// The tile positions in an image of size `img_dim`, row by row.
    pub fn iter_for_dimensions(&self, img_dim: [u32; 2]) -> (r: SubImageParamsIter)
        ensures
            r.params == *self,
            r.dimensions == img_dim,
            r.cur_pos@ == seq![self.margin_left, self.margin_top],
    {
        let r = SubImageParamsIter {
            params: *self,
            dimensions: img_dim,
            cur_pos: [self.margin_left, self.margin_top],
        };
        assert(r.cur_pos@ =~= seq![self.margin_left, self.margin_top]);
        r
    }
}

/// The tile at `pos` and the margin after it fit in an image of size `dim`.
pub open spec fn tile_fits(params: SubImageParams, dim: [u32; 2], pos: [u32; 2]) -> bool {
    pos[0] + params.size[0] + params.margin_right <= dim[0] && pos[1] + params.size[1]
        + params.margin_bottom <= dim[1]
}

/// The column after the tile at column `x`, and the spacing after it.
pub open spec fn next_x(x: u32, params: SubImageParams) -> u32 {
    x.saturating_add(params.size[0].saturating_add(params.spacing_horz))
}

/// Walks the tile positions of an image, left to right, then top to bottom.
pub struct SubImageParamsIter {
    pub params: SubImageParams,
    pub dimensions: [u32; 2],
    pub cur_pos: [u32; 2],
}

impl SubImageParamsIter {
    fn is_valid(&self) -> (r: bool)
        ensures
            r == tile_fits(self.params, self.dimensions, self.cur_pos),
    {
        let max_x = self.cur_pos[0] as u64 + self.params.size[0] as u64 + self.params.margin_right as u64;
        let max_y = self.cur_pos[1] as u64 + self.params.size[1] as u64 + self.params.margin_bottom as u64;
        max_x <= self.dimensions[0] as u64 && max_y <= self.dimensions[1] as u64
    }

    /// The next tile position, or `None` when the tiles are used up.
    pub fn next(&mut self) -> (r: Option<[u32; 2]>)
        ensures
            r is Some <==> tile_fits(old(self).params, old(self).dimensions, old(self).cur_pos),
            r is Some ==> r->0 == old(self).cur_pos,
            r is None ==> final(self).cur_pos == old(self).cur_pos,
            r is Some && tile_fits(old(self).params, old(self).dimensions, [next_x(old(self).cur_pos[0], old(self).params), old(self).cur_pos[1]])
                ==> final(self).cur_pos@ == seq![next_x(old(self).cur_pos[0], old(self).params), old(self).cur_pos[1]],
            r is Some && !tile_fits(old(self).params, old(self).dimensions, [next_x(old(self).cur_pos[0], old(self).params), old(self).cur_pos[1]])
                ==> final(self).cur_pos@ == seq![old(self).params.margin_left, old(self).cur_pos[1].saturating_add(old(self).params.size[1].saturating_add(old(self).params.spacing_vert))],
            final(self).params == old(self).params,
            final(self).dimensions == old(self).dimensions,
    {
        if self.is_valid() {
            let result = self.cur_pos;
            let step_x = self.params.size[0].saturating_add(self.params.spacing_horz);
            self.cur_pos = [self.cur_pos[0].saturating_add(step_x), self.cur_pos[1]];
            if !self.is_valid() {
                let step_y = self.params.size[1].saturating_add(self.params.spacing_vert);
                self.cur_pos = [self.params.margin_left, self.cur_pos[1].saturating_add(step_y)];
            }
            Some(result)
        } else {
            None
        }
    }
}

/// Tile parameters for one image, built up one setting at a time.
pub struct SubImageBuilder<'a> {
    img: &'a Image,
    params: SubImageParams,
}

impl<'a> SubImageBuilder<'a> {
    pub closed spec fn spec_params(&self) -> SubImageParams {
        self.params
    }

    pub closed spec fn spec_image(&self) -> &'a Image {
        self.img
    }

    pub(crate) fn new(img: &'a Image, size_dim: [u32; 2]) -> (r: Self)
        ensures
            r.spec_image() == img,
            r.spec_params().size == size_dim,
            r.spec_params().margin_left == 0 && r.spec_params().margin_right == 0,
            r.spec_params().margin_top == 0 && r.spec_params().margin_bottom == 0,
            r.spec_params().spacing_horz == 0 && r.spec_params().spacing_vert == 0,
            !r.spec_params().transform_for_3dgfx,
    {
        Self { img, params: SubImageParams::size(size_dim) }
    }

    /// The image that the tiles are cut from.
    pub fn image(&self) -> (r: &'a Image)
        ensures
            r == self.spec_image(),
    {
        self.img
    }

    /// The tile parameters set so far.
    pub fn params(&self) -> (r: SubImageParams)
        ensures
            r == self.spec_params(),
    {
        self.params
    }

    pub fn with_margin_left(self, margin: u32) -> (r: Self)
        ensures
            r.spec_image() == self.spec_image(),
            r.spec_params() == (SubImageParams { margin_left: margin, ..self.spec_params() }),
    {
        let p = self.params.with_margin_left(margin);
        Self { img: self.img, params: p }
    }

    pub fn with_margin_right(self, margin: u32) -> (r: Self)
        ensures
            r.spec_image() == self.spec_image(),
            r.spec_params() == (SubImageParams { margin_right: margin, ..self.spec_params() }),
    {
        let p = self.params.with_margin_right(margin);
        Self { img: self.img, params: p }
    }

    pub fn with_margin_top(self, margin: u32) -> (r: Self)
        ensures
            r.spec_image() == self.spec_image(),
            r.spec_params() == (SubImageParams { margin_top: margin, ..self.spec_params() }),
    {
        let p = self.params.with_margin_top(margin);
        Self { img: self.img, params: p }
    }

    pub fn with_margin_bottom(self, margin: u32) -> (r: Self)
        ensures
            r.spec_image() == self.spec_image(),
            r.spec_params() == (SubImageParams { margin_bottom: margin, ..self.spec_params() }),
    {
        let p = self.params.with_margin_bottom(margin);
        Self { img: self.img, params: p }
    }

    pub fn with_margin<M: MarginValue>(self, margin: M) -> (r: Self)
        ensures
            r.spec_image() == self.spec_image(),
            r.spec_params() == (SubImageParams {
                margin_top: margin.margins_spec()[0],
                margin_right: margin.margins_spec()[1],
                margin_bottom: margin.margins_spec()[2],
                margin_left: margin.margins_spec()[3],
                ..self.spec_params()
            }),
    {
        let p = self.params.with_margin(margin);
        Self { img: self.img, params: p }
    }

    pub fn with_spacing_horz(self, space: u32) -> (r: Self)
        ensures
            r.spec_image() == self.spec_image(),
            r.spec_params() == (SubImageParams { spacing_horz: space, ..self.spec_params() }),
    {
        let p = self.params.with_spacing_horz(space);
        Self { img: self.img, params: p }
    }

    pub fn with_spacing_vert(self, space: u32) -> (r: Self)
        ensures
            r.spec_image() == self.spec_image(),
            r.spec_params() == (SubImageParams { spacing_vert: space, ..self.spec_params() }),
    {
        let p = self.params.with_spacing_vert(space);
        Self { img: self.img, params: p }
    }

    pub fn with_spacing<S: SpacingValue>(self, space: S) -> (r: Self)
        ensures
            r.spec_image() == self.spec_image(),
            r.spec_params() == (SubImageParams {
                spacing_vert: space.spacings_spec()[0],
                spacing_horz: space.spacings_spec()[1],
                ..self.spec_params()
            }),
    {
        let p = self.params.with_spacing(space);
        Self { img: self.img, params: p }
    }

    pub fn with_transform_for_3dgfx(self) -> (r: Self)
        ensures
            r.spec_image() == self.spec_image(),
            r.spec_params() == (SubImageParams { transform_for_3dgfx: true, ..self.spec_params() }),
    {
        let p = SubImageParams { transform_for_3dgfx: true, ..self.params };
        Self { img: self.img, params: p }
    }
}

} // verus!
