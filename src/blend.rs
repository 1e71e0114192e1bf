use crate::rgba::{rgba_of, scaled_alpha, Rgba};
use vstd::prelude::*;

verus! {

broadcast use vstd::array::group_array_axioms;

/// `x / d` rounded to the nearest integer, halves rounded up.
pub open spec fn round_div(x: int, d: int) -> int {
    (2 * x + d) / (2 * d)
}

/// The weight of the background color in a transparent blend, times 255 * 255.
pub open spec fn weight_below(bg: Rgba, fg: Rgba) -> int {
    (255 - fg.0[3]) * bg.0[3]
}

/// The weight of the foreground color in a transparent blend, times 255 * 255.
pub open spec fn weight_above(fg: Rgba) -> int {
    255 * fg.0[3]
}

/// One color channel of a transparent blend: the channels mixed by the weights of the two
/// alphas, or half and half where both alphas are zero.
pub open spec fn mix_channel(bg: Rgba, fg: Rgba, i: int) -> u8 {
    let wb = weight_below(bg, fg);
    let wa = weight_above(fg);
    if wb + wa == 0 {
        round_div(bg.0[i] + fg.0[i], 2) as u8
    } else {
        round_div(wb * bg.0[i] + wa * fg.0[i], wb + wa) as u8
    }
}

/// The alpha of a transparent blend: `a_bg + (1 - a_bg) * a_fg`, on the 0..255 scale.
pub open spec fn mix_alpha(bg: Rgba, fg: Rgba) -> u8 {
    round_div(255 * bg.0[3] + (255 - bg.0[3]) * fg.0[3], 255) as u8
}

/// The color `fg` laid over `bg`, both possibly translucent.
pub open spec fn transparent_blend(bg: Rgba, fg: Rgba) -> Rgba {
    rgba_of(mix_channel(bg, fg, 0), mix_channel(bg, fg, 1), mix_channel(bg, fg, 2), mix_alpha(bg, fg))
}

/// One channel of the fast blend: `dest + ((alpha * (src - dest)) >> 8)`.
pub open spec fn fast_channel(alpha: u8, src: u8, dest: u8) -> u8 {
    (dest + (alpha * (src - dest)) / 256) as u8
}

/// `fg` laid over a background taken to be opaque; the background keeps its alpha.
pub open spec fn opaque_blend(bg: Rgba, fg: Rgba) -> Rgba {
    rgba_of(
        fast_channel(fg.0[3], fg.0[0], bg.0[0]),
        fast_channel(fg.0[3], fg.0[1], bg.0[1]),
        fast_channel(fg.0[3], fg.0[2], bg.0[2]),
        bg.0[3],
    )
}

/// `color` with its alpha scaled by the coverage `alpha / 255`.
pub open spec fn with_coverage(color: Rgba, alpha: u8) -> Rgba {
    rgba_of(color.0[0], color.0[1], color.0[2], scaled_alpha(color.0[3], alpha))
}

// ===================== Blending mode traits =====================

/// A way of painting one solid color over pixels.
pub trait ColorBlendMode: Copy {
    /// The pixel that results from painting `color` over `bg`.
    spec fn blend_spec(&self, bg: Rgba, color: Rgba) -> Rgba;

    /// Work done once per fill; the result is handed to `blend_color`.
    fn prepare_color(&self, color: Rgba) -> (r: Rgba)
        ensures
            r == color,
    ;

    fn blend_color(&self, bg: &mut Rgba, color_context: &Rgba)
        ensures
            *final(bg) == self.blend_spec(*old(bg), *color_context),
    ;
}

/// A way of painting one color over pixels, each with its own coverage.
pub trait ColorAlphaBlendMode: Copy {
    /// The pixel that results from painting `color` with coverage `alpha` over `bg`.
    spec fn blend_spec(&self, bg: Rgba, color: Rgba, alpha: u8) -> Rgba;

    fn prepare_color(&self, color: Rgba) -> (r: Rgba)
        ensures
            r == color,
    ;

    fn blend_color(&self, bg: &mut Rgba, color_context: &Rgba, alpha: u8)
        ensures
            *final(bg) == self.blend_spec(*old(bg), *color_context, alpha),
    ;

    fn blend_solid_color(&self, bg: &mut Rgba, color_context: &Rgba)
        ensures
            *final(bg) == self.blend_spec(*old(bg), *color_context, 255),
    {
        self.blend_color(bg, color_context, 255);
    }
}

/// A way of combining the pixels of two images.
pub trait ImageBlendMode: Copy {
    spec fn blend_spec(&self, bg: Rgba, color: Rgba) -> Rgba;

    fn blend_color(&self, bg: &mut Rgba, color: Rgba)
        ensures
            *final(bg) == self.blend_spec(*old(bg), color),
    ;
}

// ===================== Helper functions =====================

fn round_div_exec(x: u32, d: u32) -> (r: u32)
    requires
        0 < d <= 0x7fff_ffff,
        2 * x + d <= u32::MAX,
    ensures
        r == round_div(x as int, d as int),
{
    (2 * x + d) / (2 * d)
}

fn mix_channel_exec(wb: u32, wa: u32, cb: u8, ca: u8) -> (r: u8)
    requires
        wb <= 255 * 255,
        wa <= 255 * 255,
    ensures
        r == (if wb + wa == 0 {
            round_div(cb + ca, 2) as u8
        } else {
            round_div(wb * cb + wa * ca, wb + wa) as u8
        }),
{
    if wb + wa == 0 {
        round_div_exec(cb as u32 + ca as u32, 2) as u8
    } else {
        assert(wb * cb <= 255 * 255 * 255 && wa * ca <= 255 * 255 * 255) by (nonlinear_arith)
            requires
                wb <= 255 * 255,
                wa <= 255 * 255,
                cb <= 255,
                ca <= 255,
        ;
        round_div_exec(wb * (cb as u32) + wa * (ca as u32), wb + wa) as u8
    }
}

/// Lays `color` over `base`, mixing the channels by the weights of both alphas.
fn alpha_blend(base: &mut Rgba, color: Rgba)
    ensures
        *final(base) == transparent_blend(*old(base), color),
{
    let a_above = color.0[3] as u32;
    let a_below = base.0[3] as u32;
    assert((255 - a_above) * a_below <= 255 * 255) by (nonlinear_arith)
        requires
            a_above <= 255,
            a_below <= 255,
    ;
    let wb = (255 - a_above) * a_below;
    let wa = 255 * a_above;
    let r = mix_channel_exec(wb, wa, base.0[0], color.0[0]);
    let g = mix_channel_exec(wb, wa, base.0[1], color.0[1]);
    let b = mix_channel_exec(wb, wa, base.0[2], color.0[2]);
    assert((255 - a_below) * a_above <= 255 * 255) by (nonlinear_arith)
        requires
            a_above <= 255,
            a_below <= 255,
    ;
    let a = round_div_exec(255 * a_below + (255 - a_below) * a_above, 255);
    *base = Rgba([r, g, b, a as u8]);
}

fn fast_alpha_blend_opaque_calc(alpha: u8, src: u8, dest: u8) -> (r: u8)
    ensures
        r == fast_channel(alpha, src, dest),
{
    let a = alpha as u32;
    let s = src as u32;
    let d = dest as u32;
    if s >= d {
        assert(a * (s - d) <= 255 * 255) by (nonlinear_arith)
            requires
                a <= 255,
                s - d <= 255,
        ;
        let q = a * (s - d) / 256;
        assert(q <= s - d) by (nonlinear_arith)
            requires
                q == a * (s - d) / 256,
                a <= 255,
                s >= d,
        ;
        (d + q) as u8
    } else {
        assert(a * (d - s) <= 255 * 255) by (nonlinear_arith)
            requires
                a <= 255,
                d - s <= 255,
        ;
        let q = (a * (d - s) + 255) / 256;
        proof {
            let y = a as int * (d as int - s as int);
            let x = a as int * (s as int - d as int);
            assert(x == -y) by (nonlinear_arith)
                requires
                    x == a as int * (s as int - d as int),
                    y == a as int * (d as int - s as int),
            ;
            assert(x / 256 == -(q as int)) by (nonlinear_arith)
                requires
                    x == -y,
                    y == a * (d - s),
                    q == (a * (d - s) + 255) / 256,
                    a * (d - s) >= 0,
            ;
            assert(q <= d - s) by (nonlinear_arith)
                requires
                    q == (a * (d - s) + 255) / 256,
                    a <= 255,
                    d > s,
            ;
        }
        (d - q) as u8
    }
}

/// Lays `color` over `base` with the fast integer formula; `base` keeps its alpha.
fn fast_alpha_blend_opaque(base: &mut Rgba, color: Rgba)
    ensures
        *final(base) == opaque_blend(*old(base), color),
{
    let a = color.0[3];
    let r = fast_alpha_blend_opaque_calc(a, color.0[0], base.0[0]);
    let g = fast_alpha_blend_opaque_calc(a, color.0[1], base.0[1]);
    let b = fast_alpha_blend_opaque_calc(a, color.0[2], base.0[2]);
    *base = Rgba([r, g, b, base.0[3]]);
}

// ===================== ColorBlendMode implementations =====================

/// Replaces the pixel with the color.
#[derive(Copy, Clone, Debug)]
pub struct ColorBlendOverwrite;

impl ColorBlendMode for ColorBlendOverwrite {
    open spec fn blend_spec(&self, bg: Rgba, color: Rgba) -> Rgba {
        color
    }

    fn prepare_color(&self, color: Rgba) -> (r: Rgba) {
        color
    }

    fn blend_color(&self, bg: &mut Rgba, color_context: &Rgba) {
        *bg = *color_context;
    }
}

/// Blends with the fast formula, for opaque backgrounds.
#[derive(Copy, Clone, Debug)]
pub struct ColorBlendOpaque;

impl ColorBlendMode for ColorBlendOpaque {
    open spec fn blend_spec(&self, bg: Rgba, color: Rgba) -> Rgba {
        opaque_blend(bg, color)
    }

    fn prepare_color(&self, color: Rgba) -> (r: Rgba) {
        color
    }

    fn blend_color(&self, bg: &mut Rgba, color_context: &Rgba) {
        fast_alpha_blend_opaque(bg, *color_context);
    }
}

/// Blends with full alpha compositing.
#[derive(Copy, Clone, Debug)]
pub struct ColorBlendTransparent;

impl ColorBlendMode for ColorBlendTransparent {
    open spec fn blend_spec(&self, bg: Rgba, color: Rgba) -> Rgba {
        transparent_blend(bg, color)
    }

    fn prepare_color(&self, color: Rgba) -> (r: Rgba) {
        color
    }

    fn blend_color(&self, bg: &mut Rgba, color_context: &Rgba) {
        alpha_blend(bg, *color_context);
    }
}

// ===================== ColorAlphaBlendMode implementations =====================

/// Replaces the pixel with the color, fully opaque whatever the coverage.
#[derive(Copy, Clone, Debug)]
pub struct SolidColorAlphaBlendOverwrite;

impl ColorAlphaBlendMode for SolidColorAlphaBlendOverwrite {
    open spec fn blend_spec(&self, bg: Rgba, color: Rgba, alpha: u8) -> Rgba {
        rgba_of(color.0[0], color.0[1], color.0[2], 255)
    }

    fn prepare_color(&self, color: Rgba) -> (r: Rgba) {
        color
    }

    fn blend_color(&self, bg: &mut Rgba, color_context: &Rgba, alpha: u8) {
        *bg = *color_context;
        bg.set_alpha(255);
    }
}

/// Replaces the pixel with the color, its alpha scaled by the coverage.
#[derive(Copy, Clone, Debug)]
pub struct ColorAlphaBlendOverwrite;

impl ColorAlphaBlendMode for ColorAlphaBlendOverwrite {
    open spec fn blend_spec(&self, bg: Rgba, color: Rgba, alpha: u8) -> Rgba {
        with_coverage(color, alpha)
    }

    fn prepare_color(&self, color: Rgba) -> (r: Rgba) {
        color
    }

    fn blend_color(&self, bg: &mut Rgba, color_context: &Rgba, alpha: u8) {
        *bg = color_context.relative_alpha(alpha);
    }
}

/// Blends with the fast formula after scaling the alpha by the coverage.
#[derive(Copy, Clone, Debug)]
pub struct ColorAlphaBlendOpaque;

impl ColorAlphaBlendMode for ColorAlphaBlendOpaque {
    open spec fn blend_spec(&self, bg: Rgba, color: Rgba, alpha: u8) -> Rgba {
        opaque_blend(bg, with_coverage(color, alpha))
    }

    fn prepare_color(&self, color: Rgba) -> (r: Rgba) {
        color
    }

    fn blend_color(&self, bg: &mut Rgba, color_context: &Rgba, alpha: u8) {
        fast_alpha_blend_opaque(bg, color_context.relative_alpha(alpha));
    }
}

/// Blends with full alpha compositing after scaling the alpha by the coverage.
#[derive(Copy, Clone, Debug)]
pub struct ColorAlphaBlendTransparent;

impl ColorAlphaBlendMode for ColorAlphaBlendTransparent {
    open spec fn blend_spec(&self, bg: Rgba, color: Rgba, alpha: u8) -> Rgba {
        transparent_blend(bg, with_coverage(color, alpha))
    }

    fn prepare_color(&self, color: Rgba) -> (r: Rgba) {
        color
    }

    fn blend_color(&self, bg: &mut Rgba, color_context: &Rgba, alpha: u8) {
        alpha_blend(bg, color_context.relative_alpha(alpha));
    }
}

// ===================== ImageBlendMode implementations =====================

/// Replaces the pixel with the image's pixel.
#[derive(Copy, Clone, Debug)]
pub struct ImageBlendOverwrite;

impl ImageBlendMode for ImageBlendOverwrite {
    open spec fn blend_spec(&self, bg: Rgba, color: Rgba) -> Rgba {
        color
    }

    fn blend_color(&self, bg: &mut Rgba, color: Rgba) {
        *bg = color;
    }
}

/// Blends the image's pixel with the fast formula.
#[derive(Copy, Clone, Debug)]
pub struct ImageBlendOpaque;

impl ImageBlendMode for ImageBlendOpaque {
    open spec fn blend_spec(&self, bg: Rgba, color: Rgba) -> Rgba {
        opaque_blend(bg, color)
    }

    fn blend_color(&self, bg: &mut Rgba, color: Rgba) {
        fast_alpha_blend_opaque(bg, color);
    }
}

/// Blends the image's pixel with full alpha compositing.
#[derive(Copy, Clone, Debug)]
pub struct ImageBlendTransparent;

impl ImageBlendMode for ImageBlendTransparent {
    open spec fn blend_spec(&self, bg: Rgba, color: Rgba) -> Rgba {
        transparent_blend(bg, color)
    }

    fn blend_color(&self, bg: &mut Rgba, color: Rgba) {
        alpha_blend(bg, color);
    }
}

// ===================== Laws =====================

/// A transparent blend of a fully opaque color gives that color, as overwriting does; a
/// fully transparent color leaves a background that has any opacity unchanged.
pub proof fn lemma_transparent_blend_extremes(bg: Rgba, fg: Rgba)
    ensures
        fg.0[3] == 255 ==> transparent_blend(bg, fg) == fg,
        fg.0[3] == 0 && bg.0[3] > 0 ==> transparent_blend(bg, fg) == bg,
{
    if fg.0[3] == 255 {
        assert(weight_below(bg, fg) == 0);
        assert(weight_above(fg) == 65025);
        assert forall|i: int| 0 <= i < 3 implies #[trigger] mix_channel(bg, fg, i) == fg.0[i] by {
            let c = fg.0[i] as int;
            assert(round_div(65025 * c, 65025) == c) by (nonlinear_arith);
        }
        assert(mix_alpha(bg, fg) == 255) by (nonlinear_arith)
            requires
                fg.0[3] == 255,
                mix_alpha(bg, fg) == round_div(255 * bg.0[3] + (255 - bg.0[3]) * fg.0[3], 255) as u8,
        ;
        assert(transparent_blend(bg, fg).0 =~= fg.0);
    }
    if fg.0[3] == 0 && bg.0[3] > 0 {
        let b = bg.0[3] as int;
        assert(weight_below(bg, fg) == 255 * b);
        assert(weight_above(fg) == 0);
        assert forall|i: int| 0 <= i < 3 implies #[trigger] mix_channel(bg, fg, i) == bg.0[i] by {
            let c = bg.0[i] as int;
            assert(round_div(255 * b * c, 255 * b) == c) by (nonlinear_arith)
                requires
                    b > 0,
            ;
        }
        assert(round_div(255 * b, 255) == b) by (nonlinear_arith);
        assert(mix_alpha(bg, fg) == b);
        assert(transparent_blend(bg, fg).0 =~= bg.0);
    }
}

} // verus!
