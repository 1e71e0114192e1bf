use draw::{
    ColorAlphaBlendMode, ColorAlphaBlendOverwrite, ColorAlphaBlendTransparent, ColorBlendMode,
    ColorBlendOpaque, ColorBlendOverwrite, ColorBlendTransparent, ImageBlendMode,
    ImageBlendOpaque, Rgba, SolidColorAlphaBlendOverwrite,
};

fn blend<M: ColorBlendMode>(mode: M, bg: Rgba, c: Rgba) -> Rgba {
    let mut p = bg;
    let cc = mode.prepare_color(c);
    mode.blend_color(&mut p, &cc);
    p
}

#[test]
fn transparent_blend_of_opaque_color_overwrites() {
    for bg in [Rgba([10, 20, 30, 0]), Rgba([200, 100, 50, 128]), Rgba([1, 2, 3, 255])] {
        let fg = Rgba([90, 80, 70, 255]);
        assert!(blend(ColorBlendTransparent, bg, fg) == blend(ColorBlendOverwrite, bg, fg));
    }
}

#[test]
fn transparent_blend_of_invisible_color_keeps_background() {
    let bg = Rgba([200, 100, 50, 128]);
    assert!(blend(ColorBlendTransparent, bg, Rgba([9, 9, 9, 0])) == bg);
}

#[test]
fn transparent_blend_mixes_by_alpha() {
    let r = blend(ColorBlendTransparent, Rgba([0, 0, 0, 255]), Rgba([255, 255, 255, 128]));
    assert!(r == Rgba([128, 128, 128, 255]));
    let r = blend(ColorBlendTransparent, Rgba([0, 0, 0, 0]), Rgba([100, 50, 0, 0]));
    assert!(r == Rgba([50, 25, 0, 0]));
}

#[test]
fn opaque_blend_uses_shifted_multiply() {
    let r = blend(ColorBlendOpaque, Rgba([100, 200, 0, 77]), Rgba([200, 100, 255, 128]));
    // dest + ((alpha * (src - dest)) >> 8)
    assert!(r == Rgba([150, 150, 127, 77]));
    let mut p = Rgba([100, 200, 0, 77]);
    ImageBlendOpaque.blend_color(&mut p, Rgba([200, 100, 255, 128]));
    assert!(p == r);
}

#[test]
fn coverage_scales_alpha() {
    let mut p = Rgba([0, 0, 0, 0]);
    ColorAlphaBlendOverwrite.blend_color(&mut p, &Rgba([10, 20, 30, 200]), 51);
    assert!(p == Rgba([10, 20, 30, 40]));
    SolidColorAlphaBlendOverwrite.blend_color(&mut p, &Rgba([10, 20, 30, 200]), 51);
    assert!(p == Rgba([10, 20, 30, 255]));
    let mut q = Rgba([0, 0, 0, 255]);
    ColorAlphaBlendTransparent.blend_solid_color(&mut q, &Rgba([255, 0, 0, 255]));
    assert!(q == Rgba([255, 0, 0, 255]));
}
