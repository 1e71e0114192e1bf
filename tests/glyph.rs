use draw::{Glyph, GlyphInst, GlyphInstructionBuilder, Image, Rgba};

/// Replays an instruction stream onto a transparent buffer of the given size.
fn replay(inst: &[GlyphInst], w: usize, h: usize) -> Vec<u8> {
    let mut out = vec![0u8; w * h];
    let (mut x, mut y) = (0usize, 0usize);
    let mut put = |x: usize, y: usize, v: u8| {
        if x < w && y < h {
            out[y * w + x] = v;
        }
    };
    for i in inst {
        match *i {
            GlyphInst::NextRow => {
                y += 1;
                x = 0;
            }
            GlyphInst::NextNRow(n) => {
                y += n as usize;
                x = 0;
            }
            GlyphInst::XOffset(n) => x += n as usize,
            GlyphInst::Blend(v) => {
                put(x, y, v);
                x += 1;
            }
            GlyphInst::BlendN(v, n) => {
                for _ in 0..n {
                    put(x, y, v);
                    x += 1;
                }
            }
            GlyphInst::Solid(n) => {
                for _ in 0..n {
                    put(x, y, 255);
                    x += 1;
                }
            }
        }
    }
    out
}

fn encode(alpha: &[u8], w: u32, h: u32) -> Vec<GlyphInst> {
    let mut b = GlyphInstructionBuilder::with_capacity(alpha.len());
    for y in 0..h as usize {
        for x in 0..w as usize {
            b.next_val(alpha[y * w as usize + x]);
        }
        b.next_row();
    }
    b.into_glyph_instructions()
}

#[test]
fn round_trip_solid_and_gaps() {
    let alpha = vec![0, 255, 255, 0, 255, 0, 0, 0, 255, 255, 255, 255];
    let inst = encode(&alpha, 4, 3);
    assert_eq!(replay(&inst, 4, 3), alpha);
    assert!(inst.last() != Some(&GlyphInst::NextRow));
}

#[test]
fn round_trip_translucent_runs() {
    let alpha = vec![10, 10, 20, 255, 0, 7, 7, 7, 0, 0, 0, 0];
    let inst = encode(&alpha, 4, 3);
    assert_eq!(replay(&inst, 4, 3), alpha);
    assert_eq!(
        inst,
        vec![
            GlyphInst::BlendN(10, 2),
            GlyphInst::Blend(20),
            GlyphInst::Solid(1),
            GlyphInst::NextRow,
            GlyphInst::XOffset(1),
            GlyphInst::BlendN(7, 3),
        ]
    );
}

#[test]
fn glyph_from_image_pads_by_offset() {
    let mut img = Image::new([2, 1]);
    img.set([0u32, 0u32], Rgba([0, 0, 0, 255]));
    img.set([1u32, 0u32], Rgba([0, 0, 0, 100]));
    let g = Glyph::from_image('x', &img, [1, 1], Some(7), 5);
    assert_eq!(g.render_width, 3);
    assert_eq!(g.advance_width, 5);
    assert_eq!(replay(&g.inst, 3, 2), vec![0, 0, 0, 0, 255, 100]);
    let e = Glyph::empty(' ', None, 4);
    assert!(e.inst.is_empty());
}

#[test]
fn library_replay_restores_encoded_buffer() {
    let alpha = vec![0, 0, 255, 3, 3, 0, 255, 255, 128, 0, 0, 0, 0, 0, 0];
    let inst = draw::encode_alpha(&alpha, 5, 3);
    assert_eq!(draw::replay_alpha(&inst, 5, 3), alpha);
    let solid = vec![255u8; 6];
    let inst = draw::encode_alpha(&solid, 3, 2);
    assert_eq!(inst, vec![GlyphInst::Solid(3), GlyphInst::NextRow, GlyphInst::Solid(3)]);
    assert_eq!(draw::replay_alpha(&inst, 3, 2), solid);
    assert_eq!(draw::replay_alpha(&[GlyphInst::NextNRow(2), GlyphInst::Blend(9)].to_vec(), 2, 3), vec![0, 0, 0, 0, 9, 0]);
}

#[test]
fn drawn_glyph_reproduces_its_mask() {
    let mut mask = Image::new([2, 2]);
    mask.set([0u32, 0u32], Rgba([0, 0, 0, 255]));
    mask.set([1u32, 1u32], Rgba([0, 0, 0, 100]));
    let g = Glyph::from_image('x', &mask, [1, 0], None, 3);
    let mut img = Image::new([4, 3]);
    {
        let mut c = img.as_canvas();
        g.draw(&mut c, [0, 1], Rgba([9, 8, 7, 255]));
    }
    assert!(img.get([1u32, 1u32]) == Rgba([9, 8, 7, 255]));
    assert!(img.get([2u32, 2u32]) == Rgba([9, 8, 7, 100]));
    assert!(img.get([2u32, 1u32]) == Rgba([0, 0, 0, 0]));
    assert!(img.get([0u32, 0u32]) == Rgba([0, 0, 0, 0]));
}

#[test]
fn encoder_trims_trailing_rows_and_merges_runs() {
    let inst = draw::encode_alpha(&vec![255, 255, 0, 0, 0, 0], 2, 3);
    assert_eq!(inst, vec![GlyphInst::Solid(2)]);
}

#[test]
fn builder_drops_trailing_transparent_pixels() {
    let mut b = GlyphInstructionBuilder::with_capacity(8);
    for v in [255, 255, 128, 128, 0] {
        b.next_val(v);
    }
    b.next_row();
    b.next_val(7);
    b.next_row();
    assert_eq!(
        b.into_glyph_instructions(),
        vec![GlyphInst::Solid(2), GlyphInst::BlendN(128, 2), GlyphInst::NextRow, GlyphInst::Blend(7)]
    );
}
