use draw::{
    FontCache, Glyph, HorzAlign, Image, LineMetrics, Missing, RenderedCharInstruction, RenderedChars,
    Rgba, TextLayoutBuilder,
};

fn metrics() -> LineMetrics {
    LineMetrics { line_height: 16, line_advance_height: 20, dist_to_baseline: 12 }
}

fn fixed(ch: char) -> Glyph {
    let adv = if ch == ' ' { 6 } else { 10 };
    Glyph::empty(ch, Some(ch as u32), adv)
}

#[test]
fn add_text_reports_missing_glyphs_in_composed_form() {
    let cache = FontCache::new();
    let mut b = TextLayoutBuilder::new(None);
    b.set_font_size(16, metrics());
    let missing = b.add_text(&cache, "e\u{301}").unwrap_err();
    assert_eq!(missing, vec![Missing::Glyph(16, '\u{e9}')]);
}

#[test]
fn add_text_after_preload_lays_out() {
    let mut cache = FontCache::new();
    let mut b = TextLayoutBuilder::new(Some(25));
    b.set_font_size(16, metrics());
    b.set_horz_align(HorzAlign::Left);
    let missing = b.add_text(&cache, "AB CD").unwrap_err();
    for m in missing {
        match m {
            Missing::Glyph(size, ch) => {
                cache.add_glyph(size, ch, fixed(ch));
            }
            Missing::Kerning(size, a, c) => cache.add_kerning(size, a, c, 0),
        }
    }
    assert!(b.add_text(&cache, "AB CD").is_ok());
    let t = b.build();
    assert_eq!(t.line_count(), 2);
    assert_eq!(t.required_dim()[0], 20);
    let mut img = Image::new([40, 40]);
    let mut c = img.as_canvas();
    t.render([0, 0], 25, &mut c, &cache);
}

#[test]
fn links_are_cut_out_with_boxes() {
    let mut cache = FontCache::new();
    for ch in ['A', 'B', 'C', ' '] {
        let w = if ch == ' ' { 6 } else { 10 };
        let g = Glyph::from_image(ch, &Image::new([w, 1]), [0, 0], Some(ch as u32), w as i32);
        cache.add_glyph(16, ch, g);
    }
    for (a, c) in [('A', 'B'), ('B', 'C'), ('C', 'A'), ('A', 'A'), ('B', 'B')] {
        cache.add_kerning(16, a, c, 0);
    }
    let mut b = TextLayoutBuilder::new(Some(25));
    b.set_font_size(16, metrics());
    b.add_text(&cache, "A ").unwrap();
    b.link_start("https://example.org".to_string());
    b.add_text(&cache, "BC").unwrap();
    b.link_end();
    let blank = cache.cached_glyph(16, ' ').unwrap();
    let (layout, links) = b.build_with_link_extract(blank);
    assert_eq!(links.len(), 1);
    assert_eq!(links[0].link_to(), "https://example.org");
    assert_eq!(links[0].glyphs().len(), 2);
    assert_eq!(links[0].bounding_boxes().len(), 1);
    let (pos, dim) = links[0].bounding_boxes()[0].rect_for_width(25);
    assert_eq!(pos, [0, 20]);
    assert_eq!(dim, [20, 16]);
    assert_eq!(layout.glyphs()[1].0.ch, ' ');
}

#[test]
fn cache_only_render_wraps_at_a_space() {
    let mut cache = FontCache::new();
    assert!(cache.cache_only_render("AB", 16, None, 20).is_none());
    for ch in ['A', 'B', ' '] {
        cache.add_glyph(16, ch, Glyph::empty(ch, Some(ch as u32), 10));
    }
    for a in ['A', 'B', ' '] {
        for c in ['A', 'B', ' '] {
            cache.add_kerning(16, a, c, 0);
        }
    }
    let t = cache.cache_only_render("AB BA", 16, None, 20).unwrap();
    assert_eq!(t.get_total_height(), 20);
    assert_eq!(t.get_instructions().len(), 5);
    let t = cache.cache_only_render("AB\nBA", 16, None, 20).unwrap();
    assert_eq!(t.get_total_height(), 40);
    let chars = RenderedChars::from_rendered_text(&t);
    assert_eq!(chars.get_instructions()[0], RenderedCharInstruction::RenderChar { ch: 'A', render_width: 0, advance_width: 10 });
    let back = cache.cache_only_chars_to_text(&chars, 16).unwrap();
    assert_eq!(back.get_instructions().len(), t.get_instructions().len());
    let mut img = Image::new([30, 30]);
    let mut c = img.as_canvas();
    c.draw_rendered_text_using(draw::ColorAlphaBlendTransparent, &t, &cache, Rgba([0, 0, 0, 255]), [0, 0], 0);
}

fn wide_cache(chars: &[char]) -> FontCache {
    let mut cache = FontCache::new();
    for &ch in chars {
        let w = if ch == ' ' { 6 } else { 10 };
        let g = Glyph::from_image(ch, &Image::new([w, 1]), [0, 0], Some(ch as u32), w as i32);
        cache.add_glyph(16, ch, g);
    }
    for &a in chars {
        for &c in chars {
            cache.add_kerning(16, a, c, 0);
        }
    }
    cache
}

#[test]
fn cache_only_render_keeps_a_lone_word_whole() {
    let cache = wide_cache(&['A', 'B', 'C', 'D']);
    let t = cache.cache_only_render("ABCD", 16, Some(25), 20).unwrap();
    assert_eq!(t.get_instructions().len(), 4);
    assert_eq!(t.get_total_height(), 20);
    assert_eq!(t.get_total_width(), 40);
}

#[test]
fn cache_only_render_wraps_the_second_word() {
    let cache = wide_cache(&['A', 'B', 'C', 'D', ' ']);
    let t = cache.cache_only_render("AB CD", 16, Some(100), 20).unwrap();
    assert_eq!(t.get_instructions().len(), 5);
    assert_eq!(t.get_total_width(), 46);
    let t = cache.cache_only_render("AB CD", 16, Some(25), 20).unwrap();
    assert_eq!(t.get_total_height(), 40);
    assert!(matches!(t.get_instructions()[3], draw::RenderedTextInstruction::NextLine(20, draw::NextLineReason::WordWrap)));
    let t = cache.cache_only_render("A\nB", 16, None, 20).unwrap();
    assert!(matches!(t.get_instructions()[1], draw::RenderedTextInstruction::NextLine(20, draw::NextLineReason::LineBreak)));
    assert!(cache.render_missing("AB CD", 16).is_empty());
    assert_eq!(cache.render_missing("AE", 16), vec![Missing::Glyph(16, 'E')]);
}

#[test]
fn glyphs_without_font_id_are_drawn() {
    let mut cache = FontCache::new();
    cache.add_glyph(16, 'A', Glyph::empty('A', None, 10));
    cache.add_glyph(16, 'B', Glyph::empty('B', None, 10));
    let t = cache.cache_only_render("AB", 16, None, 20).unwrap();
    assert_eq!(t.get_instructions().len(), 2);
    assert_eq!(t.get_total_width(), 20);
}
