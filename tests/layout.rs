use draw::{GlyphRef, HorzAlign, LineMetrics, TextLayoutBuilder};

fn fixed_glyph(ch: char) -> GlyphRef {
    let advance_width = if ch == ' ' { 6 } else { 10 };
    GlyphRef { handle: (0, ch as usize), ch, advance_width, render_width: advance_width as u32 }
}

fn metrics() -> LineMetrics {
    LineMetrics { line_height: 16, line_advance_height: 20, dist_to_baseline: 12 }
}

fn layout(text: &str, max_width: Option<u32>, align: HorzAlign) -> draw::TextLayout {
    let mut b = TextLayoutBuilder::new(max_width);
    b.set_font_size(16, metrics());
    b.set_horz_align(align);
    for ch in text.chars() {
        b.add_char(ch, fixed_glyph(ch), fixed_glyph(' '), 0);
    }
    b.build()
}

#[test]
fn single_line_when_text_fits() {
    let t = layout("AB CD", Some(100), HorzAlign::Left);
    assert_eq!(t.line_count(), 1);
    assert_eq!(t.required_dim()[0], 46);
    assert_eq!(t.line_width(0), 46);
    assert_eq!(t.line_offset(0), 0);
}

#[test]
fn second_word_wraps_at_narrow_width() {
    let t = layout("AB CD", Some(25), HorzAlign::Left);
    assert_eq!(t.line_count(), 2);
    assert_eq!(t.required_dim()[0], 20);
    assert_eq!(t.line_width(0), 20);
    assert_eq!(t.line_width(1), 20);
    assert_eq!(t.required_dim()[1], 40);
}

#[test]
fn overlong_word_stays_alone() {
    let t = layout("A BCDEFG H", Some(25), HorzAlign::Left);
    assert_eq!(t.line_count(), 3);
    assert_eq!(t.line_width(0), 10);
    assert_eq!(t.line_width(1), 60);
    assert_eq!(t.line_width(2), 10);
}

#[test]
fn center_and_right_offsets() {
    let t = layout("AB", Some(100), HorzAlign::Center);
    assert_eq!(t.line_offset(0), 40);
    let t = layout("AB", Some(100), HorzAlign::Right);
    assert_eq!(t.line_offset(0), 80);
}

#[test]
fn deferred_alignment_matches_given_width() {
    let deferred = layout("ABCD\nAB", None, HorzAlign::Right);
    assert_eq!(deferred.required_dim()[0], 40);
    let direct = layout("ABCD\nAB", Some(40), HorzAlign::Right);
    assert_eq!(deferred.line_count(), direct.line_count());
    for k in 0..deferred.line_count() {
        assert_eq!(deferred.line_offset(k), direct.line_offset(k));
    }
    assert_eq!(deferred.line_offset(1), 20);
}

#[test]
fn newline_starts_line_and_tab_is_four_spaces() {
    let t = layout("A\tB\n\nC", None, HorzAlign::Left);
    assert_eq!(t.line_count(), 3);
    assert_eq!(t.line_width(0), 10 + 24 + 10);
    assert_eq!(t.line_width(1), 0);
    assert_eq!(t.required_dim()[1], 60);
}
