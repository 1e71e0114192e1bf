use crate::blend::ColorAlphaBlendMode;
use crate::canvas::Canvas;
use crate::font::font_cache::{glyph_key, FontCache, Missing};
use crate::font::glyph::{cell, draw_inst_mode, glyph_ok, mode_painted, mode_pixel, GlyphInst};
use crate::font::glyph_builder::decode_rows;
use crate::font::layout::{clamp_i32, width_i32, GlyphDraw};
use crate::img::Image;
use crate::font::layout::{sat_add, width_to_i32, GlyphRef};
use crate::rgba::Rgba;
use crate::font::chars::RenderableCharacters;
use vstd::prelude::*;

verus! {

/// Why a rendered text moves to a new line.
#[derive(Clone, Copy, Debug, PartialEq, Eq, Structural, Hash)]
pub enum NextLineReason {
    WordWrap,
    LineBreak,
}

/// One step of drawing a rendered text.
#[derive(Clone, Copy, Debug)]
pub enum RenderedTextInstruction {
    /// Draw a glyph at the cursor, then move the cursor by its advance width.
    RenderGlyph(GlyphRef),
    /// Move the cursor right by a kerning value.
    Kerning(i32),
    /// Go down by the given height, to the start of the next line.
    NextLine(u32, NextLineReason),
}

/// A text laid out as a list of drawing steps, with the size it needs.
pub struct RenderedText {
    total_width: u32,
    total_height: u32,
    instructions: Vec<RenderedTextInstruction>,
}

impl RenderedText {
    pub closed spec fn spec_total_width(&self) -> u32 {
        self.total_width
    }

    pub closed spec fn spec_total_height(&self) -> u32 {
        self.total_height
    }

    pub closed spec fn spec_instructions(&self) -> Seq<RenderedTextInstruction> {
        self.instructions@
    }

    pub fn new(total_width: u32, total_height: u32, instructions: Vec<RenderedTextInstruction>) -> (r: RenderedText)
        ensures
            r.spec_total_width() == total_width,
            r.spec_total_height() == total_height,
            r.spec_instructions() == instructions@,
    {
        RenderedText { total_width, total_height, instructions }
    }

    pub fn get_total_width(&self) -> (r: u32)
        ensures
            r == self.spec_total_width(),
    {
        self.total_width
    }

    pub fn get_total_height(&self) -> (r: u32)
        ensures
            r == self.spec_total_height(),
    {
        self.total_height
    }

    pub fn get_instructions(&self) -> (r: &Vec<RenderedTextInstruction>)
        ensures
            r@ == self.spec_instructions(),
    {
        &self.instructions
    }
}

/// One step of a rendered text, with the character in place of the glyph.
#[derive(Clone, Copy, Debug, PartialEq, Eq, Structural, Hash)]
pub enum RenderedCharInstruction {
    RenderChar { ch: char, render_width: u32, advance_width: i32 },
    Kerning(i32),
    NextLine(u32, NextLineReason),
}

/// The character view of `i`.
pub open spec fn char_instruction(i: RenderedTextInstruction) -> RenderedCharInstruction {
    match i {
        RenderedTextInstruction::RenderGlyph(g) => RenderedCharInstruction::RenderChar {
            ch: g.ch,
            render_width: g.render_width,
            advance_width: g.advance_width,
        },
        RenderedTextInstruction::Kerning(dx) => RenderedCharInstruction::Kerning(dx),
        RenderedTextInstruction::NextLine(dy, r) => RenderedCharInstruction::NextLine(dy, r),
    }
}

/// A rendered text that names characters instead of cached glyphs, to be kept apart from
/// any cache.
#[derive(Clone, Debug)]
pub struct RenderedChars {
    total_width: u32,
    total_height: u32,
    instructions: Vec<RenderedCharInstruction>,
}

impl RenderedChars {
    pub closed spec fn spec_total_width(&self) -> u32 {
        self.total_width
    }

    pub closed spec fn spec_total_height(&self) -> u32 {
        self.total_height
    }

    pub closed spec fn spec_instructions(&self) -> Seq<RenderedCharInstruction> {
        self.instructions@
    }

    pub fn new(total_width: u32, total_height: u32, instructions: Vec<RenderedCharInstruction>) -> (r: Self)
        ensures
            r.spec_total_width() == total_width,
            r.spec_total_height() == total_height,
            r.spec_instructions() == instructions@,
    {
        Self { total_width, total_height, instructions }
    }

    /// The character view of a rendered text.
    pub fn from_rendered_text(t: &RenderedText) -> (r: Self)
        ensures
            r.spec_total_width() == t.spec_total_width(),
            r.spec_total_height() == t.spec_total_height(),
            r.spec_instructions().len() == t.spec_instructions().len(),
            forall|i: int| 0 <= i < t.spec_instructions().len() ==> #[trigger] r.spec_instructions()[i]
                == char_instruction(t.spec_instructions()[i]),
    {
        let mut instructions: Vec<RenderedCharInstruction> = Vec::new();
        let mut k: usize = 0;
        while k < t.instructions.len()
            invariant
                k <= t.instructions.len(),
                instructions.len() == k,
                forall|i: int| 0 <= i < k ==> #[trigger] instructions@[i] == char_instruction(t.instructions@[i]),
            decreases t.instructions.len() - k,
        {
            let ci = match t.instructions[k] {
                RenderedTextInstruction::RenderGlyph(g) => RenderedCharInstruction::RenderChar {
                    ch: g.ch,
                    render_width: g.render_width,
                    advance_width: g.advance_width,
                },
                RenderedTextInstruction::Kerning(dx) => RenderedCharInstruction::Kerning(dx),
                RenderedTextInstruction::NextLine(dy, r) => RenderedCharInstruction::NextLine(dy, r),
            };
            instructions.push(ci);
            k = k + 1;
        }
        Self { total_width: t.total_width, total_height: t.total_height, instructions }
    }

    pub fn get_total_width(&self) -> (r: u32)
        ensures
            r == self.spec_total_width(),
    {
        self.total_width
    }

    pub fn get_total_height(&self) -> (r: u32)
        ensures
            r == self.spec_total_height(),
    {
        self.total_height
    }

    pub fn get_instructions(&self) -> (r: &Vec<RenderedCharInstruction>)
        ensures
            r@ == self.spec_instructions(),
    {
        &self.instructions
    }
}

/// `c` is a control character (Unicode category Cc).
pub open spec fn is_control_spec(c: char) -> bool {
    (c as u32) <= 0x1f || (0x7f <= (c as u32) && (c as u32) <= 0x9f)
}

fn is_control(c: char) -> (r: bool)
    ensures
        r == is_control_spec(c),
{
    let v = c as u32;
    v <= 0x1f || (0x7f <= v && v <= 0x9f)
}

/// Where the word that ends `data` starts, scanning back from `cur`: just after a space or
/// hyphen glyph; none past a line break or the first instruction.
pub open spec fn break_from(data: Seq<RenderedTextInstruction>, cur: int) -> Option<int>
    decreases cur,
{
    if cur <= 0 || cur >= data.len() {
        None
    } else {
        match data[cur] {
            RenderedTextInstruction::RenderGlyph(g) => if g.ch == ' ' || g.ch == '-' {
                Some(cur + 1)
            } else {
                break_from(data, cur - 1)
            },
            RenderedTextInstruction::Kerning(_) => break_from(data, cur - 1),
            RenderedTextInstruction::NextLine(_, _) => None,
        }
    }
}

/// Where the word that ends the instructions starts: just after the last space or hyphen
/// before the final glyph, on the current line.
pub open spec fn break_point(data: Seq<RenderedTextInstruction>) -> Option<int> {
    if data.len() <= 1 {
        None
    } else {
        break_from(data, data.len() - 2)
    }
}

fn cur_line_break_point(data: &Vec<RenderedTextInstruction>) -> (r: Option<usize>)
    ensures
        r is Some <==> break_point(data@) is Some,
        r is Some ==> r->0 == break_point(data@)->0 && 1 <= r->0 < data.len(),
{
    if data.len() <= 1 {
        return None;
    }
    let mut cur = data.len() - 2;
    while cur > 0
        invariant
            cur + 2 <= data.len(),
            break_point(data@) == break_from(data@, cur as int),
        decreases cur,
    {
        match data[cur] {
            RenderedTextInstruction::RenderGlyph(g) => {
                if g.ch == ' ' || g.ch == '-' {
                    return Some(cur + 1);
                }
            },
            RenderedTextInstruction::Kerning(..) => {},
            RenderedTextInstruction::NextLine(..) => {
                return None;
            },
        }
        cur = cur - 1;
    }
    None
}

/// What one instruction adds to a line's width.
pub open spec fn inst_width(i: RenderedTextInstruction) -> u32 {
    match i {
        RenderedTextInstruction::RenderGlyph(g) => g.advance_width as u32,
        RenderedTextInstruction::Kerning(len) => len as u32,
        RenderedTextInstruction::NextLine(_, _) => 0,
    }
}

/// The width of instructions `from..to`: advances and kerning, saturating.
pub open spec fn width_between(data: Seq<RenderedTextInstruction>, from: int, to: int) -> u32
    decreases to - from,
{
    if to <= from {
        0
    } else {
        width_between(data, from, to - 1).saturating_add(inst_width(data[to - 1]))
    }
}

fn width_from(data: &Vec<RenderedTextInstruction>, from: usize) -> (r: u32)
    requires
        from <= data.len(),
    ensures
        r == width_between(data@, from as int, data.len() as int),
{
    let mut w: u32 = 0;
    let mut i = from;
    while i < data.len()
        invariant
            from <= i <= data.len(),
            w == width_between(data@, from as int, i as int),
        decreases data.len() - i,
    {
        match data[i] {
            RenderedTextInstruction::RenderGlyph(g) => {
                w = w.saturating_add(g.advance_width as u32);
            },
            RenderedTextInstruction::Kerning(len) => {
                w = w.saturating_add(len as u32);
            },
            RenderedTextInstruction::NextLine(..) => {},
        }
        i = i + 1;
    }
    w
}

/// The state of the character-by-character layout.
pub struct RenderState {
    pub inst: Seq<RenderedTextInstruction>,
    pub row_width: u32,
    pub result_width: u32,
    pub result_height: u32,
    /// The last character, if its glyph has a font identifier.
    pub last_char: Option<char>,
    pub extra: u32,
}

impl FontCache {
    /// The layout state before any character.
    pub open spec fn render_start(line_advance_height: u32) -> RenderState {
        RenderState {
            inst: Seq::empty(),
            row_width: 0,
            result_width: 0,
            result_height: line_advance_height,
            last_char: None,
            extra: 0,
        }
    }

    /// The layout state after character `c`, or `None` where the cache lacks its glyph or
    /// the kerning after the last character with a glyph identifier.
    pub open spec fn render_step(&self, size: u32, max_w: u32, lah: u32, s: RenderState, c: char) -> Option<RenderState> {
        let key = glyph_key(size, c);
        if is_control_spec(c) {
            if c == '\n' {
                Some(RenderState {
                    inst: s.inst.push(RenderedTextInstruction::NextLine(lah, NextLineReason::LineBreak)),
                    result_height: s.result_height.saturating_add(lah),
                    result_width: if s.row_width > s.result_width { s.row_width } else { s.result_width },
                    row_width: 0,
                    ..s
                })
            } else {
                Some(s)
            }
        } else if !self.cache().entries().contains_key(key) {
            None
        } else {
            let g = self.cached_ref(size, c);
            let advance = g.advance_width as u32;
            let extra: u32 = if advance < g.render_width { (g.render_width - advance) as u32 } else { 0 };
            let has_id = self.cache().entries()[key].id is Some;
            let kerned = has_id && s.last_char is Some;
            if kerned && self.kerning_of(size, s.last_char->0, c) is None {
                None
            } else {
                let k: i32 = if kerned { self.kerning_of(size, s.last_char->0, c)->0 } else { 0 };
                let inst1 = if kerned && k > 0 {
                    s.inst.push(RenderedTextInstruction::Kerning(k))
                } else {
                    s.inst
                };
                let row1: u32 = if kerned && k > 0 { s.row_width.saturating_add(k as u32) } else { s.row_width };
                let inst2 = inst1.push(RenderedTextInstruction::RenderGlyph(g));
                let last = if has_id { Some(c) } else { None };
                if row1.saturating_add(g.render_width) > max_w && break_point(inst2) is Some {
                    let wrap = RenderedTextInstruction::NextLine(lah, NextLineReason::WordWrap);
                    let b = break_point(inst2)->0;
                    let inst3 = inst2.insert(b, wrap);
                    let row3 = width_between(inst3, b + 1, inst3.len() as int);
                    Some(RenderState {
                        inst: inst3,
                        row_width: row3,
                        result_width: max_w,
                        result_height: s.result_height.saturating_add(lah),
                        last_char: last,
                        extra,
                    })
                } else {
                    Some(RenderState { inst: inst2, row_width: row1.saturating_add(advance), last_char: last, extra, ..s })
                }
            }
        }
    }

    /// The layout state after the characters `cs`, or `None` where the cache lacks something.
    pub open spec fn render_fold(&self, size: u32, max_w: u32, lah: u32, cs: Seq<char>) -> Option<RenderState>
        decreases cs.len(),
    {
        if cs.len() == 0 {
            Some(Self::render_start(lah))
        } else {
            match self.render_fold(size, max_w, lah, cs.drop_last()) {
                Some(s) => self.render_step(size, max_w, lah, s, cs.last()),
                None => None,
            }
        }
    }

    /// The total width once the layout ends in state `s`.
    pub open spec fn render_total_width(s: RenderState) -> u32 {
        let row = s.row_width.saturating_add(s.extra);
        if row > s.result_width { row } else { s.result_width }
    }

    proof fn lemma_fold_none(&self, size: u32, max_w: u32, lah: u32, cs: Seq<char>, i: int)
        requires
            0 <= i <= cs.len(),
            self.render_fold(size, max_w, lah, cs.subrange(0, i)) is None,
        ensures
            self.render_fold(size, max_w, lah, cs) is None,
        decreases cs.len() - i,
    {
        if i == cs.len() {
            assert(cs.subrange(0, i) =~= cs);
        } else {
            assert(cs.subrange(0, i + 1).drop_last() =~= cs.subrange(0, i));
            self.lemma_fold_none(size, max_w, lah, cs, i + 1);
        }
    }

    /// Lays a text out character by character from cached glyphs alone: `None` as soon as a
    /// glyph, or the kerning between two neighbouring glyphs that have font identifiers, is
    /// missing. A glyph without an identifier is drawn and kerned against nothing.
    /// A glyph that does not fit moves, with the rest of its word, to a new line; a word
    /// that is alone on its line is never split.
    pub fn cache_only_render<C: RenderableCharacters>(&self, txt: C, size: u32, width: Option<u32>, line_advance_height: u32) -> (r: Option<RenderedText>)
        requires
            self.wf(),
        ensures
            ({
                let max_w = match width { Some(w) => w, None => u32::MAX };
                let st = self.render_fold(size, max_w, line_advance_height, txt.chars_spec());
                &&& r is Some <==> st is Some
                &&& r is Some ==> r->0.spec_instructions() == st->0.inst
                    && r->0.spec_total_height() == st->0.result_height
                    && r->0.spec_total_width() == Self::render_total_width(st->0)
            }),
    {
        let max_width = match width {
            Some(w) => w,
            None => u32::MAX,
        };
        let lah = line_advance_height;
        let chars = txt.layout_chars();
        let mut inst: Vec<RenderedTextInstruction> = Vec::new();
        let mut row_width: u32 = 0;
        let mut result_width: u32 = 0;
        let mut result_height: u32 = lah;
        let mut last_char: Option<char> = None;
        let mut extra: u32 = 0;
        let mut i: usize = 0;
        assert(chars@.subrange(0, 0) =~= Seq::<char>::empty());
        while i < chars.len()
            invariant
                self.wf(),
                chars@ == txt.chars_spec(),
                max_width == match width { Some(w) => w, None => u32::MAX },
                lah == line_advance_height,
                i <= chars.len(),
                self.render_fold(size, max_width, lah, chars@.subrange(0, i as int)) == Some(RenderState {
                    inst: inst@,
                    row_width,
                    result_width,
                    result_height,
                    last_char,
                    extra,
                }),
            decreases chars.len() - i,
        {
            let c = chars[i];
            let ghost s0 = RenderState { inst: inst@, row_width, result_width, result_height, last_char, extra };
            proof {
                assert(chars@.subrange(0, i + 1).drop_last() =~= chars@.subrange(0, i as int));
                assert(chars@.subrange(0, i + 1).last() == c);
            }
            i = i + 1;
            if is_control(c) {
                if c == '\n' {
                    inst.push(RenderedTextInstruction::NextLine(lah, NextLineReason::LineBreak));
                    result_height = result_height.saturating_add(lah);
                    if row_width > result_width {
                        result_width = row_width;
                    }
                    row_width = 0;
                }
                continue;
            }
            let existing = match self.cached_glyph(size, c) {
                Some(g) => g,
                None => {
                    proof {
                        assert(self.render_step(size, max_width, lah, s0, c) is None);
                        assert(self.render_fold(size, max_width, lah, chars@.subrange(0, i as int)) is None);
                        self.lemma_fold_none(size, max_width, lah, chars@, i as int);
                        assert(self.render_fold(size, max_width, lah, txt.chars_spec()) is None);
                            }
                    return None;
                },
            };
            let stored = self.cached_glyph_data(size, c).unwrap();
            let advance = existing.advance_width as u32;
            extra = if advance < existing.render_width {
                existing.render_width - advance
            } else {
                0
            };
            let has_id = stored.id.is_some();
            {
                let mut k: i32 = 0;
                let kerned = has_id && last_char.is_some();
                if kerned {
                    let prev = last_char.unwrap();
                    match self.cached_kerning(size, prev, c) {
                        Some(kv) => {
                            k = kv;
                        },
                        None => {
                            proof {
                                assert(self.render_step(size, max_width, lah, s0, c) is None);
                                assert(self.render_fold(size, max_width, lah, chars@.subrange(0, i as int)) is None);
                                self.lemma_fold_none(size, max_width, lah, chars@, i as int);
                            }
                            return None;
                        },
                    }
                }
                if kerned && k > 0 {
                    row_width = row_width.saturating_add(k as u32);
                    inst.push(RenderedTextInstruction::Kerning(k));
                }
                inst.push(RenderedTextInstruction::RenderGlyph(existing));
                last_char = if has_id { Some(c) } else { None };
                let bp = if row_width.saturating_add(existing.render_width) > max_width {
                    cur_line_break_point(&inst)
                } else {
                    None
                };
                if let Some(break_idx) = bp {
                    // The word that ends the line moves to a new line; a line that holds a
                    // single word keeps it whole, wider than the maximum.
                    result_width = max_width;
                    let wrap = RenderedTextInstruction::NextLine(lah, NextLineReason::WordWrap);
                    inst.insert(break_idx, wrap);
                    row_width = width_from(&inst, break_idx + 1);
                    result_height = result_height.saturating_add(lah);
                } else {
                    row_width = row_width.saturating_add(advance);
                }
            }
        }
        assert(chars@.subrange(0, chars@.len() as int) =~= chars@);
        row_width = row_width.saturating_add(extra);
        if row_width > result_width {
            result_width = row_width;
        }
        Some(RenderedText::new(result_width, result_height, inst))
    }

    /// The rendered text of a character view, from cached glyphs alone: `None` exactly when
    /// a character of the view has no cached glyph at `size`.
    pub fn cache_only_chars_to_text(&self, chars: &RenderedChars, size: u32) -> (r: Option<RenderedText>)
        requires
            self.wf(),
        ensures
            r is None <==> exists|i: int| 0 <= i < chars.spec_instructions().len() && uncached_char(self, size, #[trigger] chars.spec_instructions()[i]),
            r is Some ==> r->0.spec_total_width() == chars.spec_total_width()
                && r->0.spec_total_height() == chars.spec_total_height()
                && r->0.spec_instructions().len() == chars.spec_instructions().len()
                && forall|i: int| 0 <= i < chars.spec_instructions().len() ==> #[trigger] r->0.spec_instructions()[i] == text_instruction(self, size, chars.spec_instructions()[i]),
    {
        let mut instructions: Vec<RenderedTextInstruction> = Vec::new();
        let mut k: usize = 0;
        while k < chars.instructions.len()
            invariant
                self.wf(),
                k <= chars.instructions.len(),
                instructions.len() == k,
                forall|i: int| 0 <= i < k ==> #[trigger] instructions@[i] == text_instruction(self, size, chars.instructions@[i]),
                forall|i: int| 0 <= i < k ==> !uncached_char(self, size, #[trigger] chars.instructions@[i]),
            decreases chars.instructions.len() - k,
        {
            let ti = match chars.instructions[k] {
                RenderedCharInstruction::RenderChar { ch, .. } => match self.cached_glyph(size, ch) {
                    Some(g) => RenderedTextInstruction::RenderGlyph(g),
                    None => {
                        assert(uncached_char(self, size, chars.instructions@[k as int]));
                        return None;
                    },
                },
                RenderedCharInstruction::Kerning(dx) => RenderedTextInstruction::Kerning(dx),
                RenderedCharInstruction::NextLine(dy, r) => RenderedTextInstruction::NextLine(dy, r),
            };
            instructions.push(ti);
            k = k + 1;
        }
        Some(RenderedText::new(chars.total_width, chars.total_height, instructions))
    }

    /// What the cache lacks to lay out `txt` at `size` character by character: the glyphs
    /// it has not, and the kerning after the last character with a glyph identifier. Kerning
    /// after a character whose glyph is itself missing cannot be known yet, so a second
    /// call, once the glyphs are added, may find more; an empty result means that
    /// `cache_only_render` succeeds.
    pub fn render_missing<C: RenderableCharacters>(&self, txt: C, size: u32) -> (r: Vec<Missing>)
        requires
            self.wf(),
        ensures
            forall|k: int| 0 <= k < r@.len() ==> self.lacks_item(#[trigger] r@[k]),
            r@.len() == 0 ==> forall|mw: u32, lh: u32| #[trigger] self.render_fold(size, mw, lh, txt.chars_spec()) is Some,
    {
        let chars = txt.layout_chars();
        let mut missing: Vec<Missing> = Vec::new();
        let mut last_char: Option<char> = None;
        let mut i: usize = 0;
        assert(chars@.subrange(0, 0) =~= Seq::<char>::empty());
        while i < chars.len()
            invariant
                self.wf(),
                chars@ == txt.chars_spec(),
                i <= chars.len(),
                forall|k: int| 0 <= k < missing@.len() ==> self.lacks_item(#[trigger] missing@[k]),
                missing@.len() == 0 ==> forall|mw: u32, lh: u32| #![trigger self.render_fold(size, mw, lh, chars@.subrange(0, i as int))]
                    self.render_fold(size, mw, lh, chars@.subrange(0, i as int)) is Some
                    && self.render_fold(size, mw, lh, chars@.subrange(0, i as int))->0.last_char == last_char,
            decreases chars.len() - i,
        {
            let c = chars[i];
            let ghost pre = chars@.subrange(0, i as int);
            proof {
                assert(chars@.subrange(0, i + 1).drop_last() =~= pre);
            }
            let ghost was_empty = missing@.len() == 0;
            let ghost last0 = last_char;
            i = i + 1;
            if !is_control(c) {
                match self.cached_glyph_data(size, c) {
                    None => {
                        push_missing_item(self, &mut missing, Missing::Glyph(size, c));
                    },
                    Some(g) => {
                        if g.id.is_some() {
                            if let Some(p) = last_char {
                                if self.cached_kerning(size, p, c).is_none() {
                                    push_missing_item(self, &mut missing, Missing::Kerning(size, p, c));
                                }
                            }
                            last_char = Some(c);
                        } else {
                            last_char = None;
                        }
                    },
                }
            }
            proof {
                if missing@.len() == 0 {
                    assert(was_empty);
                    assert forall|mw: u32, lh: u32| #![trigger self.render_fold(size, mw, lh, chars@.subrange(0, i as int))]
                        self.render_fold(size, mw, lh, chars@.subrange(0, i as int)) is Some
                        && self.render_fold(size, mw, lh, chars@.subrange(0, i as int))->0.last_char == last_char by {
                        assert(self.render_fold(size, mw, lh, pre) is Some);
                        assert(self.render_fold(size, mw, lh, pre)->0.last_char == last0);
                    }
                }
            }
        }
        proof {
            assert(chars@.subrange(0, chars@.len() as int) =~= chars@);
        }
        missing
    }

    /// The character view of `cache_only_render`.
    pub fn cache_only_render_chars<C: RenderableCharacters>(&self, txt: C, size: u32, width: Option<u32>, line_advance_height: u32) -> (r: Option<RenderedChars>)
        requires
            self.wf(),
        ensures
            ({
                let max_w = match width { Some(w) => w, None => u32::MAX };
                let st = self.render_fold(size, max_w, line_advance_height, txt.chars_spec());
                &&& r is Some <==> st is Some
                &&& r is Some ==> r->0.spec_total_height() == st->0.result_height
                    && r->0.spec_total_width() == Self::render_total_width(st->0)
                    && r->0.spec_instructions().len() == st->0.inst.len()
                    && forall|i: int| 0 <= i < st->0.inst.len() ==> #[trigger] r->0.spec_instructions()[i] == char_instruction(st->0.inst[i])
            }),
    {
        match self.cache_only_render(txt, size, width, line_advance_height) {
            Some(t) => Some(RenderedChars::from_rendered_text(&t)),
            None => None,
        }
    }
}

/// Records that `font` lacks `m`.
fn push_missing_item(font: &FontCache, missing: &mut Vec<Missing>, m: Missing)
    requires
        font.lacks_item(m),
        forall|k: int| 0 <= k < old(missing)@.len() ==> font.lacks_item(#[trigger] old(missing)@[k]),
    ensures
        forall|k: int| 0 <= k < final(missing)@.len() ==> font.lacks_item(#[trigger] final(missing)@[k]),
        final(missing)@.len() == old(missing)@.len() + 1,
{
    missing.push(m);
}

/// `i` draws a character whose glyph `font` does not cache at `size`.
pub open spec fn uncached_char(font: &FontCache, size: u32, i: RenderedCharInstruction) -> bool {
    match i {
        RenderedCharInstruction::RenderChar { ch, .. } => !font.cache().entries().contains_key(glyph_key(size, ch)),
        _ => false,
    }
}

/// The instruction of a rendered text that a character view's instruction stands for,
/// with the glyph that `font` caches at `size`.
pub open spec fn text_instruction(font: &FontCache, size: u32, i: RenderedCharInstruction) -> RenderedTextInstruction {
    match i {
        RenderedCharInstruction::RenderChar { ch, .. } => RenderedTextInstruction::RenderGlyph(font.cached_ref(size, ch)),
        RenderedCharInstruction::Kerning(dx) => RenderedTextInstruction::Kerning(dx),
        RenderedCharInstruction::NextLine(dy, r) => RenderedTextInstruction::NextLine(dy, r),
    }
}

/// The glyph draws that rendered-text instructions make, the cursor at `(cur_x, cur_y)`
/// and lines starting at `x0`.
pub open spec fn rendered_draws(font: &FontCache, insts: Seq<RenderedTextInstruction>, x0: i32, cur_x: i32, cur_y: i32) -> Seq<GlyphDraw>
    decreases insts.len(),
{
    if insts.len() == 0 {
        Seq::empty()
    } else {
        match insts[0] {
            RenderedTextInstruction::RenderGlyph(g) => {
                let rest = rendered_draws(font, insts.drop_first(), x0, clamp_i32(cur_x + g.advance_width), cur_y);
                match font.glyph_at(g.handle) {
                    Some(gl) => seq![GlyphDraw { rows: decode_rows(gl.inst@), ok: glyph_ok(gl.inst@), pos: [cur_x, cur_y], color: Rgba([0, 0, 0, 0]) }] + rest,
                    None => rest,
                }
            },
            RenderedTextInstruction::Kerning(dx) => rendered_draws(font, insts.drop_first(), x0, clamp_i32(cur_x + dx), cur_y),
            RenderedTextInstruction::NextLine(dy, _) => rendered_draws(font, insts.drop_first(), x0, x0, clamp_i32(cur_y + width_i32(dy))),
        }
    }
}

/// `b` is `a` with the draw `d` blended in `mode`, where its stream is well formed.
pub open spec fn mode_painted_by<M: ColorAlphaBlendMode>(c: &Canvas, a: Image, d: GlyphDraw, mode: M, cc: Rgba, b: Image) -> bool {
    &&& b.spec_width() == a.spec_width()
    &&& b.spec_height() == a.spec_height()
    &&& d.ok ==> mode_painted(c, a, d.rows, d.pos, mode, cc, b)
}

/// `imgs` steps from image to image by the draws `ds`, one each, blended in `mode`.
pub open spec fn mode_painted_in_turn<M: ColorAlphaBlendMode>(c: &Canvas, imgs: Seq<Image>, ds: Seq<GlyphDraw>, mode: M, cc: Rgba) -> bool {
    &&& imgs.len() == ds.len() + 1
    &&& forall|k: int| 0 <= k < ds.len() ==> mode_painted_by(c, #[trigger] imgs[k], ds[k], mode, cc, imgs[k + 1])
}

impl<'a> Canvas<'a> {
    /// Draws a rendered text with its first line starting `indent` right of `pos`, each
    /// glyph pixel blended by its coverage in the given mode.
    pub fn draw_rendered_text_using<M: ColorAlphaBlendMode>(
        &mut self,
        mode: M,
        r: &RenderedText,
        font: &FontCache,
        font_color: Rgba,
        pos: [i32; 2],
        indent: u32,
    )
        requires
            old(self).wf(),
            font.wf(),
        ensures
            final(self).wf(),
            final(self).same_frame(old(self)),
            exists|imgs: Seq<Image>| #![trigger mode_painted_in_turn(old(self), imgs, rendered_draws(font, r.spec_instructions(), pos[0], clamp_i32(pos[0] + width_i32(indent)), pos[1]), mode, font_color)]
                mode_painted_in_turn(old(self), imgs, rendered_draws(font, r.spec_instructions(), pos[0], clamp_i32(pos[0] + width_i32(indent)), pos[1]), mode, font_color)
                && imgs[0] == old(self).image() && imgs.last() == final(self).image(),
    {
        let cc = mode.prepare_color(font_color);
        let mut cur_x = sat_add(pos[0], width_to_i32(indent));
        let mut cur_y = pos[1];
        let ghost c0: Canvas = *self;
        let ghost total = rendered_draws(font, r.instructions@, pos[0], cur_x, cur_y);
        assert(total == rendered_draws(font, r.spec_instructions(), pos[0], clamp_i32(pos[0] + width_i32(indent)), pos[1]));
        let ghost mut done: Seq<GlyphDraw> = Seq::empty();
        let ghost mut imgs: Seq<Image> = seq![self.image()];
        let mut i: usize = 0;
        assert(r.instructions@.subrange(0, r.instructions@.len() as int) =~= r.instructions@);
        while i < r.instructions.len()
            invariant
                self.wf(),
                self.same_frame(&c0),
                c0 == *old(self),
                font.wf(),
                cc == font_color,
                i <= r.instructions.len(),
                total == done + rendered_draws(font, r.instructions@.subrange(i as int, r.instructions@.len() as int), pos[0], cur_x, cur_y),
                mode_painted_in_turn(&c0, imgs, done, mode, cc),
                imgs[0] == c0.image(),
                imgs.last() == self.image(),
            decreases r.instructions.len() - i,
        {
            let ghost rest = r.instructions@.subrange(i as int, r.instructions@.len() as int);
            proof {
                assert(rest.drop_first() =~= r.instructions@.subrange(i + 1, r.instructions@.len() as int));
                assert(rest[0] == r.instructions@[i as int]);
            }
            match r.instructions[i] {
                RenderedTextInstruction::RenderGlyph(g) => {
                    let ghost d0 = done;
                    let ghost i0 = imgs;
                    if let Some(glyph) = font.glyph(g.handle) {
                        draw_inst_mode(&glyph.inst, self, [cur_x, cur_y], mode, cc);
                        proof {
                            let d = GlyphDraw { rows: decode_rows(glyph.inst@), ok: glyph_ok(glyph.inst@), pos: [cur_x, cur_y], color: Rgba([0, 0, 0, 0]) };
                            if d.ok {
                                assert forall|px: int, py: int|
                                    0 <= px < i0.last().spec_width() && 0 <= py < i0.last().spec_height() implies #[trigger] self.image().pixel(px, py) == (if c0.covers(px, py) {
                                        mode_pixel(mode, i0.last().pixel(px, py), cc, cell(d.rows, py - d.pos[1], px - d.pos[0]))
                                    } else {
                                        i0.last().pixel(px, py)
                                    }) by {
                                }
                            }
                            done = done.push(d);
                            imgs = imgs.push(self.image());
                            assert forall|j: int| 0 <= j < done.len() implies mode_painted_by(&c0, #[trigger] imgs[j], done[j], mode, cc, imgs[j + 1]) by {
                                if j < d0.len() {
                                    assert(imgs[j] == i0[j] && imgs[j + 1] == i0[j + 1] && done[j] == d0[j]);
                                }
                            }
                        }
                    }
                    cur_x = sat_add(cur_x, g.advance_width);
                    proof {
                        assert(total =~= done + rendered_draws(font, r.instructions@.subrange(i + 1, r.instructions@.len() as int), pos[0], cur_x, cur_y));
                    }
                },
                RenderedTextInstruction::Kerning(dx) => {
                    cur_x = sat_add(cur_x, dx);
                },
                RenderedTextInstruction::NextLine(dy, ..) => {
                    cur_y = sat_add(cur_y, width_to_i32(dy));
                    cur_x = pos[0];
                },
            }
            i = i + 1;
        }
        proof {
            assert(r.instructions@.subrange(i as int, r.instructions@.len() as int) =~= Seq::<RenderedTextInstruction>::empty());
            assert(done =~= total);
            assert(total == rendered_draws(font, r.spec_instructions(), pos[0], clamp_i32(pos[0] + width_i32(indent)), pos[1]));
            assert(mode_painted_in_turn(old(self), imgs, total, mode, font_color));
        }
    }
}

} // verus!
