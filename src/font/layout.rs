use crate::font::align::{HorzAlign, ScriptPosition};
use crate::canvas::Canvas;
use crate::font::glyph::{cell, glyph_ok, glyph_painted, glyph_pixel};
use crate::font::glyph_builder::decode_rows;
use crate::img::Image;
use crate::font::font_cache::{glyph_key, FontCache, Missing};
use crate::text::{nfc_chars, nfc_of};
use crate::rgba::Rgba;
use vstd::prelude::*;

verus! {

broadcast use vstd::seq::group_seq_axioms, vstd::array::group_array_axioms;

/// `v` clamped to the range of `i32`.
pub open spec fn clamp_i32(v: int) -> i32 {
    if v > i32::MAX {
        i32::MAX
    } else if v < i32::MIN {
        i32::MIN
    } else {
        v as i32
    }
}

/// Adds, saturating at the bounds of `i32`.
pub fn sat_add(a: i32, b: i32) -> (r: i32)
    ensures
        r == clamp_i32(a + b),
{
    let v = a as i64 + b as i64;
    if v > i32::MAX as i64 {
        i32::MAX
    } else if v < i32::MIN as i64 {
        i32::MIN
    } else {
        v as i32
    }
}

/// Subtracts, saturating at the bounds of `i32`.
pub fn sat_sub(a: i32, b: i32) -> (r: i32)
    ensures
        r == clamp_i32(a - b),
{
    let v = a as i64 - b as i64;
    if v > i32::MAX as i64 {
        i32::MAX
    } else if v < i32::MIN as i64 {
        i32::MIN
    } else {
        v as i32
    }
}

/// A width as a signed value, saturating at `i32::MAX`.
pub open spec fn width_i32(w: u32) -> i32 {
    clamp_i32(w as int)
}

pub fn width_to_i32(w: u32) -> (r: i32)
    ensures
        r == width_i32(w),
{
    if w > i32::MAX as u32 {
        i32::MAX
    } else {
        w as i32
    }
}

/// Half of `v`, rounded toward zero.
pub open spec fn half_toward_zero(v: int) -> int {
    if v >= 0 {
        v / 2
    } else {
        -((-v) / 2)
    }
}

/// The horizontal offset of a line `line_width` wide in a layout `max_width` wide.
pub open spec fn align_offset(align: HorzAlign, max_width: i32, line_width: i32) -> i32 {
    match align {
        HorzAlign::Left => 0,
        HorzAlign::Center => half_toward_zero(clamp_i32(max_width - line_width) as int) as i32,
        HorzAlign::Right => clamp_i32(max_width - line_width),
    }
}

fn compute_align_offset(align: HorzAlign, max_width: i32, line_width: i32) -> (r: i32)
    ensures
        r == align_offset(align, max_width, line_width),
{
    match align {
        HorzAlign::Left => 0,
        HorzAlign::Center => sat_sub(max_width, line_width) / 2,
        HorzAlign::Right => sat_sub(max_width, line_width),
    }
}

/// The width beyond which a word is moved to the next line.
pub open spec fn wrap_limit(max_width: Option<u32>) -> i32 {
    match max_width {
        Some(w) => width_i32(w),
        None => i32::MAX,
    }
}

/// The vertical metrics of a font at one size.
#[derive(Clone, Copy, Debug, PartialEq, Eq, Structural)]
pub struct LineMetrics {
    pub line_height: u32,
    pub line_advance_height: u32,
    pub dist_to_baseline: u32,
}

/// A glyph of a font cache, by its place there, with the metrics that layout reads.
#[derive(Clone, Copy, Debug)]
pub struct GlyphRef {
    pub handle: (usize, usize),
    pub ch: char,
    pub advance_width: i32,
    pub render_width: u32,
}

/// One command of a text layout.
#[derive(Clone, Copy, Debug)]
pub enum TextLayoutCmd {
    /// Draw the glyphs of this index range, on the current line.
    Glyphs { glyph_range: [u32; 2] },
    /// Start a line, shifted right by `x_offset`, aligned as given.
    LineSettings { x_offset: i32, horz_align: HorzAlign },
}

impl TextLayoutCmd {
    pub open spec fn is_line_settings(&self) -> bool {
        self is LineSettings
    }

    pub open spec fn offset(&self) -> i32 {
        match self {
            TextLayoutCmd::LineSettings { x_offset, .. } => *x_offset,
            _ => 0,
        }
    }

    pub open spec fn align(&self) -> HorzAlign {
        match self {
            TextLayoutCmd::LineSettings { horz_align, .. } => *horz_align,
            _ => HorzAlign::Left,
        }
    }
}

/// A finished line: its settings command, its width, and whether its last word starts
/// at the left edge (so that the line holds that word alone, as far as width goes).
pub struct LineRecord {
    pub cmd: int,
    pub width: i32,
    pub alone: bool,
    /// The line's advance height: how far the next line starts below it.
    pub advance: i32,
}

/// The height of the lines stacked, each by its advance height, saturating.
pub open spec fn stacked_height(lines: Seq<LineRecord>) -> i32
    decreases lines.len(),
{
    if lines.len() == 0 {
        0
    } else {
        clamp_i32(stacked_height(lines.drop_last()) + lines.last().advance)
    }
}

/// The placed glyphs of a laid out text, one command list for all its lines.
pub struct TextLayout {
    min_dim: [u32; 2],
    layout_width: u32,
    max_width: Option<u32>,
    cmds: Vec<TextLayoutCmd>,
    glyphs: Vec<(GlyphRef, [i32; 2], Rgba)>,
    line_cmds: Vec<usize>,
    line_widths: Vec<i32>,
    lines_alone: Ghost<Seq<bool>>,
    lines_advance: Ghost<Seq<i32>>,
}

/// Whether the line records fit the commands: each names a line settings command, in order.
pub open spec fn lines_fit_cmds(lines: Seq<LineRecord>, cmds: Seq<TextLayoutCmd>, limit: int) -> bool {
    &&& forall|k: int| 0 <= k < lines.len() ==> 0 <= #[trigger] lines[k].cmd < limit
    &&& limit <= cmds.len()
    &&& forall|k: int| 0 <= k < lines.len() ==> (#[trigger] cmds[lines[k].cmd]).is_line_settings()
    &&& forall|j: int, k: int| 0 <= j < k < lines.len() ==> #[trigger] lines[j].cmd < #[trigger] lines[k].cmd
}

/// No line is wider than the limit, but one whose last word starts at the left edge.
pub open spec fn lines_wrapped(lines: Seq<LineRecord>, limit: i32) -> bool {
    forall|k: int| 0 <= k < lines.len() ==> #[trigger] lines[k].width <= limit || lines[k].alone
}

/// Each line's offset is the one its alignment gives in a layout `width` wide.
pub open spec fn lines_aligned(lines: Seq<LineRecord>, cmds: Seq<TextLayoutCmd>, width: i32) -> bool {
    forall|k: int|
        0 <= k < lines.len() ==> (#[trigger] cmds[lines[k].cmd]).offset() == align_offset(
            cmds[lines[k].cmd].align(),
            width,
            lines[k].width,
        )
}

/// The widest line, no narrower than zero.
pub open spec fn widest(lines: Seq<LineRecord>) -> int
    decreases lines.len(),
{
    if lines.len() == 0 {
        0
    } else {
        let w = widest(lines.drop_last());
        let l = lines.last().width as int;
        if l > w {
            l
        } else {
            w
        }
    }
}

} // verus!

verus! {

/// The glyphs of placed glyphs, positions and colors left out.
pub open spec fn glyph_refs(s: Seq<(GlyphRef, [i32; 2], Rgba)>) -> Seq<GlyphRef> {
    s.map_values(|e: (GlyphRef, [i32; 2], Rgba)| e.0)
}

/// Moves the glyphs of the index range `from..to` by `(dx, dy)`.
fn shift_glyphs(glyphs: &mut Vec<(GlyphRef, [i32; 2], Rgba)>, from: usize, to: usize, dx: i32, dy: i32)
    requires
        from <= to <= old(glyphs).len(),
    ensures
        final(glyphs).len() == old(glyphs).len(),
        forall|k: int| 0 <= k < old(glyphs).len() ==> (#[trigger] final(glyphs)@[k]).0 == old(glyphs)@[k].0,
        glyph_refs(final(glyphs)@) == glyph_refs(old(glyphs)@),
        final(glyphs)@ == shifted(old(glyphs)@, from as int, to as int, dx, dy),
{
    let mut i = from;
    while i < to
        invariant
            from <= i <= to,
            to <= glyphs.len(),
            glyphs.len() == old(glyphs).len(),
            glyphs@ =~= shifted(old(glyphs)@, from as int, i as int, dx, dy),
            forall|k: int| 0 <= k < old(glyphs).len() ==> (#[trigger] glyphs@[k]).0 == old(glyphs)@[k].0,
        decreases to - i,
    {
        let (g, p, c) = glyphs[i];
        let ghost g0 = glyphs@;
        glyphs.set(i, (g, [sat_add(p[0], dx), sat_add(p[1], dy)], c));
        proof {
            assert forall|k: int| 0 <= k < glyphs@.len() implies #[trigger] glyphs@[k] == shifted(old(glyphs)@, from as int, i + 1, dx, dy)[k] by {
                if k != i {
                    assert(glyphs@[k] == g0[k]);
                }
            }
            assert(glyphs@ =~= shifted(old(glyphs)@, from as int, i + 1, dx, dy));
        }
        i = i + 1;
    }
    assert(glyph_refs(glyphs@) =~= glyph_refs(old(glyphs)@));
}

/// The cursor `x` moved `n` times by a space of advance `a`, saturating.
pub open spec fn spaced(x: i32, a: i32, n: nat) -> i32
    decreases n,
{
    if n == 0 {
        x
    } else {
        clamp_i32(spaced(x, a, (n - 1) as nat) + a)
    }
}

/// `c` is laid out as a glyph: it is no space, tab, newline or carriage return.
pub open spec fn is_glyph_char(c: char) -> bool {
    c != ' ' && c != '\t' && c != '\n' && c != '\r'
}

/// The cached glyphs, at `size`, of the characters of `cs` that are laid out as glyphs.
pub open spec fn visible_refs(font: &FontCache, size: u32, cs: Seq<char>) -> Seq<GlyphRef>
    decreases cs.len(),
{
    if cs.len() == 0 {
        Seq::empty()
    } else {
        let r = visible_refs(font, size, cs.drop_last());
        if is_glyph_char(cs.last()) {
            r.push(font.cached_ref(size, cs.last()))
        } else {
            r
        }
    }
}

/// The number of newlines in `cs`.
pub open spec fn newline_count(cs: Seq<char>) -> nat
    decreases cs.len(),
{
    if cs.len() == 0 {
        0
    } else {
        newline_count(cs.drop_last()) + if cs.last() == '\n' { 1nat } else { 0nat }
    }
}

/// Every character of `cs` laid out as a glyph has a cached glyph at `size`.
pub open spec fn glyphs_cached(font: &FontCache, size: u32, cs: Seq<char>) -> bool {
    forall|j: int| 0 <= j < cs.len() && is_glyph_char(#[trigger] cs[j]) ==> font.cache().entries().contains_key(glyph_key(size, cs[j]))
}

/// Records that `font` lacks `m`.
fn push_missing(font: &FontCache, missing: &mut Vec<Missing>, m: Missing)
    requires
        font.lacks_item(m),
        forall|k: int| 0 <= k < old(missing)@.len() ==> font.lacks_item(#[trigger] old(missing)@[k]),
    ensures
        forall|k: int| 0 <= k < final(missing)@.len() ==> font.lacks_item(#[trigger] final(missing)@[k]),
        final(missing)@.len() == old(missing)@.len() + 1,
{
    missing.push(m);
}

/// The word being laid out.
pub struct WordInfo {
    pub prev_char: char,
    pub draw_start_x: i32,
    pub draw_width: i32,
    pub glyph_start_idx: usize,
    /// The x-offset from the start of the word to use for the next glyph.
    pub next_glyph_x: i32,
    pub horz_align: HorzAlign,
    pub font_dirty: bool,
    pub line_height: u32,
    pub line_advance_height: u32,
    pub dist_to_baseline: i32,
}

impl WordInfo {
    fn init_line_metrics(&mut self, line_height: u32, line_advance_height: u32, dist_to_baseline: i32)
        ensures
            *final(self) == (WordInfo { line_height, line_advance_height, dist_to_baseline, ..*old(self) }),
            final(self).line_height == line_height,
            final(self).line_advance_height == line_advance_height,
            final(self).dist_to_baseline == dist_to_baseline,
            final(self).draw_start_x == old(self).draw_start_x,
            final(self).draw_width == old(self).draw_width,
            final(self).glyph_start_idx == old(self).glyph_start_idx,
            final(self).horz_align == old(self).horz_align,
            final(self).next_glyph_x == old(self).next_glyph_x,
    {
        self.line_height = line_height;
        self.line_advance_height = line_advance_height;
        self.dist_to_baseline = dist_to_baseline;
    }

    fn add_line_metrics(&mut self, line_height: u32, line_advance_height: u32, dist_to_baseline: i32)
        ensures
            *final(self) == word_with_metrics(*old(self), line_height, line_advance_height, dist_to_baseline),
            final(self).line_height == if line_height > old(self).line_height { line_height } else { old(self).line_height },
            final(self).draw_start_x == old(self).draw_start_x,
            final(self).draw_width == old(self).draw_width,
            final(self).glyph_start_idx == old(self).glyph_start_idx,
            final(self).horz_align == old(self).horz_align,
            final(self).next_glyph_x == old(self).next_glyph_x,
    {
        if line_height > self.line_height {
            self.line_height = line_height;
        }
        if line_advance_height > self.line_advance_height {
            self.line_advance_height = line_advance_height;
        }
        if dist_to_baseline > self.dist_to_baseline {
            self.dist_to_baseline = dist_to_baseline;
        }
    }
}

/// The line being laid out.
pub struct LineInfo {
    pub glyph_start_idx: usize,
    pub glyph_end_idx: usize,
    pub line_settings_cmd_idx: usize,
    pub draw_width: i32,
    pub line_height: u32,
    pub line_advance_height: u32,
    pub dist_to_baseline: i32,
}

impl LineInfo {
    fn init_line_metrics(&mut self, line_height: u32, line_advance_height: u32, dist_to_baseline: i32)
        ensures
            *final(self) == (LineInfo { line_height, line_advance_height, dist_to_baseline, ..*old(self) }),
            final(self).line_height == line_height,
            final(self).line_advance_height == line_advance_height,
            final(self).dist_to_baseline == dist_to_baseline,
            final(self).glyph_start_idx == old(self).glyph_start_idx,
            final(self).glyph_end_idx == old(self).glyph_end_idx,
            final(self).line_settings_cmd_idx == old(self).line_settings_cmd_idx,
            final(self).draw_width == old(self).draw_width,
    {
        self.line_height = line_height;
        self.line_advance_height = line_advance_height;
        self.dist_to_baseline = dist_to_baseline;
    }

    fn add_line_metrics(&mut self, line_height: u32, line_advance_height: u32, dist_to_baseline: i32)
        ensures
            *final(self) == line_with_metrics(*old(self), line_height, line_advance_height, dist_to_baseline),
            final(self).glyph_start_idx == old(self).glyph_start_idx,
            final(self).glyph_end_idx == old(self).glyph_end_idx,
            final(self).line_settings_cmd_idx == old(self).line_settings_cmd_idx,
            final(self).draw_width == old(self).draw_width,
    {
        if line_height > self.line_height {
            self.line_height = line_height;
        }
        if line_advance_height > self.line_advance_height {
            self.line_advance_height = line_advance_height;
        }
        if dist_to_baseline > self.dist_to_baseline {
            self.dist_to_baseline = dist_to_baseline;
        }
    }

    fn add_word_metrics(&mut self, w: &WordInfo)
        ensures
            *final(self) == line_with_metrics(*old(self), w.line_height, w.line_advance_height, w.dist_to_baseline),
            final(self).glyph_start_idx == old(self).glyph_start_idx,
            final(self).glyph_end_idx == old(self).glyph_end_idx,
            final(self).line_settings_cmd_idx == old(self).line_settings_cmd_idx,
            final(self).draw_width == old(self).draw_width,
    {
        self.add_line_metrics(w.line_height, w.line_advance_height, w.dist_to_baseline);
    }
}

/// The metrics that an empty line takes.
pub struct LineWrapMetrics {
    pub line_height: u32,
    pub line_advance_height: u32,
    pub dist_to_baseline: i32,
}


/// Everything that decides a layout builder's result.
pub struct LayoutModel {
    pub draw_pos: [i32; 2],
    pub required_width: u32,
    pub required_height: u32,
    pub max_width: Option<u32>,
    pub cmds: Seq<TextLayoutCmd>,
    pub glyphs: Seq<(GlyphRef, [i32; 2], Rgba)>,
    pub line_cmds: Seq<usize>,
    pub line_widths: Seq<i32>,
    pub color: Rgba,
    pub pending_align: HorzAlign,
    pub script_pos: ScriptPosition,
    pub active_word: bool,
    pub word: WordInfo,
    pub line: LineInfo,
    pub empty: LineWrapMetrics,
    pub link_active: bool,
    pub link_start: usize,
    pub link_to: Seq<char>,
    pub link_dims: Seq<[u32; 2]>,
    pub links: Seq<(usize, Seq<char>, Seq<[u32; 2]>)>,
}

/// The placed glyphs with those of `from..to` moved by `(dx, dy)`, saturating.
pub open spec fn shifted(gs: Seq<(GlyphRef, [i32; 2], Rgba)>, from: int, to: int, dx: i32, dy: i32) -> Seq<(GlyphRef, [i32; 2], Rgba)> {
    Seq::new(gs.len(), |k: int| if from <= k < to {
        (gs[k].0, [clamp_i32(gs[k].1[0] + dx), clamp_i32(gs[k].1[1] + dy)], gs[k].2)
    } else {
        gs[k]
    })
}

/// The larger of the metrics.
pub open spec fn line_with_metrics(l: LineInfo, lh: u32, lah: u32, dtb: i32) -> LineInfo {
    LineInfo {
        line_height: if lh > l.line_height { lh } else { l.line_height },
        line_advance_height: if lah > l.line_advance_height { lah } else { l.line_advance_height },
        dist_to_baseline: if dtb > l.dist_to_baseline { dtb } else { l.dist_to_baseline },
        ..l
    }
}

/// The larger of the metrics.
pub open spec fn word_with_metrics(w: WordInfo, lh: u32, lah: u32, dtb: i32) -> WordInfo {
    WordInfo {
        line_height: if lh > w.line_height { lh } else { w.line_height },
        line_advance_height: if lah > w.line_advance_height { lah } else { w.line_advance_height },
        dist_to_baseline: if dtb > w.dist_to_baseline { dtb } else { w.dist_to_baseline },
        ..w
    }
}

/// A font set: a word started later takes its metrics; an empty line takes them too.
pub open spec fn m_set_font_info(m: LayoutModel, metrics: LineMetrics) -> LayoutModel {
    LayoutModel {
        word: WordInfo { font_dirty: true, ..m.word },
        empty: LineWrapMetrics {
            line_height: metrics.line_height,
            line_advance_height: metrics.line_advance_height,
            dist_to_baseline: width_i32(metrics.dist_to_baseline),
        },
        ..m
    }
}

/// The current line takes the alignment `a`.
pub open spec fn m_set_line_align(m: LayoutModel, a: HorzAlign) -> LayoutModel {
    let idx = m.line.line_settings_cmd_idx as int;
    match m.cmds[idx] {
        TextLayoutCmd::LineSettings { x_offset, .. } => LayoutModel {
            cmds: m.cmds.update(idx, TextLayoutCmd::LineSettings { x_offset, horz_align: a }),
            ..m
        },
        _ => m,
    }
}

/// The current line finished: its glyphs command added when it has glyphs, its glyphs
/// moved down to its baseline, its width and height counted, its offset set when the
/// maximum width is known, and the cursor moved to the start of the next line.
pub open spec fn m_finalize(m: LayoutModel) -> LayoutModel {
    let start = m.line.glyph_start_idx;
    let end = m.line.glyph_end_idx;
    let line1 = if start == end {
        LineInfo {
            line_height: m.empty.line_height,
            line_advance_height: m.empty.line_advance_height,
            dist_to_baseline: m.empty.dist_to_baseline,
            ..m.line
        }
    } else {
        m.line
    };
    let cmds1 = if start == end {
        m.cmds
    } else {
        m.cmds.push(TextLayoutCmd::Glyphs { glyph_range: [start as u32, end as u32] })
    };
    let glyphs = shifted(m.glyphs, start as int, end as int, 0, clamp_i32(m.draw_pos[1] + line1.dist_to_baseline));
    let w = line1.draw_width;
    let rw: u32 = if w > 0 && (w as u32) > m.required_width { w as u32 } else { m.required_width };
    let ny = clamp_i32(m.draw_pos[1] + width_i32(line1.line_advance_height));
    let idx = m.line.line_settings_cmd_idx as int;
    let cmds2 = match m.max_width {
        Some(mw) => match cmds1[idx] {
            TextLayoutCmd::LineSettings { horz_align, .. } => cmds1.update(
                idx,
                TextLayoutCmd::LineSettings { x_offset: align_offset(horz_align, width_i32(mw), w), horz_align },
            ),
            _ => cmds1,
        },
        None => cmds1,
    };
    LayoutModel {
        cmds: cmds2,
        glyphs,
        required_width: rw,
        required_height: ny as u32,
        draw_pos: [0, ny],
        line: line1,
        line_cmds: m.line_cmds.push(m.line.line_settings_cmd_idx),
        line_widths: m.line_widths.push(w),
        ..m
    }
}

/// The current line finished and a new, empty, left-aligned one started.
pub open spec fn m_start_new_line(m: LayoutModel) -> LayoutModel {
    let f = m_finalize(m);
    LayoutModel {
        cmds: f.cmds.push(TextLayoutCmd::LineSettings { x_offset: 0, horz_align: HorzAlign::Left }),
        line: LineInfo {
            glyph_start_idx: f.line.glyph_end_idx,
            glyph_end_idx: f.line.glyph_end_idx,
            line_settings_cmd_idx: f.cmds.len() as usize,
            draw_width: 0,
            line_height: 0,
            line_advance_height: 0,
            dist_to_baseline: 0,
        },
        ..f
    }
}

/// The open word, if any, ended: moved to a new line when it starts right of the left
/// edge and its end passes the maximum width; its glyphs moved by its start; the line
/// ends where the word ends and takes the word's alignment.
pub open spec fn m_word_end(m: LayoutModel) -> LayoutModel {
    if !m.active_word {
        m
    } else {
        let m0 = LayoutModel { active_word: false, ..m };
        let ws = m.word.draw_start_x;
        let wrap = clamp_i32(ws + m.word.draw_width) > wrap_limit(m.max_width) && ws != 0;
        let m1 = if wrap { m_start_new_line(m0) } else { m0 };
        let start: i32 = if wrap { 0 } else { ws };
        let glyphs = shifted(m1.glyphs, m.word.glyph_start_idx as int, m1.glyphs.len() as int, start, 0);
        let x = clamp_i32(start + m.word.draw_width);
        let line = line_with_metrics(
            LineInfo { draw_width: x, glyph_end_idx: glyphs.len() as usize, ..m1.line },
            m.word.line_height,
            m.word.line_advance_height,
            m.word.dist_to_baseline,
        );
        m_set_line_align(LayoutModel { glyphs, draw_pos: [x, m1.draw_pos[1]], line, ..m1 }, m.word.horz_align)
    }
}

/// A glyph added to the open word, or to a new word that starts at the cursor with the
/// pending alignment: at the word's next x, after the kerning when the word goes on, and
/// at the baseline moved by the script offset.
pub open spec fn m_append(m: LayoutModel, metrics: LineMetrics, g: GlyphRef, kerning: i32, script_offset: i32) -> LayoutModel {
    let dtb = width_i32(metrics.dist_to_baseline);
    let word1 = if !m.active_word {
        WordInfo {
            prev_char: ' ',
            draw_start_x: m.draw_pos[0],
            draw_width: 0,
            glyph_start_idx: m.glyphs.len() as usize,
            next_glyph_x: 0,
            horz_align: m.pending_align,
            font_dirty: false,
            line_height: metrics.line_height,
            line_advance_height: metrics.line_advance_height,
            dist_to_baseline: dtb,
        }
    } else {
        let w = WordInfo { next_glyph_x: clamp_i32(m.word.next_glyph_x + kerning), ..m.word };
        if w.font_dirty {
            WordInfo { font_dirty: false, ..word_with_metrics(w, metrics.line_height, metrics.line_advance_height, dtb) }
        } else {
            w
        }
    };
    let pos: [i32; 2] = [word1.next_glyph_x, clamp_i32(clamp_i32(0 - dtb) + script_offset)];
    LayoutModel {
        active_word: true,
        word: WordInfo {
            prev_char: g.ch,
            draw_width: clamp_i32(word1.draw_width + g.advance_width),
            next_glyph_x: clamp_i32(word1.next_glyph_x + g.advance_width),
            ..word1
        },
        glyphs: m.glyphs.push((g, pos, m.color)),
        link_dims: if m.link_active { m.link_dims.push([g.render_width, metrics.line_height]) } else { m.link_dims },
        ..m
    }
}

/// The open word ended and the cursor moved past a space.
pub open spec fn m_append_space(m: LayoutModel, space: GlyphRef) -> LayoutModel {
    let e = m_word_end(m);
    LayoutModel { draw_pos: [clamp_i32(e.draw_pos[0] + space.advance_width), e.draw_pos[1]], ..e }
}

/// The open word and the line ended.
pub open spec fn m_next_line(m: LayoutModel) -> LayoutModel {
    m_start_new_line(m_word_end(m))
}

/// The offsets of the first `n` recorded lines computed against the width `w`.
pub open spec fn resolved(cmds: Seq<TextLayoutCmd>, line_cmds: Seq<usize>, line_widths: Seq<i32>, w: i32, n: int) -> Seq<TextLayoutCmd>
    decreases n,
{
    if n <= 0 {
        cmds
    } else {
        let c = resolved(cmds, line_cmds, line_widths, w, n - 1);
        let idx = line_cmds[n - 1] as int;
        match c[idx] {
            TextLayoutCmd::LineSettings { horz_align, .. } => c.update(
                idx,
                TextLayoutCmd::LineSettings { x_offset: align_offset(horz_align, w, line_widths[n - 1]), horz_align },
            ),
            _ => c,
        }
    }
}

/// The last word and line ended, and, without a maximum width, every line's offset
/// computed against the widest line.
pub open spec fn m_finish(m: LayoutModel) -> LayoutModel {
    let f = m_finalize(m_word_end(m));
    if f.max_width is None {
        LayoutModel {
            cmds: resolved(f.cmds, f.line_cmds, f.line_widths, width_i32(f.required_width), f.line_cmds.len() as int),
            ..f
        }
    } else {
        f
    }
}

/// `t` is the layout that the builder state `m` gives when it is finished.
pub open spec fn built_from(t: &TextLayout, m: LayoutModel) -> bool {
    let f = m_finish(m);
    &&& t.spec_cmds() == f.cmds
    &&& t.spec_placed() == f.glyphs
    &&& t.spec_total_width() == f.required_width
    &&& t.spec_total_height() == f.required_height
    &&& t.spec_max_width() == f.max_width
    &&& t.spec_layout_width() == match f.max_width {
        Some(w) => w,
        None => f.required_width,
    }
}


/// The state of a new builder: one empty, left-aligned line, black text, no word open.
pub open spec fn m_new(max_width: Option<u32>) -> LayoutModel {
    LayoutModel {
        draw_pos: [0, 0],
        required_width: 0,
        required_height: 0,
        max_width,
        cmds: seq![TextLayoutCmd::LineSettings { x_offset: 0, horz_align: HorzAlign::Left }],
        glyphs: Seq::empty(),
        line_cmds: Seq::empty(),
        line_widths: Seq::empty(),
        color: Rgba([0, 0, 0, 255]),
        pending_align: HorzAlign::Left,
        script_pos: ScriptPosition::Normal,
        active_word: false,
        word: WordInfo {
            prev_char: ' ',
            draw_start_x: 0,
            draw_width: 0,
            glyph_start_idx: 0,
            next_glyph_x: 0,
            horz_align: HorzAlign::Left,
            font_dirty: false,
            line_height: 0,
            line_advance_height: 0,
            dist_to_baseline: 0,
        },
        line: LineInfo {
            glyph_start_idx: 0,
            glyph_end_idx: 0,
            line_settings_cmd_idx: 0,
            draw_width: 0,
            line_height: 0,
            line_advance_height: 0,
            dist_to_baseline: 0,
        },
        empty: LineWrapMetrics { line_height: 0, line_advance_height: 0, dist_to_baseline: 0 },
        link_active: false,
        link_start: 0,
        link_to: Seq::empty(),
        link_dims: Seq::empty(),
        links: Seq::empty(),
    }
}

/// A tab lays out as four spaces, whether a word is open or not, and a carriage return
/// changes nothing.
pub proof fn lemma_tab_and_return(m: LayoutModel, glyph: GlyphRef, space: GlyphRef, kerning: i32, metrics: LineMetrics, so: i32)
    ensures
        m_char(m, '\t', glyph, space, kerning, metrics, so) == m_char(
            m_char(m_char(m_char(m, ' ', glyph, space, kerning, metrics, so), ' ', glyph, space, kerning, metrics, so), ' ', glyph, space, kerning, metrics, so),
            ' ', glyph, space, kerning, metrics, so,
        ),
        m_char(m, '\r', glyph, space, kerning, metrics, so) == m,
{
}

/// The glyph reference that stands in for a glyph the font lacks.
pub open spec fn blank_ref() -> GlyphRef {
    GlyphRef { handle: (0, 0), ch: ' ', advance_width: 0, render_width: 0 }
}

/// The cached glyph of `ch` at `size`, or the blank reference.
pub open spec fn ref_or_blank(font: &FontCache, size: u32, ch: char) -> GlyphRef {
    if font.cache().entries().contains_key(glyph_key(size, ch)) {
        font.cached_ref(size, ch)
    } else {
        blank_ref()
    }
}

/// One character of a text laid out with the glyphs of `font` at `size` and its kerning
/// at `font_size` after the previous character of the open word.
pub open spec fn text_step(font: &FontCache, size: u32, font_size: u32, metrics: LineMetrics, so: i32, m: LayoutModel, ch: char) -> LayoutModel {
    let kerning: i32 = if m.active_word {
        match font.kerning_of(font_size, m.word.prev_char, ch) {
            Some(k) => k,
            None => 0,
        }
    } else {
        0
    };
    m_char(m, ch, ref_or_blank(font, size, ch), ref_or_blank(font, size, ' '), kerning, metrics, so)
}

/// The characters `cs` laid out one by one from state `m`.
pub open spec fn text_model(font: &FontCache, size: u32, font_size: u32, metrics: LineMetrics, so: i32, m: LayoutModel, cs: Seq<char>) -> LayoutModel
    decreases cs.len(),
{
    if cs.len() == 0 {
        m
    } else {
        text_step(font, size, font_size, metrics, so, text_model(font, size, font_size, metrics, so, m, cs.drop_last()), cs.last())
    }
}

/// Whether `font` holds all that laying out `cs` needs, the word before it ending in
/// `prev`: the space glyph for spaces and tabs, each other character's glyph, and the
/// kerning after the previous character of its word; and the previous character after `cs`.
pub open spec fn text_ready(font: &FontCache, size: u32, font_size: u32, prev: Option<char>, cs: Seq<char>) -> (bool, Option<char>)
    decreases cs.len(),
{
    if cs.len() == 0 {
        (true, prev)
    } else {
        let (ok, p) = text_ready(font, size, font_size, prev, cs.drop_last());
        let ch = cs.last();
        if ch == ' ' || ch == '\t' || ch == '\n' {
            (ok && !((ch == ' ' || ch == '\t') && !font.cache().entries().contains_key(glyph_key(size, ' '))), None)
        } else if ch == '\r' {
            (ok, p)
        } else {
            (ok && font.cache().entries().contains_key(glyph_key(size, ch)) && !(p is Some && font.kerning_of(font_size, p->0, ch) is None), Some(ch))
        }
    }
}

/// The character the next glyph is kerned against, if a word is open.
pub open spec fn open_prev(m: LayoutModel) -> Option<char> {
    if m.active_word { Some(m.word.prev_char) } else { None }
}

/// One character laid out: a space ends the word and moves the cursor, a tab as four
/// spaces, a newline ends the line, a carriage return does nothing, any other character
/// adds `glyph`.
pub open spec fn m_char(m: LayoutModel, ch: char, glyph: GlyphRef, space: GlyphRef, kerning: i32, metrics: LineMetrics, script_offset: i32) -> LayoutModel {
    if ch == ' ' {
        m_append_space(m, space)
    } else if ch == '\t' {
        m_append_space(m_append_space(m_append_space(m_append_space(m, space), space), space), space)
    } else if ch == '\r' {
        m
    } else if ch == '\n' {
        m_next_line(m)
    } else {
        m_append(m, metrics, glyph, kerning, script_offset)
    }
}

struct LayoutCmdBuilder {
    draw_pos: [i32; 2],
    required_width: u32,
    required_height: u32,
    max_width: Option<u32>,
    cmds: Vec<TextLayoutCmd>,
    glyphs: Vec<(GlyphRef, [i32; 2], Rgba)>,
    line_cmds: Vec<usize>,
    line_widths: Vec<i32>,
    color: Rgba,
    pending_align: HorzAlign,
    script_pos: ScriptPosition,
    active_word: bool,
    cur_word: WordInfo,
    cur_line: LineInfo,
    empty_line_metrics: LineWrapMetrics,
    link_active: bool,
    cur_link: LinkInfo,
    links: Vec<LinkInfo>,
    lines: Ghost<Seq<LineRecord>>,
    cur_line_alone: Ghost<bool>,
}

/// A link being tracked: where its glyphs start, its target, and each glyph's size.
struct LinkInfo {
    start_idx: usize,
    link_to: String,
    char_dims: Vec<[u32; 2]>,
}

impl LinkInfo {
    fn new() -> (r: Self)
        ensures
            r.start_idx == 0,
            r.link_to@ == Seq::<char>::empty(),
            r.char_dims@ == Seq::<[u32; 2]>::empty(),
    {
        let r = Self { start_idx: 0, link_to: String::new(), char_dims: Vec::new() };
        assert(r.char_dims@ =~= Seq::<[u32; 2]>::empty());
        r
    }
}

impl LayoutCmdBuilder {
    spec fn model(&self) -> LayoutModel {
        LayoutModel {
            draw_pos: self.draw_pos,
            required_width: self.required_width,
            required_height: self.required_height,
            max_width: self.max_width,
            cmds: self.cmds@,
            glyphs: self.glyphs@,
            line_cmds: self.line_cmds@,
            line_widths: self.line_widths@,
            color: self.color,
            pending_align: self.pending_align,
            script_pos: self.script_pos,
            active_word: self.active_word,
            word: self.cur_word,
            line: self.cur_line,
            empty: self.empty_line_metrics,
            link_active: self.link_active,
            link_start: self.cur_link.start_idx,
            link_to: self.cur_link.link_to@,
            link_dims: self.cur_link.char_dims@,
            links: self.links@.map_values(|l: LinkInfo| (l.start_idx, l.link_to@, l.char_dims@)),
        }
    }

    spec fn wf(&self) -> bool {
        self.wf_with(false)
    }

    /// Well-formed; `closed` when the current line has been finalized already.
    spec fn wf_with(&self, closed: bool) -> bool {
        let lines = self.lines@;
        let cur = self.cur_line.line_settings_cmd_idx as int;
        &&& 0 <= cur < self.cmds@.len()
        &&& self.cmds@[cur].is_line_settings()
        &&& forall|k: int| cur < k < self.cmds@.len() ==> !(#[trigger] self.cmds@[k]).is_line_settings()
        &&& lines_fit_cmds(lines, self.cmds@, if closed { cur + 1 } else { cur })
        &&& (closed ==> lines.len() > 0 && lines.last().cmd == cur)
        &&& self.line_cmds@.len() == lines.len()
        &&& self.line_widths@.len() == lines.len()
        &&& forall|k: int| 0 <= k < lines.len() ==> #[trigger] self.line_cmds@[k] == lines[k].cmd
        &&& forall|k: int| 0 <= k < lines.len() ==> #[trigger] self.line_widths@[k] == lines[k].width
        &&& lines_wrapped(lines, wrap_limit(self.max_width))
        &&& (self.cur_line.draw_width <= wrap_limit(self.max_width) || self.cur_line_alone@)
        &&& (self.max_width matches Some(w) ==> lines_aligned(lines, self.cmds@, width_i32(w)))
        &&& self.required_width == widest(lines)
        &&& self.cur_line.glyph_start_idx <= self.cur_line.glyph_end_idx <= self.glyphs.len()
        &&& self.cur_word.glyph_start_idx <= self.glyphs.len()
        &&& self.draw_pos[1] >= 0
        &&& self.draw_pos[1] == stacked_height(lines)
        &&& self.required_height == self.draw_pos[1] as u32
    }

    fn new(max_width: Option<u32>) -> (r: Self)
        ensures
            r.model() == m_new(max_width),
            r.wf(),
            r.max_width == max_width,
            r.lines@.len() == 0,
    {
        let settings_cmd = TextLayoutCmd::LineSettings { x_offset: 0, horz_align: HorzAlign::Left };
        let r = LayoutCmdBuilder {
            draw_pos: [0, 0],
            required_width: 0,
            required_height: 0,
            max_width,
            cmds: vec![settings_cmd],
            glyphs: Vec::new(),
            line_cmds: Vec::new(),
            line_widths: Vec::new(),
            color: Rgba([0, 0, 0, 255]),
            pending_align: HorzAlign::Left,
            script_pos: ScriptPosition::Normal,
            active_word: false,
            cur_word: WordInfo {
                prev_char: ' ',
                draw_start_x: 0,
                draw_width: 0,
                glyph_start_idx: 0,
                next_glyph_x: 0,
                horz_align: HorzAlign::Left,
                font_dirty: false,
                line_height: 0,
                line_advance_height: 0,
                dist_to_baseline: 0,
            },
            cur_line: LineInfo {
                glyph_start_idx: 0,
                glyph_end_idx: 0,
                line_settings_cmd_idx: 0,
                draw_width: 0,
                line_height: 0,
                line_advance_height: 0,
                dist_to_baseline: 0,
            },
            empty_line_metrics: LineWrapMetrics {
                line_height: 0,
                line_advance_height: 0,
                dist_to_baseline: 0,
            },
            link_active: false,
            cur_link: LinkInfo::new(),
            links: Vec::new(),
            lines: Ghost(Seq::empty()),
            cur_line_alone: Ghost(false),
        };
        proof {
            assert(r.cmds@ =~= seq![settings_cmd]);
            assert(r.glyphs@ =~= Seq::<(GlyphRef, [i32; 2], Rgba)>::empty());
            assert(r.line_cmds@ =~= Seq::<usize>::empty());
            assert(r.line_widths@ =~= Seq::<i32>::empty());
            assert(r.cur_link.link_to@ =~= Seq::<char>::empty());
            assert(r.cur_link.char_dims@ =~= Seq::<[u32; 2]>::empty());
            assert(r.links@.map_values(|l: LinkInfo| (l.start_idx, l.link_to@, l.char_dims@)) =~= Seq::<(usize, Seq<char>, Seq<[u32; 2]>)>::empty());
        }
        r
    }

    fn set_font_info(&mut self, metrics: LineMetrics)
        requires
            old(self).wf(),
        ensures
            final(self).wf(),
            final(self).max_width == old(self).max_width,
            final(self).links@ == old(self).links@,
            final(self).lines@ == old(self).lines@,
            final(self).active_word == old(self).active_word,
            final(self).glyphs.len() == old(self).glyphs.len(),
            glyph_refs(final(self).glyphs@) == glyph_refs(old(self).glyphs@),
            final(self).draw_pos == old(self).draw_pos,
            final(self).model() == m_set_font_info(old(self).model(), metrics),
    {
        self.cur_word.font_dirty = true;
        self.empty_line_metrics.line_height = metrics.line_height;
        self.empty_line_metrics.line_advance_height = metrics.line_advance_height;
        self.empty_line_metrics.dist_to_baseline = width_to_i32(metrics.dist_to_baseline);
    }

    fn set_cur_line_horz_align(&mut self, align: HorzAlign)
        requires
            old(self).wf(),
        ensures
            final(self).wf(),
            final(self).max_width == old(self).max_width,
            final(self).links@ == old(self).links@,
            final(self).lines@ == old(self).lines@,
            final(self).cur_line.draw_width == old(self).cur_line.draw_width,
            final(self).glyphs@ == old(self).glyphs@,
            final(self).active_word == old(self).active_word,
            final(self).model() == m_set_line_align(old(self).model(), align),
    {
        let idx = self.cur_line.line_settings_cmd_idx;
        let cmd = self.cmds[idx];
        if let TextLayoutCmd::LineSettings { x_offset, .. } = cmd {
            let ghost c0 = self.cmds@;
            self.cmds.set(idx, TextLayoutCmd::LineSettings { x_offset, horz_align: align });
            proof {
                let lines = self.lines@;
                assert forall|k: int| 0 <= k < lines.len() implies (#[trigger] self.cmds@[lines[k].cmd]) == c0[lines[k].cmd] by {
                    assert(lines[k].cmd < idx);
                }
            }
        }
    }

    /// Ends the current word: moves it to a new line when it does not fit, and places it.
    fn word_end(&mut self)
        requires
            old(self).wf(),
        ensures
            final(self).wf(),
            final(self).max_width == old(self).max_width,
            final(self).links@ == old(self).links@,
            final(self).lines@.len() >= old(self).lines@.len(),
            !final(self).active_word,
            final(self).glyphs.len() == old(self).glyphs.len(),
            glyph_refs(final(self).glyphs@) == glyph_refs(old(self).glyphs@),
            !old(self).active_word ==> final(self).lines@ == old(self).lines@,
            !old(self).active_word ==> final(self).draw_pos == old(self).draw_pos,
            final(self).model() == m_word_end(old(self).model()),
    {
        if self.active_word {
            self.active_word = false;
            let mut word_start = self.cur_word.draw_start_x;
            let cur_line_width = sat_add(word_start, self.cur_word.draw_width);
            let max_width = match self.max_width {
                Some(v) => width_to_i32(v),
                None => i32::MAX,
            };
            if cur_line_width > max_width && word_start != 0 {
                self.start_new_line();
                word_start = 0;
            }
            let start_idx = self.cur_word.glyph_start_idx;
            let end = self.glyphs.len();
            shift_glyphs(&mut self.glyphs, start_idx, end, word_start, 0);
            self.draw_pos[0] = sat_add(word_start, self.cur_word.draw_width);
            self.cur_line.draw_width = self.draw_pos[0];
            self.cur_line_alone = Ghost(word_start == 0);
            self.cur_line.glyph_end_idx = self.glyphs.len();
            self.cur_line.add_word_metrics(&self.cur_word);
            proof {
                let m = old(self).model();
                let m0 = LayoutModel { active_word: false, ..m };
                let wrap = clamp_i32(m.word.draw_start_x + m.word.draw_width) > wrap_limit(m.max_width) && m.word.draw_start_x != 0;
                let m1 = if wrap { m_start_new_line(m0) } else { m0 };
                assert(self.draw_pos =~= [clamp_i32(word_start + m.word.draw_width), m1.draw_pos[1]]);
            }
            self.set_cur_line_horz_align(self.cur_word.horz_align);
        }
    }

    /// Starts a new line, whatever the current word.
    fn start_new_line(&mut self)
        requires
            old(self).wf(),
        ensures
            final(self).wf(),
            final(self).max_width == old(self).max_width,
            final(self).links@ == old(self).links@,
            final(self).lines@.len() == old(self).lines@.len() + 1,
            final(self).cur_line.draw_width == 0,
            final(self).glyphs.len() == old(self).glyphs.len(),
            glyph_refs(final(self).glyphs@) == glyph_refs(old(self).glyphs@),
            final(self).active_word == old(self).active_word,
            final(self).cur_word.glyph_start_idx == old(self).cur_word.glyph_start_idx,
            final(self).cur_word.draw_width == old(self).cur_word.draw_width,
            final(self).cur_word.horz_align == old(self).cur_word.horz_align,
            final(self).model() == m_start_new_line(old(self).model()),
    {
        self.finalize_line();
        let line_settings_cmd_idx = self.cmds.len();
        self.cmds.push(TextLayoutCmd::LineSettings { x_offset: 0, horz_align: HorzAlign::Left });
        let glyph_start_idx = self.cur_line.glyph_end_idx;
        self.cur_line.glyph_start_idx = glyph_start_idx;
        self.cur_line.glyph_end_idx = glyph_start_idx;
        self.cur_line.line_settings_cmd_idx = line_settings_cmd_idx;
        self.cur_line.draw_width = 0;
        self.cur_line_alone = Ghost(true);
        self.cur_line.init_line_metrics(0, 0, 0);
        proof {
            let mm = m_start_new_line(old(self).model());
            assert(self.cmds@ =~= mm.cmds);
            assert(self.cur_line == mm.line);
        }
    }

    /// Finishes the current line without starting the next one.
    #[verifier::rlimit(60)]
    fn finalize_line(&mut self)
        requires
            old(self).wf(),
        ensures
            final(self).wf_with(true),
            final(self).max_width == old(self).max_width,
            final(self).links@ == old(self).links@,
            final(self).lines@.len() == old(self).lines@.len() + 1,
            final(self).lines@.last().cmd == old(self).cur_line.line_settings_cmd_idx,
            final(self).lines@.last().width == old(self).cur_line.draw_width,
            final(self).cmds@[old(self).cur_line.line_settings_cmd_idx as int].align() == old(self).cmds@[old(self).cur_line.line_settings_cmd_idx as int].align(),
            final(self).max_width matches Some(w) ==> final(self).cmds@[old(self).cur_line.line_settings_cmd_idx as int].offset() == align_offset(
                old(self).cmds@[old(self).cur_line.line_settings_cmd_idx as int].align(),
                width_i32(w),
                old(self).cur_line.draw_width,
            ),
            final(self).cur_line.line_settings_cmd_idx == old(self).cur_line.line_settings_cmd_idx,
            final(self).cmds.len() >= old(self).cmds.len(),
            final(self).glyphs.len() == old(self).glyphs.len(),
            glyph_refs(final(self).glyphs@) == glyph_refs(old(self).glyphs@),
            final(self).active_word == old(self).active_word,
            final(self).cur_line.glyph_end_idx == old(self).cur_line.glyph_end_idx,
            final(self).cur_word.glyph_start_idx == old(self).cur_word.glyph_start_idx,
            final(self).cur_word.draw_width == old(self).cur_word.draw_width,
            final(self).cur_word.horz_align == old(self).cur_word.horz_align,
            final(self).model() == m_finalize(old(self).model()),
    {
        let start_idx = self.cur_line.glyph_start_idx;
        let end_idx = self.cur_line.glyph_end_idx;
        let ghost c0 = self.cmds@;
        if start_idx == end_idx {
            let lh = self.empty_line_metrics.line_height;
            let lah = self.empty_line_metrics.line_advance_height;
            let dtb = self.empty_line_metrics.dist_to_baseline;
            self.cur_line.init_line_metrics(lh, lah, dtb);
        } else {
            self.cmds.push(TextLayoutCmd::Glyphs { glyph_range: [start_idx as u32, end_idx as u32] });
        }
        let y_draw_offset = sat_add(self.draw_pos[1], self.cur_line.dist_to_baseline);
        shift_glyphs(&mut self.glyphs, start_idx, end_idx, 0, y_draw_offset);
        let w = self.cur_line.draw_width;
        if w > 0 && (w as u32) > self.required_width {
            self.required_width = w as u32;
        }
        self.draw_pos[0] = 0;
        let dy = width_to_i32(self.cur_line.line_advance_height);
        let ny = sat_add(self.draw_pos[1], dy);
        self.draw_pos[1] = ny;
        self.required_height = ny as u32;
        let idx = self.cur_line.line_settings_cmd_idx;
        if let Some(max_width) = self.max_width {
            let max_w = width_to_i32(max_width);
            let cmd = self.cmds[idx];
            if let TextLayoutCmd::LineSettings { horz_align, .. } = cmd {
                let off = compute_align_offset(horz_align, max_w, w);
                self.cmds.set(idx, TextLayoutCmd::LineSettings { x_offset: off, horz_align });
            }
        }
        let ghost c1 = self.cmds@;
        self.line_cmds.push(idx);
        self.line_widths.push(w);
        let ghost old_lines = self.lines@;
        self.lines = Ghost(self.lines@.push(LineRecord { cmd: idx as int, width: w, alone: self.cur_line_alone@, advance: dy }));
        proof {
            let mm = m_finalize(old(self).model());
            assert(self.cmds@ =~= mm.cmds);
            assert(self.line_cmds@ =~= mm.line_cmds);
            assert(self.line_widths@ =~= mm.line_widths);
            assert(self.draw_pos =~= mm.draw_pos);
            assert(self.links@.map_values(|l: LinkInfo| (l.start_idx, l.link_to@, l.char_dims@)) =~= mm.links);
            let lines = self.lines@;
            assert forall|k: int| 0 <= k < old_lines.len() implies (#[trigger] c1[old_lines[k].cmd]) == c0[old_lines[k].cmd] by {
                assert(old_lines[k].cmd < idx);
            }
            assert forall|k: int| 0 <= k < lines.len() implies #[trigger] self.line_cmds@[k] == lines[k].cmd by {
                if k < old_lines.len() {
                    assert(self.line_cmds@[k] == old(self).line_cmds@[k]);
                }
            }
            assert forall|k: int| 0 <= k < lines.len() implies #[trigger] self.line_widths@[k] == lines[k].width by {
                if k < old_lines.len() {
                    assert(self.line_widths@[k] == old(self).line_widths@[k]);
                }
            }
            assert(lines.drop_last() =~= old_lines);
            assert forall|k: int| 0 <= k < lines.len() implies (#[trigger] lines[k].width <= wrap_limit(self.max_width) || lines[k].alone) by {
                if k < old_lines.len() {
                    assert(lines[k] == old_lines[k]);
                }
            }
            if self.max_width is Some {
                assert forall|k: int| 0 <= k < lines.len() implies (#[trigger] self.cmds@[lines[k].cmd]).offset() == align_offset(
                    self.cmds@[lines[k].cmd].align(),
                    width_i32(self.max_width->0),
                    lines[k].width,
                ) by {
                    if k < old_lines.len() {
                        assert(lines[k] == old_lines[k]);
                    }
                }
            }
        }
    }

    /// Adds a glyph to the current word, starting a word if none is open.
    fn append(&mut self, metrics: LineMetrics, g: GlyphRef, kerning: i32, script_offset: i32)
        requires
            old(self).wf(),
        ensures
            final(self).wf(),
            glyph_refs(final(self).glyphs@) == glyph_refs(old(self).glyphs@).push(g),
            final(self).glyphs@.last().0 == g,
            final(self).glyphs@.last().1[0] == (if old(self).active_word { clamp_i32(old(self).cur_word.next_glyph_x + kerning) } else { 0i32 }),
            final(self).glyphs@.last().1[1] == clamp_i32(clamp_i32(0 - width_i32(metrics.dist_to_baseline)) + script_offset),
            final(self).glyphs@.last().2 == old(self).color,
            final(self).cur_word.draw_width == clamp_i32((if old(self).active_word { old(self).cur_word.draw_width as int } else { 0 }) + g.advance_width),
            final(self).cur_word.next_glyph_x == clamp_i32(final(self).glyphs@.last().1[0] + g.advance_width),
            final(self).max_width == old(self).max_width,
            final(self).links@ == old(self).links@,
            final(self).lines@ == old(self).lines@,
            final(self).glyphs.len() == old(self).glyphs.len() + 1,
            final(self).active_word,
            final(self).model() == m_append(old(self).model(), metrics, g, kerning, script_offset),
    {
        let line_height = metrics.line_height;
        let line_advance_height = metrics.line_advance_height;
        let dist_to_baseline = width_to_i32(metrics.dist_to_baseline);
        if !self.active_word {
            self.active_word = true;
            self.cur_word.prev_char = ' ';
            self.cur_word.draw_start_x = self.draw_pos[0];
            self.cur_word.draw_width = 0;
            self.cur_word.glyph_start_idx = self.glyphs.len();
            self.cur_word.next_glyph_x = 0;
            self.cur_word.horz_align = self.pending_align;
            self.cur_word.init_line_metrics(line_height, line_advance_height, dist_to_baseline);
            self.cur_word.font_dirty = false;
        } else {
            self.cur_word.next_glyph_x = sat_add(self.cur_word.next_glyph_x, kerning);
            if self.cur_word.font_dirty {
                self.cur_word.add_line_metrics(line_height, line_advance_height, dist_to_baseline);
                self.cur_word.font_dirty = false;
            }
        }
        self.cur_word.prev_char = g.ch;
        self.cur_word.draw_width = sat_add(self.cur_word.draw_width, g.advance_width);
        let y_offset = sat_sub(0, dist_to_baseline);
        let glyph_pos = [self.cur_word.next_glyph_x, sat_add(y_offset, script_offset)];
        let ghost g0 = self.glyphs@;
        self.glyphs.push((g, glyph_pos, self.color));
        assert(glyph_refs(self.glyphs@) =~= glyph_refs(g0).push(g));
        self.cur_word.next_glyph_x = sat_add(self.cur_word.next_glyph_x, g.advance_width);
        if self.link_active {
            self.cur_link.char_dims.push([g.render_width, line_height]);
        }
        proof {
            let mm = m_append(old(self).model(), metrics, g, kerning, script_offset);
            assert(self.glyphs@ =~= mm.glyphs);
            assert(self.cur_link.char_dims@ =~= mm.link_dims);
            assert(self.cur_word == mm.word);
        }
    }

    /// The settings command of the line that holds glyph `glyph_idx`.
    fn line_settings_for_glyph(&self, glyph_idx: usize) -> (r: TextLayoutCmd)
        ensures
            r == settings_from(self.cmds@, glyph_idx as u32, 0, TextLayoutCmd::LineSettings { x_offset: 0, horz_align: HorzAlign::Left }),
    {
        let glyph_u32 = glyph_idx as u32;
        let mut cur = TextLayoutCmd::LineSettings { x_offset: 0, horz_align: HorzAlign::Left };
        let mut i: usize = 0;
        while i < self.cmds.len()
            invariant
                glyph_u32 == glyph_idx as u32,
                settings_from(self.cmds@, glyph_u32, 0, TextLayoutCmd::LineSettings { x_offset: 0, horz_align: HorzAlign::Left })
                    == settings_from(self.cmds@, glyph_u32, i as int, cur),
            decreases self.cmds.len() - i,
        {
            let cmd = self.cmds[i];
            match cmd {
                TextLayoutCmd::Glyphs { glyph_range } => {
                    if glyph_u32 >= glyph_range[0] && glyph_u32 < glyph_range[1] {
                        assert(self.cmds@[i as int] == cmd);
                        assert(settings_from(self.cmds@, glyph_u32, i as int, cur) == cur);
                        return cur;
                    }
                },
                TextLayoutCmd::LineSettings { .. } => {
                    cur = cmd;
                },
            }
            i = i + 1;
        }
        cur
    }

    /// Ends the current word and moves the cursor past a space.
    fn append_space(&mut self, space: GlyphRef)
        requires
            old(self).wf(),
        ensures
            !old(self).active_word ==> final(self).draw_pos[0] == clamp_i32(old(self).draw_pos[0] + space.advance_width),
            !old(self).active_word ==> final(self).lines@ == old(self).lines@,
            final(self).wf(),
            final(self).max_width == old(self).max_width,
            final(self).links@ == old(self).links@,
            final(self).lines@.len() >= old(self).lines@.len(),
            !final(self).active_word,
            final(self).glyphs.len() == old(self).glyphs.len(),
            glyph_refs(final(self).glyphs@) == glyph_refs(old(self).glyphs@),
            final(self).model() == m_append_space(old(self).model(), space),
    {
        self.word_end();
        self.draw_pos[0] = sat_add(self.draw_pos[0], space.advance_width);
        assert(self.draw_pos =~= m_append_space(old(self).model(), space).draw_pos);
    }

    /// Ends the current word and the current line.
    fn next_line(&mut self)
        requires
            old(self).wf(),
        ensures
            final(self).wf(),
            final(self).max_width == old(self).max_width,
            final(self).links@ == old(self).links@,
            final(self).lines@.len() > old(self).lines@.len(),
            !final(self).active_word,
            final(self).glyphs.len() == old(self).glyphs.len(),
            glyph_refs(final(self).glyphs@) == glyph_refs(old(self).glyphs@),
            final(self).model() == m_next_line(old(self).model()),
    {
        self.word_end();
        self.start_new_line();
    }

    /// Ends the last word and line, and computes the offsets that waited for the final width.
    fn finish(&mut self)
        requires
            old(self).wf(),
        ensures
            final(self).max_width == old(self).max_width,
            final(self).links@ == old(self).links@,
            lines_fit_cmds(final(self).lines@, final(self).cmds@, final(self).cmds@.len() as int),
            lines_wrapped(final(self).lines@, wrap_limit(final(self).max_width)),
            lines_aligned(
                final(self).lines@,
                final(self).cmds@,
                width_i32(
                    match final(self).max_width {
                        Some(w) => w,
                        None => final(self).required_width,
                    },
                ),
            ),
            final(self).required_width == widest(final(self).lines@),
            final(self).required_height == stacked_height(final(self).lines@),
            glyph_refs(final(self).glyphs@) == glyph_refs(old(self).glyphs@),
            final(self).lines@.len() > old(self).lines@.len(),
            final(self).line_cmds@.len() == final(self).lines@.len(),
            final(self).line_widths@.len() == final(self).lines@.len(),
            forall|k: int| 0 <= k < final(self).lines@.len() ==> #[trigger] final(self).line_cmds@[k] == final(self).lines@[k].cmd,
            forall|k: int| 0 <= k < final(self).lines@.len() ==> #[trigger] final(self).line_widths@[k] == final(self).lines@[k].width,
            final(self).model() == m_finish(old(self).model()),
    {
        self.word_end();
        self.finalize_line();
        let ghost f = self.model();
        if self.max_width.is_none() {
            let max_w = width_to_i32(self.required_width);
            let n = self.line_cmds.len();
            let mut k: usize = 0;
            let ghost lines = self.lines@;
            let ghost c0 = self.cmds@;
            while k < n
                invariant
                    self.max_width is None,
                    f.max_width is None,
                    self.model() == (LayoutModel { cmds: self.cmds@, ..f }),
                    self.cmds@ == resolved(f.cmds, f.line_cmds, f.line_widths, width_i32(f.required_width), k as int),
                    self.links@ == old(self).links@,
                    glyph_refs(self.glyphs@) == glyph_refs(old(self).glyphs@),
                    self.lines@.len() > old(self).lines@.len(),
                    n == lines.len(),
                    lines == self.lines@,
                    k <= n,
                    max_w == width_i32(self.required_width),
                    self.required_width == widest(lines),
                    self.required_height == stacked_height(lines),
                    self.cmds@.len() == c0.len(),
                    lines_fit_cmds(lines, c0, c0.len() as int),
                    lines_fit_cmds(lines, self.cmds@, self.cmds@.len() as int),
                    self.line_cmds@.len() == n,
                    self.line_widths@.len() == n,
                    forall|j: int| 0 <= j < n ==> #[trigger] self.line_cmds@[j] == lines[j].cmd,
                    forall|j: int| 0 <= j < n ==> #[trigger] self.line_widths@[j] == lines[j].width,
                    forall|j: int| 0 <= j < k ==> (#[trigger] self.cmds@[lines[j].cmd]).offset() == align_offset(
                        self.cmds@[lines[j].cmd].align(),
                        max_w,
                        lines[j].width,
                    ),
                    forall|j: int| k <= j < n ==> #[trigger] self.cmds@[lines[j].cmd] == c0[lines[j].cmd],
                decreases n - k,
            {
                let idx = self.line_cmds[k];
                let w = self.line_widths[k];
                let cmd = self.cmds[idx];
                let ghost c1 = self.cmds@;
                if let TextLayoutCmd::LineSettings { horz_align, .. } = cmd {
                    let off = compute_align_offset(horz_align, max_w, w);
                    self.cmds.set(idx, TextLayoutCmd::LineSettings { x_offset: off, horz_align });
                }
                proof {
                    assert(self.cmds@ =~= resolved(f.cmds, f.line_cmds, f.line_widths, width_i32(f.required_width), k + 1));
                    assert forall|j: int| 0 <= j < n && j != k implies #[trigger] self.cmds@[lines[j].cmd] == c1[lines[j].cmd] by {
                        if j < k {
                            assert(lines[j].cmd < lines[k as int].cmd);
                        } else {
                            assert(lines[k as int].cmd < lines[j].cmd);
                        }
                    }
                    assert(lines_fit_cmds(lines, self.cmds@, self.cmds@.len() as int)) by {
                        assert forall|j: int| 0 <= j < n implies (#[trigger] self.cmds@[lines[j].cmd]).is_line_settings() by {
                            if j != k {
                                assert(self.cmds@[lines[j].cmd] == c1[lines[j].cmd]);
                            }
                        }
                    }
                }
                k = k + 1;
            }
            assert(self.model() == m_finish(old(self).model()));
        }
    }
}

} // verus!

verus! {

/// One glyph to paint: its decoded rows, whether its stream is well formed, where, and in
/// which color.
pub struct GlyphDraw {
    pub rows: Seq<Seq<u8>>,
    pub ok: bool,
    pub pos: [i32; 2],
    pub color: Rgba,
}

/// The draw of `g`, at its position `rel` from the line start `line_x` and the top `y0`,
/// if `font` holds it.
pub open spec fn placed_draw(font: &FontCache, g: GlyphRef, rel: [i32; 2], color: Rgba, line_x: i32, y0: i32) -> Option<GlyphDraw> {
    match font.glyph_at(g.handle) {
        Some(gl) => Some(GlyphDraw {
            rows: decode_rows(gl.inst@),
            ok: glyph_ok(gl.inst@),
            pos: [clamp_i32(line_x + rel[0]), clamp_i32(y0 + rel[1])],
            color,
        }),
        None => None,
    }
}

/// The draws of the placed glyphs `from..to`, in order.
pub open spec fn range_draws(font: &FontCache, items: Seq<(GlyphRef, [i32; 2], Rgba)>, from: int, to: int, line_x: i32, y0: i32) -> Seq<GlyphDraw>
    decreases to - from,
{
    if from >= to || from < 0 {
        Seq::empty()
    } else {
        let rest = range_draws(font, items, from + 1, to, line_x, y0);
        match placed_draw(font, items[from].0, items[from].1, items[from].2, line_x, y0) {
            Some(d) => seq![d] + rest,
            None => rest,
        }
    }
}

/// Where a line starts once a settings command is read, the lines aligned in a layout
/// `extra` narrower than the drawing width.
pub open spec fn line_start(x0: i32, extra: i32, x_offset: i32, align: HorzAlign) -> i32 {
    let shift = match align {
        HorzAlign::Left => x_offset,
        HorzAlign::Center => clamp_i32(half_toward_zero(extra as int) + x_offset),
        HorzAlign::Right => clamp_i32(extra + x_offset),
    };
    clamp_i32(x0 + shift)
}

/// The draws that the commands `cmds` make, the current line starting at `line_x`.
pub open spec fn layout_draws(font: &FontCache, cmds: Seq<TextLayoutCmd>, items: Seq<(GlyphRef, [i32; 2], Rgba)>, pos: [i32; 2], extra: i32, line_x: i32) -> Seq<GlyphDraw>
    decreases cmds.len(),
{
    if cmds.len() == 0 {
        Seq::empty()
    } else {
        match cmds[0] {
            TextLayoutCmd::Glyphs { glyph_range } => {
                let to = if glyph_range[1] < items.len() { glyph_range[1] as int } else { items.len() as int };
                range_draws(font, items, glyph_range[0] as int, to, line_x, pos[1]) + layout_draws(font, cmds.drop_first(), items, pos, extra, line_x)
            },
            TextLayoutCmd::LineSettings { x_offset, horz_align } => layout_draws(font, cmds.drop_first(), items, pos, extra, line_start(pos[0], extra, x_offset, horz_align)),
        }
    }
}

/// `b` is `a` with the draw `d` painted, as `Glyph::draw` paints it, where its stream is
/// well formed.
pub open spec fn painted_by(c: &Canvas, a: Image, d: GlyphDraw, b: Image) -> bool {
    &&& b.spec_width() == a.spec_width()
    &&& b.spec_height() == a.spec_height()
    &&& d.ok ==> glyph_painted(c, a, d.rows, d.pos, d.color, d.color.0[3] == 255, b)
}

/// `imgs` steps from image to image by the draws `ds`, one each.
pub open spec fn painted_in_turn(c: &Canvas, imgs: Seq<Image>, ds: Seq<GlyphDraw>) -> bool {
    &&& imgs.len() == ds.len() + 1
    &&& forall|k: int| 0 <= k < ds.len() ==> painted_by(c, #[trigger] imgs[k], ds[k], imgs[k + 1])
}

/// Draws the placed glyph `g`, if `font` holds it.
fn draw_placed(c: &mut Canvas, font: &FontCache, g: GlyphRef, rel: [i32; 2], color: Rgba, line_x: i32, y0: i32, c0: Ghost<Canvas>)
    requires
        old(c).wf(),
        font.wf(),
        old(c).same_frame(&c0@),
    ensures
        final(c).wf(),
        final(c).same_frame(&c0@),
        match placed_draw(font, g, rel, color, line_x, y0) {
            Some(d) => painted_by(&c0@, old(c).image(), d, final(c).image()),
            None => final(c).image() == old(c).image(),
        },
{
    let ghost before = c.image();
    if let Some(glyph) = font.glyph(g.handle) {
        glyph.draw(c, [sat_add(line_x, rel[0]), sat_add(y0, rel[1])], color);
        proof {
            let d = placed_draw(font, g, rel, color, line_x, y0)->0;
            if d.ok {
                assert forall|px: int, py: int|
                    0 <= px < before.spec_width() && 0 <= py < before.spec_height() implies #[trigger] c.image().pixel(px, py) == (if c0@.covers(px, py) {
                        glyph_pixel(before.pixel(px, py), d.color, cell(d.rows, py - d.pos[1], px - d.pos[0]), d.color.0[3] == 255)
                    } else {
                        before.pixel(px, py)
                    }) by {
                }
            }
        }
    }
}


impl TextLayout {
    /// The finished lines, each with its settings command and width.
    pub closed spec fn lines(&self) -> Seq<LineRecord> {
        Seq::new(
            self.line_cmds@.len(),
            |k: int|
                LineRecord {
                    cmd: self.line_cmds@[k] as int,
                    width: self.line_widths@[k],
                    alone: self.lines_alone@[k],
                    advance: self.lines_advance@[k],
                },
        )
    }

    pub closed spec fn spec_cmds(&self) -> Seq<TextLayoutCmd> {
        self.cmds@
    }

    /// The placed glyphs: glyph, position in its line, color.
    pub closed spec fn spec_placed(&self) -> Seq<(GlyphRef, [i32; 2], Rgba)> {
        self.glyphs@
    }

    /// The glyphs placed, in the order they were added.
    pub closed spec fn spec_glyphs(&self) -> Seq<GlyphRef> {
        glyph_refs(self.glyphs@)
    }

    pub closed spec fn spec_max_width(&self) -> Option<u32> {
        self.max_width
    }

    /// The width that the lines were aligned in.
    pub closed spec fn spec_layout_width(&self) -> u32 {
        self.layout_width
    }

    /// The width of the widest line.
    pub closed spec fn spec_total_width(&self) -> u32 {
        self.min_dim[0]
    }

    /// The sum of the lines' advance heights.
    pub closed spec fn spec_total_height(&self) -> u32 {
        self.min_dim[1]
    }

    pub closed spec fn wf(&self) -> bool {
        let lines = self.lines();
        &&& self.line_widths@.len() == self.line_cmds@.len()
        &&& self.lines_alone@.len() == self.line_cmds@.len()
        &&& self.lines_advance@.len() == self.line_cmds@.len()
        &&& self.min_dim[1] == stacked_height(lines)
        &&& lines_fit_cmds(lines, self.cmds@, self.cmds@.len() as int)
        &&& lines_wrapped(lines, wrap_limit(self.max_width))
        &&& lines_aligned(lines, self.cmds@, width_i32(self.layout_width))
        &&& self.layout_width == match self.max_width {
            Some(w) => w,
            None => self.min_dim[0],
        }
        &&& self.min_dim[0] == widest(lines)
    }

    /// The size that the text needs: the widest line's width, and the sum of the lines'
    /// advance heights.
    pub fn required_dim(&self) -> (r: [u32; 2])
        ensures
            r[0] == self.spec_total_width(),
            self.wf() ==> r[1] == stacked_height(self.lines()),
    {
        self.min_dim
    }

    /// The width that the lines were aligned in: the maximum width if one was given, else
    /// the width of the widest line.
    pub fn layout_width(&self) -> (r: u32)
        ensures
            r == self.spec_layout_width(),
    {
        self.layout_width
    }

    /// The number of lines.
    pub fn line_count(&self) -> (r: usize)
        requires
            self.wf(),
        ensures
            r == self.lines().len(),
    {
        self.line_cmds.len()
    }

    /// The width of line `k`.
    pub fn line_width(&self, k: usize) -> (r: i32)
        requires
            self.wf(),
            k < self.lines().len(),
        ensures
            r == self.lines()[k as int].width,
    {
        self.line_widths[k]
    }

    /// The horizontal offset of line `k`.
    pub fn line_offset(&self, k: usize) -> (r: i32)
        requires
            self.wf(),
            k < self.lines().len(),
        ensures
            r == self.spec_cmds()[self.lines()[k as int].cmd].offset(),
    {
        assert(self.lines()[k as int].cmd == self.line_cmds@[k as int]);
        let c = self.cmds[self.line_cmds[k]];
        match c {
            TextLayoutCmd::LineSettings { x_offset, .. } => x_offset,
            TextLayoutCmd::Glyphs { .. } => 0,
        }
    }

    /// Draws the text with its top-left corner at `pos`, its lines aligned in `width`.
    /// Glyphs that `font` does not hold, and pixels outside the canvas, are skipped.
    pub fn render(&self, pos: [i32; 2], width: u32, c: &mut Canvas, font: &FontCache)
        requires
            old(c).wf(),
            font.wf(),
        ensures
            final(c).wf(),
            final(c).same_frame(old(c)),
            exists|imgs: Seq<Image>| #![trigger painted_in_turn(old(c), imgs, layout_draws(font, self.spec_cmds(), self.spec_placed(), pos, clamp_i32(width_i32(width) - width_i32(self.spec_layout_width())), pos[0]))]
                painted_in_turn(old(c), imgs, layout_draws(font, self.spec_cmds(), self.spec_placed(), pos, clamp_i32(width_i32(width) - width_i32(self.spec_layout_width())), pos[0]))
                && imgs[0] == old(c).image() && imgs.last() == final(c).image(),
    {
        let center_extra = sat_sub(width_to_i32(width), width_to_i32(self.layout_width));
        let ghost c0: Canvas = *c;
        let ghost total = layout_draws(font, self.cmds@, self.glyphs@, pos, center_extra, pos[0]);
        let ghost mut done: Seq<GlyphDraw> = Seq::empty();
        let ghost mut imgs: Seq<Image> = seq![c.image()];
        let mut line_offset = pos[0];
        let mut i: usize = 0;
        assert(self.cmds@.subrange(0, self.cmds@.len() as int) =~= self.cmds@);
        while i < self.cmds.len()
            invariant
                c.wf(),
                c.same_frame(&c0),
                c0 == *old(c),
                font.wf(),
                i <= self.cmds.len(),
                total == layout_draws(font, self.cmds@, self.glyphs@, pos, center_extra, pos[0]),
                total == done + layout_draws(font, self.cmds@.subrange(i as int, self.cmds@.len() as int), self.glyphs@, pos, center_extra, line_offset),
                painted_in_turn(&c0, imgs, done),
                imgs[0] == c0.image(),
                imgs.last() == c.image(),
            decreases self.cmds.len() - i,
        {
            let ghost rest = self.cmds@.subrange(i as int, self.cmds@.len() as int);
            proof {
                assert(rest.drop_first() =~= self.cmds@.subrange(i + 1, self.cmds@.len() as int));
                assert(rest[0] == self.cmds@[i as int]);
            }
            match self.cmds[i] {
                TextLayoutCmd::Glyphs { glyph_range } => {
                    let end = if (glyph_range[1] as usize) < self.glyphs.len() {
                        glyph_range[1] as usize
                    } else {
                        self.glyphs.len()
                    };
                    let ghost after = layout_draws(font, self.cmds@.subrange(i + 1, self.cmds@.len() as int), self.glyphs@, pos, center_extra, line_offset);
                    let mut k = glyph_range[0] as usize;
                    while k < end
                        invariant
                            c.wf(),
                            c.same_frame(&c0),
                            c0 == *old(c),
                            font.wf(),
                            end <= self.glyphs.len(),
                            k >= 0,
                            total == done + range_draws(font, self.glyphs@, k as int, end as int, line_offset, pos[1]) + after,
                            painted_in_turn(&c0, imgs, done),
                            imgs[0] == c0.image(),
                            imgs.last() == c.image(),
                        decreases end - k,
                    {
                        let (g, rel_pos, color) = self.glyphs[k];
                        let ghost before = c.image();
                        let ghost d0 = done;
                        let ghost i0 = imgs;
                        draw_placed(c, font, g, rel_pos, color, line_offset, pos[1], Ghost(c0));
                        proof {
                            match placed_draw(font, g, rel_pos, color, line_offset, pos[1]) {
                                Some(d) => {
                                    done = done.push(d);
                                    imgs = imgs.push(c.image());
                                    assert forall|j: int| 0 <= j < done.len() implies painted_by(&c0, #[trigger] imgs[j], done[j], imgs[j + 1]) by {
                                        if j < d0.len() {
                                            assert(imgs[j] == i0[j] && imgs[j + 1] == i0[j + 1] && done[j] == d0[j]);
                                        }
                                    }
                                    assert(d0 + range_draws(font, self.glyphs@, k as int, end as int, line_offset, pos[1]) =~= done + range_draws(font, self.glyphs@, k + 1, end as int, line_offset, pos[1]));
                                },
                                None => {
                                    assert(imgs.last() == c.image());
                                },
                            }
                        }
                        k = k + 1;
                    }
                    proof {
                        assert(range_draws(font, self.glyphs@, k as int, end as int, line_offset, pos[1]) =~= Seq::<GlyphDraw>::empty());
                        assert(done + Seq::<GlyphDraw>::empty() + after =~= done + after);
                    }
                },
                TextLayoutCmd::LineSettings { x_offset, horz_align } => {
                    let shift = match horz_align {
                        HorzAlign::Left => x_offset,
                        HorzAlign::Center => sat_add(center_extra / 2, x_offset),
                        HorzAlign::Right => sat_add(center_extra, x_offset),
                    };
                    line_offset = sat_add(pos[0], shift);
                },
            }
            i = i + 1;
        }
        proof {
            assert(self.cmds@.subrange(i as int, self.cmds@.len() as int) =~= Seq::<TextLayoutCmd>::empty());
            assert(done =~= total);
            assert(total == layout_draws(font, self.spec_cmds(), self.spec_placed(), pos, clamp_i32(width_i32(width) - width_i32(self.spec_layout_width())), pos[0]));
            assert(painted_in_turn(old(c), imgs, total));
        }
    }

    /// The layout's commands, in drawing order.
    pub fn cmds(&self) -> (r: &Vec<TextLayoutCmd>)
        ensures
            r@ == self.spec_cmds(),
    {
        &self.cmds
    }

    /// The placed glyphs: each glyph, its position relative to its line, and its color.
    pub fn glyphs(&self) -> (r: &Vec<(GlyphRef, [i32; 2], Rgba)>)
        ensures
            glyph_refs(r@) == self.spec_glyphs(),
    {
        &self.glyphs
    }
}

/// With a maximum width `W`, no line is wider than `W` but a line whose last word starts
/// at the left edge: a word that is wider than `W` alone stays on its own line, unsplit.
pub proof fn lemma_word_wrap(t: &TextLayout)
    requires
        t.wf(),
    ensures
        forall|k: int|
            0 <= k < t.lines().len() && t.spec_max_width() is Some ==> #[trigger] t.lines()[k].width
                <= width_i32(t.spec_max_width()->0) || t.lines()[k].alone,
{
}

/// With a maximum width `W`: a left-aligned line has offset 0, and a line no wider than `W`
/// ends, after its offset, no further right than `W`.
pub proof fn lemma_alignment(t: &TextLayout)
    requires
        t.wf(),
    ensures
        forall|k: int|
            0 <= k < t.lines().len() && (#[trigger] t.spec_cmds()[t.lines()[k].cmd]).align()
                == HorzAlign::Left ==> t.spec_cmds()[t.lines()[k].cmd].offset() == 0,
        forall|k: int|
            0 <= k < t.lines().len() && t.spec_max_width() is Some && t.lines()[k].width <= width_i32(
                t.spec_max_width()->0,
            ) ==> (#[trigger] t.spec_cmds()[t.lines()[k].cmd]).offset() + t.lines()[k].width
                <= width_i32(t.spec_max_width()->0),
{
    assert forall|k: int|
        0 <= k < t.lines().len() && t.spec_max_width() is Some && t.lines()[k].width <= width_i32(
            t.spec_max_width()->0,
        ) implies (#[trigger] t.spec_cmds()[t.lines()[k].cmd]).offset() + t.lines()[k].width
        <= width_i32(t.spec_max_width()->0) by {
        let w = width_i32(t.spec_max_width()->0);
        let lw = t.lines()[k].width;
        assert(t.spec_cmds()[t.lines()[k].cmd].offset() == align_offset(
            t.spec_cmds()[t.lines()[k].cmd].align(),
            w,
            lw,
        ));
    }
}

/// No line is wider than the widest.
proof fn lemma_widest_bounds(lines: Seq<LineRecord>)
    ensures
        forall|k: int| 0 <= k < lines.len() ==> #[trigger] lines[k].width <= widest(lines),
        widest(lines) >= 0,
    decreases lines.len(),
{
    if lines.len() > 0 {
        lemma_widest_bounds(lines.drop_last());
        assert forall|k: int| 0 <= k < lines.len() implies #[trigger] lines[k].width <= widest(lines) by {
            if k < lines.len() - 1 {
                assert(lines[k] == lines.drop_last()[k]);
            }
        }
    }
}

/// Without a maximum width, each line's offset is the one that its alignment gives in a
/// layout as wide as the widest line, and every line fits in that width: what a layout
/// given that width up front computes.
pub proof fn lemma_deferred_alignment(t: &TextLayout)
    requires
        t.wf(),
    ensures
        t.spec_max_width() is None ==> t.spec_layout_width() == t.spec_total_width(),
        t.spec_max_width() is None ==> forall|k: int| 0 <= k < t.lines().len() ==> #[trigger] t.lines()[k].width <= t.spec_total_width(),
        forall|k: int|
            0 <= k < t.lines().len() ==> (#[trigger] t.spec_cmds()[t.lines()[k].cmd]).offset()
                == align_offset(
                t.spec_cmds()[t.lines()[k].cmd].align(),
                width_i32(t.spec_layout_width()),
                t.lines()[k].width,
            ),
{
    lemma_widest_bounds(t.lines());
}

/// Lays out text: words, wrapped at a maximum width, in lines with their alignment.
pub struct TextLayoutBuilder {
    font_size: u32,
    metrics: LineMetrics,
    b: LayoutCmdBuilder,
}

impl TextLayoutBuilder {
    pub closed spec fn wf(&self) -> bool {
        self.b.wf()
    }

    pub closed spec fn spec_max_width(&self) -> Option<u32> {
        self.b.max_width
    }

    pub closed spec fn spec_font_size(&self) -> u32 {
        self.font_size
    }

    pub closed spec fn spec_script_pos(&self) -> ScriptPosition {
        self.b.script_pos
    }

    /// Everything that decides the layout built from here on.
    pub closed spec fn model(&self) -> LayoutModel {
        self.b.model()
    }

    /// The vertical metrics at the font size.
    pub closed spec fn spec_metrics(&self) -> LineMetrics {
        self.metrics
    }

    /// How far below the baseline the next glyph is moved: a subscript is moved down by
    /// what its smaller size saves.
    pub closed spec fn spec_script_offset(&self) -> i32 {
        match self.b.script_pos {
            ScriptPosition::Subscript => clamp_i32(width_i32(self.font_size) - width_i32(self.spec_script_size())),
            _ => 0,
        }
    }

    /// The size at which the next glyph is drawn.
    pub closed spec fn spec_script_size(&self) -> u32 {
        if self.b.script_pos == ScriptPosition::Normal {
            self.font_size
        } else {
            (self.font_size * 5 / 8) as u32
        }
    }

    pub closed spec fn spec_color(&self) -> Rgba {
        self.b.color
    }

    pub closed spec fn spec_pending_align(&self) -> HorzAlign {
        self.b.pending_align
    }

    pub closed spec fn spec_word_open(&self) -> bool {
        self.b.active_word
    }

    /// Where each link ended so far points.
    pub closed spec fn spec_link_target(&self, k: int) -> Seq<char> {
        self.b.links@[k].link_to@
    }

    /// The first glyph of each link ended so far.
    pub closed spec fn spec_link_start(&self, k: int) -> int {
        self.b.links@[k].start_idx as int
    }

    /// The number of glyphs of each link ended so far.
    pub closed spec fn spec_link_len(&self, k: int) -> int {
        self.b.links@[k].char_dims@.len() as int
    }

    /// Glyph `j` belongs to one of the first `n` links, or to the first `off` glyphs of
    /// link `n`.
    pub open spec fn in_links(&self, j: int, n: int, off: int) -> bool {
        ||| exists|k: int| 0 <= k < n && #[trigger] self.spec_link_start(k) <= j < self.spec_link_start(k) + self.spec_link_len(k)
        ||| (self.spec_link_start(n) <= j < self.spec_link_start(n) + off)
    }

    /// The glyph sizes recorded for link `k`.
    pub closed spec fn spec_link_dims(&self, k: int) -> Seq<[u32; 2]> {
        self.b.links@[k].char_dims@
    }

    /// `ll` is the layout of link `k` cut out of the finished layout: its target, its
    /// glyphs with their positions, sizes and colors, the commands of its lines cropped and
    /// re-based, and its bounding boxes.
    pub open spec fn link_layout_is(&self, k: int, ll: &LinkLayout) -> bool {
        let f = m_finish(self.model());
        let lw = match f.max_width {
            Some(w) => w,
            None => f.required_width,
        };
        let a = self.spec_link_start(k);
        let n = self.spec_link_len(k);
        let cnt = if a < f.glyphs.len() { min_int(n, f.glyphs.len() - a) } else { 0 };
        &&& ll.spec_link_to() == self.spec_link_target(k)
        &&& ll.spec_layout_width() == lw
        &&& ll.spec_link_glyphs().len() == cnt
        &&& forall|j: int| 0 <= j < cnt ==> #[trigger] ll.spec_link_glyphs()[j] == (
            f.glyphs[a + j].0,
            f.glyphs[a + j].1,
            self.spec_link_dims(k)[j],
            f.glyphs[a + j].2,
        )
        &&& ll.spec_cmds() == link_cmds_spec(
            f.cmds,
            settings_from(f.cmds, a as u32, 0, TextLayoutCmd::LineSettings { x_offset: 0, horz_align: HorzAlign::Left }),
            a as u32,
            (a as u64).saturating_add(n as u64) as u32,
        )
        &&& ll.spec_boxes() == link_boxes_spec(ll.spec_cmds(), ll.spec_link_glyphs(), lw)
    }

    /// The number of links ended so far.
    pub closed spec fn spec_link_count(&self) -> nat {
        self.b.links@.len()
    }

    /// Where the next word starts on the current line.
    pub closed spec fn spec_cursor_x(&self) -> i32 {
        self.b.draw_pos[0]
    }

    /// The number of lines finished so far.
    pub closed spec fn spec_line_count(&self) -> nat {
        self.b.lines@.len()
    }

    /// The glyphs placed so far.
    pub closed spec fn spec_glyphs(&self) -> Seq<GlyphRef> {
        glyph_refs(self.b.glyphs@)
    }

    /// A builder for lines at most `expected_max_width` wide, or as wide as their text.
    pub fn new(expected_max_width: Option<u32>) -> (r: Self)
        ensures
            r.model() == m_new(expected_max_width),
            r.wf(),
            r.spec_max_width() == expected_max_width,
            r.spec_font_size() == 16,
    {
        let b = LayoutCmdBuilder::new(expected_max_width);
        Self {
            font_size: 16,
            metrics: LineMetrics { line_height: 0, line_advance_height: 0, dist_to_baseline: 0 },
            b,
        }
    }

    /// Sets the font size, with the font's vertical metrics at that size.
    pub fn set_font_size(&mut self, font_size: u32, metrics: LineMetrics)
        requires
            old(self).wf(),
        ensures
            final(self).wf(),
            final(self).spec_max_width() == old(self).spec_max_width(),
            final(self).spec_font_size() == font_size,
            final(self).model() == m_set_font_info(old(self).model(), metrics),
            final(self).spec_metrics() == metrics,
    {
        self.font_size = font_size;
        self.metrics = metrics;
        self.b.set_font_info(metrics);
    }

    /// The size at which the next glyph is drawn: smaller for super- and subscripts.
    pub fn script_size(&self) -> (r: u32)
        ensures
            self.spec_script_pos() == ScriptPosition::Normal ==> r == self.spec_font_size(),
            self.spec_script_pos() != ScriptPosition::Normal ==> r == self.spec_font_size() * 5 / 8,
            r == self.spec_script_size(),
    {
        match self.b.script_pos {
            ScriptPosition::Normal => self.font_size,
            _ => ((self.font_size as u64) * 5 / 8) as u32,
        }
    }

    fn script_offset(&self) -> (r: i32)
        ensures
            r == self.spec_script_offset(),
    {
        match self.b.script_pos {
            ScriptPosition::Normal => 0,
            ScriptPosition::Superscript => 0,
            ScriptPosition::Subscript => sat_sub(
                width_to_i32(self.font_size),
                width_to_i32(self.script_size()),
            ),
        }
    }

    /// The character that the next glyph is kerned against, if a word is open.
    pub fn prev_char(&self) -> (r: Option<char>)
        ensures
            r is Some == self.spec_word_open(),
            r == open_prev(self.model()),
    {
        if self.b.active_word {
            Some(self.b.cur_word.prev_char)
        } else {
            None
        }
    }

    /// Adds one character. `glyph` is its glyph at the script size, `space` the space
    /// glyph at that size, and `kerning` the kerning after the previous character of the
    /// word. A space ends the word, a tab counts as four spaces, a newline ends the line,
    /// and a carriage return is ignored.
    pub fn add_char(&mut self, ch: char, glyph: GlyphRef, space: GlyphRef, kerning: i32)
        requires
            old(self).wf(),
        ensures
            final(self).model() == m_char(m_set_font_info(old(self).model(), old(self).spec_metrics()), ch, glyph, space, kerning, old(self).spec_metrics(), old(self).spec_script_offset()),
            final(self).spec_metrics() == old(self).spec_metrics(),
            final(self).spec_script_size() == old(self).spec_script_size(),
            !old(self).spec_word_open() && ch == ' ' ==> final(self).spec_cursor_x() == clamp_i32(old(self).spec_cursor_x() + space.advance_width)
                && final(self).spec_line_count() == old(self).spec_line_count(),
            !old(self).spec_word_open() && ch == '\t' ==> final(self).spec_cursor_x() == spaced(old(self).spec_cursor_x(), space.advance_width, 4)
                && final(self).spec_line_count() == old(self).spec_line_count(),
            final(self).wf(),
            final(self).spec_max_width() == old(self).spec_max_width(),
            final(self).spec_font_size() == old(self).spec_font_size(),
            final(self).spec_line_count() >= old(self).spec_line_count(),
            ch == ' ' || ch == '\t' || ch == '\n' ==> !final(self).spec_word_open() && final(self).spec_glyphs() == old(self).spec_glyphs(),
            ch == '\n' ==> final(self).spec_line_count() > old(self).spec_line_count(),
            ch == '\r' ==> final(self).spec_word_open() == old(self).spec_word_open() && final(self).spec_glyphs() == old(self).spec_glyphs()
                && final(self).spec_line_count() == old(self).spec_line_count(),
            ch != ' ' && ch != '\t' && ch != '\n' && ch != '\r' ==> final(self).spec_word_open()
                && final(self).spec_glyphs() == old(self).spec_glyphs().push(glyph),
    {
        self.b.set_font_info(self.metrics);
        self.add_next_char(ch, glyph, space, kerning);
    }

    fn add_next_char(&mut self, ch: char, glyph: GlyphRef, space: GlyphRef, kerning: i32)
        requires
            old(self).wf(),
        ensures
            final(self).model() == m_char(old(self).model(), ch, glyph, space, kerning, old(self).spec_metrics(), old(self).spec_script_offset()),
            final(self).spec_metrics() == old(self).spec_metrics(),
            final(self).spec_script_size() == old(self).spec_script_size(),
            final(self).spec_script_offset() == old(self).spec_script_offset(),
            ch == '\r' ==> *final(self) == *old(self),
            !old(self).spec_word_open() && ch == ' ' ==> final(self).spec_cursor_x() == clamp_i32(old(self).spec_cursor_x() + space.advance_width)
                && final(self).spec_line_count() == old(self).spec_line_count(),
            !old(self).spec_word_open() && ch == '\t' ==> final(self).spec_cursor_x() == spaced(old(self).spec_cursor_x(), space.advance_width, 4)
                && final(self).spec_line_count() == old(self).spec_line_count(),
            final(self).wf(),
            final(self).spec_max_width() == old(self).spec_max_width(),
            final(self).spec_font_size() == old(self).spec_font_size(),
            final(self).metrics == old(self).metrics,
            final(self).spec_line_count() >= old(self).spec_line_count(),
            ch == ' ' || ch == '\t' || ch == '\n' ==> !final(self).spec_word_open() && final(self).spec_glyphs() == old(self).spec_glyphs(),
            ch == '\n' ==> final(self).spec_line_count() > old(self).spec_line_count(),
            ch == '\r' ==> final(self).spec_word_open() == old(self).spec_word_open() && final(self).spec_glyphs() == old(self).spec_glyphs()
                && final(self).spec_line_count() == old(self).spec_line_count(),
            ch != ' ' && ch != '\t' && ch != '\n' && ch != '\r' ==> final(self).spec_word_open()
                && final(self).spec_glyphs() == old(self).spec_glyphs().push(glyph),
    {
        if ch == ' ' {
            self.b.append_space(space);
        } else if ch == '\t' {
            let mut i: u32 = 0;
            while i < 4
                invariant
                    self.wf(),
                    self.b.max_width == old(self).b.max_width,
                    self.font_size == old(self).font_size,
                    self.metrics == old(self).metrics,
                    i <= 4,
                    i > 0 ==> !self.b.active_word,
                    !old(self).b.active_word ==> !self.b.active_word,
                    !old(self).b.active_word ==> self.b.draw_pos[0] == spaced(old(self).b.draw_pos[0], space.advance_width, i as nat),
                    !old(self).b.active_word ==> self.b.lines@ == old(self).b.lines@,
                    self.b.script_pos == old(self).b.script_pos,
                    i == 0 ==> self.b.model() == old(self).b.model(),
                    i == 1 ==> self.b.model() == m_append_space(old(self).b.model(), space),
                    i == 2 ==> self.b.model() == m_append_space(m_append_space(old(self).b.model(), space), space),
                    i == 3 ==> self.b.model() == m_append_space(m_append_space(m_append_space(old(self).b.model(), space), space), space),
                    i == 4 ==> self.b.model() == m_append_space(m_append_space(m_append_space(m_append_space(old(self).b.model(), space), space), space), space),
                    glyph_refs(self.b.glyphs@) == glyph_refs(old(self).b.glyphs@),
                    self.b.lines@.len() >= old(self).b.lines@.len(),
                decreases 4 - i,
            {
                self.b.append_space(space);
                i = i + 1;
            }
        } else if ch == '\r' {
        } else if ch == '\n' {
            self.b.next_line();
        } else {
            let offset = self.script_offset();
            self.b.append(self.metrics, glyph, kerning, offset);
        }
    }

    /// Adds a text, in normalization form C, with the glyphs and kerning that `font` holds
    /// at the script size. Where the font lacks some of them, nothing is added and the
    /// missing ones are returned, so that they can be added to the font before a retry.
    pub fn add_text(&mut self, font: &FontCache, txt: &str) -> (r: Result<(), Vec<Missing>>)
        requires
            old(self).wf(),
            font.wf(),
        ensures
            final(self).wf(),
            final(self).spec_max_width() == old(self).spec_max_width(),
            final(self).spec_font_size() == old(self).spec_font_size(),
            r is Err ==> *final(self) == *old(self),
            r is Err ==> r->Err_0@.len() > 0,
            r is Err ==> forall|k: int| 0 <= k < r->Err_0@.len() ==> font.lacks_item(#[trigger] r->Err_0@[k]),
            r is Ok ==> glyphs_cached(font, old(self).spec_script_size(), nfc_of(txt@)),
            r is Ok ==> final(self).spec_glyphs() == old(self).spec_glyphs() + visible_refs(font, old(self).spec_script_size(), nfc_of(txt@)),
            r is Ok ==> final(self).spec_line_count() >= old(self).spec_line_count() + newline_count(nfc_of(txt@)),
            (r is Ok) == text_ready(font, old(self).spec_script_size(), old(self).spec_font_size(), open_prev(old(self).model()), nfc_of(txt@)).0,
            r is Ok ==> final(self).model() == text_model(
                font,
                old(self).spec_script_size(),
                old(self).spec_font_size(),
                old(self).spec_metrics(),
                old(self).spec_script_offset(),
                m_set_font_info(old(self).model(), old(self).spec_metrics()),
                nfc_of(txt@),
            ),
    {
        let chars = nfc_chars(txt);
        assert(chars@.subrange(0, 0) =~= Seq::<char>::empty());
        let size = self.script_size();
        let space = font.cached_glyph(size, ' ');
        let missing = self.missing_for(font, &chars, size);
        assert(chars@.subrange(0, chars@.len() as int) =~= chars@);
        if missing.len() > 0 {
            return Err(missing);
        }
        self.b.set_font_info(self.metrics);
        assert(chars@.subrange(0, 0) =~= Seq::<char>::empty());
        assert(self.spec_glyphs() =~= old(self).spec_glyphs() + visible_refs(font, size, chars@.subrange(0, 0)));
        let blank = GlyphRef { handle: (0, 0), ch: ' ', advance_width: 0, render_width: 0 };
        let space_ref = match space {
            Some(g) => g,
            None => blank,
        };
        proof {
            if space is Some {
                assert(space->0 == font.cached_ref(size, ' '));
            }
        }
        let mut j: usize = 0;
        while j < chars.len()
            invariant
                j <= chars.len(),
                font.wf(),
                self.wf(),
                self.b.max_width == old(self).b.max_width,
                self.font_size == old(self).font_size,
                self.metrics == old(self).metrics,
                size == old(self).spec_script_size(),
                chars@ == nfc_of(txt@),
                glyphs_cached(font, size, chars@),
                self.spec_glyphs() == old(self).spec_glyphs() + visible_refs(font, size, chars@.subrange(0, j as int)),
                self.spec_line_count() >= old(self).spec_line_count() + newline_count(chars@.subrange(0, j as int)),
                self.spec_script_offset() == old(self).spec_script_offset(),
                self.spec_script_size() == old(self).spec_script_size(),
                space is Some <==> font.cache().entries().contains_key(glyph_key(size, ' ')),
                space is Some ==> space->0 == font.cached_ref(size, ' '),
                space_ref == ref_or_blank(font, size, ' '),
                blank == blank_ref(),
                self.model() == text_model(font, size, old(self).spec_font_size(), old(self).spec_metrics(), old(self).spec_script_offset(),
                    m_set_font_info(old(self).model(), old(self).spec_metrics()), chars@.subrange(0, j as int)),
            decreases chars.len() - j,
        {
            let ch = chars[j];
            proof {
                assert(chars@.subrange(0, j + 1).drop_last() =~= chars@.subrange(0, j as int));
                assert(chars@.subrange(0, j + 1).last() == ch);
            }
            let glyph = match font.cached_glyph(size, ch) {
                Some(g) => g,
                None => blank,
            };
            proof {
                if font.cache().entries().contains_key(glyph_key(size, ch)) {
                    assert(glyph == font.cached_ref(size, ch));
                }
                assert(glyph == ref_or_blank(font, size, ch));
            }
            let kerning = match self.prev_char() {
                Some(p) => match font.cached_kerning(self.font_size, p, ch) {
                    Some(k) => k,
                    None => 0,
                },
                None => 0,
            };
            self.add_next_char(ch, glyph, space_ref, kerning);
            proof {
                if is_glyph_char(ch) {
                    assert(glyph == font.cached_ref(size, ch));
                }

                assert(self.spec_glyphs() =~= old(self).spec_glyphs() + visible_refs(font, size, chars@.subrange(0, j + 1)));
            }
            j = j + 1;
        }
        assert(chars@.subrange(0, chars@.len() as int) =~= chars@);
        Ok(())
    }

    /// What `font` lacks to lay out `chars` after the current state, glyphs at `size`.
    fn missing_for(&self, font: &FontCache, chars: &Vec<char>, size: u32) -> (r: Vec<Missing>)
        requires
            font.wf(),
        ensures
            forall|k: int| 0 <= k < r@.len() ==> font.lacks_item(#[trigger] r@[k]),
            r@.len() == 0 ==> glyphs_cached(font, size, chars@),
            (r@.len() == 0) == text_ready(font, size, self.font_size, open_prev(self.model()), chars@).0,
    {
        let mut missing: Vec<Missing> = Vec::new();
        let space_missing = font.cached_glyph(size, ' ').is_none();
        let mut prev = self.prev_char();
        let mut i: usize = 0;
        while i < chars.len()
            invariant
                i <= chars.len(),
                font.wf(),
                space_missing == !font.cache().entries().contains_key(glyph_key(size, ' ')),
                forall|k: int| 0 <= k < missing@.len() ==> font.lacks_item(#[trigger] missing@[k]),
                missing@.len() == 0 ==> glyphs_cached(font, size, chars@.subrange(0, i as int)),
                (missing@.len() == 0) == text_ready(font, size, self.font_size, open_prev(self.model()), chars@.subrange(0, i as int)).0,
                prev == text_ready(font, size, self.font_size, open_prev(self.model()), chars@.subrange(0, i as int)).1,
            decreases chars.len() - i,
        {
            let ch = chars[i];
            let ghost m0 = missing@;
            proof {
                assert(chars@.subrange(0, i + 1).drop_last() =~= chars@.subrange(0, i as int));
                assert(chars@.subrange(0, i + 1).last() == ch);
                if missing@.len() == 0 {
                    assert forall|j: int| 0 <= j < i && is_glyph_char(#[trigger] chars@[j]) implies font.cache().entries().contains_key(glyph_key(size, chars@[j])) by {
                        assert(chars@.subrange(0, i as int)[j] == chars@[j]);
                    }
                }
            }
            if ch == ' ' || ch == '\t' || ch == '\n' {
                if (ch == ' ' || ch == '\t') && space_missing {
                    push_missing(font, &mut missing, Missing::Glyph(size, ' '));
                }
                prev = None;
            } else if ch != '\r' {
                let found = font.cached_glyph(size, ch);
                if found.is_none() {
                    push_missing(font, &mut missing, Missing::Glyph(size, ch));
                }
                if let Some(p) = prev {
                    let kern = font.cached_kerning(self.font_size, p, ch);
                    if kern.is_none() {
                        push_missing(font, &mut missing, Missing::Kerning(self.font_size, p, ch));
                    }
                }
                prev = Some(ch);
            }
            proof {
                if missing@.len() == 0 {
                    assert forall|j: int| 0 <= j < i + 1 && is_glyph_char(#[trigger] chars@.subrange(0, i + 1)[j]) implies font.cache().entries().contains_key(glyph_key(size, chars@.subrange(0, i + 1)[j])) by {
                        assert(chars@.subrange(0, i + 1)[j] == chars@[j]);
                    }
                }
            }
            i = i + 1;
        }
        assert(chars@.subrange(0, chars@.len() as int) =~= chars@);
        missing
    }

    /// Ends the current word, as a space would, without moving the cursor.
    pub fn add_word_break(&mut self)
        requires
            old(self).wf(),
        ensures
            final(self).wf(),
            final(self).spec_max_width() == old(self).spec_max_width(),
            final(self).spec_font_size() == old(self).spec_font_size(),
            final(self).model() == m_word_end(old(self).model()),
    {
        self.b.word_end();
    }

    /// Sets the color of the glyphs added from now on.
    pub fn set_color(&mut self, color: Rgba)
        requires
            old(self).wf(),
        ensures
            final(self).wf(),
            final(self).spec_max_width() == old(self).spec_max_width(),
            final(self).spec_font_size() == old(self).spec_font_size(),
            final(self).spec_color() == color,
            final(self).spec_glyphs() == old(self).spec_glyphs(),
            final(self).spec_line_count() == old(self).spec_line_count(),
            final(self).model() == (LayoutModel { color, ..old(self).model() }),
    {
        self.b.color = color;
    }

    /// Sets the alignment of the words added from now on; a line takes the alignment of
    /// its last word.
    pub fn set_horz_align(&mut self, horz_align: HorzAlign)
        requires
            old(self).wf(),
        ensures
            final(self).wf(),
            final(self).spec_max_width() == old(self).spec_max_width(),
            final(self).spec_font_size() == old(self).spec_font_size(),
            final(self).spec_pending_align() == horz_align,
            final(self).spec_glyphs() == old(self).spec_glyphs(),
            final(self).spec_line_count() == old(self).spec_line_count(),
            final(self).model() == (LayoutModel { pending_align: horz_align, ..old(self).model() }),
    {
        self.b.pending_align = horz_align;
    }

    /// Sets whether the characters added from now on are normal, superscript or subscript.
    pub fn set_script_pos(&mut self, script: ScriptPosition)
        requires
            old(self).wf(),
        ensures
            final(self).wf(),
            final(self).spec_max_width() == old(self).spec_max_width(),
            final(self).spec_font_size() == old(self).spec_font_size(),
            final(self).spec_script_pos() == script,
            final(self).model() == (LayoutModel { script_pos: script, ..old(self).model() }),
    {
        self.b.script_pos = script;
    }

    /// Finishes the layout.
    pub fn build(self) -> (r: TextLayout)
        requires
            self.wf(),
        ensures
            r.wf(),
            r.spec_max_width() == self.spec_max_width(),
            r.spec_glyphs() == self.spec_glyphs(),
            r.lines().len() > self.spec_line_count(),
            built_from(&r, self.model()),
    {
        let mut b = self.b;
        b.finish();
        let layout_width = match b.max_width {
            Some(w) => w,
            None => b.required_width,
        };
        let ghost alone = Seq::new(b.lines@.len(), |k: int| b.lines@[k].alone);
        let r = TextLayout {
            min_dim: [b.required_width, b.required_height],
            layout_width,
            max_width: b.max_width,
            cmds: b.cmds,
            glyphs: b.glyphs,
            line_cmds: b.line_cmds,
            line_widths: b.line_widths,
            lines_alone: Ghost(alone),
            lines_advance: Ghost(Seq::new(b.lines@.len(), |k: int| b.lines@[k].advance)),
        };
        assert(r.lines() =~= b.lines@);
        r
    }
}

} // verus!

verus! {

/// A box round the part of a link that lies on one line, in layout coordinates.
#[derive(Clone, Copy, Debug)]
pub struct LinkBoundingBox {
    pub x_offset: i32,
    pub layout_width: u32,
    pub horz_align: HorzAlign,
    pub pos: [i32; 2],
    pub dim: [u32; 2],
}

/// A length that does not fit `i32` taken as `i32::MAX`.
fn len_to_i32(v: u32) -> (r: i32)
    ensures
        r == width_i32(v),
{
    width_to_i32(v)
}

impl LinkBoundingBox {
    pub closed spec fn spec_dim(&self) -> [u32; 2] {
        self.dim
    }

    pub closed spec fn spec_pos(&self) -> [i32; 2] {
        self.pos
    }

    /// The x position of the box in a drawing `final_width` wide.
    pub closed spec fn spec_x_for_width(&self, final_width: u32) -> i32 {
        let extra = clamp_i32(width_i32(final_width) - width_i32(self.layout_width));
        let x = clamp_i32(self.x_offset + self.pos[0]);
        match self.horz_align {
            HorzAlign::Left => x,
            HorzAlign::Center => clamp_i32(half_toward_zero(extra as int) + x),
            HorzAlign::Right => clamp_i32(extra + x),
        }
    }

    /// The box's position and size once the text is drawn with its lines aligned in
    /// `final_width`.
    pub fn rect_for_width(&self, final_width: u32) -> (r: ([i32; 2], [u32; 2]))
        ensures
            r.1 == self.spec_dim(),
            r.0[1] == self.spec_pos()[1],
            r.0[0] == self.spec_x_for_width(final_width),
    {
        let center_extra = sat_sub(width_to_i32(final_width), width_to_i32(self.layout_width));
        let x = sat_add(self.x_offset, self.pos[0]);
        match self.horz_align {
            HorzAlign::Left => ([x, self.pos[1]], self.dim),
            HorzAlign::Center => ([sat_add(center_extra / 2, x), self.pos[1]], self.dim),
            HorzAlign::Right => ([sat_add(center_extra, x), self.pos[1]], self.dim),
        }
    }

    /// Grows the box to take in the rectangle at `pos` of size `dim`.
    fn extend_to(&mut self, pos: [i32; 2], dim: [u32; 2])
        ensures
            *final(self) == extended(*old(self), pos, dim),
    {
        let end_x = sat_add(pos[0], len_to_i32(dim[0]));
        let end_y = sat_add(pos[1], len_to_i32(dim[1]));
        if pos[1] < self.pos[1] {
            let dy = sat_sub(self.pos[1], pos[1]);
            self.dim = [self.dim[0], self.dim[1].saturating_add(dy as u32)];
            self.pos = [self.pos[0], pos[1]];
        }
        let cur_end_x = sat_add(self.pos[0], len_to_i32(self.dim[0]));
        if end_x > cur_end_x {
            let dx = sat_sub(end_x, cur_end_x);
            self.dim = [self.dim[0].saturating_add(dx as u32), self.dim[1]];
        }
        let cur_end_y = sat_add(self.pos[1], len_to_i32(self.dim[1]));
        if end_y > cur_end_y {
            let dy = sat_sub(end_y, cur_end_y);
            self.dim = [self.dim[0], self.dim[1].saturating_add(dy as u32)];
        }
    }
}

/// The glyphs of one link, cut out of a layout so that they can be drawn on their own.
pub struct LinkLayout {
    link_to: String,
    layout_width: u32,
    cmds: Vec<TextLayoutCmd>,
    glyphs: Vec<(GlyphRef, [i32; 2], [u32; 2], Rgba)>,
    bounding_boxes: Vec<LinkBoundingBox>,
}

/// The smaller of two integers.
pub open spec fn min_int(a: int, b: int) -> int {
    if a < b { a } else { b }
}

/// Link glyphs, all in one color.
pub open spec fn link_items(glyphs: Seq<(GlyphRef, [i32; 2], [u32; 2], Rgba)>, color: Rgba) -> Seq<(GlyphRef, [i32; 2], Rgba)> {
    Seq::new(glyphs.len(), |k: int| (glyphs[k].0, glyphs[k].1, color))
}

impl LinkLayout {
    pub closed spec fn spec_link_glyphs(&self) -> Seq<(GlyphRef, [i32; 2], [u32; 2], Rgba)> {
        self.glyphs@
    }

    pub closed spec fn spec_boxes(&self) -> Seq<LinkBoundingBox> {
        self.bounding_boxes@
    }

    pub closed spec fn spec_cmds(&self) -> Seq<TextLayoutCmd> {
        self.cmds@
    }

    pub closed spec fn spec_layout_width(&self) -> u32 {
        self.layout_width
    }

    pub closed spec fn spec_link_to(&self) -> Seq<char> {
        self.link_to@
    }

    pub closed spec fn spec_glyph_count(&self) -> nat {
        self.glyphs@.len()
    }

    /// Where the link points.
    pub fn link_to(&self) -> (r: &str)
        ensures
            r@ == self.spec_link_to(),
    {
        self.link_to.as_str()
    }

    /// One box per line that the link lies on.
    pub fn bounding_boxes(&self) -> (r: &[LinkBoundingBox])
        ensures
            r@ == self.spec_boxes(),
    {
        self.bounding_boxes.as_slice()
    }

    /// The link's glyphs, with their positions, sizes and colors.
    pub fn glyphs(&self) -> (r: &Vec<(GlyphRef, [i32; 2], [u32; 2], Rgba)>)
        ensures
            r@.len() == self.spec_glyph_count(),
    {
        &self.glyphs
    }

    /// Draws the link's glyphs in `link_color`, as `TextLayout::render` draws a layout.
    pub fn render(&self, pos: [i32; 2], final_width: u32, link_color: Rgba, c: &mut Canvas, font: &FontCache)
        requires
            old(c).wf(),
            font.wf(),
        ensures
            final(c).wf(),
            final(c).same_frame(old(c)),
            exists|imgs: Seq<Image>| #![trigger painted_in_turn(old(c), imgs, layout_draws(font, self.spec_cmds(), link_items(self.spec_link_glyphs(), link_color), pos, clamp_i32(width_i32(final_width) - width_i32(self.spec_layout_width())), pos[0]))]
                painted_in_turn(old(c), imgs, layout_draws(font, self.spec_cmds(), link_items(self.spec_link_glyphs(), link_color), pos, clamp_i32(width_i32(final_width) - width_i32(self.spec_layout_width())), pos[0]))
                && imgs[0] == old(c).image() && imgs.last() == final(c).image(),
    {
        let center_extra = sat_sub(width_to_i32(final_width), width_to_i32(self.layout_width));
        let ghost items = link_items(self.glyphs@, link_color);
        let ghost c0: Canvas = *c;
        let ghost total = layout_draws(font, self.cmds@, items, pos, center_extra, pos[0]);
        let ghost mut done: Seq<GlyphDraw> = Seq::empty();
        let ghost mut imgs: Seq<Image> = seq![c.image()];
        let mut line_offset = pos[0];
        let mut i: usize = 0;
        assert(self.cmds@.subrange(0, self.cmds@.len() as int) =~= self.cmds@);
        while i < self.cmds.len()
            invariant
                c.wf(),
                c.same_frame(&c0),
                c0 == *old(c),
                font.wf(),
                i <= self.cmds.len(),
                items == link_items(self.glyphs@, link_color),
                total == layout_draws(font, self.cmds@, items, pos, center_extra, pos[0]),
                total == done + layout_draws(font, self.cmds@.subrange(i as int, self.cmds@.len() as int), items, pos, center_extra, line_offset),
                painted_in_turn(&c0, imgs, done),
                imgs[0] == c0.image(),
                imgs.last() == c.image(),
            decreases self.cmds.len() - i,
        {
            let ghost rest = self.cmds@.subrange(i as int, self.cmds@.len() as int);
            proof {
                assert(rest.drop_first() =~= self.cmds@.subrange(i + 1, self.cmds@.len() as int));
                assert(rest[0] == self.cmds@[i as int]);
            }
            match self.cmds[i] {
                TextLayoutCmd::Glyphs { glyph_range } => {
                    let end = if (glyph_range[1] as usize) < self.glyphs.len() {
                        glyph_range[1] as usize
                    } else {
                        self.glyphs.len()
                    };
                    let ghost after = layout_draws(font, self.cmds@.subrange(i + 1, self.cmds@.len() as int), items, pos, center_extra, line_offset);
                    let mut k = glyph_range[0] as usize;
                    while k < end
                        invariant
                            c.wf(),
                            c.same_frame(&c0),
                            c0 == *old(c),
                            font.wf(),
                            end <= self.glyphs.len(),
                            items == link_items(self.glyphs@, link_color),
                            k >= 0,
                            total == done + range_draws(font, items, k as int, end as int, line_offset, pos[1]) + after,
                            painted_in_turn(&c0, imgs, done),
                            imgs[0] == c0.image(),
                            imgs.last() == c.image(),
                        decreases end - k,
                    {
                        let (g, rel_pos, _dim, _color) = self.glyphs[k];
                        let color = link_color;
                        assert(items[k as int] == (g, rel_pos, color));
                        let ghost before = c.image();
                        let ghost d0 = done;
                        let ghost i0 = imgs;
                        draw_placed(c, font, g, rel_pos, color, line_offset, pos[1], Ghost(c0));
                        proof {
                            match placed_draw(font, g, rel_pos, color, line_offset, pos[1]) {
                                Some(d) => {
                                    done = done.push(d);
                                    imgs = imgs.push(c.image());
                                    assert forall|j: int| 0 <= j < done.len() implies painted_by(&c0, #[trigger] imgs[j], done[j], imgs[j + 1]) by {
                                        if j < d0.len() {
                                            assert(imgs[j] == i0[j] && imgs[j + 1] == i0[j + 1] && done[j] == d0[j]);
                                        }
                                    }
                                    assert(d0 + range_draws(font, items, k as int, end as int, line_offset, pos[1]) =~= done + range_draws(font, items, k + 1, end as int, line_offset, pos[1]));
                                },
                                None => {
                                    assert(imgs.last() == c.image());
                                },
                            }
                        }
                        k = k + 1;
                    }
                    proof {
                        assert(range_draws(font, items, k as int, end as int, line_offset, pos[1]) =~= Seq::<GlyphDraw>::empty());
                        assert(done + Seq::<GlyphDraw>::empty() + after =~= done + after);
                    }
                },
                TextLayoutCmd::LineSettings { x_offset, horz_align } => {
                    let shift = match horz_align {
                        HorzAlign::Left => x_offset,
                        HorzAlign::Center => sat_add(center_extra / 2, x_offset),
                        HorzAlign::Right => sat_add(center_extra, x_offset),
                    };
                    line_offset = sat_add(pos[0], shift);
                },
            }
            i = i + 1;
        }
        proof {
            assert(self.cmds@.subrange(i as int, self.cmds@.len() as int) =~= Seq::<TextLayoutCmd>::empty());
            assert(done =~= total);
            assert(total == layout_draws(font, self.spec_cmds(), link_items(self.spec_link_glyphs(), link_color), pos, clamp_i32(width_i32(final_width) - width_i32(self.spec_layout_width())), pos[0]));
            assert(painted_in_turn(old(c), imgs, total));
        }
    }
}


/// `b` grown to take in the rectangle at `pos` of size `dim`: up to its top, and right
/// and down to its far edges.
pub open spec fn extended(b: LinkBoundingBox, pos: [i32; 2], dim: [u32; 2]) -> LinkBoundingBox {
    let end_x = clamp_i32(pos[0] + width_i32(dim[0]));
    let end_y = clamp_i32(pos[1] + width_i32(dim[1]));
    let b1 = if pos[1] < b.pos[1] {
        LinkBoundingBox {
            dim: [b.dim[0], b.dim[1].saturating_add(clamp_i32(b.pos[1] - pos[1]) as u32)],
            pos: [b.pos[0], pos[1]],
            ..b
        }
    } else {
        b
    };
    let cur_end_x = clamp_i32(b1.pos[0] + width_i32(b1.dim[0]));
    let b2 = if end_x > cur_end_x {
        LinkBoundingBox { dim: [b1.dim[0].saturating_add(clamp_i32(end_x - cur_end_x) as u32), b1.dim[1]], ..b1 }
    } else {
        b1
    };
    let cur_end_y = clamp_i32(b2.pos[1] + width_i32(b2.dim[1]));
    if end_y > cur_end_y {
        LinkBoundingBox { dim: [b2.dim[0], b2.dim[1].saturating_add(clamp_i32(end_y - cur_end_y) as u32)], ..b2 }
    } else {
        b2
    }
}

/// The box once link glyph `g` is taken in: the glyph's own rectangle where the box is
/// still empty.
pub open spec fn box_with(b: LinkBoundingBox, g: (GlyphRef, [i32; 2], [u32; 2], Rgba)) -> LinkBoundingBox {
    if b.dim[0] == 0 {
        LinkBoundingBox { pos: g.1, dim: g.2, ..b }
    } else {
        extended(b, g.1, g.2)
    }
}

/// The box once the glyphs `k..end` are taken in.
pub open spec fn box_over(glyphs: Seq<(GlyphRef, [i32; 2], [u32; 2], Rgba)>, k: int, end: int, b: LinkBoundingBox) -> LinkBoundingBox
    decreases end - k,
{
    if k >= end || k < 0 {
        b
    } else {
        box_over(glyphs, k + 1, end, box_with(b, glyphs[k]))
    }
}

/// The boxes made, and the box being grown, once commands `i..` are read: a line's
/// settings close the box of the line before, if it holds anything, and start one with
/// their offset and alignment.
pub open spec fn boxes_from(
    cmds: Seq<TextLayoutCmd>,
    glyphs: Seq<(GlyphRef, [i32; 2], [u32; 2], Rgba)>,
    i: int,
    st: (Seq<LinkBoundingBox>, LinkBoundingBox),
) -> (Seq<LinkBoundingBox>, LinkBoundingBox)
    decreases cmds.len() - i,
{
    if i >= cmds.len() || i < 0 {
        st
    } else {
        let (boxes, cur) = st;
        match cmds[i] {
            TextLayoutCmd::Glyphs { glyph_range } => {
                let end = if glyph_range[1] < glyphs.len() { glyph_range[1] as int } else { glyphs.len() as int };
                boxes_from(cmds, glyphs, i + 1, (boxes, box_over(glyphs, glyph_range[0] as int, end, cur)))
            },
            TextLayoutCmd::LineSettings { x_offset, horz_align } => boxes_from(
                cmds,
                glyphs,
                i + 1,
                (
                    if cur.dim[0] > 0 { boxes.push(cur) } else { boxes },
                    LinkBoundingBox { x_offset, horz_align, dim: [0, 0], ..cur },
                ),
            ),
        }
    }
}

/// The bounding boxes of a link: one per line that holds a glyph of some width.
pub open spec fn link_boxes_spec(cmds: Seq<TextLayoutCmd>, glyphs: Seq<(GlyphRef, [i32; 2], [u32; 2], Rgba)>, layout_width: u32) -> Seq<LinkBoundingBox> {
    let init = LinkBoundingBox { x_offset: 0, layout_width, horz_align: HorzAlign::Left, pos: [0, 0], dim: [0, 0] };
    let (boxes, cur) = boxes_from(cmds, glyphs, 0, (Seq::empty(), init));
    if cur.dim[0] > 0 { boxes.push(cur) } else { boxes }
}

/// One command read while cutting out glyphs `start..end`: the output so far, whether the
/// start was found, and whether the end was reached.
pub open spec fn crop_step(st: (Seq<TextLayoutCmd>, bool, bool), cmd: TextLayoutCmd, start: u32, end: u32) -> (Seq<TextLayoutCmd>, bool, bool) {
    let (out, found, done) = st;
    if done {
        st
    } else {
        match cmd {
            TextLayoutCmd::Glyphs { glyph_range } => if !found && start >= glyph_range[0] && start < glyph_range[1] {
                if end <= glyph_range[1] {
                    (out.push(TextLayoutCmd::Glyphs { glyph_range: [start, end] }), true, true)
                } else {
                    (out.push(TextLayoutCmd::Glyphs { glyph_range: [start, glyph_range[1]] }), true, false)
                }
            } else if found {
                if end <= glyph_range[1] {
                    (out.push(TextLayoutCmd::Glyphs { glyph_range: [glyph_range[0], end] }), true, true)
                } else {
                    (out.push(cmd), true, false)
                }
            } else {
                st
            },
            TextLayoutCmd::LineSettings { .. } => if found { (out.push(cmd), found, false) } else { st },
        }
    }
}

/// The commands `i..` read while cutting out glyphs `start..end`.
pub open spec fn crop_from(cmds: Seq<TextLayoutCmd>, i: int, st: (Seq<TextLayoutCmd>, bool, bool), start: u32, end: u32) -> (Seq<TextLayoutCmd>, bool, bool)
    decreases cmds.len() - i,
{
    if i >= cmds.len() || i < 0 {
        st
    } else {
        crop_from(cmds, i + 1, crop_step(st, cmds[i], start, end), start, end)
    }
}

/// Glyph ranges counted from `start`; the first command is kept as it is.
pub open spec fn rebased(out: Seq<TextLayoutCmd>, start: u32) -> Seq<TextLayoutCmd> {
    Seq::new(out.len(), |k: int| if k == 0 {
        out[0]
    } else {
        match out[k] {
            TextLayoutCmd::Glyphs { glyph_range } => TextLayoutCmd::Glyphs {
                glyph_range: [glyph_range[0].saturating_sub(start), glyph_range[1].saturating_sub(start)],
            },
            c => c,
        }
    })
}

/// The commands of a link that covers glyphs `start..end`: the settings of the line where
/// it starts, then its part of each line, re-based to count from `start`.
pub open spec fn link_cmds_spec(cmds: Seq<TextLayoutCmd>, first: TextLayoutCmd, start: u32, end: u32) -> Seq<TextLayoutCmd> {
    rebased(crop_from(cmds, 0, (seq![first], false, false), start, end).0, start)
}

/// The settings of the line that holds glyph `g`, reading commands `i..` with `cur` the
/// settings read last.
pub open spec fn settings_from(cmds: Seq<TextLayoutCmd>, g: u32, i: int, cur: TextLayoutCmd) -> TextLayoutCmd
    decreases cmds.len() - i,
{
    if i >= cmds.len() || i < 0 {
        cur
    } else {
        match cmds[i] {
            TextLayoutCmd::Glyphs { glyph_range } => if g >= glyph_range[0] && g < glyph_range[1] {
                cur
            } else {
                settings_from(cmds, g, i + 1, cur)
            },
            TextLayoutCmd::LineSettings { .. } => settings_from(cmds, g, i + 1, cmds[i]),
        }
    }
}

/// The commands of `cmds` that cover glyphs `start..end`, with the settings of the line
/// where they start first, and glyph ranges counted from `start`.
fn link_cmds(cmds: &Vec<TextLayoutCmd>, first_settings: TextLayoutCmd, start: u32, end: u32) -> (r: Vec<TextLayoutCmd>)
    ensures
        r@ == link_cmds_spec(cmds@, first_settings, start, end),
{
    let mut out: Vec<TextLayoutCmd> = Vec::new();
    out.push(first_settings);
    let mut found_start = false;
    let mut done = false;
    let ghost target = crop_from(cmds@, 0, (seq![first_settings], false, false), start, end);
    assert(out@ =~= seq![first_settings]);
    let mut i: usize = 0;
    while i < cmds.len()
        invariant
            i <= cmds.len(),
            target == crop_from(cmds@, 0, (seq![first_settings], false, false), start, end),
            target == crop_from(cmds@, i as int, (out@, found_start, done), start, end),
            out@.len() >= 1,
            out@[0] == first_settings,
        decreases cmds.len() - i,
    {
        let cmd = cmds[i];
        if !done {
            match cmd {
                TextLayoutCmd::Glyphs { glyph_range } => {
                    if !found_start && start >= glyph_range[0] && start < glyph_range[1] {
                        found_start = true;
                        if end <= glyph_range[1] {
                            out.push(TextLayoutCmd::Glyphs { glyph_range: [start, end] });
                            done = true;
                        } else {
                            out.push(TextLayoutCmd::Glyphs { glyph_range: [start, glyph_range[1]] });
                        }
                    } else if found_start {
                        if end <= glyph_range[1] {
                            out.push(TextLayoutCmd::Glyphs { glyph_range: [glyph_range[0], end] });
                            done = true;
                        } else {
                            out.push(cmd);
                        }
                    }
                },
                TextLayoutCmd::LineSettings { .. } => {
                    if found_start {
                        out.push(cmd);
                    }
                },
            }
        }
        i = i + 1;
    }
    let ghost cropped = out@;
    assert(cropped == target.0);
    let mut k: usize = 1;
    while k < out.len()
        invariant
            1 <= k,
            out@.len() == cropped.len(),
            cropped.len() >= 1,
            forall|j: int| 0 <= j < k ==> #[trigger] out@[j] == rebased(cropped, start)[j],
            forall|j: int| k <= j < out@.len() ==> #[trigger] out@[j] == cropped[j],
        decreases out.len() - k,
    {
        let cmd = out[k];
        if let TextLayoutCmd::Glyphs { glyph_range } = cmd {
            out.set(k, TextLayoutCmd::Glyphs {
                glyph_range: [glyph_range[0].saturating_sub(start), glyph_range[1].saturating_sub(start)],
            });
        }
        k = k + 1;
    }
    assert(out@ =~= rebased(cropped, start));
    out
}

/// One bounding box per line of a link's glyphs.
fn link_boxes(
    cmds: &Vec<TextLayoutCmd>,
    glyphs: &Vec<(GlyphRef, [i32; 2], [u32; 2], Rgba)>,
    layout_width: u32,
) -> (r: Vec<LinkBoundingBox>)
    ensures
        r@ == link_boxes_spec(cmds@, glyphs@, layout_width),
{
    let mut boxes: Vec<LinkBoundingBox> = Vec::new();
    let mut cur_box = LinkBoundingBox {
        x_offset: 0,
        layout_width,
        horz_align: HorzAlign::Left,
        pos: [0, 0],
        dim: [0, 0],
    };
    let ghost target = boxes_from(cmds@, glyphs@, 0, (Seq::empty(), cur_box));
    assert(boxes@ =~= Seq::<LinkBoundingBox>::empty());
    let mut i: usize = 0;
    while i < cmds.len()
        invariant
            i <= cmds.len(),
            target == boxes_from(cmds@, glyphs@, i as int, (boxes@, cur_box)),
        decreases cmds.len() - i,
    {
        match cmds[i] {
            TextLayoutCmd::Glyphs { glyph_range } => {
                let end = if (glyph_range[1] as usize) < glyphs.len() {
                    glyph_range[1] as usize
                } else {
                    glyphs.len()
                };
                let mut k = glyph_range[0] as usize;
                let ghost cur0 = cur_box;
                while k < end
                    invariant
                        end <= glyphs.len(),
                        k >= glyph_range[0],
                        box_over(glyphs@, glyph_range[0] as int, end as int, cur0) == box_over(glyphs@, k as int, end as int, cur_box),
                    decreases end - k,
                {
                    let (_g, pos, dim, _color) = glyphs[k];
                    if cur_box.dim[0] == 0 {
                        cur_box.pos = pos;
                        cur_box.dim = dim;
                    } else {
                        cur_box.extend_to(pos, dim);
                    }
                    k = k + 1;
                }
            },
            TextLayoutCmd::LineSettings { x_offset, horz_align } => {
                if cur_box.dim[0] > 0 {
                    boxes.push(cur_box);
                }
                cur_box.x_offset = x_offset;
                cur_box.horz_align = horz_align;
                cur_box.dim = [0, 0];
            },
        }
        i = i + 1;
    }
    if cur_box.dim[0] > 0 {
        boxes.push(cur_box);
    }
    boxes
}

impl TextLayoutBuilder {
    /// Starts a link to `link_to`: the glyphs added until `link_end` belong to it.
    pub fn link_start(&mut self, link_to: String)
        requires
            old(self).wf(),
        ensures
            final(self).wf(),
            final(self).spec_max_width() == old(self).spec_max_width(),
            final(self).spec_font_size() == old(self).spec_font_size(),
    {
        self.b.link_active = true;
        self.b.cur_link.start_idx = self.b.glyphs.len();
        self.b.cur_link.link_to = link_to;
        self.b.cur_link.char_dims = Vec::new();
    }

    /// Ends the current link.
    pub fn link_end(&mut self)
        requires
            old(self).wf(),
        ensures
            final(self).spec_link_count() == old(self).spec_link_count() + 1,
            final(self).wf(),
            final(self).spec_max_width() == old(self).spec_max_width(),
            final(self).spec_font_size() == old(self).spec_font_size(),
    {
        self.b.link_active = false;
        let done = LinkInfo {
            start_idx: self.b.cur_link.start_idx,
            link_to: self.b.cur_link.link_to.clone(),
            char_dims: self.b.cur_link.char_dims.clone(),
        };
        self.b.cur_link = LinkInfo::new();
        self.b.links.push(done);
    }

    /// Finishes the layout, and cuts each link out of it: the link gets a layout of its
    /// own, and its glyphs in the main layout are replaced by `blank`.
    pub fn build_with_link_extract(self, blank: GlyphRef) -> (r: (TextLayout, Vec<LinkLayout>))
        requires
            self.wf(),
        ensures
            r.0.wf(),
            r.0.spec_max_width() == self.spec_max_width(),
            r.1@.len() == self.spec_link_count(),
            forall|k: int| 0 <= k < r.1@.len() ==> (#[trigger] r.1@[k]).spec_link_to() == self.spec_link_target(k),
            r.0.spec_glyphs().len() == self.spec_glyphs().len(),
            forall|j: int| 0 <= j < self.spec_glyphs().len() ==> #[trigger] r.0.spec_glyphs()[j] == (if self.in_links(j, self.spec_link_count() as int, 0) {
                blank
            } else {
                self.spec_glyphs()[j]
            }),
            forall|k: int| 0 <= k < r.1@.len() ==> (#[trigger] r.1@[k]).spec_glyph_count() == (if self.spec_link_start(k) < self.spec_glyphs().len() {
                min_int(self.spec_link_len(k), self.spec_glyphs().len() - self.spec_link_start(k))
            } else {
                0
            }),
            forall|k: int| 0 <= k < r.1@.len() ==> self.link_layout_is(k, #[trigger] &r.1@[k]),
            r.0.spec_cmds() == m_finish(self.model()).cmds,
            r.0.spec_total_width() == m_finish(self.model()).required_width,
            r.0.spec_total_height() == m_finish(self.model()).required_height,
            r.0.spec_layout_width() == match m_finish(self.model()).max_width {
                Some(w) => w,
                None => m_finish(self.model()).required_width,
            },
            r.0.spec_placed().len() == m_finish(self.model()).glyphs.len(),
            forall|j: int| 0 <= j < r.0.spec_placed().len() ==> (#[trigger] r.0.spec_placed()[j]).1 == m_finish(self.model()).glyphs[j].1
                && r.0.spec_placed()[j].2 == m_finish(self.model()).glyphs[j].2,
    {
        let mut b = self.b;
        let ghost links0 = b.links@;
        b.finish();
        assert(b.links@ == links0);
        let layout_width = match b.max_width {
            Some(w) => w,
            None => b.required_width,
        };
        let mut link_layouts: Vec<LinkLayout> = Vec::new();
        let mut li: usize = 0;
        while li < b.links.len()
            invariant
                li <= b.links.len(),
                link_layouts@.len() == li,
                b.links@ == self.b.links@,
                glyph_refs(b.glyphs@) == glyph_refs(self.b.glyphs@),
                b.model() == m_finish(self.model()),
                layout_width == match b.max_width {
                    Some(w) => w,
                    None => b.required_width,
                },
                forall|k: int| 0 <= k < li ==> self.link_layout_is(k, #[trigger] &link_layouts@[k]),
                forall|k: int| 0 <= k < li ==> (#[trigger] link_layouts@[k]).spec_link_to() == self.spec_link_target(k),
                forall|k: int| 0 <= k < li ==> (#[trigger] link_layouts@[k]).spec_glyph_count() == (if self.spec_link_start(k) < self.spec_glyphs().len() {
                    min_int(self.spec_link_len(k), self.spec_glyphs().len() - self.spec_link_start(k))
                } else {
                    0
                }),
            decreases b.links.len() - li,
        {
            let start_idx = b.links[li].start_idx;
            let n = b.links[li].char_dims.len();
            let start_u32 = start_idx as u32;
            let end_u32 = (start_idx as u64).saturating_add(n as u64) as u32;
            let first = b.line_settings_for_glyph(start_idx);
            let cmds = link_cmds(&b.cmds, first, start_u32, end_u32);
            let mut link_glyphs: Vec<(GlyphRef, [i32; 2], [u32; 2], Rgba)> = Vec::new();
            let mut off: usize = 0;
            while off < n
                invariant
                    n == b.links@[li as int].char_dims@.len(),
                    li < b.links.len(),
                    off <= n,
                    link_glyphs@.len() == (if start_idx < b.glyphs.len() { min_int(off as int, b.glyphs.len() - start_idx) } else { 0 }),
                    forall|j: int| 0 <= j < link_glyphs@.len() ==> #[trigger] link_glyphs@[j] == (
                        b.glyphs@[start_idx + j].0,
                        b.glyphs@[start_idx + j].1,
                        b.links@[li as int].char_dims@[j],
                        b.glyphs@[start_idx + j].2,
                    ),
                decreases n - off,
            {
                if start_idx < b.glyphs.len() && off < b.glyphs.len() - start_idx {
                    let (glyph, pos, color) = b.glyphs[start_idx + off];
                    link_glyphs.push((glyph, pos, b.links[li].char_dims[off], color));
                }
                off = off + 1;
            }
            let boxes = link_boxes(&cmds, &link_glyphs, layout_width);
            let ghost l0 = link_layouts@;
            link_layouts.push(LinkLayout {
                link_to: b.links[li].link_to.clone(),
                layout_width,
                cmds,
                glyphs: link_glyphs,
                bounding_boxes: boxes,
            });
            proof {
                assert(glyph_refs(b.glyphs@).len() == b.glyphs@.len());
                assert(glyph_refs(self.b.glyphs@).len() == self.b.glyphs@.len());
                assert(self.link_layout_is(li as int, &link_layouts@[li as int]));
                assert forall|k: int| 0 <= k < li + 1 implies self.link_layout_is(k, #[trigger] &link_layouts@[k]) by {
                    if k < li {
                        assert(link_layouts@[k] == l0[k]);
                    }
                }
                assert forall|k: int| 0 <= k < li + 1 implies (#[trigger] link_layouts@[k]).spec_link_to() == self.spec_link_target(k) by {
                    if k < li {
                        assert(link_layouts@[k] == l0[k]);
                    }
                }
                assert forall|k: int| 0 <= k < li + 1 implies (#[trigger] link_layouts@[k]).spec_glyph_count() == (if self.spec_link_start(k) < self.spec_glyphs().len() {
                    min_int(self.spec_link_len(k), self.spec_glyphs().len() - self.spec_link_start(k))
                } else {
                    0
                }) by {
                    if k < li {
                        assert(link_layouts@[k] == l0[k]);
                    }
                }
            }
            li = li + 1;
        }
        let ghost fg = b.glyphs@;
        let mut glyphs = b.glyphs;
        let mut lj: usize = 0;
        let ghost orig = self.spec_glyphs();
        proof {
            assert forall|j: int| 0 <= j < glyphs@.len() implies #[trigger] glyph_refs(glyphs@)[j] == (if self.in_links(j, 0, 0) { blank } else { orig[j] }) by {
                assert(glyph_refs(glyphs@)[j] == glyph_refs(self.b.glyphs@)[j]);
            }
        }
        while lj < b.links.len()
            invariant
                lj <= b.links.len(),
                b.links@ == self.b.links@,
                glyphs@.len() == orig.len(),
                orig == self.spec_glyphs(),
                fg == m_finish(self.model()).glyphs,
                forall|j: int| 0 <= j < glyphs@.len() ==> (#[trigger] glyphs@[j]).1 == fg[j].1 && glyphs@[j].2 == fg[j].2,
                forall|j: int| 0 <= j < glyphs@.len() ==> #[trigger] glyph_refs(glyphs@)[j] == (if self.in_links(j, lj as int, 0) { blank } else { orig[j] }),
            decreases b.links.len() - lj,
        {
            let start_idx = b.links[lj].start_idx;
            let n = b.links[lj].char_dims.len();
            let mut off: usize = 0;
            while off < n
                invariant
                    n == b.links@[lj as int].char_dims@.len(),
                    lj < b.links.len(),
                    b.links@ == self.b.links@,
                    start_idx == self.spec_link_start(lj as int),
                    n == self.spec_link_len(lj as int),
                    off <= n,
                    glyphs@.len() == orig.len(),
                    forall|j: int| 0 <= j < glyphs@.len() ==> (#[trigger] glyphs@[j]).1 == fg[j].1 && glyphs@[j].2 == fg[j].2,
                    forall|j: int| 0 <= j < glyphs@.len() ==> #[trigger] glyph_refs(glyphs@)[j] == (if self.in_links(j, lj as int, off as int) { blank } else { orig[j] }),
                decreases n - off,
            {
                let ghost g0 = glyphs@;
                if start_idx < glyphs.len() && off < glyphs.len() - start_idx {
                    let (_g, pos, color) = glyphs[start_idx + off];
                    glyphs.set(start_idx + off, (blank, pos, color));
                }
                proof {
                    assert forall|j: int| 0 <= j < glyphs@.len() implies (#[trigger] glyphs@[j]).1 == fg[j].1 && glyphs@[j].2 == fg[j].2 by {
                        assert(glyphs@[j].1 == g0[j].1);
                    }
                    assert forall|j: int| 0 <= j < glyphs@.len() implies #[trigger] glyph_refs(glyphs@)[j] == (if self.in_links(j, lj as int, off + 1) { blank } else { orig[j] }) by {
                        assert(glyph_refs(g0)[j] == g0[j].0);
                        assert(glyph_refs(glyphs@)[j] == glyphs@[j].0);
                    }
                }
                off = off + 1;
            }
            proof {
                assert forall|j: int| 0 <= j < glyphs@.len() implies #[trigger] glyph_refs(glyphs@)[j] == (if self.in_links(j, lj + 1, 0) { blank } else { orig[j] }) by {
                    if self.in_links(j, lj as int, n as int) {
                        if self.spec_link_start(lj as int) <= j < self.spec_link_start(lj as int) + n {
                            assert(self.spec_link_start(lj as int) <= j < self.spec_link_start(lj as int) + self.spec_link_len(lj as int));
                        }
                    }
                    if self.in_links(j, lj + 1, 0) {
                        if !self.in_links(j, lj as int, n as int) {
                            let k = choose|k: int| 0 <= k < lj + 1 && #[trigger] self.spec_link_start(k) <= j < self.spec_link_start(k) + self.spec_link_len(k);
                            assert(k != lj);
                        }
                    }
                }
            }
            lj = lj + 1;
        }
        let ghost alone = Seq::new(b.lines@.len(), |k: int| b.lines@[k].alone);
        let layout = TextLayout {
            min_dim: [b.required_width, b.required_height],
            layout_width,
            max_width: b.max_width,
            cmds: b.cmds,
            glyphs,
            line_cmds: b.line_cmds,
            line_widths: b.line_widths,
            lines_alone: Ghost(alone),
            lines_advance: Ghost(Seq::new(b.lines@.len(), |k: int| b.lines@[k].advance)),
        };
        assert(layout.lines() =~= b.lines@);
        assert(layout.spec_glyphs() == glyph_refs(glyphs@));
        (layout, link_layouts)
    }
}

} // verus!
