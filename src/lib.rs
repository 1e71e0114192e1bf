//! Software raster graphics: RGBA images and canvases, blend modes, run-length encoded
//! glyphs, a write-once glyph cache, and text layout with word wrap and alignment.

mod blend;
mod canvas;
mod errors;
mod font;
mod idx;
mod img;
mod rect;
mod resize_filter;
mod rgba;
mod rows;
mod sub_img_params;
mod text;

pub use crate::blend::{ColorAlphaBlendMode, ColorBlendMode, ImageBlendMode};
pub use crate::blend::{
    ColorAlphaBlendOpaque, ColorAlphaBlendOverwrite, ColorAlphaBlendTransparent,
    SolidColorAlphaBlendOverwrite,
};
pub use crate::blend::{ColorBlendOpaque, ColorBlendOverwrite, ColorBlendTransparent};
pub use crate::blend::{ImageBlendOpaque, ImageBlendOverwrite, ImageBlendTransparent};
pub use crate::canvas::Canvas;
pub use crate::errors::{RgbaParseError, RgbaParseErrorKind};
pub use crate::font::align::{HorzAlign, ScriptPosition, VertAlign};
pub use crate::font::chars::RenderableCharacters;
pub use crate::font::font_cache::{FontCache, Missing};
pub use crate::font::glyph::{encode_alpha, replay_alpha, Glyph, GlyphInst};
pub use crate::font::glyph_builder::GlyphInstructionBuilder;
pub use crate::font::layout::{
    GlyphRef, LineMetrics, LinkBoundingBox, LinkLayout, TextLayout, TextLayoutBuilder,
    TextLayoutCmd,
};
pub use crate::font::pinned_cache::{CacheEditor, PinnedCache};
pub use crate::font::pinned_data::PinnedData;
pub use crate::font::rendered_text::{
    NextLineReason, RenderedCharInstruction, RenderedChars, RenderedText, RenderedTextInstruction,
};
pub use crate::idx::Indexable2D;
pub use crate::img::Image;
pub use crate::rect::Rect;
pub use crate::resize_filter::ResizeFilter;
pub use crate::rgba::Rgba;
pub use crate::rows::{RowsIter, RowsPosIter};
pub use crate::sub_img_params::{
    MarginValue, SpacingValue, SubImageBuilder, SubImageParams, SubImageParamsIter,
};
