pub mod align;
pub mod chars;
pub mod font_cache;
pub mod glyph;
pub mod glyph_builder;
pub mod layout;
pub mod pinned_cache;
pub mod pinned_data;
pub mod rendered_text;
