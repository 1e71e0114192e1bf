use crate::font::glyph::Glyph;
use crate::font::layout::GlyphRef;
use crate::font::pinned_cache::{add_post, PinnedCache};
use vstd::prelude::*;

verus! {

/// The number of glyphs per page of a font's glyph cache.
pub const FONT_CACHE_PAGE_SIZE: usize = 512;

/// The cache key of a character at a font size.
pub open spec fn glyph_key(font_size: u32, ch: char) -> u64 {
    (font_size as int * 0x1_0000_0000 + ch as int) as u64
}

fn glyph_key_exec(font_size: u32, ch: char) -> (r: u64)
    ensures
        r == glyph_key(font_size, ch),
{
    (font_size as u64) * 0x1_0000_0000 + (ch as u32 as u64)
}

/// The stored kerning `e` is the one between `a` and `b` at `font_size`.
pub open spec fn kerning_matches(e: (u32, char, char, i32), font_size: u32, a: char, b: char) -> bool {
    e.0 == font_size && e.1 == a && e.2 == b
}

/// The value of the first stored kerning between `a` and `b` at `font_size`, if any.
pub open spec fn kerning_in(ks: Seq<(u32, char, char, i32)>, font_size: u32, a: char, b: char) -> Option<i32>
    decreases ks.len(),
{
    if ks.len() == 0 {
        None
    } else if kerning_matches(ks[0], font_size, a, b) {
        Some(ks[0].3)
    } else {
        kerning_in(ks.drop_first(), font_size, a, b)
    }
}

proof fn lemma_kerning_in_push(ks: Seq<(u32, char, char, i32)>, e: (u32, char, char, i32), font_size: u32, a: char, b: char)
    ensures
        kerning_in(ks.push(e), font_size, a, b) == (if kerning_in(ks, font_size, a, b) is Some {
            kerning_in(ks, font_size, a, b)
        } else if kerning_matches(e, font_size, a, b) {
            Some(e.3)
        } else {
            None
        }),
    decreases ks.len(),
{
    if ks.len() > 0 {
        assert(ks.push(e)[0] == ks[0]);
        assert(ks.push(e).drop_first() =~= ks.drop_first().push(e));
        lemma_kerning_in_push(ks.drop_first(), e, font_size, a, b);
    } else {
        assert(ks.push(e)[0] == e);
        assert(ks.push(e).drop_first() =~= Seq::<(u32, char, char, i32)>::empty());
        assert(kerning_in(Seq::<(u32, char, char, i32)>::empty(), font_size, a, b) is None);
    }
}

/// The glyphs of one font, rasterized once per size and character.
pub struct FontCache {
    data: PinnedCache<Glyph>,
    kerning: Vec<(u32, char, char, i32)>,
}

/// Something that a layout needs from the font and that the cache does not hold yet.
#[derive(Clone, Copy, Debug, PartialEq, Eq, Structural)]
pub enum Missing {
    /// The glyph of a character at a font size.
    Glyph(u32, char),
    /// The kerning between two characters at a font size.
    Kerning(u32, char, char),
}

impl FontCache {
    pub closed spec fn cache(&self) -> PinnedCache<Glyph> {
        self.data
    }

    pub closed spec fn wf(&self) -> bool {
        self.data.wf()
    }

    /// The cache indeed lacks `m`.
    pub open spec fn lacks_item(&self, m: Missing) -> bool {
        match m {
            Missing::Glyph(size, ch) => !self.cache().entries().contains_key(glyph_key(size, ch)),
            Missing::Kerning(size, a, b) => !self.has_kerning(size, a, b),
        }
    }

    /// The kerning values stored: font size, first and second character, value.
    pub closed spec fn kernings(&self) -> Seq<(u32, char, char, i32)> {
        self.kerning@
    }

    /// The kerning stored for a pair at a size: the first one added.
    pub open spec fn kerning_of(&self, font_size: u32, a: char, b: char) -> Option<i32> {
        kerning_in(self.kernings(), font_size, a, b)
    }

    /// A kerning is stored for a pair at a size.
    pub open spec fn has_kerning(&self, font_size: u32, a: char, b: char) -> bool {
        self.kerning_of(font_size, a, b) is Some
    }

    /// The kerning between `a` and `b` at `font_size`, if it has been added.
    pub fn cached_kerning(&self, font_size: u32, a: char, b: char) -> (r: Option<i32>)
        ensures
            r == self.kerning_of(font_size, a, b),
    {
        let mut i: usize = 0;
        assert(self.kernings().subrange(0, self.kernings().len() as int) =~= self.kernings());
        while i < self.kerning.len()
            invariant
                i <= self.kerning.len(),
                kerning_in(self.kernings(), font_size, a, b) == kerning_in(
                    self.kernings().subrange(i as int, self.kernings().len() as int),
                    font_size,
                    a,
                    b,
                ),
            decreases self.kerning.len() - i,
        {
            let ghost rest = self.kernings().subrange(i as int, self.kernings().len() as int);
            assert(rest.drop_first() =~= self.kernings().subrange(i + 1, self.kernings().len() as int));
            let e = self.kerning[i];
            if e.0 == font_size && e.1 == a && e.2 == b {
                return Some(e.3);
            }
            i = i + 1;
        }
        assert(self.kernings().subrange(i as int, self.kernings().len() as int) =~= Seq::<(u32, char, char, i32)>::empty());
        None
    }

    /// Stores the kerning between `a` and `b` at `font_size`, unless one is stored.
    pub fn add_kerning(&mut self, font_size: u32, a: char, b: char, value: i32)
        ensures
            final(self).wf() == old(self).wf(),
            final(self).cache() == old(self).cache(),
            final(self).has_kerning(font_size, a, b),
            forall|i: int| 0 <= i < old(self).kernings().len() ==> #[trigger] final(self).kernings()[i] == old(self).kernings()[i],
    {
        if self.cached_kerning(font_size, a, b).is_none() {
            let ghost k0 = self.kernings();
            self.kerning.push((font_size, a, b, value));
            proof {
                lemma_kerning_in_push(k0, (font_size, a, b, value), font_size, a, b);
            }
        }
    }

    /// An empty glyph cache.
    pub fn new() -> (r: Self)
        ensures
            r.wf(),
            r.cache().entries() == Map::<u64, Glyph>::empty(),
    {
        FontCache { data: PinnedCache::for_page_size(FONT_CACHE_PAGE_SIZE), kerning: Vec::new() }
    }

    /// The glyph of `ch` at `font_size`, if it has been added; never rasterizes.
    pub fn cached_glyph(&self, font_size: u32, ch: char) -> (r: Option<GlyphRef>)
        requires
            self.wf(),
        ensures
            r is Some <==> self.cache().entries().contains_key(glyph_key(font_size, ch)),
            r is Some ==> r->0.handle == self.cache().handles()[glyph_key(font_size, ch)]
                && r->0.ch == self.cache().entries()[glyph_key(font_size, ch)].ch
                && r->0.advance_width == self.cache().entries()[glyph_key(font_size, ch)].advance_width
                && r->0.render_width == self.cache().entries()[glyph_key(font_size, ch)].render_width,
    {
        let key = glyph_key_exec(font_size, ch);
        proof {
            self.data.lemma_entries_domain();
        }
        match self.data.handle(key) {
            Some(h) => {
                let g = self.data.get(key).unwrap();
                Some(GlyphRef { handle: h, ch: g.ch, advance_width: g.advance_width, render_width: g.render_width })
            },
            None => None,
        }
    }

    /// Adds the glyph of `ch` at `font_size`, unless one is there already, and returns the
    /// glyph that the cache holds for them: the first one added.
    pub fn add_glyph(&mut self, font_size: u32, ch: char, g: Glyph) -> (r: GlyphRef)
        requires
            old(self).wf(),
        ensures
            final(self).wf(),
            add_post(&old(self).cache(), glyph_key(font_size, ch), g, &final(self).cache(), r.handle),
            r.ch == final(self).cache().entries()[glyph_key(font_size, ch)].ch,
            r.advance_width == final(self).cache().entries()[glyph_key(font_size, ch)].advance_width,
            r.render_width == final(self).cache().entries()[glyph_key(font_size, ch)].render_width,
    {
        let key = glyph_key_exec(font_size, ch);
        let h = self.data.add(key, g);
        proof {
            self.data.lemma_entries_domain();
        }
        let stored = self.data.get(key).unwrap();
        GlyphRef { handle: h, ch: stored.ch, advance_width: stored.advance_width, render_width: stored.render_width }
    }

    /// The stored glyph of `ch` at `font_size`, if it has been added.
    pub fn cached_glyph_data(&self, font_size: u32, ch: char) -> (r: Option<&Glyph>)
        requires
            self.wf(),
        ensures
            r is Some <==> self.cache().entries().contains_key(glyph_key(font_size, ch)),
            r is Some ==> *r->0 == self.cache().entries()[glyph_key(font_size, ch)],
    {
        self.data.get(glyph_key_exec(font_size, ch))
    }

    /// The glyph reference that `cached_glyph` gives for a cached character.
    pub open spec fn cached_ref(&self, font_size: u32, ch: char) -> GlyphRef {
        let k = glyph_key(font_size, ch);
        GlyphRef {
            handle: self.cache().handles()[k],
            ch: self.cache().entries()[k].ch,
            advance_width: self.cache().entries()[k].advance_width,
            render_width: self.cache().entries()[k].render_width,
        }
    }

    /// The glyph stored at `handle`, if any.
    pub open spec fn glyph_at(&self, handle: (usize, usize)) -> Option<Glyph> {
        self.cache().value_at_spec(handle)
    }

    /// The glyph at `handle`, if there is one.
    pub fn glyph(&self, handle: (usize, usize)) -> (r: Option<&Glyph>)
        requires
            self.wf(),
        ensures
            forall|k: u64| #[trigger] self.cache().handles().contains_key(k) && self.cache().handles()[k] == handle
                ==> r is Some && *r->0 == self.cache().entries()[k],
            r is Some <==> self.glyph_at(handle) is Some,
            r is Some ==> *r->0 == self.glyph_at(handle)->0,
    {
        self.data.value_at(handle)
    }
}

} // verus!
