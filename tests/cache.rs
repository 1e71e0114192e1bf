use draw::{FontCache, Glyph, PinnedCache, PinnedData};

#[test]
fn get_or_create_returns_the_first_glyph() {
    let mut cache = FontCache::new();
    assert!(cache.cached_glyph(16, 'A').is_none());
    let a = cache.add_glyph(16, 'A', Glyph::empty('A', None, 10));
    let b = cache.add_glyph(16, 'A', Glyph::empty('A', None, 99));
    assert_eq!(a.handle, b.handle);
    assert_eq!(b.advance_width, 10);
    let c = cache.cached_glyph(16, 'A').unwrap();
    assert_eq!(c.handle, a.handle);
    assert!(cache.cached_glyph(17, 'A').is_none());
    assert_eq!(cache.glyph(a.handle).unwrap().advance_width, 10);
}

#[test]
fn pinned_values_keep_their_place() {
    let mut data = PinnedData::for_page_size(2);
    let h1 = data.add(1u32);
    let h2 = data.add(2u32);
    let h3 = data.add(3u32);
    assert_eq!((h1, h2, h3), ((0, 0), (0, 1), (1, 0)));
    assert_eq!(*data.get(h1), 1);
    assert_eq!(*data.get(h3), 3);
    assert!(data.try_get((1, 1)).is_none());
}

#[test]
fn snapshot_misses_later_additions() {
    let mut cache: PinnedCache<u32> = PinnedCache::for_page_size(4);
    cache.add(5, 50);
    let mut editor = cache.editor();
    cache.add(6, 60);
    assert!(editor.get(5).is_some());
    assert!(editor.get(6).is_none());
    editor.refresh(&cache);
    assert!(editor.get(6).is_some());
    cache.add_missing_entries(vec![(6, 61), (7, 70)]);
    assert_eq!(*cache.get(6).unwrap(), 60);
    assert_eq!(*cache.get(7).unwrap(), 70);
}

#[test]
fn kerning_is_stored_once() {
    let mut cache = FontCache::new();
    assert!(cache.cached_kerning(16, 'A', 'V').is_none());
    cache.add_kerning(16, 'A', 'V', -2);
    cache.add_kerning(16, 'A', 'V', 5);
    assert_eq!(cache.cached_kerning(16, 'A', 'V'), Some(-2));
}
