//! Least-recently-used behaviour of the glyph cache on synthetic
//! bitmaps: the bound holds and the entry evicted on overflow is the
//! least recently accessed one.

use rs_console::glyph::GlyphBitmap;
use rs_console::cache::GlyphCache;

fn bitmap(tag: u8) -> GlyphBitmap {
    GlyphBitmap { data: vec![tag, tag, tag], off_x: 0, off_y: 0 }
}

#[test]
fn lookup_of_missing_key_is_none() {
    let mut cache = GlyphCache::new(2);
    assert!(cache.lookup(7).is_none());
}

#[test]
fn put_then_lookup_returns_the_bitmap() {
    let mut cache = GlyphCache::new(2);
    cache.put(7, &bitmap(42));
    let got = cache.lookup(7).unwrap();
    assert_eq!(got.data, vec![42, 42, 42]);
}

#[test]
fn overflow_evicts_the_least_recently_used_entry() {
    let mut cache = GlyphCache::new(2);
    cache.put(1, &bitmap(1));
    cache.put(2, &bitmap(2));
    cache.put(3, &bitmap(3));
    assert!(cache.lookup(1).is_none());
    assert!(cache.lookup(2).is_some());
    assert!(cache.lookup(3).is_some());
}

#[test]
fn a_revisited_key_stays_alive_while_others_age_out() {
    let mut cache = GlyphCache::new(2);
    cache.put(1, &bitmap(1));
    cache.put(2, &bitmap(2));
    assert!(cache.lookup(1).is_some());
    cache.put(3, &bitmap(3));
    assert!(cache.lookup(2).is_none());
    assert!(cache.lookup(1).is_some());
    assert!(cache.lookup(3).is_some());
}

#[test]
fn overwriting_a_key_keeps_the_bound_and_updates_the_value() {
    let mut cache = GlyphCache::new(2);
    cache.put(1, &bitmap(1));
    cache.put(2, &bitmap(2));
    cache.put(1, &bitmap(9));
    assert_eq!(cache.lookup(1).unwrap().data, vec![9, 9, 9]);
    assert!(cache.lookup(2).is_some());
    assert_eq!(cache.capacity(), 2);
}
