//! Bounded glyph cache with least-recently-used eviction, on top of
//! `lru_time_cache`.
//!
//! The cache's contents are modelled as a sequence of key/bitmap pairs in
//! recency order: the least recently used entry first, the most recently
//! used last. Keys are character scalar values and stay distinct. A hit
//! moves the entry to the most recent end; a miss at capacity evicts the
//! entry at the least recent end.

use crate::glyph::{glyph_draw_of, GlyphBitmap, Rasterizer};
use vstd::prelude::*;

verus! {

/// lru_time_cache's cache type, declared so a cache can live in a field.
#[verifier::external_type_specification]
#[verifier::external_body]
#[verifier::reject_recursive_types(Key)]
#[verifier::reject_recursive_types(Value)]
pub struct ExLruCache<Key, Value>(lru_time_cache::LruCache<Key, Value>);

/// The entries of a cache in recency order, least recently used first:
/// the key list the cache keeps, each key paired with its stored value.
pub uninterp spec fn lru_entries(c: lru_time_cache::LruCache<u32, GlyphBitmap>) -> Seq<
    (u32, GlyphBitmap),
>;

/// The capacity the cache was constructed with.
pub uninterp spec fn lru_capacity(c: lru_time_cache::LruCache<u32, GlyphBitmap>) -> nat;

/// Whether the cache was constructed without a time-to-live, so that no
/// entry ever expires and its behaviour depends on the calls alone.
pub uninterp spec fn lru_untimed(c: lru_time_cache::LruCache<u32, GlyphBitmap>) -> bool;

/// No key occurs twice among the entries.
pub open spec fn distinct_keys<V>(s: Seq<(u32, V)>) -> bool {
    forall|i: int, j: int| 0 <= i < j < s.len() ==> (#[trigger] s[i]).0 != (#[trigger] s[j]).0
}

/// Some entry carries the key.
pub open spec fn has_key<V>(s: Seq<(u32, V)>, k: u32) -> bool {
    exists|i: int| 0 <= i < s.len() && (#[trigger] s[i]).0 == k
}

/// The value stored under a key (meaningful when the key is present).
pub open spec fn value_of<V>(s: Seq<(u32, V)>, k: u32) -> V {
    s[choose|i: int| 0 <= i < s.len() && (#[trigger] s[i]).0 == k].1
}

/// The entries with the given key removed, order kept.
pub open spec fn drop_key<V>(s: Seq<(u32, V)>, k: u32) -> Seq<(u32, V)>
    decreases s.len(),
{
    if s.len() == 0 {
        Seq::empty()
    } else if s[0].0 == k {
        drop_key(s.drop_first(), k)
    } else {
        seq![s[0]] + drop_key(s.drop_first(), k)
    }
}

/// What `drop_key` leaves: entries of the original with other keys, in
/// order; exactly one entry fewer when the key was there (keys distinct).
pub proof fn lemma_drop_key<V>(s: Seq<(u32, V)>, k: u32)
    ensures
        drop_key(s, k).len() <= s.len(),
        forall|i: int|
            0 <= i < drop_key(s, k).len() ==> s.contains(#[trigger] drop_key(s, k)[i])
                && drop_key(s, k)[i].0 != k,
        distinct_keys(s) ==> distinct_keys(drop_key(s, k)),
        distinct_keys(s) && has_key(s, k) ==> drop_key(s, k).len() == s.len() - 1,
        !has_key(s, k) ==> drop_key(s, k) == s,
    decreases s.len(),
{
    let d = drop_key(s, k);
    if s.len() == 0 {
        assert(d =~= s);
    } else {
        let t = s.drop_first();
        lemma_drop_key(t, k);
        let dt = drop_key(t, k);
        assert(forall|i: int| 0 <= i < t.len() ==> t[i] == s[i + 1]);
        assert(forall|i: int| 0 <= i < dt.len() ==> t.contains(#[trigger] dt[i]) ==> s.contains(
            dt[i],
        )) by {
            assert(forall|i: int| 0 <= i < t.len() ==> s.contains(#[trigger] t[i]));
        }
        if distinct_keys(s) {
            assert(distinct_keys(t)) by {
                assert forall|i: int, j: int| 0 <= i < j < t.len() implies (#[trigger] t[i]).0 != (
                #[trigger] t[j]).0 by {
                    assert(t[i] == s[i + 1]);
                    assert(t[j] == s[j + 1]);
                }
            }
        }
        if s[0].0 == k {
            assert(has_key(s, k)) by {
                assert((s[0]).0 == k);
            }
            assert(d == dt);
            if distinct_keys(s) {
                assert(!has_key(t, k)) by {
                    if has_key(t, k) {
                        let j = choose|j: int| 0 <= j < t.len() && (#[trigger] t[j]).0 == k;
                        assert(s[j + 1] == t[j]);
                        assert((s[0]).0 == (s[j + 1]).0);
                        assert(false);
                    }
                }
                assert(dt == t);
                assert(d.len() == s.len() - 1);
            }
        } else {
            assert(d == seq![s[0]] + dt);
            assert(d[0] == s[0]);
            assert(s.contains(s[0])) by {
                assert(s[0] == s[0]);
            }
            assert(forall|i: int| 1 <= i < d.len() ==> #[trigger] d[i] == dt[i - 1]);
            assert(forall|i: int|
                0 <= i < d.len() ==> s.contains(#[trigger] d[i]) && d[i].0 != k);
            if distinct_keys(s) {
                assert(distinct_keys(d)) by {
                    assert forall|i: int, j: int| 0 <= i < j < d.len() implies (#[trigger] d[i]).0
                        != (#[trigger] d[j]).0 by {
                        if i == 0 {
                            assert(t.contains(dt[j - 1]));
                            let m = choose|m: int| 0 <= m < t.len() && t[m] == dt[j - 1];
                            assert(s[m + 1] == t[m]);
                            assert((s[0]).0 != (s[m + 1]).0);
                        } else {
                            assert(d[i] == dt[i - 1]);
                            assert(d[j] == dt[j - 1]);
                        }
                    }
                }
                if has_key(s, k) {
                    assert(has_key(t, k)) by {
                        let j = choose|j: int| 0 <= j < s.len() && (#[trigger] s[j]).0 == k;
                        assert(j != 0);
                        assert(t[j - 1] == s[j]);
                        assert((t[j - 1]).0 == k);
                    }
                    assert(d.len() == s.len() - 1);
                }
            }
            if !has_key(s, k) {
                assert(!has_key(t, k)) by {
                    if has_key(t, k) {
                        let j = choose|j: int| 0 <= j < t.len() && (#[trigger] t[j]).0 == k;
                        assert((s[j + 1]).0 == k);
                    }
                }
                assert(dt == t);
                assert(d =~= s);
            }
        }
    }
}

/// A consistent cache pins what is stored under a present key: the
/// entry's bitmap is the rasterization of that very key.
pub proof fn lemma_consistent_value(
    s: Seq<(u32, GlyphBitmap)>,
    k: u32,
    font: Seq<u8>,
    size: u32,
    cell_w: nat,
    cell_h: nat,
)
    requires
        entries_consistent(s, font, size, cell_w, cell_h),
        distinct_keys(s),
        has_key(s, k),
    ensures
        (k as char) as u32 == k,
        bitmap_matches(value_of(s, k), font, size, k as char, cell_w, cell_h),
{
    let i = choose|i: int| 0 <= i < s.len() && (#[trigger] s[i]).0 == k;
    assert(entry_ok(s[i], font, size, cell_w, cell_h));
    assert forall|m: int| 0 <= m < s.len() && (#[trigger] s[m]).0 == k implies s[m] == s[i] by {
        if m != i {
            assert(false);
        }
    }
    assert(value_of(s, k) == (s[i]).1);
}

/// A fresh cell-local coverage buffer: all zeroes.
pub open spec fn zero_cell(cell_w: nat, cell_h: nat) -> Seq<u8> {
    Seq::new(cell_w * cell_h, |i: int| 0u8)
}

/// The bitmap is exactly what rasterizing `ch` over a fresh cell gives.
pub open spec fn bitmap_matches(
    bm: GlyphBitmap,
    font: Seq<u8>,
    size: u32,
    ch: char,
    cell_w: nat,
    cell_h: nat,
) -> bool {
    let (cov, ox, oy) = glyph_draw_of(font, size, ch, cell_w, zero_cell(cell_w, cell_h));
    bm.data@ == cov && bm.data@.len() == cell_w * cell_h && bm.off_x as int == ox && bm.off_y
        as int == oy
}

/// The entry's key is a character's scalar value and its bitmap is that
/// character's rasterization.
pub open spec fn entry_ok(
    p: (u32, GlyphBitmap),
    font: Seq<u8>,
    size: u32,
    cell_w: nat,
    cell_h: nat,
) -> bool {
    &&& (p.0 as char) as u32 == p.0
    &&& bitmap_matches(p.1, font, size, p.0 as char, cell_w, cell_h)
}

/// Every entry of the cache is the rasterization of its own key.
pub open spec fn entries_consistent(
    s: Seq<(u32, GlyphBitmap)>,
    font: Seq<u8>,
    size: u32,
    cell_w: nat,
    cell_h: nat,
) -> bool {
    forall|i: int| 0 <= i < s.len() ==> entry_ok(#[trigger] s[i], font, size, cell_w, cell_h)
}

/// Relies on lru_time_cache's `LruCache::with_capacity`: a fresh, empty
/// cache bounded by `capacity` entries, with no time-to-live.
#[verifier::external_body]
fn lru_new(capacity: usize) -> (c: lru_time_cache::LruCache<u32, GlyphBitmap>)
    requires
        capacity >= 1,
    ensures
        lru_entries(c) == Seq::<(u32, GlyphBitmap)>::empty(),
        lru_capacity(c) == capacity,
        lru_untimed(c),
{
    lru_time_cache::LruCache::with_capacity(capacity)
}

/// Relies on `LruCache::get` on a cache without time-to-live: it returns
/// the value stored under the key, marking the entry most recently used,
/// or `None` and leaves the cache as it was. The value is handed out as
/// a clone of the stored entry.
#[verifier::external_body]
fn lru_get(c: &mut lru_time_cache::LruCache<u32, GlyphBitmap>, k: u32) -> (r: Option<GlyphBitmap>)
    requires
        lru_untimed(*old(c)),
        distinct_keys(lru_entries(*old(c))),
    ensures
        lru_untimed(*final(c)),
        lru_capacity(*final(c)) == lru_capacity(*old(c)),
        has_key(lru_entries(*old(c)), k) ==> {
            &&& r == Some(value_of(lru_entries(*old(c)), k))
            &&& lru_entries(*final(c)) == drop_key(lru_entries(*old(c)), k).push(
                (k, value_of(lru_entries(*old(c)), k)),
            )
        },
        !has_key(lru_entries(*old(c)), k) ==> r is None && lru_entries(*final(c)) == lru_entries(
            *old(c),
        ),
{
    c.get(&k).cloned()
}

/// Relies on `LruCache::insert` on a cache without time-to-live: a
/// present key is overwritten and moved to most recently used; a new key
/// is appended at the most recent end, evicting the least recently used
/// entry when the cache is at capacity; the value previously stored under
/// the key, if any, is returned. The value is stored as a clone.
#[verifier::external_body]
fn lru_insert(
    c: &mut lru_time_cache::LruCache<u32, GlyphBitmap>,
    k: u32,
    v: &GlyphBitmap,
) -> (r: Option<GlyphBitmap>)
    requires
        lru_untimed(*old(c)),
        distinct_keys(lru_entries(*old(c))),
        lru_entries(*old(c)).len() <= lru_capacity(*old(c)),
        lru_capacity(*old(c)) >= 1,
    ensures
        lru_untimed(*final(c)),
        lru_capacity(*final(c)) == lru_capacity(*old(c)),
        has_key(lru_entries(*old(c)), k) ==> {
            &&& r == Some(value_of(lru_entries(*old(c)), k))
            &&& lru_entries(*final(c)) == drop_key(lru_entries(*old(c)), k).push((k, *v))
        },
        !has_key(lru_entries(*old(c)), k) && lru_entries(*old(c)).len() < lru_capacity(*old(c))
            ==> r is None && lru_entries(*final(c)) == lru_entries(*old(c)).push((k, *v)),
        !has_key(lru_entries(*old(c)), k) && lru_entries(*old(c)).len() == lru_capacity(*old(c))
            ==> r is None && lru_entries(*final(c)) == lru_entries(*old(c)).drop_first().push(
            (k, *v),
        ),
{
    c.insert(k, v.clone())
}

/// A bounded key-to-bitmap cache with least-recently-used eviction.
pub struct GlyphCache {
    lru: lru_time_cache::LruCache<u32, GlyphBitmap>,
    cap: usize,
}

impl GlyphCache {
    /// The cached entries in recency order, least recently used first.
    pub closed spec fn entries(&self) -> Seq<(u32, GlyphBitmap)> {
        lru_entries(self.lru)
    }

    /// The fixed capacity.
    pub closed spec fn spec_capacity(&self) -> nat {
        lru_capacity(self.lru)
    }

    /// The cache is bounded by its capacity, holds each key once, and
    /// never lets entries expire with time.
    pub closed spec fn wf(&self) -> bool {
        &&& lru_untimed(self.lru)
        &&& distinct_keys(lru_entries(self.lru))
        &&& lru_entries(self.lru).len() <= lru_capacity(self.lru)
        &&& lru_capacity(self.lru) == self.cap
        &&& self.cap >= 1
    }

    /// A well-formed cache holds each key at most once and stays within
    /// its capacity.
    pub proof fn lemma_wf_shape(&self)
        requires
            self.wf(),
        ensures
            distinct_keys(self.entries()),
            self.entries().len() <= self.spec_capacity(),
    {
    }

    /// A fresh, empty cache of the given capacity.
    pub fn new(capacity: usize) -> (c: Self)
        requires
            capacity >= 1,
        ensures
            c.wf(),
            c.entries() == Seq::<(u32, GlyphBitmap)>::empty(),
            c.spec_capacity() == capacity,
    {
        GlyphCache { lru: lru_new(capacity), cap: capacity }
    }

    /// The fixed capacity.
    pub fn capacity(&self) -> (n: usize)
        requires
            self.wf(),
        ensures
            n == self.spec_capacity(),
    {
        self.cap
    }

    /// Looks a key up. A hit returns a copy of the stored bitmap and
    /// makes the entry the most recently used one; a miss changes
    /// nothing.
    pub fn lookup(&mut self, key: u32) -> (r: Option<GlyphBitmap>)
        requires
            old(self).wf(),
        ensures
            final(self).wf(),
            final(self).spec_capacity() == old(self).spec_capacity(),
            has_key(old(self).entries(), key) ==> {
                &&& r == Some(value_of(old(self).entries(), key))
                &&& final(self).entries() == drop_key(old(self).entries(), key).push(
                    (key, value_of(old(self).entries(), key)),
                )
            },
            !has_key(old(self).entries(), key) ==> r is None && final(self).entries() == old(
                self,
            ).entries(),
    {
        let r = lru_get(&mut self.lru, key);
        proof {
            lemma_drop_key(lru_entries(old(self).lru), key);
            if has_key(old(self).entries(), key) {
                let s = lru_entries(old(self).lru);
                let d = drop_key(s, key);
                assert(distinct_keys(d.push((key, value_of(s, key))))) by {
                    let p = d.push((key, value_of(s, key)));
                    assert forall|i: int, j: int| 0 <= i < j < p.len() implies (
                    #[trigger] p[i]).0 != (#[trigger] p[j]).0 by {
                        if j == p.len() - 1 {
                            assert(p[i] == d[i]);
                        } else {
                            assert(p[i] == d[i]);
                            assert(p[j] == d[j]);
                        }
                    }
                }
            }
        }
        r
    }

    /// Stores a bitmap under a key: an existing entry is overwritten and
    /// becomes the most recently used; a new entry is appended, evicting
    /// the least recently used entry when the cache is at capacity.
    pub fn put(&mut self, key: u32, bm: &GlyphBitmap)
        requires
            old(self).wf(),
        ensures
            final(self).wf(),
            final(self).spec_capacity() == old(self).spec_capacity(),
            final(self).entries().len() <= final(self).spec_capacity(),
            has_key(old(self).entries(), key) ==> final(self).entries() == drop_key(
                old(self).entries(),
                key,
            ).push((key, *bm)),
            !has_key(old(self).entries(), key) && old(self).entries().len() < old(
                self,
            ).spec_capacity() ==> final(self).entries() == old(self).entries().push((key, *bm)),
            !has_key(old(self).entries(), key) && old(self).entries().len() == old(
                self,
            ).spec_capacity() ==> final(self).entries() == old(
                self,
            ).entries().drop_first().push((key, *bm)),
    {
        let _ = lru_insert(&mut self.lru, key, bm);
        proof {
            let s = lru_entries(old(self).lru);
            lemma_drop_key(s, key);
            if has_key(s, key) {
                let d = drop_key(s, key);
                let p = d.push((key, *bm));
                assert(distinct_keys(p)) by {
                    assert forall|i: int, j: int| 0 <= i < j < p.len() implies (
                    #[trigger] p[i]).0 != (#[trigger] p[j]).0 by {
                        if j == p.len() - 1 {
                            assert(p[i] == d[i]);
                        } else {
                            assert(p[i] == d[i]);
                            assert(p[j] == d[j]);
                        }
                    }
                }
            } else if s.len() < lru_capacity(old(self).lru) {
                let p = s.push((key, *bm));
                assert(distinct_keys(p)) by {
                    assert forall|i: int, j: int| 0 <= i < j < p.len() implies (
                    #[trigger] p[i]).0 != (#[trigger] p[j]).0 by {
                        if j == p.len() - 1 {
                            assert(p[i] == s[i]);
                            assert(!((s[i]).0 == key)) by {
                                if (s[i]).0 == key {
                                    assert(has_key(s, key));
                                }
                            }
                        } else {
                            assert(p[i] == s[i]);
                            assert(p[j] == s[j]);
                        }
                    }
                }
            } else {
                let t = s.drop_first();
                let p = t.push((key, *bm));
                assert(forall|i: int| 0 <= i < t.len() ==> #[trigger] t[i] == s[i + 1]);
                assert(distinct_keys(p)) by {
                    assert forall|i: int, j: int| 0 <= i < j < p.len() implies (
                    #[trigger] p[i]).0 != (#[trigger] p[j]).0 by {
                        if j == p.len() - 1 {
                            assert(p[i] == t[i]);
                            assert(t[i] == s[i + 1]);
                            assert(!((s[i + 1]).0 == key)) by {
                                if (s[i + 1]).0 == key {
                                    assert(has_key(s, key));
                                }
                            }
                        } else {
                            assert(p[i] == t[i]);
                            assert(p[j] == t[j]);
                            assert(t[i] == s[i + 1]);
                            assert(t[j] == s[j + 1]);
                        }
                    }
                }
            }
        }
    }

    /// Returns the bitmap for a character: a copy of the cached one when
    /// the character is resident (the entry becomes most recently used,
    /// and nothing is rasterized anew), else the character is rasterized,
    /// cached (evicting the least recently used entry when at capacity)
    /// and returned. Either way the result equals a direct, uncached
    /// rasterization of the same character.
    pub fn get_or_rasterize(
        &mut self,
        raster: &Rasterizer,
        ch: char,
        cell_w: usize,
        cell_h: usize,
    ) -> (bm: GlyphBitmap)
        requires
            old(self).wf(),
            entries_consistent(
                old(self).entries(),
                raster.font_bytes(),
                raster.size(),
                cell_w as nat,
                cell_h as nat,
            ),
            cell_w * cell_h <= usize::MAX,
        ensures
            final(self).wf(),
            final(self).spec_capacity() == old(self).spec_capacity(),
            final(self).entries().len() <= final(self).spec_capacity(),
            bitmap_matches(
                bm,
                raster.font_bytes(),
                raster.size(),
                ch,
                cell_w as nat,
                cell_h as nat,
            ),
            entries_consistent(
                final(self).entries(),
                raster.font_bytes(),
                raster.size(),
                cell_w as nat,
                cell_h as nat,
            ),
            has_key(old(self).entries(), ch as u32) ==> final(self).entries() == drop_key(
                old(self).entries(),
                ch as u32,
            ).push((ch as u32, bm)),
            !has_key(old(self).entries(), ch as u32) && old(self).entries().len() < old(
                self,
            ).spec_capacity() ==> final(self).entries() == old(self).entries().push(
                (ch as u32, bm),
            ),
            !has_key(old(self).entries(), ch as u32) && old(self).entries().len() == old(
                self,
            ).spec_capacity() ==> final(self).entries() == old(
                self,
            ).entries().drop_first().push((ch as u32, bm)),
    {
        let key: u32 = ch as u32;
        let hit = self.lookup(key);
        match hit {
            Some(bm) => {
                proof {
                    let s = old(self).entries();
                    assert(has_key(s, key));
                    let i = choose|i: int| 0 <= i < s.len() && (#[trigger] s[i]).0 == key;
                    assert(0 <= i < s.len() && (s[i]).0 == key);
                    assert(entry_ok(s[i], raster.font_bytes(), raster.size(), cell_w as nat,
                        cell_h as nat));
                    assert((s[i]).0 as char == ch);
                    assert(bm == value_of(s, key));
                    assert(bm == (s[i]).1);
                    lemma_drop_key(s, key);
                    assert(entries_consistent(final(self).entries(), raster.font_bytes(),
                        raster.size(), cell_w as nat, cell_h as nat)) by {
                        let d = drop_key(s, key);
                        let p = final(self).entries();
                        assert forall|j: int| 0 <= j < p.len() implies entry_ok(#[trigger] p[j],
                            raster.font_bytes(), raster.size(), cell_w as nat, cell_h as nat) by {
                            if j == p.len() - 1 {
                                assert(p[j] == (key, value_of(s, key)));
                            } else {
                                assert(p[j] == d[j]);
                                assert(s.contains(d[j]));
                                let m = choose|m: int| 0 <= m < s.len() && s[m] == d[j];
                                assert(entry_ok(s[m], raster.font_bytes(), raster.size(),
                                    cell_w as nat, cell_h as nat));
                            }
                        }
                    }
                }
                bm
            },
            None => {
                let total = cell_w * cell_h;
                let mut buf: Vec<u8> = vec![0u8; total];
                proof {
                    assert(buf@ =~= zero_cell(cell_w as nat, cell_h as nat));
                }
                let off = raster.draw_glyph_into(ch, cell_w, &mut buf);
                let bm = GlyphBitmap { data: buf, off_x: off.0, off_y: off.1 };
                self.put(key, &bm);
                proof {
                    let s = old(self).entries();
                    let p = final(self).entries();
                    lemma_drop_key(s, key);
                    assert(entry_ok((key, bm), raster.font_bytes(), raster.size(),
                        cell_w as nat, cell_h as nat)) by {
                        assert(key as char == ch);
                        assert(bitmap_matches(bm, raster.font_bytes(), raster.size(), ch,
                            cell_w as nat, cell_h as nat));
                    }
                    assert(entries_consistent(p, raster.font_bytes(), raster.size(),
                        cell_w as nat, cell_h as nat)) by {
                        let base = if s.len() < old(self).spec_capacity() {
                            s
                        } else {
                            s.drop_first()
                        };
                        assert forall|j: int| 0 <= j < p.len() implies entry_ok(#[trigger] p[j],
                            raster.font_bytes(), raster.size(), cell_w as nat, cell_h as nat) by {
                            if j == p.len() - 1 {
                                assert(p[j] == (key, bm));
                            } else {
                                assert(p[j] == base[j]);
                                if s.len() < old(self).spec_capacity() {
                                    assert(entry_ok(s[j], raster.font_bytes(), raster.size(),
                                        cell_w as nat, cell_h as nat));
                                } else {
                                    assert(base[j] == s[j + 1]);
                                    assert(entry_ok(s[j + 1], raster.font_bytes(), raster.size(),
                                        cell_w as nat, cell_h as nat));
                                }
                            }
                        }
                    }
                }
                bm
            },
        }
    }
}

} // verus!
