//! The text console: a sliding window of wrapped display lines, dirty
//! tracking, and the paint pass that blends cached glyphs into a pixel
//! surface.
//!
//! `append` wraps text into display lines and pushes them into the
//! window, evicting from the head once the window is full; `draw`
//! repaints either everything (after an eviction) or only the slots
//! filled since the last paint.

use crate::cache::{
    entries_consistent, has_key, lemma_consistent_value, value_of, zero_cell, GlyphCache,
};
use crate::glyph::{glyph_draw_of, GlyphBitmap, Rasterizer};
use crate::surface::{blit_upto, Surface};
use crate::wrap::{chunks_of, display_lines_of, split_lines};
use std::collections::VecDeque;
use vstd::prelude::*;

verus! {

broadcast use vstd::string::axiom_spec_iter;

/// What the next paint must repaint: everything, because the window
/// scrolled, or only the listed slots, filled since the last paint.
pub enum DirtyState {
    /// The window scrolled: every visible slot must be repainted.
    FullRedraw,
    /// No scroll happened: only these slot indices must be repainted.
    PartialRedraw(Vec<usize>),
}

impl DirtyState {
    /// The recorded slot indices (none in the full-redraw state).
    pub open spec fn slots(&self) -> Seq<usize> {
        match self {
            DirtyState::FullRedraw => Seq::empty(),
            DirtyState::PartialRedraw(v) => v@,
        }
    }
}

/// The window contents after pushing `added` lines onto `w0` with
/// capacity `cap`: the last `cap` of `w0 + added`, older lines evicted
/// from the head, first in, first out.
pub open spec fn window_after(w0: Seq<Seq<char>>, added: Seq<Seq<char>>, cap: nat) -> Seq<
    Seq<char>,
> {
    let all = w0 + added;
    if all.len() <= cap {
        all
    } else {
        all.skip(all.len() - cap)
    }
}

/// The slot indices that `k` lines pushed onto a window of `len0` lines
/// occupy, while no eviction happens.
pub open spec fn added_slots(len0: nat, k: nat) -> Seq<usize> {
    Seq::new(k, |i: int| (len0 + i) as usize)
}

/// Pushing one more line moves the window by one step: an append onto a
/// full window drops the head, any other append just grows the tail.
pub proof fn lemma_window_step(w0: Seq<Seq<char>>, added: Seq<Seq<char>>, l: Seq<char>, cap: nat)
    requires
        w0.len() <= cap,
        cap >= 1,
    ensures
        ({
            let cur = window_after(w0, added, cap);
            window_after(w0, added.push(l), cap) == if cur.len() == cap {
                cur.drop_first().push(l)
            } else {
                cur.push(l)
            }
        }),
        window_after(w0, added, cap).len() == if w0.len() + added.len() <= cap {
            (w0.len() + added.len()) as int
        } else {
            cap as int
        },
{
    let all = w0 + added;
    let cur = window_after(w0, added, cap);
    assert(w0 + added.push(l) =~= all.push(l));
    if all.len() < cap {
        assert(window_after(w0, added.push(l), cap) =~= cur.push(l));
    } else {
        let out = all.push(l).skip(all.len() + 1 - cap);
        assert(window_after(w0, added.push(l), cap) == out);
        assert(cur.len() == cap);
        assert(out.len() == cap);
        assert forall|k: int| 0 <= k < cap implies out[k] == cur.drop_first().push(l)[k] by {
            assert(out[k] == all.push(l)[all.len() + 1 - cap + k]);
            if k < cap - 1 {
                assert(all.push(l)[all.len() + 1 - cap + k] == all[all.len() + 1 - cap + k]);
                assert(cur.drop_first()[k] == cur[k + 1]);
                if all.len() == cap {
                    assert(cur == all);
                } else {
                    assert(cur[k + 1] == all[all.len() - cap + k + 1]);
                }
            }
        }
        assert(out =~= cur.drop_first().push(l));
    }
}

/// Sliding a window first by `a`, then by `b`, is sliding it by `a + b`.
pub proof fn lemma_window_compose(
    w0: Seq<Seq<char>>,
    a: Seq<Seq<char>>,
    b: Seq<Seq<char>>,
    cap: nat,
)
    requires
        w0.len() <= cap,
        cap >= 1,
    ensures
        window_after(window_after(w0, a, cap), b, cap) == window_after(w0, a + b, cap),
    decreases b.len(),
{
    if b.len() == 0 {
        assert(window_after(w0, a, cap) + b =~= window_after(w0, a, cap));
        assert(w0 + (a + b) =~= w0 + a);
        assert(window_after(window_after(w0, a, cap), b, cap) =~= window_after(w0, a + b, cap));
    } else {
        let b0 = b.drop_last();
        let l = b.last();
        lemma_window_compose(w0, a, b0, cap);
        let u = window_after(w0, a, cap);
        lemma_window_step(w0, a + b0, l, cap);
        lemma_window_step(u, b0, l, cap);
        assert(u.len() <= cap);
        assert(b0.push(l) =~= b);
        assert((a + b0).push(l) =~= a + b);
        assert(window_after(u, b, cap) == window_after(w0, a + b, cap));
    }
}

/// Once the window is full, one more line evicts exactly the head
/// line: first in, first out.
pub proof fn lemma_full_window_push(w0: Seq<Seq<char>>, l: Seq<char>, cap: nat)
    requires
        w0.len() == cap,
        cap >= 1,
    ensures
        window_after(w0, seq![l], cap) == w0.drop_first().push(l),
{
    lemma_window_step(w0, Seq::empty(), l, cap);
    assert(w0 + Seq::<Seq<char>>::empty() =~= w0);
    assert(window_after(w0, Seq::empty(), cap) =~= w0);
    assert(Seq::<Seq<char>>::empty().push(l) =~= seq![l]);
}

/// Everything that fixes where and how glyphs land on a surface: the
/// font identity, the cell and row metrics, and the surface size the
/// console was built for.
pub struct PaintGeometry {
    /// The font bytes the rasterizer was built from.
    pub font: Seq<u8>,
    /// The fixed pixel size.
    pub size: u32,
    /// Cell width in pixels: one column per cell.
    pub char_px: nat,
    /// Cell height in pixels.
    pub cell_h: nat,
    /// Pixels between consecutive rows.
    pub line_pitch: nat,
    /// Pixels from a row's top to its baseline.
    pub ascent_px: nat,
    /// Surface width in pixels.
    pub width: nat,
    /// Surface height in pixels.
    pub height: nat,
}

/// One glyph blended at its pen position: the character's cell bitmap,
/// rasterized over a fresh cell, lands with its placement offset at
/// column `col` of the slot's row.
pub open spec fn glyph_pen_blit(
    b: Seq<u8>,
    g: PaintGeometry,
    stride: nat,
    ch: char,
    col: int,
    slot: int,
) -> Seq<u8> {
    let (cov, ox, oy) = glyph_draw_of(
        g.font,
        g.size,
        ch,
        g.char_px,
        zero_cell(g.char_px, g.cell_h),
    );
    blit_upto(
        b,
        cov,
        g.char_px,
        col * g.char_px + ox,
        slot * g.line_pitch + g.ascent_px + oy,
        stride,
        g.width,
        g.height,
        cov.len() as int,
    )
}

/// The surface after painting the first `n` characters of one display
/// line into its slot, left to right, each glyph over what was there.
pub open spec fn painted_line_upto(
    b: Seq<u8>,
    g: PaintGeometry,
    stride: nat,
    line: Seq<char>,
    slot: int,
    n: int,
) -> Seq<u8>
    decreases n,
{
    if n <= 0 {
        b
    } else {
        glyph_pen_blit(
            painted_line_upto(b, g, stride, line, slot, n - 1),
            g,
            stride,
            line[n - 1],
            n - 1,
            slot,
        )
    }
}

/// The surface after painting the display lines sitting in the first
/// `k` listed slots, in order (slots out of the window's range paint
/// nothing).
pub open spec fn painted_slots_upto(
    b: Seq<u8>,
    g: PaintGeometry,
    stride: nat,
    lines: Seq<Seq<char>>,
    slots: Seq<usize>,
    k: int,
) -> Seq<u8>
    decreases k,
{
    if k <= 0 {
        b
    } else {
        let prev = painted_slots_upto(b, g, stride, lines, slots, k - 1);
        let sl = slots[k - 1] as int;
        if 0 <= sl < lines.len() {
            painted_line_upto(prev, g, stride, lines[sl], sl, lines[sl].len() as int)
        } else {
            prev
        }
    }
}

/// Slot indices 0, 1, ..., n-1: every occupied slot, in order.
pub open spec fn identity_slots(n: nat) -> Seq<usize> {
    Seq::new(n, |i: int| i as usize)
}

/// Every key resident both before and after keeps its bitmap bytes and
/// its placement offsets.
pub open spec fn keeps_resident_bitmaps(
    pre: Seq<(u32, GlyphBitmap)>,
    post: Seq<(u32, GlyphBitmap)>,
) -> bool {
    forall|k: u32|
        #![trigger has_key(post, k), has_key(pre, k)]
        has_key(post, k) && has_key(pre, k) ==> value_of(post, k).data@ == value_of(pre, k).data@
            && value_of(post, k).off_x == value_of(pre, k).off_x && value_of(post, k).off_y
            == value_of(pre, k).off_y
}

/// Re-establishes the window, dirty and slot bookkeeping after one
/// wrapped line went into the window: `pre` and `post` are the console
/// around that push, `done` the lines pushed before it within the same
/// append, starting from window `w0` of length `len0`, full-redraw flag
/// `full0` and recorded slots `slots0`.
pub proof fn lemma_push_reestablish(
    pre: Console,
    post: Console,
    w0: Seq<Seq<char>>,
    done: Seq<Seq<char>>,
    l: Seq<char>,
    cap: nat,
    len0: nat,
    full0: bool,
    slots0: Seq<usize>,
)
    requires
        w0.len() <= cap,
        cap >= 1,
        cap <= usize::MAX,
        len0 == w0.len(),
        pre.lines_view() == window_after(w0, done, cap),
        pre.spec_full_redraw() <==> (full0 || len0 + done.len() > cap),
        !pre.spec_full_redraw() ==> pre.spec_dirty_slots() == slots0 + added_slots(
            len0,
            done.len(),
        ),
        cap == pre.spec_line_count(),
        if pre.lines_view().len() == pre.spec_line_count() {
            post.lines_view() == pre.lines_view().drop_first().push(l)
                && post.spec_full_redraw()
        } else {
            post.lines_view() == pre.lines_view().push(l) && (post.spec_full_redraw()
                <==> pre.spec_full_redraw()) && (!pre.spec_full_redraw()
                ==> post.spec_dirty_slots() == pre.spec_dirty_slots().push(
                pre.lines_view().len() as usize,
            ))
        },
    ensures
        post.lines_view() == window_after(w0, done.push(l), cap),
        post.spec_full_redraw() <==> (full0 || len0 + done.len() + 1 > cap),
        !post.spec_full_redraw() ==> post.spec_dirty_slots() == slots0 + added_slots(
            len0,
            done.len() + 1,
        ),
{
    lemma_window_step(w0, done, l, cap);
    let cur = window_after(w0, done, cap);
    if cur.len() == cap {
        assert(len0 + done.len() >= cap);
    } else {
        assert(len0 + done.len() < cap);
        if !post.spec_full_redraw() {
            assert(pre.spec_dirty_slots() == slots0 + added_slots(len0, done.len()));
            assert(post.spec_dirty_slots() == (slots0 + added_slots(len0, done.len())).push(
                (len0 + done.len()) as usize,
            ));
            assert(slots0 + added_slots(len0, done.len() + 1) =~= (slots0 + added_slots(
                len0,
                done.len(),
            )).push((len0 + done.len()) as usize));
        }
    }
}

/// A software text console: a rasterizer and glyph cache, the window of
/// wrapped display lines, and the dirty state of the next paint.
pub struct Console {
    raster: Rasterizer,
    cache: GlyphCache,
    lines: VecDeque<Vec<char>>,
    dirty: DirtyState,
    max_columns: usize,
    line_count: usize,
    char_px: usize,
    cell_h: usize,
    line_pitch: usize,
    ascent_px: usize,
    width: u32,
    height: u32,
}

impl Console {
    /// The display lines now in the window, oldest first.
    pub closed spec fn lines_view(&self) -> Seq<Seq<char>> {
        self.lines@.map_values(|l: Vec<char>| l@)
    }

    /// Columns per display line.
    pub closed spec fn spec_max_columns(&self) -> nat {
        self.max_columns as nat
    }

    /// Display-line slots in the window.
    pub closed spec fn spec_line_count(&self) -> nat {
        self.line_count as nat
    }

    /// Surface width in pixels.
    pub closed spec fn spec_width(&self) -> nat {
        self.width as nat
    }

    /// Surface height in pixels.
    pub closed spec fn spec_height(&self) -> nat {
        self.height as nat
    }

    /// Whether the next paint repaints every slot.
    pub closed spec fn spec_full_redraw(&self) -> bool {
        self.dirty is FullRedraw
    }

    /// The slots the next partial paint repaints.
    pub closed spec fn spec_dirty_slots(&self) -> Seq<usize> {
        self.dirty.slots()
    }

    /// The cache value itself, for stating that an operation leaves it be.
    pub closed spec fn cache_state(&self) -> GlyphCache {
        self.cache
    }

    /// The cached glyph entries, least recently used first.
    pub closed spec fn cache_entries(&self) -> Seq<(u32, crate::glyph::GlyphBitmap)> {
        self.cache.entries()
    }

    /// The fixed paint geometry: the font's identity, the glyph cell
    /// and row metrics, and the surface size the console was built for.
    pub closed spec fn geometry(&self) -> PaintGeometry {
        PaintGeometry {
            font: self.raster.font_bytes(),
            size: self.raster.size(),
            char_px: self.char_px as nat,
            cell_h: self.cell_h as nat,
            line_pitch: self.line_pitch as nat,
            ascent_px: self.ascent_px as nat,
            width: self.width as nat,
            height: self.height as nat,
        }
    }

    /// The geometry and the injected helpers, which no operation changes.
    pub closed spec fn same_config(&self, other: &Console) -> bool {
        &&& self.raster == other.raster
        &&& self.max_columns == other.max_columns
        &&& self.line_count == other.line_count
        &&& self.char_px == other.char_px
        &&& self.cell_h == other.cell_h
        &&& self.line_pitch == other.line_pitch
        &&& self.ascent_px == other.ascent_px
        &&& self.width == other.width
        &&& self.height == other.height
    }

    /// Window, wrapping and painting stay inside their bounds, and every
    /// cached bitmap is the rasterization of its own key.
    pub closed spec fn wf(&self) -> bool {
        &&& self.cache.wf()
        &&& entries_consistent(
            self.cache.entries(),
            self.raster.font_bytes(),
            self.raster.size(),
            self.char_px as nat,
            self.cell_h as nat,
        )
        &&& self.lines@.len() <= self.line_count
        &&& forall|i: int|
            0 <= i < self.lines@.len() ==> (#[trigger] self.lines@[i])@.len() <= self.max_columns
        &&& forall|i: int|
            0 <= i < self.dirty.slots().len() ==> ((#[trigger] self.dirty.slots()[i]) as int)
                < self.lines@.len()
        &&& self.max_columns >= 1
        &&& self.line_count >= 1
        &&& self.char_px >= 1
        &&& self.char_px * self.cell_h <= 0xffff_ffff
        &&& self.max_columns * self.char_px <= 0xffff_ffff
        &&& self.line_count * self.line_pitch <= 0xffff_ffff
        &&& self.max_columns <= 0xffff_ffff
        &&& self.line_count <= 0xffff_ffff
        &&& self.line_pitch <= 0xffff_ffff
        &&& self.ascent_px <= 0xffff_ffff
    }

    /// Columns per display line.
    pub fn max_columns(&self) -> (n: usize)
        ensures
            n == self.spec_max_columns(),
    {
        self.max_columns
    }

    /// Display-line slots in the window.
    pub fn line_count(&self) -> (n: usize)
        ensures
            n == self.spec_line_count(),
    {
        self.line_count
    }

    /// How many slots hold a display line now.
    pub fn occupied_lines(&self) -> (n: usize)
        ensures
            n == self.lines_view().len(),
    {
        self.lines.len()
    }

    /// The display line in slot `i`.
    pub fn line_at(&self, i: usize) -> (l: &Vec<char>)
        requires
            i < self.lines_view().len(),
        ensures
            l@ == self.lines_view()[i as int],
    {
        &self.lines[i]
    }

    /// Whether the next paint repaints every slot.
    pub fn is_full_redraw(&self) -> (b: bool)
        ensures
            b == self.spec_full_redraw(),
    {
        match &self.dirty {
            DirtyState::FullRedraw => true,
            DirtyState::PartialRedraw(_) => false,
        }
    }

    /// How many slots the next partial paint repaints.
    pub fn dirty_slot_count(&self) -> (n: usize)
        ensures
            n == self.spec_dirty_slots().len(),
    {
        match &self.dirty {
            DirtyState::FullRedraw => 0,
            DirtyState::PartialRedraw(v) => v.len(),
        }
    }

    /// The `k`-th slot the next partial paint repaints.
    pub fn dirty_slot_at(&self, k: usize) -> (s: usize)
        requires
            k < self.spec_dirty_slots().len(),
        ensures
            s == self.spec_dirty_slots()[k as int],
    {
        match &self.dirty {
            DirtyState::FullRedraw => 0,
            DirtyState::PartialRedraw(v) => v[k],
        }
    }

    /// Pushes one wrapped display line into the window. A full window
    /// evicts its oldest line and turns the dirty state into a full
    /// redraw; otherwise the line takes a fresh slot, recorded while no
    /// full redraw is pending.
    fn push_wrapped_line(&mut self, line: Vec<char>)
        requires
            old(self).wf(),
            line@.len() <= old(self).spec_max_columns(),
        ensures
            final(self).wf(),
            final(self).same_config(old(self)),
            final(self).cache == old(self).cache,
            if old(self).lines_view().len() == old(self).spec_line_count() {
                final(self).lines_view() == old(self).lines_view().drop_first().push(line@)
                    && final(self).spec_full_redraw()
            } else {
                final(self).lines_view() == old(self).lines_view().push(line@)
                    && (final(self).spec_full_redraw() <==> old(self).spec_full_redraw())
                    && (!old(self).spec_full_redraw() ==> final(self).spec_dirty_slots()
                        == old(self).spec_dirty_slots().push(old(self).lines_view().len() as usize))
            },
    {
        let ghost prev = self.lines@;
        if self.lines.len() == self.line_count {
            let _ = self.lines.pop_front();
            self.dirty = DirtyState::FullRedraw;
            self.lines.push_back(line);
            proof {
                assert(self.lines@ =~= prev.subrange(1, prev.len() as int).push(line));
                assert(self.lines_view() =~= old(self).lines_view().drop_first().push(line@));
                assert forall|k: int| 0 <= k < self.lines@.len() implies (
                #[trigger] self.lines@[k])@.len() <= self.max_columns by {
                    if k < self.lines@.len() - 1 {
                        assert(self.lines@[k] == prev[k + 1]);
                    }
                }
            }
        } else {
            let idx = self.lines.len();
            let mut d = DirtyState::FullRedraw;
            core::mem::swap(&mut d, &mut self.dirty);
            match d {
                DirtyState::FullRedraw => {
                    self.dirty = DirtyState::FullRedraw;
                },
                DirtyState::PartialRedraw(mut v) => {
                    v.push(idx);
                    self.dirty = DirtyState::PartialRedraw(v);
                },
            }
            self.lines.push_back(line);
            proof {
                assert(self.lines@ =~= prev.push(line));
                assert(self.lines_view() =~= old(self).lines_view().push(line@));
                assert forall|k: int| 0 <= k < self.lines@.len() implies (
                #[trigger] self.lines@[k])@.len() <= self.max_columns by {
                    if k < self.lines@.len() - 1 {
                        assert(self.lines@[k] == prev[k]);
                    }
                }
                assert forall|k: int| 0 <= k < self.dirty.slots().len() implies ((
                #[trigger] self.dirty.slots()[k]) as int) < self.lines@.len() by {
                    if k < self.dirty.slots().len() - 1 {
                        assert(self.dirty.slots()[k] == old(self).dirty.slots()[k]);
                    } else {
                        assert(old(self).dirty.slots().len() <= k + 1);
                    }
                }
            }
        }
    }

    /// Wraps one line-feed-free segment at the column limit and pushes
    /// each resulting display line into the window.
    fn append_segment(&mut self, seg: &Vec<char>)
        requires
            old(self).wf(),
        ensures
            final(self).wf(),
            final(self).same_config(old(self)),
            final(self).cache == old(self).cache,
            final(self).lines_view() == window_after(
                old(self).lines_view(),
                chunks_of(seg@, old(self).spec_max_columns()),
                old(self).spec_line_count(),
            ),
            final(self).spec_full_redraw() <==> (old(self).spec_full_redraw()
                || old(self).lines_view().len()
                    + chunks_of(seg@, old(self).spec_max_columns()).len()
                    > old(self).spec_line_count()),
            !final(self).spec_full_redraw() ==> final(self).spec_dirty_slots()
                == old(self).spec_dirty_slots() + added_slots(
                old(self).lines_view().len(),
                chunks_of(seg@, old(self).spec_max_columns()).len(),
            ),
    {
        let w = self.max_columns;
        let ghost w0 = old(self).lines_view();
        let ghost cap = old(self).spec_line_count();
        let ghost len0 = old(self).lines_view().len();
        let ghost full0 = old(self).spec_full_redraw();
        let ghost slots0 = old(self).spec_dirty_slots();
        let ghost target = chunks_of(seg@, w as nat);
        let ghost done = Seq::<Seq<char>>::empty();
        let n = seg.len();
        let mut i: usize = 0;
        proof {
            assert(seg@.skip(0) =~= seg@);
            assert(done + target =~= target);
            assert(window_after(w0, done, cap) =~= w0);
            assert(slots0 + added_slots(len0, 0) =~= slots0);
        }
        let mut pushed_lines: Ghost<Seq<Seq<char>>> = Ghost(done);
        while n - i > w
            invariant
                i <= n == seg.len(),
                w >= 1,
                w == self.max_columns,
                self.wf(),
                self.same_config(old(self)),
                self.cache == old(self).cache,
                target == pushed_lines@ + chunks_of(seg@.skip(i as int), w as nat),
                target == chunks_of(seg@, w as nat),
                self.lines_view() == window_after(w0, pushed_lines@, cap),
                w0.len() <= cap,
                cap >= 1,
                cap <= usize::MAX,
                cap == self.spec_line_count(),
                len0 == w0.len(),
                self.spec_full_redraw() <==> (full0 || len0 + pushed_lines@.len() > cap),
                !self.spec_full_redraw() ==> self.spec_dirty_slots() == slots0 + added_slots(
                    len0,
                    pushed_lines@.len(),
                ),
            decreases n - i,
        {
            let ghost done_now = pushed_lines@;
            let ghost rest = seg@.skip(i as int);
            let chunk = crate::wrap::copy_range(seg, i, i + w);
            proof {
                assert(chunk@ =~= rest.take(w as int));
                lemma_window_step(w0, done_now, chunk@, cap);
            }
            let ghost pre = *self;
            self.push_wrapped_line(chunk);
            i = i + w;
            proof {
                pushed_lines@ = done_now.push(chunk@);
            }
            proof {
                assert(rest.skip(w as int) =~= seg@.skip(i as int));
                assert(chunks_of(rest, w as nat) == seq![rest.take(w as int)] + chunks_of(
                    seg@.skip(i as int),
                    w as nat,
                ));
                assert(done_now + (seq![rest.take(w as int)] + chunks_of(
                    seg@.skip(i as int),
                    w as nat,
                )) =~= pushed_lines@ + chunks_of(seg@.skip(i as int), w as nat));
                lemma_push_reestablish(
                    pre,
                    *self,
                    w0,
                    done_now,
                    chunk@,
                    cap,
                    len0,
                    full0,
                    slots0,
                );
            }
        }
        let ghost done_now = pushed_lines@;
        let ghost rest = seg@.skip(i as int);
        let chunk = crate::wrap::copy_range(seg, i, n);
        proof {
            assert(chunk@ =~= rest);
            assert(chunks_of(rest, w as nat) == seq![rest]);
            lemma_window_step(w0, done_now, chunk@, cap);
        }
        let ghost pre = *self;
        self.push_wrapped_line(chunk);
        proof {
            lemma_push_reestablish(pre, *self, w0, done_now, chunk@, cap, len0, full0, slots0);
            assert(done_now.push(rest) =~= done_now + seq![rest]);
            assert(done_now + seq![rest] =~= target);
        }
    }

    /// Appends UTF-8 text: splits it on line feeds, wraps every segment
    /// at the column limit, and pushes the resulting display lines into
    /// the window in order. Once the window is full, every further line
    /// evicts the oldest one, and the next paint becomes a full redraw;
    /// while nothing is evicted, only the freshly filled slots are
    /// recorded for the next paint.
    pub fn append(&mut self, text: &str)
        requires
            old(self).wf(),
        ensures
            final(self).wf(),
            final(self).same_config(old(self)),
            final(self).cache_state() == old(self).cache_state(),
            final(self).lines_view() == window_after(
                old(self).lines_view(),
                display_lines_of(text@, old(self).spec_max_columns()),
                old(self).spec_line_count(),
            ),
            final(self).lines_view().len() <= final(self).spec_line_count(),
            final(self).spec_full_redraw() <==> (old(self).spec_full_redraw()
                || old(self).lines_view().len()
                    + display_lines_of(text@, old(self).spec_max_columns()).len()
                    > old(self).spec_line_count()),
            !final(self).spec_full_redraw() ==> final(self).spec_dirty_slots()
                == old(self).spec_dirty_slots() + added_slots(
                old(self).lines_view().len(),
                display_lines_of(text@, old(self).spec_max_columns()).len(),
            ),
    {
        let ghost w = old(self).spec_max_columns();
        let ghost w0 = old(self).lines_view();
        let ghost cap = old(self).spec_line_count();
        let ghost len0 = old(self).lines_view().len();
        let ghost full0 = old(self).spec_full_redraw();
        let ghost slots0 = old(self).spec_dirty_slots();
        let chars = text_chars(text);
        let segs = crate::wrap::split_text(&chars);
        let ghost segviews = split_lines(text@);
        proof {
            assert(segs.deep_view() == segviews);
        }
        let m = segs.len();
        let mut j: usize = 0;
        proof {
            assert(segviews.take(0) =~= Seq::<Seq<char>>::empty());
            assert(partial_display(segviews, w, 0) =~= Seq::<Seq<char>>::empty());
            assert(window_after(w0, Seq::empty(), cap) =~= w0);
            assert(slots0 + added_slots(len0, 0) =~= slots0);
        }
        while j < m
            invariant
                j <= m == segs.deep_view().len(),
                segs.deep_view() == segviews,
                self.wf(),
                self.same_config(old(self)),
                self.cache == old(self).cache,
                w == self.spec_max_columns(),
                w >= 1,
                w0.len() <= cap,
                cap >= 1,
                cap <= usize::MAX,
                len0 == w0.len(),
                cap == self.spec_line_count(),
                self.lines_view() == window_after(w0, partial_display(segviews, w, j as int), cap),
                self.spec_full_redraw() <==> (full0 || len0 + partial_display(
                    segviews,
                    w,
                    j as int,
                ).len() > cap),
                !self.spec_full_redraw() ==> self.spec_dirty_slots() == slots0 + added_slots(
                    len0,
                    partial_display(segviews, w, j as int).len(),
                ),
            decreases m - j,
        {
            let ghost before = partial_display(segviews, w, j as int);
            proof {
                assert(segs.deep_view()[j as int] == segs@[j as int]@);
            }
            let ghost pre = *self;
            self.append_segment(&segs[j]);
            j = j + 1;
            proof {
                let seg = segviews[j as int - 1];
                let kb = chunks_of(seg, w).len();
                lemma_partial_display_step(segviews, w, j as int - 1);
                lemma_window_compose(w0, before, chunks_of(seg, w), cap);
                lemma_window_step(w0, before, Seq::<char>::empty(), cap);
                assert(partial_display(segviews, w, j as int).len() == before.len() + kb);
                if !(full0 || len0 + before.len() > cap) {
                    assert(pre.lines_view().len() == len0 + before.len());
                    if !self.spec_full_redraw() {
                        assert(slots0 + added_slots(len0, before.len() + kb) =~= (slots0
                            + added_slots(len0, before.len())) + added_slots(
                            len0 + before.len(),
                            kb,
                        ));
                    }
                }
            }
        }
        proof {
            assert(segviews.take(m as int) =~= segviews);
            assert(partial_display(segviews, w, m as int) == display_lines_of(text@, w));
        }
    }

    /// Surface width in pixels.
    pub fn width(&self) -> (w: u32)
        ensures
            w as nat == self.spec_width(),
    {
        self.width
    }

    /// Surface height in pixels.
    pub fn height(&self) -> (h: u32)
        ensures
            h as nat == self.spec_height(),
    {
        self.height
    }

    /// Builds a console from an injected rasterizer, the surface size in
    /// pixels and the glyph-cache capacity, deriving the column and line
    /// counts from the font's metrics: columns from the advance width,
    /// lines from ascent minus descent plus line gap. Construction fails
    /// exactly on degenerate metrics (no advance, no positive line
    /// pitch, no whole column or line fits) on a zero cache capacity, or
    /// on a geometry too large to paint.
    pub fn new(raster: Rasterizer, width: u32, height: u32, cache_capacity: usize) -> (r: Option<
        Console,
    >)
        ensures
            r is Some <==> construction_ok(
                raster.metrics_view(),
                raster.size(),
                width,
                height,
                cache_capacity,
            ),
            r matches Some(c) ==> {
                &&& c.wf()
                &&& c.lines_view() == Seq::<Seq<char>>::empty()
                &&& !c.spec_full_redraw()
                &&& c.spec_dirty_slots() == Seq::<usize>::empty()
                &&& c.cache_entries() == Seq::<(u32, crate::glyph::GlyphBitmap)>::empty()
                &&& c.cache_state().spec_capacity() == cache_capacity
                &&& c.spec_width() == width
                &&& c.spec_height() == height
                &&& c.spec_max_columns() == spec_columns_for(width, raster.metrics_view().0)
                &&& c.spec_line_count() == spec_rows_for(
                    height,
                    spec_pitch_q8(raster.metrics_view()),
                )
            },
    {
        let m = raster.metrics_q8();
        let (adv, asc, desc, gap) = m;
        if adv == 0 {
            return None;
        }
        let pitch: i64 = asc as i64 - desc as i64 + gap as i64;
        if pitch <= 0 {
            return None;
        }
        let cols: u64 = (width as u64 * 256) / (adv as u64);
        let rows: u64 = (height as u64 * 256) / (pitch as u64);
        if cols == 0 || cols > 0xffff_ffff || rows == 0 || rows > 0xffff_ffff || cache_capacity
            == 0 {
            return None;
        }
        let cell_w: u64 = (adv as u64 + 255) / 256;
        let size = raster.size_px();
        let cell_h: u64 = size as u64;
        match cell_w.checked_mul(cell_h) {
            Some(p) => if p > 0xffff_ffff {
                return None;
            },
            None => {
                return None;
            },
        }
        match cols.checked_mul(cell_w) {
            Some(p) => if p > 0xffff_ffff {
                return None;
            },
            None => {
                return None;
            },
        }
        let pitch_px: u64 = (pitch as u64) / 256;
        match rows.checked_mul(pitch_px) {
            Some(p) => if p > 0xffff_ffff {
                return None;
            },
            None => {
                return None;
            },
        }
        proof {
            vstd::arithmetic::div_mod::lemma_div_is_ordered(
                pitch as int,
                0x3_0000_0000,
                256,
            );
        }
        let ascent_px: u64 = if asc > 0 {
            (asc as u64) / 256
        } else {
            0
        };
        let console = Console {
            raster,
            cache: GlyphCache::new(cache_capacity),
            lines: VecDeque::new(),
            dirty: DirtyState::PartialRedraw(Vec::new()),
            max_columns: cols as usize,
            line_count: rows as usize,
            char_px: cell_w as usize,
            cell_h: size as usize,
            line_pitch: pitch_px as usize,
            ascent_px: ascent_px as usize,
            width,
            height,
        };
        proof {
            assert(console.lines_view() =~= Seq::<Seq<char>>::empty());
            assert(console.spec_dirty_slots() =~= Seq::<usize>::empty());
        }
        Some(console)
    }

    /// Paints one occupied slot: lays the line's characters out left to
    /// right, one glyph cell per column, fetching each glyph through the
    /// cache and blending its coverage into the surface at the slot's
    /// row.
    fn paint_slot(&mut self, surf: &mut Surface, slot: usize)
        requires
            old(self).wf(),
            old(surf).wf(),
            slot < old(self).lines_view().len(),
            old(surf).spec_width() == old(self).spec_width(),
            old(surf).spec_height() == old(self).spec_height(),
        ensures
            final(self).wf(),
            final(self).same_config(old(self)),
            final(self).lines@ == old(self).lines@,
            final(self).dirty == old(self).dirty,
            final(surf).wf(),
            final(surf).spec_width() == old(surf).spec_width(),
            final(surf).spec_height() == old(surf).spec_height(),
            final(surf).spec_stride() == old(surf).spec_stride(),
            final(surf).bytes().len() == old(surf).bytes().len(),
            final(surf).bytes() == painted_line_upto(
                old(surf).bytes(),
                old(self).geometry(),
                old(surf).spec_stride(),
                old(self).lines_view()[slot as int],
                slot as int,
                old(self).lines_view()[slot as int].len() as int,
            ),
    {
        let line_len = self.lines[slot].len();
        proof {
            assert(old(self).lines_view()[slot as int] == old(self).lines@[slot as int]@);
        }
        let mut col: usize = 0;
        while col < line_len
            invariant
                self.wf(),
                self.same_config(old(self)),
                self.geometry() == old(self).geometry(),
                self.lines@ == old(self).lines@,
                self.dirty == old(self).dirty,
                surf.wf(),
                surf.spec_width() == old(surf).spec_width(),
                surf.spec_height() == old(surf).spec_height(),
                surf.spec_stride() == old(surf).spec_stride(),
                surf.spec_width() == old(self).spec_width(),
                surf.spec_height() == old(self).spec_height(),
                surf.bytes().len() == old(surf).bytes().len(),
                slot < self.lines@.len(),
                col <= line_len == self.lines@[slot as int]@.len(),
                old(self).lines_view()[slot as int] == self.lines@[slot as int]@,
                surf.bytes() == painted_line_upto(
                    old(surf).bytes(),
                    old(self).geometry(),
                    old(surf).spec_stride(),
                    old(self).lines_view()[slot as int],
                    slot as int,
                    col as int,
                ),
            decreases line_len - col,
        {
            let c = self.lines[slot][col];
            proof {
                assert(self.lines@[slot as int]@.len() <= self.max_columns);
            }
            let ghost prev_bytes = surf.bytes();
            let bm = self.cache.get_or_rasterize(&self.raster, c, self.char_px, self.cell_h);
            proof {
                assert(col * self.char_px <= self.max_columns * self.char_px)
                    by (nonlinear_arith)
                    requires
                        col <= self.max_columns,
                        self.char_px >= 0,
                ;
                assert(slot * self.line_pitch <= self.line_count * self.line_pitch)
                    by (nonlinear_arith)
                    requires
                        slot <= self.line_count,
                        self.line_pitch >= 0,
                ;
                assert(self.char_px <= self.max_columns * self.char_px) by (nonlinear_arith)
                    requires
                        self.max_columns >= 1,
                        self.char_px >= 0,
                ;
            }
            let ox: i64 = (col as i64) * (self.char_px as i64) + (bm.off_x as i64);
            let oy: i64 = (slot as i64) * (self.line_pitch as i64) + (self.ascent_px as i64) + (
            bm.off_y as i64);
            surf.blit_glyph(&bm.data, self.char_px, ox, oy);
            proof {
                let g = old(self).geometry();
                let line = old(self).lines_view()[slot as int];
                assert(line[col as int] == c);
                let (cov, gox, goy) = glyph_draw_of(
                    g.font,
                    g.size,
                    c,
                    g.char_px,
                    zero_cell(g.char_px, g.cell_h),
                );
                assert(bm.data@ == cov && bm.off_x as int == gox && bm.off_y as int == goy);
                assert(ox as int == col as int * g.char_px + gox);
                assert(oy as int == slot as int * g.line_pitch + g.ascent_px + goy);
                assert(surf.bytes() == glyph_pen_blit(
                    prev_bytes,
                    g,
                    old(surf).spec_stride(),
                    c,
                    col as int,
                    slot as int,
                ));
                assert(surf.bytes() == painted_line_upto(
                    old(surf).bytes(),
                    g,
                    old(surf).spec_stride(),
                    line,
                    slot as int,
                    col as int + 1,
                ));
            }
            col = col + 1;
        }
    }

    /// Paints the window into the surface. After a scroll (full redraw)
    /// the whole surface is first cleared, then every occupied slot is
    /// painted; otherwise only the slots recorded since the last draw
    /// are painted, everything else keeping its pixels. Afterwards the
    /// dirty state is empty again: a draw with nothing appended since
    /// the last one touches neither the surface nor the glyph cache.
    pub fn draw(&mut self, surf: &mut Surface)
        requires
            old(self).wf(),
            old(surf).wf(),
            old(surf).spec_width() == old(self).spec_width(),
            old(surf).spec_height() == old(self).spec_height(),
        ensures
            final(self).wf(),
            final(self).same_config(old(self)),
            final(self).lines_view() == old(self).lines_view(),
            !final(self).spec_full_redraw(),
            final(self).spec_dirty_slots() == Seq::<usize>::empty(),
            final(surf).wf(),
            final(surf).spec_width() == old(surf).spec_width(),
            final(surf).spec_height() == old(surf).spec_height(),
            final(surf).spec_stride() == old(surf).spec_stride(),
            !old(self).spec_full_redraw() && old(self).spec_dirty_slots().len() == 0
                ==> final(surf).bytes() == old(surf).bytes() && final(self).cache_state()
                == old(self).cache_state(),
            old(self).spec_full_redraw() ==> final(surf).bytes() == painted_slots_upto(
                Seq::new(old(surf).bytes().len(), |i: int| 0u8),
                old(self).geometry(),
                old(surf).spec_stride(),
                old(self).lines_view(),
                identity_slots(old(self).lines_view().len()),
                old(self).lines_view().len() as int,
            ),
            !old(self).spec_full_redraw() ==> final(surf).bytes() == painted_slots_upto(
                old(surf).bytes(),
                old(self).geometry(),
                old(surf).spec_stride(),
                old(self).lines_view(),
                old(self).spec_dirty_slots(),
                old(self).spec_dirty_slots().len() as int,
            ),
            keeps_resident_bitmaps(old(self).cache_entries(), final(self).cache_entries()),
    {
        let ghost g = old(self).geometry();
        let ghost lines0 = old(self).lines_view();
        let ghost st = old(surf).spec_stride();
        let full = self.is_full_redraw();
        if full {
            surf.clear();
            let ghost zeros = Seq::new(old(surf).bytes().len(), |i: int| 0u8);
            let ghost slots = identity_slots(lines0.len());
            let total = self.occupied_lines();
            let mut i: usize = 0;
            proof {
                assert(surf.bytes() == painted_slots_upto(zeros, g, st, lines0, slots, 0));
            }
            while i < total
                invariant
                    self.wf(),
                    self.same_config(old(self)),
                    self.geometry() == g,
                    self.lines@ == old(self).lines@,
                    self.lines_view() == lines0,
                    self.dirty == old(self).dirty,
                    surf.wf(),
                    surf.spec_width() == old(surf).spec_width(),
                    surf.spec_height() == old(surf).spec_height(),
                    surf.spec_stride() == st,
                    surf.spec_width() == old(self).spec_width(),
                    surf.spec_height() == old(self).spec_height(),
                    i <= total == self.lines@.len(),
                    surf.bytes().len() == old(surf).bytes().len(),
                    slots == identity_slots(lines0.len()),
                    zeros == Seq::new(old(surf).bytes().len(), |i: int| 0u8),
                    surf.bytes() == painted_slots_upto(zeros, g, st, lines0, slots, i as int),
                decreases total - i,
            {
                let ghost pre = *self;
                self.paint_slot(surf, i);
                proof {
                    assert(slots[i as int] == i as usize);
                    assert(pre.lines_view()[i as int] == lines0[i as int]);
                    assert(pre.geometry() == g);
                    assert(surf.bytes() == painted_slots_upto(
                        zeros,
                        g,
                        st,
                        lines0,
                        slots,
                        i as int + 1,
                    ));
                }
                i = i + 1;
            }
        } else {
            let ghost slots = old(self).spec_dirty_slots();
            let total = self.dirty_slot_count();
            let mut k: usize = 0;
            proof {
                assert(surf.bytes() == painted_slots_upto(
                    old(surf).bytes(),
                    g,
                    st,
                    lines0,
                    slots,
                    0,
                ));
            }
            while k < total
                invariant
                    self.wf(),
                    self.same_config(old(self)),
                    self.geometry() == g,
                    self.lines@ == old(self).lines@,
                    self.lines_view() == lines0,
                    self.dirty == old(self).dirty,
                    surf.wf(),
                    surf.spec_width() == old(surf).spec_width(),
                    surf.spec_height() == old(surf).spec_height(),
                    surf.spec_stride() == st,
                    surf.spec_width() == old(self).spec_width(),
                    surf.spec_height() == old(self).spec_height(),
                    k <= total == self.spec_dirty_slots().len(),
                    slots == self.spec_dirty_slots(),
                    total == 0 ==> surf.bytes() == old(surf).bytes() && self.cache
                        == old(self).cache,
                    surf.bytes() == painted_slots_upto(
                        old(surf).bytes(),
                        g,
                        st,
                        lines0,
                        slots,
                        k as int,
                    ),
                decreases total - k,
            {
                let slot = self.dirty_slot_at(k);
                let ghost pre = *self;
                self.paint_slot(surf, slot);
                proof {
                    assert(slots[k as int] == slot);
                    assert((slot as int) < lines0.len());
                    assert(pre.lines_view()[slot as int] == lines0[slot as int]);
                    assert(pre.geometry() == g);
                    assert(surf.bytes() == painted_slots_upto(
                        old(surf).bytes(),
                        g,
                        st,
                        lines0,
                        slots,
                        k as int + 1,
                    ));
                }
                k = k + 1;
            }
        }
        self.dirty = DirtyState::PartialRedraw(Vec::new());
        proof {
            assert(final(self).spec_dirty_slots() =~= Seq::<usize>::empty());
            let pre_entries = old(self).cache_entries();
            let post_entries = self.cache_entries();
            let f = old(self).raster.font_bytes();
            let sz = old(self).raster.size();
            let cw = old(self).char_px as nat;
            let chh = old(self).cell_h as nat;
            assert(keeps_resident_bitmaps(pre_entries, post_entries)) by {
                assert forall|k2: u32|
                    has_key(post_entries, k2) && has_key(pre_entries, k2) implies value_of(
                    post_entries,
                    k2,
                ).data@ == value_of(pre_entries, k2).data@ && value_of(post_entries, k2).off_x
                    == value_of(pre_entries, k2).off_x && value_of(post_entries, k2).off_y
                    == value_of(pre_entries, k2).off_y by {
                    old(self).cache.lemma_wf_shape();
                    self.cache.lemma_wf_shape();
                    lemma_consistent_value(pre_entries, k2, f, sz, cw, chh);
                    lemma_consistent_value(post_entries, k2, f, sz, cw, chh);
                }
            }
        }
    }
}

/// Whether a console can be built from these metrics, dimensions and
/// cache capacity: the font must offer an advance and a positive line
/// pitch, at least one column and one line must fit, the cache must hold
/// at least one entry, and the derived geometry must stay paintable.
pub open spec fn construction_ok(
    m: (u32, i32, i32, i32),
    size_px: u32,
    width: u32,
    height: u32,
    cache_capacity: usize,
) -> bool {
    let adv = m.0;
    let pitch = spec_pitch_q8(m);
    &&& adv > 0
    &&& pitch > 0
    &&& 1 <= spec_columns_for(width, adv) <= 0xffff_ffff
    &&& 1 <= spec_rows_for(height, pitch) <= 0xffff_ffff
    &&& cache_capacity >= 1
    &&& spec_cell_w(adv) * size_px <= 0xffff_ffff
    &&& spec_columns_for(width, adv) * spec_cell_w(adv) <= 0xffff_ffff
    &&& spec_rows_for(height, pitch) * (pitch / 256) <= 0xffff_ffff
}

/// The line pitch in 1/256-pixel units: ascent minus descent plus gap.
pub open spec fn spec_pitch_q8(m: (u32, i32, i32, i32)) -> int {
    m.1 - m.2 + m.3
}

/// Columns that fit a row: the width divided by the advance width.
pub open spec fn spec_columns_for(width: u32, adv_q8: u32) -> int
    recommends
        adv_q8 > 0,
{
    (width as int * 256) / adv_q8 as int
}

/// Lines that fit the surface: the height divided by the line pitch.
pub open spec fn spec_rows_for(height: u32, pitch_q8: int) -> int
    recommends
        pitch_q8 > 0,
{
    (height as int * 256) / pitch_q8
}

/// A glyph cell's width in whole pixels: the advance, rounded up.
pub open spec fn spec_cell_w(adv_q8: u32) -> int {
    (adv_q8 as int + 255) / 256
}

/// The display lines of the first `j` segments, wrapped and in order.
pub open spec fn partial_display(segs: Seq<Seq<char>>, w: nat, j: int) -> Seq<Seq<char>> {
    segs.take(j).map_values(|seg: Seq<char>| chunks_of(seg, w)).flatten()
}

/// One more segment adds exactly its own chunks at the end.
pub proof fn lemma_partial_display_step(segs: Seq<Seq<char>>, w: nat, j: int)
    requires
        0 <= j < segs.len(),
    ensures
        partial_display(segs, w, j + 1) == partial_display(segs, w, j) + chunks_of(segs[j], w),
{
    broadcast use vstd::seq_lib::group_seq_properties;

    let f = |seg: Seq<char>| chunks_of(seg, w);
    assert(segs.take(j + 1) =~= segs.take(j).push(segs[j]));
    assert(segs.take(j + 1).map_values(f) =~= segs.take(j).map_values(f).push(f(segs[j])));
    Seq::lemma_flatten_push(segs.take(j).map_values(f), f(segs[j]));
}

/// The characters of a text, in order.
pub fn text_chars(s: &str) -> (v: Vec<char>)
    ensures
        v@ == s@,
{
    let mut v: Vec<char> = Vec::new();
    for c in it: s.chars()
        invariant
            v@ == it.seq().take(it.index() as int),
    {
        v.push(c);
    }
    proof {
        assert(v@ =~= s@);
    }
    v
}

} // verus!
