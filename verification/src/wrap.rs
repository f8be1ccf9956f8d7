//! Column-based wrapping of text into display lines.
//!
//! Input text is split on line-feed characters into logical segments
//! (empty segments are preserved), and each segment is wrapped greedily
//! at `max_columns` character boundaries.

use vstd::prelude::*;

verus! {

/// The chunks a single logical segment wraps into: greedy chunks of
/// exactly `w` characters, the last chunk possibly shorter. A segment
/// of at most `w` characters (the empty segment included) is one chunk.
pub open spec fn chunks_of(s: Seq<char>, w: nat) -> Seq<Seq<char>>
    decreases s.len(),
    when w > 0
{
    if s.len() <= w {
        seq![s]
    } else {
        seq![s.take(w as int)] + chunks_of(s.skip(w as int), w)
    }
}

/// The logical segments of a text: the pieces between line feeds,
/// the line feeds themselves removed. Two consecutive line feeds give
/// an empty segment; a trailing line feed gives a trailing empty segment.
pub open spec fn split_lines(s: Seq<char>) -> Seq<Seq<char>>
    decreases s.len(),
{
    if s.len() == 0 {
        seq![Seq::<char>::empty()]
    } else if s[0] == '\n' {
        seq![Seq::<char>::empty()] + split_lines(s.drop_first())
    } else {
        let rest = split_lines(s.drop_first());
        seq![seq![s[0]] + rest[0]] + rest.drop_first()
    }
}

/// The display lines that appending `text` produces, in order: each
/// line-feed-delimited segment, wrapped at `w` columns.
pub open spec fn display_lines_of(text: Seq<char>, w: nat) -> Seq<Seq<char>> {
    split_lines(text).map_values(|seg: Seq<char>| chunks_of(seg, w)).flatten()
}

/// A text always has at least one logical segment.
pub proof fn lemma_split_lines_nonempty(s: Seq<char>)
    ensures
        split_lines(s).len() >= 1,
    decreases s.len(),
{
    if s.len() == 0 {
    } else {
        lemma_split_lines_nonempty(s.drop_first());
    }
}

/// Wrap correctness, stated of the chunks of one segment: every chunk
/// holds at most `w` characters, no chunk but possibly the last is short,
/// and concatenating the chunks in order reconstructs the segment exactly.
pub proof fn lemma_chunks_reconstruct(s: Seq<char>, w: nat)
    requires
        w > 0,
    ensures
        chunks_of(s, w).len() >= 1,
        forall|i: int| 0 <= i < chunks_of(s, w).len() ==> #[trigger] chunks_of(s, w)[i].len() <= w,
        forall|i: int|
            0 <= i < chunks_of(s, w).len() - 1 ==> #[trigger] chunks_of(s, w)[i].len() == w,
        chunks_of(s, w).flatten() == s,
    decreases s.len(),
{
    if s.len() <= w {
        assert(chunks_of(s, w) == seq![s]);
        assert(seq![s].drop_first() =~= Seq::<Seq<char>>::empty());
        assert(chunks_of(s, w).flatten() == s + Seq::<Seq<char>>::empty().flatten());
        assert(s + Seq::<Seq<char>>::empty().flatten() =~= s);
    } else {
        let head = s.take(w as int);
        let tail = s.skip(w as int);
        lemma_chunks_reconstruct(tail, w);
        assert(chunks_of(s, w) == seq![head] + chunks_of(tail, w));
        assert(chunks_of(s, w).flatten() == head + chunks_of(tail, w).flatten()) by {
            assert(chunks_of(s, w).drop_first() == chunks_of(tail, w));
        }
        assert(head + tail == s);
        assert(forall|i: int|
            0 <= i < chunks_of(s, w).len() ==> #[trigger] chunks_of(s, w)[i].len() <= w) by {
            assert(forall|i: int|
                1 <= i < chunks_of(s, w).len() ==> chunks_of(s, w)[i] == #[trigger] chunks_of(
                    tail,
                    w,
                )[i - 1]);
        }
    }
}

/// The number of chunks a segment wraps into: one for the empty segment,
/// otherwise the ceiling of `len / w`.
pub proof fn lemma_chunks_count(s: Seq<char>, w: nat)
    requires
        w > 0,
    ensures
        chunks_of(s, w).len() == if s.len() == 0 {
            1int
        } else {
            (s.len() + w - 1) as int / w as int
        },
    decreases s.len(),
{
    if s.len() <= w {
        if s.len() > 0 {
            vstd::arithmetic::div_mod::lemma_basic_div((s.len() - 1) as int, w as int);
            vstd::arithmetic::div_mod::lemma_div_plus_one((s.len() - 1) as int, w as int);
        }
    } else {
        lemma_chunks_count(s.skip(w as int), w);
        vstd::arithmetic::div_mod::lemma_div_plus_one((s.len() - 1) as int, w as int);
    }
}

/// `segs` with `c` glued onto the front of its first segment.
pub open spec fn prepend_first(c: Seq<char>, segs: Seq<Seq<char>>) -> Seq<Seq<char>>
    recommends
        segs.len() >= 1,
{
    seq![c + segs[0]] + segs.drop_first()
}

/// Splits a text on line feeds into its logical segments.
pub fn split_text(text: &Vec<char>) -> (out: Vec<Vec<char>>)
    ensures
        out.deep_view() == split_lines(text@),
{
    let mut done: Vec<Vec<char>> = Vec::new();
    let mut cur: Vec<char> = Vec::new();
    let n = text.len();
    let mut i: usize = 0;
    proof {
        lemma_split_lines_nonempty(text@);
        let s0 = split_lines(text@);
        assert(text@.skip(0) =~= text@);
        assert(Seq::<char>::empty() + s0[0] =~= s0[0]);
        assert(seq![s0[0]] + s0.drop_first() =~= s0);
        assert(prepend_first(cur@, s0) =~= s0);
        assert(done.deep_view() =~~= Seq::<Seq<char>>::empty());
        assert(Seq::<Seq<char>>::empty() + s0 =~= s0);
    }
    while i < n
        invariant
            i <= n == text.len(),
            split_lines(text@) == done.deep_view() + prepend_first(
                cur@,
                split_lines(text@.skip(i as int)),
            ),
        decreases n - i,
    {
        let ghost here = text@.skip(i as int);
        let ghost later = text@.skip(i as int + 1);
        proof {
            assert(here[0] == text@[i as int]);
            assert(here.drop_first() =~= later);
            lemma_split_lines_nonempty(later);
        }
        let c = text[i];
        if c == '\n' {
            let ghost curview = cur@;
            let ghost prev = done.deep_view();
            done.push(cur);
            cur = Vec::new();
            proof {
                let s2 = split_lines(later);
                assert(split_lines(here) == seq![Seq::<char>::empty()] + s2);
                assert(curview + Seq::<char>::empty() =~= curview);
                assert((seq![Seq::<char>::empty()] + s2).drop_first() =~= s2);
                assert(prepend_first(curview, split_lines(here)) =~= seq![curview] + s2);
                assert(Seq::<char>::empty() + s2[0] =~= s2[0]);
                assert(seq![s2[0]] + s2.drop_first() =~= s2);
                assert(prepend_first(cur@, s2) =~= s2);
                assert(done.deep_view() =~~= prev.push(curview));
                assert(prev.push(curview) =~= prev + seq![curview]);
                assert(prev + (seq![curview] + s2) =~= (prev + seq![curview]) + s2);
            }
        } else {
            let ghost prevcur = cur@;
            cur.push(c);
            proof {
                let r = split_lines(later);
                assert(split_lines(here) == seq![seq![here[0]] + r[0]] + r.drop_first());
                assert(prepend_first(prevcur, split_lines(here)) =~= prepend_first(cur@, r)) by {
                    assert((seq![here[0]] + r[0])[0] == here[0]);
                    assert(prevcur + (seq![here[0]] + r[0]) =~= cur@ + r[0]);
                    assert((seq![seq![here[0]] + r[0]] + r.drop_first()).drop_first() =~= r.drop_first());
                }
            }
        }
        i = i + 1;
    }
    let ghost prev = done.deep_view();
    done.push(cur);
    proof {
        assert(text@.skip(i as int) =~= Seq::<char>::empty());
        assert(split_lines(Seq::<char>::empty()) == seq![Seq::<char>::empty()]);
        assert(prepend_first(cur@, seq![Seq::<char>::empty()]) =~= seq![cur@]);
        assert(done.deep_view() =~~= prev.push(cur@));
        assert(prev.push(cur@) =~= prev + seq![cur@]);
    }
    done
}

/// Copies the characters `seg[from..to]` into a fresh vector.
pub(crate) fn copy_range(seg: &Vec<char>, from: usize, to: usize) -> (out: Vec<char>)
    requires
        from <= to <= seg.len(),
    ensures
        out@ == seg@.subrange(from as int, to as int),
{
    let mut out: Vec<char> = Vec::new();
    let mut i: usize = from;
    while i < to
        invariant
            from <= i <= to <= seg.len(),
            out@ == seg@.subrange(from as int, i as int),
        decreases to - i,
    {
        out.push(seg[i]);
        i = i + 1;
        assert(out@ =~= seg@.subrange(from as int, i as int));
    }
    out
}

/// Wraps one line-feed-free segment into display lines of at most `w`
/// characters each.
pub fn wrap_segment(seg: &Vec<char>, w: usize) -> (out: Vec<Vec<char>>)
    requires
        w >= 1,
    ensures
        out.deep_view() == chunks_of(seg@, w as nat),
{
    let mut out: Vec<Vec<char>> = Vec::new();
    let mut i: usize = 0;
    let n = seg.len();
    proof {
        assert(seg@.skip(0) =~= seg@);
        assert(out.deep_view() =~~= Seq::<Seq<char>>::empty());
        assert(Seq::<Seq<char>>::empty() + chunks_of(seg@, w as nat) =~= chunks_of(
            seg@,
            w as nat,
        ));
    }
    while n - i > w
        invariant
            i <= n == seg.len(),
            w >= 1,
            chunks_of(seg@, w as nat) == out.deep_view() + chunks_of(
                seg@.skip(i as int),
                w as nat,
            ),
        decreases n - i,
    {
        let ghost prev = out.deep_view();
        let ghost rest = seg@.skip(i as int);
        let chunk = copy_range(seg, i, i + w);
        out.push(chunk);
        i = i + w;
        proof {
            assert(chunk@ =~= rest.take(w as int));
            assert(rest.skip(w as int) =~= seg@.skip(i as int));
            assert(out.deep_view() =~~= prev.push(chunk@));
            assert(prev.push(chunk@) =~= prev + seq![rest.take(w as int)]);
            assert(chunks_of(rest, w as nat) == seq![rest.take(w as int)] + chunks_of(
                seg@.skip(i as int),
                w as nat,
            ));
        }
    }
    let ghost prev = out.deep_view();
    let ghost rest = seg@.skip(i as int);
    let chunk = copy_range(seg, i, n);
    out.push(chunk);
    proof {
        assert(chunk@ =~= rest);
        assert(chunks_of(rest, w as nat) == seq![rest]);
        assert(out.deep_view() =~~= prev.push(rest));
        assert(prev.push(rest) =~= prev + seq![rest]);
    }
    out
}

} // verus!
