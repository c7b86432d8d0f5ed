//! Paths as sequences of segments.
//!
//! A path is a string of bytes in which `/` separates segments. Empty
//! segments carry no meaning: `/note`, `/note/` and `//note` all name the one
//! segment `note`, and `/` names no segment at all.

use vstd::prelude::*;

verus! {

/// The byte that separates segments.
pub const SLASH: u8 = 47;

/// The byte that opens a parameter segment in a route pattern.
pub const COLON: u8 = 58;

/// The segments of `s`, in order: its maximal runs of bytes other than `/`.
///
/// Reading `s` up to its last byte gives the segments so far. A slash closes
/// the run before it; any other byte joins the run that the byte before it
/// belongs to, or opens a new one.
pub open spec fn segments(s: Seq<u8>) -> Seq<Seq<u8>>
    decreases s.len(),
{
    if s.len() == 0 {
        Seq::empty()
    } else if s.last() == SLASH {
        segments(s.drop_last())
    } else if s.len() >= 2 && s[s.len() - 2] != SLASH {
        let before = segments(s.drop_last());
        before.drop_last().push(before.last().push(s.last()))
    } else {
        segments(s.drop_last()).push(seq![s.last()])
    }
}

/// A segment as it can stand in a path: not empty, and without a slash.
pub open spec fn is_segment(seg: Seq<u8>) -> bool {
    seg.len() > 0 && forall|i: int| 0 <= i < seg.len() ==> seg[i] != SLASH
}

/// Every element of `segs` is a segment.
pub open spec fn all_segments(segs: Seq<Seq<u8>>) -> bool {
    forall|i: int| 0 <= i < segs.len() ==> is_segment(#[trigger] segs[i])
}

/// The segments held by a vector of byte vectors.
pub open spec fn segs_view(v: Seq<Vec<u8>>) -> Seq<Seq<u8>> {
    Seq::new(v.len(), |i: int| v[i]@)
}

/// The segments of a path end with a run that is still open exactly when the
/// path does not end with a slash.
pub proof fn lemma_segments_open_run(s: Seq<u8>)
    requires
        s.len() > 0,
        s.last() != SLASH,
    ensures
        segments(s).len() > 0,
        segments(s).last().len() > 0,
        segments(s).last().last() == s.last(),
{
}

/// What `segments` returns are segments.
pub proof fn lemma_segments_are_segments(s: Seq<u8>)
    ensures
        all_segments(segments(s)),
    decreases s.len(),
{
    if s.len() > 0 {
        lemma_segments_are_segments(s.drop_last());
        let before = segments(s.drop_last());
        if s.last() != SLASH && s.len() >= 2 && s[s.len() - 2] != SLASH {
            lemma_segments_open_run(s.drop_last());
            let grown = before.last().push(s.last());
            assert(is_segment(before.last()));
            assert(is_segment(grown));
            assert forall|i: int| 0 <= i < segments(s).len() implies is_segment(
                #[trigger] segments(s)[i],
            ) by {
                if i < before.len() - 1 {
                    assert(segments(s)[i] == before[i]);
                }
            }
        } else if s.last() != SLASH {
            assert(is_segment(seq![s.last()]));
            assert forall|i: int| 0 <= i < segments(s).len() implies is_segment(
                #[trigger] segments(s)[i],
            ) by {
                if i < before.len() {
                    assert(segments(s)[i] == before[i]);
                }
            }
        }
    }
}

/// Joining two paths joins their segments, as long as the seam falls between
/// two segments: one side is empty, the first ends with a slash, or the second
/// begins with one.
pub proof fn lemma_segments_concat(a: Seq<u8>, b: Seq<u8>)
    requires
        a.len() == 0 || b.len() == 0 || a.last() == SLASH || b[0] == SLASH,
    ensures
        segments(a + b) == segments(a) + segments(b),
    decreases b.len(),
{
    if b.len() == 0 {
        assert(a + b == a);
        assert(segments(a) + segments(b) == segments(a));
    } else if a.len() == 0 {
        assert(a + b == b);
        assert(segments(a) + segments(b) == segments(b));
    } else {
        let whole = a + b;
        let shorter = b.drop_last();
        assert(whole.drop_last() == a + shorter);
        assert(whole.last() == b.last());
        lemma_segments_concat(a, shorter);
        if b.last() == SLASH {
        } else if shorter.len() == 0 {
            assert(whole[whole.len() - 2] == a.last());
            assert(a + shorter == a);
            assert(segments(b) == seq![seq![b.last()]]);
            assert(segments(a).push(seq![b.last()]) == segments(a) + segments(b));
        } else {
            assert(whole[whole.len() - 2] == shorter.last());
            if shorter.last() != SLASH {
                lemma_segments_open_run(shorter);
                let before = segments(shorter);
                let joined = segments(a) + before;
                assert(joined.last() == before.last());
                assert(joined.drop_last() == segments(a) + before.drop_last());
                assert(joined.drop_last().push(joined.last().push(b.last()))
                    == segments(a) + before.drop_last().push(before.last().push(b.last())));
            } else {
                assert((segments(a) + segments(shorter)).push(seq![b.last()]) == segments(a)
                    + segments(shorter).push(seq![b.last()]));
            }
        }
    }
}

/// The root path `/` has no segment.
pub proof fn lemma_segments_of_root()
    ensures
        segments(seq![SLASH]) == Seq::<Seq<u8>>::empty(),
{
    reveal_with_fuel(segments, 2);
    assert(seq![SLASH].drop_last().len() == 0);
}

/// A slash followed by one segment is a path of that one segment.
pub proof fn lemma_segments_of_one(seg: Seq<u8>)
    requires
        is_segment(seg),
    ensures
        segments(seq![SLASH] + seg) == seq![seg],
    decreases seg.len(),
{
    let whole = seq![SLASH] + seg;
    let shorter = seg.drop_last();
    assert(whole.drop_last() == seq![SLASH] + shorter);
    assert(whole.last() == seg.last());
    if shorter.len() == 0 {
        assert(whole.drop_last() == seq![SLASH]);
        lemma_segments_of_root();
        assert(whole[whole.len() - 2] == SLASH);
        assert(seg == seq![seg.last()]);
        assert(Seq::<Seq<u8>>::empty().push(seg) == seq![seg]);
    } else {
        assert(is_segment(shorter));
        lemma_segments_of_one(shorter);
        assert(whole[whole.len() - 2] == shorter.last());
        assert(seq![shorter].drop_last().push(seq![shorter].last().push(seg.last())) == seq![
            shorter.push(seg.last()),
        ]);
        assert(shorter.push(seg.last()) == seg);
    }
}

/// The segments written one after the other, each behind a slash.
pub open spec fn join_segments(segs: Seq<Seq<u8>>) -> Seq<u8>
    decreases segs.len(),
{
    if segs.len() == 0 {
        Seq::empty()
    } else {
        join_segments(segs.drop_last()) + seq![SLASH] + segs.last()
    }
}

/// The path that names `segs`, in its shortest spelling: `/` for no segment,
/// and otherwise a slash before each segment and none at the end.
pub open spec fn render_path(segs: Seq<Seq<u8>>) -> Seq<u8> {
    if segs.len() == 0 {
        seq![SLASH]
    } else {
        join_segments(segs)
    }
}

/// Splitting what `join_segments` wrote gives the segments back.
pub proof fn lemma_join_then_split(segs: Seq<Seq<u8>>)
    requires
        all_segments(segs),
    ensures
        segments(join_segments(segs)) == segs,
    decreases segs.len(),
{
    if segs.len() > 0 {
        let front = segs.drop_last();
        assert(all_segments(front)) by {
            assert forall|i: int| 0 <= i < front.len() implies is_segment(#[trigger] front[i]) by {
                assert(front[i] == segs[i]);
            }
        }
        lemma_join_then_split(front);
        assert(is_segment(segs.last()));
        lemma_segments_of_one(segs.last());
        let tail = seq![SLASH] + segs.last();
        assert(join_segments(segs) == join_segments(front) + tail);
        lemma_segments_concat(join_segments(front), tail);
        assert(front + seq![segs.last()] == segs);
    }
}

/// Splitting a rendered path gives the segments back: a route's path, as it
/// is written out, names that route.
pub proof fn lemma_render_then_split(segs: Seq<Seq<u8>>)
    requires
        all_segments(segs),
    ensures
        segments(render_path(segs)) == segs,
{
    if segs.len() == 0 {
        lemma_segments_of_root();
    } else {
        lemma_join_then_split(segs);
    }
}

/// Whether two byte strings are the same.
pub fn bytes_eq(a: &[u8], b: &[u8]) -> (same: bool)
    ensures
        same == (a@ == b@),
{
    if a.len() != b.len() {
        return false;
    }
    let mut i: usize = 0;
    while i < a.len()
        invariant
            a@.len() == b@.len(),
            0 <= i <= a.len(),
            forall|k: int| 0 <= k < i ==> a@[k] == b@[k],
        decreases a.len() - i,
    {
        if a[i] != b[i] {
            return false;
        }
        i += 1;
    }
    assert(a@ =~= b@);
    true
}

/// A copy of a byte string.
pub fn copy_bytes(a: &[u8]) -> (copy: Vec<u8>)
    ensures
        copy@ == a@,
{
    let mut copy: Vec<u8> = Vec::new();
    let mut i: usize = 0;
    while i < a.len()
        invariant
            0 <= i <= a.len(),
            copy@ == a@.take(i as int),
        decreases a.len() - i,
    {
        copy.push(a[i]);
        assert(a@.take(i as int).push(a@[i as int]) == a@.take(i as int + 1));
        i += 1;
    }
    assert(a@.take(i as int) == a@);
    copy
}

/// Writes `segs` out as a path, in its shortest spelling.
pub fn render_segments(segs: &Vec<Vec<u8>>) -> (path: Vec<u8>)
    ensures
        path@ == render_path(segs_view(segs@)),
{
    let mut path: Vec<u8> = Vec::new();
    if segs.len() == 0 {
        path.push(SLASH);
        assert(path@ == seq![SLASH]);
        return path;
    }
    let mut i: usize = 0;
    while i < segs.len()
        invariant
            0 <= i <= segs.len(),
            path@ == join_segments(segs_view(segs@).take(i as int)),
        decreases segs.len() - i,
    {
        let ghost upto = segs_view(segs@).take(i as int + 1);
        assert(upto.drop_last() == segs_view(segs@).take(i as int));
        assert(upto.last() == segs@[i as int]@);
        path.push(SLASH);
        let seg = &segs[i];
        let ghost base = path@;
        let mut j: usize = 0;
        while j < seg.len()
            invariant
                0 <= j <= seg.len(),
                path@ == base + seg@.take(j as int),
            decreases seg.len() - j,
        {
            path.push(seg[j]);
            assert(seg@.take(j as int).push(seg@[j as int]) == seg@.take(j as int + 1));
            j += 1;
        }
        assert(seg@.take(j as int) == seg@);
        i += 1;
    }
    assert(segs_view(segs@).take(i as int) == segs_view(segs@));
    path
}

/// Splits a path into its segments.
pub fn split_segments(path: &[u8]) -> (segs: Vec<Vec<u8>>)
    ensures
        segs_view(segs@) == segments(path@),
{
    let mut segs: Vec<Vec<u8>> = Vec::new();
    let mut run: Vec<u8> = Vec::new();
    let mut i: usize = 0;
    while i < path.len()
        invariant
            0 <= i <= path.len(),
            run@.len() == 0 ==> segments(path@.take(i as int)) == segs_view(segs@),
            run@.len() > 0 ==> segments(path@.take(i as int)) == segs_view(segs@).push(run@),
            run@.len() > 0 <==> (i > 0 && path@[i - 1] != SLASH),
        decreases path.len() - i,
    {
        let b: u8 = path[i];
        proof {
            let upto = path@.take(i as int + 1);
            assert(upto.drop_last() == path@.take(i as int));
            assert(upto.last() == b);
            if i > 0 {
                assert(upto[upto.len() - 2] == path@[i - 1]);
            }
        }
        if b == SLASH {
            if run.len() > 0 {
                let ghost closed = segs_view(segs@).push(run@);
                segs.push(run);
                run = Vec::new();
                assert(segs_view(segs@) == closed);
            }
        } else {
            let ghost before = segments(path@.take(i as int));
            let ghost old_run = run@;
            run.push(b);
            proof {
                if old_run.len() > 0 {
                    assert(before.drop_last() == segs_view(segs@));
                    assert(before.last() == old_run);
                } else {
                    assert(run@ == seq![b]);
                }
            }
        }
        i += 1;
    }
    assert(path@.take(i as int) == path@);
    if run.len() > 0 {
        let ghost closed = segs_view(segs@).push(run@);
        segs.push(run);
        assert(segs_view(segs@) == closed);
    }
    segs
}

} // verus!
