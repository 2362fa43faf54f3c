use vstd::prelude::*;

use crate::types::Frame;

verus! {

/// Drops every keyframe whose cell repeats the cell of the keyframe just before it,
/// so that the first keyframe of each run of equal cells is the one that stays.
pub open spec fn dedup_cells(s: Seq<Frame>) -> Seq<Frame>
    decreases s.len(),
{
    if s.len() <= 1 {
        s
    } else if s.last().cell == s[s.len() - 2].cell {
        dedup_cells(s.drop_last())
    } else {
        dedup_cells(s.drop_last()).push(s.last())
    }
}

/// The compaction of a candidate keyframe list: empty stays empty; a list that does not
/// start at frame 0 gets a blank keyframe there; then repeated cells are dropped.
pub open spec fn compact(s: Seq<Frame>) -> Seq<Frame> {
    if s.len() == 0 {
        s
    } else if s[0].frame != 0 {
        dedup_cells(seq![Frame { frame: 0, cell: 0 }] + s)
    } else {
        dedup_cells(s)
    }
}

/// Frame positions strictly increase along the list.
pub open spec fn frames_increasing(s: Seq<Frame>) -> bool {
    forall|i: int, j: int| 0 <= i < j < s.len() ==> s[i].frame < s[j].frame
}

/// No two adjacent keyframes share a cell.
pub open spec fn no_adjacent_repeat(s: Seq<Frame>) -> bool {
    forall|i: int| 0 <= i < s.len() - 1 ==> #[trigger] s[i].cell != s[i + 1].cell
}

/// The shape that compaction leaves: empty, or starting at frame 0 with no repeated cell
/// between neighbours.
pub open spec fn is_compacted(s: Seq<Frame>) -> bool {
    &&& s.len() > 0 ==> s[0].frame == 0
    &&& no_adjacent_repeat(s)
}

/// Where the segment of keyframe `i` ends: at the next keyframe, but never past `n`.
pub open spec fn segment_end(s: Seq<Frame>, n: nat, i: int) -> int {
    if i + 1 < s.len() {
        if (s[i + 1].frame as int) < n {
            s[i + 1].frame as int
        } else {
            n as int
        }
    } else {
        n as int
    }
}

/// Keyframe `i` holds its cell over position `f`.
pub open spec fn covers(s: Seq<Frame>, n: nat, i: int, f: int) -> bool {
    s[i].frame <= f < segment_end(s, n, i)
}

/// The cell shown at position `f` once the first `k` keyframes have been laid down in
/// order: that of the last of them whose segment covers `f`, or blank.
pub open spec fn painted(s: Seq<Frame>, n: nat, k: int, f: int) -> u16
    decreases k,
{
    if k <= 0 {
        0
    } else if covers(s, n, k - 1, f) {
        s[k - 1].cell
    } else {
        painted(s, n, k - 1, f)
    }
}

/// The dense array of `n` cells that the keyframes `s` describe.
pub open spec fn expand(s: Seq<Frame>, n: nat) -> Seq<u16> {
    Seq::new(n, |f: int| painted(s, n, s.len() as int, f))
}

/// The keyframes of a dense array: one at position 0 and one wherever the cell changes.
pub open spec fn change_points(c: Seq<u16>) -> Seq<Frame>
    decreases c.len(),
{
    if c.len() == 0 {
        Seq::empty()
    } else if c.len() >= 2 && c.last() == c[c.len() - 2] {
        change_points(c.drop_last())
    } else {
        change_points(c.drop_last()).push(Frame { frame: (c.len() - 1) as u32, cell: c.last() })
    }
}

/// Compacts the candidate keyframes in place: a blank keyframe is put at frame 0 where
/// the list starts later, and each keyframe that repeats its predecessor's cell is removed.
pub fn optimize_frames(frames: &mut Vec<Frame>)
    ensures
        final(frames)@ == compact(old(frames)@),
{
    if frames.len() == 0 {
        return;
    }
    let ghost input = if frames@[0].frame != 0 {
        seq![Frame { frame: 0, cell: 0 }] + frames@
    } else {
        frames@
    };
    let mut kept: Vec<Frame> = Vec::new();
    let mut start: usize = 0;
    if frames[0].frame != 0 {
        kept.push(Frame { frame: 0, cell: 0 });
    } else {
        kept.push(frames[0]);
        start = 1;
    }
    proof {
        assert(input.take(1) =~= kept@);
        assert(dedup_cells(input.take(1)) == input.take(1));
    }
    let mut i: usize = start;
    while i < frames.len()
        invariant
            0 < i + 1 - start <= frames.len() + 1 - start,
            start == 0 <==> input.len() == frames.len() + 1,
            start == 1 <==> input.len() == frames.len(),
            start <= 1,
            forall|j: int| 0 <= j < frames.len() ==> input[j + 1 - start] == frames@[j],
            kept@ == dedup_cells(input.take(i + 1 - start)),
            kept@.len() > 0,
            kept@.last().cell == input[i - start].cell,
        decreases frames.len() - i,
    {
        let ghost p = input.take(i + 1 - start);
        let ghost q = input.take(i + 2 - start);
        assert(q.drop_last() =~= p);
        assert(q.last() == frames@[i as int]);
        let last = kept[kept.len() - 1];
        if frames[i].cell != last.cell {
            kept.push(frames[i]);
        }
        i = i + 1;
        assert(kept@.last().cell == input[i - start].cell);
    }
    assert(input.take(i + 1 - start) =~= input);
    *frames = kept;
}


/// Lays the keyframes out as one cell per frame: each keyframe's cell fills the frames from
/// its own position up to the next keyframe (or to `frame_count`), blank where none does.
pub fn expand_frames(frames: &[Frame], frame_count: usize) -> (cells: Vec<u16>)
    ensures
        cells@ == expand(frames@, frame_count as nat),
{
    let ghost n = frame_count as nat;
    let mut cells: Vec<u16> = Vec::new();
    let mut f: usize = 0;
    while f < frame_count
        invariant
            f <= frame_count,
            cells@.len() == f,
            forall|j: int| 0 <= j < f ==> cells@[j] == 0,
        decreases frame_count - f,
    {
        cells.push(0);
        f = f + 1;
    }
    let mut i: usize = 0;
    while i < frames.len()
        invariant
            i <= frames@.len(),
            n == frame_count as nat,
            cells@.len() == frame_count,
            forall|g: int| 0 <= g < frame_count ==> cells@[g] == painted(frames@, n, i as int, g),
        decreases frames.len() - i,
    {
        let start = frames[i].frame as usize;
        let next = if i + 1 < frames.len() {
            frames[i + 1].frame as usize
        } else {
            frame_count
        };
        let end = if next < frame_count {
            next
        } else {
            frame_count
        };
        assert(end as int == segment_end(frames@, n, i as int)) by {
            if i + 1 < frames.len() {
                assert(next as int == frames@[i + 1].frame as int);
                assert(i + 1 < frames@.len());
            } else {
                assert(!(i + 1 < frames@.len()));
            }
        }
        let cell = frames[i].cell;
        let mut j: usize = start;
        while j < end
            invariant
                start <= j,
                j <= end || j == start,
                end <= frame_count,
                n == frame_count as nat,
                cells@.len() == frame_count,
                forall|g: int|
                    0 <= g < frame_count ==> cells@[g] == if start <= g < j {
                        cell
                    } else {
                        painted(frames@, n, i as int, g)
                    },
            decreases end - j,
        {
            cells.set(j, cell);
            j = j + 1;
        }
        assert forall|g: int| 0 <= g < frame_count implies cells@[g] == painted(
            frames@,
            n,
            i + 1,
            g,
        ) by {
            assert(covers(frames@, n, i as int, g) <==> (start <= g < end));
        }
        i = i + 1;
    }
    assert(cells@ =~= expand(frames@, n));
    cells
}

proof fn lemma_dedup_shape(t: Seq<Frame>)
    ensures
        t.len() == 0 ==> dedup_cells(t).len() == 0,
        t.len() > 0 ==> dedup_cells(t).len() > 0 && dedup_cells(t)[0] == t[0]
            && dedup_cells(t).last().cell == t.last().cell,
        no_adjacent_repeat(dedup_cells(t)),
        frames_increasing(t) ==> frames_increasing(dedup_cells(t)),
        frames_increasing(t) && t.len() > 0 ==> dedup_cells(t).last().frame <= t.last().frame,
    decreases t.len(),
{
    if t.len() > 1 {
        let p = t.drop_last();
        lemma_dedup_shape(p);
        let d = dedup_cells(p);
        if frames_increasing(t) {
            assert(frames_increasing(p));
        }
        if t.last().cell != t[t.len() - 2].cell {
            let e = d.push(t.last());
            assert(e[0] == t[0]);
            assert forall|i: int| 0 <= i < e.len() - 1 implies #[trigger] e[i].cell != e[i + 1].cell by {
                if i < d.len() - 1 {
                    assert(e[i] == d[i] && e[i + 1] == d[i + 1]);
                }
            }
            if frames_increasing(t) {
                assert forall|i: int, j: int| 0 <= i < j < e.len() implies e[i].frame < e[j].frame by {
                    if j < d.len() {
                        assert(e[i] == d[i] && e[j] == d[j]);
                    } else {
                        assert(d[i].frame <= d.last().frame);
                    }
                }
            }
        }
    }
}

proof fn lemma_dedup_keeps_distinct(t: Seq<Frame>)
    requires
        no_adjacent_repeat(t),
    ensures
        dedup_cells(t) == t,
    decreases t.len(),
{
    if t.len() > 1 {
        let p = t.drop_last();
        assert(no_adjacent_repeat(p)) by {
            assert forall|i: int| 0 <= i < p.len() - 1 implies #[trigger] p[i].cell != p[i + 1].cell by {
                assert(t[i].cell != t[i + 1].cell);
            }
        }
        lemma_dedup_keeps_distinct(p);
        assert(t[t.len() - 2].cell != t[t.len() - 1].cell);
        assert(p.push(t.last()) =~= t);
    }
}

/// Every compacted list starts at frame 0 and has no two neighbouring keyframes with the
/// same cell; it keeps increasing frame positions increasing.
pub proof fn lemma_compact_shape(s: Seq<Frame>)
    ensures
        is_compacted(compact(s)),
        compact(s).len() > 0 ==> compact(s)[0].frame == 0,
        forall|i: int|
            0 <= i < compact(s).len() - 1 ==> #[trigger] compact(s)[i].cell != compact(s)[i + 1].cell,
        frames_increasing(s) ==> frames_increasing(compact(s)),
{
    if s.len() > 0 {
        if s[0].frame != 0 {
            let t = seq![Frame { frame: 0, cell: 0 }] + s;
            lemma_dedup_shape(t);
            if frames_increasing(s) {
                assert forall|i: int, j: int| 0 <= i < j < t.len() implies t[i].frame < t[j].frame by {
                    if i > 0 {
                        assert(t[i] == s[i - 1] && t[j] == s[j - 1]);
                    } else {
                        assert(t[j] == s[j - 1]);
                        if j > 1 {
                            assert(s[0].frame < s[j - 1].frame);
                        }
                    }
                }
            }
        } else {
            lemma_dedup_shape(s);
        }
    }
}

/// Compacting a list that is already compacted changes nothing, and so compacting twice
/// is the same as compacting once.
pub proof fn lemma_compact_idempotent(s: Seq<Frame>)
    ensures
        is_compacted(s) ==> compact(s) == s,
        compact(compact(s)) == compact(s),
{
    if is_compacted(s) && s.len() > 0 {
        lemma_dedup_keeps_distinct(s);
    }
    lemma_compact_shape(s);
    let c = compact(s);
    if c.len() > 0 {
        lemma_dedup_keeps_distinct(c);
    }
}


proof fn lemma_painted_without_last(s: Seq<Frame>, n: nat, k: int, f: int)
    requires
        s.len() >= 2,
        frames_increasing(s),
        s.last().frame < n,
        0 <= k <= s.len() - 1,
        0 <= f < s.last().frame,
    ensures
        painted(s, n, k, f) == painted(s.drop_last(), s.last().frame as nat, k, f),
    decreases k,
{
    let t = s.drop_last();
    let p = s.last().frame as nat;
    if k > 0 {
        lemma_painted_without_last(s, n, k - 1, f);
        if k < s.len() - 1 {
            assert(s[k].frame < s.last().frame);
        }
        assert(segment_end(s, n, k - 1) == segment_end(t, p, k - 1));
        assert(t[k - 1] == s[k - 1]);
        assert(covers(s, n, k - 1, f) == covers(t, p, k - 1, f));
    }
}

proof fn lemma_change_points_run(c: Seq<u16>, p: int, q: int, v: u16)
    requires
        0 <= p < q <= c.len(),
        p <= u32::MAX,
        forall|f: int| p <= f < q ==> c[f] == v,
        p > 0 ==> c[p - 1] != v,
    ensures
        change_points(c.take(q)) == change_points(c.take(p)).push(Frame { frame: p as u32, cell: v }),
    decreases q - p,
{
    let t = c.take(q);
    assert(t.drop_last() =~= c.take(q - 1));
    if q == p + 1 {
        if p > 0 {
            assert(t[t.len() - 2] == c[p - 1]);
        }
    } else {
        lemma_change_points_run(c, p, q - 1, v);
        assert(t[t.len() - 2] == c[q - 2]);
    }
}

proof fn lemma_change_points_of_expand(s: Seq<Frame>, n: nat)
    requires
        s.len() >= 1,
        is_compacted(s),
        frames_increasing(s),
        s.last().frame < n,
    ensures
        change_points(expand(s, n)) == s,
    decreases s.len(),
{
    let c = expand(s, n);
    let p = s.last().frame as int;
    let v = s.last().cell;
    assert forall|f: int| p <= f < n implies c[f] == v by {
        assert(covers(s, n, s.len() - 1, f));
    }
    if s.len() == 1 {
        lemma_change_points_run(c, 0, n as int, v);
        assert(c.take(n as int) =~= c);
        assert(change_points(c.take(0)) =~= Seq::<Frame>::empty());
        assert(s =~= seq![Frame { frame: 0, cell: v }]);
    } else {
        let t = s.drop_last();
        let l = t.len() as int;
        assert(t[l - 1] == s[l - 1]);
        assert(s[l - 1].frame < s.last().frame);
        assert(is_compacted(t)) by {
            assert(t[0] == s[0]);
            assert forall|i: int| 0 <= i < t.len() - 1 implies #[trigger] t[i].cell != t[i + 1].cell by {
                assert(s[i].cell != s[i + 1].cell);
            }
        }
        assert(frames_increasing(t)) by {
            assert forall|i: int, j: int| 0 <= i < j < t.len() implies t[i].frame < t[j].frame by {
                assert(s[i].frame < s[j].frame);
            }
        }
        lemma_change_points_of_expand(t, p as nat);
        assert forall|f: int| 0 <= f < p implies c[f] == expand(t, p as nat)[f] by {
            lemma_painted_without_last(s, n, s.len() - 1, f);
            assert(!covers(s, n, s.len() - 1, f));
        }
        assert(c.take(p) =~= expand(t, p as nat));
        assert(covers(t, p as nat, l - 1, p - 1));
        assert(expand(t, p as nat)[p - 1] == t[l - 1].cell);
        assert(s[l - 1].cell != s[l].cell);
        lemma_change_points_run(c, p, n as int, v);
        assert(c.take(n as int) =~= c);
        assert(s =~= t.push(Frame { frame: p as u32, cell: v }));
    }
}

/// Expanding a compacted list of increasing keyframes into a dense array (long enough to
/// reach past its last keyframe), re-deriving the keyframes where the cell changes, and
/// compacting gives back the very same list.
pub proof fn lemma_expand_compact_inverse(s: Seq<Frame>, n: nat)
    requires
        s.len() > 0,
        is_compacted(s),
        frames_increasing(s),
        s.last().frame < n,
    ensures
        compact(change_points(expand(s, n))) == s,
{
    lemma_change_points_of_expand(s, n);
    lemma_compact_idempotent(s);
}

} // verus!
