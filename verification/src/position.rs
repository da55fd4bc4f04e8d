//! Stable-position navigation: a recorded marker is re-resolved against the
//! current state of the buffer. While the marker's anchor is still tracked by
//! the buffer's edit history the anchor's position is returned exactly;
//! otherwise the raw fallback offset is clipped into the valid offset range,
//! biased toward the earlier boundary, so resolution never fails and never
//! yields an out-of-range position.

use vstd::prelude::*;

verus! {

/// Direction in which an offset that falls between two indivisible text units
/// is pushed when clipping it to a valid boundary.
#[derive(Clone, Copy, PartialEq, Eq, Structural, Debug)]
pub enum Bias {
    Left,
    Right,
}

/// A row/column position in a buffer; both are zero-based.
#[derive(Clone, Copy, PartialEq, Eq, Structural, Debug)]
pub struct Point {
    pub row: usize,
    pub column: usize,
}

/// An edit-history-relative position marker. It stays meaningful as long as
/// the buffer it was created against is still reachable from the current
/// buffer state; the snapshot decides whether that is so.
#[derive(Clone, Copy, PartialEq, Eq, Structural, Debug)]
pub struct Anchor {
    pub id: u64,
}

/// A stored navigation entry: an anchor that tracks edits, and the raw offset
/// recorded at creation time to fall back on once the anchor can no longer be
/// resolved.
#[derive(Clone, Copy, PartialEq, Eq, Structural, Debug)]
pub struct NavigationMarker {
    pub anchor: Anchor,
    pub offset: usize,
}

/// One anchor the snapshot can still resolve, with the position the anchor
/// currently maps to.
#[derive(Clone, Copy, PartialEq, Eq, Structural, Debug)]
pub struct AnchorEntry {
    pub id: u64,
    pub offset: usize,
}

/// True when `s` is strictly increasing.
pub open spec fn strictly_sorted(s: Seq<usize>) -> bool {
    forall|i: int, j: int| 0 <= i < j < s.len() ==> s[i] < s[j]
}

proof fn lemma_sorted_span(s: Seq<usize>, i: int, j: int)
    requires
        forall|k: int| 0 < k < s.len() ==> s[k - 1] < #[trigger] s[k],
        0 <= i < j < s.len(),
    ensures
        s[i] < s[j],
    decreases j - i,
{
    if i + 1 < j {
        lemma_sorted_span(s, i, j - 1);
    }
}

/// A sequence each of whose elements exceeds its predecessor is strictly
/// increasing throughout.
proof fn lemma_adjacent_implies_sorted(s: Seq<usize>)
    requires
        forall|k: int| 0 < k < s.len() ==> s[k - 1] < #[trigger] s[k],
    ensures
        strictly_sorted(s),
{
    assert forall|i: int, j: int| 0 <= i < j < s.len() implies s[i] < s[j] by {
        lemma_sorted_span(s, i, j);
    }
}

/// Checks that `s` is strictly increasing.
fn check_strictly_sorted(s: &Vec<usize>) -> (r: bool)
    ensures
        r == strictly_sorted(s@),
{
    let mut i: usize = 1;
    while i < s.len()
        invariant
            1 <= i,
            i <= s.len() || s.len() == 0,
            forall|k: int| 0 < k < i && k < s.len() ==> s[k - 1] < #[trigger] s[k],
        decreases s.len() - i,
    {
        if s[i - 1] >= s[i] {
            return false;
        }
        i += 1;
    }
    proof {
        lemma_adjacent_implies_sorted(s@);
    }
    true
}

/// The largest element of `s` that is at most `target`, for a strictly sorted
/// `s` that starts with 0.
pub open spec fn floor_in(s: Seq<usize>, target: usize) -> usize
    decreases s.len(),
{
    if s.len() == 0 {
        0
    } else if s.last() <= target {
        s.last()
    } else {
        floor_in(s.drop_last(), target)
    }
}

/// The smallest element of `s` that is at least `target`, for a strictly
/// sorted `s` whose last element is at least `target`.
pub open spec fn ceil_in(s: Seq<usize>, target: usize) -> usize
    decreases s.len(),
{
    if s.len() == 0 {
        0
    } else if s[0] >= target {
        s[0]
    } else {
        ceil_in(s.subrange(1, s.len() as int), target)
    }
}

pub proof fn lemma_floor_in(s: Seq<usize>, target: usize)
    requires
        s.len() >= 1,
        s[0] == 0,
        strictly_sorted(s),
    ensures
        s.contains(floor_in(s, target)),
        floor_in(s, target) <= target,
        forall|i: int| 0 <= i < s.len() && s[i] <= target ==> s[i] <= floor_in(s, target),
    decreases s.len(),
{
    if s.last() <= target {
        assert(forall|i: int| 0 <= i < s.len() ==> #[trigger] s[i] <= s[s.len() - 1]);
    } else {
        assert(s.len() >= 2);
        let prefix = s.drop_last();
        lemma_floor_in(prefix, target);
        let r = floor_in(prefix, target);
        let k = choose|k: int| 0 <= k < prefix.len() && prefix[k] == r;
        assert(s[k] == r);
        assert forall|i: int| 0 <= i < s.len() && #[trigger] s[i] <= target implies s[i]
            <= floor_in(s, target) by {
            if i < s.len() - 1 {
                assert(prefix[i] == s[i]);
                assert(prefix[i] <= r);
            }
        }
    }
}

pub proof fn lemma_ceil_in(s: Seq<usize>, target: usize)
    requires
        s.len() >= 1,
        strictly_sorted(s),
        s.last() >= target,
    ensures
        s.contains(ceil_in(s, target)),
        ceil_in(s, target) >= target,
        forall|i: int| 0 <= i < s.len() && s[i] >= target ==> s[i] >= ceil_in(s, target),
    decreases s.len(),
{
    if s[0] >= target {
        assert(forall|i: int| 0 < i < s.len() ==> s[0] < #[trigger] s[i]);
    } else {
        assert(s.len() >= 2);
        let rest = s.subrange(1, s.len() as int);
        assert(rest.last() == s.last());
        lemma_ceil_in(rest, target);
        let r = ceil_in(rest, target);
        let k = choose|k: int| 0 <= k < rest.len() && rest[k] == r;
        assert(s[k + 1] == r);
        assert(forall|i: int| 0 <= i < s.len() && #[trigger] s[i] >= target ==> {
            &&& i >= 1
            &&& rest[i - 1] == s[i]
        });
    }
}

/// The index of the line containing `offset`: the last entry of `s` that is
/// at most `offset`, for a strictly sorted `s` that starts with 0.
pub open spec fn row_in(s: Seq<usize>, offset: usize) -> int
    decreases s.len(),
{
    if s.len() <= 1 {
        0
    } else if s.last() <= offset {
        s.len() - 1
    } else {
        row_in(s.drop_last(), offset)
    }
}

pub proof fn lemma_row_in(s: Seq<usize>, offset: usize)
    requires
        s.len() >= 1,
        s[0] == 0,
        strictly_sorted(s),
    ensures
        0 <= row_in(s, offset) < s.len(),
        s[row_in(s, offset)] <= offset,
        row_in(s, offset) + 1 < s.len() ==> offset < s[row_in(s, offset) + 1],
    decreases s.len(),
{
    if s.len() <= 1 {
    } else if s.last() <= offset {
    } else {
        lemma_row_in(s.drop_last(), offset);
    }
}

/// An immutable observation of a buffer: its length, the offsets a position
/// may be clipped to, the offsets at which its lines begin, and the anchors
/// whose edit-history lineage is still reachable from this state, each with
/// the position it resolves to.
pub struct BufferSnapshot {
    /// Total length, in offset units.
    pub len: usize,
    /// The valid clip targets, strictly increasing from 0 to `len`. An offset
    /// strictly between two neighbouring entries splits an indivisible text
    /// unit and must be pushed to one of them.
    pub boundaries: Vec<usize>,
    /// The offsets at which lines begin; the first line begins at 0.
    pub line_starts: Vec<usize>,
    /// The anchors this snapshot can still resolve; ids are distinct.
    pub anchors: Vec<AnchorEntry>,
}

impl BufferSnapshot {
    /// Well-formedness of a snapshot.
    pub open spec fn wf(self) -> bool {
        &&& self.boundaries.len() >= 1
        &&& self.boundaries[0] == 0
        &&& self.boundaries[self.boundaries.len() - 1] == self.len
        &&& strictly_sorted(self.boundaries@)
        &&& self.line_starts.len() >= 1
        &&& self.line_starts[0] == 0
        &&& strictly_sorted(self.line_starts@)
        &&& forall|i: int| 0 <= i < self.line_starts.len() ==> self.line_starts[i] <= self.len
        &&& forall|i: int| 0 <= i < self.anchors.len() ==> self.anchors[i].offset <= self.len
        &&& forall|i: int, j: int|
            0 <= i < j < self.anchors.len() ==> self.anchors[i].id != self.anchors[j].id
    }

    /// The offset actually clipped: a raw offset beyond the end is first
    /// clamped to the length.
    pub open spec fn clip_target(self, offset: usize) -> usize {
        if offset <= self.len {
            offset
        } else {
            self.len
        }
    }

    /// Where `offset` clips to under a left bias: the last valid boundary at
    /// or before it.
    pub open spec fn left_clip(self, offset: usize) -> usize {
        floor_in(self.boundaries@, self.clip_target(offset))
    }

    /// Where `offset` clips to under a right bias: the first valid boundary
    /// at or after it (never past the end, since the raw offset is clamped to
    /// the length first).
    pub open spec fn right_clip(self, offset: usize) -> usize {
        ceil_in(self.boundaries@, self.clip_target(offset))
    }

    /// Whether this snapshot can still resolve `anchor`.
    pub open spec fn can_resolve_spec(self, anchor: Anchor) -> bool {
        exists|i: int| 0 <= i < self.anchors.len() && self.anchors[i].id == anchor.id
    }

    /// The position `anchor` resolves to in this snapshot.
    pub open spec fn anchor_offset(self, anchor: Anchor) -> usize {
        let i = choose|i: int| 0 <= i < self.anchors.len() && self.anchors[i].id == anchor.id;
        self.anchors[i].offset
    }

    /// The row/column position of a valid `offset`.
    pub open spec fn point_of(self, offset: usize) -> Point {
        let row = row_in(self.line_starts@, offset);
        Point { row: row as usize, column: (offset - self.line_starts[row]) as usize }
    }

    /// Checks well-formedness of a snapshot assembled by unverified code, so
    /// a caller can establish it before handing the snapshot to the functions
    /// that rely on it.
    pub fn is_well_formed(&self) -> (r: bool)
        ensures
            r == self.wf(),
    {
        if self.boundaries.len() == 0 || self.boundaries[0] != 0 {
            return false;
        }
        if self.boundaries[self.boundaries.len() - 1] != self.len {
            return false;
        }
        if !check_strictly_sorted(&self.boundaries) {
            return false;
        }
        if self.line_starts.len() == 0 || self.line_starts[0] != 0 {
            return false;
        }
        if !check_strictly_sorted(&self.line_starts) {
            return false;
        }
        let mut i: usize = 0;
        while i < self.line_starts.len()
            invariant
                i <= self.line_starts.len(),
                forall|j: int| 0 <= j < i ==> self.line_starts[j] <= self.len,
            decreases self.line_starts.len() - i,
        {
            if self.line_starts[i] > self.len {
                return false;
            }
            i += 1;
        }
        let mut a: usize = 0;
        while a < self.anchors.len()
            invariant
                a <= self.anchors.len(),
                forall|j: int| 0 <= j < a ==> self.anchors[j].offset <= self.len,
                forall|j: int, k: int|
                    0 <= j < k < self.anchors.len() && j < a ==> self.anchors[j].id
                        != self.anchors[k].id,
            decreases self.anchors.len() - a,
        {
            if self.anchors[a].offset > self.len {
                return false;
            }
            let mut b: usize = a + 1;
            while b < self.anchors.len()
                invariant
                    a < b || a + 1 == b,
                    a < self.anchors.len(),
                    a + 1 <= b <= self.anchors.len(),
                    forall|k: int| a < k < b ==> self.anchors[a as int].id != self.anchors[k].id,
                decreases self.anchors.len() - b,
            {
                if self.anchors[a].id == self.anchors[b].id {
                    return false;
                }
                b += 1;
            }
            a += 1;
        }
        true
    }

    /// Whether this snapshot can still resolve `anchor`: whether the anchor's
    /// originating edit-history lineage is reachable from this state.
    pub fn can_resolve(&self, anchor: &Anchor) -> (r: bool)
        ensures
            r == self.can_resolve_spec(*anchor),
    {
        let mut i: usize = 0;
        while i < self.anchors.len()
            invariant
                i <= self.anchors.len(),
                forall|j: int| 0 <= j < i ==> self.anchors[j].id != anchor.id,
            decreases self.anchors.len() - i,
        {
            if self.anchors[i].id == anchor.id {
                return true;
            }
            i += 1;
        }
        false
    }

    /// Clips `offset` to a valid boundary of this snapshot, in the direction
    /// given by `bias`. The result is always within `0..=len`.
    pub fn clip_offset(&self, offset: usize, bias: Bias) -> (r: usize)
        requires
            self.wf(),
        ensures
            r <= self.len,
            self.boundaries@.contains(r),
            bias is Left ==> r == self.left_clip(offset),
            bias is Right ==> r == self.right_clip(offset),
    {
        let target: usize = if offset <= self.len {
            offset
        } else {
            self.len
        };
        match bias {
            Bias::Left => {
                let mut best: usize = self.boundaries[0];
                let mut i: usize = 1;
                while i < self.boundaries.len()
                    invariant
                        self.wf(),
                        target == self.clip_target(offset),
                        1 <= i <= self.boundaries.len(),
                        self.boundaries@.contains(best),
                        best <= target,
                        forall|j: int|
                            0 <= j < i && self.boundaries[j] <= target ==> self.boundaries[j]
                                <= best,
                    decreases self.boundaries.len() - i,
                {
                    let b: usize = self.boundaries[i];
                    if b <= target {
                        best = b;
                        proof {
                            assert(self.boundaries[i as int] == b);
                        }
                    }
                    i += 1;
                }
                proof {
                    lemma_floor_in(self.boundaries@, target);
                    let f = floor_in(self.boundaries@, target);
                    let bi = choose|k: int|
                        0 <= k < self.boundaries.len() && self.boundaries[k] == best;
                    let fi = choose|k: int|
                        0 <= k < self.boundaries.len() && self.boundaries[k] == f;
                    assert(self.boundaries[bi] <= f);
                    assert(self.boundaries[fi] <= best);
                }
                best
            }
            Bias::Right => {
                let mut i: usize = 0;
                while self.boundaries[i] < target
                    invariant
                        self.wf(),
                        target == self.clip_target(offset),
                        0 <= i < self.boundaries.len(),
                        forall|j: int| 0 <= j < i ==> self.boundaries[j] < target,
                    decreases self.boundaries.len() - i,
                {
                    proof {
                        if i + 1 == self.boundaries.len() {
                            assert(self.boundaries[i as int] == self.len);
                            assert(target <= self.len);
                        }
                    }
                    i += 1;
                }
                let r = self.boundaries[i];
                proof {
                    assert(self.boundaries@.last() >= target) by {
                        assert(self.boundaries[self.boundaries.len() - 1] == self.len);
                    }
                    lemma_ceil_in(self.boundaries@, target);
                    let c = ceil_in(self.boundaries@, target);
                    let ci = choose|k: int|
                        0 <= k < self.boundaries.len() && self.boundaries[k] == c;
                    // The loop stopped at the first boundary at or past the
                    // target, so no earlier boundary reaches it.
                    assert(self.boundaries[ci] >= r) by {
                        if ci < i {
                            assert(self.boundaries[ci] < target);
                        } else if ci > i {
                            assert(self.boundaries[i as int] < self.boundaries[ci]);
                        }
                    }
                    assert(self.boundaries[i as int] >= c);
                    assert(r <= self.len) by {
                        if i < self.boundaries.len() - 1 {
                            let last = self.boundaries.len() - 1;
                            assert(self.boundaries[i as int] < self.boundaries[last]);
                        }
                    }
                }
                r
            }
        }
    }

    /// The row/column position of `offset`: the line holding it and the
    /// distance from that line's start.
    pub fn to_point(&self, offset: usize) -> (p: Point)
        requires
            self.wf(),
            offset <= self.len,
        ensures
            p == self.point_of(offset),
            p.row < self.line_starts.len(),
            self.line_starts[p.row as int] <= offset,
            p.column == offset - self.line_starts[p.row as int],
    {
        proof {
            lemma_row_in(self.line_starts@, offset);
        }
        let mut row: usize = 0;
        let mut i: usize = 1;
        while i < self.line_starts.len()
            invariant
                self.wf(),
                offset <= self.len,
                (row as int) < i,
                i <= self.line_starts.len(),
                self.line_starts[row as int] <= offset,
                forall|j: int| 0 <= j < i && self.line_starts[j] <= offset ==> j <= row,
            decreases self.line_starts.len() - i,
        {
            if self.line_starts[i] <= offset {
                row = i;
            }
            i += 1;
        }
        proof {
            let sr = row_in(self.line_starts@, offset);
            assert(sr <= row);
            assert(row as int <= sr) by {
                if sr + 1 < self.line_starts.len() && sr < row {
                    assert(self.line_starts[sr + 1] <= self.line_starts[row as int]);
                }
            }
        }
        let column: usize = offset - self.line_starts[row];
        Point { row, column }
    }
}

impl Anchor {
    /// The position this anchor resolves to in `snapshot`.
    pub fn to_offset(&self, snapshot: &BufferSnapshot) -> (r: usize)
        requires
            snapshot.wf(),
            snapshot.can_resolve_spec(*self),
        ensures
            r == snapshot.anchor_offset(*self),
            r <= snapshot.len,
    {
        let mut i: usize = 0;
        while i < snapshot.anchors.len()
            invariant
                snapshot.wf(),
                snapshot.can_resolve_spec(*self),
                i <= snapshot.anchors.len(),
                forall|j: int| 0 <= j < i ==> snapshot.anchors[j].id != self.id,
            decreases snapshot.anchors.len() - i,
        {
            if snapshot.anchors[i].id == self.id {
                proof {
                    let ci = choose|k: int|
                        0 <= k < snapshot.anchors.len() && snapshot.anchors[k].id == self.id;
                    if ci != i as int {
                        assert(snapshot.anchors[ci].id != snapshot.anchors[i as int].id);
                    }
                }
                return snapshot.anchors[i].offset;
            }
            i += 1;
        }
        proof {
            assert(!snapshot.can_resolve_spec(*self));
        }
        0
    }
}

impl NavigationMarker {
    /// What resolution yields: the anchor's tracked position while the anchor
    /// is still resolvable, the left-clipped fallback offset afterwards.
    pub open spec fn resolve_spec(self, snapshot: BufferSnapshot) -> usize {
        if snapshot.can_resolve_spec(self.anchor) {
            snapshot.anchor_offset(self.anchor)
        } else {
            snapshot.left_clip(self.offset)
        }
    }

    /// Whether this marker is still fresh against `snapshot`: its anchor's
    /// lineage is reachable, so no fallback is needed.
    pub open spec fn is_fresh(self, snapshot: BufferSnapshot) -> bool {
        snapshot.can_resolve_spec(self.anchor)
    }

    /// Re-resolves this marker against the current buffer state. Never fails
    /// and never returns an out-of-range position, however stale the marker.
    pub fn resolve(&self, snapshot: &BufferSnapshot) -> (r: usize)
        requires
            snapshot.wf(),
        ensures
            r == self.resolve_spec(*snapshot),
            r <= snapshot.len,
    {
        if snapshot.can_resolve(&self.anchor) {
            self.anchor.to_offset(snapshot)
        } else {
            snapshot.clip_offset(self.offset, Bias::Left)
        }
    }
}

/// For any two markers sharing a resolvable anchor, resolution returns the
/// anchor's tracked position exactly, whatever their fallback offsets hold.
pub proof fn lemma_resolve_ignores_fallback(
    m1: NavigationMarker,
    m2: NavigationMarker,
    snapshot: BufferSnapshot,
)
    requires
        snapshot.wf(),
        m1.anchor == m2.anchor,
        snapshot.can_resolve_spec(m1.anchor),
    ensures
        m1.resolve_spec(snapshot) == m2.resolve_spec(snapshot),
        m1.resolve_spec(snapshot) == snapshot.anchor_offset(m1.anchor),
{
}

/// A marker whose anchor is no longer resolvable degrades to the clipped
/// fallback offset: within `0..=len`, on a valid boundary, and left-biased —
/// the last boundary at or before the (clamped) raw offset, so an offset that
/// lands inside an indivisible unit is pushed to the earlier side.
pub proof fn lemma_resolve_stale_clips(m: NavigationMarker, snapshot: BufferSnapshot)
    requires
        snapshot.wf(),
        !snapshot.can_resolve_spec(m.anchor),
    ensures
        m.resolve_spec(snapshot) <= snapshot.len,
        snapshot.boundaries@.contains(m.resolve_spec(snapshot)),
        m.resolve_spec(snapshot) <= snapshot.clip_target(m.offset),
        forall|i: int|
            0 <= i < snapshot.boundaries.len() && snapshot.boundaries[i] <= snapshot.clip_target(
                m.offset,
            ) ==> snapshot.boundaries[i] <= m.resolve_spec(snapshot),
{
    lemma_floor_in(snapshot.boundaries@, snapshot.clip_target(m.offset));
    let r = m.resolve_spec(snapshot);
    let k = choose|k: int|
        0 <= k < snapshot.boundaries.len() && snapshot.boundaries[k] == r;
    if k < snapshot.boundaries.len() - 1 {
        assert(snapshot.boundaries[k] < snapshot.boundaries[snapshot.boundaries.len() - 1]);
    }
}

} // verus!
