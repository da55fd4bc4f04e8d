//! Derived display state for the cursor position: on every change
//! notification from the active editing surface, the newest selection's head
//! is converted to a row/column position and the selected lengths are summed.

use vstd::prelude::*;

use crate::position::{BufferSnapshot, Point};

verus! {

/// A selected range of the buffer. Ids grow monotonically as selections are
/// made, so the largest id marks the newest selection.
#[derive(Clone, Copy, PartialEq, Eq, Structural, Debug)]
pub struct Selection {
    pub id: u64,
    pub start: usize,
    pub end: usize,
}

impl Selection {
    /// A selection never runs backwards.
    pub open spec fn wf(self) -> bool {
        self.start <= self.end
    }

    /// The caret end of the selection.
    pub fn head(&self) -> (r: usize)
        ensures
            r == self.end,
    {
        self.end
    }
}

/// The number of selected offset units over all selections.
pub open spec fn total_selected(s: Seq<Selection>) -> int
    decreases s.len(),
{
    if s.len() == 0 {
        0
    } else {
        total_selected(s.drop_last()) + (s.last().end - s.last().start)
    }
}

/// Selections of non-negative width sum to a non-negative total.
pub proof fn lemma_total_selected_nonneg(s: Seq<Selection>)
    requires
        forall|j: int| 0 <= j < s.len() ==> (#[trigger] s[j]).wf(),
    ensures
        total_selected(s) >= 0,
    decreases s.len(),
{
    if s.len() > 0 {
        assert(forall|j: int| 0 <= j < s.drop_last().len() ==> s.drop_last()[j] == s[j]);
        lemma_total_selected_nonneg(s.drop_last());
    }
}

/// A prefix never selects more than the whole: every term is non-negative.
pub proof fn lemma_total_selected_prefix(s: Seq<Selection>, i: int)
    requires
        forall|j: int| 0 <= j < s.len() ==> (#[trigger] s[j]).wf(),
        0 <= i <= s.len(),
    ensures
        total_selected(s.subrange(0, i)) <= total_selected(s),
        total_selected(s.subrange(0, i)) >= 0,
    decreases s.len() - i,
{
    assert(forall|j: int| 0 <= j < i ==> s.subrange(0, i)[j] == s[j]);
    lemma_total_selected_nonneg(s.subrange(0, i));
    if i == s.len() {
        assert(s.subrange(0, i) =~= s);
    } else {
        lemma_total_selected_prefix(s, i + 1);
        assert(s.subrange(0, i + 1).drop_last() =~= s.subrange(0, i));
        assert(s.subrange(0, i + 1).last() == s[i]);
    }
}

/// Whether index `i` holds the newest selection: the earliest entry carrying
/// the largest id.
pub open spec fn is_newest_index(s: Seq<Selection>, i: int) -> bool {
    &&& 0 <= i < s.len()
    &&& forall|j: int| 0 <= j < s.len() ==> (#[trigger] s[j]).id <= s[i].id
    &&& forall|j: int| 0 <= j < i ==> (#[trigger] s[j]).id < s[i].id
}

/// Derived display state for the cursor: the caret's row/column position and
/// how many offset units are selected.
pub struct CursorPosition {
    /// The newest selection's head, as a row/column position; `None` while no
    /// editing surface is active or it has no selection.
    pub position: Option<Point>,
    /// The summed width of all selections.
    pub selected_count: usize,
}

impl CursorPosition {
    /// Starts with nothing to display.
    pub fn new() -> (r: Self)
        ensures
            r.position is None,
            r.selected_count == 0,
    {
        CursorPosition { position: None, selected_count: 0 }
    }

    /// Recomputes the displayed state from the current selections and buffer
    /// snapshot: the selected widths are summed, and the head of the newest
    /// selection — the earliest one with the largest id — becomes the
    /// displayed position.
    pub fn update_position(&mut self, selections: &Vec<Selection>, snapshot: &BufferSnapshot)
        requires
            snapshot.wf(),
            forall|j: int|
                0 <= j < selections.len() ==> (#[trigger] selections[j]).wf()
                    && selections[j].end <= snapshot.len,
            total_selected(selections@) <= usize::MAX,
        ensures
            final(self).selected_count == total_selected(selections@),
            selections@.len() == 0 ==> final(self).position is None,
            selections@.len() > 0 ==> exists|i: int|
                is_newest_index(selections@, i) && final(self).position == Some(
                    snapshot.point_of(selections@[i].end),
                ),
    {
        let mut count: usize = 0;
        let mut newest: Option<usize> = None;
        let mut i: usize = 0;
        while i < selections.len()
            invariant
                snapshot.wf(),
                forall|j: int|
                    0 <= j < selections.len() ==> (#[trigger] selections[j]).wf()
                        && selections[j].end <= snapshot.len,
                total_selected(selections@) <= usize::MAX,
                i <= selections.len(),
                count == total_selected(selections@.subrange(0, i as int)),
                match newest {
                    Some(b) => is_newest_index(selections@.subrange(0, i as int), b as int),
                    None => i == 0,
                },
            decreases selections.len() - i,
        {
            let ghost prefix = selections@.subrange(0, i as int);
            let ghost extended = selections@.subrange(0, i + 1);
            proof {
                assert(extended.drop_last() =~= prefix);
                assert(extended.last() == selections@[i as int]);
                assert forall|j: int| 0 <= j < extended.len() implies extended[j]
                    == selections@[j] by {}
                lemma_total_selected_prefix(selections@, i + 1);
            }
            let sel = selections[i];
            count = count + (sel.end - sel.start);
            let take = match newest {
                Some(b) => sel.id > selections[b].id,
                None => true,
            };
            if take {
                newest = Some(i);
            }
            proof {
                match newest {
                    Some(b) => {
                        assert(is_newest_index(extended, b as int));
                    },
                    None => {},
                }
            }
            i += 1;
        }
        proof {
            assert(selections@.subrange(0, selections@.len() as int) =~= selections@);
        }
        self.selected_count = count;
        self.position = match newest {
            Some(b) => Some(snapshot.to_point(selections[b].head())),
            None => None,
        };
    }

    /// Clears the displayed position, for when no editing surface is active.
    pub fn clear(&mut self)
        ensures
            final(self).position is None,
            final(self).selected_count == old(self).selected_count,
    {
        self.position = None;
    }
}

} // verus!
