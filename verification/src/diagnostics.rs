//! The diagnostic-lookup policy: out of the diagnostics overlapping the
//! cursor, pick the single most relevant one. Zero-width diagnostics are
//! discarded — they cannot anchor to a caret — and among the rest the minimum
//! by the pair (severity rank, range width) wins, earliest entry first on a
//! full tie, so the most severe and then most localized diagnostic is
//! surfaced rather than a broad one that merely contains the cursor.

use vstd::prelude::*;

verus! {

/// How grave a diagnostic is; listed from most to least severe, so the
/// earlier variant has the lower rank and wins the primary comparison.
#[derive(Clone, Copy, PartialEq, Eq, Structural, Debug)]
pub enum Severity {
    Error,
    Warning,
    Information,
    Hint,
}

impl Severity {
    /// The rank ordering severities: lower is more severe.
    pub open spec fn rank_spec(self) -> int {
        match self {
            Severity::Error => 0,
            Severity::Warning => 1,
            Severity::Information => 2,
            Severity::Hint => 3,
        }
    }

    /// The rank as a machine integer.
    pub fn rank(&self) -> (r: u8)
        ensures
            r as int == self.rank_spec(),
    {
        match self {
            Severity::Error => 0,
            Severity::Warning => 1,
            Severity::Information => 2,
            Severity::Hint => 3,
        }
    }
}

/// A severity-tagged message attached to a text range.
#[derive(Debug)]
pub struct Diagnostic {
    pub message: String,
    pub severity: Severity,
    /// Start of the range the diagnostic is attached to.
    pub start: usize,
    /// End of the range; a diagnostic with `start == end` is zero-width.
    pub end: usize,
}

impl Diagnostic {
    /// A diagnostic's range never runs backwards.
    pub open spec fn wf(self) -> bool {
        self.start <= self.end
    }

    /// Whether the caret can anchor to this diagnostic: its range is not
    /// zero-width.
    pub open spec fn anchorable(self) -> bool {
        self.start < self.end
    }

    /// Equality of what two diagnostics display: same message text, severity
    /// and range.
    pub open spec fn same_spec(self, other: Diagnostic) -> bool {
        &&& self.message@ == other.message@
        &&& self.severity == other.severity
        &&& self.start == other.start
        &&& self.end == other.end
    }

    /// Whether this diagnostic displays the same as `other`.
    pub fn same_as(&self, other: &Diagnostic) -> (r: bool)
        ensures
            r == self.same_spec(*other),
    {
        self.message == other.message && self.severity == other.severity && self.start
            == other.start && self.end == other.end
    }

    /// The selection key: severity first, then range width, both the smaller
    /// the better.
    pub open spec fn key_at_most(self, other: Diagnostic) -> bool {
        ||| self.severity.rank_spec() < other.severity.rank_spec()
        ||| (self.severity.rank_spec() == other.severity.rank_spec() && self.end - self.start
            <= other.end - other.start)
    }
}

impl Clone for Diagnostic {
    /// A clone displays the same as the original.
    fn clone(&self) -> (r: Self)
        ensures
            r == *self,
    {
        Diagnostic {
            message: self.message.clone(),
            severity: self.severity,
            start: self.start,
            end: self.end,
        }
    }
}

/// Whether index `i` is the one `pick` selects from `s`: an anchorable entry
/// whose key is minimal, and the earliest anchorable entry with that key.
pub open spec fn is_picked_index(s: Seq<Diagnostic>, i: int) -> bool {
    &&& 0 <= i < s.len()
    &&& s[i].anchorable()
    &&& forall|j: int| 0 <= j < s.len() && (#[trigger] s[j]).anchorable() ==> s[i].key_at_most(s[j])
    &&& forall|j: int| 0 <= j < i && (#[trigger] s[j]).anchorable() ==> !s[j].key_at_most(s[i])
}

/// No entry of `s` can anchor the caret.
pub open spec fn no_anchorable(s: Seq<Diagnostic>) -> bool {
    forall|j: int| 0 <= j < s.len() ==> !(#[trigger] s[j]).anchorable()
}

/// The selection policy is deterministic: at most one index of a given
/// sequence can be the picked one.
pub proof fn lemma_picked_index_unique(s: Seq<Diagnostic>, i: int, j: int)
    requires
        is_picked_index(s, i),
        is_picked_index(s, j),
    ensures
        i == j,
{
    if i < j {
        assert(!s[i].key_at_most(s[j]));
    } else if j < i {
        assert(!s[j].key_at_most(s[i]));
    }
}

/// Picks the diagnostic to surface for the caret out of the entries
/// overlapping it: discards zero-width entries, then takes the minimum by
/// (severity, width), earliest first on a tie. Returns its index, or `None`
/// when no entry is anchorable — in particular, a zero-width diagnostic is
/// never picked even when nothing else overlaps the caret.
pub fn pick(diagnostics: &Vec<Diagnostic>) -> (r: Option<usize>)
    requires
        forall|j: int| 0 <= j < diagnostics.len() ==> (#[trigger] diagnostics[j]).wf(),
    ensures
        match r {
            Some(i) => is_picked_index(diagnostics@, i as int),
            None => no_anchorable(diagnostics@),
        },
{
    let mut best: Option<usize> = None;
    let mut i: usize = 0;
    while i < diagnostics.len()
        invariant
            forall|j: int| 0 <= j < diagnostics.len() ==> (#[trigger] diagnostics[j]).wf(),
            i <= diagnostics.len(),
            match best {
                Some(b) => is_picked_index(diagnostics@.subrange(0, i as int), b as int),
                None => no_anchorable(diagnostics@.subrange(0, i as int)),
            },
        decreases diagnostics.len() - i,
    {
        let ghost prefix = diagnostics@.subrange(0, i as int);
        let ghost extended = diagnostics@.subrange(0, i + 1);
        proof {
            assert(extended.drop_last() =~= prefix);
            assert(extended.last() == diagnostics@[i as int]);
        }
        let d = &diagnostics[i];
        if d.start < d.end {
            let take = match best {
                Some(b) => {
                    let current = &diagnostics[b];
                    let d_rank: u8 = d.severity.rank();
                    let c_rank: u8 = current.severity.rank();
                    d_rank < c_rank || (d_rank == c_rank && d.end - d.start < current.end
                        - current.start)
                },
                None => true,
            };
            if take {
                best = Some(i);
            }
        }
        proof {
            assert forall|j: int| 0 <= j < extended.len() implies extended[j] == diagnostics@[j] by {}
            match best {
                Some(b) => {
                    assert(is_picked_index(extended, b as int));
                },
                None => {
                    assert(no_anchorable(extended));
                },
            }
        }
        i += 1;
    }
    proof {
        assert(diagnostics@.subrange(0, diagnostics@.len() as int) =~= diagnostics@);
    }
    best
}

/// Derived display state for the diagnostic under the cursor, updated on
/// every change notification from the active editing surface.
pub struct DiagnosticMessage {
    /// The diagnostic currently displayed, if any.
    pub diagnostic: Option<Diagnostic>,
}

/// What an update leaves on display: the picked entry, or nothing when no
/// entry is anchorable.
pub open spec fn displayed_after(s: Seq<Diagnostic>, after: Option<Diagnostic>) -> bool {
    match after {
        Some(d) => exists|i: int| is_picked_index(s, i) && d.same_spec(s[i]),
        None => no_anchorable(s),
    }
}

/// Whether two optional diagnostics display the same.
pub open spec fn same_display(a: Option<Diagnostic>, b: Option<Diagnostic>) -> bool {
    match (a, b) {
        (Some(x), Some(y)) => x.same_spec(y),
        (None, None) => true,
        _ => false,
    }
}

impl DiagnosticMessage {
    /// Starts with nothing displayed.
    pub fn new() -> (r: Self)
        ensures
            r.diagnostic is None,
    {
        DiagnosticMessage { diagnostic: None }
    }

    /// Recomputes the displayed diagnostic from the entries overlapping the
    /// cursor, as handed back by the diagnostics source. Returns whether the
    /// display changed; an update that picks what is already displayed is
    /// suppressed as a redundant notification.
    pub fn update(&mut self, diagnostics: &Vec<Diagnostic>) -> (notify: bool)
        requires
            forall|j: int| 0 <= j < diagnostics.len() ==> (#[trigger] diagnostics[j]).wf(),
        ensures
            displayed_after(diagnostics@, final(self).diagnostic),
            notify == !same_display(old(self).diagnostic, final(self).diagnostic),
    {
        let choice = pick(diagnostics);
        let picked: Option<Diagnostic> = match choice {
            Some(i) => Some(diagnostics[i].clone()),
            None => None,
        };
        let ghost picked_snapshot = picked;
        let changed = match (&self.diagnostic, &picked) {
            (Some(a), Some(b)) => !a.same_as(b),
            (None, None) => false,
            _ => true,
        };
        if changed {
            self.diagnostic = picked;
        }
        proof {
            if let Some(i) = choice {
                assert(is_picked_index(diagnostics@, i as int));
                assert(picked_snapshot == Some(diagnostics@[i as int]));
            }
            if !changed {
                match (old(self).diagnostic, picked_snapshot) {
                    (Some(a), Some(b)) => {
                        assert(a.same_spec(b));
                    },
                    _ => {},
                }
            }
        }
        changed
    }

    /// Clears the display, for when no editing surface is active.
    pub fn clear(&mut self)
        ensures
            final(self).diagnostic is None,
    {
        self.diagnostic = None;
    }
}

} // verus!
