//! The save coordinator: format, merge, persist. A formatting pass is
//! requested over every underlying document; its failure is absorbed and the
//! save proceeds unformatted. A successful formatting pass on a composite
//! buffer is merged into the buffer's history by pushing the transaction
//! without re-executing it; a singleton needs no merge, because the service
//! already applied the edits to the one document whose history is canonical.
//! Persistence runs strictly after the merge step and is the only failure
//! escalated to the caller. The functions here take the outcomes of the
//! external formatting and persistence requests as plain values; the caller
//! performs the requests between the steps and re-reads buffer state after
//! each suspension.

use vstd::prelude::*;

use crate::buffer::{any_conflict, any_dirty, Document, MultiBuffer};

verus! {

/// The failures a save path can surface.
#[derive(Clone, Copy, PartialEq, Eq, Structural, Debug)]
pub enum SaveError {
    /// Writing to durable storage failed: the terminal failure of a save,
    /// returned to the caller.
    PersistFailed,
    /// Save-as was invoked on a composite buffer: a programming-contract
    /// violation, signalled before any I/O, never silently tolerated.
    NotSingleton,
}

/// The transaction log after the merge step: a successful formatting pass on
/// a composite buffer pushes its transaction; a singleton buffer, or a failed
/// pass, leaves the log as it was.
pub open spec fn merged_log(b: MultiBuffer, formatted: Option<u64>) -> Seq<u64> {
    match formatted {
        Some(t) => if b.singleton {
            b.transaction_log@
        } else {
            b.transaction_log@.push(t)
        },
        None => b.transaction_log@,
    }
}

/// `d` with its unsaved-edit state cleared by a successful write.
pub open spec fn persisted_document(d: Document) -> Document {
    Document { id: d.id, path: d.path, dirty: false, conflict: false }
}

/// The documents after the persistence step: a successful write clears every
/// dirty and conflict flag; a failed one leaves them untouched.
pub open spec fn persisted_documents(docs: Seq<Document>, persist_ok: bool) -> Seq<Document> {
    if persist_ok {
        docs.map(|i: int, d: Document| persisted_document(d))
    } else {
        docs
    }
}

/// What a save returns: only the persistence outcome decides it.
pub open spec fn save_result(persist_ok: bool) -> Result<(), SaveError> {
    if persist_ok {
        Ok(())
    } else {
        Err(SaveError::PersistFailed)
    }
}

/// Merges the outcome of the formatting pass into the buffer's history.
/// `formatted` is `Some` with the formatting transaction when the external
/// pass succeeded and produced edits, `None` when it failed or was cancelled;
/// failure is absorbed here, never escalated. On a composite buffer the
/// transaction is pushed without re-execution; on a singleton the history is
/// already canonical and the log does not grow.
pub fn merge_format_transaction(buffer: &mut MultiBuffer, formatted: Option<u64>)
    ensures
        final(buffer).transaction_log@ == merged_log(*old(buffer), formatted),
        final(buffer).documents == old(buffer).documents,
        final(buffer).singleton == old(buffer).singleton,
{
    if let Some(transaction) = formatted {
        if !buffer.is_singleton() {
            buffer.push_transaction(transaction);
        }
    }
}

/// Applies the outcome of the persistence request: a successful write clears
/// every document's dirty and conflict flags and the save returns `Ok`; a
/// failed write changes nothing and surfaces the terminal error.
pub fn apply_persist_outcome(buffer: &mut MultiBuffer, persist_ok: bool) -> (r: Result<
    (),
    SaveError,
>)
    ensures
        final(buffer).documents@ == persisted_documents(old(buffer).documents@, persist_ok),
        final(buffer).transaction_log == old(buffer).transaction_log,
        final(buffer).singleton == old(buffer).singleton,
        r == save_result(persist_ok),
        persist_ok ==> !any_dirty(final(buffer).documents@) && !any_conflict(
            final(buffer).documents@,
        ),
{
    if !persist_ok {
        return Err(SaveError::PersistFailed);
    }
    let ghost orig = buffer.documents@;
    let mut i: usize = 0;
    while i < buffer.documents.len()
        invariant
            i <= buffer.documents.len(),
            buffer.documents@.len() == orig.len(),
            forall|j: int| 0 <= j < i ==> buffer.documents@[j] == persisted_document(orig[j]),
            forall|j: int| i <= j < orig.len() ==> buffer.documents@[j] == orig[j],
            buffer.transaction_log == old(buffer).transaction_log,
            buffer.singleton == old(buffer).singleton,
        decreases buffer.documents.len() - i,
    {
        let d = buffer.documents[i];
        buffer.documents.set(
            i,
            Document { id: d.id, path: d.path, dirty: false, conflict: false },
        );
        i += 1;
    }
    proof {
        assert(buffer.documents@ =~= persisted_documents(orig, true));
    }
    Ok(())
}

/// The whole save protocol on one buffer, after the external requests have
/// come back: merge the formatting outcome into the history, then apply the
/// persistence outcome. The merge always completes before persistence is
/// observed — the log is merged even when the write fails — and a failed
/// formatting pass never blocks the save.
pub fn save(buffer: &mut MultiBuffer, formatted: Option<u64>, persist_ok: bool) -> (r: Result<
    (),
    SaveError,
>)
    ensures
        final(buffer).transaction_log@ == merged_log(*old(buffer), formatted),
        final(buffer).documents@ == persisted_documents(old(buffer).documents@, persist_ok),
        final(buffer).singleton == old(buffer).singleton,
        r == save_result(persist_ok),
        persist_ok ==> !any_dirty(final(buffer).documents@),
{
    merge_format_transaction(buffer, formatted);
    apply_persist_outcome(buffer, persist_ok)
}

/// The save-as target of a buffer: the one underlying document of a
/// singleton. On a composite buffer there is no coherent disk target, and the
/// contract violation is signalled here, before any I/O is requested.
pub fn save_as_target(buffer: &MultiBuffer) -> (r: Result<Document, SaveError>)
    requires
        buffer.wf(),
    ensures
        buffer.singleton ==> r == Ok::<Document, SaveError>(buffer.documents@[0]),
        !buffer.singleton ==> r == Err::<Document, SaveError>(SaveError::NotSingleton),
{
    match buffer.as_singleton() {
        Some(document) => Ok(document),
        None => Err(SaveError::NotSingleton),
    }
}

/// The document of a singleton buffer after a successful save-as: retargeted
/// to the new path, with its unsaved-edit state cleared.
pub open spec fn saved_as_document(d: Document, new_path: u64) -> Document {
    Document { id: d.id, path: Some(new_path), dirty: false, conflict: false }
}

/// Save-as: persists the one document of a singleton buffer under a new
/// path. Defined only for singletons — on a composite buffer it signals the
/// contract violation and leaves the buffer untouched, whatever the
/// persistence outcome would have been; no write is even attempted, so
/// `persist_ok` is irrelevant there. On a singleton, a successful write
/// retargets the document and clears its flags; a failed one changes nothing
/// and surfaces the terminal error.
pub fn save_as(buffer: &mut MultiBuffer, new_path: u64, persist_ok: bool) -> (r: Result<
    (),
    SaveError,
>)
    requires
        old(buffer).wf(),
    ensures
        final(buffer).wf(),
        !old(buffer).singleton ==> r == Err::<(), SaveError>(SaveError::NotSingleton)
            && *final(buffer) == *old(buffer),
        old(buffer).singleton && persist_ok ==> r == Ok::<(), SaveError>(())
            && final(buffer).documents@ == seq![
            saved_as_document(old(buffer).documents@[0], new_path),
        ],
        old(buffer).singleton && !persist_ok ==> r == Err::<(), SaveError>(
            SaveError::PersistFailed,
        ) && *final(buffer) == *old(buffer),
        final(buffer).transaction_log == old(buffer).transaction_log,
        final(buffer).singleton == old(buffer).singleton,
{
    let target = match save_as_target(buffer) {
        Ok(document) => document,
        Err(violation) => {
            return Err(violation);
        },
    };
    if !persist_ok {
        return Err(SaveError::PersistFailed);
    }
    buffer.documents.set(
        0,
        Document { id: target.id, path: Some(new_path), dirty: false, conflict: false },
    );
    proof {
        assert(buffer.documents@ =~= seq![saved_as_document(old(buffer).documents@[0], new_path)]);
    }
    Ok(())
}

/// Merging a successful formatting pass into a composite buffer grows its
/// transaction log by exactly one entry — the merged transaction — while on a
/// singleton buffer the merge step does not grow the log at all.
pub proof fn lemma_merge_log_growth(b: MultiBuffer, transaction: u64)
    ensures
        !b.singleton ==> merged_log(b, Some(transaction)) == b.transaction_log@.push(transaction)
            && merged_log(b, Some(transaction)).len() == b.transaction_log@.len() + 1,
        b.singleton ==> merged_log(b, Some(transaction)) == b.transaction_log@,
{
}

/// A formatting failure never blocks persistence: a save whose formatting
/// pass failed still returns `Ok` when the write succeeds, leaves the history
/// as it was, and clears every dirty flag.
pub proof fn lemma_format_failure_still_persists(b: MultiBuffer)
    ensures
        save_result(true) == Ok::<(), SaveError>(()),
        merged_log(b, None) == b.transaction_log@,
        !any_dirty(persisted_documents(b.documents@, true)),
{
    assert forall|i: int|
        0 <= i < persisted_documents(b.documents@, true).len() implies !persisted_documents(
        b.documents@,
        true,
    )[i].dirty by {}
}

} // verus!
