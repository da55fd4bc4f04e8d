//! The buffer model the save coordinator works over: a logical buffer is
//! either a singleton (backed by exactly one underlying document) or a
//! composite presenting several documents as one editable stream. Only what
//! the coordination logic reads is modelled: each document's identity, backing
//! path, dirty and conflict flags, and the buffer's transaction log.

use vstd::prelude::*;

verus! {

/// One underlying document of a buffer.
#[derive(Clone, Copy, PartialEq, Eq, Structural, Debug)]
pub struct Document {
    /// Identity of the document, used to hand it to external services.
    pub id: u64,
    /// The backing path, where the document has one.
    pub path: Option<u64>,
    /// Whether the document holds unsaved edits.
    pub dirty: bool,
    /// Whether the document diverged from its backing file.
    pub conflict: bool,
}

/// A logical buffer: one or more underlying documents presented as a single
/// editable stream, plus the log of transactions pushed onto its history.
pub struct MultiBuffer {
    /// True when the buffer is backed by exactly one document.
    pub singleton: bool,
    /// The underlying documents, in presentation order.
    pub documents: Vec<Document>,
    /// Identities of the transactions in the buffer's edit history, oldest
    /// first.
    pub transaction_log: Vec<u64>,
}

/// True when some document in `docs` is dirty.
pub open spec fn any_dirty(docs: Seq<Document>) -> bool {
    exists|i: int| 0 <= i < docs.len() && docs[i].dirty
}

/// True when some document in `docs` has a conflict.
pub open spec fn any_conflict(docs: Seq<Document>) -> bool {
    exists|i: int| 0 <= i < docs.len() && docs[i].conflict
}

impl MultiBuffer {
    /// A singleton buffer has exactly one underlying document.
    pub open spec fn wf(self) -> bool {
        self.singleton ==> self.documents.len() == 1
    }

    /// Builds a buffer around a single document.
    pub fn singleton(document: Document) -> (b: MultiBuffer)
        ensures
            b.wf(),
            b.singleton,
            b.documents@ == seq![document],
            b.transaction_log@ == Seq::<u64>::empty(),
    {
        let mut documents: Vec<Document> = Vec::new();
        documents.push(document);
        proof {
            assert(documents@ =~= seq![document]);
        }
        MultiBuffer { singleton: true, documents, transaction_log: Vec::new() }
    }

    /// Builds a composite buffer over the given documents.
    pub fn composite(documents: Vec<Document>) -> (b: MultiBuffer)
        ensures
            b.wf(),
            !b.singleton,
            b.documents@ == documents@,
            b.transaction_log@ == Seq::<u64>::empty(),
    {
        MultiBuffer { singleton: false, documents, transaction_log: Vec::new() }
    }

    /// Checks well-formedness of a buffer assembled by unverified code.
    pub fn is_well_formed(&self) -> (r: bool)
        ensures
            r == self.wf(),
    {
        !self.singleton || self.documents.len() == 1
    }

    /// Whether the buffer is backed by exactly one document.
    pub fn is_singleton(&self) -> (r: bool)
        ensures
            r == self.singleton,
    {
        self.singleton
    }

    /// The one underlying document of a singleton buffer; `None` on a
    /// composite.
    pub fn as_singleton(&self) -> (r: Option<Document>)
        requires
            self.wf(),
        ensures
            self.singleton ==> r == Some(self.documents@[0]),
            !self.singleton ==> r is None,
    {
        if self.singleton {
            Some(self.documents[0])
        } else {
            None
        }
    }

    /// The identities of every document participating in this buffer, in
    /// order: the set a formatting pass is requested over.
    pub fn all_documents(&self) -> (r: Vec<u64>)
        ensures
            r@ == self.documents@.map(|i: int, d: Document| d.id),
    {
        let mut r: Vec<u64> = Vec::new();
        let mut i: usize = 0;
        while i < self.documents.len()
            invariant
                i <= self.documents.len(),
                r@ == self.documents@.subrange(0, i as int).map(|k: int, d: Document| d.id),
            decreases self.documents.len() - i,
        {
            r.push(self.documents[i].id);
            proof {
                assert(self.documents@.subrange(0, i + 1).drop_last() =~= self.documents@.subrange(
                    0,
                    i as int,
                ));
                assert(r@ =~= self.documents@.subrange(0, i + 1).map(
                    |k: int, d: Document| d.id,
                ));
            }
            i += 1;
        }
        proof {
            assert(self.documents@.subrange(0, self.documents@.len() as int) =~= self.documents@);
        }
        r
    }

    /// Whether the buffer holds unsaved edits: true when any underlying
    /// document is dirty.
    pub fn is_dirty(&self) -> (r: bool)
        ensures
            r == any_dirty(self.documents@),
    {
        let mut i: usize = 0;
        while i < self.documents.len()
            invariant
                i <= self.documents.len(),
                forall|j: int| 0 <= j < i ==> !self.documents@[j].dirty,
            decreases self.documents.len() - i,
        {
            if self.documents[i].dirty {
                return true;
            }
            i += 1;
        }
        false
    }

    /// Whether the buffer diverged from disk: true when any underlying
    /// document has a conflict.
    pub fn has_conflict(&self) -> (r: bool)
        ensures
            r == any_conflict(self.documents@),
    {
        let mut i: usize = 0;
        while i < self.documents.len()
            invariant
                i <= self.documents.len(),
                forall|j: int| 0 <= j < i ==> !self.documents@[j].conflict,
            decreases self.documents.len() - i,
        {
            if self.documents[i].conflict {
                return true;
            }
            i += 1;
        }
        false
    }

    /// The buffer's backing path: the one document's path for a singleton,
    /// nothing for a composite, which has no single backing file.
    pub fn project_path(&self) -> (r: Option<u64>)
        requires
            self.wf(),
        ensures
            self.singleton ==> r == self.documents@[0].path,
            !self.singleton ==> r is None,
    {
        if self.singleton {
            self.documents[0].path
        } else {
            None
        }
    }

    /// Whether a plain save is meaningful: always for a composite buffer, and
    /// for a singleton only when its document has a known backing path.
    pub fn can_save(&self) -> (r: bool)
        requires
            self.wf(),
        ensures
            r == (!self.singleton || self.documents@[0].path is Some),
    {
        if !self.singleton {
            true
        } else {
            self.documents[0].path.is_some()
        }
    }

    /// What save-as eligibility means: the buffer is a singleton.
    pub open spec fn can_save_as_spec(self) -> bool {
        self.singleton
    }

    /// Whether save-as is meaningful: only for a singleton buffer, whatever
    /// its dirty or conflict state, since only a singleton has one unambiguous
    /// content stream to write.
    pub fn can_save_as(&self) -> (r: bool)
        ensures
            r == self.can_save_as_spec(),
    {
        self.singleton
    }

    /// Pushes an already-applied transaction onto the buffer's history
    /// without re-executing its edits.
    pub fn push_transaction(&mut self, transaction: u64)
        ensures
            final(self).transaction_log@ == old(self).transaction_log@.push(transaction),
            final(self).documents == old(self).documents,
            final(self).singleton == old(self).singleton,
    {
        self.transaction_log.push(transaction);
    }
}

/// Save-as eligibility holds exactly of singleton buffers and ignores all
/// document state: two buffers that agree on being singleton or composite
/// agree on it, however their dirty flags, conflict flags, documents or logs
/// differ.
pub proof fn lemma_can_save_as_iff_singleton(b1: MultiBuffer, b2: MultiBuffer)
    requires
        b1.singleton == b2.singleton,
    ensures
        b1.can_save_as_spec() == b2.can_save_as_spec(),
        b1.can_save_as_spec() == b1.singleton,
{
}

} // verus!
