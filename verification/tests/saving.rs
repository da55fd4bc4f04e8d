use editor_core::buffer::{Document, MultiBuffer};
use editor_core::save::{save, save_as, save_as_target, SaveError};

fn doc(id: u64, path: Option<u64>, dirty: bool, conflict: bool) -> Document {
    Document { id, path, dirty, conflict }
}

fn composite_buffer() -> MultiBuffer {
    MultiBuffer::composite(vec![
        doc(1, Some(10), true, false),
        doc(2, None, true, true),
    ])
}

#[test]
fn save_as_on_composite_is_fatal_before_any_io() {
    let mut b = composite_buffer();
    // The violation is signalled by the target lookup alone, with no write.
    assert_eq!(save_as_target(&b), Err(SaveError::NotSingleton));
    // Even a save-as that would have persisted fine changes nothing.
    let r = save_as(&mut b, 99, true);
    assert_eq!(r, Err(SaveError::NotSingleton));
    assert!(b.is_dirty());
    assert!(b.has_conflict());
    assert_eq!(b.transaction_log.len(), 0);
    assert_eq!(b.documents[0].path, Some(10));
    assert_eq!(b.documents[1].path, None);
}

#[test]
fn can_save_as_iff_singleton_whatever_the_flags() {
    for &dirty in &[false, true] {
        for &conflict in &[false, true] {
            let single = MultiBuffer::singleton(doc(1, None, dirty, conflict));
            assert!(single.can_save_as());
            let multi = MultiBuffer::composite(vec![
                doc(1, Some(10), dirty, conflict),
                doc(2, Some(11), dirty, conflict),
            ]);
            assert!(!multi.can_save_as());
        }
    }
}

#[test]
fn project_path_exists_only_for_singletons() {
    assert_eq!(MultiBuffer::singleton(doc(1, Some(10), false, false)).project_path(), Some(10));
    assert_eq!(MultiBuffer::singleton(doc(1, None, false, false)).project_path(), None);
    assert_eq!(composite_buffer().project_path(), None);
}

#[test]
fn can_save_policy() {
    assert!(composite_buffer().can_save());
    assert!(MultiBuffer::singleton(doc(1, Some(10), true, false)).can_save());
    assert!(!MultiBuffer::singleton(doc(1, None, true, false)).can_save());
}

#[test]
fn composite_save_merges_exactly_one_transaction() {
    let mut b = composite_buffer();
    let r = save(&mut b, Some(42), true);
    assert_eq!(r, Ok(()));
    assert_eq!(b.transaction_log, vec![42]);
    assert!(!b.is_dirty());
    assert!(!b.has_conflict());
}

#[test]
fn singleton_save_does_not_grow_log_on_merge() {
    let mut b = MultiBuffer::singleton(doc(1, Some(10), true, false));
    let r = save(&mut b, Some(42), true);
    assert_eq!(r, Ok(()));
    assert_eq!(b.transaction_log.len(), 0);
    assert!(!b.is_dirty());
}

#[test]
fn merge_completes_even_when_persistence_fails() {
    let mut b = composite_buffer();
    let r = save(&mut b, Some(42), false);
    assert_eq!(r, Err(SaveError::PersistFailed));
    // The history was merged before persistence was observed...
    assert_eq!(b.transaction_log, vec![42]);
    // ...but nothing was written, so the buffer stays dirty.
    assert!(b.is_dirty());
}

#[test]
fn failed_formatting_never_blocks_the_save() {
    let mut b = composite_buffer();
    // The formatting service fails on every attempt; the saves still persist.
    let first = save(&mut b, None, true);
    assert_eq!(first, Ok(()));
    assert!(!b.is_dirty());
    b.documents[0].dirty = true;
    let second = save(&mut b, None, true);
    assert_eq!(second, Ok(()));
    assert!(!b.is_dirty());
    assert_eq!(b.transaction_log.len(), 0);
}

#[test]
fn save_as_retargets_the_singleton_document() {
    let mut b = MultiBuffer::singleton(doc(1, Some(10), true, true));
    let r = save_as(&mut b, 99, true);
    assert_eq!(r, Ok(()));
    assert_eq!(b.documents[0], doc(1, Some(99), false, false));
}

#[test]
fn save_as_surfaces_persistence_failure() {
    let mut b = MultiBuffer::singleton(doc(1, Some(10), true, false));
    let r = save_as(&mut b, 99, false);
    assert_eq!(r, Err(SaveError::PersistFailed));
    assert_eq!(b.documents[0], doc(1, Some(10), true, false));
}

#[test]
fn dirty_and_conflict_report_any_document() {
    let clean = MultiBuffer::composite(vec![doc(1, None, false, false)]);
    assert!(!clean.is_dirty());
    assert!(!clean.has_conflict());
    let mixed = MultiBuffer::composite(vec![
        doc(1, None, false, false),
        doc(2, None, false, true),
    ]);
    assert!(!mixed.is_dirty());
    assert!(mixed.has_conflict());
}

#[test]
fn all_documents_lists_every_participant() {
    let b = composite_buffer();
    assert_eq!(b.all_documents(), vec![1, 2]);
    let s = MultiBuffer::singleton(doc(5, None, false, false));
    assert_eq!(s.all_documents(), vec![5]);
    assert_eq!(s.as_singleton(), Some(doc(5, None, false, false)));
    assert_eq!(b.as_singleton(), None);
}
