use editor_core::position::{BufferSnapshot, Point};
use editor_core::status::{CursorPosition, Selection};

fn snapshot() -> BufferSnapshot {
    BufferSnapshot {
        len: 20,
        boundaries: (0..=20).collect(),
        line_starts: vec![0, 4, 10],
        anchors: vec![],
    }
}

#[test]
fn starts_empty() {
    let status = CursorPosition::new();
    assert!(status.position.is_none());
    assert_eq!(status.selected_count, 0);
}

#[test]
fn sums_selections_and_follows_newest_head() {
    let snap = snapshot();
    let mut status = CursorPosition::new();
    let selections = vec![
        Selection { id: 1, start: 0, end: 3 },
        Selection { id: 3, start: 10, end: 12 },
        Selection { id: 2, start: 4, end: 4 },
    ];
    status.update_position(&selections, &snap);
    assert_eq!(status.selected_count, 5);
    // The newest selection is id 3; its head is offset 12 = row 2, column 2.
    assert_eq!(status.position, Some(Point { row: 2, column: 2 }));
}

#[test]
fn equal_ids_keep_the_earliest_selection() {
    let snap = snapshot();
    let mut status = CursorPosition::new();
    let selections = vec![
        Selection { id: 5, start: 0, end: 2 },
        Selection { id: 5, start: 10, end: 11 },
    ];
    status.update_position(&selections, &snap);
    assert_eq!(status.position, Some(Point { row: 0, column: 2 }));
    assert_eq!(status.selected_count, 3);
}

#[test]
fn no_selection_clears_the_position() {
    let snap = snapshot();
    let mut status = CursorPosition::new();
    status.update_position(&vec![Selection { id: 1, start: 0, end: 1 }], &snap);
    assert!(status.position.is_some());
    status.update_position(&vec![], &snap);
    assert!(status.position.is_none());
    assert_eq!(status.selected_count, 0);
}

#[test]
fn clear_keeps_the_count_but_drops_the_position() {
    let snap = snapshot();
    let mut status = CursorPosition::new();
    status.update_position(&vec![Selection { id: 1, start: 2, end: 6 }], &snap);
    status.clear();
    assert!(status.position.is_none());
    assert_eq!(status.selected_count, 4);
}

#[test]
fn selection_head_is_its_end() {
    let sel = Selection { id: 1, start: 2, end: 6 };
    assert_eq!(sel.head(), 6);
}
