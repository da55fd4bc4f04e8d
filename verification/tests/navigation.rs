use editor_core::position::{Anchor, AnchorEntry, Bias, BufferSnapshot, NavigationMarker, Point};

fn snapshot() -> BufferSnapshot {
    // A five-unit buffer where offsets 2 and 4 fall inside indivisible units,
    // one line, and one live anchor resolving to offset 2.
    BufferSnapshot {
        len: 5,
        boundaries: vec![0, 1, 3, 5],
        line_starts: vec![0],
        anchors: vec![AnchorEntry { id: 7, offset: 2 }],
    }
}

#[test]
fn fresh_marker_resolves_to_anchor_position() {
    let snap = snapshot();
    let marker = NavigationMarker { anchor: Anchor { id: 7 }, offset: 0 };
    assert_eq!(marker.resolve(&snap), 2);
}

#[test]
fn fresh_marker_ignores_fallback_offset() {
    let snap = snapshot();
    let near = NavigationMarker { anchor: Anchor { id: 7 }, offset: 0 };
    let far = NavigationMarker { anchor: Anchor { id: 7 }, offset: 999 };
    assert_eq!(near.resolve(&snap), far.resolve(&snap));
}

#[test]
fn stale_marker_clips_left_inside_unit() {
    let snap = snapshot();
    // Offset 4 splits the unit spanning 3..5, so it is pushed left to 3.
    let marker = NavigationMarker { anchor: Anchor { id: 9 }, offset: 4 };
    assert_eq!(marker.resolve(&snap), 3);
}

#[test]
fn stale_marker_clamps_to_shrunken_buffer() {
    let snap = snapshot();
    let marker = NavigationMarker { anchor: Anchor { id: 9 }, offset: 50 };
    assert_eq!(marker.resolve(&snap), 5);
}

#[test]
fn stale_marker_on_boundary_stays_put() {
    let snap = snapshot();
    let marker = NavigationMarker { anchor: Anchor { id: 9 }, offset: 1 };
    assert_eq!(marker.resolve(&snap), 1);
}

#[test]
fn can_resolve_reports_lineage() {
    let snap = snapshot();
    assert!(snap.can_resolve(&Anchor { id: 7 }));
    assert!(!snap.can_resolve(&Anchor { id: 9 }));
}

#[test]
fn clip_offset_right_bias_pushes_forward() {
    let snap = snapshot();
    assert_eq!(snap.clip_offset(2, Bias::Right), 3);
    assert_eq!(snap.clip_offset(4, Bias::Right), 5);
    assert_eq!(snap.clip_offset(3, Bias::Right), 3);
    assert_eq!(snap.clip_offset(50, Bias::Right), 5);
}

#[test]
fn to_point_counts_rows_and_columns() {
    let snap = BufferSnapshot {
        len: 20,
        boundaries: (0..=20).collect(),
        line_starts: vec![0, 4, 10],
        anchors: vec![],
    };
    assert_eq!(snap.to_point(0), Point { row: 0, column: 0 });
    assert_eq!(snap.to_point(3), Point { row: 0, column: 3 });
    assert_eq!(snap.to_point(4), Point { row: 1, column: 0 });
    assert_eq!(snap.to_point(12), Point { row: 2, column: 2 });
}
