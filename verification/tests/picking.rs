use editor_core::diagnostics::{pick, Diagnostic, DiagnosticMessage, Severity};

fn diag(message: &str, severity: Severity, start: usize, end: usize) -> Diagnostic {
    Diagnostic { message: message.to_string(), severity, start, end }
}

#[test]
fn severity_beats_width_then_narrower_wins() {
    // Overlapping the cursor at 13: the narrower of the two errors wins, not
    // the warning, though the warning is narrower than the first error.
    let overlapping = vec![
        diag("broad error", Severity::Error, 10, 20),
        diag("narrow error", Severity::Error, 12, 14),
        diag("warning", Severity::Warning, 11, 13),
    ];
    assert_eq!(pick(&overlapping), Some(1));
}

#[test]
fn zero_width_diagnostic_is_never_picked() {
    let only_zero_width = vec![diag("at caret", Severity::Error, 13, 13)];
    assert_eq!(pick(&only_zero_width), None);
    assert_eq!(pick(&vec![]), None);
}

#[test]
fn zero_width_discarded_among_others() {
    let entries = vec![
        diag("at caret", Severity::Error, 13, 13),
        diag("hint", Severity::Hint, 0, 30),
    ];
    assert_eq!(pick(&entries), Some(1));
}

#[test]
fn full_tie_keeps_the_earliest_entry() {
    let entries = vec![
        diag("first", Severity::Warning, 10, 14),
        diag("second", Severity::Warning, 12, 16),
    ];
    assert_eq!(pick(&entries), Some(0));
}

#[test]
fn update_suppresses_redundant_notification() {
    let entries = vec![
        diag("broad error", Severity::Error, 10, 20),
        diag("narrow error", Severity::Error, 12, 14),
    ];
    let mut status = DiagnosticMessage::new();
    assert!(status.diagnostic.is_none());
    assert!(status.update(&entries));
    let shown = status.diagnostic.as_ref().expect("a diagnostic is displayed");
    assert!(shown.same_as(&entries[1]));
    // The same pick again changes nothing and must not notify.
    assert!(!status.update(&entries));
    // A different outcome notifies again.
    assert!(status.update(&vec![]));
    assert!(status.diagnostic.is_none());
}

#[test]
fn update_notifies_on_message_text_change() {
    let mut status = DiagnosticMessage::new();
    assert!(status.update(&vec![diag("old text", Severity::Error, 1, 4)]));
    assert!(status.update(&vec![diag("new text", Severity::Error, 1, 4)]));
    assert!(status.diagnostic.as_ref().unwrap().same_as(&diag("new text", Severity::Error, 1, 4)));
}

#[test]
fn clear_empties_the_display() {
    let mut status = DiagnosticMessage::new();
    status.update(&vec![diag("error", Severity::Error, 1, 4)]);
    status.clear();
    assert!(status.diagnostic.is_none());
}

#[test]
fn severity_ranks_are_ordered() {
    assert!(Severity::Error.rank() < Severity::Warning.rank());
    assert!(Severity::Warning.rank() < Severity::Information.rank());
    assert!(Severity::Information.rank() < Severity::Hint.rank());
}
