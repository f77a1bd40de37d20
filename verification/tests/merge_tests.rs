use pull_diagnostics::editor::EditorState;
use pull_diagnostics::merge::handle_pull_diagnostics_response;
use pull_diagnostics::merge::handle_response_payload;
use pull_diagnostics::report::DiagnosticItem;
use pull_diagnostics::report::DiagnosticReport;
use pull_diagnostics::report::RelatedReport;
use pull_diagnostics::report::ReportKind;

fn item(code: u64) -> DiagnosticItem {
    DiagnosticItem { code }
}

fn full(items: Vec<DiagnosticItem>, token: Option<&str>) -> ReportKind {
    ReportKind::Full { items, token: token.map(|t| t.to_string()) }
}

fn unchanged(token: &str) -> ReportKind {
    ReportKind::Unchanged { token: token.to_string() }
}

fn report(primary: ReportKind) -> DiagnosticReport {
    DiagnosticReport { primary, related: Vec::new() }
}

#[test]
fn full_report_replaces_prior_diagnostics() {
    let mut editor = EditorState::new();
    assert!(editor.open_document(1, Some(10), vec![1]));
    handle_pull_diagnostics_response(&mut editor, report(full(vec![item(1), item(2)], None)), 1, 10, 1);
    assert_eq!(*editor.diagnostics_for(10).unwrap(), vec![(item(1), 1), (item(2), 1)]);
    // A later full report fully replaces — it does not append.
    handle_pull_diagnostics_response(&mut editor, report(full(vec![item(3)], None)), 1, 10, 1);
    assert_eq!(*editor.diagnostics_for(10).unwrap(), vec![(item(3), 1)]);
}

#[test]
fn unchanged_report_keeps_store_and_refreshes_token() {
    let mut editor = EditorState::new();
    assert!(editor.open_document(1, Some(10), vec![1]));
    handle_pull_diagnostics_response(&mut editor, report(full(vec![item(4)], Some("t1"))), 1, 10, 1);
    assert_eq!(editor.token_for(1, 1).unwrap().as_str(), "t1");
    handle_pull_diagnostics_response(&mut editor, report(unchanged("t2")), 1, 10, 1);
    // The stored diagnostics are exactly as before; only the token moved.
    assert_eq!(*editor.diagnostics_for(10).unwrap(), vec![(item(4), 1)]);
    assert_eq!(editor.token_for(1, 1).unwrap().as_str(), "t2");
}

#[test]
fn full_report_with_absent_token_clears_the_stored_one() {
    let mut editor = EditorState::new();
    assert!(editor.open_document(1, Some(10), vec![1]));
    handle_pull_diagnostics_response(&mut editor, report(full(vec![item(1)], Some("t"))), 1, 10, 1);
    assert!(editor.token_for(1, 1).is_some());
    handle_pull_diagnostics_response(&mut editor, report(full(vec![item(2)], None)), 1, 10, 1);
    assert!(editor.token_for(1, 1).is_none());
}

#[test]
fn two_servers_full_then_unchanged() {
    // Document 1 has two capable servers 1 and 2. Server 1 answers first
    // with a full report, server 2 second with an unchanged one. The store
    // holds server 1's items; each server's token is its own.
    let mut editor = EditorState::new();
    assert!(editor.open_document(1, Some(10), vec![1, 2]));
    handle_pull_diagnostics_response(&mut editor, report(full(vec![item(1)], Some("a1"))), 1, 10, 1);
    handle_pull_diagnostics_response(&mut editor, report(unchanged("b1")), 2, 10, 1);
    assert_eq!(*editor.diagnostics_for(10).unwrap(), vec![(item(1), 1)]);
    assert_eq!(editor.token_for(1, 1).unwrap().as_str(), "a1");
    assert_eq!(editor.token_for(1, 2).unwrap().as_str(), "b1");
}

#[test]
fn merge_for_one_server_leaves_other_servers_tokens_alone() {
    let mut editor = EditorState::new();
    assert!(editor.open_document(1, Some(10), vec![1, 2]));
    handle_pull_diagnostics_response(&mut editor, report(full(vec![item(1)], Some("a"))), 1, 10, 1);
    handle_pull_diagnostics_response(&mut editor, report(full(vec![item(2)], Some("b"))), 2, 10, 1);
    // A later merge from server 1 moves only server 1's token.
    handle_pull_diagnostics_response(&mut editor, report(unchanged("a2")), 1, 10, 1);
    assert_eq!(editor.token_for(1, 1).unwrap().as_str(), "a2");
    assert_eq!(editor.token_for(1, 2).unwrap().as_str(), "b");
}

#[test]
fn merge_after_document_closed_is_a_noop() {
    // The pull was in flight when the document was closed: the dispatched
    // merge looks the document up, fails, and changes nothing at all.
    let mut editor = EditorState::new();
    assert!(editor.open_document(1, Some(10), vec![1]));
    handle_pull_diagnostics_response(&mut editor, report(full(vec![item(1)], Some("t1"))), 1, 10, 1);
    assert!(editor.close_document(1));
    handle_pull_diagnostics_response(&mut editor, report(full(vec![item(9)], Some("t9"))), 1, 10, 1);
    // The store still shows what was merged before the close.
    assert_eq!(*editor.diagnostics_for(10).unwrap(), vec![(item(1), 1)]);
    assert!(!editor.is_open(1));
}

#[test]
fn unparsed_payload_never_reaches_the_merge() {
    let mut editor = EditorState::new();
    assert!(editor.open_document(1, Some(10), vec![1]));
    handle_pull_diagnostics_response(&mut editor, report(full(vec![item(1)], Some("t1"))), 1, 10, 1);
    // A payload that failed to parse arrives as no report at all.
    handle_response_payload(&mut editor, None, 1, 10, 1);
    assert_eq!(*editor.diagnostics_for(10).unwrap(), vec![(item(1), 1)]);
    assert_eq!(editor.token_for(1, 1).unwrap().as_str(), "t1");
    // A parsed payload still merges.
    handle_response_payload(&mut editor, Some(report(full(vec![item(2)], Some("t2")))), 1, 10, 1);
    assert_eq!(*editor.diagnostics_for(10).unwrap(), vec![(item(2), 1)]);
    assert_eq!(editor.token_for(1, 1).unwrap().as_str(), "t2");
}

#[test]
fn related_full_entry_replaces_that_resource() {
    let mut editor = EditorState::new();
    assert!(editor.open_document(1, Some(10), vec![1]));
    let rep = DiagnosticReport {
        primary: full(vec![item(1)], Some("t1")),
        related: vec![RelatedReport { resource: Some(20), kind: full(vec![item(9)], None) }],
    };
    handle_pull_diagnostics_response(&mut editor, rep, 1, 10, 1);
    assert_eq!(*editor.diagnostics_for(10).unwrap(), vec![(item(1), 1)]);
    assert_eq!(*editor.diagnostics_for(20).unwrap(), vec![(item(9), 1)]);
}

#[test]
fn related_unchanged_entry_updates_open_documents_token() {
    let mut editor = EditorState::new();
    assert!(editor.open_document(1, Some(10), vec![1]));
    assert!(editor.open_document(2, Some(20), vec![1]));
    let rep = DiagnosticReport {
        primary: full(vec![item(1)], Some("t1")),
        related: vec![RelatedReport { resource: Some(20), kind: unchanged("rt") }],
    };
    handle_pull_diagnostics_response(&mut editor, rep, 1, 10, 1);
    assert_eq!(editor.token_for(2, 1).unwrap().as_str(), "rt");
    // The related resource's stored diagnostics did not change.
    assert!(editor.diagnostics_for(20).is_none());
}

#[test]
fn related_unchanged_without_open_document_updates_nothing() {
    // No open document edits resource 99: there is no token to update, and
    // the entry is not an error — nothing changes.
    let mut editor = EditorState::new();
    assert!(editor.open_document(1, Some(10), vec![1]));
    let rep = DiagnosticReport {
        primary: unchanged("p"),
        related: vec![RelatedReport { resource: Some(99), kind: unchanged("x") }],
    };
    handle_pull_diagnostics_response(&mut editor, rep, 1, 10, 1);
    assert!(editor.diagnostics_for(99).is_none());
    assert_eq!(editor.token_for(1, 1).unwrap().as_str(), "p");
}

#[test]
fn related_entry_with_unresolvable_resource_is_skipped() {
    let mut editor = EditorState::new();
    assert!(editor.open_document(1, Some(10), vec![1]));
    let rep = DiagnosticReport {
        primary: full(vec![item(1)], None),
        related: vec![
            RelatedReport { resource: None, kind: full(vec![item(9)], None) },
            RelatedReport { resource: Some(20), kind: full(vec![item(8)], None) },
        ],
    };
    handle_pull_diagnostics_response(&mut editor, rep, 1, 10, 1);
    // The unresolvable entry vanished; its sibling was still applied.
    assert_eq!(*editor.diagnostics_for(20).unwrap(), vec![(item(8), 1)]);
    assert_eq!(*editor.diagnostics_for(10).unwrap(), vec![(item(1), 1)]);
}

#[test]
fn open_document_rejects_duplicates() {
    let mut editor = EditorState::new();
    assert!(editor.open_document(1, Some(10), vec![1]));
    // Same id again, and another document for the same resource.
    assert!(!editor.open_document(1, Some(11), vec![1]));
    assert!(!editor.open_document(2, Some(10), vec![1]));
    assert!(editor.open_document(2, Some(20), vec![1]));
    assert!(editor.close_document(2));
    assert!(!editor.close_document(2));
}
