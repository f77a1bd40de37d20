use pull_diagnostics::debounce::PullDiagnosticsHandler;
use pull_diagnostics::debounce::OPEN_DEBOUNCE_MS;
use pull_diagnostics::editor::EditorState;
use pull_diagnostics::merge::handle_pull_diagnostics_response;
use pull_diagnostics::orchestrate::expand_document_cycle;
use pull_diagnostics::orchestrate::expand_server_cycle;
use pull_diagnostics::orchestrate::pull_request_for_document;
use pull_diagnostics::orchestrate::requests_for_items;
use pull_diagnostics::orchestrate::requests_for_server_cycle;
use pull_diagnostics::orchestrate::WorkItem;
use pull_diagnostics::report::DiagnosticItem;
use pull_diagnostics::report::DiagnosticReport;
use pull_diagnostics::report::ReportKind;
use pull_diagnostics::trigger::route_event;
use pull_diagnostics::trigger::Mode;
use pull_diagnostics::trigger::TriggerAction;
use pull_diagnostics::trigger::TriggerEvent;

fn item(code: u64) -> DiagnosticItem {
    DiagnosticItem { code }
}

fn full_report(items: Vec<DiagnosticItem>, token: &str) -> DiagnosticReport {
    DiagnosticReport {
        primary: ReportKind::Full { items, token: Some(token.to_string()) },
        related: Vec::new(),
    }
}

#[test]
fn change_trigger_enqueues_capable_servers() {
    let mut editor = EditorState::new();
    assert!(editor.open_document(1, Some(10), vec![3, 4]));
    assert!(editor.open_document(2, Some(20), vec![]));
    match route_event(&editor, TriggerEvent::DocumentChanged { doc_id: 1 }) {
        TriggerAction::EnqueueChange { servers } => assert_eq!(servers, vec![3, 4]),
        _ => panic!("a change in a capable document must enqueue its servers"),
    }
    // No capable server, or no such document: nothing is enqueued.
    assert!(matches!(
        route_event(&editor, TriggerEvent::DocumentChanged { doc_id: 2 }),
        TriggerAction::Nothing
    ));
    assert!(matches!(
        route_event(&editor, TriggerEvent::DocumentChanged { doc_id: 77 }),
        TriggerAction::Nothing
    ));
}

#[test]
fn open_trigger_enqueues_document_id() {
    let mut editor = EditorState::new();
    assert!(editor.open_document(5, Some(50), vec![1]));
    assert!(matches!(
        route_event(&editor, TriggerEvent::DocumentOpened { doc_id: 5 }),
        TriggerAction::EnqueueOpen { doc_id: 5 }
    ));
    assert!(matches!(
        route_event(&editor, TriggerEvent::DocumentOpened { doc_id: 6 }),
        TriggerAction::Nothing
    ));
}

#[test]
fn mode_triggers_drive_the_refresh_signal() {
    let editor = EditorState::new();
    assert!(matches!(
        route_event(&editor, TriggerEvent::ModeSwitched { new_mode: Mode::Insert }),
        TriggerAction::SetRefreshActive { active: false }
    ));
    assert!(matches!(
        route_event(&editor, TriggerEvent::ModeSwitched { new_mode: Mode::Normal }),
        TriggerAction::SetRefreshActive { active: true }
    ));
    assert!(matches!(
        route_event(&editor, TriggerEvent::DiagnosticsChanged { mode: Mode::Insert }),
        TriggerAction::Nothing
    ));
    assert!(matches!(
        route_event(&editor, TriggerEvent::DiagnosticsChanged { mode: Mode::Select }),
        TriggerAction::RefreshViews
    ));
}

#[test]
fn server_cycle_expands_against_all_open_documents() {
    let mut editor = EditorState::new();
    assert!(editor.open_document(1, Some(10), vec![1, 2]));
    assert!(editor.open_document(2, Some(20), vec![2, 3]));
    let items = expand_server_cycle(&editor, &vec![2]);
    assert_eq!(
        items,
        vec![WorkItem { doc_id: 1, server: 2 }, WorkItem { doc_id: 2, server: 2 }]
    );
    let items = expand_server_cycle(&editor, &vec![1, 3]);
    assert_eq!(
        items,
        vec![WorkItem { doc_id: 1, server: 1 }, WorkItem { doc_id: 2, server: 3 }]
    );
}

#[test]
fn document_cycle_expands_capable_servers_of_listed_documents() {
    let mut editor = EditorState::new();
    assert!(editor.open_document(1, Some(10), vec![1, 2]));
    assert!(editor.open_document(2, Some(20), vec![3]));
    // A closed (unknown) document in the fired set contributes nothing.
    let items = expand_document_cycle(&editor, &vec![2, 404]);
    assert_eq!(items, vec![WorkItem { doc_id: 2, server: 3 }]);
}

#[test]
fn first_pull_absent_token_then_carries_the_full_reports_token() {
    let mut editor = EditorState::new();
    assert!(editor.open_document(1, Some(10), vec![1]));
    // No prior report: the request carries no token.
    let req = pull_request_for_document(&editor, 1, 1).unwrap();
    assert_eq!(req.doc_id, 1);
    assert_eq!(req.server, 1);
    assert_eq!(req.resource, 10);
    assert_eq!(req.token, None);
    // After a full report with a fresh token, the next request carries it.
    handle_pull_diagnostics_response(&mut editor, full_report(vec![item(1)], "T"), 1, 10, 1);
    let req = pull_request_for_document(&editor, 1, 1).unwrap();
    assert_eq!(req.token.as_deref(), Some("T"));
}

#[test]
fn abandoned_work_items_build_no_request() {
    let mut editor = EditorState::new();
    // A document with no resolvable resource path.
    assert!(editor.open_document(1, None, vec![1]));
    assert!(pull_request_for_document(&editor, 1, 1).is_none());
    // A server the document does not attach.
    assert!(editor.open_document(2, Some(20), vec![1]));
    assert!(pull_request_for_document(&editor, 2, 9).is_none());
    // A document that is no longer open.
    assert!(pull_request_for_document(&editor, 3, 1).is_none());
}

#[test]
fn fired_cycle_builds_requests_and_skips_abandoned_items() {
    let mut editor = EditorState::new();
    assert!(editor.open_document(1, Some(10), vec![1]));
    // This document has no resolvable resource: its item is abandoned,
    // its sibling is untouched.
    assert!(editor.open_document(2, None, vec![1]));
    let reqs = requests_for_server_cycle(&editor, &vec![1]);
    assert_eq!(reqs.len(), 1);
    assert_eq!(reqs[0].doc_id, 1);
    assert_eq!(reqs[0].server, 1);
    assert_eq!(reqs[0].resource, 10);
    assert_eq!(reqs[0].token, None);
    // The same holds when the items are handed over directly.
    let items = vec![
        WorkItem { doc_id: 2, server: 1 },
        WorkItem { doc_id: 1, server: 1 },
        WorkItem { doc_id: 1, server: 9 },
    ];
    let reqs = requests_for_items(&editor, &items);
    assert_eq!(reqs.len(), 1);
    assert_eq!(reqs[0].doc_id, 1);
}

#[test]
fn burst_to_merge_end_to_end() {
    let mut editor = EditorState::new();
    assert!(editor.open_document(1, Some(10), vec![1, 2]));
    let mut change_engine = PullDiagnosticsHandler::new();
    // A burst of change events for the same document within the window.
    for now in [1000u64, 1050, 1100] {
        match route_event(&editor, TriggerEvent::DocumentChanged { doc_id: 1 }) {
            TriggerAction::EnqueueChange { servers } => {
                change_engine.handle_event(&servers, now);
            },
            _ => panic!("the change event must enqueue"),
        }
    }
    // Exactly one cycle fires; it expands to one item per capable server.
    let fired = change_engine.finish_debounce();
    let mut items = expand_server_cycle(&editor, &fired);
    items.sort_by_key(|w| w.server);
    assert_eq!(
        items,
        vec![WorkItem { doc_id: 1, server: 1 }, WorkItem { doc_id: 1, server: 2 }]
    );
    // Each item becomes one request; each response merges independently.
    for w in items {
        let req = pull_request_for_document(&editor, w.doc_id, w.server).unwrap();
        assert_eq!(req.token, None);
        let response = full_report(vec![item(w.server)], "g1");
        handle_pull_diagnostics_response(&mut editor, response, req.server, req.resource, req.doc_id);
    }
    // The later merge replaced the earlier one's list — no ordering is
    // promised between items of one cycle.
    assert_eq!(*editor.diagnostics_for(10).unwrap(), vec![(item(2), 2)]);
    assert_eq!(editor.token_for(1, 1).unwrap().as_str(), "g1");
    assert_eq!(editor.token_for(1, 2).unwrap().as_str(), "g1");
}

#[test]
fn open_cycle_repulls_a_document_already_in_a_change_cycle() {
    let mut editor = EditorState::new();
    assert!(editor.open_document(1, Some(10), vec![1]));
    let mut change_engine = PullDiagnosticsHandler::new();
    let mut open_engine = PullDiagnosticsHandler::with_window(OPEN_DEBOUNCE_MS);
    change_engine.handle_event(&vec![1], 1000);
    open_engine.handle_event(&vec![1], 1010);
    let open_items = expand_document_cycle(&editor, &open_engine.finish_debounce());
    let change_items = expand_server_cycle(&editor, &change_engine.finish_debounce());
    // Both cycles legitimately name the same document.
    assert_eq!(open_items, vec![WorkItem { doc_id: 1, server: 1 }]);
    assert_eq!(change_items, vec![WorkItem { doc_id: 1, server: 1 }]);
}
