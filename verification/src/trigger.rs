use vstd::prelude::*;
use crate::editor::{doc_index_of, has_doc, lemma_doc_index_agrees, EditorState, Model};

verus! {

/// Editor input modes, as far as the diagnostics triggers care about them.
#[derive(Clone, Copy, PartialEq, Eq, Structural, Debug)]
pub enum Mode {
    Normal,
    Insert,
    Select,
}

/// The editor-level events this pipeline subscribes to.
#[derive(Clone, Copy, PartialEq, Eq, Structural, Debug)]
pub enum TriggerEvent {
    DocumentChanged { doc_id: u64 },
    DocumentOpened { doc_id: u64 },
    ModeSwitched { new_mode: Mode },
    DiagnosticsChanged { mode: Mode },
}

/// What a trigger decides: feed the change engine with the document's
/// capable servers, feed the open engine with the document id, refresh the
/// visible diagnostics, flip the refresh signal's activity, or nothing at
/// all. Triggers never touch the diagnostics store themselves.
pub enum TriggerAction {
    EnqueueChange { servers: Vec<u64> },
    EnqueueOpen { doc_id: u64 },
    RefreshViews,
    SetRefreshActive { active: bool },
    Nothing,
}

/// What routing an event must decide:
/// - a change in a document with at least one capable server enqueues that
///   server set for the change engine; otherwise nothing;
/// - an opened document with at least one capable server enqueues its id for
///   the open engine; otherwise nothing;
/// - a mode switch (re)activates the refresh signal exactly when the new
///   mode is not insert;
/// - a diagnostics change refreshes the views only outside insert mode.
pub open spec fn route_action_ok(m: Model, event: TriggerEvent, a: TriggerAction) -> bool {
    match event {
        TriggerEvent::DocumentChanged { doc_id } => {
            if has_doc(m.docs, doc_id) && m.docs[doc_index_of(m.docs, doc_id)].servers.len() > 0 {
                a matches TriggerAction::EnqueueChange { servers } && servers@ == m.docs[
                    doc_index_of(m.docs, doc_id)
                ].servers
            } else {
                a is Nothing
            }
        },
        TriggerEvent::DocumentOpened { doc_id } => {
            if has_doc(m.docs, doc_id) && m.docs[doc_index_of(m.docs, doc_id)].servers.len() > 0 {
                a matches TriggerAction::EnqueueOpen { doc_id: d } && d == doc_id
            } else {
                a is Nothing
            }
        },
        TriggerEvent::ModeSwitched { new_mode } => {
            a matches TriggerAction::SetRefreshActive { active } && active == (new_mode
                != Mode::Insert)
        },
        TriggerEvent::DiagnosticsChanged { mode } => {
            if mode != Mode::Insert {
                a is RefreshViews
            } else {
                a is Nothing
            }
        },
    }
}

/// Routes one editor event to the action its trigger listener takes.
pub fn route_event(editor: &EditorState, event: TriggerEvent) -> (a: TriggerAction)
    requires
        editor.wf(),
    ensures
        route_action_ok(editor@, event, a),
{
    match event {
        TriggerEvent::DocumentChanged { doc_id } => {
            match editor.find_doc(doc_id) {
                Some(i) => {
                    proof {
                        lemma_doc_index_agrees(editor@.docs, doc_id, i as int);
                    }
                    if editor.docs[i].servers.len() > 0 {
                        TriggerAction::EnqueueChange {
                            servers: copy_servers(&editor.docs[i].servers),
                        }
                    } else {
                        TriggerAction::Nothing
                    }
                },
                None => TriggerAction::Nothing,
            }
        },
        TriggerEvent::DocumentOpened { doc_id } => {
            match editor.find_doc(doc_id) {
                Some(i) => {
                    proof {
                        lemma_doc_index_agrees(editor@.docs, doc_id, i as int);
                    }
                    if editor.docs[i].servers.len() > 0 {
                        TriggerAction::EnqueueOpen { doc_id }
                    } else {
                        TriggerAction::Nothing
                    }
                },
                None => TriggerAction::Nothing,
            }
        },
        TriggerEvent::ModeSwitched { new_mode } => {
            let active = (match new_mode {
                Mode::Insert => false,
                _ => true,
            });
            TriggerAction::SetRefreshActive { active }
        },
        TriggerEvent::DiagnosticsChanged { mode } => {
            match mode {
                Mode::Insert => TriggerAction::Nothing,
                _ => TriggerAction::RefreshViews,
            }
        },
    }
}

/// Copies a document's capable-server list for the enqueued event.
fn copy_servers(v: &Vec<u64>) -> (r: Vec<u64>)
    ensures
        r@ == v@,
{
    let mut r: Vec<u64> = Vec::new();
    let mut i: usize = 0;
    while i < v.len()
        invariant
            i <= v.len(),
            r@ == v@.take(i as int),
        decreases v.len() - i,
    {
        r.push(v[i]);
        proof {
            assert(v@.take(i + 1) =~= v@.take(i as int).push(v@[i as int]));
        }
        i = i + 1;
    }
    proof {
        assert(v@.take(v@.len() as int) =~= v@);
    }
    r
}

} // verus!
