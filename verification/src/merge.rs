use vstd::prelude::*;
use crate::editor::{
    doc_index_for_resource, doc_index_of, doc_with_token, has_doc, has_doc_for_resource,
    lemma_doc_index_agrees, lemma_resource_index_agrees, lemma_wf_after_token_update, EditorState,
    Model, ModelDoc,
};
use crate::report::{
    opt_token_view, tag_items, DiagnosticItem, DiagnosticReport, RelatedReport, ReportKind,
};

verus! {

/// Replaces the store's entry for one resource.
pub open spec fn set_store(m: Model, resource: u64, items: Seq<(DiagnosticItem, u64)>) -> Model {
    Model { store: m.store.insert(resource, items), ..m }
}

/// Replaces (or clears) the token the document with this id holds for one
/// server; a no-op when no such document is open.
pub open spec fn set_token_model(
    m: Model,
    doc_id: u64,
    token: Option<Seq<char>>,
    server: u64,
) -> Model {
    if has_doc(m.docs, doc_id) {
        let i = doc_index_of(m.docs, doc_id);
        Model { docs: m.docs.update(i, doc_with_token(m.docs[i], server, token)), ..m }
    } else {
        m
    }
}

/// Refreshes the token for a related resource's own document, if and only if
/// that resource is an open, tracked document; otherwise nothing changes.
pub open spec fn set_related_token(m: Model, resource: u64, token: Seq<char>, server: u64) -> Model {
    if has_doc_for_resource(m.docs, resource) {
        let i = doc_index_for_resource(m.docs, resource);
        Model { docs: m.docs.update(i, doc_with_token(m.docs[i], server, Some(token))), ..m }
    } else {
        m
    }
}

/// What the primary report of a response does to the owner state: a full
/// report replaces the stored list for the requested resource and stores its
/// token; an unchanged report leaves the store alone and only refreshes the
/// token.
pub open spec fn apply_primary(
    m: Model,
    kind: ReportKind,
    server: u64,
    resource: u64,
    doc_id: u64,
) -> Model {
    match kind {
        ReportKind::Full { items, token } => set_token_model(
            set_store(m, resource, tag_items(items@, server)),
            doc_id,
            opt_token_view(token),
            server,
        ),
        ReportKind::Unchanged { token } => set_token_model(m, doc_id, Some(token@), server),
    }
}

/// What one related-resource entry does: an unresolved entry is skipped; a
/// full entry replaces that resource's stored list; an unchanged entry
/// refreshes the token of that resource's open document, if there is one.
pub open spec fn apply_related_one(m: Model, e: RelatedReport, server: u64) -> Model {
    match e.resource {
        Option::None => m,
        Option::Some(res) => match e.kind {
            ReportKind::Full { items, token: _ } => set_store(m, res, tag_items(items@, server)),
            ReportKind::Unchanged { token } => set_related_token(m, res, token@, server),
        },
    }
}

/// Related-resource entries applied in order.
pub open spec fn apply_related_seq(m: Model, es: Seq<RelatedReport>, server: u64) -> Model
    decreases es.len(),
{
    if es.len() == 0 {
        m
    } else {
        apply_related_one(apply_related_seq(m, es.drop_last(), server), es.last(), server)
    }
}

/// What merging a whole response does: nothing at all when the requested
/// document is no longer open; otherwise the primary report, then every
/// related entry in order.
pub open spec fn apply_report_spec(
    m: Model,
    report: DiagnosticReport,
    server: u64,
    resource: u64,
    doc_id: u64,
) -> Model {
    if has_doc(m.docs, doc_id) {
        apply_related_seq(
            apply_primary(m, report.primary, server, resource, doc_id),
            report.related@,
            server,
        )
    } else {
        m
    }
}

/// The stored diagnostics for one resource, if any.
pub open spec fn store_at(
    store: Map<u64, Seq<(DiagnosticItem, u64)>>,
    resource: u64,
) -> Option<Seq<(DiagnosticItem, u64)>> {
    if store.contains_key(resource) {
        Some(store[resource])
    } else {
        None
    }
}

/// Applies every related-resource entry of a response, in order.
pub fn handle_related_reports(editor: &mut EditorState, related: Vec<RelatedReport>, server: u64)
    requires
        old(editor).wf(),
    ensures
        final(editor).wf(),
        final(editor)@ == apply_related_seq(old(editor)@, related@, server),
{
    let mut rel = related;
    let ghost orig = related@;
    let ghost m0 = editor@;
    let ghost k: int = 0;
    proof {
        assert(orig.take(0) =~= Seq::<RelatedReport>::empty());
    }
    while rel.len() > 0
        invariant
            editor.wf(),
            0 <= k <= orig.len(),
            rel@ == orig.skip(k),
            editor@ == apply_related_seq(m0, orig.take(k), server),
        decreases rel@.len(),
    {
        let ghost m_pre = editor@;
        let e = rel.remove(0);
        proof {
            assert(e == orig[k]);
            assert(rel@ =~= orig.skip(k + 1));
        }
        let RelatedReport { resource: res_opt, kind } = e;
        match res_opt {
            None => {},
            Some(res) => {
                match kind {
                    ReportKind::Full { items, token: _ } => {
                        editor.add_diagnostics(res, items, server);
                    },
                    ReportKind::Unchanged { token } => {
                        match editor.find_doc_by_resource(res) {
                            Some(i) => {
                                proof {
                                    lemma_resource_index_agrees(m_pre.docs, res, i as int);
                                    lemma_wf_after_token_update(
                                        m_pre.docs,
                                        i as int,
                                        server,
                                        Some(token@),
                                    );
                                }
                                editor.set_token_at(i, server, Some(token));
                            },
                            None => {},
                        }
                    },
                }
            },
        }
        proof {
            assert(editor@ == apply_related_one(m_pre, orig[k], server));
            assert(orig.take(k + 1).drop_last() =~= orig.take(k));
            assert(orig.take(k + 1).last() == orig[k]);
            assert(editor@ == apply_related_seq(m0, orig.take(k + 1), server));
            k = k + 1;
        }
    }
    proof {
        assert(orig.take(k) =~= orig);
    }
}

/// Merges one parsed diagnostic response into the owner state: the primary
/// report for the requested resource, then the related-resource entries. A
/// response whose document has been closed in the meantime is a complete
/// no-op.
pub fn handle_pull_diagnostics_response(
    editor: &mut EditorState,
    response: DiagnosticReport,
    server: u64,
    resource: u64,
    doc_id: u64,
)
    requires
        old(editor).wf(),
    ensures
        final(editor).wf(),
        final(editor)@ == apply_report_spec(old(editor)@, response, server, resource, doc_id),
{
    let ghost m0 = editor@;
    let ghost gprimary = response.primary;
    let idx: usize = (match editor.find_doc(doc_id) {
        Some(i) => i,
        None => {
            return ;
        },
    });
    proof {
        lemma_doc_index_agrees(m0.docs, doc_id, idx as int);
    }
    let DiagnosticReport { primary, related } = response;
    match primary {
        ReportKind::Full { items, token } => {
            let ghost gtoken = token;
            editor.add_diagnostics(resource, items, server);
            proof {
                lemma_doc_index_agrees(editor@.docs, doc_id, idx as int);
            }
            editor.set_token_at(idx, server, token);
            proof {
                lemma_wf_after_token_update(m0.docs, idx as int, server, opt_token_view(gtoken));
                assert(editor@ == apply_primary(m0, gprimary, server, resource, doc_id));
            }
        },
        ReportKind::Unchanged { token } => {
            let ghost gtoken = token;
            editor.set_token_at(idx, server, Some(token));
            proof {
                lemma_wf_after_token_update(m0.docs, idx as int, server, Some(gtoken@));
                assert(editor@ == apply_primary(m0, gprimary, server, resource, doc_id));
            }
        },
    }
    handle_related_reports(editor, related, server);
}

/// Merges the outcome of parsing a response payload: a payload that failed
/// to parse never reaches the merge step and leaves the owner state exactly
/// as it was.
pub fn handle_response_payload(
    editor: &mut EditorState,
    parsed: Option<DiagnosticReport>,
    server: u64,
    resource: u64,
    doc_id: u64,
)
    requires
        old(editor).wf(),
    ensures
        final(editor).wf(),
        (match parsed {
            Some(report) => final(editor)@ == apply_report_spec(
                old(editor)@,
                report,
                server,
                resource,
                doc_id,
            ),
            None => *final(editor) == *old(editor),
        }),
{
    match parsed {
        Some(report) => handle_pull_diagnostics_response(editor, report, server, resource, doc_id),
        None => {},
    }
}

/// Related entries that name only other resources leave this resource's
/// stored diagnostics as they were.
proof fn lemma_related_keeps_other_resources(
    m: Model,
    es: Seq<RelatedReport>,
    server: u64,
    resource: u64,
)
    requires
        forall|i: int| 0 <= i < es.len() ==> (#[trigger] es[i].resource) != Some(resource),
    ensures
        store_at(apply_related_seq(m, es, server).store, resource) == store_at(m.store, resource),
    decreases es.len(),
{
    if es.len() == 0 {
    } else {
        assert(forall|i: int|
            0 <= i < es.drop_last().len() ==> (#[trigger] es.drop_last()[i].resource) != Some(
                resource,
            ));
        lemma_related_keeps_other_resources(m, es.drop_last(), server, resource);
        assert(es.last().resource != Some(resource));
    }
}

/// Law: merging a report whose primary kind is `Unchanged` never alters the
/// diagnostics stored for the requested resource — only tokens move. (The
/// related entries of a response name resources other than the requested
/// one, which the hypothesis states.)
pub proof fn lemma_unchanged_preserves_store(
    m: Model,
    token: String,
    related: Vec<RelatedReport>,
    server: u64,
    resource: u64,
    doc_id: u64,
)
    requires
        forall|i: int| 0 <= i < related@.len() ==> (#[trigger] related@[i].resource) != Some(
            resource,
        ),
    ensures
        store_at(
            apply_report_spec(
                m,
                DiagnosticReport { primary: ReportKind::Unchanged { token }, related },
                server,
                resource,
                doc_id,
            ).store,
            resource,
        ) == store_at(m.store, resource),
{
    let report = DiagnosticReport { primary: ReportKind::Unchanged { token }, related };
    if has_doc(m.docs, doc_id) {
        let m1 = apply_primary(m, report.primary, server, resource, doc_id);
        assert(m1.store == m.store);
        lemma_related_keeps_other_resources(m1, related@, server, resource);
    }
}

/// Law: merging a report whose primary kind is `Full` replaces the stored
/// list for the requested resource with exactly the new items, each tagged
/// with the originating server — whatever was stored before. (The related
/// entries of a response name resources other than the requested one, which
/// the hypothesis states.)
pub proof fn lemma_full_replaces_store(
    m: Model,
    items: Vec<DiagnosticItem>,
    token: Option<String>,
    related: Vec<RelatedReport>,
    server: u64,
    resource: u64,
    doc_id: u64,
)
    requires
        has_doc(m.docs, doc_id),
        forall|i: int| 0 <= i < related@.len() ==> (#[trigger] related@[i].resource) != Some(
            resource,
        ),
    ensures
        store_at(
            apply_report_spec(
                m,
                DiagnosticReport { primary: ReportKind::Full { items, token }, related },
                server,
                resource,
                doc_id,
            ).store,
            resource,
        ) == Some(tag_items(items@, server)),
{
    let report = DiagnosticReport { primary: ReportKind::Full { items, token }, related };
    let m1 = apply_primary(m, report.primary, server, resource, doc_id);
    assert(m1.store == m.store.insert(resource, tag_items(items@, server)));
    lemma_related_keeps_other_resources(m1, related@, server, resource);
}

/// Law: a related entry of `Unchanged` kind for a resource with no open
/// tracked document updates no token and changes nothing at all — there is
/// no token to update, and the entry is not an error.
pub proof fn lemma_related_unchanged_without_doc(m: Model, res: u64, token: String, server: u64)
    ensures
        !has_doc_for_resource(m.docs, res) ==> apply_related_one(
            m,
            RelatedReport { resource: Some(res), kind: ReportKind::Unchanged { token } },
            server,
        ) == m,
{
}

/// Two documents are the same but, possibly, for the token of one server.
pub open spec fn tokens_agree_except(d1: ModelDoc, d2: ModelDoc, server: u64) -> bool {
    &&& d2.id == d1.id
    &&& d2.resource == d1.resource
    &&& d2.servers == d1.servers
    &&& forall|s: u64|
        s != server ==> ((#[trigger] d2.tokens.contains_key(s)) <==> d1.tokens.contains_key(s))
    &&& forall|s: u64|
        s != server && d1.tokens.contains_key(s) ==> (#[trigger] d2.tokens[s]) == d1.tokens[s]
}

/// Two document sets are the same but, possibly, for one server's tokens.
pub open spec fn docs_agree_except(docs1: Seq<ModelDoc>, docs2: Seq<ModelDoc>, server: u64) -> bool {
    &&& docs2.len() == docs1.len()
    &&& forall|j: int|
        0 <= j < docs1.len() ==> #[trigger] tokens_agree_except(docs1[j], docs2[j], server)
}

proof fn lemma_agree_refl(docs: Seq<ModelDoc>, server: u64)
    ensures
        docs_agree_except(docs, docs, server),
{
}

proof fn lemma_agree_trans(
    docs1: Seq<ModelDoc>,
    docs2: Seq<ModelDoc>,
    docs3: Seq<ModelDoc>,
    server: u64,
)
    requires
        docs_agree_except(docs1, docs2, server),
        docs_agree_except(docs2, docs3, server),
    ensures
        docs_agree_except(docs1, docs3, server),
{
    assert forall|j: int|
        0 <= j < docs1.len() implies #[trigger] tokens_agree_except(
        docs1[j],
        docs3[j],
        server,
    ) by {
        let a = docs1[j];
        let b = docs2[j];
        let c = docs3[j];
        assert(tokens_agree_except(a, b, server));
        assert(tokens_agree_except(b, c, server));
        assert forall|s: u64|
            s != server implies ((#[trigger] c.tokens.contains_key(s))
            <==> a.tokens.contains_key(s)) by {
            assert(b.tokens.contains_key(s) <==> a.tokens.contains_key(s));
            assert(c.tokens.contains_key(s) <==> b.tokens.contains_key(s));
        }
        assert forall|s: u64|
            s != server && a.tokens.contains_key(s) implies (#[trigger] c.tokens[s])
            == a.tokens[s] by {
            assert(b.tokens.contains_key(s));
            assert(b.tokens[s] == a.tokens[s]);
            assert(c.tokens[s] == b.tokens[s]);
        }
    }
}

proof fn lemma_update_token_agrees(
    docs: Seq<ModelDoc>,
    i: int,
    server: u64,
    token: Option<Seq<char>>,
)
    requires
        0 <= i < docs.len(),
    ensures
        docs_agree_except(docs, docs.update(i, doc_with_token(docs[i], server, token)), server),
{
    let docs2 = docs.update(i, doc_with_token(docs[i], server, token));
    assert forall|j: int|
        0 <= j < docs.len() implies #[trigger] tokens_agree_except(docs[j], docs2[j], server) by {
        if j != i {
            assert(docs2[j] == docs[j]);
        }
    }
}

proof fn lemma_related_one_agrees(m: Model, e: RelatedReport, server: u64)
    ensures
        docs_agree_except(m.docs, apply_related_one(m, e, server).docs, server),
{
    let m2 = apply_related_one(m, e, server);
    if m2.docs == m.docs {
        lemma_agree_refl(m.docs, server);
    } else {
        match e.resource {
            Option::None => {},
            Option::Some(res) => {
                match e.kind {
                    ReportKind::Full { .. } => {},
                    ReportKind::Unchanged { token } => {
                        let i = doc_index_for_resource(m.docs, res);
                        lemma_update_token_agrees(m.docs, i, server, Some(token@));
                    },
                }
            },
        }
    }
}

proof fn lemma_related_seq_agrees(m: Model, es: Seq<RelatedReport>, server: u64)
    ensures
        docs_agree_except(m.docs, apply_related_seq(m, es, server).docs, server),
    decreases es.len(),
{
    if es.len() == 0 {
        lemma_agree_refl(m.docs, server);
    } else {
        lemma_related_seq_agrees(m, es.drop_last(), server);
        let mid = apply_related_seq(m, es.drop_last(), server);
        lemma_related_one_agrees(mid, es.last(), server);
        lemma_agree_trans(
            m.docs,
            mid.docs,
            apply_related_one(mid, es.last(), server).docs,
            server,
        );
    }
}

/// Law: a merged response touches tokens only for its own originating
/// server. For every open document and every other server, the stored token
/// — present or absent, and its value — is exactly what it was before the
/// merge; document identities, resources and server sets never change
/// either. A token is never treated as if it belonged to a different
/// server.
pub proof fn lemma_merge_touches_only_its_server(
    m: Model,
    report: DiagnosticReport,
    server: u64,
    resource: u64,
    doc_id: u64,
)
    ensures
        docs_agree_except(
            m.docs,
            apply_report_spec(m, report, server, resource, doc_id).docs,
            server,
        ),
{
    if !has_doc(m.docs, doc_id) {
        lemma_agree_refl(m.docs, server);
    } else {
        let m1 = apply_primary(m, report.primary, server, resource, doc_id);
        let i = doc_index_of(m.docs, doc_id);
        match report.primary {
            ReportKind::Full { items: _, token } => {
                lemma_update_token_agrees(m.docs, i, server, opt_token_view(token));
            },
            ReportKind::Unchanged { token } => {
                lemma_update_token_agrees(m.docs, i, server, Some(token@));
            },
        }
        lemma_related_seq_agrees(m1, report.related@, server);
        lemma_agree_trans(
            m.docs,
            m1.docs,
            apply_related_seq(m1, report.related@, server).docs,
            server,
        );
    }
}

/// Law: a merge whose document was closed before the response arrived is a
/// complete no-op — no panic, no partial mutation.
pub proof fn lemma_merge_after_close_is_noop(
    m: Model,
    report: DiagnosticReport,
    server: u64,
    resource: u64,
    doc_id: u64,
)
    requires
        !has_doc(m.docs, doc_id),
    ensures
        apply_report_spec(m, report, server, resource, doc_id) == m,
{
}

} // verus!
