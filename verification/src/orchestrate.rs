use vstd::prelude::*;
use crate::editor::{
    doc_index_of, docs_wf, has_doc, lemma_doc_index_agrees, lemma_wf_after_token_update,
    EditorState, Model, ModelDoc,
};
use crate::merge::{apply_primary, apply_related_seq, apply_report_spec};
use crate::report::{opt_token_view, DiagnosticItem, DiagnosticReport, RelatedReport, ReportKind};

verus! {

broadcast use vstd::std_specs::hash::group_hash_axioms;

/// One unit of work a fired cycle expands to: pull diagnostics for this
/// document from this server.
#[derive(Clone, Copy, PartialEq, Eq, Structural, Debug)]
pub struct WorkItem {
    pub doc_id: u64,
    pub server: u64,
}

/// A concrete outbound pull request: the pair it is about, the resource the
/// response will be stored under, and the cache token to present — absent on
/// the first pull for the pair.
pub struct PullRequest {
    pub doc_id: u64,
    pub server: u64,
    pub resource: u64,
    pub token: Option<String>,
}

/// Work items for one document: one per capable server that the fired set
/// names, in the document's own server order.
pub open spec fn doc_items_for_servers(doc_id: u64, servers: Seq<u64>, fired: Seq<u64>) -> Seq<
    WorkItem,
>
    decreases servers.len(),
{
    if servers.len() == 0 {
        Seq::empty()
    } else {
        let rest = doc_items_for_servers(doc_id, servers.drop_last(), fired);
        if fired.contains(servers.last()) {
            rest.push(WorkItem { doc_id, server: servers.last() })
        } else {
            rest
        }
    }
}

/// Work items for one document and every one of its capable servers.
pub open spec fn all_server_items(doc_id: u64, servers: Seq<u64>) -> Seq<WorkItem>
    decreases servers.len(),
{
    if servers.len() == 0 {
        Seq::empty()
    } else {
        all_server_items(doc_id, servers.drop_last()).push(
            WorkItem { doc_id, server: servers.last() },
        )
    }
}

/// A server-keyed cycle expanded against all currently open documents: for
/// each, the servers it attaches that the fired set names.
pub open spec fn server_cycle_items(docs: Seq<ModelDoc>, fired: Seq<u64>) -> Seq<WorkItem>
    decreases docs.len(),
{
    if docs.len() == 0 {
        Seq::empty()
    } else {
        server_cycle_items(docs.drop_last(), fired) + doc_items_for_servers(
            docs.last().id,
            docs.last().servers,
            fired,
        )
    }
}

/// A document-keyed cycle expanded against the listed documents: every
/// capable server of each listed document that is open; a closed document
/// contributes nothing.
pub open spec fn document_cycle_items(docs: Seq<ModelDoc>, fired: Seq<u64>) -> Seq<WorkItem>
    decreases fired.len(),
{
    if fired.len() == 0 {
        Seq::empty()
    } else {
        document_cycle_items(docs, fired.drop_last()) + (if has_doc(docs, fired.last()) {
            all_server_items(fired.last(), docs[doc_index_of(docs, fired.last())].servers)
        } else {
            Seq::empty()
        })
    }
}

/// Expands a fired server-keyed cycle into work items, walking every open
/// document and keeping the fired servers it attaches.
pub fn expand_server_cycle(editor: &EditorState, fired: &Vec<u64>) -> (items: Vec<WorkItem>)
    ensures
        items@ == server_cycle_items(editor@.docs, fired@),
{
    let mut items: Vec<WorkItem> = Vec::new();
    let ghost docs = editor@.docs;
    proof {
        assert(docs.take(0) =~= Seq::<ModelDoc>::empty());
    }
    let mut di: usize = 0;
    while di < editor.docs.len()
        invariant
            di <= editor.docs.len(),
            docs == editor@.docs,
            items@ == server_cycle_items(docs.take(di as int), fired@),
        decreases editor.docs.len() - di,
    {
        let doc_id = editor.docs[di].id;
        let ghost servers = docs[di as int].servers;
        let mut si: usize = 0;
        while si < editor.docs[di].servers.len()
            invariant
                di < editor.docs.len(),
                si <= servers.len(),
                docs == editor@.docs,
                doc_id == docs[di as int].id,
                servers == docs[di as int].servers,
                items@ == server_cycle_items(docs.take(di as int), fired@)
                    + doc_items_for_servers(doc_id, servers.take(si as int), fired@),
            decreases servers.len() - si,
        {
            let s = editor.docs[di].servers[si];
            proof {
                assert(servers.take(si + 1).drop_last() =~= servers.take(si as int));
                assert(servers.take(si + 1).last() == servers[si as int]);
            }
            if contains_server(fired, s) {
                items.push(WorkItem { doc_id, server: s });
            }
            si = si + 1;
        }
        proof {
            assert(servers.take(servers.len() as int) =~= servers);
            assert(docs.take(di + 1).drop_last() =~= docs.take(di as int));
            assert(docs.take(di + 1).last() == docs[di as int]);
        }
        di = di + 1;
    }
    proof {
        assert(docs.take(docs.len() as int) =~= docs);
    }
    items
}

/// Expands a fired document-keyed cycle into work items: each listed
/// document that is still open, paired with each of its capable servers.
pub fn expand_document_cycle(editor: &EditorState, fired: &Vec<u64>) -> (items: Vec<WorkItem>)
    requires
        editor.wf(),
    ensures
        items@ == document_cycle_items(editor@.docs, fired@),
{
    let mut items: Vec<WorkItem> = Vec::new();
    let ghost docs = editor@.docs;
    proof {
        assert(fired@.take(0) =~= Seq::<u64>::empty());
    }
    let mut fi: usize = 0;
    while fi < fired.len()
        invariant
            fi <= fired.len(),
            docs == editor@.docs,
            editor.wf(),
            items@ == document_cycle_items(docs, fired@.take(fi as int)),
        decreases fired.len() - fi,
    {
        let doc_id = fired[fi];
        let ghost items_pre = items@;
        match editor.find_doc(doc_id) {
            Some(di) => {
                proof {
                    lemma_doc_index_agrees(docs, doc_id, di as int);
                }
                let ghost servers = docs[di as int].servers;
                let mut si: usize = 0;
                while si < editor.docs[di].servers.len()
                    invariant
                        di < editor.docs.len(),
                        si <= servers.len(),
                        docs == editor@.docs,
                        servers == docs[di as int].servers,
                        items@ == items_pre + all_server_items(doc_id, servers.take(si as int)),
                    decreases servers.len() - si,
                {
                    let s = editor.docs[di].servers[si];
                    proof {
                        assert(servers.take(si + 1).drop_last() =~= servers.take(si as int));
                        assert(servers.take(si + 1).last() == servers[si as int]);
                    }
                    items.push(WorkItem { doc_id, server: s });
                    si = si + 1;
                }
                proof {
                    assert(servers.take(servers.len() as int) =~= servers);
                }
            },
            None => {},
        }
        proof {
            assert(fired@.take(fi + 1).drop_last() =~= fired@.take(fi as int));
            assert(fired@.take(fi + 1).last() == fired@[fi as int]);
        }
        fi = fi + 1;
    }
    proof {
        assert(fired@.take(fired@.len() as int) =~= fired@);
    }
    items
}

/// The token a pull request for this (document, server) pair would carry:
/// the stored one, or absent when there has been no prior report.
pub open spec fn request_token(m: Model, doc_id: u64, server: u64) -> Option<Seq<char>> {
    if has_doc(m.docs, doc_id) {
        let d = m.docs[doc_index_of(m.docs, doc_id)];
        if d.tokens.contains_key(server) {
            Some(d.tokens[server])
        } else {
            None
        }
    } else {
        None
    }
}

/// Builds the outbound pull request for one work item, carrying the
/// document's current token for that server. The item is silently abandoned
/// — `None`, touching nothing — when the document is no longer open, has no
/// resolvable resource, or does not attach the server.
pub fn pull_request_for_document(editor: &EditorState, doc_id: u64, server: u64) -> (r: Option<
    PullRequest,
>)
    requires
        editor.wf(),
    ensures
        (match r {
            Some(req) => {
                let d = editor@.docs[doc_index_of(editor@.docs, doc_id)];
                has_doc(editor@.docs, doc_id) && d.resource is Some && d.servers.contains(server)
                    && req.doc_id == doc_id && req.server == server && Some(req.resource)
                    == d.resource && opt_token_view(req.token) == request_token(
                    editor@,
                    doc_id,
                    server,
                )
            },
            None => !has_doc(editor@.docs, doc_id) || {
                let d = editor@.docs[doc_index_of(editor@.docs, doc_id)];
                d.resource is None || !d.servers.contains(server)
            },
        }),
{
    let i: usize = (match editor.find_doc(doc_id) {
        Some(i) => i,
        None => {
            return None;
        },
    });
    proof {
        lemma_doc_index_agrees(editor@.docs, doc_id, i as int);
    }
    let resource: u64 = (match editor.docs[i].resource {
        Some(res) => res,
        None => {
            return None;
        },
    });
    if !contains_server(&editor.docs[i].servers, server) {
        return None;
    }
    let token = (match editor.docs[i].tokens.get(&server) {
        Some(t) => Some(t.clone()),
        None => None,
    });
    Some(PullRequest { doc_id, server, resource, token })
}

/// Spec-level image of one outbound request.
pub struct ReqModel {
    pub doc_id: u64,
    pub server: u64,
    pub resource: u64,
    pub token: Option<Seq<char>>,
}

impl View for PullRequest {
    type V = ReqModel;

    open spec fn view(&self) -> ReqModel {
        ReqModel {
            doc_id: self.doc_id,
            server: self.server,
            resource: self.resource,
            token: opt_token_view(self.token),
        }
    }
}

/// Whether a work item can be carried out at all: its document open with a
/// resolvable resource, attaching the named server.
pub open spec fn item_viable(m: Model, w: WorkItem) -> bool {
    has_doc(m.docs, w.doc_id) && {
        let d = m.docs[doc_index_of(m.docs, w.doc_id)];
        d.resource is Some && d.servers.contains(w.server)
    }
}

/// The request one viable work item builds.
pub open spec fn item_request(m: Model, w: WorkItem) -> ReqModel {
    ReqModel {
        doc_id: w.doc_id,
        server: w.server,
        resource: m.docs[doc_index_of(m.docs, w.doc_id)].resource.unwrap(),
        token: request_token(m, w.doc_id, w.server),
    }
}

/// The requests a list of work items builds, in order; an item that cannot
/// be carried out is silently abandoned, leaving its siblings untouched.
pub open spec fn requests_model(m: Model, items: Seq<WorkItem>) -> Seq<ReqModel>
    decreases items.len(),
{
    if items.len() == 0 {
        Seq::empty()
    } else {
        let rest = requests_model(m, items.drop_last());
        if item_viable(m, items.last()) {
            rest.push(item_request(m, items.last()))
        } else {
            rest
        }
    }
}

/// Builds the outbound request for every work item of a fired cycle that can
/// still be carried out.
pub fn requests_for_items(editor: &EditorState, items: &Vec<WorkItem>) -> (reqs: Vec<PullRequest>)
    requires
        editor.wf(),
    ensures
        Seq::new(reqs@.len(), |i: int| reqs@[i]@) == requests_model(editor@, items@),
{
    let mut reqs: Vec<PullRequest> = Vec::new();
    proof {
        assert(Seq::new(reqs@.len(), |i: int| reqs@[i]@) =~= requests_model(
            editor@,
            items@.take(0),
        ));
    }
    let mut i: usize = 0;
    while i < items.len()
        invariant
            i <= items.len(),
            editor.wf(),
            Seq::new(reqs@.len(), |j: int| reqs@[j]@) == requests_model(
                editor@,
                items@.take(i as int),
            ),
        decreases items.len() - i,
    {
        let w = items[i];
        let ghost reqs_pre = reqs@;
        match pull_request_for_document(editor, w.doc_id, w.server) {
            Some(req) => {
                proof {
                    assert(item_viable(editor@, w));
                    assert(req@ == item_request(editor@, w));
                }
                reqs.push(req);
                proof {
                    assert(Seq::new(reqs@.len(), |j: int| reqs@[j]@) =~= Seq::new(
                        reqs_pre.len(),
                        |j: int| reqs_pre[j]@,
                    ).push(req@));
                }
            },
            None => {
                proof {
                    assert(!item_viable(editor@, w));
                }
            },
        }
        proof {
            assert(items@.take(i + 1).drop_last() =~= items@.take(i as int));
            assert(items@.take(i + 1).last() == items@[i as int]);
        }
        i = i + 1;
    }
    proof {
        assert(items@.take(items@.len() as int) =~= items@);
    }
    reqs
}

/// Expands a fired server-keyed cycle and builds the request for each work
/// item that can still be carried out.
pub fn requests_for_server_cycle(editor: &EditorState, fired: &Vec<u64>) -> (reqs: Vec<PullRequest>)
    requires
        editor.wf(),
    ensures
        Seq::new(reqs@.len(), |i: int| reqs@[i]@) == requests_model(
            editor@,
            server_cycle_items(editor@.docs, fired@),
        ),
{
    let items = expand_server_cycle(editor, fired);
    requests_for_items(editor, &items)
}

/// Expands a fired document-keyed cycle and builds the request for each work
/// item that can still be carried out.
pub fn requests_for_document_cycle(editor: &EditorState, fired: &Vec<u64>) -> (reqs: Vec<
    PullRequest,
>)
    requires
        editor.wf(),
    ensures
        Seq::new(reqs@.len(), |i: int| reqs@[i]@) == requests_model(
            editor@,
            document_cycle_items(editor@.docs, fired@),
        ),
{
    let items = expand_document_cycle(editor, fired);
    requests_for_items(editor, &items)
}

/// Law: the first pull for a (document, server) pair — no token stored yet —
/// issues its request with an absent token.
pub proof fn lemma_first_pull_absent_token(m: Model, doc_id: u64, server: u64)
    requires
        has_doc(m.docs, doc_id) ==> !m.docs[doc_index_of(m.docs, doc_id)].tokens.contains_key(
            server,
        ),
    ensures
        request_token(m, doc_id, server) is None,
{
}

/// Law: once a full report carrying token `t` has been merged for a
/// (document, server) pair — a response with no related entries — the next
/// pull request for that pair carries exactly `t`.
pub proof fn lemma_token_round_trip(
    m: Model,
    items: Vec<DiagnosticItem>,
    t: String,
    related: Vec<RelatedReport>,
    resource: u64,
    doc_id: u64,
    server: u64,
)
    requires
        docs_wf(m.docs),
        has_doc(m.docs, doc_id),
        related@.len() == 0,
    ensures
        request_token(
            apply_report_spec(
                m,
                DiagnosticReport {
                    primary: ReportKind::Full { items, token: Some(t) },
                    related,
                },
                server,
                resource,
                doc_id,
            ),
            doc_id,
            server,
        ) == Some(t@),
{
    let report = DiagnosticReport { primary: ReportKind::Full { items, token: Some(t) }, related };
    let m1 = apply_primary(m, report.primary, server, resource, doc_id);
    assert(apply_related_seq(m1, related@, server) == m1);
    let i = doc_index_of(m.docs, doc_id);
    assert(0 <= i < m.docs.len() && m.docs[i].id == doc_id);
    lemma_wf_after_token_update(m.docs, i, server, Some(t@));
    assert(m1.docs[i].id == doc_id);
    assert(has_doc(m1.docs, doc_id));
    lemma_doc_index_agrees(m1.docs, doc_id, i);
    assert(m1.docs[i].tokens == m.docs[i].tokens.insert(server, t@));
}

/// Whether a server id is among the listed ones.
fn contains_server(v: &Vec<u64>, x: u64) -> (r: bool)
    ensures
        r == v@.contains(x),
{
    let mut i: usize = 0;
    while i < v.len()
        invariant
            i <= v.len(),
            forall|j: int| 0 <= j < i ==> v@[j] != x,
        decreases v.len() - i,
    {
        if v[i] == x {
            return true;
        }
        i = i + 1;
    }
    false
}

} // verus!
