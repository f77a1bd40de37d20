use vstd::prelude::*;
use vstd::map::*;
use std::collections::HashMap;
use crate::report::DiagnosticItem;
use crate::report::tag_items;
use crate::report::tag_items_exec;

verus! {

broadcast use vstd::std_specs::hash::group_hash_axioms;

/// Spec-level image of one open document: its identity, the canonical
/// resource it edits (absent when it has no path), the servers capable of
/// pull diagnostics that it attaches, and the cache token last seen from
/// each such server.
pub struct ModelDoc {
    pub id: u64,
    pub resource: Option<u64>,
    pub servers: Seq<u64>,
    pub tokens: Map<u64, Seq<char>>,
}

/// Spec-level image of the owner-thread state: the set of open documents and
/// the diagnostics store keyed by resource.
pub struct Model {
    pub docs: Seq<ModelDoc>,
    pub store: Map<u64, Seq<(DiagnosticItem, u64)>>,
}

/// Whether some open document has this id.
pub open spec fn has_doc(docs: Seq<ModelDoc>, id: u64) -> bool {
    exists|i: int| 0 <= i < docs.len() && docs[i].id == id
}

/// The index of the open document with this id (meaningful when `has_doc`).
pub open spec fn doc_index_of(docs: Seq<ModelDoc>, id: u64) -> int {
    choose|i: int| 0 <= i < docs.len() && docs[i].id == id
}

/// Whether some open document edits this resource.
pub open spec fn has_doc_for_resource(docs: Seq<ModelDoc>, resource: u64) -> bool {
    exists|i: int| 0 <= i < docs.len() && docs[i].resource == Some(resource)
}

/// The index of the open document editing this resource (meaningful when
/// `has_doc_for_resource`).
pub open spec fn doc_index_for_resource(docs: Seq<ModelDoc>, resource: u64) -> int {
    choose|i: int| 0 <= i < docs.len() && docs[i].resource == Some(resource)
}

/// Well-formedness of the document set: ids are unique, and no two open
/// documents edit the same resource.
pub open spec fn docs_wf(docs: Seq<ModelDoc>) -> bool {
    &&& forall|i: int, j: int|
        0 <= i < docs.len() && 0 <= j < docs.len() && i != j ==> docs[i].id != docs[j].id
    &&& forall|i: int, j: int|
        0 <= i < docs.len() && 0 <= j < docs.len() && i != j && docs[i].resource is Some
            ==> docs[i].resource != docs[j].resource
}

/// The document at a well-formed index is the one `doc_index_of` names.
pub proof fn lemma_doc_index_agrees(docs: Seq<ModelDoc>, id: u64, i: int)
    requires
        docs_wf(docs),
        0 <= i < docs.len(),
        docs[i].id == id,
    ensures
        has_doc(docs, id),
        doc_index_of(docs, id) == i,
{
    assert(has_doc(docs, id));
    let j = doc_index_of(docs, id);
    assert(0 <= j < docs.len() && docs[j].id == id);
    if i != j {
        assert(docs[i].id != docs[j].id);
    }
}

/// The document at a well-formed index is the one `doc_index_for_resource`
/// names.
pub proof fn lemma_resource_index_agrees(docs: Seq<ModelDoc>, resource: u64, i: int)
    requires
        docs_wf(docs),
        0 <= i < docs.len(),
        docs[i].resource == Some(resource),
    ensures
        has_doc_for_resource(docs, resource),
        doc_index_for_resource(docs, resource) == i,
{
    assert(has_doc_for_resource(docs, resource));
    let j = doc_index_for_resource(docs, resource);
    assert(0 <= j < docs.len() && docs[j].resource == Some(resource));
    if i != j {
        assert(docs[i].resource != docs[j].resource);
    }
}

/// The token view of an owned token table.
pub open spec fn token_map_view(m: Map<u64, String>) -> Map<u64, Seq<char>> {
    Map::new(|s: u64| m.contains_key(s), |s: u64| m[s]@)
}

/// The store view of the owned diagnostics store.
pub open spec fn store_map_view(m: Map<u64, Vec<(DiagnosticItem, u64)>>) -> Map<
    u64,
    Seq<(DiagnosticItem, u64)>,
> {
    Map::new(|r: u64| m.contains_key(r), |r: u64| m[r]@)
}

/// One open document as the owner thread holds it.
pub struct Document {
    pub id: u64,
    pub resource: Option<u64>,
    pub servers: Vec<u64>,
    pub tokens: HashMap<u64, String>,
}

impl View for Document {
    type V = ModelDoc;

    open spec fn view(&self) -> ModelDoc {
        ModelDoc {
            id: self.id,
            resource: self.resource,
            servers: self.servers@,
            tokens: token_map_view(self.tokens@),
        }
    }
}

/// The state owned by the single mutation thread: the open documents and the
/// diagnostics store mapping each resource to the (diagnostic, server) pairs
/// currently displayed for it.
pub struct EditorState {
    pub docs: Vec<Document>,
    pub store: HashMap<u64, Vec<(DiagnosticItem, u64)>>,
}

impl View for EditorState {
    type V = Model;

    open spec fn view(&self) -> Model {
        Model {
            docs: Seq::new(self.docs@.len(), |i: int| self.docs@[i]@),
            store: store_map_view(self.store@),
        }
    }
}

/// Replaces a document's token for one server: a fresh token is stored, an
/// absent one clears what was there.
pub open spec fn doc_with_token(d: ModelDoc, server: u64, token: Option<Seq<char>>) -> ModelDoc {
    ModelDoc {
        tokens: (match token {
            Some(t) => d.tokens.insert(server, t),
            None => d.tokens.remove(server),
        }),
        ..d
    }
}

/// Replacing one document's token leaves the document set well formed.
pub proof fn lemma_wf_after_token_update(
    docs: Seq<ModelDoc>,
    i: int,
    server: u64,
    token: Option<Seq<char>>,
)
    requires
        docs_wf(docs),
        0 <= i < docs.len(),
    ensures
        docs_wf(docs.update(i, doc_with_token(docs[i], server, token))),
{
    let docs2 = docs.update(i, doc_with_token(docs[i], server, token));
    assert forall|k: int| 0 <= k < docs2.len() implies #[trigger] docs2[k].id == docs[k].id
        && docs2[k].resource == docs[k].resource by {}
}

impl EditorState {
    /// Well-formedness of the whole state.
    pub open spec fn wf(&self) -> bool {
        docs_wf(self@.docs)
    }

    /// A fresh state: no open documents, an empty diagnostics store.
    pub fn new() -> (r: EditorState)
        ensures
            r.wf(),
            r@.docs == Seq::<ModelDoc>::empty(),
            r@.store == Map::<u64, Seq<(DiagnosticItem, u64)>>::empty(),
    {
        let r = EditorState { docs: Vec::new(), store: HashMap::new() };
        proof {
            assert(r@.docs =~= Seq::<ModelDoc>::empty());
            assert(r@.store =~= Map::<u64, Seq<(DiagnosticItem, u64)>>::empty());
        }
        r
    }

    /// Looks an open document up by id.
    pub fn find_doc(&self, id: u64) -> (r: Option<usize>)
        ensures
            (match r {
                Some(i) => i < self.docs.len() && self@.docs[i as int].id == id,
                None => !has_doc(self@.docs, id),
            }),
    {
        let mut i: usize = 0;
        while i < self.docs.len()
            invariant
                i <= self.docs.len(),
                forall|j: int| 0 <= j < i ==> self@.docs[j].id != id,
            decreases self.docs.len() - i,
        {
            if self.docs[i].id == id {
                return Some(i);
            }
            i = i + 1;
        }
        None
    }

    /// Looks an open document up by the resource it edits.
    pub fn find_doc_by_resource(&self, resource: u64) -> (r: Option<usize>)
        ensures
            (match r {
                Some(i) => i < self.docs.len() && self@.docs[i as int].resource == Some(resource),
                None => !has_doc_for_resource(self@.docs, resource),
            }),
    {
        let mut i: usize = 0;
        while i < self.docs.len()
            invariant
                i <= self.docs.len(),
                forall|j: int| 0 <= j < i ==> self@.docs[j].resource != Some(resource),
            decreases self.docs.len() - i,
        {
            match self.docs[i].resource {
                Some(res) => {
                    if res == resource {
                        return Some(i);
                    }
                },
                None => {},
            }
            i = i + 1;
        }
        None
    }

    /// Whether a document with this id is open.
    pub fn is_open(&self, id: u64) -> (r: bool)
        ensures
            r == has_doc(self@.docs, id),
    {
        match self.find_doc(id) {
            Some(i) => {
                proof {
                    assert(has_doc(self@.docs, id));
                }
                true
            },
            None => false,
        }
    }

    /// Opens a document. Rejected (returning false, changing nothing) when a
    /// document with this id is already open or another open document already
    /// edits the same resource.
    pub fn open_document(&mut self, id: u64, resource: Option<u64>, servers: Vec<u64>) -> (r: bool)
        requires
            old(self).wf(),
        ensures
            final(self).wf(),
            r == (!has_doc(old(self)@.docs, id) && (match resource {
                Some(res) => !has_doc_for_resource(old(self)@.docs, res),
                None => true,
            })),
            r ==> final(self)@.docs == old(self)@.docs.push(
                ModelDoc {
                    id,
                    resource,
                    servers: servers@,
                    tokens: Map::<u64, Seq<char>>::empty(),
                },
            ) && final(self)@.store == old(self)@.store,
            !r ==> *final(self) == *old(self),
    {
        if self.find_doc(id).is_some() {
            return false;
        }
        match resource {
            Some(res) => {
                if self.find_doc_by_resource(res).is_some() {
                    return false;
                }
            },
            None => {},
        }
        let doc = Document { id, resource, servers, tokens: HashMap::new() };
        let ghost old_docs = self@.docs;
        self.docs.push(doc);
        proof {
            assert(token_map_view(Map::<u64, String>::empty()) =~= Map::<u64, Seq<char>>::empty());
            assert(self@.docs =~= old_docs.push(
                ModelDoc {
                    id,
                    resource,
                    servers: servers@,
                    tokens: Map::<u64, Seq<char>>::empty(),
                },
            ));
            // A violation could only involve the new last element, and the
            // two lookups above ruled its id and resource out.
            assert(forall|k: int|
                0 <= k < old_docs.len() ==> #[trigger] self@.docs[k] == old_docs[k]);
            assert(docs_wf(self@.docs));
        }
        true
    }

    /// Closes a document, dropping it and its tokens; the diagnostics store
    /// keeps whatever is displayed for its resource. Returns false when no
    /// such document is open.
    pub fn close_document(&mut self, id: u64) -> (r: bool)
        requires
            old(self).wf(),
        ensures
            final(self).wf(),
            r == has_doc(old(self)@.docs, id),
            r ==> final(self)@.docs == old(self)@.docs.remove(
                doc_index_of(old(self)@.docs, id),
            ) && final(self)@.store == old(self)@.store,
            !r ==> *final(self) == *old(self),
    {
        match self.find_doc(id) {
            Some(i) => {
                let ghost old_docs = self@.docs;
                proof {
                    lemma_doc_index_agrees(old_docs, id, i as int);
                }
                self.docs.remove(i);
                proof {
                    assert(self@.docs =~= old_docs.remove(i as int));
                    assert forall|k: int| 0 <= k < self@.docs.len() implies
                        #[trigger] self@.docs[k] == (if k < i as int {
                            old_docs[k]
                        } else {
                            old_docs[k + 1]
                        }) by {}
                    assert(docs_wf(self@.docs));
                }
                true
            },
            None => false,
        }
    }

    /// Replaces the diagnostics displayed for a resource with this report's
    /// items, each tagged with the server it came from. The previous list for
    /// that resource, if any, is discarded whole.
    pub fn add_diagnostics(&mut self, resource: u64, items: Vec<DiagnosticItem>, server: u64)
        ensures
            final(self)@.docs == old(self)@.docs,
            final(self)@.store == old(self)@.store.insert(resource, tag_items(items@, server)),
            final(self).docs@ == old(self).docs@,
    {
        let tagged = tag_items_exec(items, server);
        self.store.insert(resource, tagged);
        proof {
            assert(final(self)@.store =~= old(self)@.store.insert(
                resource,
                tag_items(items@, server),
            ));
        }
    }

    /// Stores (or clears) the token one server holds for the document at this
    /// index.
    pub fn set_token_at(&mut self, i: usize, server: u64, token: Option<String>)
        requires
            i < old(self).docs.len(),
        ensures
            final(self)@.docs == old(self)@.docs.update(
                i as int,
                doc_with_token(old(self)@.docs[i as int], server, crate::report::opt_token_view(token)),
            ),
            final(self)@.store == old(self)@.store,
            final(self).docs@.len() == old(self).docs@.len(),
    {
        let ghost old_docs = self@.docs;
        let d = doc_at_mut(&mut self.docs, i);
        let ghost old_doc = *d;
        match token {
            Some(t) => {
                d.tokens.insert(server, t);
                proof {
                    assert(token_map_view(final(d).tokens@) =~= old_doc@.tokens.insert(
                        server,
                        t@,
                    ));
                }
            },
            None => {
                d.tokens.remove(&server);
                proof {
                    assert(token_map_view(final(d).tokens@) =~= old_doc@.tokens.remove(server));
                }
            },
        }
        proof {
            assert(final(self)@.docs =~= old_docs.update(
                i as int,
                doc_with_token(old_docs[i as int], server, crate::report::opt_token_view(token)),
            ));
            assert(final(self)@.store =~= old(self)@.store);
        }
    }

    /// Reads the diagnostics currently displayed for a resource.
    pub fn diagnostics_for(&self, resource: u64) -> (r: Option<&Vec<(DiagnosticItem, u64)>>)
        ensures
            (match r {
                Some(v) => self@.store.contains_key(resource) && v@ == self@.store[resource],
                None => !self@.store.contains_key(resource),
            }),
    {
        self.store.get(&resource)
    }

    /// Reads the token a document currently holds for one server.
    pub fn token_for(&self, doc_id: u64, server: u64) -> (r: Option<&String>)
        requires
            self.wf(),
        ensures
            (match r {
                Some(t) => has_doc(self@.docs, doc_id) && {
                    let d = self@.docs[doc_index_of(self@.docs, doc_id)];
                    d.tokens.contains_key(server) && t@ == d.tokens[server]
                },
                None => !has_doc(self@.docs, doc_id) || !self@.docs[doc_index_of(
                    self@.docs,
                    doc_id,
                )].tokens.contains_key(server),
            }),
    {
        match self.find_doc(doc_id) {
            Some(i) => {
                proof {
                    lemma_doc_index_agrees(self@.docs, doc_id, i as int);
                }
                self.docs[i].tokens.get(&server)
            },
            None => None,
        }
    }
}

/// Hands out a mutable borrow of the document at one index.
fn doc_at_mut(docs: &mut Vec<Document>, i: usize) -> (d: &mut Document)
    requires
        i < old(docs).len(),
    ensures
        *d == old(docs)@[i as int],
        final(docs)@ == old(docs)@.update(i as int, *final(d)),
{
    &mut docs[i]
}

} // verus!
