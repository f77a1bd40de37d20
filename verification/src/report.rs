use vstd::prelude::*;

verus! {

/// A single diagnostic as stored for display. The pipeline never inspects a
/// diagnostic's content; it only moves items between responses and the store,
/// so one opaque code stands for the payload.
#[derive(Clone, Copy, PartialEq, Eq, Structural, Debug)]
pub struct DiagnosticItem {
    pub code: u64,
}

/// One kind of diagnostic report: either a full list of items together with
/// the cache token to present on the next pull, or a note that the previously
/// stored diagnostics are still valid and only the token refreshes.
#[allow(inconsistent_fields)]
pub enum ReportKind {
    Full { items: Vec<DiagnosticItem>, token: Option<String> },
    Unchanged { token: String },
}

/// One entry of the related-resource part of a response: diagnostics a server
/// attaches to a resource other than the one explicitly requested.
///
/// `resource` holds the canonical resource id that the entry's URI resolved
/// to, or `None` when resolution failed; the merger skips such an entry and
/// touches nothing for it.
pub struct RelatedReport {
    pub resource: Option<u64>,
    pub kind: ReportKind,
}

/// A parsed diagnostic response for one requested resource: the report for
/// that resource and the entries for related resources.
pub struct DiagnosticReport {
    pub primary: ReportKind,
    pub related: Vec<RelatedReport>,
}

/// The token view of an optional owned token.
pub open spec fn opt_token_view(t: Option<String>) -> Option<Seq<char>> {
    match t {
        Some(s) => Some(s@),
        None => None,
    }
}

/// The list a `Full { items, .. }` report leaves in the store: each item
/// tagged with the server it came from.
pub open spec fn tag_items(items: Seq<DiagnosticItem>, server: u64) -> Seq<(DiagnosticItem, u64)> {
    items.map(|i: int, d: DiagnosticItem| (d, server))
}

/// Tags every item of a full report with its originating server, in order.
pub fn tag_items_exec(items: Vec<DiagnosticItem>, server: u64) -> (r: Vec<(DiagnosticItem, u64)>)
    ensures
        r@ == tag_items(items@, server),
{
    let mut r: Vec<(DiagnosticItem, u64)> = Vec::new();
    let mut i: usize = 0;
    while i < items.len()
        invariant
            i <= items.len(),
            r@ == tag_items(items@.take(i as int), server),
        decreases items.len() - i,
    {
        r.push((items[i], server));
        proof {
            assert(items@.take(i + 1).map(|j: int, d: DiagnosticItem| (d, server))
                =~= items@.take(i as int).map(|j: int, d: DiagnosticItem| (d, server)).push((
                items@[i as int],
                server,
            )));
        }
        i = i + 1;
    }
    proof {
        assert(items@.take(items@.len() as int) =~= items@);
    }
    r
}

} // verus!
