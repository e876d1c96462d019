//! The reconciler: ties the retrying fetch, the identifier extraction and
//! the ownership lookup into the merged view behind the dashboard.
//!
//! A failure of the fetch (or a page with no matching rows) degrades to an
//! empty view rather than an error, so the dashboard is always renderable;
//! a store failure on a non-empty lookup is the one failure propagated.
use vstd::prelude::*;

use crate::extract::extract_macs;
use crate::extract::extracted;
use crate::fetch::ErrorV;
use crate::fetch::FetchError;
use crate::fetch::OutcomeV;
use crate::fetch::retry_result;
use crate::store::Db;
use crate::store::Item;
use crate::store::StoreError;
use crate::store::discovery_of;
use crate::store::lemma_discovery_deterministic;
use crate::store::macs_of;
use crate::store::sorted_items;
use crate::store::unique_macs;

verus! {

/// What one pipeline run yields, as a function of the fetch outcomes and
/// the store rows alone: the empty view when the fetch fails, else the
/// merged view of the identifiers extracted from the fetched body.
pub open spec fn pipeline_view(
    outs: Seq<OutcomeV>,
    rows: Seq<(Seq<char>, Option<Seq<char>>)>,
) -> Seq<(Seq<char>, Option<Seq<char>>)> {
    match retry_result(outs) {
        Ok(body) => discovery_of(extracted(body), rows),
        Err(_) => Seq::empty(),
    }
}

/// Produces the merged, owner-annotated view of the devices on the fetched
/// status page. Takes the outcome of the retrying fetch and consults the
/// ownership store; a fetch failure yields the empty view, never an error.
pub fn reconcile(fetch_result: Result<String, FetchError>, db: &Db) -> (r: Result<
    Vec<Item>,
    StoreError,
>)
    ensures
        fetch_result is Err ==> (r matches Ok(v) && v@.len() == 0),
        (fetch_result matches Ok(body) && extracted(body@).len() == 0) ==> (r matches Ok(v)
            && v@.len() == 0),
        r matches Ok(v) ==> sorted_items(v.deep_view()),
        fetch_result matches Ok(body) ==> (r matches Ok(v) ==> (macs_of(
            v.deep_view(),
        ).to_multiset() == extracted(body@).to_multiset() && exists|
            rows: Seq<(Seq<char>, Option<Seq<char>>)>,
        | v.deep_view() == discovery_of(extracted(body@), rows))),
        r is Err ==> (fetch_result matches Ok(body) && extracted(body@).len() > 0),
{
    match fetch_result {
        Err(_) => Ok(Vec::new()),
        Ok(body) => {
            let ids = extract_macs(body.as_str());
            let slice = ids.as_slice();
            proof {
                assert(slice.deep_view() =~= ids.deep_view());
                assert(slice.deep_view() == extracted(body@));
            }
            db.query(slice)
        },
    }
}

/// Law: the pipeline is a function of the fetch outcomes and the store
/// records alone. Two runs over the same outcome sequence and the same
/// store records — each identifier recorded at most once, in any order —
/// produce identical views.
pub proof fn lemma_pipeline_idempotent(
    outs: Seq<OutcomeV>,
    rows1: Seq<(Seq<char>, Option<Seq<char>>)>,
    rows2: Seq<(Seq<char>, Option<Seq<char>>)>,
)
    requires
        rows1.to_multiset() == rows2.to_multiset(),
        unique_macs(rows1),
        unique_macs(rows2),
    ensures
        pipeline_view(outs, rows1) == pipeline_view(outs, rows2),
{
    match retry_result(outs) {
        Ok(body) => {
            lemma_discovery_deterministic(extracted(body), rows1, rows2);
        },
        Err(_) => {},
    }
}

} // verus!
