//! Workspace retrieval: ingested files become chunks with embeddings in `SQLite`, and a query is
//! answered with the chunks nearest to it by cosine similarity.
//!
//! The library holds what is decided and computed: the statements that the store is asked and the
//! rows it gives back ([`db`]), the embedding requests and their replies ([`embed`]), the ranking
//! and the course of a query ([`search`]), and the vector database that may stand in for the scan
//! ([`qdrant_index`]). Talking to the disk and the network is left to the caller.

pub mod binary32;
pub mod db;
pub mod embed;
pub mod payload;
pub mod qdrant_index;
pub mod search;
pub mod text;

use vstd::prelude::*;

verus! {

/// One retrieved chunk for the model or UI.
#[derive(Clone, Debug)]
pub struct RagHit {
    pub path: String,
    pub snippet: String,
    /// The bits of the score.
    pub score: Option<u32>,
}

/// What a hit holds.
#[verifier::ext_equal]
pub struct RagHitView {
    pub path: Seq<char>,
    pub snippet: Seq<char>,
    pub score: Option<u32>,
}

impl DeepView for RagHit {
    type V = RagHitView;

    open spec fn deep_view(&self) -> RagHitView {
        RagHitView { path: self.path@, snippet: self.snippet@, score: self.score }
    }
}

/// What a hit is seen to hold is what it holds.
pub proof fn hit_is_seen_whole(hit: RagHit)
    ensures
        hit.deep_view().path == hit.path@,
        hit.deep_view().snippet == hit.snippet@,
        hit.deep_view().score == hit.score,
{
}

/// A question to the index.
#[derive(Clone, Debug)]
pub struct QueryRequest {
    pub query: String,
    pub top_k: u32,
}

/// The number of hits asked for when a request does not say.
pub fn default_top_k() -> (top_k: u32)
    ensures
        top_k == 8,
{
    8
}

/// The answer to a [`QueryRequest`].
#[derive(Clone, Debug)]
pub struct QueryResponse {
    pub hits: Vec<RagHit>,
    /// Where the answer comes from: one of the `PHASE_` constants of [`search`] and
    /// [`qdrant_index`].
    pub phase: &'static str,
}

/// What an answer holds.
#[verifier::ext_equal]
pub struct QueryResponseView {
    pub hits: Seq<RagHitView>,
    pub phase: Seq<char>,
}

impl DeepView for QueryResponse {
    type V = QueryResponseView;

    open spec fn deep_view(&self) -> QueryResponseView {
        QueryResponseView { hits: self.hits.deep_view(), phase: self.phase@ }
    }
}

/// What an answer is seen to hold is what it holds, hit by hit.
pub proof fn response_is_seen_whole(response: QueryResponse)
    ensures
        response.deep_view().phase == response.phase@,
        response.deep_view().hits.len() == response.hits@.len(),
        forall|k: int|
            #![trigger response.hits@[k]]
            0 <= k < response.hits@.len() ==> {
                &&& response.deep_view().hits[k].path == response.hits@[k].path@
                &&& response.deep_view().hits[k].snippet == response.hits@[k].snippet@
                &&& response.deep_view().hits[k].score == response.hits@[k].score
            },
{
}

} // verus!
