//! Retrieval requests.
use vstd::prelude::*;

verus! {

/// Parameters of one retrieval request.
#[derive(Debug, Clone)]
pub struct SearchRequest {
    /// Number of nearest tiles to retrieve.
    pub k: usize,
    /// Optional allowlist of tile ids; `None` searches the whole index.
    pub allowlist: Option<Vec<usize>>,
    /// Whether to run the optional rerank stage over the candidates.
    pub rerank: bool,
}

impl Default for SearchRequest {
    /// Ten neighbours, no filter, no rerank.
    fn default() -> (r: Self)
        ensures
            r.k == 10,
            r.allowlist is None,
            !r.rerank,
    {
        SearchRequest { k: 10, allowlist: None, rerank: false }
    }
}

/// Whether a request's rerank stage runs: it must be asked for and a reranker
/// must be attached.
pub fn runs_rerank(req: &SearchRequest, has_reranker: bool) -> (r: bool)
    ensures
        r == (req.rerank && has_reranker),
{
    req.rerank && has_reranker
}

} // verus!
