//! The tool-surface types and the pure decisions of the request
//! handlers: what a search call does before and after the retrieval
//! itself, as plain values. The transport (framing, serialization)
//! lives outside the library.

use crate::text::{chars_of, seq_trim, trim_chars};
use vstd::prelude::*;

verus! {

/// A request identifier: a string or a number.
pub enum JsonRpcId {
    Text(String),
    Number(i64),
}

/// Who is answering.
pub struct ServerInfo {
    pub name: String,
    pub version: String,
}

/// One piece of a tool result.
pub struct ContentItem {
    pub content_type: String,
    pub text: String,
}

/// What a tool call returns: text content and an optional error flag.
pub struct ToolsCallResult {
    pub content: Vec<ContentItem>,
    pub is_error: Option<bool>,
}

/// The tool surface's default result count.
pub fn default_k() -> (r: usize)
    ensures
        r == 5,
{
    5
}

/// The tool surface's default namespace filter: all of them.
pub fn default_namespace() -> (r: String)
    ensures
        r@ == "all"@,
{
    "all".to_owned()
}

/// Metadata defaults to being included.
pub fn default_true() -> (r: bool)
    ensures
        r == true,
{
    true
}

/// Graph traversal defaults to one hop.
pub fn default_max_depth() -> (r: usize)
    ensures
        r == 1,
{
    1
}

/// What a search request resolves to before retrieval runs.
pub enum SearchPlan {
    /// The query is under three characters: answer with an error text,
    /// run nothing, log nothing.
    TooShort,
    /// Run the hybrid search with these values; an empty sanitized query
    /// yields an empty result set downstream, never an error.
    Run { namespace: Option<String>, k: usize, min_score_micros: u64 },
}

/// Resolve a search request: queries under three characters are refused;
/// the namespace `all` means no filter; an overfetch request widens `k`
/// and disables the score threshold so the caller sees the raw fused
/// candidates.
pub fn plan_search(
    query: &str,
    namespace: &str,
    k: usize,
    overfetch: Option<usize>,
    min_score_micros: u64,
) -> (r: SearchPlan)
    ensures
        r is TooShort <==> seq_trim(query@).len() < 3,
        r is Run ==> ({
            let ns = (match r->Run_namespace {
                Some(ref s) => Some(s@),
                None => None::<Seq<char>>,
            });
            &&& ns == (if namespace@ == "all"@ {
                None::<Seq<char>>
            } else {
                Some(namespace@)
            })
            &&& r->Run_k == (match overfetch {
                Some(o) => o as int,
                None => k as int,
            })
            &&& r->Run_min_score_micros == (match overfetch {
                Some(o) => 0int,
                None => min_score_micros as int,
            })
        }),
{
    let qv = chars_of(query);
    let qt = trim_chars(&qv);
    if qt.len() < 3 {
        return SearchPlan::TooShort;
    }
    let nv = chars_of(namespace);
    let ns: Option<String> = if crate::text::chars_eq_lit(&nv, "all") {
        None
    } else {
        Some(namespace.to_owned())
    };
    match overfetch {
        Some(o) => SearchPlan::Run { namespace: ns, k: o, min_score_micros: 0 },
        None => SearchPlan::Run { namespace: ns, k, min_score_micros },
    }
}

/// Whether a query runs at all: an empty trimmed query returns an empty
/// result set and logging still succeeds, never an error.
pub fn empty_query_short_circuit(query: &str) -> (b: bool)
    ensures
        b == (seq_trim(query@).len() == 0),
{
    let qv = chars_of(query);
    let qt = trim_chars(&qv);
    qt.len() == 0
}

} // verus!
