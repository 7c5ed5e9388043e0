//! Retrieval quality metrics, in fixed point: precision and recall at a
//! cutoff, and mean reciprocal rank, all in micros (`1_000_000` is `1.0`).

use crate::search::{SearchResult, SearchResultView};
use crate::text::{chars_of, lower_of, lowercase, spec_contains_seq, str_eq};
use vstd::prelude::*;

verus! {

/// One evaluation query with its relevance criteria.
pub struct EvalQuery {
    pub query: String,
    pub category: String,
    pub expected_doc: Option<String>,
    pub expected_section: Option<String>,
    pub expected_entities: Option<Vec<String>>,
    pub min_rank: Option<usize>,
    pub relevant_chunk_ids: Option<Vec<String>>,
}

/// Whether a hit counts as relevant for a query: a set expected document
/// must occur (lowercased) in the hit's path, a set expected section must
/// match exactly, a set entity list must name the hit's entity; a query
/// with no criteria matches nothing.
pub open spec fn is_relevant_spec(
    expected_doc: Option<Seq<char>>,
    expected_section: Option<Seq<char>>,
    expected_entities: Option<Seq<Seq<char>>>,
    hit: SearchResultView,
) -> bool {
    let has_any = expected_doc is Some || expected_section is Some || (match expected_entities {
        Some(es) => es.len() > 0,
        None => false,
    });
    &&& has_any
    &&& (match expected_doc {
        Some(d) => spec_contains_seq(
            lower_of(crate::metadata::normalize_seps(hit.doc_path)),
            lower_of(crate::metadata::normalize_seps(d)),
        ),
        None => true,
    })
    &&& (match expected_section {
        Some(sec) => hit.section == Some(sec),
        None => true,
    })
    &&& (match expected_entities {
        Some(es) => es.len() == 0 || (hit.agent_name is Some && exists|i: int|
            0 <= i < es.len() && (#[trigger] es[i] == hit.agent_name->0 || entity_suffix(es[i])
                == hit.agent_name->0)),
        None => true,
    })
}

/// The entity name with any `entity:` prefix dropped.
pub open spec fn entity_suffix(e: Seq<char>) -> Seq<char> {
    if e.len() >= 7 && e.subrange(0, 7) == "entity:"@ {
        e.subrange(7, e.len() as int)
    } else {
        e
    }
}

/// The number of the first `k` hits whose chunk identifier is on the
/// relevant list.
pub open spec fn relevant_in_top_k(
    results: Seq<SearchResultView>,
    relevant: Seq<Seq<char>>,
    k: int,
) -> int
    decreases k,
{
    if k <= 0 {
        0
    } else if k > results.len() {
        relevant_in_top_k(results, relevant, results.len() as int)
    } else {
        relevant_in_top_k(results, relevant, k - 1) + (if relevant.contains(
            results[k - 1].chunk_id,
        ) {
            1int
        } else {
            0int
        })
    }
}

/// Precision at `k`, in micros: how much of the top `k` is relevant.
/// Zero when `k` is zero.
pub fn precision_at_k_micros(
    results: &Vec<SearchResult>,
    relevant_chunk_ids: &Vec<String>,
    k: usize,
) -> (r: u64)
    requires
        k <= 1_000_000,
    ensures
        k == 0 ==> r == 0,
        k > 0 ==> r as int == relevant_in_top_k(
            results.deep_view(),
            relevant_chunk_ids.deep_view(),
            k as int,
        ) * 1_000_000 / (k as int),
{
    if k == 0 {
        return 0;
    }
    let hits = count_relevant(results, relevant_chunk_ids, k);
    proof {
        lemma_relevant_bound(results.deep_view(), relevant_chunk_ids.deep_view(), k as int);
        assert(hits * 1_000_000 <= 1_000_000 * 1_000_000) by (nonlinear_arith)
            requires
                hits <= 1_000_000,
        ;
        assert(hits as int * 1_000_000 / (k as int) <= 1_000_000_000_000int) by (nonlinear_arith)
            requires
                0 <= hits as int * 1_000_000 <= 1_000_000_000_000int,
                k >= 1,
        ;
    }
    ((hits as u64) * 1_000_000) / (k as u64)
}

/// Recall at `k`, in micros: how much of the relevant set the top `k`
/// retrieves. Zero when nothing is relevant.
pub fn recall_at_k_micros(
    results: &Vec<SearchResult>,
    relevant_chunk_ids: &Vec<String>,
    k: usize,
) -> (r: u64)
    requires
        k <= 1_000_000,
        relevant_chunk_ids@.len() <= 1_000_000,
    ensures
        relevant_chunk_ids@.len() == 0 ==> r == 0,
        relevant_chunk_ids@.len() > 0 ==> r as int == relevant_in_top_k(
            results.deep_view(),
            relevant_chunk_ids.deep_view(),
            k as int,
        ) * 1_000_000 / (relevant_chunk_ids@.len() as int),
{
    if relevant_chunk_ids.len() == 0 {
        return 0;
    }
    let hits = count_relevant(results, relevant_chunk_ids, k);
    proof {
        lemma_relevant_bound(results.deep_view(), relevant_chunk_ids.deep_view(), k as int);
        assert(hits * 1_000_000 <= 1_000_000 * 1_000_000) by (nonlinear_arith)
            requires
                hits <= 1_000_000,
        ;
        assert(hits as int * 1_000_000 / (relevant_chunk_ids@.len() as int)
            <= 1_000_000_000_000int) by (nonlinear_arith)
            requires
                0 <= hits as int * 1_000_000 <= 1_000_000_000_000int,
                relevant_chunk_ids@.len() >= 1,
        ;
    }
    ((hits as u64) * 1_000_000) / (relevant_chunk_ids.len() as u64)
}

/// How many of the first `k` hits are on the relevant list.
fn count_relevant(results: &Vec<SearchResult>, relevant: &Vec<String>, k: usize) -> (n: usize)
    requires
        k <= 1_000_000,
    ensures
        n as int == relevant_in_top_k(results.deep_view(), relevant.deep_view(), k as int),
        n <= k,
{
    let limit = if k < results.len() {
        k
    } else {
        results.len()
    };
    proof {
        if k > results.deep_view().len() {
            lemma_relevant_clamp(results.deep_view(), relevant.deep_view(), k as int);
        }
    }
    let mut n: usize = 0;
    let mut i: usize = 0;
    while i < limit
        invariant
            i <= limit,
            limit <= results@.len(),
            limit <= k,
            n <= i,
            n as int == relevant_in_top_k(results.deep_view(), relevant.deep_view(), i as int),
        decreases limit - i,
    {
        let mut found = false;
        let mut j: usize = 0;
        while j < relevant.len()
            invariant
                j <= relevant@.len(),
                i < results@.len(),
                found == exists|u: int|
                    0 <= u < j && relevant.deep_view()[u] == results.deep_view()[i as int].chunk_id,
            decreases relevant@.len() - j,
        {
            if str_eq(relevant[j].as_str(), results[i].chunk_id.as_str()) {
                found = true;
                proof {
                    assert(relevant.deep_view()[j as int] == relevant@[j as int]@);
                    assert(results.deep_view()[i as int].chunk_id == results@[
                        i as int]@.chunk_id);
                }
            }
            j = j + 1;
        }
        proof {
            assert(found == relevant.deep_view().contains(
                results.deep_view()[i as int].chunk_id,
            )) by {
                if found {
                    let u = choose|u: int|
                        0 <= u < relevant.deep_view().len() && relevant.deep_view()[u]
                            == results.deep_view()[i as int].chunk_id;
                } else {
                    if relevant.deep_view().contains(results.deep_view()[i as int].chunk_id) {
                        let u = choose|u: int|
                            0 <= u < relevant.deep_view().len() && relevant.deep_view()[u]
                                == results.deep_view()[i as int].chunk_id;
                    }
                }
            }
        }
        if found {
            n = n + 1;
        }
        i = i + 1;
    }
    proof {
        if k as int > limit as int {
            lemma_relevant_clamp(results.deep_view(), relevant.deep_view(), k as int);
        }
    }
    n
}

proof fn lemma_relevant_clamp(results: Seq<SearchResultView>, relevant: Seq<Seq<char>>, k: int)
    requires
        k >= results.len(),
    ensures
        relevant_in_top_k(results, relevant, k) == relevant_in_top_k(
            results,
            relevant,
            results.len() as int,
        ),
    decreases k,
{
    if k > results.len() {
        lemma_relevant_clamp(results, relevant, k - 1);
    }
}

proof fn lemma_relevant_bound(results: Seq<SearchResultView>, relevant: Seq<Seq<char>>, k: int)
    ensures
        0 <= relevant_in_top_k(results, relevant, k) <= (if k >= 0 {
            k
        } else {
            0
        }),
    decreases (if k >= 0 {
        k
    } else {
        0
    }),
{
    if k > 0 {
        if k > results.len() {
            lemma_relevant_bound(results, relevant, results.len() as int);
            if results.len() < k {
                lemma_relevant_clamp(results, relevant, k);
            }
        } else {
            lemma_relevant_bound(results, relevant, k - 1);
        }
    }
}

impl EvalQuery {
    /// Whether a hit counts as relevant for this query: the expected
    /// document must occur in the hit's path (case- and
    /// separator-insensitive), the expected section must match exactly,
    /// and the hit's entity must be among the expected ones; with no
    /// criteria set, nothing is relevant.
    pub fn is_relevant(&self, result: &SearchResult) -> (b: bool)
        ensures
            b == is_relevant_spec(
                match self.expected_doc {
                    Some(ref d) => Some(d@),
                    None => None,
                },
                match self.expected_section {
                    Some(ref s) => Some(s@),
                    None => None,
                },
                match self.expected_entities {
                    Some(ref es) => Some(es.deep_view()),
                    None => None,
                },
                result@,
            ),
    {
        let has_doc = self.expected_doc.is_some();
        let has_section = self.expected_section.is_some();
        let has_entities = match &self.expected_entities {
            Some(es) => es.len() > 0,
            None => false,
        };
        if !has_doc && !has_section && !has_entities {
            return false;
        }
        let doc_ok = match &self.expected_doc {
            Some(expected) => {
                let ev = chars_of(expected.as_str());
                let en = crate::metadata::normalize_sep_chars(&ev);
                let es = crate::text::string_from_chars(&en);
                let el = lowercase(es.as_str());
                let elv = chars_of(el.as_str());
                let gv = chars_of(result.doc_path.as_str());
                let gn = crate::metadata::normalize_sep_chars(&gv);
                let gs = crate::text::string_from_chars(&gn);
                let gl = lowercase(gs.as_str());
                let glv = chars_of(gl.as_str());
                crate::text::contains_seq(&glv, &elv)
            },
            None => true,
        };
        if !doc_ok {
            return false;
        }
        let section_ok = match &self.expected_section {
            Some(expected) => {
                match &result.section {
                    Some(s) => str_eq(s.as_str(), expected.as_str()),
                    None => false,
                }
            },
            None => true,
        };
        if !section_ok {
            return false;
        }
        match &self.expected_entities {
            Some(es) => {
                if es.len() == 0 {
                    return true;
                }
                match &result.agent_name {
                    None => false,
                    Some(agent) => {
                        let mut i: usize = 0;
                        let ghost edv = es.deep_view();
                        let mut ok = false;
                        while i < es.len()
                            invariant
                                i <= es@.len(),
                                edv == es.deep_view(),
                                result.agent_name is Some,
                                agent == &result.agent_name->0,
                                ok == exists|u: int|
                                    0 <= u < i && (#[trigger] edv[u] == result@.agent_name->0
                                        || entity_suffix(edv[u]) == result@.agent_name->0),
                            decreases es@.len() - i,
                        {
                            let e = &es[i];
                            let matched = str_eq(e.as_str(), agent.as_str()) || {
                                let suffix = strip_entity_prefix(e.as_str());
                                str_eq(suffix.as_str(), agent.as_str())
                            };
                            proof {
                                assert(edv[i as int] == es@[i as int]@);
                            }
                            if matched {
                                ok = true;
                            }
                            i = i + 1;
                        }
                        proof {
                            if !ok {
                                assert(!(exists|u: int|
                                    0 <= u < edv.len() && (#[trigger] edv[u]
                                        == result@.agent_name->0 || entity_suffix(edv[u])
                                        == result@.agent_name->0)));
                            }
                        }
                        ok
                    },
                }
            },
            None => true,
        }
    }
}

/// The entity name with any `entity:` prefix dropped.
pub fn strip_entity_prefix(e: &str) -> (r: String)
    ensures
        r@ == entity_suffix(e@),
{
    proof {
        reveal_strlit("entity:");
    }
    let v = chars_of(e);
    if v.len() >= 7 {
        let head = crate::text::subvec(&v, 0, 7);
        let pref = chars_of("entity:");
        if crate::text::chars_eq(&head, &pref) {
            let tail = crate::text::subvec(&v, 7, v.len());
            proof {
                assert(e@.subrange(0, 7) =~= "entity:"@);
            }
            return crate::text::string_from_chars(&tail);
        }
        proof {
            assert(head@ =~= e@.subrange(0, 7));
        }
    }
    e.to_owned()
}

/// The criteria of one evaluation query, as values.
pub open spec fn query_doc(q: EvalQuery) -> Option<Seq<char>> {
    match q.expected_doc {
        Some(d) => Some(d@),
        None => None,
    }
}

/// The expected section, as a value.
pub open spec fn query_section(q: EvalQuery) -> Option<Seq<char>> {
    match q.expected_section {
        Some(s) => Some(s@),
        None => None,
    }
}

/// The expected entities, as values.
pub open spec fn query_entities(q: EvalQuery) -> Option<Seq<Seq<char>>> {
    match q.expected_entities {
        Some(es) => Some(es.deep_view()),
        None => None,
    }
}

/// The 1-indexed position of the first relevant hit, if any.
pub open spec fn first_relevant_pos(
    results: Seq<SearchResultView>,
    doc: Option<Seq<char>>,
    section: Option<Seq<char>>,
    entities: Option<Seq<Seq<char>>>,
) -> Option<int>
    decreases results.len(),
{
    if results.len() == 0 {
        None
    } else if is_relevant_spec(doc, section, entities, results[0]) {
        Some(1int)
    } else {
        match first_relevant_pos(results.drop_first(), doc, section, entities) {
            Some(p) => Some(p + 1),
            None => None,
        }
    }
}

/// One query's reciprocal-rank contribution, in micros.
pub open spec fn rr_contribution(q: EvalQuery, results: Seq<SearchResultView>) -> int {
    match first_relevant_pos(results, query_doc(q), query_section(q), query_entities(q)) {
        Some(p) => 1_000_000int / p,
        None => 0,
    }
}

/// The summed contributions of the first `i` queries (a query without a
/// result list contributes nothing).
pub open spec fn rr_total(qs: Seq<EvalQuery>, rs: Seq<Seq<SearchResultView>>, i: int) -> int
    decreases i,
{
    if i <= 0 {
        0
    } else {
        rr_total(qs, rs, i - 1) + (if i - 1 < rs.len() {
            rr_contribution(qs[i - 1], rs[i - 1])
        } else {
            0int
        })
    }
}

proof fn lemma_first_relevant_at(
    results: Seq<SearchResultView>,
    doc: Option<Seq<char>>,
    section: Option<Seq<char>>,
    entities: Option<Seq<Seq<char>>>,
    j: int,
)
    requires
        0 <= j < results.len(),
        is_relevant_spec(doc, section, entities, results[j]),
        forall|m: int| 0 <= m < j ==> !is_relevant_spec(doc, section, entities, results[m]),
    ensures
        first_relevant_pos(results, doc, section, entities) == Some(j + 1),
    decreases j,
{
    if j > 0 {
        assert(forall|m: int|
            0 <= m < results.len() - 1 ==> results.drop_first()[m] == results[m + 1]);
        lemma_first_relevant_at(results.drop_first(), doc, section, entities, j - 1);
    }
}

proof fn lemma_first_relevant_none(
    results: Seq<SearchResultView>,
    doc: Option<Seq<char>>,
    section: Option<Seq<char>>,
    entities: Option<Seq<Seq<char>>>,
)
    requires
        forall|m: int|
            0 <= m < results.len() ==> !is_relevant_spec(doc, section, entities, results[m]),
    ensures
        first_relevant_pos(results, doc, section, entities) is None,
    decreases results.len(),
{
    if results.len() > 0 {
        assert(forall|m: int|
            0 <= m < results.len() - 1 ==> results.drop_first()[m] == results[m + 1]);
        lemma_first_relevant_none(results.drop_first(), doc, section, entities);
    }
}

proof fn lemma_rr_bounds(qs: Seq<EvalQuery>, rs: Seq<Seq<SearchResultView>>, i: int)
    ensures
        0 <= rr_total(qs, rs, i) <= (if i >= 0 {
            i * 1_000_000
        } else {
            0
        }),
    decreases i,
{
    if i > 0 {
        lemma_rr_bounds(qs, rs, i - 1);
        if i - 1 < rs.len() {
            let p = first_relevant_pos(
                rs[i - 1],
                query_doc(qs[i - 1]),
                query_section(qs[i - 1]),
                query_entities(qs[i - 1]),
            );
            if p is Some {
                lemma_first_relevant_positive(
                    rs[i - 1],
                    query_doc(qs[i - 1]),
                    query_section(qs[i - 1]),
                    query_entities(qs[i - 1]),
                );
                assert(0 <= 1_000_000int / (p->0)) by (nonlinear_arith)
                    requires
                        p->0 >= 1,
                ;
                assert(1_000_000int / (p->0) <= 1_000_000) by (nonlinear_arith)
                    requires
                        p->0 >= 1,
                ;
            }
        }
        assert((i - 1) * 1_000_000 + 1_000_000 == i * 1_000_000) by (nonlinear_arith);
    }
}

proof fn lemma_first_relevant_positive(
    results: Seq<SearchResultView>,
    doc: Option<Seq<char>>,
    section: Option<Seq<char>>,
    entities: Option<Seq<Seq<char>>>,
)
    ensures
        first_relevant_pos(results, doc, section, entities) is Some ==> first_relevant_pos(
            results,
            doc,
            section,
            entities,
        )->0 >= 1,
    decreases results.len(),
{
    if results.len() > 0 && !is_relevant_spec(doc, section, entities, results[0]) {
        lemma_first_relevant_positive(results.drop_first(), doc, section, entities);
    }
}

/// Mean reciprocal rank, in micros: for each query, one over the rank of
/// its first relevant hit (zero with no relevant hit), averaged over the
/// queries. Zero for no queries.
pub fn mean_reciprocal_rank_micros(
    queries: &Vec<EvalQuery>,
    results: &Vec<Vec<SearchResult>>,
) -> (r: u64)
    requires
        queries@.len() <= 1_000_000,
    ensures
        queries@.len() == 0 ==> r == 0,
        queries@.len() > 0 ==> r as int == rr_total(
            queries@,
            results.deep_view(),
            queries@.len() as int,
        ) / (queries@.len() as int),
{
    if queries.len() == 0 {
        return 0;
    }
    let ghost qs = queries@;
    let ghost rs = results.deep_view();
    let mut sum: u64 = 0;
    let mut i: usize = 0;
    while i < queries.len()
        invariant
            i <= queries@.len(),
            queries@.len() <= 1_000_000,
            qs == queries@,
            rs == results.deep_view(),
            sum as int == rr_total(qs, rs, i as int),
            sum <= (i as u64) * 1_000_000,
        decreases queries@.len() - i,
    {
        let q = &queries[i];
        let contribution: u64 = if i < results.len() {
            let hits = &results[i];
            let mut found: Option<usize> = None;
            let mut j: usize = 0;
            while j < hits.len()
                invariant_except_break
                    j <= hits@.len(),
                    found is None,
                    i < results@.len(),
                    rs == results.deep_view(),
                    q == &queries@[i as int],
                    hits == &results@[i as int],
                    forall|m: int|
                        0 <= m < j ==> !is_relevant_spec(
                            query_doc(queries@[i as int]),
                            query_section(queries@[i as int]),
                            query_entities(queries@[i as int]),
                            rs[i as int][m],
                        ),
                ensures
                    i < results@.len(),
                    rs == results.deep_view(),
                    found is Some ==> found->0 < hits@.len() && is_relevant_spec(
                        query_doc(queries@[i as int]),
                        query_section(queries@[i as int]),
                        query_entities(queries@[i as int]),
                        rs[i as int][found->0 as int],
                    ) && forall|m: int|
                        0 <= m < found->0 ==> !is_relevant_spec(
                            query_doc(queries@[i as int]),
                            query_section(queries@[i as int]),
                            query_entities(queries@[i as int]),
                            rs[i as int][m],
                        ),
                    found is None ==> forall|m: int|
                        0 <= m < rs[i as int].len() ==> !is_relevant_spec(
                            query_doc(queries@[i as int]),
                            query_section(queries@[i as int]),
                            query_entities(queries@[i as int]),
                            rs[i as int][m],
                        ),
                decreases hits@.len() - j,
            {
                proof {
                    assert(rs[i as int][j as int] == hits@[j as int]@);
                }
                if q.is_relevant(&hits[j]) {
                    found = Some(j);
                    break ;
                }
                j = j + 1;
            }
            let n = hits.len();
            match found {
                Some(p) => {
                    proof {
                        assert(p < n);
                        lemma_first_relevant_at(
                            rs[i as int],
                            query_doc(qs[i as int]),
                            query_section(qs[i as int]),
                            query_entities(qs[i as int]),
                            p as int,
                        );
                    }
                    1_000_000u64 / ((p + 1) as u64)
                },
                None => {
                    proof {
                        lemma_first_relevant_none(
                            rs[i as int],
                            query_doc(qs[i as int]),
                            query_section(qs[i as int]),
                            query_entities(qs[i as int]),
                        );
                    }
                    0
                },
            }
        } else {
            0
        };
        proof {
            if i < results@.len() {
                assert(rr_total(qs, rs, i + 1) == rr_total(qs, rs, i as int) + rr_contribution(
                    qs[i as int],
                    rs[i as int],
                ));
            }
            lemma_rr_bounds(qs, rs, i + 1);
        }
        sum = sum + contribution;
        i = i + 1;
    }
    sum / (queries.len() as u64)
}

} // verus!
