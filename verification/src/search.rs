//! Search results and rank-based fusion. Scores are fixed-point integers:
//! similarity and normalized scores carry micros (`1_000_000` is `1.0`);
//! raw reciprocal-rank-fusion scores carry picos (`1_000_000_000_000` is
//! `1.0`), fine enough that distinct weights give distinct contributions.

use vstd::multiset::Multiset;
use vstd::prelude::*;

verus! {

/// One trillion picos make 1.0: the fixed-point unit of raw fusion scores.
pub const RRF_UNIT: i64 = 1_000_000_000_000;

/// The reciprocal-rank constant: a candidate at rank `r` contributes
/// `weight / (60 + r)`.
pub const RRF_K: u64 = 60;

/// A search hit: the chunk, its document metadata, its score and its
/// 1-indexed rank.
#[derive(Clone)]
pub struct SearchResult {
    pub chunk_id: String,
    pub doc_path: String,
    pub doc_type: String,
    pub agent_name: Option<String>,
    pub section: Option<String>,
    pub chunk_text: String,
    pub score: i64,
    pub rank: usize,
}

/// The mathematical image of a search hit.
#[verifier::ext_equal]
pub struct SearchResultView {
    pub chunk_id: Seq<char>,
    pub doc_path: Seq<char>,
    pub doc_type: Seq<char>,
    pub agent_name: Option<Seq<char>>,
    pub section: Option<Seq<char>>,
    pub chunk_text: Seq<char>,
    pub score: int,
    pub rank: int,
}

impl View for SearchResult {
    type V = SearchResultView;

    open spec fn view(&self) -> SearchResultView {
        SearchResultView {
            chunk_id: self.chunk_id@,
            doc_path: self.doc_path@,
            doc_type: self.doc_type@,
            agent_name: self.agent_name.deep_view(),
            section: self.section.deep_view(),
            chunk_text: self.chunk_text@,
            score: self.score as int,
            rank: self.rank as int,
        }
    }
}

impl DeepView for SearchResult {
    type V = SearchResultView;

    open spec fn deep_view(&self) -> SearchResultView {
        self.view()
    }
}

/// A field-for-field copy of a search hit.
pub fn copy_result(r: &SearchResult) -> (c: SearchResult)
    ensures
        c@ == r@,
{
    SearchResult {
        chunk_id: r.chunk_id.clone(),
        doc_path: r.doc_path.clone(),
        doc_type: r.doc_type.clone(),
        agent_name: match &r.agent_name {
            Some(a) => Some(a.clone()),
            None => None,
        },
        section: match &r.section {
            Some(s) => Some(s.clone()),
            None => None,
        },
        chunk_text: r.chunk_text.clone(),
        score: r.score,
        rank: r.rank,
    }
}

/// `x` inserted into the score-descending sequence `s`, after every element
/// whose score is at least `x`'s (so equal scores keep their order).
pub open spec fn insert_desc(s: Seq<SearchResultView>, x: SearchResultView) -> Seq<
    SearchResultView,
>
    decreases s.len(),
{
    if s.len() == 0 {
        seq![x]
    } else if s.last().score >= x.score {
        s.push(x)
    } else {
        insert_desc(s.drop_last(), x).push(s.last())
    }
}

/// The stable score-descending ordering of `s`.
pub open spec fn sort_by_score_desc(s: Seq<SearchResultView>) -> Seq<SearchResultView>
    decreases s.len(),
{
    if s.len() == 0 {
        Seq::<SearchResultView>::empty()
    } else {
        insert_desc(sort_by_score_desc(s.drop_last()), s.last())
    }
}

pub proof fn lemma_insert_desc_len(s: Seq<SearchResultView>, x: SearchResultView)
    ensures
        insert_desc(s, x).len() == s.len() + 1,
    decreases s.len(),
{
    if s.len() > 0 && s.last().score < x.score {
        lemma_insert_desc_len(s.drop_last(), x);
    }
}

/// Sorting keeps the length.
pub proof fn lemma_sort_desc_len(s: Seq<SearchResultView>)
    ensures
        sort_by_score_desc(s).len() == s.len(),
    decreases s.len(),
{
    if s.len() > 0 {
        lemma_sort_desc_len(s.drop_last());
        lemma_insert_desc_len(sort_by_score_desc(s.drop_last()), s.last());
    }
}

/// Whether the scores of `s` never increase from left to right.
pub open spec fn scores_descending(s: Seq<SearchResultView>) -> bool {
    forall|i: int, j: int| 0 <= i <= j < s.len() ==> s[i].score >= s[j].score
}

proof fn lemma_insert_desc_sorted(s: Seq<SearchResultView>, x: SearchResultView)
    requires
        scores_descending(s),
    ensures
        scores_descending(insert_desc(s, x)),
    decreases s.len(),
{
    lemma_insert_desc_len(s, x);
    if s.len() == 0 {
    } else if s.last().score >= x.score {
        assert forall|i: int, j: int|
            0 <= i <= j < s.push(x).len() implies s.push(x)[i].score >= s.push(x)[j].score by {
            if j < s.len() {
            } else {
                if i < s.len() {
                    assert(s[i].score >= s.last().score);
                }
            }
        }
    } else {
        assert(scores_descending(s.drop_last())) by {
            assert(forall|i: int, j: int|
                0 <= i <= j < s.len() - 1 ==> s.drop_last()[i] == s[i] && s.drop_last()[j] == s[j]);
        }
        lemma_insert_desc_sorted(s.drop_last(), x);
        lemma_insert_desc_len(s.drop_last(), x);
        let t = insert_desc(s.drop_last(), x);
        // every element of t is either x or an element of s.drop_last(),
        // and all of them score above s.last()
        lemma_insert_desc_elements(s.drop_last(), x);
        assert forall|i: int, j: int|
            0 <= i <= j < t.push(s.last()).len() implies t.push(s.last())[i].score >= t.push(
            s.last(),
        )[j].score by {
            if j < t.len() {
            } else {
                if i < t.len() {
                    assert(exists|m: int|
                        0 <= m < s.drop_last().len() && t[i] == s.drop_last()[m] || t[i] == x);
                    if t[i] == x {
                        assert(t[i].score >= s.last().score);
                    } else {
                        let m = choose|m: int|
                            0 <= m < s.drop_last().len() && t[i] == s.drop_last()[m];
                        assert(s[m].score >= s.last().score);
                    }
                }
            }
        }
    }
}

proof fn lemma_insert_desc_elements(s: Seq<SearchResultView>, x: SearchResultView)
    ensures
        forall|i: int|
            0 <= i < insert_desc(s, x).len() ==> (insert_desc(s, x)[i] == x || exists|m: int|
                0 <= m < s.len() && insert_desc(s, x)[i] == s[m]),
    decreases s.len(),
{
    lemma_insert_desc_len(s, x);
    if s.len() == 0 {
    } else if s.last().score >= x.score {
    } else {
        lemma_insert_desc_elements(s.drop_last(), x);
        lemma_insert_desc_len(s.drop_last(), x);
        let t = insert_desc(s.drop_last(), x);
        assert forall|i: int|
            0 <= i < t.push(s.last()).len() implies (t.push(s.last())[i] == x || exists|m: int|
                0 <= m < s.len() && t.push(s.last())[i] == s[m]) by {
            if i < t.len() {
                if t[i] != x {
                    let m = choose|m: int| 0 <= m < s.drop_last().len() && t[i] == s.drop_last()[m];
                    assert(t.push(s.last())[i] == s[m]);
                }
            } else {
                assert(t.push(s.last())[i] == s[s.len() - 1]);
            }
        }
    }
}

/// The sorted sequence's scores never increase.
pub proof fn lemma_sort_desc_sorted(s: Seq<SearchResultView>)
    ensures
        scores_descending(sort_by_score_desc(s)),
    decreases s.len(),
{
    if s.len() > 0 {
        lemma_sort_desc_sorted(s.drop_last());
        lemma_insert_desc_sorted(sort_by_score_desc(s.drop_last()), s.last());
    }
}

/// Sorting keeps exactly the original hits, as a multiset.
pub proof fn lemma_sort_desc_multiset(s: Seq<SearchResultView>)
    ensures
        sort_by_score_desc(s).to_multiset() == s.to_multiset(),
    decreases s.len(),
{
    broadcast use vstd::seq_lib::group_to_multiset_ensures;

    if s.len() > 0 {
        lemma_sort_desc_multiset(s.drop_last());
        lemma_insert_desc_multiset(sort_by_score_desc(s.drop_last()), s.last());
        assert(s =~= s.drop_last().push(s.last()));
        assert(s.drop_last().push(s.last()).to_multiset() =~= s.drop_last().to_multiset().insert(
            s.last(),
        ));
    }
}

proof fn lemma_insert_desc_multiset(s: Seq<SearchResultView>, x: SearchResultView)
    ensures
        insert_desc(s, x).to_multiset() == s.to_multiset().insert(x),
    decreases s.len(),
{
    broadcast use vstd::seq_lib::group_to_multiset_ensures;

    if s.len() == 0 {
        assert(insert_desc(s, x) =~= Seq::<SearchResultView>::empty().push(x));
        assert(s.to_multiset() =~= Multiset::<SearchResultView>::empty());
    } else if s.last().score >= x.score {
    } else {
        lemma_insert_desc_multiset(s.drop_last(), x);
        assert(s =~= s.drop_last().push(s.last()));
        assert(insert_desc(s, x).to_multiset() =~= insert_desc(s.drop_last(), x).to_multiset()
            .insert(s.last()));
        assert(s.to_multiset() =~= s.drop_last().to_multiset().insert(s.last()));
        assert(s.drop_last().to_multiset().insert(x).insert(s.last()) =~= s.drop_last()
            .to_multiset().insert(s.last()).insert(x));
    }
}

proof fn lemma_insert_desc_split(s: Seq<SearchResultView>, x: SearchResultView, pos: int)
    requires
        0 <= pos <= s.len(),
        forall|j: int| pos <= j < s.len() ==> s[j].score < x.score,
        pos > 0 ==> s[pos - 1].score >= x.score,
    ensures
        insert_desc(s, x) == s.subrange(0, pos) + seq![x] + s.subrange(pos, s.len() as int),
    decreases s.len(),
{
    if s.len() == 0 {
        assert(insert_desc(s, x) =~= s.subrange(0, 0) + seq![x] + s.subrange(0, 0));
    } else if s.last().score >= x.score {
        assert(pos == s.len());
        assert(s.subrange(0, s.len() as int) =~= s);
        assert(s.subrange(s.len() as int, s.len() as int) =~= Seq::<SearchResultView>::empty());
        assert(insert_desc(s, x) =~= s.subrange(0, pos) + seq![x] + s.subrange(
            pos,
            s.len() as int,
        ));
    } else {
        let d = s.drop_last();
        assert(pos <= d.len());
        lemma_insert_desc_split(d, x, pos);
        assert(d.subrange(0, pos) =~= s.subrange(0, pos));
        assert(insert_desc(s, x) =~= s.subrange(0, pos) + seq![x] + s.subrange(
            pos,
            s.len() as int,
        )) by {
            assert(d.subrange(pos, d.len() as int).push(s.last()) =~= s.subrange(
                pos,
                s.len() as int,
            ));
        }
    }
}

/// The hits of `rows` in stable score-descending order.
pub fn sort_results_desc(rows: &Vec<SearchResult>) -> (r: Vec<SearchResult>)
    ensures
        r.deep_view() == sort_by_score_desc(rows.deep_view()),
{
    let mut out: Vec<SearchResult> = Vec::new();
    let mut i: usize = 0;
    proof {
        assert(rows.deep_view().subrange(0, 0) =~= Seq::<SearchResultView>::empty());
    }
    while i < rows.len()
        invariant
            i <= rows.len(),
            out.deep_view() == sort_by_score_desc(rows.deep_view().subrange(0, i as int)),
        decreases rows.len() - i,
    {
        let x = copy_result(&rows[i]);
        let mut pos: usize = out.len();
        while pos > 0 && out[pos - 1].score < x.score
            invariant
                pos <= out.len(),
                x@ == rows.deep_view()[i as int],
                forall|j: int| pos <= j < out.deep_view().len() ==> out.deep_view()[j].score < x@.score,
            decreases pos,
        {
            proof {
                assert(out.deep_view()[pos - 1].score == out@[pos - 1]@.score);
            }
            pos = pos - 1;
        }
        let ghost old_dv = out.deep_view();
        proof {
            if pos > 0 {
                assert(old_dv[pos - 1].score == out@[pos as int - 1]@.score);
            }
        }
        out.insert(pos, x);
        proof {
            lemma_insert_desc_split(old_dv, x@, pos as int);
            assert(out.deep_view() =~~= old_dv.subrange(0, pos as int) + seq![x@] + old_dv.subrange(
                pos as int,
                old_dv.len() as int,
            ));
            let pre = rows.deep_view().subrange(0, i as int);
            let cur = rows.deep_view().subrange(0, i + 1 as int);
            assert(cur.drop_last() =~= pre);
            assert(cur.last() == rows.deep_view()[i as int]);
        }
        i = i + 1;
    }
    proof {
        assert(rows.deep_view().subrange(0, rows.deep_view().len() as int) =~= rows.deep_view());
    }
    out
}

/// The same hits with ranks `1..` assigned in order.
pub open spec fn with_ranks(s: Seq<SearchResultView>) -> Seq<SearchResultView> {
    Seq::new(s.len(), |i: int| SearchResultView { rank: i + 1, ..s[i] })
}

/// Assign 1-indexed ranks in order.
pub fn assign_ranks(rows: &Vec<SearchResult>) -> (r: Vec<SearchResult>)
    ensures
        r.deep_view() == with_ranks(rows.deep_view()),
{
    let mut out: Vec<SearchResult> = Vec::new();
    let mut i: usize = 0;
    while i < rows.len()
        invariant
            i <= rows.len(),
            out.deep_view() =~= with_ranks(rows.deep_view()).subrange(0, i as int),
        decreases rows.len() - i,
    {
        let mut x = copy_result(&rows[i]);
        x.rank = i + 1;
        let ghost old_dv = out.deep_view();
        out.push(x);
        proof {
            assert(out.deep_view() =~= old_dv.push(x@));
            assert(x@ == with_ranks(rows.deep_view())[i as int]);
            assert(out.deep_view() =~= with_ranks(rows.deep_view()).subrange(0, i + 1 as int));
        }
        i = i + 1;
    }
    proof {
        assert(with_ranks(rows.deep_view()).subrange(
            0,
            with_ranks(rows.deep_view()).len() as int,
        ) =~= with_ranks(rows.deep_view()));
    }
    out
}

/// The reciprocal-rank contribution, in picos: `w / (60 + rank)` for a
/// weight of `w` micros.
pub open spec fn rrf_contribution(w: int, rank: int) -> int {
    w * 1_000_000 / (60 + rank)
}

/// The hit with its score replaced.
pub open spec fn with_score(r: SearchResultView, score: int) -> SearchResultView {
    SearchResultView { score: score, ..r }
}

/// The first list's hits, each scored with its reciprocal-rank
/// contribution under weight `w`.
pub open spec fn rrf_base(list: Seq<SearchResultView>, w: int) -> Seq<SearchResultView> {
    Seq::new(list.len(), |i: int| with_score(list[i], rrf_contribution(w, i + 1)))
}

/// The first position in `s` holding the given chunk identifier.
pub open spec fn find_chunk(s: Seq<SearchResultView>, id: Seq<char>) -> Option<int>
    decreases s.len(),
{
    if s.len() == 0 {
        None
    } else if s[0].chunk_id == id {
        Some(0int)
    } else {
        match find_chunk(s.drop_first(), id) {
            Some(j) => Some(j + 1),
            None => None,
        }
    }
}

pub proof fn lemma_find_chunk_props(s: Seq<SearchResultView>, id: Seq<char>)
    ensures
        find_chunk(s, id) is Some ==> {
            let j = find_chunk(s, id)->0;
            0 <= j < s.len() && s[j].chunk_id == id && forall|m: int|
                0 <= m < j ==> s[m].chunk_id != id
        },
        find_chunk(s, id) is None ==> forall|m: int| 0 <= m < s.len() ==> s[m].chunk_id != id,
    decreases s.len(),
{
    if s.len() > 0 && s[0].chunk_id != id {
        lemma_find_chunk_props(s.drop_first(), id);
        assert(forall|m: int| 0 <= m < s.len() - 1 ==> s.drop_first()[m] == s[m + 1]);
        if find_chunk(s.drop_first(), id) is Some {
            let j = find_chunk(s.drop_first(), id)->0;
            assert(s[j + 1].chunk_id == id);
            assert forall|m: int| 0 <= m < j + 1 implies s[m].chunk_id != id by {
                if m > 0 {
                    assert(s.drop_first()[m - 1].chunk_id != id);
                }
            }
        } else {
            assert forall|m: int| 0 <= m < s.len() implies s[m].chunk_id != id by {
                if m > 0 {
                    assert(s.drop_first()[m - 1].chunk_id != id);
                }
            }
        }
    }
}

/// The second list folded into the accumulator: position `i` of the second
/// list contributes `w / (60 + next_rank + i)`, added onto an already-seen
/// chunk or opening a new entry at the end.
pub open spec fn rrf_fold(
    acc: Seq<SearchResultView>,
    list: Seq<SearchResultView>,
    w: int,
    next_rank: int,
) -> Seq<SearchResultView>
    decreases list.len(),
{
    if list.len() == 0 {
        acc
    } else {
        let x = list[0];
        let c = rrf_contribution(w, next_rank);
        let acc2 = match find_chunk(acc, x.chunk_id) {
            Some(j) => acc.update(j, with_score(acc[j], acc[j].score + c)),
            None => acc.push(with_score(x, c)),
        };
        rrf_fold(acc2, list.drop_first(), w, next_rank + 1)
    }
}

/// The fused candidate set: both lists' reciprocal-rank contributions
/// accumulated by chunk identifier, in first-seen order.
pub open spec fn rrf_fused(
    bm25: Seq<SearchResultView>,
    vector: Seq<SearchResultView>,
    w_b: int,
    w_v: int,
) -> Seq<SearchResultView> {
    rrf_fold(rrf_base(bm25, w_b), vector, w_v, 1)
}

/// The first `k` elements (all of them when fewer).
pub open spec fn take_k(s: Seq<SearchResultView>, k: int) -> Seq<SearchResultView> {
    if k < s.len() {
        s.subrange(0, k)
    } else {
        s
    }
}

/// Reciprocal rank fusion: accumulate, sort by fused score (stable), keep
/// the top `k`, and assign 1-indexed ranks.
pub open spec fn rrf_spec(
    bm25: Seq<SearchResultView>,
    vector: Seq<SearchResultView>,
    k: int,
    w_b: int,
    w_v: int,
) -> Seq<SearchResultView> {
    with_ranks(take_k(sort_by_score_desc(rrf_fused(bm25, vector, w_b, w_v)), k))
}

/// An upper bound on any single reciprocal-rank contribution:
/// `1.0 * 1e6 * 1e6 / 61`, rounded down.
pub const RRF_MAX_CONTRIBUTION: i64 = 16_393_442_622;

proof fn lemma_contribution_bounds(w: int, rank: int)
    requires
        0 <= w <= 1_000_000,
        1 <= rank,
    ensures
        0 <= rrf_contribution(w, rank) <= RRF_MAX_CONTRIBUTION as int,
{
    assert(0 <= w * 1_000_000 <= 1_000_000_000_000) by (nonlinear_arith)
        requires
            0 <= w <= 1_000_000,
    ;
    assert(w * 1_000_000 / (60 + rank) <= 16_393_442_622 && w * 1_000_000 / (60 + rank) >= 0)
        by (nonlinear_arith)
        requires
            0 <= w * 1_000_000 <= 1_000_000_000_000,
            61 <= 60 + rank,
    ;
}

/// The reciprocal-rank contribution of one list position, in picos.
fn contribution(w: u64, rank: u64) -> (c: i64)
    requires
        w <= 1_000_000,
        1 <= rank <= 1_000_000,
    ensures
        c as int == rrf_contribution(w as int, rank as int),
        0 <= c <= RRF_MAX_CONTRIBUTION,
{
    proof {
        lemma_contribution_bounds(w as int, rank as int);
    }
    ((w * 1_000_000) / (60 + rank)) as i64
}

/// Combine two ranked candidate lists with reciprocal rank fusion: each
/// hit contributes `weight / (60 + rank)` per list it appears in, scores
/// accumulate by chunk identifier, and the top `k` by fused score are
/// returned with fresh 1-indexed ranks. Fused scores are in picos.
pub fn reciprocal_rank_fusion(
    bm25_results: &Vec<SearchResult>,
    vector_results: &Vec<SearchResult>,
    k: usize,
    bm25_weight_micros: u64,
    vector_weight_micros: u64,
) -> (r: Vec<SearchResult>)
    requires
        bm25_weight_micros <= 1_000_000,
        vector_weight_micros <= 1_000_000,
        bm25_results@.len() <= 100_000,
        vector_results@.len() <= 100_000,
    ensures
        r.deep_view() == rrf_spec(
            bm25_results.deep_view(),
            vector_results.deep_view(),
            k as int,
            bm25_weight_micros as int,
            vector_weight_micros as int,
        ),
        forall|j: int|
            0 <= j < r.deep_view().len() ==> 0 <= #[trigger] r.deep_view()[j].score <= (1
                + vector_results.deep_view().len()) * RRF_MAX_CONTRIBUTION as int,
        scores_descending(r.deep_view()),
{
    let ghost bdv = bm25_results.deep_view();
    let ghost vdv = vector_results.deep_view();
    let ghost wbi = bm25_weight_micros as int;
    let ghost wvi = vector_weight_micros as int;
    let mut fused: Vec<SearchResult> = Vec::new();
    let mut i: usize = 0;
    proof {
        assert(rrf_base(bdv, wbi).subrange(0, 0) =~= Seq::<SearchResultView>::empty());
    }
    while i < bm25_results.len()
        invariant
            i <= bm25_results.len(),
            bdv == bm25_results.deep_view(),
            wbi == bm25_weight_micros as int,
            bm25_weight_micros <= 1_000_000,
            bm25_results@.len() <= 100_000,
            fused.deep_view() == rrf_base(bdv, wbi).subrange(0, i as int),
            forall|j: int|
                0 <= j < fused.deep_view().len() ==> 0 <= #[trigger] fused.deep_view()[j].score
                    <= RRF_MAX_CONTRIBUTION as int,
        decreases bm25_results.len() - i,
    {
        let mut x = copy_result(&bm25_results[i]);
        let c = contribution(bm25_weight_micros, (i as u64) + 1);
        x.score = c;
        let ghost old_dv = fused.deep_view();
        fused.push(x);
        proof {
            assert(fused.deep_view() =~= old_dv.push(x@));
            assert(x@ == rrf_base(bdv, wbi)[i as int]);
            assert(fused.deep_view() =~= rrf_base(bdv, wbi).subrange(0, i + 1 as int));
        }
        i = i + 1;
    }
    proof {
        assert(rrf_base(bdv, wbi).subrange(0, rrf_base(bdv, wbi).len() as int) =~= rrf_base(
            bdv,
            wbi,
        ));
    }
    let mut v: usize = 0;
    proof {
        assert(vdv.subrange(0, vdv.len() as int) =~= vdv);
    }
    while v < vector_results.len()
        invariant
            v <= vector_results.len(),
            vdv == vector_results.deep_view(),
            wvi == vector_weight_micros as int,
            vector_weight_micros <= 1_000_000,
            vector_results@.len() <= 100_000,
            rrf_fold(fused.deep_view(), vdv.subrange(v as int, vdv.len() as int), wvi, v as int
                + 1) == rrf_fold(rrf_base(bdv, wbi), vdv, wvi, 1),
            forall|j: int|
                0 <= j < fused.deep_view().len() ==> 0 <= #[trigger] fused.deep_view()[j].score <= (
                1 + v as int) * RRF_MAX_CONTRIBUTION as int,
            fused.deep_view().len() <= bdv.len() + v as int,
        decreases vector_results.len() - v,
    {
        let x = &vector_results[v];
        let c = contribution(vector_weight_micros, (v as u64) + 1);
        // look for an entry with the same chunk identifier
        let mut j: usize = 0;
        let mut found: Option<usize> = None;
        while j < fused.len()
            invariant_except_break
                j <= fused.len(),
                found is None,
                x@ == vdv[v as int],
                forall|m: int| 0 <= m < j ==> fused.deep_view()[m].chunk_id != x@.chunk_id,
            ensures
                found is Some ==> found->0 < fused@.len() && fused.deep_view()[found->0 as int].chunk_id
                    == x@.chunk_id && forall|m: int|
                    0 <= m < found->0 ==> fused.deep_view()[m].chunk_id != x@.chunk_id,
                found is None ==> forall|m: int|
                    0 <= m < fused@.len() ==> fused.deep_view()[m].chunk_id != x@.chunk_id,
            decreases fused.len() - j,
        {
            if fused[j].chunk_id.eq(&x.chunk_id) {
                found = Some(j);
                break ;
            }
            proof {
                assert(fused.deep_view()[j as int].chunk_id == fused@[j as int]@.chunk_id);
            }
            j = j + 1;
        }
        let ghost old_dv = fused.deep_view();
        let ghost tail = vdv.subrange(v as int, vdv.len() as int);
        let ghost c_int = rrf_contribution(wvi, v as int + 1);
        proof {
            lemma_find_chunk_props(old_dv, x@.chunk_id);
            assert(tail[0] == vdv[v as int]);
            assert(tail.drop_first() =~= vdv.subrange(v + 1, vdv.len() as int));
        }
        match found {
            Some(idx) => {
                proof {
                    assert(find_chunk(old_dv, x@.chunk_id) is Some) by {
                        if find_chunk(old_dv, x@.chunk_id) is None {
                            assert(old_dv[idx as int].chunk_id == x@.chunk_id);
                        }
                    }
                    assert(find_chunk(old_dv, x@.chunk_id)->0 == idx as int) by {
                        let fj = find_chunk(old_dv, x@.chunk_id)->0;
                        if fj < idx as int {
                            assert(old_dv[fj].chunk_id != x@.chunk_id);
                        }
                        if fj > idx as int {
                            assert(old_dv[idx as int].chunk_id != x@.chunk_id);
                        }
                    }
                }
                let mut entry = fused.remove(idx);
                entry.score = entry.score + c;
                fused.insert(idx, entry);
                proof {
                    assert(fused.deep_view() =~~= old_dv.update(
                        idx as int,
                        with_score(old_dv[idx as int], old_dv[idx as int].score + c_int),
                    ));
                }
            },
            None => {
                let mut nx = copy_result(x);
                nx.score = c;
                proof {
                    assert(find_chunk(old_dv, x@.chunk_id) is None) by {
                        if find_chunk(old_dv, x@.chunk_id) is Some {
                            let fj = find_chunk(old_dv, x@.chunk_id)->0;
                            assert(old_dv[fj].chunk_id != x@.chunk_id);
                        }
                    }
                }
                fused.push(nx);
                proof {
                    assert(nx@ =~~= with_score(vdv[v as int], c_int));
                    assert(fused.deep_view() =~= old_dv.push(with_score(vdv[v as int], c_int)));
                }
            },
        }
        proof {
            let acc2 = match find_chunk(old_dv, x@.chunk_id) {
                Some(jj) => old_dv.update(jj, with_score(old_dv[jj], old_dv[jj].score + c_int)),
                None => old_dv.push(with_score(tail[0], c_int)),
            };
            assert(fused.deep_view() =~~= acc2);
            assert(rrf_fold(old_dv, tail, wvi, v as int + 1) == rrf_fold(
                acc2,
                tail.drop_first(),
                wvi,
                v as int + 2,
            ));
            assert forall|jj: int|
                0 <= jj < fused.deep_view().len() implies 0 <= #[trigger] fused.deep_view()[jj].score
                <= (2 + v as int) * RRF_MAX_CONTRIBUTION as int by {
                lemma_contribution_bounds(wvi, v as int + 1);
                if jj < old_dv.len() {
                    assert(old_dv[jj].score <= (1 + v as int) * RRF_MAX_CONTRIBUTION as int);
                }
            }
        }
        v = v + 1;
    }
    proof {
        assert(vdv.subrange(vdv.len() as int, vdv.len() as int) =~= Seq::<SearchResultView>::empty());
    }
    let sorted = sort_results_desc(&fused);
    proof {
        lemma_sort_desc_multiset(fused.deep_view());
        broadcast use vstd::seq_lib::group_to_multiset_ensures;
        assert forall|j: int|
            0 <= j < sorted.deep_view().len() implies 0 <= #[trigger] sorted.deep_view()[j].score
            <= (1 + vdv.len()) * RRF_MAX_CONTRIBUTION as int by {
            assert(sorted.deep_view().to_multiset().contains(sorted.deep_view()[j]));
            assert(fused.deep_view().to_multiset().contains(sorted.deep_view()[j]));
            assert(fused.deep_view().contains(sorted.deep_view()[j]));
            let m = choose|m: int|
                0 <= m < fused.deep_view().len() && fused.deep_view()[m] == sorted.deep_view()[j];
        }
    }
    let mut sorted = sorted;
    if k < sorted.len() {
        sorted.truncate(k);
        proof {
            assert(sorted.deep_view() =~~= take_k(
                sort_by_score_desc(rrf_fused(bdv, vdv, wbi, wvi)),
                k as int,
            ));
        }
    } else {
        proof {
            lemma_sort_desc_len(rrf_fused(bdv, vdv, wbi, wvi));
        }
    }
    let ranked = assign_ranks(&sorted);
    proof {
        lemma_sort_desc_sorted(rrf_fused(bdv, vdv, wbi, wvi));
        assert(forall|j: int|
            0 <= j < ranked.deep_view().len() ==> #[trigger] ranked.deep_view()[j].score
                == sorted.deep_view()[j].score);
        assert(scores_descending(ranked.deep_view()));
    }
    ranked
}

/// Whether `v` (the second list) contributed `v`'s scores: the range of a
/// fused, sorted candidate set is its top score minus its bottom score.
pub open spec fn fused_range(s: Seq<SearchResultView>) -> int {
    if s.len() == 0 {
        0
    } else {
        s[0].score - s[s.len() - 1].score
    }
}

/// The candidate set min-max normalized: the top score maps to one unit
/// (in picos), the bottom to zero; a zero range leaves scores untouched.
pub open spec fn minmax_normalized(s: Seq<SearchResultView>) -> Seq<SearchResultView> {
    if s.len() == 0 {
        s
    } else {
        let mn = s[s.len() - 1].score;
        let range = fused_range(s);
        if range > 0 {
            s.map_values(|r: SearchResultView| with_score(r, (r.score - mn) * 1_000_000_000_000 / range))
        } else {
            s
        }
    }
}

/// The threshold that the fused scores are held to, in picos: the caller's
/// threshold, lowered to at most 0.2 when the raw score range is tight
/// (below 0.1) to protect recall.
pub open spec fn effective_threshold_picos(range: int, min_score_micros: int) -> int {
    if range < 100_000_000_000 {
        if min_score_micros * 1_000_000 < 200_000_000_000 {
            min_score_micros * 1_000_000
        } else {
            200_000_000_000
        }
    } else {
        min_score_micros * 1_000_000
    }
}

/// The predicate keeping hits whose score reaches `thr`.
pub open spec fn meets_threshold_pred(thr: int) -> spec_fn(SearchResultView) -> bool {
    |r: SearchResultView| r.score >= thr
}

/// The whole hybrid fusion pipeline on two candidate lists: reciprocal rank
/// fusion to the top `k`, min-max normalization, and the adaptive threshold
/// filter. Survivors keep their 1-indexed fused ranks.
pub open spec fn fuse_hybrid_spec(
    bm25: Seq<SearchResultView>,
    vector: Seq<SearchResultView>,
    k: int,
    min_score_micros: int,
    w_b: int,
    w_v: int,
) -> Seq<SearchResultView> {
    let fused = rrf_spec(bm25, vector, k, w_b, w_v);
    let range = fused_range(fused);
    minmax_normalized(fused).filter(
        meets_threshold_pred(effective_threshold_picos(range, min_score_micros)),
    )
}

/// Fuse the two candidate lists, normalize the fused scores to `[0, 1]`
/// (in picos), and drop everything under the adaptive threshold.
pub fn fuse_hybrid(
    bm25_results: &Vec<SearchResult>,
    vector_results: &Vec<SearchResult>,
    k: usize,
    min_score_micros: u64,
    bm25_weight_micros: u64,
    vector_weight_micros: u64,
) -> (r: Vec<SearchResult>)
    requires
        bm25_weight_micros <= 1_000_000,
        vector_weight_micros <= 1_000_000,
        min_score_micros <= 1_000_000,
        bm25_results@.len() <= 100_000,
        vector_results@.len() <= 100_000,
    ensures
        r.deep_view() == fuse_hybrid_spec(
            bm25_results.deep_view(),
            vector_results.deep_view(),
            k as int,
            min_score_micros as int,
            bm25_weight_micros as int,
            vector_weight_micros as int,
        ),
{
    let fused = reciprocal_rank_fusion(
        bm25_results,
        vector_results,
        k,
        bm25_weight_micros,
        vector_weight_micros,
    );
    let ghost fdv = fused.deep_view();
    let ghost score_cap = (1 + vector_results.deep_view().len()) * RRF_MAX_CONTRIBUTION as int;
    proof {
        if fdv.len() > 0 {
            assert(fdv[0].score == fused@[0]@.score);
            assert(fdv[fdv.len() - 1].score == fused@[fdv.len() - 1]@.score);
            assert(0 <= fdv[0].score <= score_cap);
            assert(0 <= fdv[fdv.len() - 1].score <= score_cap);
        }
    }
    let range: i64 = if fused.len() == 0 {
        0
    } else {
        fused[0].score - fused[fused.len() - 1].score
    };
    proof {
        assert(range as int == fused_range(fdv));
    }
    let normalized: Vec<SearchResult> = if fused.len() > 0 && range > 0 {
        let mn: i64 = fused[fused.len() - 1].score;
        let mut out: Vec<SearchResult> = Vec::new();
        let mut i: usize = 0;
        proof {
            let target = minmax_normalized(fdv);
            assert(out.deep_view() =~= target.subrange(0, 0));
        }
        while i < fused.len()
            invariant
                i <= fused.len(),
                fdv == fused.deep_view(),
                fdv.len() > 0,
                mn as int == fdv[fdv.len() - 1].score,
                range as int == fused_range(fdv),
                range > 0,
                forall|j: int|
                    0 <= j < fdv.len() ==> 0 <= #[trigger] fdv[j].score <= score_cap,
                score_cap <= 100_001 * RRF_MAX_CONTRIBUTION as int,
                scores_descending(fdv),
                out.deep_view() == minmax_normalized(fdv).subrange(0, i as int),
            decreases fused.len() - i,
        {
            let mut x = copy_result(&fused[i]);
            proof {
                assert(fdv[i as int] == fused@[i as int]@);
                assert(x@ == fdv[i as int]);
                assert(fdv[i as int].score >= fdv[fdv.len() - 1].score);
                assert(fdv[0].score >= fdv[i as int].score);
                assert(x@.score == fdv[i as int].score);
            }
            let ghost x0 = x@;
            let scaled: i128 = (x.score as i128 - mn as i128) * 1_000_000_000_000i128 / (
            range as i128);
            proof {
                assert(0 <= (x@.score - mn as int) * 1_000_000_000_000 / (range as int)
                    <= 1_000_000_000_000) by (nonlinear_arith)
                    requires
                        0 <= x@.score - mn as int <= range as int,
                        range as int > 0,
                ;
                assert(x@.score - mn as int <= range as int);
            }
            proof {
                assert(scaled as int == (fdv[i as int].score - mn as int) * 1_000_000_000_000 / (
                range as int));
                assert(0 <= scaled as int <= 1_000_000_000_000);
            }
            x.score = scaled as i64;
            let ghost old_dv = out.deep_view();
            out.push(x);
            proof {
                let target = minmax_normalized(fdv);
                assert(target[i as int] == with_score(
                    fdv[i as int],
                    (fdv[i as int].score - fdv[fdv.len() - 1].score) * 1_000_000_000_000
                        / fused_range(fdv),
                ));
                assert(x@.score == target[i as int].score);
                assert(x@ == SearchResultView { score: scaled as i64 as int, ..x0 });
                assert(x@ =~~= target[i as int]);
                assert(out.deep_view() =~~= old_dv.push(x@));
                assert(out.deep_view() =~= target.subrange(0, i + 1 as int));
            }
            i = i + 1;
        }
        proof {
            let target = minmax_normalized(fdv);
            assert(target.subrange(0, target.len() as int) =~= target);
        }
        out
    } else {
        proof {
            assert(minmax_normalized(fdv) =~= fdv);
        }
        fused
    };
    let thr: i64 = {
        let base: u64 = min_score_micros * 1_000_000;
        if range < 100_000_000_000 {
            if base < 200_000_000_000 {
                base as i64
            } else {
                200_000_000_000
            }
        } else {
            base as i64
        }
    };
    proof {
        assert(thr as int == effective_threshold_picos(range as int, min_score_micros as int));
    }
    let ghost ndv = normalized.deep_view();
    let mut kept: Vec<SearchResult> = Vec::new();
    let mut i: usize = 0;
    proof {
        assert(kept.deep_view() =~= ndv.subrange(0, 0).filter(meets_threshold_pred(thr as int)));
    }
    while i < normalized.len()
        invariant
            i <= normalized.len(),
            ndv == normalized.deep_view(),
            kept.deep_view() == ndv.subrange(0, i as int).filter(meets_threshold_pred(thr as int)),
        decreases normalized.len() - i,
    {
        proof {
            let pre = ndv.subrange(0, i as int);
            let cur = ndv.subrange(0, i + 1 as int);
            assert(cur.drop_last() =~= pre);
            assert(cur.last() == ndv[i as int]);
            reveal_with_fuel(Seq::filter, 1);
            assert(meets_threshold_pred(thr as int)(ndv[i as int]) == (ndv[i as int].score
                >= thr as int));
            assert(ndv[i as int].score == normalized@[i as int]@.score);
        }
        if normalized[i].score >= thr {
            let x = copy_result(&normalized[i]);
            let ghost old_dv = kept.deep_view();
            kept.push(x);
            proof {
                assert(kept.deep_view() =~= old_dv.push(ndv[i as int]));
            }
        }
        i = i + 1;
    }
    proof {
        assert(ndv.subrange(0, ndv.len() as int) =~= ndv);
    }
    kept
}

/// A strictly larger weight gives a strictly larger rank-one contribution.
pub proof fn lemma_rrf_contribution_strict(w_small: int, w_big: int)
    requires
        0 <= w_small < w_big,
    ensures
        rrf_contribution(w_big, 1) > rrf_contribution(w_small, 1),
{
    let a = w_small * 1_000_000;
    let b = w_big * 1_000_000;
    assert(w_big * 1_000_000 >= w_small * 1_000_000 + 1_000_000) by (nonlinear_arith)
        requires
            w_small < w_big,
    ;
    assert(w_small * 1_000_000 >= 0) by (nonlinear_arith)
        requires
            w_small >= 0,
    ;
    let qa = a / 61;
    vstd::arithmetic::div_mod::lemma_fundamental_div_mod(a, 61);
    assert(61 * qa <= a);
    assert(qa >= 0);
    let t = (qa + 16393) * 61;
    assert((qa + 16393) * 61 == 61 * qa + 999973) by (nonlinear_arith);
    assert(t <= b);
    vstd::arithmetic::div_mod::lemma_div_by_multiple(qa + 16393, 61);
    assert(t / 61 == qa + 16393);
    vstd::arithmetic::div_mod::lemma_div_is_ordered(t, b, 61);
    assert(b / 61 >= qa + 16393);
}

/// With one candidate from each search, both at rank one and with distinct
/// identifiers, fusion orders them by weight: the lexical candidate stands
/// first exactly because its weight is strictly larger.
pub proof fn lemma_rrf_weight_order(
    x: SearchResultView,
    y: SearchResultView,
    k: int,
    w_b: int,
    w_v: int,
)
    requires
        0 <= w_v < w_b <= 1_000_000,
        x.chunk_id != y.chunk_id,
        k >= 2,
    ensures
        rrf_spec(seq![x], seq![y], k, w_b, w_v).len() == 2,
        rrf_spec(seq![x], seq![y], k, w_b, w_v)[0].chunk_id == x.chunk_id,
        rrf_spec(seq![x], seq![y], k, w_b, w_v)[0].rank == 1,
        rrf_spec(seq![x], seq![y], k, w_b, w_v)[1].chunk_id == y.chunk_id,
        rrf_spec(seq![x], seq![y], k, w_b, w_v)[1].rank == 2,
{
    let cb = rrf_contribution(w_b, 1);
    let cv = rrf_contribution(w_v, 1);
    let xb = with_score(x, cb);
    let yv = with_score(y, cv);
    assert(rrf_base(seq![x], w_b) =~= seq![xb]);
    assert(seq![y].drop_first() =~= Seq::<SearchResultView>::empty());
    assert(find_chunk(seq![xb], y.chunk_id) is None) by {
        reveal_with_fuel(find_chunk, 3);
        assert(seq![xb].drop_first() =~= Seq::<SearchResultView>::empty());
        assert(xb.chunk_id == x.chunk_id);
    }
    assert(rrf_fused(seq![x], seq![y], w_b, w_v) =~= seq![xb, yv]) by {
        reveal_with_fuel(rrf_fold, 3);
        assert(seq![y][0] == y);
        assert(seq![xb].push(yv) =~= seq![xb, yv]);
        assert(seq![y].drop_first() =~= Seq::<SearchResultView>::empty());
    }
    assert(cb > cv) by {
        lemma_rrf_contribution_strict(w_v, w_b);
    }
    let sorted = sort_by_score_desc(seq![xb, yv]);
    reveal_with_fuel(sort_by_score_desc, 3);
    reveal_with_fuel(insert_desc, 3);
    assert(seq![xb, yv].drop_last() =~= seq![xb]);
    assert(seq![xb].drop_last() =~= Seq::<SearchResultView>::empty());
    assert(sort_by_score_desc(seq![xb]) =~= insert_desc(Seq::<SearchResultView>::empty(), xb));
    assert(sort_by_score_desc(seq![xb]) =~= seq![xb]);
    assert(sorted =~= insert_desc(seq![xb], yv));
    assert(sorted =~= seq![xb].push(yv));
    assert(sorted =~= seq![xb, yv]);
    assert(take_k(sorted, k) == sorted);
    assert(rrf_spec(seq![x], seq![y], k, w_b, w_v) =~= with_ranks(seq![xb, yv]));
}

/// The top `k` hits by score: drop everything under `min_score`, order by
/// score (stable), keep the first `k`, and assign 1-indexed ranks. Both
/// the cached and the full-scan vector paths rank through this one
/// function, so equal candidates give identical rankings.
pub open spec fn top_k_spec(s: Seq<SearchResultView>, k: int, min_score: int) -> Seq<
    SearchResultView,
> {
    with_ranks(take_k(sort_by_score_desc(s.filter(meets_threshold_pred(min_score))), k))
}

/// Keep the hits scoring at least `min_score`, best first, at most `k`,
/// ranked from one.
pub fn top_k_by_score(rows: &Vec<SearchResult>, k: usize, min_score: i64) -> (r: Vec<
    SearchResult,
>)
    ensures
        r.deep_view() == top_k_spec(rows.deep_view(), k as int, min_score as int),
{
    let ghost dv = rows.deep_view();
    let mut kept: Vec<SearchResult> = Vec::new();
    let mut i: usize = 0;
    proof {
        assert(kept.deep_view() =~= dv.subrange(0, 0).filter(
            meets_threshold_pred(min_score as int),
        ));
    }
    while i < rows.len()
        invariant
            i <= rows@.len(),
            dv == rows.deep_view(),
            kept.deep_view() == dv.subrange(0, i as int).filter(
                meets_threshold_pred(min_score as int),
            ),
        decreases rows@.len() - i,
    {
        proof {
            let pre = dv.subrange(0, i as int);
            let cur = dv.subrange(0, i + 1 as int);
            assert(cur.drop_last() =~= pre);
            assert(cur.last() == dv[i as int]);
            reveal_with_fuel(Seq::filter, 1);
            assert(meets_threshold_pred(min_score as int)(dv[i as int]) == (dv[i as int].score
                >= min_score as int));
            assert(dv[i as int].score == rows@[i as int]@.score);
        }
        if rows[i].score >= min_score {
            let x = copy_result(&rows[i]);
            let ghost old_dv = kept.deep_view();
            kept.push(x);
            proof {
                assert(kept.deep_view() =~= old_dv.push(dv[i as int]));
            }
        }
        i = i + 1;
    }
    proof {
        assert(dv.subrange(0, dv.len() as int) =~= dv);
    }
    let sorted = sort_results_desc(&kept);
    let mut sorted = sorted;
    if k < sorted.len() {
        sorted.truncate(k);
        proof {
            assert(sorted.deep_view() =~~= take_k(
                sort_by_score_desc(dv.filter(meets_threshold_pred(min_score as int))),
                k as int,
            ));
        }
    } else {
        proof {
            lemma_sort_desc_len(dv.filter(meets_threshold_pred(min_score as int)));
        }
    }
    assign_ranks(&sorted)
}

/// Whether some hit in `s` carries the given chunk identifier.
pub open spec fn has_chunk(s: Seq<SearchResultView>, id: Seq<char>) -> bool {
    exists|i: int| 0 <= i < s.len() && (#[trigger] s[i]).chunk_id == id
}

proof fn lemma_rrf_fold_ids(
    acc: Seq<SearchResultView>,
    list: Seq<SearchResultView>,
    w: int,
    next_rank: int,
    id: Seq<char>,
)
    ensures
        has_chunk(rrf_fold(acc, list, w, next_rank), id) <==> has_chunk(acc, id) || has_chunk(
            list,
            id,
        ),
    decreases list.len(),
{
    if list.len() == 0 {
    } else {
        let x = list[0];
        let c = rrf_contribution(w, next_rank);
        let acc2 = match find_chunk(acc, x.chunk_id) {
            Some(j) => acc.update(j, with_score(acc[j], acc[j].score + c)),
            None => acc.push(with_score(x, c)),
        };
        lemma_find_chunk_props(acc, x.chunk_id);
        lemma_rrf_fold_ids(acc2, list.drop_first(), w, next_rank + 1, id);
        // one step changes scores or appends the head; the identifiers of
        // the accumulator gain exactly the head's
        assert(has_chunk(acc2, id) <==> has_chunk(acc, id) || x.chunk_id == id) by {
            match find_chunk(acc, x.chunk_id) {
                Some(j) => {
                    assert(forall|i: int|
                        0 <= i < acc.len() ==> (#[trigger] acc2[i]).chunk_id == acc[i].chunk_id);
                    if x.chunk_id == id {
                        assert(acc2[j].chunk_id == id);
                    }
                    if has_chunk(acc2, id) {
                        let i = choose|i: int|
                            0 <= i < acc2.len() && (#[trigger] acc2[i]).chunk_id == id;
                        assert(acc[i].chunk_id == id);
                    }
                    if has_chunk(acc, id) {
                        let i = choose|i: int|
                            0 <= i < acc.len() && (#[trigger] acc[i]).chunk_id == id;
                        assert(acc2[i].chunk_id == id);
                    }
                },
                None => {
                    if has_chunk(acc2, id) {
                        let i = choose|i: int|
                            0 <= i < acc2.len() && (#[trigger] acc2[i]).chunk_id == id;
                        if i < acc.len() {
                            assert(acc[i].chunk_id == id);
                        } else {
                            assert(x.chunk_id == id);
                        }
                    }
                    if has_chunk(acc, id) {
                        let i = choose|i: int|
                            0 <= i < acc.len() && (#[trigger] acc[i]).chunk_id == id;
                        assert(acc2[i].chunk_id == id);
                    }
                    if x.chunk_id == id {
                        assert(acc2[acc.len() as int].chunk_id == id);
                    }
                },
            }
        }
        assert(has_chunk(list, id) <==> x.chunk_id == id || has_chunk(list.drop_first(), id)) by {
            if has_chunk(list, id) {
                let i = choose|i: int|
                    0 <= i < list.len() && (#[trigger] list[i]).chunk_id == id;
                if i > 0 {
                    assert(list.drop_first()[i - 1].chunk_id == id);
                }
            }
            if has_chunk(list.drop_first(), id) {
                let i = choose|i: int|
                    0 <= i < list.drop_first().len() && (#[trigger] list.drop_first()[i]).chunk_id
                        == id;
                assert(list[i + 1].chunk_id == id);
            }
        }
    }
}

/// Fusion is commutative in the content of its candidate lists: the fused
/// set holds a chunk exactly when one of the two lists holds it (while
/// the ranking, by the weight-order law, is not symmetric).
pub proof fn lemma_rrf_content_union(
    bm25: Seq<SearchResultView>,
    vector: Seq<SearchResultView>,
    w_b: int,
    w_v: int,
    id: Seq<char>,
)
    ensures
        has_chunk(rrf_fused(bm25, vector, w_b, w_v), id) <==> has_chunk(bm25, id) || has_chunk(
            vector,
            id,
        ),
{
    let base = rrf_base(bm25, w_b);
    lemma_rrf_fold_ids(base, vector, w_v, 1, id);
    assert(has_chunk(base, id) <==> has_chunk(bm25, id)) by {
        if has_chunk(base, id) {
            let i = choose|i: int| 0 <= i < base.len() && (#[trigger] base[i]).chunk_id == id;
            assert(bm25[i].chunk_id == id);
        }
        if has_chunk(bm25, id) {
            let i = choose|i: int| 0 <= i < bm25.len() && (#[trigger] bm25[i]).chunk_id == id;
            assert(base[i].chunk_id == id);
        }
    }
}

} // verus!
