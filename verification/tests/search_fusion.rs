use ragmcp::search::{
    fuse_hybrid, reciprocal_rank_fusion, top_k_by_score, SearchResult, RRF_UNIT,
};

// Helper function to create a test SearchResult; scores are micros.
fn create_result(chunk_id: &str, doc_path: &str, score: i64, rank: usize) -> SearchResult {
    SearchResult {
        chunk_id: chunk_id.to_string(),
        doc_path: doc_path.to_string(),
        doc_type: "test".to_string(),
        agent_name: None,
        section: None,
        chunk_text: "test content".to_string(),
        score,
        rank,
    }
}

#[test]
fn test_rrf_basic_fusion_with_overlap() {
    let bm25_results = vec![
        create_result("chunk1", "doc1.md", 900_000, 1),
        create_result("chunk2", "doc2.md", 800_000, 2),
        create_result("chunk3", "doc3.md", 700_000, 3),
    ];

    let vector_results = vec![
        create_result("chunk2", "doc2.md", 950_000, 1),
        create_result("chunk1", "doc1.md", 850_000, 2),
        create_result("chunk4", "doc4.md", 750_000, 3),
    ];

    let fused = reciprocal_rank_fusion(&bm25_results, &vector_results, 5, 500_000, 500_000);

    // Chunk1 and chunk2 should rank highest (appear in both)
    assert_eq!(fused.len(), 4); // 4 unique chunks
    assert!(fused[0].chunk_id == "chunk1" || fused[0].chunk_id == "chunk2");
    assert!(fused[1].chunk_id == "chunk1" || fused[1].chunk_id == "chunk2");

    // Verify ranks are 1-indexed
    assert_eq!(fused[0].rank, 1);
    assert_eq!(fused[1].rank, 2);
    assert_eq!(fused[2].rank, 3);
    assert_eq!(fused[3].rank, 4);
}

#[test]
fn test_rrf_no_overlap() {
    let bm25_results = vec![
        create_result("chunk1", "doc1.md", 900_000, 1),
        create_result("chunk2", "doc2.md", 800_000, 2),
    ];

    let vector_results = vec![
        create_result("chunk3", "doc3.md", 950_000, 1),
        create_result("chunk4", "doc4.md", 850_000, 2),
    ];

    let fused = reciprocal_rank_fusion(&bm25_results, &vector_results, 5, 500_000, 500_000);

    assert_eq!(fused.len(), 4);
    for i in 1..fused.len() {
        assert!(fused[i - 1].score >= fused[i].score);
    }
}

#[test]
fn test_rrf_empty_bm25() {
    let bm25_results = vec![];
    let vector_results = vec![
        create_result("chunk1", "doc1.md", 900_000, 1),
        create_result("chunk2", "doc2.md", 800_000, 2),
    ];

    let fused = reciprocal_rank_fusion(&bm25_results, &vector_results, 5, 500_000, 500_000);

    assert_eq!(fused.len(), 2);
    assert_eq!(fused[0].chunk_id, "chunk1");
    assert_eq!(fused[1].chunk_id, "chunk2");
}

#[test]
fn test_rrf_empty_vector() {
    let bm25_results = vec![
        create_result("chunk1", "doc1.md", 900_000, 1),
        create_result("chunk2", "doc2.md", 800_000, 2),
    ];
    let vector_results = vec![];

    let fused = reciprocal_rank_fusion(&bm25_results, &vector_results, 5, 500_000, 500_000);

    assert_eq!(fused.len(), 2);
    assert_eq!(fused[0].chunk_id, "chunk1");
    assert_eq!(fused[1].chunk_id, "chunk2");
}

#[test]
fn test_rrf_both_empty() {
    let bm25_results = vec![];
    let vector_results = vec![];

    let fused = reciprocal_rank_fusion(&bm25_results, &vector_results, 5, 500_000, 500_000);

    assert_eq!(fused.len(), 0);
}

#[test]
fn test_rrf_weighted_fusion() {
    let bm25_results = vec![create_result("chunk1", "doc1.md", 900_000, 1)];
    let vector_results = vec![create_result("chunk2", "doc2.md", 900_000, 1)];

    // Heavily favor the lexical list
    let fused_bm25 = reciprocal_rank_fusion(&bm25_results, &vector_results, 5, 900_000, 100_000);

    // Heavily favor the semantic list
    let fused_vector = reciprocal_rank_fusion(&bm25_results, &vector_results, 5, 100_000, 900_000);

    assert!(fused_bm25[0].chunk_id == "chunk1");
    assert!(fused_bm25[0].score > fused_bm25[1].score);

    assert!(fused_vector[0].chunk_id == "chunk2");
    assert!(fused_vector[0].score > fused_vector[1].score);
}

#[test]
fn test_rrf_top_k_limiting() {
    let bm25_results = vec![
        create_result("chunk1", "doc1.md", 900_000, 1),
        create_result("chunk2", "doc2.md", 800_000, 2),
        create_result("chunk3", "doc3.md", 700_000, 3),
    ];
    let vector_results = vec![
        create_result("chunk4", "doc4.md", 950_000, 1),
        create_result("chunk5", "doc5.md", 850_000, 2),
    ];

    let fused = reciprocal_rank_fusion(&bm25_results, &vector_results, 3, 500_000, 500_000);

    assert_eq!(fused.len(), 3);
    assert_eq!(fused[0].rank, 1);
    assert_eq!(fused[1].rank, 2);
    assert_eq!(fused[2].rank, 3);
}

#[test]
fn test_rrf_rank_assignment() {
    let bm25_results = vec![
        create_result("chunk1", "doc1.md", 900_000, 1),
        create_result("chunk2", "doc2.md", 800_000, 2),
    ];
    let vector_results = vec![create_result("chunk3", "doc3.md", 950_000, 1)];

    let fused = reciprocal_rank_fusion(&bm25_results, &vector_results, 10, 500_000, 500_000);

    for (idx, result) in fused.iter().enumerate() {
        assert_eq!(result.rank, idx + 1);
    }
}

#[test]
fn test_rrf_score_accumulation() {
    let bm25_results = vec![create_result("chunk1", "doc1.md", 900_000, 1)];
    let vector_results = vec![create_result("chunk1", "doc1.md", 900_000, 1)];

    let fused = reciprocal_rank_fusion(&bm25_results, &vector_results, 5, 500_000, 500_000);

    assert_eq!(fused.len(), 1);
    // RRF(rank=1, K=60, weight=0.5) in picos: 500000 * 1000000 / 61
    let single: i64 = 500_000 * 1_000_000 / 61;
    assert_eq!(fused[0].score, 2 * single);
}

#[test]
fn test_rrf_preserves_metadata() {
    let bm25_results = vec![SearchResult {
        chunk_id: "chunk1".to_string(),
        doc_path: "docs/module-alpha/overview.md".to_string(),
        doc_type: "agent_prompt".to_string(),
        agent_name: Some("module-alpha".to_string()),
        section: Some("Identity".to_string()),
        chunk_text: "Module Alpha provides core analysis capabilities".to_string(),
        score: 900_000,
        rank: 1,
    }];

    let vector_results = vec![];

    let fused = reciprocal_rank_fusion(&bm25_results, &vector_results, 5, 500_000, 500_000);

    assert_eq!(fused.len(), 1);
    assert_eq!(fused[0].chunk_id, "chunk1");
    assert_eq!(fused[0].doc_path, "docs/module-alpha/overview.md");
    assert_eq!(fused[0].doc_type, "agent_prompt");
    assert_eq!(fused[0].agent_name, Some("module-alpha".to_string()));
    assert_eq!(fused[0].section, Some("Identity".to_string()));
    assert_eq!(fused[0].chunk_text, "Module Alpha provides core analysis capabilities");
}

#[test]
fn rrf_math_two_singleton_lists() {
    // distinct chunks at rank one with equal weights both score w/(60+1);
    // the same chunk in both lists scores twice that and ranks first
    let x = create_result("x", "x.md", 0, 1);
    let y = create_result("y", "y.md", 0, 1);
    let fused = reciprocal_rank_fusion(&vec![x.clone()], &vec![y.clone()], 5, 500_000, 500_000);
    let single: i64 = 500_000 * 1_000_000 / 61;
    assert_eq!(fused.len(), 2);
    assert_eq!(fused[0].score, single);
    assert_eq!(fused[1].score, single);

    let both = reciprocal_rank_fusion(&vec![x.clone()], &vec![x], 5, 500_000, 500_000);
    assert_eq!(both.len(), 1);
    assert_eq!(both[0].score, 2 * single);
    assert_eq!(both[0].rank, 1);
}

#[test]
fn rrf_heavier_weight_wins_at_equal_rank() {
    // the weight order law on concrete values
    let x = create_result("lex", "a.md", 0, 1);
    let y = create_result("sem", "b.md", 0, 1);
    let fused = reciprocal_rank_fusion(&vec![x], &vec![y], 5, 600_000, 400_000);
    assert_eq!(fused[0].chunk_id, "lex");
    assert_eq!(fused[0].rank, 1);
    assert_eq!(fused[1].chunk_id, "sem");
    assert_eq!(fused[1].rank, 2);
}

#[test]
fn hybrid_fusion_single_candidate_with_zero_threshold() {
    // one chunk found by both searches: fused, normalization leaves the
    // lone raw score, and a zero threshold keeps it at rank one
    let c = create_result("only", "Guides/api/endpoints.md", 0, 1);
    let results = fuse_hybrid(&vec![c.clone()], &vec![c], 5, 0, 500_000, 500_000);
    assert_eq!(results.len(), 1);
    assert_eq!(results[0].rank, 1);
    assert_eq!(results[0].doc_path, "Guides/api/endpoints.md");
    assert!(results[0].score > 0 && results[0].score <= RRF_UNIT);
}

#[test]
fn hybrid_fusion_normalizes_and_filters() {
    let a = create_result("a", "a.md", 0, 1);
    let b = create_result("b", "b.md", 0, 2);
    let c = create_result("c", "c.md", 0, 3);
    // a appears in both lists, b and c once each: a tops, c bottoms
    let results = fuse_hybrid(
        &vec![a.clone(), b, c.clone()],
        &vec![a, c],
        5,
        650_000,
        500_000,
        500_000,
    );
    // scores are min-max normalized: the top is the full unit, the
    // bottom is zero and falls under any positive threshold
    assert!(!results.is_empty());
    assert_eq!(results[0].chunk_id, "a");
    assert_eq!(results[0].score, RRF_UNIT);
    for r in &results {
        assert_ne!(r.chunk_id, "b"); // b is the bottom, normalized to 0
    }
}

#[test]
fn top_k_by_score_orders_filters_and_ranks() {
    let rows = vec![
        create_result("low", "l.md", 100_000, 0),
        create_result("high", "h.md", 900_000, 0),
        create_result("mid", "m.md", 500_000, 0),
    ];
    let top = top_k_by_score(&rows, 2, 200_000);
    assert_eq!(top.len(), 2);
    assert_eq!(top[0].chunk_id, "high");
    assert_eq!(top[0].rank, 1);
    assert_eq!(top[1].chunk_id, "mid");
    assert_eq!(top[1].rank, 2);
}
