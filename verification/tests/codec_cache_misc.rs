use ragmcp::cache::{scan_candidates, ChunkEmbeddingCache, EmbeddingCache};
use ragmcp::chunker::Chunk;
use ragmcp::codec::{decode_embedding, encode_embedding};
use ragmcp::config::{
    Config, EmbeddingsConfig, HttpServerConfig, PerformanceConfig, RagmcpConfig, SearchConfig,
};
use ragmcp::embedding::{
    effective_batch_size, is_retryable_status, next_backoff_ms, retry_decision, split_batches,
    RetryDecision,
};
use ragmcp::eval::{mean_reciprocal_rank_micros, precision_at_k_micros, recall_at_k_micros, EvalQuery};
use ragmcp::roots::PathValidator;
use ragmcp::search::SearchResult;
use ragmcp::store::IndexStore;
use ragmcp::protocol::{plan_search, SearchPlan};
use ragmcp::watch::{watch_decision, WatchAction};

#[test]
fn test_parse_embedding_valid() {
    // four words round-trip exactly through the little-endian blob
    let test_floats = vec![1.0f32, 2.0f32, 3.0f32, 4.0f32];
    let words: Vec<u32> = test_floats.iter().map(|f| f.to_bits()).collect();
    let blob = encode_embedding(&words);
    assert_eq!(blob.len(), 16);

    let parsed = decode_embedding(&blob).unwrap();
    assert_eq!(parsed.len(), 4);
    for (original, word) in test_floats.iter().zip(parsed.iter()) {
        assert_eq!(*original, f32::from_bits(*word));
    }
}

#[test]
fn test_parse_embedding_invalid_length() {
    // not a multiple of four: treated as absent
    let blob = vec![0u8, 1, 2, 3, 4];
    assert!(decode_embedding(&blob).is_none());
}

#[test]
fn test_parse_embedding_empty() {
    let blob = vec![];
    let parsed = decode_embedding(&blob);
    assert!(parsed.is_some());
    assert_eq!(parsed.unwrap().len(), 0);
}

#[test]
fn test_parse_embedding_1536_dimensions() {
    let test_floats: Vec<f32> = (0..1536).map(|i| i as f32 * 0.001).collect();
    let words: Vec<u32> = test_floats.iter().map(|f| f.to_bits()).collect();
    let blob = encode_embedding(&words);
    assert_eq!(blob.len(), 6144);

    let parsed = decode_embedding(&blob).unwrap();
    assert_eq!(parsed.len(), 1536);
    for (original, word) in test_floats.iter().zip(parsed.iter()) {
        assert!((original - f32::from_bits(*word)).abs() < 1e-6);
    }
}

#[test]
fn test_cache_new_not_loaded() {
    let cache = ChunkEmbeddingCache::new();
    assert!(!cache.is_loaded());
    assert_eq!(cache.len(), 0);
    assert!(cache.get("any").is_none());
}

#[test]
fn unloaded_cache_loads_the_scan_candidates() {
    // the cached path and the full-scan path see the same candidates
    let mut st = IndexStore::new();
    let doc_id = st.upsert_document("d.md", "markdown", "all", None, "x", 1, "t", "h");
    st.insert_chunks(
        &doc_id,
        &vec![
            Chunk { text: "a".into(), tokens: 1, section_header: None, chunk_type: None },
            Chunk { text: "b".into(), tokens: 1, section_header: None, chunk_type: None },
        ],
    );
    let words: Vec<u32> = (0..1536u32).collect();
    st.store_embedding(&format!("{}::1", doc_id), &words).unwrap();

    let mut cache = ChunkEmbeddingCache::new();
    cache.load_if_needed(&st);
    assert!(cache.is_loaded());
    assert_eq!(cache.len(), 1);

    let scanned = scan_candidates(&st);
    let cached = cache.entries.as_ref().unwrap();
    assert_eq!(cached.len(), scanned.len());
    for (c, s) in cached.iter().zip(scanned.iter()) {
        assert_eq!(c.0, s.0);
        assert_eq!(c.1, s.1);
    }
    assert_eq!(cached[0].0, format!("{}::1", doc_id));

    // loading again is a no-op
    cache.load_if_needed(&st);
    assert_eq!(cache.len(), 1);
}

#[test]
fn test_cache_put_and_get() {
    let mut cache = EmbeddingCache::new(10);
    let query = "test query".to_string();
    let embedding: Vec<u32> = vec![1.0f32.to_bits(), 2.0f32.to_bits(), 3.0f32.to_bits()];

    cache.put(query.clone(), embedding.clone());

    let retrieved = cache.get(&query);
    assert!(retrieved.is_some());
    assert_eq!(retrieved.unwrap(), embedding);
}

#[test]
fn test_cache_miss() {
    let mut cache = EmbeddingCache::new(10);
    let retrieved = cache.get("nonexistent query");
    assert!(retrieved.is_none());
}

#[test]
fn test_cache_eviction() {
    let mut cache = EmbeddingCache::new(2);

    cache.put("query1".to_string(), vec![1]);
    cache.put("query2".to_string(), vec![2]);

    // the third entry evicts the least recently used one
    cache.put("query3".to_string(), vec![3]);

    assert!(cache.get("query1").is_none()); // evicted
    assert!(cache.get("query2").is_some());
    assert!(cache.get("query3").is_some());
}

#[test]
fn test_cache_len() {
    let mut cache = EmbeddingCache::new(10);
    assert_eq!(cache.len(), 0);
    assert!(cache.is_empty());

    cache.put("query1".to_string(), vec![1]);
    assert_eq!(cache.len(), 1);
    assert!(!cache.is_empty());

    cache.put("query2".to_string(), vec![2]);
    assert_eq!(cache.len(), 2);
}

#[test]
fn test_cache_clear() {
    let mut cache = EmbeddingCache::new(10);
    cache.put("query1".to_string(), vec![1]);
    cache.put("query2".to_string(), vec![2]);
    assert_eq!(cache.len(), 2);

    cache.clear();

    assert_eq!(cache.len(), 0);
    assert!(cache.is_empty());
    assert!(cache.get("query1").is_none());
    assert!(cache.get("query2").is_none());
}

#[test]
fn test_cache_get_updates_lru() {
    let mut cache = EmbeddingCache::new(2);
    cache.put("query1".to_string(), vec![1]);
    cache.put("query2".to_string(), vec![2]);

    // touching query1 refreshes it
    let _ = cache.get("query1");

    cache.put("query3".to_string(), vec![3]);

    assert!(cache.get("query1").is_some()); // kept: recently touched
    assert!(cache.get("query2").is_none()); // evicted
    assert!(cache.get("query3").is_some());
}

#[test]
fn test_cache_capacity_one() {
    let mut cache = EmbeddingCache::new(1);
    cache.put("query1".to_string(), vec![1]);
    assert_eq!(cache.len(), 1);

    cache.put("query2".to_string(), vec![2]);
    assert_eq!(cache.len(), 1);
    assert!(cache.get("query1").is_none());
    assert!(cache.get("query2").is_some());
}

#[test]
fn test_embedder_batch_size_limit() {
    assert_eq!(effective_batch_size(5000), 2048);
}

#[test]
fn test_embedder_batch_size_exact_limit() {
    assert_eq!(effective_batch_size(2048), 2048);
}

#[test]
fn test_embedder_batch_size_under_limit() {
    assert_eq!(effective_batch_size(100), 100);
}

#[test]
fn split_batches_keeps_order_and_caps() {
    let texts: Vec<String> = (0..5).map(|i| format!("t{}", i)).collect();
    let batches = split_batches(&texts, 2);
    assert_eq!(batches.len(), 3);
    assert_eq!(batches[0], vec!["t0".to_string(), "t1".to_string()]);
    assert_eq!(batches[1], vec!["t2".to_string(), "t3".to_string()]);
    assert_eq!(batches[2], vec!["t4".to_string()]);
}

#[test]
fn retry_policy_matches_status_classes() {
    assert!(is_retryable_status(429));
    assert!(is_retryable_status(500));
    assert!(is_retryable_status(503));
    assert!(!is_retryable_status(400));
    assert!(!is_retryable_status(200));
    assert_eq!(next_backoff_ms(1000), 2000);

    match retry_decision(0, 3, 429, 1000) {
        RetryDecision::RetryAfter(d) => assert_eq!(d, 1000),
        RetryDecision::GiveUp => panic!("retryable within budget must retry"),
    }
    match retry_decision(3, 3, 429, 1000) {
        RetryDecision::GiveUp => {}
        _ => panic!("budget exhausted must give up"),
    }
    match retry_decision(0, 3, 400, 1000) {
        RetryDecision::GiveUp => {}
        _ => panic!("non-retryable must surface at once"),
    }
}

#[test]
fn test_validate_path_success() {
    let validator = PathValidator::new("/docs-root");
    let p = validator.validate_write_path("Guides/api/endpoints.md").unwrap();
    assert_eq!(p, "/docs-root/Guides/api/endpoints.md");
}

#[test]
fn test_validate_path_traversal_blocked() {
    let validator = PathValidator::new("/docs-root");
    assert!(validator.validate_write_path("Guides/../etc/passwd").is_err());
    assert!(validator.validate_write_path("..").is_err());
    assert!(validator.validate_write_path("a/../b").is_err());
}

#[test]
fn test_validate_path_outside_boundary_blocked() {
    let validator = PathValidator::new("/docs-root");
    let p = validator.validate_write_path("section/item").unwrap();
    assert!(p.starts_with("/docs-root/"));
    assert!(p.ends_with("section/item"));
}

#[test]
fn test_validate_path_leading_slash_rejected() {
    let validator = PathValidator::new("/docs-root");
    assert!(validator.validate_write_path("/Guides/file.md").is_err());
    assert!(validator.validate_write_path("\\Guides\\file.md").is_err());
}

#[test]
fn test_validate_path_empty_rejected() {
    let validator = PathValidator::new("/docs-root");
    assert!(validator.validate_write_path("").is_err());
    assert!(validator.validate_write_path("   ").is_err());
}

#[test]
fn watch_decisions_cover_all_cases() {
    let stored = "h1".to_string();
    // outside the root, or an unwatched extension: skip
    assert!(matches!(watch_decision(false, "md", None, "h1"), WatchAction::Skip));
    assert!(matches!(watch_decision(true, "png", None, "h1"), WatchAction::Skip));
    // unchanged hash: backfill only
    assert!(matches!(
        watch_decision(true, "md", Some(&stored), "h1"),
        WatchAction::BackfillOnly
    ));
    // changed or new: re-ingest then embed
    assert!(matches!(
        watch_decision(true, "md", Some(&stored), "h2"),
        WatchAction::ReingestAndEmbed
    ));
    assert!(matches!(watch_decision(true, "md", None, "h2"), WatchAction::ReingestAndEmbed));
}

fn make_result(chunk_id: &str, rank: usize) -> SearchResult {
    SearchResult {
        chunk_id: chunk_id.to_string(),
        doc_path: String::new(),
        doc_type: String::new(),
        agent_name: None,
        section: None,
        chunk_text: String::new(),
        score: 0,
        rank,
    }
}

#[test]
fn precision_at_k_all_relevant() {
    let results = vec![make_result("a", 1), make_result("b", 2), make_result("c", 3)];
    let relevant = vec!["a".to_string(), "b".to_string(), "c".to_string()];
    assert_eq!(precision_at_k_micros(&results, &relevant, 3), 1_000_000);
}

#[test]
fn precision_at_k_partial() {
    let results = vec![make_result("a", 1), make_result("b", 2), make_result("x", 3)];
    let relevant = vec!["a".to_string(), "b".to_string()];
    assert_eq!(precision_at_k_micros(&results, &relevant, 3), 2_000_000 / 3);
}

#[test]
fn precision_at_k_zero_k() {
    let results = vec![make_result("a", 1)];
    let relevant = vec!["a".to_string()];
    assert_eq!(precision_at_k_micros(&results, &relevant, 0), 0);
}

#[test]
fn recall_at_k_all_retrieved() {
    let results = vec![make_result("a", 1), make_result("b", 2)];
    let relevant = vec!["a".to_string(), "b".to_string()];
    assert_eq!(recall_at_k_micros(&results, &relevant, 10), 1_000_000);
}

#[test]
fn recall_at_k_partial() {
    let results = vec![make_result("a", 1), make_result("x", 2)];
    let relevant = vec!["a".to_string(), "b".to_string()];
    assert_eq!(recall_at_k_micros(&results, &relevant, 10), 500_000);
}

#[test]
fn recall_at_k_empty_relevant() {
    let results = vec![make_result("a", 1)];
    let relevant: Vec<String> = vec![];
    assert_eq!(recall_at_k_micros(&results, &relevant, 10), 0);
}

#[test]
fn eval_query_relevance_by_doc_and_entity() {
    let query = EvalQuery {
        query: String::new(),
        category: String::new(),
        expected_doc: Some("doc.xml".to_string()),
        expected_section: None,
        expected_entities: None,
        min_rank: None,
        relevant_chunk_ids: None,
    };
    let mut hit = make_result("x", 1);
    hit.doc_path = "agents/doc.xml".to_string();
    assert!(query.is_relevant(&hit));
    hit.doc_path = "other/thing.md".to_string();
    assert!(!query.is_relevant(&hit));

    // a query without criteria matches nothing
    let empty = EvalQuery {
        query: String::new(),
        category: String::new(),
        expected_doc: None,
        expected_section: None,
        expected_entities: None,
        min_rank: None,
        relevant_chunk_ids: None,
    };
    assert!(!empty.is_relevant(&hit));

    // entity matching strips the entity prefix
    let by_entity = EvalQuery {
        query: String::new(),
        category: String::new(),
        expected_doc: None,
        expected_section: None,
        expected_entities: Some(vec!["entity:dev".to_string()]),
        min_rank: None,
        relevant_chunk_ids: None,
    };
    let mut hit2 = make_result("y", 1);
    hit2.agent_name = Some("dev".to_string());
    assert!(by_entity.is_relevant(&hit2));
}

#[test]
fn config_numeric_validation() {
    let mut cfg = Config {
        ragmcp: RagmcpConfig {
            rag_folder: "/docs".to_string(),
            db_path: "/tmp/index.db".to_string(),
            log_level: "info".to_string(),
        },
        embeddings: EmbeddingsConfig {
            provider: "openai".to_string(),
            model: "text-embedding-3-small".to_string(),
            api_key_env: "OPENAI_API_KEY".to_string(),
            batch_size: 100,
            dimensions: 1536,
            cache_capacity: 1000,
        },
        search: SearchConfig {
            default_k: 5,
            min_score_micros: 650_000,
            hybrid_bm25_weight_micros: 500_000,
            hybrid_vector_weight_micros: 500_000,
        },
        performance: PerformanceConfig {
            max_latency_ms: 1000,
            chunk_size_tokens: 300,
            chunk_overlap_tokens: 50,
        },
        http_server: HttpServerConfig {
            enabled: false,
            port: 8080,
            api_key_env: "RAGMCP_API_KEY".to_string(),
            allowed_origins: vec![],
            authless: false,
        },
    };
    assert!(cfg.validate_numeric().is_ok());
    cfg.search.default_k = 0;
    assert!(cfg.validate_numeric().is_err());
    cfg.search.default_k = 5;
    cfg.search.min_score_micros = 1_500_000;
    assert!(cfg.validate_numeric().is_err());
    cfg.search.min_score_micros = 650_000;
    cfg.performance.chunk_overlap_tokens = 300;
    assert!(cfg.validate_numeric().is_err());
}

#[test]
fn search_plan_resolves_defaults_and_overfetch() {
    assert!(matches!(plan_search("ab", "all", 5, None, 650_000), SearchPlan::TooShort));
    match plan_search("payment endpoints", "all", 5, None, 650_000) {
        SearchPlan::Run { namespace, k, min_score_micros } => {
            assert!(namespace.is_none());
            assert_eq!(k, 5);
            assert_eq!(min_score_micros, 650_000);
        }
        _ => panic!("a real query must run"),
    }
    match plan_search("payment endpoints", "guides", 5, Some(40), 650_000) {
        SearchPlan::Run { namespace, k, min_score_micros } => {
            assert_eq!(namespace.as_deref(), Some("guides"));
            assert_eq!(k, 40);
            assert_eq!(min_score_micros, 0);
        }
        _ => panic!("a real query must run"),
    }
}


#[test]
fn mrr_first_rank() {
    let query = EvalQuery {
        query: String::new(),
        category: String::new(),
        expected_doc: Some("doc.xml".to_string()),
        expected_section: None,
        expected_entities: None,
        min_rank: None,
        relevant_chunk_ids: None,
    };
    let mut first = make_result("x", 0);
    first.doc_path = "doc.xml".to_string();
    assert!(query.is_relevant(&first));
    let results = vec![vec![first, make_result("y", 1)]];
    let mrr = mean_reciprocal_rank_micros(&vec![query], &results);
    assert_eq!(mrr, 1_000_000, "first relevant hit at rank one gives the full unit");
}

#[test]
fn mrr_second_rank() {
    let query = EvalQuery {
        query: String::new(),
        category: String::new(),
        expected_doc: Some("doc.xml".to_string()),
        expected_section: None,
        expected_entities: None,
        min_rank: None,
        relevant_chunk_ids: None,
    };
    let mut second = make_result("b", 1);
    second.doc_path = "doc.xml".to_string();
    let results = vec![vec![make_result("a", 0), second]];
    let mrr = mean_reciprocal_rank_micros(&vec![query], &results);
    assert_eq!(mrr, 500_000, "first relevant hit at rank two gives half");
}

#[test]
fn mrr_empty_queries() {
    let results = vec![vec![make_result("a", 0)]];
    assert_eq!(mean_reciprocal_rank_micros(&vec![], &results), 0);
}
