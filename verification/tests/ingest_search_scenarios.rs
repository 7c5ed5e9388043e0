use ragmcp::chunker::{chunk_document, estimate_tokens};
use ragmcp::config::PerformanceConfig;
use ragmcp::hashing::{content_hash, doc_id_for_path};
use ragmcp::ingest::{classify_files, is_supported_extension, FileMetadata, StoredHashes};
use ragmcp::metadata::{extract_agent_name, extract_namespace};
use ragmcp::parsers::ParserRegistry;
use ragmcp::search::{fuse_hybrid, SearchResult, RRF_UNIT};
use ragmcp::store::IndexStore;

fn perf() -> PerformanceConfig {
    PerformanceConfig { max_latency_ms: 1000, chunk_size_tokens: 300, chunk_overlap_tokens: 50 }
}

/// Run the pure ingestion pipeline for one in-memory file.
fn ingest(st: &mut IndexStore, rel_path: &str, bytes: &str) -> String {
    let registry = ParserRegistry::new();
    let ext = rel_path.rsplit('.').next().unwrap_or("");
    let parsed = registry.parse(bytes, rel_path, ext).unwrap();
    let chunks = chunk_document(&parsed, &perf()).unwrap();
    let total: usize = chunks.iter().map(|c| c.tokens).sum();
    let hash = content_hash(&bytes.as_bytes().to_vec());
    let namespace = extract_namespace(rel_path);
    let agent = extract_agent_name(rel_path);
    let doc_id = st.upsert_document(
        rel_path,
        &parsed.doc_type,
        &namespace,
        agent.as_ref(),
        &parsed.content,
        total,
        "2024-01-01T00:00:00Z",
        &hash,
    );
    st.insert_chunks(&doc_id, &chunks);
    doc_id
}

fn file_meta(rel: &str) -> FileMetadata {
    FileMetadata {
        relative_path: rel.to_string(),
        absolute_path: format!("/root-of-docs/{}", rel),
        extension: rel.rsplit('.').next().unwrap_or("").to_string(),
        file_size: 0,
        modified_secs: 0,
        modified_nanos: 0,
    }
}

#[test]
fn ingest_then_search_single_document() {
    // a corpus of one markdown file, ingested, then searched with the
    // candidates both retrieval legs would report
    let mut st = IndexStore::new();
    let body = "API endpoints for the payment service";
    let doc_id = ingest(&mut st, "Guides/api/endpoints.md", body);

    assert_eq!(doc_id, doc_id_for_path("Guides/api/endpoints.md"));
    assert_eq!(st.documents.len(), 1);
    assert_eq!(st.documents[0].namespace, "guides");
    assert_eq!(st.documents[0].agent_name.as_deref(), Some("api"));
    assert_eq!(st.chunks.len(), 1);
    assert!(st.chunks[0].chunk_text.contains("payment"));

    // both retrieval legs found that one chunk at rank one
    let hit = SearchResult {
        chunk_id: st.chunks[0].chunk_id.clone(),
        doc_path: st.documents[0].doc_path.clone(),
        doc_type: st.documents[0].doc_type.clone(),
        agent_name: st.documents[0].agent_name.clone(),
        section: st.chunks[0].section_header.clone(),
        chunk_text: st.chunks[0].chunk_text.clone(),
        score: 900_000,
        rank: 1,
    };
    let results = fuse_hybrid(&vec![hit.clone()], &vec![hit], 5, 0, 500_000, 500_000);
    assert_eq!(results.len(), 1);
    assert_eq!(results[0].rank, 1);
    assert!(results[0].doc_path.ends_with("Guides/api/endpoints.md"));
    assert!(results[0].score > 0 && results[0].score <= RRF_UNIT);
}

#[test]
fn idempotent_reingest_keeps_counts() {
    let mut st = IndexStore::new();
    let files = vec![
        ("Guides/api/endpoints.md", "API endpoints for the payment service"),
        ("Agents/module-alpha/prompt.xml", "<agent><Identity>alpha</Identity></agent>"),
        ("readme.md", "# Top\n\nWelcome text here."),
    ];
    for (p, b) in &files {
        ingest(&mut st, p, b);
    }
    let docs_before = st.documents.len();
    let chunks_before = st.chunks.len();

    // second run with no file changes: classification sees everything
    // unchanged, so nothing is re-ingested
    let mut stored = StoredHashes::new();
    for d in &st.documents {
        stored.push(d.doc_path.clone(), d.file_hash.clone());
    }
    let metas: Vec<FileMetadata> = files.iter().map(|(p, _)| file_meta(p)).collect();
    let hashes: Vec<String> =
        files.iter().map(|(_, b)| content_hash(&b.as_bytes().to_vec())).collect();
    let classification = classify_files(&metas, &hashes, &stored).unwrap();
    assert_eq!(classification.unchanged_files.len(), files.len());
    assert_eq!(classification.new_files.len(), 0);
    assert_eq!(classification.modified_files.len(), 0);

    // re-ingesting anyway leaves the counts unchanged
    for (p, b) in &files {
        ingest(&mut st, p, b);
    }
    assert_eq!(st.documents.len(), docs_before);
    assert_eq!(st.chunks.len(), chunks_before);
}

#[test]
fn test_classify_files_new_only() {
    let files = vec![file_meta("a.xml"), file_meta("b.yaml")];
    let hashes = vec![
        content_hash(&b"content1".to_vec()),
        content_hash(&b"content2".to_vec()),
    ];
    let existing = StoredHashes::new();
    let classification = classify_files(&files, &hashes, &existing).unwrap();
    assert_eq!(classification.new_files.len(), 2);
    assert_eq!(classification.modified_files.len(), 0);
    assert_eq!(classification.unchanged_files.len(), 0);
}

#[test]
fn test_classify_files_unchanged_uses_stored_hash() {
    let hash = content_hash(&b"same content".to_vec());
    let files = vec![file_meta("x.md")];
    let mut existing = StoredHashes::new();
    existing.push("x.md".to_string(), hash.clone());
    let classification = classify_files(&files, &vec![hash], &existing).unwrap();
    assert_eq!(classification.new_files.len(), 0);
    assert_eq!(classification.modified_files.len(), 0);
    assert_eq!(classification.unchanged_files.len(), 1);
}

#[test]
fn test_classify_files_modified_when_hash_differs() {
    let files = vec![file_meta("y.xml")];
    let current = content_hash(&b"new content".to_vec());
    let mut existing = StoredHashes::new();
    existing.push("y.xml".to_string(), "old_hash_placeholder".to_string());
    let classification = classify_files(&files, &vec![current], &existing).unwrap();
    assert_eq!(classification.new_files.len(), 0);
    assert_eq!(classification.modified_files.len(), 1);
    assert_eq!(classification.unchanged_files.len(), 0);
}

#[test]
fn test_compute_file_hash() {
    // 64 hex characters, stable for fixed bytes
    let hash = content_hash(&b"test content".to_vec());
    assert_eq!(hash.len(), 64);
    assert_eq!(hash, content_hash(&b"test content".to_vec()));
}

#[test]
fn discovery_allowlist_matches_supported_formats() {
    for ext in ["md", "txt", "xml", "yaml", "yml", "json", "toml", "rs", "py", "ts", "js", "go"] {
        assert!(is_supported_extension(ext), "{} must be indexed", ext);
    }
    assert!(!is_supported_extension("png"));
    assert!(!is_supported_extension("bin"));
}

#[test]
fn token_totals_accumulate_over_chunks() {
    let text = "abcd".repeat(10); // 40 chars -> 10 tokens
    assert_eq!(estimate_tokens(&text), 10);
}
