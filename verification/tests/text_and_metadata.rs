use ragmcp::chunker::{chunk_document, chunk_text, estimate_tokens};
use ragmcp::config::PerformanceConfig;
use ragmcp::metadata::{extract_agent_name, extract_namespace};
use ragmcp::parsers::{ParsedDocument, Section};
use ragmcp::sanitize::sanitize_fts5_query;

fn test_config() -> PerformanceConfig {
    PerformanceConfig { max_latency_ms: 1000, chunk_size_tokens: 300, chunk_overlap_tokens: 50 }
}

#[test]
fn test_estimate_tokens() {
    // 4 chars = 1 token
    assert_eq!(estimate_tokens("test"), 1);
    // 8 chars = 2 tokens
    assert_eq!(estimate_tokens("testtest"), 2);
    // 10 chars = 3 tokens (rounds up)
    assert_eq!(estimate_tokens("testtest12"), 3);
}

#[test]
fn test_chunk_text() {
    let config = test_config();
    let text = "a ".repeat(1000); // ~2000 chars = ~500 tokens

    let chunks = chunk_text(&text, config.chunk_size_tokens, config.chunk_overlap_tokens).unwrap();

    assert!(!chunks.is_empty());
    // Should have multiple chunks for 500 tokens with 300 token size
    assert!(chunks.len() >= 2);

    // Check overlap between chunks
    if chunks.len() > 1 {
        let chunk0 = &chunks[0];
        let chunk1 = &chunks[1];
        let mut overlap_found = false;

        let min_overlap = (config.chunk_overlap_tokens * 4).min(chunk0.len().min(chunk1.len()));
        for overlap_len in (1..=min_overlap).rev() {
            if chunk0.len() >= overlap_len && chunk1.len() >= overlap_len {
                let suffix_start = chunk0.len().saturating_sub(overlap_len);
                if let (Some(suffix), Some(prefix)) =
                    (chunk0.get(suffix_start..), chunk1.get(..overlap_len))
                {
                    if suffix == prefix {
                        overlap_found = true;
                        break;
                    }
                }
            }
        }
        assert!(
            overlap_found || chunks.len() == 2,
            "Expected overlap between chunks or only 2 chunks total"
        );
    }
}

#[test]
fn test_chunk_document() {
    let config = test_config();
    let parsed = ParsedDocument {
        content: "Full content".to_string(),
        sections: vec![Section {
            header: "Section 1".to_string(),
            content: "a ".repeat(1000),
            section_type: Some("test".to_string()),
        }],
        doc_type: "test".to_string(),
    };

    let chunks = chunk_document(&parsed, &config).unwrap();

    assert!(!chunks.is_empty());
    assert_eq!(chunks[0].section_header, Some("Section 1".to_string()));
    assert_eq!(chunks[0].chunk_type, Some("test".to_string()));

    for chunk in &chunks {
        assert!(chunk.tokens > 0);
        assert!(chunk.tokens <= config.chunk_size_tokens * 2);
    }
}

#[test]
fn test_chunk_empty_text() {
    let chunks = chunk_text("", 300, 50).unwrap();
    assert!(chunks.is_empty());
}

#[test]
fn chunker_input_shorter_than_window_gives_one_chunk() {
    let chunks = chunk_text("short text.", 300, 50).unwrap();
    assert_eq!(chunks.len(), 1);
    assert_eq!(chunks[0], "short text.");
}

#[test]
fn test_extract_namespace() {
    // Forward slashes - namespace = first path segment (lowercased)
    assert_eq!(extract_namespace("Agents/module-alpha/overview.md"), "agents");
    assert_eq!(extract_namespace("System/README.md"), "system");
    assert_eq!(extract_namespace("Business/rules.yaml"), "business");
    assert_eq!(extract_namespace("other/file.md"), "other");
    assert_eq!(extract_namespace("Self/notes.md"), "self");
    assert_eq!(extract_namespace("Community/guide.md"), "community");
    assert_eq!(extract_namespace("coding-systems/README.md"), "coding-systems");
    assert_eq!(extract_namespace("Deep/nested/file.md"), "deep");

    // Root-level (no directory) -> "all"
    assert_eq!(extract_namespace("readme.md"), "all");
    assert_eq!(extract_namespace("foo.xml"), "all");

    // Backslashes (Windows style)
    assert_eq!(extract_namespace("Agents\\module-alpha\\overview.md"), "agents");
    assert_eq!(extract_namespace("System\\README.md"), "system");
    assert_eq!(extract_namespace("Business\\rules.yaml"), "business");
    assert_eq!(extract_namespace("other\\file.md"), "other");
}

#[test]
fn test_extract_agent_name() {
    // Forward slashes
    assert_eq!(extract_agent_name("Agents/my-agent/prompt.xml"), Some("my-agent".to_string()));
    assert_eq!(extract_agent_name("Guides/api/endpoints.md"), Some("api".to_string()));
    assert_eq!(extract_agent_name("Research/topic-a/notes.md"), Some("topic-a".to_string()));
    assert_eq!(
        extract_agent_name("Docs/section/deep/nested/file.md"),
        Some("section".to_string())
    );

    // Single directory level -> None
    assert_eq!(extract_agent_name("System/README.md"), None);
    assert_eq!(extract_agent_name("other/file.md"), None);
    // Root-level file -> None
    assert_eq!(extract_agent_name("readme.md"), None);

    // Backslashes (normalized internally)
    assert_eq!(extract_agent_name("Guides\\api\\endpoints.md"), Some("api".to_string()));
    assert_eq!(extract_agent_name("Agents\\my-agent\\tools.yaml"), Some("my-agent".to_string()));
    assert_eq!(extract_agent_name("System\\README.md"), None);
}

#[test]
fn path_classified_fields_scenario() {
    // a file two directories deep gets a namespace and an entity name
    assert_eq!(extract_namespace("Agents/module-alpha/prompt.xml"), "agents");
    assert_eq!(
        extract_agent_name("Agents/module-alpha/prompt.xml"),
        Some("module-alpha".to_string())
    );
    // a root-level file is namespaced "all" with no entity
    assert_eq!(extract_namespace("readme.md"), "all");
    assert_eq!(extract_agent_name("readme.md"), None);
}

#[test]
fn test_sanitize_fts5_query() {
    // Test basic query (no special characters)
    assert_eq!(sanitize_fts5_query("rust programming"), "rust OR programming");

    // Test double quote escaping
    assert_eq!(sanitize_fts5_query(r#"test "quoted" text"#), r#"test OR ""quoted"" OR text"#);

    // Test multiple quotes; stop word "and" is removed
    assert_eq!(sanitize_fts5_query(r#""quoted" and "another""#), r#"""quoted"" OR ""another"""#);

    // Special characters are removed to avoid engine syntax issues
    assert_eq!(sanitize_fts5_query("test* (query) {terms}"), "test OR query OR terms");

    // Test empty string
    assert_eq!(sanitize_fts5_query(""), "");

    // '-' is an exclude operator for the engine; it is stripped
    assert_eq!(sanitize_fts5_query("--agent_filter"), "agent_filter");
    assert_eq!(sanitize_fts5_query("well-known term"), "wellknown OR term");

    // apostrophes would break the engine; they are stripped
    assert_eq!(sanitize_fts5_query("What are Alpha's NonNegotiables?"), "Alphas OR NonNegotiables");
}

#[test]
fn all_stop_words_falls_back_to_cleaned_query() {
    // every token is a stop word: the cleaned text itself comes back,
    // so the engine never sees an empty match expression
    assert_eq!(sanitize_fts5_query("the and of"), "the and of");
    assert_eq!(sanitize_fts5_query("is a the"), "is a the");
}

#[test]
fn empty_query_short_circuits_without_error() {
    assert!(ragmcp::protocol::empty_query_short_circuit(""));
    assert!(ragmcp::protocol::empty_query_short_circuit("   "));
    assert!(!ragmcp::protocol::empty_query_short_circuit("payment"));
    // an all-whitespace query never reaches the engine, and the sanitized
    // form of a non-empty query is never an operator-bearing string
    assert_eq!(sanitize_fts5_query("   "), "");
}
