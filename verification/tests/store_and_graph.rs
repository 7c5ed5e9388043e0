use ragmcp::chunker::Chunk;
use ragmcp::graph::{extract_routing_relations, traverse_graph, Relation};
use ragmcp::hashing::{doc_id_for_path, sha256_hex};
use ragmcp::store::IndexStore;

fn chunk(text: &str, header: Option<&str>, ctype: Option<&str>) -> Chunk {
    Chunk {
        text: text.to_string(),
        tokens: 10,
        section_header: header.map(|s| s.to_string()),
        chunk_type: ctype.map(|s| s.to_string()),
    }
}

#[test]
fn sha256_hex_known_digest() {
    // the digest of the empty byte string, as every SHA-256 table lists it
    assert_eq!(
        sha256_hex(&[]),
        "e3b0c44298fc1c149afbf4c8996fb92427ae41e4649b934ca495991b7852b855"
    );
    assert_eq!(
        sha256_hex(b"abc"),
        "ba7816bf8f01cfea414140de5dae2223b00361a396177a9cb410ff61f20015ad"
    );
}

#[test]
fn doc_id_is_path_digest() {
    // the document identifier is exactly the digest of the path bytes
    assert_eq!(doc_id_for_path("test/path.xml"), sha256_hex(b"test/path.xml"));
    assert_eq!(doc_id_for_path("x").len(), 64);
}

#[test]
fn test_insert_document() {
    let mut st = IndexStore::new();
    let doc_id = st.upsert_document(
        "test/path.xml",
        "agent_prompt",
        "agents",
        Some(&"test_agent".to_string()),
        "Test content",
        100,
        "2024-01-01T00:00:00Z",
        "test_hash",
    );
    assert!(!doc_id.is_empty());

    let row = st.documents.iter().find(|d| d.doc_id == doc_id).unwrap();
    assert_eq!(row.doc_path, "test/path.xml");
    assert_eq!(row.doc_type, "agent_prompt");
}

#[test]
fn test_insert_chunks() {
    let mut st = IndexStore::new();
    let doc_id = st.upsert_document(
        "test/path.xml",
        "agent_prompt",
        "agents",
        None,
        "Test content",
        100,
        "2024-01-01T00:00:00Z",
        "test_hash",
    );

    let chunks = vec![
        chunk("Chunk 1", Some("Section 1"), Some("test")),
        chunk("Chunk 2", Some("Section 2"), None),
    ];
    let count = st.insert_chunks(&doc_id, &chunks);
    assert_eq!(count, 2);

    assert_eq!(st.chunks.len(), 2);
    // the chunk identifiers are {doc_id}::{ordinal} with ordinals from zero
    assert_eq!(st.chunks[0].chunk_id, format!("{}::0", doc_id));
    assert_eq!(st.chunks[1].chunk_id, format!("{}::1", doc_id));
    assert_eq!(st.chunks[0].chunk_index, 0);
    assert_eq!(st.chunks[1].chunk_index, 1);

    // every chunk row has its full-text entry, in step
    assert_eq!(st.fts.len(), 2);
    assert_eq!(st.fts[0].chunk_id, st.chunks[0].chunk_id);
    assert_eq!(st.fts[1].chunk_id, st.chunks[1].chunk_id);
}

#[test]
fn test_insert_document_upsert() {
    let mut st = IndexStore::new();
    let doc_id1 = st.upsert_document(
        "test/path.xml",
        "agent_prompt",
        "agents",
        None,
        "Original content",
        100,
        "2024-01-01T00:00:00Z",
        "hash1",
    );
    st.insert_chunks(&doc_id1, &vec![chunk("old chunk", None, None)]);

    let doc_id2 = st.upsert_document(
        "test/path.xml",
        "agent_prompt",
        "agents",
        None,
        "Updated content",
        200,
        "2024-01-02T00:00:00Z",
        "hash2",
    );

    // doc_id is stable: it derives from the path alone
    assert_eq!(doc_id1, doc_id2);
    assert_eq!(st.documents.len(), 1);
    assert_eq!(st.documents[0].content_text, "Updated content");
    assert_eq!(st.documents[0].file_hash, "hash2");
    // the replace-chunks upsert dropped the old chunks and their entries
    assert_eq!(st.chunks.len(), 0);
    assert_eq!(st.fts.len(), 0);
}

#[test]
fn fts_entry_gone_after_delete() {
    let mut st = IndexStore::new();
    let doc_id = st.upsert_document(
        "a/b/c.md",
        "markdown",
        "a",
        None,
        "text",
        1,
        "2024-01-01T00:00:00Z",
        "h",
    );
    st.insert_chunks(&doc_id, &vec![chunk("body", None, None)]);
    assert_eq!(st.fts.len(), 1);
    let n = st.delete_documents(&vec!["a/b/c.md".to_string()]);
    assert_eq!(n, 1);
    assert_eq!(st.documents.len(), 0);
    assert_eq!(st.chunks.len(), 0);
    assert_eq!(st.fts.len(), 0);
}

#[test]
fn reingest_same_bytes_leaves_chunks_identical() {
    // ingesting the same file twice with identical chunks leaves the
    // chunk rows byte-identical, and counts unchanged
    let chunks = vec![
        chunk("first part", Some("H"), None),
        chunk("second part", Some("H"), None),
    ];
    let mut st = IndexStore::new();
    let id1 = st.upsert_document(
        "Guides/doc.md", "markdown", "guides", None, "body", 6, "t", "h1",
    );
    st.insert_chunks(&id1, &chunks);
    let first: Vec<(String, String)> = st
        .chunks
        .iter()
        .map(|c| (c.chunk_id.clone(), c.chunk_text.clone()))
        .collect();
    let (docs1, chunks1) = (st.documents.len(), st.chunks.len());

    let id2 = st.upsert_document(
        "Guides/doc.md", "markdown", "guides", None, "body", 6, "t", "h1",
    );
    st.insert_chunks(&id2, &chunks);
    let second: Vec<(String, String)> = st
        .chunks
        .iter()
        .map(|c| (c.chunk_id.clone(), c.chunk_text.clone()))
        .collect();

    assert_eq!(first, second);
    assert_eq!((docs1, chunks1), (st.documents.len(), st.chunks.len()));
}

#[test]
fn stored_embedding_is_6144_bytes() {
    let mut st = IndexStore::new();
    let doc_id = st.upsert_document(
        "d.md", "markdown", "all", None, "x", 1, "t", "h",
    );
    st.insert_chunks(&doc_id, &vec![chunk("x", None, None)]);
    let words: Vec<u32> = (0..1536u32).collect();
    let cid = format!("{}::0", doc_id);
    st.store_embedding(&cid, &words).unwrap();
    let blob = st.chunks[0].embedding.as_ref().unwrap();
    assert_eq!(blob.len(), 6144);

    // an unknown chunk is the only failure
    assert!(st.store_embedding("nope", &words).is_err());
}

#[test]
fn backfill_list_holds_only_unembedded_chunks() {
    let mut st = IndexStore::new();
    let doc_id = st.upsert_document(
        "d.md", "markdown", "all", None, "x", 1, "t", "h",
    );
    st.insert_chunks(
        &doc_id,
        &vec![chunk("Chunk A", None, None), chunk("Chunk B", None, None), chunk("Chunk C", None, None)],
    );
    let words: Vec<u32> = (0..1536u32).collect();
    st.store_embedding(&format!("{}::0", doc_id), &words).unwrap();
    st.store_embedding(&format!("{}::1", doc_id), &words).unwrap();

    let without = st.chunks_without_embedding_for_doc(&doc_id);
    assert_eq!(without.len(), 1);
    assert_eq!(without[0].0, format!("{}::2", doc_id));
    assert_eq!(without[0].1, "Chunk C");
    assert_eq!(st.embedded_chunk_count(), 2);
}

#[test]
fn test_get_existing_hashes() {
    let mut st = IndexStore::new();
    st.upsert_document(
        "agents/foo/prompt.xml",
        "agent_prompt",
        "agents",
        Some(&"foo".to_string()),
        "content",
        10,
        "2024-01-01T00:00:00Z",
        "abc123",
    );
    let hashes = st.get_existing_hashes();
    assert_eq!(hashes.len(), 1);
    assert_eq!(hashes.get("agents/foo/prompt.xml").unwrap(), "abc123");
}

#[test]
fn test_find_deleted_documents() {
    let mut st = IndexStore::new();
    st.upsert_document(
        "only/in/db.xml", "agent_prompt", "agents", None, "x", 1, "t", "h1",
    );
    let on_disk = vec!["on/disk.yaml".to_string()];
    let deleted = st.find_deleted_documents(&on_disk);
    assert_eq!(deleted.len(), 1);
    assert_eq!(deleted[0], "only/in/db.xml");
    let on_disk_with_both = vec!["only/in/db.xml".to_string(), "on/disk.yaml".to_string()];
    let deleted_none = st.find_deleted_documents(&on_disk_with_both);
    assert!(deleted_none.is_empty());
}

#[test]
fn test_extract_routing_basic() {
    // the scan finds non-overlapping pairs; "A -> B -> C" yields one pair
    let content = "DefaultChains: Agent-A → Agent-B";
    let relations = extract_routing_relations("x", content);
    assert_eq!(relations.len(), 1);
    assert_eq!(relations[0].source_entity, "entity:agent-a");
    assert_eq!(relations[0].target_entity, "entity:agent-b");
    assert_eq!(relations[0].relation_type, "routes_to");
}

#[test]
fn test_extract_routing_multiple() {
    let content = "A → B and C → D";
    let relations = extract_routing_relations("agent1", content);
    assert_eq!(relations.len(), 2);
    assert_eq!(relations[0].source_entity, "entity:a");
    assert_eq!(relations[0].target_entity, "entity:b");
    assert_eq!(relations[1].source_entity, "entity:c");
    assert_eq!(relations[1].target_entity, "entity:d");
}

#[test]
fn test_extract_routing_case_normalized() {
    let content = "AGENT-A → Agent-B";
    let relations = extract_routing_relations("x", content);
    assert_eq!(relations.len(), 1);
    assert_eq!(relations[0].source_entity, "entity:agent-a");
    assert_eq!(relations[0].target_entity, "entity:agent-b");
}

#[test]
fn test_extract_routing_no_matches() {
    let content = "No arrows here, just text.";
    let relations = extract_routing_relations("agent", content);
    assert!(relations.is_empty());
}

#[test]
fn test_extract_routing_uuid_valid() {
    let content = "Foo → Bar";
    let relations = extract_routing_relations("a", content);
    assert_eq!(relations.len(), 1);
    // UUID v4 format: 8-4-4-4-12 hex
    let id = &relations[0].relation_id;
    assert!(id.len() == 36);
    assert!(id.chars().filter(|&c| c == '-').count() == 4);
}

#[test]
fn test_extract_routing_metadata_contains_agent() {
    let content = "X → Y";
    let relations = extract_routing_relations("my_agent", content);
    assert_eq!(relations.len(), 1);
    let meta = relations[0].metadata_json.as_deref().unwrap();
    assert!(meta.contains("my_agent"));
}

fn rel(id: &str, src: &str, tgt: &str) -> Relation {
    Relation {
        relation_id: id.to_string(),
        source_entity: src.to_string(),
        relation_type: "routes_to".to_string(),
        target_entity: tgt.to_string(),
        metadata_json: None,
    }
}

fn sample_relations() -> Vec<Relation> {
    vec![
        rel("r1", "entity:a", "entity:b"),
        rel("r2", "entity:b", "entity:c"),
        rel("r3", "entity:a", "entity:d"),
    ]
}

#[test]
fn test_traverse_single_hop() {
    let rels = sample_relations();
    let relations = traverse_graph(&rels, "entity:a", &None, 1);
    assert_eq!(relations.len(), 2); // a->b, a->d (depth 1 only)
    let targets: Vec<_> = relations.iter().map(|r| r.target_entity.as_str()).collect();
    assert!(targets.contains(&"entity:b"));
    assert!(targets.contains(&"entity:d"));
}

#[test]
fn test_traverse_multi_hop() {
    let rels = sample_relations();
    let relations = traverse_graph(&rels, "entity:a", &None, 3);
    assert_eq!(relations.len(), 3); // a->b, a->d, b->c
    let targets: Vec<_> = relations.iter().map(|r| r.target_entity.as_str()).collect();
    assert!(targets.contains(&"entity:b"));
    assert!(targets.contains(&"entity:d"));
    assert!(targets.contains(&"entity:c"));
}

#[test]
fn test_traverse_depth_limit() {
    let rels = sample_relations();
    let relations = traverse_graph(&rels, "entity:a", &None, 0);
    assert_eq!(relations.len(), 0); // depth 0: no expansion
}

#[test]
fn test_traverse_relation_type_filter() {
    let rels = sample_relations();
    let relations = traverse_graph(&rels, "entity:a", &Some(vec!["routes_to".to_string()]), 2);
    assert!(relations.len() >= 2);
    assert!(relations.iter().all(|r| r.relation_type == "routes_to"));
}

#[test]
fn test_traverse_empty_entity() {
    let rels = sample_relations();
    let relations = traverse_graph(&rels, "entity:nonexistent", &None, 2);
    assert!(relations.is_empty());
}

#[test]
fn test_traverse_cycle_no_infinite_loop() {
    let mut rels = sample_relations();
    rels.push(rel("r4", "entity:c", "entity:a"));
    let relations = traverse_graph(&rels, "entity:a", &None, 5);
    // finite: a->b, a->d, b->c; c->a would revisit a, skipped
    assert!(relations.len() <= 4);
    // every entity is visited at most once: targets are pairwise distinct
    for i in 0..relations.len() {
        for j in (i + 1)..relations.len() {
            assert_ne!(relations[i].target_entity, relations[j].target_entity);
        }
    }
    assert!(relations.len() <= 3);
}

#[test]
fn arrow_extraction_feeds_bfs() {
    // ingest-style flow: extract from content owned by an entity, store,
    // then traverse one hop from the left word's entity
    let relations = extract_routing_relations("planner", "Agent-A → Agent-B");
    let mut st = IndexStore::new();
    st.replace_relations("planner", relations);
    let found = traverse_graph(&st.relations, "entity:agent-a", &None, 1);
    assert_eq!(found.len(), 1);
    assert_eq!(found[0].target_entity, "entity:agent-b");
    assert_eq!(found[0].relation_type, "routes_to");
    // depth zero returns nothing
    let none = traverse_graph(&st.relations, "entity:agent-a", &None, 0);
    assert!(none.is_empty());
}

#[test]
fn replace_relations_is_idempotent_per_entity() {
    let mut st = IndexStore::new();
    st.replace_relations("planner", extract_routing_relations("planner", "A → B"));
    assert_eq!(st.relations.len(), 1);
    st.replace_relations("planner", extract_routing_relations("planner", "A → B"));
    // re-ingestion replaced, not duplicated
    assert_eq!(st.relations.len(), 1);
}
