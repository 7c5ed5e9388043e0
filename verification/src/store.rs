//! The in-memory model of the index: document and chunk tables, the
//! full-text entries kept in step with the chunk table, extracted
//! relations, and the append-only query and write-audit logs. Its
//! well-formedness carries the engine's core invariants: document
//! identifiers are the hex digest of the path, chunk identifiers are
//! `{doc_id}::{ordinal}` with ordinals contiguous from zero per document,
//! every chunk has exactly one full-text entry, and every stored
//! embedding is exactly 6144 bytes.

use crate::chunker::Chunk;
use crate::graph::Relation;
use crate::hashing::{doc_id_for_path, doc_id_of_path};
use crate::ingest::StoredHashes;
use crate::text::{dec_str, str_eq, usize_to_chars};
use vstd::prelude::*;
use vstd::string::StringSliceAdditionalSpecFns;

verus! {

/// One stored document.
pub struct DocumentRow {
    pub doc_id: String,
    pub doc_path: String,
    pub doc_type: String,
    pub namespace: String,
    pub agent_name: Option<String>,
    pub content_text: String,
    pub content_tokens: usize,
    pub last_modified: String,
    pub file_hash: String,
}

/// The mathematical image of a stored document.
#[verifier::ext_equal]
pub struct DocumentRowView {
    pub doc_id: Seq<char>,
    pub doc_path: Seq<char>,
    pub doc_type: Seq<char>,
    pub namespace: Seq<char>,
    pub agent_name: Option<Seq<char>>,
    pub content_text: Seq<char>,
    pub content_tokens: int,
    pub last_modified: Seq<char>,
    pub file_hash: Seq<char>,
}

impl View for DocumentRow {
    type V = DocumentRowView;

    open spec fn view(&self) -> DocumentRowView {
        DocumentRowView {
            doc_id: self.doc_id@,
            doc_path: self.doc_path@,
            doc_type: self.doc_type@,
            namespace: self.namespace@,
            agent_name: self.agent_name.deep_view(),
            content_text: self.content_text@,
            content_tokens: self.content_tokens as int,
            last_modified: self.last_modified@,
            file_hash: self.file_hash@,
        }
    }
}

impl DeepView for DocumentRow {
    type V = DocumentRowView;

    open spec fn deep_view(&self) -> DocumentRowView {
        self.view()
    }
}

/// One stored chunk.
pub struct ChunkRow {
    pub chunk_id: String,
    pub doc_id: String,
    pub chunk_index: usize,
    pub chunk_text: String,
    pub chunk_tokens: usize,
    pub section_header: Option<String>,
    pub chunk_type: Option<String>,
    pub embedding: Option<Vec<u8>>,
}

/// The mathematical image of a stored chunk.
#[verifier::ext_equal]
pub struct ChunkRowView {
    pub chunk_id: Seq<char>,
    pub doc_id: Seq<char>,
    pub chunk_index: int,
    pub chunk_text: Seq<char>,
    pub chunk_tokens: int,
    pub section_header: Option<Seq<char>>,
    pub chunk_type: Option<Seq<char>>,
    pub embedding: Option<Seq<u8>>,
}

impl View for ChunkRow {
    type V = ChunkRowView;

    open spec fn view(&self) -> ChunkRowView {
        ChunkRowView {
            chunk_id: self.chunk_id@,
            doc_id: self.doc_id@,
            chunk_index: self.chunk_index as int,
            chunk_text: self.chunk_text@,
            chunk_tokens: self.chunk_tokens as int,
            section_header: self.section_header.deep_view(),
            chunk_type: self.chunk_type.deep_view(),
            embedding: self.embedding.deep_view(),
        }
    }
}

impl DeepView for ChunkRow {
    type V = ChunkRowView;

    open spec fn deep_view(&self) -> ChunkRowView {
        self.view()
    }
}

/// One full-text entry: the indexed text of one chunk.
pub struct FtsEntry {
    pub chunk_id: String,
    pub chunk_text: String,
    pub section_header: Option<String>,
}

/// The mathematical image of a full-text entry.
#[verifier::ext_equal]
pub struct FtsEntryView {
    pub chunk_id: Seq<char>,
    pub chunk_text: Seq<char>,
    pub section_header: Option<Seq<char>>,
}

impl View for FtsEntry {
    type V = FtsEntryView;

    open spec fn view(&self) -> FtsEntryView {
        FtsEntryView {
            chunk_id: self.chunk_id@,
            chunk_text: self.chunk_text@,
            section_header: self.section_header.deep_view(),
        }
    }
}

impl DeepView for FtsEntry {
    type V = FtsEntryView;

    open spec fn deep_view(&self) -> FtsEntryView {
        self.view()
    }
}

/// One query-log line.
pub struct QueryLogRow {
    pub query_id: String,
    pub query_text: String,
    pub retrieval_method: String,
    pub retrieved_chunk_ids: String,
    pub latency_ms: i64,
    pub result_count: usize,
}

/// One write-audit line.
pub struct OperationRow {
    pub operation_id: String,
    pub timestamp: String,
    pub operation_type: String,
    pub doc_path: String,
    pub doc_id: Option<String>,
    pub success: bool,
    pub error_message: Option<String>,
    pub metadata_json: Option<String>,
}

/// The chunk identifier of ordinal `n` under a document.
pub open spec fn chunk_id_spec(doc_id: Seq<char>, ordinal: int) -> Seq<char> {
    doc_id + "::"@ + dec_str(ordinal)
}

/// The chunks that belong to one document, in table order.
pub open spec fn chunks_of(chunks: Seq<ChunkRowView>, doc_id: Seq<char>) -> Seq<ChunkRowView> {
    chunks.filter(|c: ChunkRowView| c.doc_id == doc_id)
}

/// The in-memory index.
pub struct IndexStore {
    pub documents: Vec<DocumentRow>,
    pub chunks: Vec<ChunkRow>,
    pub fts: Vec<FtsEntry>,
    pub relations: Vec<Relation>,
    pub query_log: Vec<QueryLogRow>,
    pub operations: Vec<OperationRow>,
}

impl IndexStore {
    /// The store's invariants: unique document paths; every document
    /// identifier the SHA-256 hex digest of its path; every chunk owned by
    /// a stored document, with identifier `{doc_id}::{ordinal}` and
    /// ordinals contiguous from zero per document; one full-text entry per
    /// chunk, in step; every present embedding exactly 6144 bytes.
    pub open spec fn wf(&self) -> bool {
        let docs = self.documents.deep_view();
        let chunks = self.chunks.deep_view();
        let fts = self.fts.deep_view();
        &&& forall|i: int, j: int|
            0 <= i < j < docs.len() ==> (#[trigger] docs[i]).doc_path != (
            #[trigger] docs[j]).doc_path
        &&& forall|i: int|
            0 <= i < docs.len() ==> (#[trigger] docs[i]).doc_id == doc_id_of_path(
                docs[i].doc_path,
            )
        &&& forall|i: int|
            0 <= i < chunks.len() ==> exists|d: int|
                0 <= d < docs.len() && (#[trigger] chunks[i]).doc_id == (#[trigger] docs[d]).doc_id
        &&& forall|i: int|
            0 <= i < chunks.len() ==> (#[trigger] chunks[i]).chunk_id == chunk_id_spec(
                chunks[i].doc_id,
                chunks[i].chunk_index,
            )
        &&& forall|d: int|
            0 <= d < docs.len() ==> {
                let cd = chunks_of(chunks, (#[trigger] docs[d]).doc_id);
                forall|k: int| 0 <= k < cd.len() ==> (#[trigger] cd[k]).chunk_index == k
            }
        &&& fts.len() == chunks.len()
        &&& forall|i: int|
            0 <= i < chunks.len() ==> (#[trigger] fts[i]).chunk_id == chunks[i].chunk_id && fts[i].chunk_text
                == chunks[i].chunk_text && fts[i].section_header == chunks[i].section_header
        &&& forall|i: int|
            0 <= i < chunks.len() ==> ((#[trigger] chunks[i]).embedding is Some
                ==> chunks[i].embedding->0.len() == 6144)
    }

    /// An empty index.
    pub fn new() -> (r: IndexStore)
        ensures
            r.wf(),
            r.documents.deep_view().len() == 0,
            r.chunks.deep_view().len() == 0,
            r.fts.deep_view().len() == 0,
            r.relations.deep_view().len() == 0,
            r.query_log@.len() == 0,
            r.operations@.len() == 0,
    {
        IndexStore {
            documents: Vec::new(),
            chunks: Vec::new(),
            fts: Vec::new(),
            relations: Vec::new(),
            query_log: Vec::new(),
            operations: Vec::new(),
        }
    }

    /// How many documents are stored.
    pub fn document_count(&self) -> (n: usize)
        ensures
            n == self.documents.deep_view().len(),
    {
        self.documents.len()
    }

    /// How many chunks are stored.
    pub fn chunk_count(&self) -> (n: usize)
        ensures
            n == self.chunks.deep_view().len(),
    {
        self.chunks.len()
    }

    /// The map of stored document paths to their content hashes.
    pub fn get_existing_hashes(&self) -> (r: StoredHashes)
        ensures
            r.entries.deep_view().len() == self.documents.deep_view().len(),
            forall|i: int|
                0 <= i < self.documents.deep_view().len() ==> (
                #[trigger] r.entries.deep_view()[i]).path
                    == self.documents.deep_view()[i].doc_path && r.entries.deep_view()[i].hash
                    == self.documents.deep_view()[i].file_hash,
    {
        let mut r = StoredHashes::new();
        let mut i: usize = 0;
        while i < self.documents.len()
            invariant
                i <= self.documents@.len(),
                r.entries.deep_view().len() == i,
                forall|j: int|
                    0 <= j < i ==> (#[trigger] r.entries.deep_view()[j]).path
                        == self.documents.deep_view()[j].doc_path && r.entries.deep_view()[j].hash
                        == self.documents.deep_view()[j].file_hash,
            decreases self.documents@.len() - i,
        {
            r.push(self.documents[i].doc_path.clone(), self.documents[i].file_hash.clone());
            proof {
                assert(self.documents.deep_view()[i as int] == self.documents@[i as int]@);
            }
            i = i + 1;
        }
        r
    }

    /// The stored paths that are absent from the given set of discovered
    /// paths: the cleanup candidates.
    pub fn find_deleted_documents(&self, existing_paths: &Vec<String>) -> (r: Vec<String>)
        ensures
            r.deep_view() == self.documents.deep_view().map_values(
                |d: DocumentRowView| d.doc_path,
            ).filter(
                |p: Seq<char>| !existing_paths.deep_view().contains(p),
            ),
    {
        let ghost target = self.documents.deep_view().map_values(
            |d: DocumentRowView| d.doc_path,
        ).filter(|p: Seq<char>| !existing_paths.deep_view().contains(p));
        let mut r: Vec<String> = Vec::new();
        let mut i: usize = 0;
        proof {
            let paths = self.documents.deep_view().map_values(|d: DocumentRowView| d.doc_path);
            assert(paths.subrange(0, 0).filter(
                |p: Seq<char>| !existing_paths.deep_view().contains(p),
            ) =~= Seq::<Seq<char>>::empty());
        }
        while i < self.documents.len()
            invariant
                i <= self.documents@.len(),
                r.deep_view() == self.documents.deep_view().map_values(
                    |d: DocumentRowView| d.doc_path,
                ).subrange(0, i as int).filter(
                    |p: Seq<char>| !existing_paths.deep_view().contains(p),
                ),
            decreases self.documents@.len() - i,
        {
            let ghost paths = self.documents.deep_view().map_values(
                |d: DocumentRowView| d.doc_path,
            );
            let mut found = false;
            let mut j: usize = 0;
            while j < existing_paths.len()
                invariant
                    j <= existing_paths@.len(),
                    i < self.documents@.len(),
                    found == exists|u: int|
                        0 <= u < j && existing_paths.deep_view()[u]
                            == self.documents.deep_view()[i as int].doc_path,
                decreases existing_paths@.len() - j,
            {
                if str_eq(existing_paths[j].as_str(), self.documents[i].doc_path.as_str()) {
                    found = true;
                    proof {
                        assert(existing_paths.deep_view()[j as int] == existing_paths@[j as int]@);
                        assert(self.documents.deep_view()[i as int].doc_path
                            == self.documents@[i as int]@.doc_path);
                    }
                }
                j = j + 1;
            }
            proof {
                assert(found == existing_paths.deep_view().contains(
                    self.documents.deep_view()[i as int].doc_path,
                )) by {
                    if found {
                        let u = choose|u: int|
                            0 <= u < existing_paths.deep_view().len()
                                && existing_paths.deep_view()[u]
                                == self.documents.deep_view()[i as int].doc_path;
                    } else {
                        if existing_paths.deep_view().contains(
                            self.documents.deep_view()[i as int].doc_path,
                        ) {
                            let u = choose|u: int|
                                0 <= u < existing_paths.deep_view().len()
                                    && existing_paths.deep_view()[u]
                                    == self.documents.deep_view()[i as int].doc_path;
                        }
                    }
                }
                let pre = paths.subrange(0, i as int);
                let cur = paths.subrange(0, i + 1 as int);
                assert(cur.drop_last() =~= pre);
                assert(cur.last() == paths[i as int]);
                assert(paths[i as int] == self.documents.deep_view()[i as int].doc_path);
                reveal_with_fuel(Seq::filter, 1);
            }
            if !found {
                let ghost old_dv = r.deep_view();
                r.push(self.documents[i].doc_path.clone());
                proof {
                    assert(self.documents.deep_view()[i as int].doc_path == self.documents@[
                        i as int]@.doc_path);
                    assert(r.deep_view() =~= old_dv.push(
                        self.documents.deep_view()[i as int].doc_path,
                    ));
                }
            }
            i = i + 1;
        }
        proof {
            let paths = self.documents.deep_view().map_values(|d: DocumentRowView| d.doc_path);
            assert(paths.subrange(0, paths.len() as int) =~= paths);
        }
        r
    }

    /// Append one query-log line; the log only grows, and an insert never
    /// fails.
    pub fn log_query(&mut self, row: QueryLogRow)
        requires
            old(self).wf(),
        ensures
            final (self).wf(),
            final (self).query_log@ == old(self).query_log@.push(row),
            final (self).documents == old(self).documents,
            final (self).chunks == old(self).chunks,
            final (self).fts == old(self).fts,
            final (self).relations == old(self).relations,
    {
        self.query_log.push(row);
    }

    /// Append one write-audit line.
    pub fn log_operation(&mut self, row: OperationRow)
        requires
            old(self).wf(),
        ensures
            final (self).wf(),
            final (self).operations@ == old(self).operations@.push(row),
            final (self).documents == old(self).documents,
            final (self).chunks == old(self).chunks,
            final (self).fts == old(self).fts,
            final (self).relations == old(self).relations,
    {
        self.operations.push(row);
    }
}

/// The predicate keeping chunks that do not belong to the given document.
pub open spec fn not_doc_pred(doc_id: Seq<char>) -> spec_fn(ChunkRowView) -> bool {
    |c: ChunkRowView| c.doc_id != doc_id
}

/// The predicate selecting chunks of the given document.
pub open spec fn is_doc_pred(doc_id: Seq<char>) -> spec_fn(ChunkRowView) -> bool {
    |c: ChunkRowView| c.doc_id == doc_id
}

/// Removing one document's chunks leaves every other document's chunk
/// list untouched.
pub proof fn lemma_chunks_of_after_remove(s: Seq<ChunkRowView>, removed: Seq<char>, d: Seq<char>)
    requires
        d != removed,
    ensures
        chunks_of(s.filter(not_doc_pred(removed)), d) == chunks_of(s, d),
    decreases s.len(),
{
    reveal_with_fuel(Seq::filter, 1);
    if s.len() > 0 {
        lemma_chunks_of_after_remove(s.drop_last(), removed, d);
        let t = s.drop_last().filter(not_doc_pred(removed));
        assert(not_doc_pred(removed)(s.last()) == (s.last().doc_id != removed));
        assert(is_doc_pred(d)(s.last()) == (s.last().doc_id == d));
        if s.last().doc_id != removed {
            assert(s.filter(not_doc_pred(removed)) =~= t.push(s.last()));
            let tp = t.push(s.last());
            assert(tp.drop_last() =~= t);
            assert(tp.last() == s.last());
            if s.last().doc_id == d {
                assert(chunks_of(tp, d) =~= chunks_of(t, d).push(s.last()));
                assert(chunks_of(s, d) =~= chunks_of(s.drop_last(), d).push(s.last()));
            } else {
                assert(chunks_of(tp, d) =~= chunks_of(t, d));
                assert(chunks_of(s, d) =~= chunks_of(s.drop_last(), d));
            }
        } else {
            assert(s.filter(not_doc_pred(removed)) =~= t);
            assert(chunks_of(s, d) =~= chunks_of(s.drop_last(), d));
        }
    } else {
        assert(s.filter(not_doc_pred(removed)) =~= s);
        assert(chunks_of(s, d) =~= chunks_of(s.filter(not_doc_pred(removed)), d));
    }
}

/// Every filtered element is an element of the original sequence.
proof fn lemma_filter_subset(s: Seq<ChunkRowView>, p: spec_fn(ChunkRowView) -> bool)
    ensures
        forall|i: int| 0 <= i < s.filter(p).len() ==> s.contains(#[trigger] s.filter(p)[i]),
    decreases s.len(),
{
    reveal_with_fuel(Seq::filter, 1);
    if s.len() > 0 {
        lemma_filter_subset(s.drop_last(), p);
        let t = s.drop_last().filter(p);
        assert forall|i: int| 0 <= i < s.filter(p).len() implies s.contains(
            #[trigger] s.filter(p)[i],
        ) by {
            if i < t.len() {
                assert(s.drop_last().contains(t[i]));
                let j = choose|j: int| 0 <= j < s.drop_last().len() && s.drop_last()[j] == t[i];
                assert(s[j] == t[i]);
            } else {
                assert(s.filter(p)[i] == s.last());
                assert(s[s.len() - 1] == s.last());
            }
        }
    }
}

/// A sequence whose members all belong to one document filters to itself.
pub proof fn lemma_chunks_of_all_match(s: Seq<ChunkRowView>, d: Seq<char>)
    requires
        forall|i: int| 0 <= i < s.len() ==> (#[trigger] s[i]).doc_id == d,
    ensures
        chunks_of(s, d) == s,
    decreases s.len(),
{
    reveal_with_fuel(Seq::filter, 1);
    if s.len() > 0 {
        lemma_chunks_of_all_match(s.drop_last(), d);
        assert(chunks_of(s, d) =~= chunks_of(s.drop_last(), d).push(s.last()));
        assert(s.drop_last().push(s.last()) =~= s);
    } else {
        assert(chunks_of(s, d) =~= s);
    }
}

/// A sequence with no member of one document filters to nothing.
pub proof fn lemma_chunks_of_none_match(s: Seq<ChunkRowView>, d: Seq<char>)
    requires
        forall|i: int| 0 <= i < s.len() ==> (#[trigger] s[i]).doc_id != d,
    ensures
        chunks_of(s, d) == Seq::<ChunkRowView>::empty(),
    decreases s.len(),
{
    reveal_with_fuel(Seq::filter, 1);
    if s.len() > 0 {
        lemma_chunks_of_none_match(s.drop_last(), d);
        assert(chunks_of(s, d) =~= chunks_of(s.drop_last(), d));
    } else {
        assert(chunks_of(s, d) =~= Seq::<ChunkRowView>::empty());
    }
}

/// Two chunk tables that agree pointwise on owners and ordinals have, for
/// every document, chunk lists agreeing on ordinals.
pub proof fn lemma_chunks_of_pointwise(s1: Seq<ChunkRowView>, s2: Seq<ChunkRowView>, d: Seq<char>)
    requires
        s1.len() == s2.len(),
        forall|i: int|
            0 <= i < s1.len() ==> (#[trigger] s2[i]).doc_id == s1[i].doc_id && s2[i].chunk_index
                == s1[i].chunk_index,
    ensures
        chunks_of(s2, d).len() == chunks_of(s1, d).len(),
        forall|k: int|
            0 <= k < chunks_of(s1, d).len() ==> (#[trigger] chunks_of(s2, d)[k]).chunk_index
                == chunks_of(s1, d)[k].chunk_index,
    decreases s1.len(),
{
    reveal_with_fuel(Seq::filter, 1);
    if s1.len() > 0 {
        assert(forall|i: int|
            0 <= i < s1.len() - 1 ==> (#[trigger] s2.drop_last()[i]).doc_id
                == s1.drop_last()[i].doc_id && s2.drop_last()[i].chunk_index
                == s1.drop_last()[i].chunk_index);
        lemma_chunks_of_pointwise(s1.drop_last(), s2.drop_last(), d);
        if s1.last().doc_id == d {
            assert(chunks_of(s1, d) =~= chunks_of(s1.drop_last(), d).push(s1.last()));
            assert(chunks_of(s2, d) =~= chunks_of(s2.drop_last(), d).push(s2.last()));
        } else {
            assert(chunks_of(s1, d) =~= chunks_of(s1.drop_last(), d));
            assert(chunks_of(s2, d) =~= chunks_of(s2.drop_last(), d));
        }
    }
}

/// The chunk rows built for one document from ordinal zero on: each chunk
/// text with its metadata, no embedding yet.
pub open spec fn built_rows(doc_id: Seq<char>, cs: Seq<crate::chunker::ChunkView>) -> Seq<
    ChunkRowView,
> {
    Seq::new(
        cs.len(),
        |k: int|
            ChunkRowView {
                chunk_id: chunk_id_spec(doc_id, k),
                doc_id: doc_id,
                chunk_index: k,
                chunk_text: cs[k].text,
                chunk_tokens: cs[k].tokens as int,
                section_header: cs[k].section_header,
                chunk_type: cs[k].chunk_type,
                embedding: None,
            },
    )
}

/// The first position holding a document with the given path, if any.
pub open spec fn find_doc_by_path(docs: Seq<DocumentRowView>, path: Seq<char>) -> Option<int>
    decreases docs.len(),
{
    if docs.len() == 0 {
        None
    } else if docs[0].doc_path == path {
        Some(0int)
    } else {
        match find_doc_by_path(docs.drop_first(), path) {
            Some(j) => Some(j + 1),
            None => None,
        }
    }
}

pub proof fn lemma_find_doc_props(docs: Seq<DocumentRowView>, path: Seq<char>)
    ensures
        find_doc_by_path(docs, path) is Some ==> {
            let j = find_doc_by_path(docs, path)->0;
            0 <= j < docs.len() && docs[j].doc_path == path && forall|m: int|
                0 <= m < j ==> (#[trigger] docs[m]).doc_path != path
        },
        find_doc_by_path(docs, path) is None ==> forall|m: int|
            0 <= m < docs.len() ==> (#[trigger] docs[m]).doc_path != path,
    decreases docs.len(),
{
    if docs.len() > 0 && docs[0].doc_path != path {
        lemma_find_doc_props(docs.drop_first(), path);
        assert(forall|m: int| 0 <= m < docs.len() - 1 ==> docs.drop_first()[m] == docs[m + 1]);
        if find_doc_by_path(docs.drop_first(), path) is Some {
            let j = find_doc_by_path(docs.drop_first(), path)->0;
            assert forall|m: int| 0 <= m < j + 1 implies (#[trigger] docs[m]).doc_path != path by {
                if m > 0 {
                    assert(docs.drop_first()[m - 1].doc_path != path);
                }
            }
        } else {
            assert forall|m: int| 0 <= m < docs.len() implies (#[trigger] docs[m]).doc_path
                != path by {
                if m > 0 {
                    assert(docs.drop_first()[m - 1].doc_path != path);
                }
            }
        }
    }
}

impl IndexStore {
    /// Insert or replace the document stored under `doc_path`, deleting
    /// every chunk (and full-text entry) it owned: the replace-chunks
    /// upsert. Returns the document identifier, the hex digest of the
    /// path.
    pub fn upsert_document(
        &mut self,
        doc_path: &str,
        doc_type: &str,
        namespace: &str,
        agent_name: Option<&String>,
        content_text: &str,
        content_tokens: usize,
        last_modified: &str,
        file_hash: &str,
    ) -> (r: String)
        requires
            old(self).wf(),
        ensures
            final (self).wf(),
            r@ == doc_id_of_path(doc_path@),
            final (self).chunks.deep_view() == old(self).chunks.deep_view().filter(
                not_doc_pred(doc_id_of_path(doc_path@)),
            ),
            chunks_of(final (self).chunks.deep_view(), r@).len() == 0,
            find_doc_by_path(final (self).documents.deep_view(), doc_path@) is Some,
            ({
                let docs = final (self).documents.deep_view();
                let j = find_doc_by_path(docs, doc_path@)->0;
                docs[j] == DocumentRowView {
                    doc_id: doc_id_of_path(doc_path@),
                    doc_path: doc_path@,
                    doc_type: doc_type@,
                    namespace: namespace@,
                    agent_name: match agent_name {
                        Some(a) => Some(a@),
                        None => None,
                    },
                    content_text: content_text@,
                    content_tokens: content_tokens as int,
                    last_modified: last_modified@,
                    file_hash: file_hash@,
                }
            }),
            final (self).relations == old(self).relations,
    {
        let doc_id = doc_id_for_path(doc_path);
        let ghost id = doc_id@;
        let ghost old_chunks = self.chunks.deep_view();
        let ghost old_fts = self.fts.deep_view();
        let ghost old_docs = self.documents.deep_view();

        // delete this document's chunks, and their full-text entries, in step
        let mut kept_chunks: Vec<ChunkRow> = Vec::new();
        let mut kept_fts: Vec<FtsEntry> = Vec::new();
        let mut i: usize = 0;
        proof {
            assert(old_chunks.subrange(0, 0).filter(not_doc_pred(id)) =~= Seq::<
                ChunkRowView,
            >::empty());
        }
        while i < self.chunks.len()
            invariant
                i <= self.chunks@.len(),
                old(self).wf(),
                id == doc_id@,
                old_chunks == self.chunks.deep_view(),
                old_fts == self.fts.deep_view(),
                self.chunks == old(self).chunks,
                self.fts == old(self).fts,
                kept_chunks.deep_view() == old_chunks.subrange(0, i as int).filter(
                    not_doc_pred(id),
                ),
                kept_fts.deep_view().len() == kept_chunks.deep_view().len(),
                forall|j: int|
                    0 <= j < kept_chunks.deep_view().len() ==> (
                    #[trigger] kept_fts.deep_view()[j]).chunk_id
                        == kept_chunks.deep_view()[j].chunk_id
                        && kept_fts.deep_view()[j].chunk_text
                        == kept_chunks.deep_view()[j].chunk_text
                        && kept_fts.deep_view()[j].section_header
                        == kept_chunks.deep_view()[j].section_header,
            decreases self.chunks@.len() - i,
        {
            proof {
                let pre = old_chunks.subrange(0, i as int);
                let cur = old_chunks.subrange(0, i + 1 as int);
                assert(cur.drop_last() =~= pre);
                assert(cur.last() == old_chunks[i as int]);
                reveal_with_fuel(Seq::filter, 1);
                assert(not_doc_pred(id)(old_chunks[i as int]) == (old_chunks[i as int].doc_id
                    != id));
                assert(old_chunks[i as int].doc_id == self.chunks@[i as int]@.doc_id);
            }
            if !str_eq(self.chunks[i].doc_id.as_str(), doc_id.as_str()) {
                let ghost oc = kept_chunks.deep_view();
                let ghost of = kept_fts.deep_view();
                let c = copy_chunk_row(&self.chunks[i]);
                let f = copy_fts_entry(&self.fts[i]);
                proof {
                    assert(c@ == old_chunks[i as int]);
                    assert(f@ == old_fts[i as int]);
                }
                kept_chunks.push(c);
                kept_fts.push(f);
                proof {
                    assert(kept_chunks.deep_view() =~= oc.push(old_chunks[i as int]));
                    assert(kept_fts.deep_view() =~= of.push(old_fts[i as int]));
                }
            }
            i = i + 1;
        }
        proof {
            assert(old_chunks.subrange(0, old_chunks.len() as int) =~= old_chunks);
        }
        self.chunks = kept_chunks;
        self.fts = kept_fts;

        // insert or replace the document row
        let row = DocumentRow {
            doc_id: doc_id.clone(),
            doc_path: doc_path.to_owned(),
            doc_type: doc_type.to_owned(),
            namespace: namespace.to_owned(),
            agent_name: match agent_name {
                Some(a) => Some(a.clone()),
                None => None,
            },
            content_text: content_text.to_owned(),
            content_tokens,
            last_modified: last_modified.to_owned(),
            file_hash: file_hash.to_owned(),
        };
        let mut at: usize = 0;
        let mut found = false;
        while at < self.documents.len() && !found
            invariant_except_break
                at <= self.documents@.len(),
                old_docs == self.documents.deep_view(),
                self.documents == old(self).documents,
                !found,
                forall|m: int| 0 <= m < at ==> (#[trigger] old_docs[m]).doc_path != doc_path@,
            ensures
                old_docs == self.documents.deep_view(),
                self.documents == old(self).documents,
                found ==> at < old_docs.len() && old_docs[at as int].doc_path == doc_path@
                    && forall|m: int| 0 <= m < at ==> (#[trigger] old_docs[m]).doc_path
                    != doc_path@,
                !found ==> at == old_docs.len() && forall|m: int|
                    0 <= m < old_docs.len() ==> (#[trigger] old_docs[m]).doc_path != doc_path@,
            decreases self.documents@.len() - at,
        {
            if str_eq(self.documents[at].doc_path.as_str(), doc_path) {
                found = true;
                proof {
                    assert(old_docs[at as int].doc_path == self.documents@[at as int]@.doc_path);
                }
                break ;
            }
            proof {
                assert(old_docs[at as int].doc_path == self.documents@[at as int]@.doc_path);
            }
            at = at + 1;
        }
        let ghost rowv = row@;
        if found {
            let _ = self.documents.remove(at);
            self.documents.insert(at, row);
            proof {
                assert(self.documents.deep_view() =~~= old_docs.update(at as int, rowv));
            }
        } else {
            self.documents.push(row);
            proof {
                assert(self.documents.deep_view() =~~= old_docs.push(rowv));
            }
        }
        proof {
            let new_docs = self.documents.deep_view();
            let new_chunks = self.chunks.deep_view();
            // the new chunk table is the old one without this document's rows
            assert(new_chunks == old_chunks.filter(not_doc_pred(id)));
            old_chunks.filter_lemma(not_doc_pred(id));
            assert(forall|i2: int|
                0 <= i2 < new_chunks.len() ==> (#[trigger] new_chunks[i2]).doc_id != id);
            lemma_chunks_of_none_match(new_chunks, id);
            // find lands on the stored row
            if found {
                lemma_find_at(new_docs, doc_path@, at as int);
            } else {
                lemma_find_at(new_docs, doc_path@, old_docs.len() as int);
            }
            // well-formedness of the result
            old_chunks.filter_lemma(not_doc_pred(id));
            lemma_filter_subset(old_chunks, not_doc_pred(id));
            assert forall|i2: int|
                0 <= i2 < new_chunks.len() implies exists|d: int|
                0 <= d < new_docs.len() && (#[trigger] new_chunks[i2]).doc_id == (
                #[trigger] new_docs[d]).doc_id by {
                assert(old_chunks.contains(new_chunks[i2]));
                let oi = choose|oi: int|
                    0 <= oi < old_chunks.len() && old_chunks[oi] == new_chunks[i2];
                let od = choose|od: int|
                    0 <= od < old_docs.len() && old_chunks[oi].doc_id == old_docs[od].doc_id;
                if found {
                    if od == at {
                        assert(new_docs[at as int].doc_id == old_docs[at as int].doc_id);
                    } else {
                        assert(new_docs[od].doc_id == old_docs[od].doc_id);
                    }
                } else {
                    assert(new_docs[od].doc_id == old_docs[od].doc_id);
                }
            }
            assert forall|i2: int|
                0 <= i2 < new_chunks.len() implies (#[trigger] new_chunks[i2]).chunk_id
                == chunk_id_spec(new_chunks[i2].doc_id, new_chunks[i2].chunk_index) && (
            new_chunks[i2].embedding is Some ==> new_chunks[i2].embedding->0.len() == 6144) by {
                assert(old_chunks.contains(new_chunks[i2]));
                let oi = choose|oi: int|
                    0 <= oi < old_chunks.len() && old_chunks[oi] == new_chunks[i2];
            }
            assert forall|d: int|
                0 <= d < new_docs.len() implies {
                let cd = chunks_of(new_chunks, (#[trigger] new_docs[d]).doc_id);
                forall|k: int| 0 <= k < cd.len() ==> (#[trigger] cd[k]).chunk_index == k
            } by {
                if new_docs[d].doc_id == id {
                    lemma_chunks_of_none_match(new_chunks, id);
                } else {
                    lemma_chunks_of_after_remove(old_chunks, id, new_docs[d].doc_id);
                    if found && d == at {
                        // replaced row: same path, same identifier
                        assert(old_docs[at as int].doc_id == doc_id_of_path(doc_path@));
                        assert(new_docs[d].doc_id == id);
                    } else {
                        assert(new_docs[d].doc_id == old_docs[d].doc_id);
                    }
                }
            }
        }
        doc_id
    }
}

proof fn lemma_find_at(docs: Seq<DocumentRowView>, path: Seq<char>, j: int)
    requires
        0 <= j < docs.len(),
        docs[j].doc_path == path,
        forall|m: int| 0 <= m < j ==> (#[trigger] docs[m]).doc_path != path,
    ensures
        find_doc_by_path(docs, path) == Some(j),
    decreases j,
{
    if j > 0 {
        lemma_find_at(docs.drop_first(), path, j - 1);
        assert(forall|m: int| 0 <= m < docs.len() - 1 ==> docs.drop_first()[m] == docs[m + 1]);
    }
}

/// A field-for-field copy of a chunk row.
pub fn copy_chunk_row(c: &ChunkRow) -> (r: ChunkRow)
    ensures
        r@ == c@,
{
    ChunkRow {
        chunk_id: c.chunk_id.clone(),
        doc_id: c.doc_id.clone(),
        chunk_index: c.chunk_index,
        chunk_text: c.chunk_text.clone(),
        chunk_tokens: c.chunk_tokens,
        section_header: match &c.section_header {
            Some(h) => Some(h.clone()),
            None => None,
        },
        chunk_type: match &c.chunk_type {
            Some(t) => Some(t.clone()),
            None => None,
        },
        embedding: match &c.embedding {
            Some(b) => Some(b.clone()),
            None => None,
        },
    }
}

/// A field-for-field copy of a full-text entry.
pub fn copy_fts_entry(f: &FtsEntry) -> (r: FtsEntry)
    ensures
        r@ == f@,
{
    FtsEntry {
        chunk_id: f.chunk_id.clone(),
        chunk_text: f.chunk_text.clone(),
        section_header: match &f.section_header {
            Some(h) => Some(h.clone()),
            None => None,
        },
    }
}

/// Appending rows that all belong to one document leaves every other
/// document's chunk list untouched.
proof fn lemma_append_other_doc(
    old_chunks: Seq<ChunkRowView>,
    target: Seq<ChunkRowView>,
    id: Seq<char>,
    dd: Seq<char>,
)
    requires
        forall|i: int| 0 <= i < target.len() ==> (#[trigger] target[i]).doc_id == id,
        dd != id,
    ensures
        chunks_of(old_chunks + target, dd) == chunks_of(old_chunks, dd),
{
    broadcast use Seq::filter_distributes_over_add;

    assert(forall|i: int| 0 <= i < target.len() ==> (#[trigger] target[i]).doc_id != dd);
    lemma_chunks_of_none_match(target, dd);
    Seq::add_empty_right(chunks_of(old_chunks, dd), chunks_of(target, dd));
    assert(chunks_of(old_chunks + target, dd) =~= chunks_of(old_chunks, dd) + chunks_of(
        target,
        dd,
    ));
}

impl IndexStore {
    /// Append the chunks of one freshly upserted document, ordinals from
    /// zero, each with its full-text entry. Returns how many were stored.
    #[verifier::rlimit(50)]
    pub fn insert_chunks(&mut self, doc_id: &str, chunks: &Vec<Chunk>) -> (r: usize)
        requires
            old(self).wf(),
            exists|d: int|
                0 <= d < old(self).documents.deep_view().len() && (#[trigger] old(
                    self,
                ).documents.deep_view()[d]).doc_id == doc_id@,
            chunks_of(old(self).chunks.deep_view(), doc_id@).len() == 0,
        ensures
            final (self).wf(),
            r == chunks@.len(),
            final (self).chunks.deep_view() == old(self).chunks.deep_view() + built_rows(
                doc_id@,
                chunks.deep_view(),
            ),
            chunks_of(final (self).chunks.deep_view(), doc_id@) == built_rows(
                doc_id@,
                chunks.deep_view(),
            ),
            final (self).documents == old(self).documents,
            final (self).relations == old(self).relations,
    {
        broadcast use Seq::filter_distributes_over_add;

        let ghost old_chunks = self.chunks.deep_view();
        let ghost target = built_rows(doc_id@, chunks.deep_view());
        let n = chunks.len();
        let mut k: usize = 0;
        while k < n
            invariant
                k <= n,
                n == chunks@.len(),
                target == built_rows(doc_id@, chunks.deep_view()),
                self.documents == old(self).documents,
                self.relations == old(self).relations,
                self.query_log == old(self).query_log,
                self.operations == old(self).operations,
                self.chunks.deep_view() == old_chunks + target.subrange(0, k as int),
                self.fts.deep_view().len() == self.chunks.deep_view().len(),
                old(self).fts.deep_view().len() == old_chunks.len(),
                forall|j: int|
                    0 <= j < old_chunks.len() ==> self.fts.deep_view()[j] == old(
                        self,
                    ).fts.deep_view()[j],
                forall|j: int|
                    old_chunks.len() <= j < self.chunks.deep_view().len() ==> (
                    #[trigger] self.fts.deep_view()[j]).chunk_id
                        == self.chunks.deep_view()[j].chunk_id && self.fts.deep_view()[j].chunk_text
                        == self.chunks.deep_view()[j].chunk_text
                        && self.fts.deep_view()[j].section_header
                        == self.chunks.deep_view()[j].section_header,
            decreases n - k,
        {
            let c = &chunks[k];
            let id_chars = crate::text::chars_of(doc_id);
            let ord_chars = usize_to_chars(k);
            let mut cid = String::new();
            cid.append(doc_id);
            cid.append("::");
            let ord = crate::text::string_from_chars(&ord_chars);
            cid.append(ord.as_str());
            proof {
                assert(cid@ == chunk_id_spec(doc_id@, k as int));
            }
            let row = ChunkRow {
                chunk_id: cid.clone(),
                doc_id: doc_id.to_owned(),
                chunk_index: k,
                chunk_text: c.text.clone(),
                chunk_tokens: c.tokens,
                section_header: match &c.section_header {
                    Some(h) => Some(h.clone()),
                    None => None,
                },
                chunk_type: match &c.chunk_type {
                    Some(t) => Some(t.clone()),
                    None => None,
                },
                embedding: None,
            };
            let fe = FtsEntry {
                chunk_id: cid,
                chunk_text: c.text.clone(),
                section_header: match &c.section_header {
                    Some(h) => Some(h.clone()),
                    None => None,
                },
            };
            let ghost oc = self.chunks.deep_view();
            let ghost of = self.fts.deep_view();
            let ghost rowv = row@;
            let ghost fev = fe@;
            self.chunks.push(row);
            self.fts.push(fe);
            proof {
                assert(chunks.deep_view()[k as int] == chunks@[k as int]@);
                assert(rowv =~~= target[k as int]);
                assert(self.chunks.deep_view() =~= oc.push(target[k as int]));
                assert(self.chunks.deep_view() =~= old_chunks + target.subrange(0, k + 1 as int));
                assert(self.fts.deep_view() =~= of.push(fev));
                assert(fev.chunk_id == rowv.chunk_id && fev.chunk_text == rowv.chunk_text
                    && fev.section_header == rowv.section_header);
            }
            k = k + 1;
        }
        proof {
            assert(target.subrange(0, target.len() as int) =~= target);
            let new_chunks = self.chunks.deep_view();
            let new_docs = self.documents.deep_view();
            assert(new_chunks == old_chunks + target);
            // chunk list of this document
            assert(forall|i: int| 0 <= i < target.len() ==> (#[trigger] target[i]).doc_id == doc_id@);
            lemma_chunks_of_all_match(target, doc_id@);
            assert(chunks_of(new_chunks, doc_id@) =~= chunks_of(old_chunks, doc_id@) + chunks_of(
                target,
                doc_id@,
            ));
            assert(chunks_of(new_chunks, doc_id@) =~= target);
            // well-formedness
            assert forall|d: int|
                0 <= d < new_docs.len() implies {
                let cd = chunks_of(new_chunks, (#[trigger] new_docs[d]).doc_id);
                forall|k2: int| 0 <= k2 < cd.len() ==> (#[trigger] cd[k2]).chunk_index == k2
            } by {
                let dd = new_docs[d].doc_id;
                assert(chunks_of(new_chunks, dd) =~= chunks_of(old_chunks, dd) + chunks_of(
                    target,
                    dd,
                ));
                if dd == doc_id@ {
                    assert(chunks_of(old_chunks, dd).len() == 0);
                    assert(chunks_of(new_chunks, dd) =~= target);
                } else {
                    lemma_append_other_doc(old_chunks, target, doc_id@, dd);
                    assert(chunks_of(new_chunks, dd) == chunks_of(old_chunks, dd));
                }
            }
            assert forall|i: int|
                0 <= i < new_chunks.len() implies exists|d: int|
                0 <= d < new_docs.len() && (#[trigger] new_chunks[i]).doc_id == (
                #[trigger] new_docs[d]).doc_id by {
                if i >= old_chunks.len() {
                    let d0 = choose|d0: int|
                        0 <= d0 < new_docs.len() && (#[trigger] new_docs[d0]).doc_id == doc_id@;
                    assert(new_chunks[i].doc_id == new_docs[d0].doc_id);
                }
            }
        }
        n
    }

    /// Store the embedding of one chunk as a little-endian blob; the only
    /// failure is an unknown chunk identifier, and a stored blob is always
    /// 6144 bytes.
    pub fn store_embedding(&mut self, chunk_id: &str, embedding: &Vec<u32>) -> (r: Result<
        (),
        crate::error::RagmcpError,
    >)
        requires
            old(self).wf(),
            embedding@.len() == 1536,
        ensures
            final (self).wf(),
            r is Ok <==> exists|i: int|
                0 <= i < old(self).chunks.deep_view().len() && (#[trigger] old(
                    self,
                ).chunks.deep_view()[i]).chunk_id == chunk_id@,
            r is Err ==> *final (self) == *old(self) && r->Err_0 is ChunkNotFound,
            r is Ok ==> {
                let old_chunks = old(self).chunks.deep_view();
                let i = choose|i: int|
                    0 <= i < old_chunks.len() && (#[trigger] old_chunks[i]).chunk_id == chunk_id@;
                exists|j: int|
                    0 <= j < old_chunks.len() && old_chunks[j].chunk_id == chunk_id@
                        && final (self).chunks.deep_view() == old_chunks.update(
                        j,
                        ChunkRowView {
                            embedding: Some(crate::codec::encode_spec(embedding@)),
                            ..old_chunks[j]
                        },
                    )
            },
            r is Ok ==> final (self).documents == old(self).documents,
    {
        let ghost old_chunks = self.chunks.deep_view();
        let mut i: usize = 0;
        while i < self.chunks.len()
            invariant_except_break
                i <= self.chunks@.len(),
                self == old(self),
                old_chunks == self.chunks.deep_view(),
                forall|j: int|
                    0 <= j < i ==> (#[trigger] old_chunks[j]).chunk_id != chunk_id@,
            ensures
                self == old(self),
                old_chunks == self.chunks.deep_view(),
                i < self.chunks@.len() ==> old_chunks[i as int].chunk_id == chunk_id@,
                i >= self.chunks@.len() ==> forall|j: int|
                    0 <= j < old_chunks.len() ==> (#[trigger] old_chunks[j]).chunk_id != chunk_id@,
            decreases self.chunks@.len() - i,
        {
            proof {
                assert(old_chunks[i as int].chunk_id == self.chunks@[i as int]@.chunk_id);
            }
            if str_eq(self.chunks[i].chunk_id.as_str(), chunk_id) {
                break ;
            }
            i = i + 1;
        }
        if i >= self.chunks.len() {
            return Err(crate::error::RagmcpError::ChunkNotFound(chunk_id.to_owned()));
        }
        let blob = crate::codec::encode_embedding(embedding);
        proof {
            crate::codec::lemma_embedding_blob_len(embedding@);
        }
        let mut row = self.chunks.remove(i);
        row.embedding = Some(blob);
        let ghost rowv = row@;
        self.chunks.insert(i, row);
        proof {
            let new_chunks = self.chunks.deep_view();
            assert(new_chunks =~~= old_chunks.update(i as int, rowv));
            assert(rowv =~~= ChunkRowView {
                embedding: Some(crate::codec::encode_spec(embedding@)),
                ..old_chunks[i as int]
            });
            // well-formedness: only the embedding changed
            let new_docs = self.documents.deep_view();
            assert forall|d: int|
                0 <= d < new_docs.len() implies {
                let cd = chunks_of(new_chunks, (#[trigger] new_docs[d]).doc_id);
                forall|k2: int| 0 <= k2 < cd.len() ==> (#[trigger] cd[k2]).chunk_index == k2
            } by {
                let dd = new_docs[d].doc_id;
                lemma_chunks_of_pointwise(old_chunks, new_chunks, dd);
            }
            assert(exists|i2: int|
                0 <= i2 < old_chunks.len() && (#[trigger] old_chunks[i2]).chunk_id == chunk_id@);
        }
        Ok(())
    }

    /// The chunk identifiers and texts of one document's chunks that have
    /// no embedding yet: the backfill work list.
    pub fn chunks_without_embedding_for_doc(&self, doc_id: &str) -> (r: Vec<(String, String)>)
        ensures
            r.deep_view() == self.chunks.deep_view().filter(
                |c: ChunkRowView| c.doc_id == doc_id@ && c.embedding is None,
            ).map_values(|c: ChunkRowView| (c.chunk_id, c.chunk_text)),
    {
        let ghost pred = |c: ChunkRowView| c.doc_id == doc_id@ && c.embedding is None;
        let ghost dv = self.chunks.deep_view();
        let mut r: Vec<(String, String)> = Vec::new();
        let mut i: usize = 0;
        proof {
            assert(dv.subrange(0, 0).filter(pred) =~= Seq::<ChunkRowView>::empty());
            assert(r.deep_view() =~= dv.subrange(0, 0).filter(pred).map_values(
                |c: ChunkRowView| (c.chunk_id, c.chunk_text),
            ));
        }
        while i < self.chunks.len()
            invariant
                i <= self.chunks@.len(),
                dv == self.chunks.deep_view(),
                pred == (|c: ChunkRowView| c.doc_id == doc_id@ && c.embedding is None),
                r.deep_view() == dv.subrange(0, i as int).filter(pred).map_values(
                    |c: ChunkRowView| (c.chunk_id, c.chunk_text),
                ),
            decreases self.chunks@.len() - i,
        {
            proof {
                let pre = dv.subrange(0, i as int);
                let cur = dv.subrange(0, i + 1 as int);
                assert(cur.drop_last() =~= pre);
                assert(cur.last() == dv[i as int]);
                reveal_with_fuel(Seq::filter, 1);
                assert(pred(dv[i as int]) == (dv[i as int].doc_id == doc_id@ && dv[i as int].embedding is None));
                assert(dv[i as int].doc_id == self.chunks@[i as int]@.doc_id);
            }
            let matches = str_eq(self.chunks[i].doc_id.as_str(), doc_id) && match &self.chunks[i].embedding {
                Some(_) => false,
                None => true,
            };
            if matches {
                let ghost old_dv = r.deep_view();
                r.push((self.chunks[i].chunk_id.clone(), self.chunks[i].chunk_text.clone()));
                proof {
                    assert(r.deep_view() =~~= old_dv.push(
                        (dv[i as int].chunk_id, dv[i as int].chunk_text),
                    ));
                    assert(cur_filter_map(dv, i as int, pred) =~= old_dv.push(
                        (dv[i as int].chunk_id, dv[i as int].chunk_text),
                    ));
                }
            } else {
                proof {
                    assert(cur_filter_map(dv, i as int, pred) =~= r.deep_view());
                }
            }
            i = i + 1;
        }
        proof {
            assert(dv.subrange(0, dv.len() as int) =~= dv);
        }
        r
    }

    /// The number of chunks holding an embedding.
    pub fn embedded_chunk_count(&self) -> (n: usize)
        ensures
            n == self.chunks.deep_view().filter(
                |c: ChunkRowView| c.embedding is Some,
            ).len(),
    {
        let ghost pred = |c: ChunkRowView| c.embedding is Some;
        let ghost dv = self.chunks.deep_view();
        let mut n: usize = 0;
        let mut i: usize = 0;
        proof {
            assert(dv.subrange(0, 0).filter(pred) =~= Seq::<ChunkRowView>::empty());
        }
        while i < self.chunks.len()
            invariant
                i <= self.chunks@.len(),
                dv == self.chunks.deep_view(),
                pred == (|c: ChunkRowView| c.embedding is Some),
                n == dv.subrange(0, i as int).filter(pred).len(),
                n <= i,
            decreases self.chunks@.len() - i,
        {
            proof {
                let pre = dv.subrange(0, i as int);
                let cur = dv.subrange(0, i + 1 as int);
                assert(cur.drop_last() =~= pre);
                assert(cur.last() == dv[i as int]);
                reveal_with_fuel(Seq::filter, 1);
                assert(pred(dv[i as int]) == (dv[i as int].embedding is Some));
            }
            let has = match &self.chunks[i].embedding {
                Some(_) => true,
                None => false,
            };
            if has {
                n = n + 1;
            }
            i = i + 1;
        }
        proof {
            assert(dv.subrange(0, dv.len() as int) =~= dv);
        }
        n
    }

    /// Delete the documents stored under the given paths, with their
    /// chunks and full-text entries. Returns how many paths were given.
    pub fn delete_documents(&mut self, doc_paths: &Vec<String>) -> (r: usize)
        requires
            old(self).wf(),
        ensures
            final (self).wf(),
            r == doc_paths@.len(),
            forall|p: int|
                0 <= p < doc_paths.deep_view().len() ==> find_doc_by_path(
                    final (self).documents.deep_view(),
                    #[trigger] doc_paths.deep_view()[p],
                ) is None,
    {
        let mut p: usize = 0;
        while p < doc_paths.len()
            invariant
                p <= doc_paths@.len(),
                self.wf(),
                forall|q: int|
                    0 <= q < p ==> find_doc_by_path(
                        self.documents.deep_view(),
                        #[trigger] doc_paths.deep_view()[q],
                    ) is None,
            decreases doc_paths@.len() - p,
        {
            self.delete_one_document(doc_paths[p].as_str());
            proof {
                assert(doc_paths.deep_view()[p as int] == doc_paths@[p as int]@);
            }
            p = p + 1;
        }
        doc_paths.len()
    }

    /// Delete one document by path, with its chunks and full-text entries.
    fn delete_one_document(&mut self, doc_path: &str)
        requires
            old(self).wf(),
        ensures
            final (self).wf(),
            find_doc_by_path(final (self).documents.deep_view(), doc_path@) is None,
            forall|p: Seq<char>|
                find_doc_by_path(old(self).documents.deep_view(), p) is None ==> find_doc_by_path(
                    final (self).documents.deep_view(),
                    p,
                ) is None,
    {
        let ghost old_docs = self.documents.deep_view();
        let ghost old_chunks = self.chunks.deep_view();
        // find the document
        let mut at: usize = 0;
        let mut found = false;
        while at < self.documents.len() && !found
            invariant_except_break
                at <= self.documents@.len(),
                old_docs == self.documents.deep_view(),
                self == old(self),
                !found,
                forall|m: int| 0 <= m < at ==> (#[trigger] old_docs[m]).doc_path != doc_path@,
            ensures
                old_docs == self.documents.deep_view(),
                self == old(self),
                found ==> at < old_docs.len() && old_docs[at as int].doc_path == doc_path@,
                !found ==> forall|m: int|
                    0 <= m < old_docs.len() ==> (#[trigger] old_docs[m]).doc_path != doc_path@,
            decreases self.documents@.len() - at,
        {
            if str_eq(self.documents[at].doc_path.as_str(), doc_path) {
                found = true;
                proof {
                    assert(old_docs[at as int].doc_path == self.documents@[at as int]@.doc_path);
                }
                break ;
            }
            proof {
                assert(old_docs[at as int].doc_path == self.documents@[at as int]@.doc_path);
            }
            at = at + 1;
        }
        if !found {
            proof {
                lemma_find_doc_props(old_docs, doc_path@);
                if find_doc_by_path(old_docs, doc_path@) is Some {
                    let j = find_doc_by_path(old_docs, doc_path@)->0;
                }
            }
            return ;
        }
        // drop this document's chunks (the doc_id is its path digest)
        let doc_id = self.documents[at].doc_id.clone();
        let _ = self.documents.remove(at);
        let ghost id = doc_id@;
        let ghost mid_docs = self.documents.deep_view();
        let mut kept_chunks: Vec<ChunkRow> = Vec::new();
        let mut kept_fts: Vec<FtsEntry> = Vec::new();
        let ghost old_fts = self.fts.deep_view();
        let mut i: usize = 0;
        proof {
            assert(old_chunks.subrange(0, 0).filter(not_doc_pred(id)) =~= Seq::<
                ChunkRowView,
            >::empty());
        }
        while i < self.chunks.len()
            invariant
                i <= self.chunks@.len(),
                old(self).wf(),
                id == doc_id@,
                old_chunks == self.chunks.deep_view(),
                old_fts == self.fts.deep_view(),
                self.chunks == old(self).chunks,
                self.fts == old(self).fts,
                kept_chunks.deep_view() == old_chunks.subrange(0, i as int).filter(
                    not_doc_pred(id),
                ),
                kept_fts.deep_view().len() == kept_chunks.deep_view().len(),
                forall|j: int|
                    0 <= j < kept_chunks.deep_view().len() ==> (
                    #[trigger] kept_fts.deep_view()[j]).chunk_id
                        == kept_chunks.deep_view()[j].chunk_id
                        && kept_fts.deep_view()[j].chunk_text
                        == kept_chunks.deep_view()[j].chunk_text
                        && kept_fts.deep_view()[j].section_header
                        == kept_chunks.deep_view()[j].section_header,
            decreases self.chunks@.len() - i,
        {
            proof {
                let pre = old_chunks.subrange(0, i as int);
                let cur = old_chunks.subrange(0, i + 1 as int);
                assert(cur.drop_last() =~= pre);
                assert(cur.last() == old_chunks[i as int]);
                reveal_with_fuel(Seq::filter, 1);
                assert(not_doc_pred(id)(old_chunks[i as int]) == (old_chunks[i as int].doc_id
                    != id));
                assert(old_chunks[i as int].doc_id == self.chunks@[i as int]@.doc_id);
            }
            if !str_eq(self.chunks[i].doc_id.as_str(), doc_id.as_str()) {
                let ghost oc = kept_chunks.deep_view();
                let ghost of = kept_fts.deep_view();
                let c = copy_chunk_row(&self.chunks[i]);
                let f = copy_fts_entry(&self.fts[i]);
                proof {
                    assert(c@ == old_chunks[i as int]);
                    assert(f@ == old_fts[i as int]);
                }
                kept_chunks.push(c);
                kept_fts.push(f);
                proof {
                    assert(kept_chunks.deep_view() =~= oc.push(old_chunks[i as int]));
                    assert(kept_fts.deep_view() =~= of.push(old_fts[i as int]));
                }
            }
            i = i + 1;
        }
        proof {
            assert(old_chunks.subrange(0, old_chunks.len() as int) =~= old_chunks);
        }
        self.chunks = kept_chunks;
        self.fts = kept_fts;
        proof {
            let new_docs = self.documents.deep_view();
            let new_chunks = self.chunks.deep_view();
            assert(new_docs =~= old_docs.remove(at as int));
            assert(id == old_docs[at as int].doc_id);
            old_chunks.filter_lemma(not_doc_pred(id));
            lemma_filter_subset(old_chunks, not_doc_pred(id));
            // no document with this path or any previously absent path remains
            lemma_find_doc_props(self.documents.deep_view(), doc_path@);
            assert forall|m: int|
                0 <= m < new_docs.len() implies (#[trigger] new_docs[m]).doc_path != doc_path@ by {
                if m < at {
                    assert(new_docs[m] == old_docs[m]);
                } else {
                    assert(new_docs[m] == old_docs[m + 1]);
                }
            }
            assert forall|p2: Seq<char>|
                find_doc_by_path(old_docs, p2) is None implies find_doc_by_path(
                new_docs,
                p2,
            ) is None by {
                lemma_find_doc_props(old_docs, p2);
                lemma_find_doc_props(new_docs, p2);
                if find_doc_by_path(new_docs, p2) is Some {
                    let j = find_doc_by_path(new_docs, p2)->0;
                    if j < at {
                        assert(old_docs[j].doc_path == p2);
                    } else {
                        assert(old_docs[j + 1].doc_path == p2);
                    }
                }
            }
            if find_doc_by_path(new_docs, doc_path@) is Some {
                let j = find_doc_by_path(new_docs, doc_path@)->0;
            }
            // well-formedness
            assert forall|i2: int|
                0 <= i2 < new_chunks.len() implies exists|d: int|
                0 <= d < new_docs.len() && (#[trigger] new_chunks[i2]).doc_id == (
                #[trigger] new_docs[d]).doc_id by {
                assert(old_chunks.contains(new_chunks[i2]));
                let oi = choose|oi: int|
                    0 <= oi < old_chunks.len() && old_chunks[oi] == new_chunks[i2];
                let od = choose|od: int|
                    0 <= od < old_docs.len() && old_chunks[oi].doc_id == old_docs[od].doc_id;
                if od == at {
                    // its owner was the deleted document, but then its rows
                    // were dropped: the chunk's identifier ties it to `id`
                    assert(new_chunks[i2].doc_id != id);
                    assert(false);
                } else if od < at {
                    assert(new_docs[od] == old_docs[od]);
                } else {
                    assert(new_docs[od - 1] == old_docs[od]);
                }
            }
            assert forall|i2: int|
                0 <= i2 < new_chunks.len() implies (#[trigger] new_chunks[i2]).chunk_id
                == chunk_id_spec(new_chunks[i2].doc_id, new_chunks[i2].chunk_index) && (
            new_chunks[i2].embedding is Some ==> new_chunks[i2].embedding->0.len() == 6144) by {
                assert(old_chunks.contains(new_chunks[i2]));
                let oi = choose|oi: int|
                    0 <= oi < old_chunks.len() && old_chunks[oi] == new_chunks[i2];
            }
            assert forall|d: int|
                0 <= d < new_docs.len() implies {
                let cd = chunks_of(new_chunks, (#[trigger] new_docs[d]).doc_id);
                forall|k: int| 0 <= k < cd.len() ==> (#[trigger] cd[k]).chunk_index == k
            } by {
                if new_docs[d].doc_id == id {
                    assert(forall|i3: int|
                        0 <= i3 < new_chunks.len() ==> (#[trigger] new_chunks[i3]).doc_id != id);
                    lemma_chunks_of_none_match(new_chunks, id);
                } else {
                    lemma_chunks_of_after_remove(old_chunks, id, new_docs[d].doc_id);
                    if d < at {
                        assert(new_docs[d] == old_docs[d]);
                    } else {
                        assert(new_docs[d] == old_docs[d + 1]);
                    }
                }
            }
        }
    }
}

/// The filtered-and-projected prefix used while collecting backfill work.
spec fn cur_filter_map(
    dv: Seq<ChunkRowView>,
    i: int,
    pred: spec_fn(ChunkRowView) -> bool,
) -> Seq<(Seq<char>, Seq<char>)> {
    dv.subrange(0, i + 1).filter(pred).map_values(|c: ChunkRowView| (c.chunk_id, c.chunk_text))
}

/// Re-ingesting a document with the same chunk texts leaves its chunk
/// rows byte-for-byte identical: the rows are a function of the document
/// identifier and the chunk list alone.
pub proof fn lemma_reingest_identical(
    s1: IndexStore,
    s2: IndexStore,
    doc_id: Seq<char>,
    cs: Seq<crate::chunker::ChunkView>,
)
    requires
        chunks_of(s1.chunks.deep_view(), doc_id) == built_rows(doc_id, cs),
        chunks_of(s2.chunks.deep_view(), doc_id) == built_rows(doc_id, cs),
    ensures
        chunks_of(s1.chunks.deep_view(), doc_id) == chunks_of(s2.chunks.deep_view(), doc_id),
{
}

impl IndexStore {
    /// Replace the relations previously extracted for one entity: every
    /// relation tagged with the entity's extraction metadata leaves, the
    /// new ones are appended. Re-ingestion therefore never duplicates an
    /// entity's edges.
    pub fn replace_relations(&mut self, entity_name: &str, new_relations: Vec<Relation>)
        requires
            old(self).wf(),
        ensures
            final (self).wf(),
            final (self).relations.deep_view() == old(self).relations.deep_view().filter(
                |r: crate::graph::RelationView|
                    r.metadata_json != Some(
                        crate::graph::extraction_metadata(entity_name@),
                    ),
            ) + new_relations.deep_view(),
            final (self).documents == old(self).documents,
            final (self).chunks == old(self).chunks,
            final (self).fts == old(self).fts,
    {
        let ghost pred = |r: crate::graph::RelationView|
            r.metadata_json != Some(crate::graph::extraction_metadata(entity_name@));
        let ghost old_rel = self.relations.deep_view();
        let mut marker = "{\"extracted_from\":\"entity:".to_owned();
        marker.append(entity_name);
        marker.append("\"}");
        let mut kept: Vec<Relation> = Vec::new();
        let mut i: usize = 0;
        proof {
            assert(kept.deep_view() =~= old_rel.subrange(0, 0).filter(pred));
        }
        while i < self.relations.len()
            invariant
                i <= self.relations@.len(),
                old_rel == self.relations.deep_view(),
                self.relations == old(self).relations,
                marker@ == crate::graph::extraction_metadata(entity_name@),
                pred == (|r: crate::graph::RelationView|
                    r.metadata_json != Some(crate::graph::extraction_metadata(entity_name@))),
                kept.deep_view() == old_rel.subrange(0, i as int).filter(pred),
            decreases self.relations@.len() - i,
        {
            proof {
                let pre = old_rel.subrange(0, i as int);
                let cur = old_rel.subrange(0, i + 1 as int);
                assert(cur.drop_last() =~= pre);
                assert(cur.last() == old_rel[i as int]);
                reveal_with_fuel(Seq::filter, 1);
                assert(pred(old_rel[i as int]) == (old_rel[i as int].metadata_json != Some(
                    crate::graph::extraction_metadata(entity_name@),
                )));
            }
            let keep = match &self.relations[i].metadata_json {
                Some(meta) => !str_eq(meta.as_str(), marker.as_str()),
                None => true,
            };
            if keep {
                let ghost old_dv = kept.deep_view();
                let c = crate::graph::copy_relation(&self.relations[i]);
                proof {
                    assert(c@ == old_rel[i as int]);
                }
                kept.push(c);
                proof {
                    assert(kept.deep_view() =~= old_dv.push(old_rel[i as int]));
                }
            }
            i = i + 1;
        }
        proof {
            assert(old_rel.subrange(0, old_rel.len() as int) =~= old_rel);
        }
        let mut kept = kept;
        let ghost filtered = kept.deep_view();
        let mut j: usize = 0;
        let mut new_relations = new_relations;
        let ghost ndv = new_relations.deep_view();
        while new_relations.len() > 0
            invariant
                filtered == kept.deep_view().subrange(0, filtered.len() as int) || true,
                kept.deep_view() == filtered + ndv.subrange(
                    0,
                    ndv.len() - new_relations.deep_view().len(),
                ),
                ndv.len() >= new_relations.deep_view().len(),
                ndv.subrange(
                    ndv.len() - new_relations.deep_view().len(),
                    ndv.len() as int,
                ) == new_relations.deep_view(),
            decreases new_relations@.len(),
        {
            let ghost rem = new_relations.deep_view();
            let x = new_relations.remove(0);
            let ghost old_dv = kept.deep_view();
            kept.push(x);
            proof {
                assert(new_relations.deep_view() =~= rem.drop_first());
                assert(rem[0] == ndv[ndv.len() - rem.len()]);
                assert(kept.deep_view() =~= old_dv.push(rem[0]));
                assert(kept.deep_view() =~= filtered + ndv.subrange(
                    0,
                    ndv.len() - rem.len() + 1,
                ));
                assert(ndv.subrange(ndv.len() - rem.drop_first().len(), ndv.len() as int)
                    =~= rem.drop_first());
            }
        }
        proof {
            assert(ndv.subrange(0, ndv.len() as int) =~= ndv);
            assert(kept.deep_view() =~= filtered + ndv);
        }
        self.relations = kept;
    }
}

/// The store's standing invariants, read off its well-formedness: every
/// document identifier is the digest of its path; every chunk identifier
/// is its owner's identifier, two colons, and its ordinal; every chunk
/// row has exactly one full-text entry, in step, and deleting a chunk
/// removes its entry with it; every present embedding is 6144 bytes.
pub proof fn lemma_store_invariants(s: IndexStore)
    requires
        s.wf(),
    ensures
        forall|i: int|
            0 <= i < s.documents.deep_view().len() ==> (#[trigger] s.documents.deep_view()[i]).doc_id
                == doc_id_of_path(s.documents.deep_view()[i].doc_path),
        forall|i: int|
            0 <= i < s.chunks.deep_view().len() ==> (#[trigger] s.chunks.deep_view()[i]).chunk_id
                == chunk_id_spec(
                s.chunks.deep_view()[i].doc_id,
                s.chunks.deep_view()[i].chunk_index,
            ),
        s.fts.deep_view().len() == s.chunks.deep_view().len(),
        forall|i: int|
            0 <= i < s.chunks.deep_view().len() ==> (#[trigger] s.fts.deep_view()[i]).chunk_id
                == s.chunks.deep_view()[i].chunk_id,
        forall|i: int|
            0 <= i < s.chunks.deep_view().len() ==> ((#[trigger] s.chunks.deep_view()[i]).embedding
                is Some ==> s.chunks.deep_view()[i].embedding->0.len() == 6144),
        forall|d: int|
            0 <= d < s.documents.deep_view().len() ==> {
                let cd = chunks_of(
                    s.chunks.deep_view(),
                    (#[trigger] s.documents.deep_view()[d]).doc_id,
                );
                forall|k: int| 0 <= k < cd.len() ==> (#[trigger] cd[k]).chunk_index == k
            },
{
}

} // verus!
