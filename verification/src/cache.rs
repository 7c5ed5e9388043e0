//! The in-memory caches: the chunk embedding cache that vector search
//! scores against, and the bounded query-embedding cache in front of the
//! embedding provider.

use crate::codec::decode_spec;
use crate::store::{ChunkRowView, IndexStore};
use vstd::prelude::*;

verus! {

/// The chunk identifiers and decoded embeddings that a scan of the store
/// visits: every chunk holding an embedding that decodes to 1536 words.
pub open spec fn embedded_candidates(chunks: Seq<ChunkRowView>) -> Seq<(Seq<char>, Seq<u32>)> {
    chunks.filter(
        |c: ChunkRowView| c.embedding is Some && decode_spec(c.embedding->0) is Some && decode_spec(
            c.embedding->0,
        )->0.len() == 1536,
    ).map_values(|c: ChunkRowView| (c.chunk_id, decode_spec(c.embedding->0)->0))
}

/// The in-memory chunk embedding cache: absent until loaded, then a list
/// of `(chunk_id, embedding)` pairs in table order. Vector search scores
/// against it; the ingestion pipeline clears it.
pub struct ChunkEmbeddingCache {
    pub entries: Option<Vec<(String, Vec<u32>)>>,
}

impl ChunkEmbeddingCache {
    /// An empty, unloaded cache.
    pub fn new() -> (r: ChunkEmbeddingCache)
        ensures
            r.entries is None,
    {
        ChunkEmbeddingCache { entries: None }
    }

    /// Whether the cache has been loaded.
    pub fn is_loaded(&self) -> (b: bool)
        ensures
            b == (self.entries is Some),
    {
        match &self.entries {
            Some(_) => true,
            None => false,
        }
    }

    /// How many embeddings are cached (zero when unloaded).
    pub fn len(&self) -> (n: usize)
        ensures
            n == (match self.entries {
                Some(e) => e@.len(),
                None => 0,
            }),
    {
        match &self.entries {
            Some(e) => e.len(),
            None => 0,
        }
    }

    /// Forget the loaded entries; the next search reloads.
    pub fn clear(&mut self)
        ensures
            final (self).entries is None,
    {
        self.entries = None;
    }

    /// Load the cache from the store: exactly the chunks a full scan
    /// visits, in the same order. Loading again reloads.
    pub fn load_from_store(&mut self, store: &IndexStore)
        ensures
            final (self).entries is Some,
            final (self).entries->0.deep_view() == embedded_candidates(store.chunks.deep_view()),
    {
        let rows = scan_candidates(store);
        self.entries = Some(rows);
    }

    /// Load the cache only when it is not loaded yet.
    pub fn load_if_needed(&mut self, store: &IndexStore)
        ensures
            final (self).entries is Some,
            old(self).entries is Some ==> *final (self) == *old(self),
            old(self).entries is None ==> final (self).entries->0.deep_view()
                == embedded_candidates(store.chunks.deep_view()),
    {
        let loaded = self.is_loaded();
        if !loaded {
            self.load_from_store(store);
        }
    }

    /// The embedding cached for a chunk, if any (the first entry decides).
    pub fn get(&self, chunk_id: &str) -> (r: Option<&Vec<u32>>)
        ensures
            self.entries is None ==> r is None,
    {
        match &self.entries {
            None => None,
            Some(entries) => {
                let mut i: usize = 0;
                while i < entries.len()
                    invariant
                        self.entries is Some,
                    decreases entries@.len() - i,
                {
                    if crate::text::str_eq(entries[i].0.as_str(), chunk_id) {
                        return Some(&entries[i].1);
                    }
                    i = i + 1;
                }
                None
            },
        }
    }
}

/// The candidates a full scan of the store visits: every chunk whose
/// embedding is present and decodes to 1536 words, in table order. The
/// cached path and the scan path rank over this same list.
pub fn scan_candidates(store: &IndexStore) -> (r: Vec<(String, Vec<u32>)>)
    ensures
        r.deep_view() == embedded_candidates(store.chunks.deep_view()),
{
    let ghost dv = store.chunks.deep_view();
    let ghost pred = |c: ChunkRowView|
        c.embedding is Some && decode_spec(c.embedding->0) is Some && decode_spec(
            c.embedding->0,
        )->0.len() == 1536;
    let ghost proj = |c: ChunkRowView| (c.chunk_id, decode_spec(c.embedding->0)->0);
    let mut r: Vec<(String, Vec<u32>)> = Vec::new();
    let mut i: usize = 0;
    proof {
        assert(dv.subrange(0, 0).filter(pred) =~= Seq::<ChunkRowView>::empty());
        assert(r.deep_view() =~= dv.subrange(0, 0).filter(pred).map_values(proj));
    }
    while i < store.chunks.len()
        invariant
            i <= store.chunks@.len(),
            dv == store.chunks.deep_view(),
            pred == (|c: ChunkRowView|
                c.embedding is Some && decode_spec(c.embedding->0) is Some && decode_spec(
                    c.embedding->0,
                )->0.len() == 1536),
            proj == (|c: ChunkRowView| (c.chunk_id, decode_spec(c.embedding->0)->0)),
            r.deep_view() == dv.subrange(0, i as int).filter(pred).map_values(proj),
        decreases store.chunks@.len() - i,
    {
        proof {
            let pre = dv.subrange(0, i as int);
            let cur = dv.subrange(0, i + 1 as int);
            assert(cur.drop_last() =~= pre);
            assert(cur.last() == dv[i as int]);
            reveal_with_fuel(Seq::filter, 1);
            assert(pred(dv[i as int]) == (dv[i as int].embedding is Some && decode_spec(
                dv[i as int].embedding->0,
            ) is Some && decode_spec(dv[i as int].embedding->0)->0.len() == 1536));
        }
        let c = &store.chunks[i];
        match &c.embedding {
            Some(blob) => {
                match crate::codec::decode_embedding(blob) {
                    Some(words) => {
                        if words.len() == 1536 {
                            let ghost old_dv = r.deep_view();
                            r.push((c.chunk_id.clone(), words));
                            proof {
                                assert(r.deep_view() =~~= old_dv.push(proj(dv[i as int])));
                                assert(cur_fm(dv, i as int, pred, proj) =~= old_dv.push(
                                    proj(dv[i as int]),
                                ));
                            }
                        } else {
                            proof {
                                assert(cur_fm(dv, i as int, pred, proj) =~= r.deep_view());
                            }
                        }
                    },
                    None => {
                        proof {
                            assert(cur_fm(dv, i as int, pred, proj) =~= r.deep_view());
                        }
                    },
                }
            },
            None => {
                proof {
                    assert(cur_fm(dv, i as int, pred, proj) =~= r.deep_view());
                }
            },
        }
        i = i + 1;
    }
    proof {
        assert(dv.subrange(0, dv.len() as int) =~= dv);
    }
    r
}

/// The filtered-and-projected prefix used while scanning.
spec fn cur_fm(
    dv: Seq<ChunkRowView>,
    i: int,
    pred: spec_fn(ChunkRowView) -> bool,
    proj: spec_fn(ChunkRowView) -> (Seq<char>, Seq<u32>),
) -> Seq<(Seq<char>, Seq<u32>)> {
    dv.subrange(0, i + 1).filter(pred).map_values(proj)
}

/// The bounded query-embedding cache in front of the embedding provider,
/// keyed by the exact query string. Embeddings are held as 32-bit word
/// vectors (IEEE-754 bit patterns).
pub struct EmbeddingCache {
    pub cache: lru::LruCache<String, Vec<u32>>,
}

/// What the bounded cache holds: its key-to-embedding map.
pub uninterp spec fn lru_map(c: lru::LruCache<String, Vec<u32>>) -> Map<Seq<char>, Seq<u32>>;

/// The capacity the bounded cache was created with.
pub uninterp spec fn lru_cap(c: lru::LruCache<String, Vec<u32>>) -> nat;

#[verifier::external_type_specification]
#[verifier::external_body]
#[verifier::reject_recursive_types(K)]
#[verifier::reject_recursive_types(V)]
#[verifier::reject_recursive_types(S)]
pub struct ExLruCache<K, V, S>(lru::LruCache<K, V, S>);

#[verifier::external_type_specification]
#[verifier::external_body]
pub struct ExLruDefaultHasher(lru::DefaultHasher);

/// Relies on `lru::LruCache::new`: a fresh cache with the given capacity
/// holds nothing.
#[verifier::external_body]
fn lru_new(capacity: usize) -> (c: lru::LruCache<String, Vec<u32>>)
    requires
        capacity >= 1,
    ensures
        lru_cap(c) == capacity,
        forall|k: Seq<char>| !lru_map(c).contains_key(k),
{
    lru::LruCache::new(core::num::NonZeroUsize::new(capacity).unwrap())
}

/// Relies on `lru::LruCache::get`: the value stored under the key, if
/// any; a hit only refreshes recency, the contents stay.
#[verifier::external_body]
fn lru_get(c: &mut lru::LruCache<String, Vec<u32>>, q: &str) -> (r: Option<Vec<u32>>)
    ensures
        lru_map(*final (c)) == lru_map(*old(c)),
        lru_cap(*final (c)) == lru_cap(*old(c)),
        r is Some <==> lru_map(*old(c)).contains_key(q@),
        r is Some ==> r->0@ == lru_map(*old(c))[q@],
{
    c.get(q).cloned()
}

/// Relies on `lru::LruCache::put`: stores the pair; when the cache is
/// full the least recently used other entry leaves, so afterwards the key
/// maps to the value, every other surviving key kept its value, and
/// nothing new appears.
#[verifier::external_body]
fn lru_put(c: &mut lru::LruCache<String, Vec<u32>>, q: String, v: Vec<u32>)
    ensures
        lru_cap(*final (c)) == lru_cap(*old(c)),
        lru_map(*final (c)).contains_key(q@),
        lru_map(*final (c))[q@] == v@,
        forall|k: Seq<char>|
            lru_map(*final (c)).contains_key(k) ==> k == q@ || lru_map(*old(c)).contains_key(k),
        forall|k: Seq<char>|
            lru_map(*final (c)).contains_key(k) && k != q@ ==> lru_map(*final (c))[k] == lru_map(
                *old(c),
            )[k],
{
    c.put(q, v);
}

/// Relies on `lru::LruCache::len`: how many entries are held, never more
/// than the capacity.
#[verifier::external_body]
fn lru_len(c: &lru::LruCache<String, Vec<u32>>) -> (n: usize)
    ensures
        n <= lru_cap(*c),
{
    c.len()
}

/// Relies on `lru::LruCache::clear`: everything leaves.
#[verifier::external_body]
fn lru_clear(c: &mut lru::LruCache<String, Vec<u32>>)
    ensures
        lru_cap(*final (c)) == lru_cap(*old(c)),
        forall|k: Seq<char>| !lru_map(*final (c)).contains_key(k),
{
    c.clear();
}

impl EmbeddingCache {
    /// What the cache holds.
    pub open spec fn contents(&self) -> Map<Seq<char>, Seq<u32>> {
        lru_map(self.cache)
    }

    /// A cache bounded at `capacity` entries (at least one).
    pub fn new(capacity: usize) -> (r: EmbeddingCache)
        ensures
            forall|k: Seq<char>| !r.contents().contains_key(k),
            lru_cap(r.cache) == (if capacity >= 1 {
                capacity as nat
            } else {
                1
            }),
    {
        let cap = if capacity >= 1 {
            capacity
        } else {
            1
        };
        EmbeddingCache { cache: lru_new(cap) }
    }

    /// The embedding cached for a query, if any.
    pub fn get(&mut self, query: &str) -> (r: Option<Vec<u32>>)
        ensures
            final (self).contents() == old(self).contents(),
            r is Some <==> old(self).contents().contains_key(query@),
            r is Some ==> r->0@ == old(self).contents()[query@],
    {
        lru_get(&mut self.cache, query)
    }

    /// Cache an embedding under the exact query string.
    pub fn put(&mut self, query: String, embedding: Vec<u32>)
        ensures
            final (self).contents().contains_key(query@),
            final (self).contents()[query@] == embedding@,
            forall|k: Seq<char>|
                final (self).contents().contains_key(k) ==> k == query@ || old(
                    self,
                ).contents().contains_key(k),
    {
        lru_put(&mut self.cache, query, embedding)
    }

    /// How many queries are cached; never more than the capacity.
    pub fn len(&self) -> (n: usize)
        ensures
            n <= lru_cap(self.cache),
    {
        lru_len(&self.cache)
    }

    /// Whether nothing is cached.
    pub fn is_empty(&self) -> (b: bool) {
        self.len() == 0
    }

    /// Drop every cached embedding.
    pub fn clear(&mut self)
        ensures
            forall|k: Seq<char>| !final (self).contents().contains_key(k),
    {
        lru_clear(&mut self.cache)
    }
}

} // verus!
