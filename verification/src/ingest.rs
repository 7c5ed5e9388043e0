//! Ingestion support: discovered-file records, the discovery allowlist,
//! and hash-based incremental classification.

use crate::error::RagmcpError;
use crate::text::chars_of;
use vstd::prelude::*;

verus! {

/// A file found under the documents root, with its content hash already
/// computed.
pub struct FileMetadata {
    pub relative_path: String,
    pub absolute_path: String,
    pub extension: String,
    pub file_size: u64,
    pub modified_secs: i64,
    pub modified_nanos: u32,
}

/// The mathematical image of a discovered file.
#[verifier::ext_equal]
pub struct FileMetadataView {
    pub relative_path: Seq<char>,
    pub absolute_path: Seq<char>,
    pub extension: Seq<char>,
    pub file_size: int,
    pub modified_secs: int,
    pub modified_nanos: int,
}

impl View for FileMetadata {
    type V = FileMetadataView;

    open spec fn view(&self) -> FileMetadataView {
        FileMetadataView {
            relative_path: self.relative_path@,
            absolute_path: self.absolute_path@,
            extension: self.extension@,
            file_size: self.file_size as int,
            modified_secs: self.modified_secs as int,
            modified_nanos: self.modified_nanos as int,
        }
    }
}

impl DeepView for FileMetadata {
    type V = FileMetadataView;

    open spec fn deep_view(&self) -> FileMetadataView {
        self.view()
    }
}

/// A field-for-field copy of a file record.
pub fn copy_file_metadata(f: &FileMetadata) -> (r: FileMetadata)
    ensures
        r@ == f@,
{
    FileMetadata {
        relative_path: f.relative_path.clone(),
        absolute_path: f.absolute_path.clone(),
        extension: f.extension.clone(),
        file_size: f.file_size,
        modified_secs: f.modified_secs,
        modified_nanos: f.modified_nanos,
    }
}

/// Whether discovery indexes files with this (lowercased) extension.
pub open spec fn discovery_allows(ext: Seq<char>) -> bool {
    ||| ext == "md"@
    ||| ext == "txt"@
    ||| ext == "xml"@
    ||| ext == "yaml"@
    ||| ext == "yml"@
    ||| ext == "json"@
    ||| ext == "toml"@
    ||| ext == "rs"@
    ||| ext == "py"@
    ||| ext == "ts"@
    ||| ext == "js"@
    ||| ext == "go"@
}

/// Whether the live watcher re-ingests files with this extension.
pub open spec fn watch_allows(ext: Seq<char>) -> bool {
    ||| ext == "xml"@
    ||| ext == "yaml"@
    ||| ext == "yml"@
    ||| ext == "json"@
    ||| ext == "md"@
}

/// The discovery allowlist: text, markup, data and source extensions.
pub fn is_supported_extension(ext: &str) -> (b: bool)
    ensures
        b == discovery_allows(ext@),
{
    let v = chars_of(ext);
    crate::text::chars_eq_lit(&v, "md") || crate::text::chars_eq_lit(&v, "txt")
        || crate::text::chars_eq_lit(&v, "xml") || crate::text::chars_eq_lit(
        &v,
        "yaml",
    ) || crate::text::chars_eq_lit(&v, "yml") || crate::text::chars_eq_lit(
        &v,
        "json",
    ) || crate::text::chars_eq_lit(&v, "toml") || crate::text::chars_eq_lit(
        &v,
        "rs",
    ) || crate::text::chars_eq_lit(&v, "py") || crate::text::chars_eq_lit(
        &v,
        "ts",
    ) || crate::text::chars_eq_lit(&v, "js") || crate::text::chars_eq_lit(&v, "go")
}

/// The watcher's allowlist: the formats the parsers handle.
pub fn is_watched_extension(ext: &str) -> (b: bool)
    ensures
        b == watch_allows(ext@),
{
    let v = chars_of(ext);
    crate::text::chars_eq_lit(&v, "xml") || crate::text::chars_eq_lit(&v, "yaml")
        || crate::text::chars_eq_lit(&v, "yml") || crate::text::chars_eq_lit(
        &v,
        "json",
    ) || crate::text::chars_eq_lit(&v, "md")
}

/// One stored `doc_path -> file_hash` pair.
pub struct PathHash {
    pub path: String,
    pub hash: String,
}

/// The mathematical image of a stored pair.
pub struct PathHashView {
    pub path: Seq<char>,
    pub hash: Seq<char>,
}

impl View for PathHash {
    type V = PathHashView;

    open spec fn view(&self) -> PathHashView {
        PathHashView { path: self.path@, hash: self.hash@ }
    }
}

impl DeepView for PathHash {
    type V = PathHashView;

    open spec fn deep_view(&self) -> PathHashView {
        self.view()
    }
}

/// The hash stored under `path`, if any: the first matching entry decides.
pub open spec fn lookup_hash(entries: Seq<PathHashView>, path: Seq<char>) -> Option<Seq<char>>
    decreases entries.len(),
{
    if entries.len() == 0 {
        None
    } else if entries[0].path == path {
        Some(entries[0].hash)
    } else {
        lookup_hash(entries.drop_first(), path)
    }
}

/// The map of stored document paths to their content hashes.
pub struct StoredHashes {
    pub entries: Vec<PathHash>,
}

impl StoredHashes {
    /// An empty map.
    pub fn new() -> (r: StoredHashes)
        ensures
            r.entries.deep_view().len() == 0,
    {
        StoredHashes { entries: Vec::new() }
    }

    /// Record one stored `doc_path -> file_hash` pair.
    pub fn push(&mut self, path: String, hash: String)
        ensures
            final (self).entries.deep_view() == old(self).entries.deep_view().push(
                PathHashView { path: path@, hash: hash@ },
            ),
    {
        let ghost old_dv = self.entries.deep_view();
        let e = PathHash { path, hash };
        let ghost ev = e@;
        self.entries.push(e);
        proof {
            assert(self.entries.deep_view() =~= old_dv.push(ev));
        }
    }

    /// The stored hash for a path, if any.
    pub fn get(&self, path: &str) -> (r: Option<&String>)
        ensures
            r is Some <==> lookup_hash(self.entries.deep_view(), path@) is Some,
            r is Some ==> r->0@ == lookup_hash(self.entries.deep_view(), path@)->0,
    {
        let mut i: usize = 0;
        let ghost dv = self.entries.deep_view();
        proof {
            assert(dv.subrange(0, dv.len() as int) =~= dv);
        }
        while i < self.entries.len()
            invariant
                i <= self.entries@.len(),
                dv == self.entries.deep_view(),
                lookup_hash(dv, path@) == lookup_hash(
                    dv.subrange(i as int, dv.len() as int),
                    path@,
                ),
            decreases self.entries@.len() - i,
        {
            proof {
                let m = dv.subrange(i as int, dv.len() as int);
                assert(m[0] == dv[i as int]);
                assert(m.drop_first() =~= dv.subrange(i + 1, dv.len() as int));
                assert(dv[i as int].path == self.entries@[i as int]@.path);
            }
            if crate::text::str_eq(self.entries[i].path.as_str(), path) {
                return Some(&self.entries[i].hash);
            }
            i = i + 1;
        }
        proof {
            assert(dv.subrange(dv.len() as int, dv.len() as int) =~= Seq::<PathHashView>::empty());
        }
        None
    }

    /// How many paths are stored.
    pub fn len(&self) -> (n: usize)
        ensures
            n == self.entries.deep_view().len(),
    {
        self.entries.len()
    }
}

/// The three classes of a discovered file against the stored hashes.
pub struct FileClassification {
    pub new_files: Vec<FileMetadata>,
    pub modified_files: Vec<FileMetadata>,
    pub unchanged_files: Vec<FileMetadata>,
}

/// The classification of the first `files.len()` discovered files: a file
/// absent from the stored map is new; one whose stored hash differs from
/// its current hash is modified; the rest are unchanged.
pub open spec fn classify_spec(
    files: Seq<FileMetadataView>,
    hashes: Seq<Seq<char>>,
    existing: Seq<PathHashView>,
) -> (Seq<FileMetadataView>, Seq<FileMetadataView>, Seq<FileMetadataView>)
    decreases files.len(),
{
    if files.len() == 0 {
        (
            Seq::<FileMetadataView>::empty(),
            Seq::<FileMetadataView>::empty(),
            Seq::<FileMetadataView>::empty(),
        )
    } else {
        let (n, m, u) = classify_spec(files.drop_last(), hashes.drop_last(), existing);
        let f = files.last();
        let h = hashes.last();
        match lookup_hash(existing, f.relative_path) {
            None => (n.push(f), m, u),
            Some(stored) => if stored != h {
                (n, m.push(f), u)
            } else {
                (n, m, u.push(f))
            },
        }
    }
}

/// Classify the discovered files against the stored hashes. `hashes[i]`
/// is the current content hash of `files[i]`.
pub fn classify_files(
    files: &Vec<FileMetadata>,
    hashes: &Vec<String>,
    existing: &StoredHashes,
) -> (r: Result<FileClassification, RagmcpError>)
    requires
        files@.len() == hashes@.len(),
    ensures
        r is Ok,
        ({
            let (n, m, u) = classify_spec(
                files.deep_view(),
                hashes.deep_view(),
                existing.entries.deep_view(),
            );
            &&& r->Ok_0.new_files.deep_view() == n
            &&& r->Ok_0.modified_files.deep_view() == m
            &&& r->Ok_0.unchanged_files.deep_view() == u
        }),
{
    let ghost fdv = files.deep_view();
    let ghost hdv = hashes.deep_view();
    let ghost edv = existing.entries.deep_view();
    let mut new_files: Vec<FileMetadata> = Vec::new();
    let mut modified_files: Vec<FileMetadata> = Vec::new();
    let mut unchanged_files: Vec<FileMetadata> = Vec::new();
    let mut i: usize = 0;
    while i < files.len()
        invariant
            i <= files@.len(),
            files@.len() == hashes@.len(),
            fdv == files.deep_view(),
            hdv == hashes.deep_view(),
            edv == existing.entries.deep_view(),
            ({
                let (n, m, u) = classify_spec(
                    fdv.subrange(0, i as int),
                    hdv.subrange(0, i as int),
                    edv,
                );
                &&& new_files.deep_view() == n
                &&& modified_files.deep_view() == m
                &&& unchanged_files.deep_view() == u
            }),
        decreases files@.len() - i,
    {
        let f = copy_file_metadata(&files[i]);
        proof {
            let fpre = fdv.subrange(0, i as int);
            let hpre = hdv.subrange(0, i as int);
            let fcur = fdv.subrange(0, i + 1 as int);
            let hcur = hdv.subrange(0, i + 1 as int);
            assert(fcur.drop_last() =~= fpre);
            assert(hcur.drop_last() =~= hpre);
            assert(fcur.last() == fdv[i as int]);
            assert(hcur.last() == hdv[i as int]);
            assert(f@ == fdv[i as int]);
            assert(hdv[i as int] == hashes@[i as int]@);
        }
        match existing.get(f.relative_path.as_str()) {
            None => {
                let ghost old_dv = new_files.deep_view();
                new_files.push(f);
                proof {
                    assert(new_files.deep_view() =~= old_dv.push(fdv[i as int]));
                }
            },
            Some(stored) => {
                if !crate::text::str_eq(stored.as_str(), hashes[i].as_str()) {
                    let ghost old_dv = modified_files.deep_view();
                    modified_files.push(f);
                    proof {
                        assert(modified_files.deep_view() =~= old_dv.push(fdv[i as int]));
                    }
                } else {
                    let ghost old_dv = unchanged_files.deep_view();
                    unchanged_files.push(f);
                    proof {
                        assert(unchanged_files.deep_view() =~= old_dv.push(fdv[i as int]));
                    }
                }
            },
        }
        i = i + 1;
    }
    proof {
        assert(fdv.subrange(0, fdv.len() as int) =~= fdv);
        assert(hdv.subrange(0, hdv.len() as int) =~= hdv);
    }
    Ok(FileClassification { new_files, modified_files, unchanged_files })
}

/// When every discovered file's stored hash equals its current hash,
/// classification reports every file unchanged and nothing new or
/// modified — re-walking an unchanged corpus re-ingests nothing.
pub proof fn lemma_classify_all_unchanged(
    files: Seq<FileMetadataView>,
    hashes: Seq<Seq<char>>,
    existing: Seq<PathHashView>,
)
    requires
        files.len() == hashes.len(),
        forall|i: int|
            0 <= i < files.len() ==> lookup_hash(existing, files[i].relative_path) == Some(
                hashes[i],
            ),
    ensures
        classify_spec(files, hashes, existing).0.len() == 0,
        classify_spec(files, hashes, existing).1.len() == 0,
        classify_spec(files, hashes, existing).2 == files,
    decreases files.len(),
{
    if files.len() > 0 {
        assert forall|i: int|
            0 <= i < files.drop_last().len() implies lookup_hash(
            existing,
            #[trigger] files.drop_last()[i].relative_path,
        ) == Some(hashes.drop_last()[i]) by {
            assert(files.drop_last()[i] == files[i]);
            assert(hashes.drop_last()[i] == hashes[i]);
        }
        lemma_classify_all_unchanged(files.drop_last(), hashes.drop_last(), existing);
        assert(lookup_hash(existing, files.last().relative_path) == Some(hashes.last()));
        assert(classify_spec(files, hashes, existing).2 =~= files) by {
            assert(files.drop_last().push(files.last()) =~= files);
        }
    } else {
        assert(classify_spec(files, hashes, existing).2 =~= files);
    }
}

} // verus!
