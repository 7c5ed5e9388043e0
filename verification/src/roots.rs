//! Write-path validation: every tool-driven write must stay under the
//! documents root. Paths with parent-directory components, absolute
//! paths, and empty paths are rejected outright; everything else joins
//! the canonical root.

use crate::error::RagmcpError;
use crate::text::{chars_of, contains_seq, seq_trim, spec_contains_seq, string_from_chars, trim_chars};
use vstd::prelude::*;

verus! {

/// Whether a relative write path is acceptable: non-empty after
/// trimming, no `..` anywhere, and no leading slash or backslash.
pub open spec fn write_path_ok(p: Seq<char>) -> bool {
    &&& !spec_contains_seq(p, ".."@)
    &&& !(p.len() > 0 && (p[0] == '/' || p[0] == '\\'))
    &&& seq_trim(p).len() > 0
}

/// The absolute path a valid write lands on: the canonical root, a
/// separator, and the relative path.
pub open spec fn joined_path(root: Seq<char>, p: Seq<char>) -> Seq<char> {
    root + seq!['/'] + p
}

/// Validates paths for write operations: only paths under the documents
/// root are allowed. The root is the canonicalized folder, supplied as
/// text by the caller that canonicalized it.
pub struct PathValidator {
    pub canonical_root: String,
}

impl PathValidator {
    /// A validator for the given canonical root.
    pub fn new(canonical_root: &str) -> (r: PathValidator)
        ensures
            r.canonical_root@ == canonical_root@,
    {
        PathValidator { canonical_root: canonical_root.to_owned() }
    }

    /// Validate a relative write path and return the absolute path it
    /// lands on. Paths holding `..`, starting with `/` or `\`, or empty
    /// after trimming are rejected as invalid input; every accepted path
    /// is the root extended by the relative path, so it stays under the
    /// root.
    pub fn validate_write_path(&self, relative_path: &str) -> (r: Result<String, RagmcpError>)
        ensures
            r is Ok <==> write_path_ok(relative_path@),
            r is Ok ==> r->Ok_0@ == joined_path(self.canonical_root@, relative_path@),
            r is Err ==> r->Err_0 is InvalidInput,
    {
        let pv = chars_of(relative_path);
        let dots = chars_of("..");
        if contains_seq(&pv, &dots) {
            return Err(
                RagmcpError::InvalidInput(
                    "Path traversal not allowed (.. components)".to_owned(),
                ),
            );
        }
        if pv.len() > 0 && (pv[0] == '/' || pv[0] == '\\') {
            return Err(
                RagmcpError::InvalidInput(
                    "Path must be relative to the documents root (no leading / or \\)".to_owned(),
                ),
            );
        }
        let trimmed = trim_chars(&pv);
        if trimmed.len() == 0 {
            return Err(RagmcpError::InvalidInput("Path must not be empty".to_owned()));
        }
        let mut full = self.canonical_root.clone();
        crate::text::push_char(&mut full, '/');
        full.append(relative_path);
        Ok(full)
    }
}

} // verus!
