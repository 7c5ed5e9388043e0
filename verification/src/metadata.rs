//! Path-derived document metadata: the namespace (first path segment,
//! normalized) and the optional entity name (second path segment).

use crate::text::{
    chars_of, eq_char_pred, filter_nonempty, join_with, lower_of, lowercase, nonempty_pred,
    seq_trim, split_by, split_char, split_ws_tokens, string_from_chars, tokens_by, trim_chars,
    ws_pred,
};
use vstd::prelude::*;

verus! {

/// The namespace of root-level documents.
pub open spec fn all_namespace() -> Seq<char> {
    seq!['a', 'l', 'l']
}

/// Path separators normalized: every backslash becomes a forward slash.
pub open spec fn normalize_seps(s: Seq<char>) -> Seq<char> {
    s.map_values(|c: char| if c == '\\' { '/' } else { c })
}

/// The namespace that a relative path determines: `"all"` for paths without
/// a directory, otherwise the first path segment, trimmed, Unicode-lowercased,
/// with each whitespace run replaced by a single hyphen.
pub open spec fn namespace_of(path: Seq<char>) -> Seq<char> {
    let n = normalize_seps(path);
    if !n.contains('/') {
        all_namespace()
    } else {
        let f = seq_trim(split_by(n, eq_char_pred('/'))[0]);
        if f.len() == 0 {
            all_namespace()
        } else {
            join_with(tokens_by(lower_of(f), ws_pred()), '-')
        }
    }
}

/// The entity name that a relative path determines: the trimmed second of
/// its non-empty segments, present only when the path has at least three
/// non-empty segments and the trimmed segment is non-empty.
pub open spec fn entity_name_of(path: Seq<char>) -> Option<Seq<char>> {
    let n = normalize_seps(path);
    let segs = split_by(n, eq_char_pred('/')).filter(nonempty_pred());
    if segs.len() >= 3 {
        let e = seq_trim(segs[1]);
        if e.len() == 0 {
            None
        } else {
            Some(e)
        }
    } else {
        None
    }
}

/// Replace every backslash of `v` by a forward slash.
pub fn normalize_sep_chars(v: &Vec<char>) -> (r: Vec<char>)
    ensures
        r@ == normalize_seps(v@),
{
    let mut r: Vec<char> = Vec::new();
    let mut i: usize = 0;
    while i < v.len()
        invariant
            i <= v.len(),
            r@.len() == i,
            forall|j: int|
                0 <= j < i ==> r@[j] == (if v@[j] == '\\' {
                    '/'
                } else {
                    v@[j]
                }),
        decreases v.len() - i,
    {
        if v[i] == '\\' {
            r.push('/');
        } else {
            r.push(v[i]);
        }
        i = i + 1;
    }
    proof {
        assert(r@ =~= normalize_seps(v@));
    }
    r
}

/// The namespace of the document stored under `relative_path`: the first
/// path segment lowercased with whitespace runs hyphenated, or `"all"` for
/// root-level files. Both `/` and `\` separate segments.
pub fn extract_namespace(relative_path: &str) -> (r: String)
    ensures
        r@ == namespace_of(relative_path@),
{
    let cs = chars_of(relative_path);
    let norm = normalize_sep_chars(&cs);
    let mut has_slash = false;
    let mut i: usize = 0;
    while i < norm.len()
        invariant
            i <= norm.len(),
            has_slash == exists|j: int| 0 <= j < i && norm@[j] == '/',
        decreases norm.len() - i,
    {
        if norm[i] == '/' {
            has_slash = true;
        }
        i = i + 1;
    }
    proof {
        assert(has_slash == norm@.contains('/'));
    }
    if !has_slash {
        let r = "all".to_owned();
        proof {
            reveal_strlit("all");
            assert(r@ =~= all_namespace());
        }
        return r;
    }
    let segs = split_char(&norm, '/');
    let first = &segs[0];
    proof {
        assert(first@ == split_by(norm@, eq_char_pred('/'))[0]);
    }
    let f = trim_chars(first);
    if f.len() == 0 {
        let r = "all".to_owned();
        proof {
            reveal_strlit("all");
            assert(r@ =~= all_namespace());
        }
        return r;
    }
    let fs = string_from_chars(&f);
    let low = lowercase(fs.as_str());
    let lowv = chars_of(low.as_str());
    let toks = split_ws_tokens(&lowv);
    let joined = join_tokens_hyphen(&toks);
    string_from_chars(&joined)
}

/// The tokens joined with `'-'` between them.
fn join_tokens_hyphen(ts: &Vec<Vec<char>>) -> (r: Vec<char>)
    ensures
        r@ == join_with(ts.deep_view(), '-'),
{
    crate::text::join_tokens(ts, '-')
}

/// The entity name (second path segment) of the document stored under
/// `relative_path`, for paths nested at least two directories deep.
pub fn extract_agent_name(relative_path: &str) -> (r: Option<String>)
    ensures
        r is Some <==> entity_name_of(relative_path@) is Some,
        r is Some ==> r->0@ == entity_name_of(relative_path@)->0,
{
    let cs = chars_of(relative_path);
    let norm = normalize_sep_chars(&cs);
    let segs = split_char(&norm, '/');
    let nonempty = filter_nonempty(&segs);
    if nonempty.len() >= 3 {
        proof {
            assert(nonempty.deep_view()[1] == nonempty@[1]@);
        }
        let e = trim_chars(&nonempty[1]);
        if e.len() > 0 {
            return Some(string_from_chars(&e));
        }
    }
    None
}

} // verus!
