//! Section-aware text chunking: cut text into windows of about
//! `4 * size_tokens` characters, preferring to break at whitespace or
//! sentence-ending punctuation in the last fifth of the window, with
//! `4 * overlap_tokens` characters of overlap between adjacent chunks.

use crate::config::PerformanceConfig;
use crate::error::RagmcpError;
use crate::parsers::{ParsedDocumentView, SectionView};
use crate::text::{chars_of, seq_trim, spec_is_ws, string_from_chars, subvec, trim_chars};
use vstd::prelude::*;

verus! {

/// A chunk of text with its token estimate and section metadata.
#[derive(Clone)]
pub struct Chunk {
    pub text: String,
    pub tokens: usize,
    pub section_header: Option<String>,
    pub chunk_type: Option<String>,
}

/// The mathematical image of a chunk.
pub struct ChunkView {
    pub text: Seq<char>,
    pub tokens: nat,
    pub section_header: Option<Seq<char>>,
    pub chunk_type: Option<Seq<char>>,
}

impl View for Chunk {
    type V = ChunkView;

    open spec fn view(&self) -> ChunkView {
        ChunkView {
            text: self.text@,
            tokens: self.tokens as nat,
            section_header: self.section_header.deep_view(),
            chunk_type: self.chunk_type.deep_view(),
        }
    }
}

impl DeepView for Chunk {
    type V = ChunkView;

    open spec fn deep_view(&self) -> ChunkView {
        self.view()
    }
}

/// The token estimate for a text of `n` characters: one token per four
/// characters, rounded up.
pub open spec fn est_tokens(n: nat) -> nat {
    (n + 3) / 4
}

/// Estimated token count of a text: one token per four characters, rounded
/// up.
pub fn estimate_tokens(text: &str) -> (r: usize)
    ensures
        r == est_tokens(text@.len()),
{
    let l = text.unicode_len();
    let r = l / 4 + (if l % 4 != 0 {
        1
    } else {
        0
    });
    proof {
        assert(r == est_tokens(text@.len())) by (nonlinear_arith)
            requires
                l == text@.len(),
                r == l / 4 + (if l % 4 != 0 {
                    1int
                } else {
                    0int
                }),
        ;
    }
    r
}

/// A character at which a chunk prefers to end: whitespace or
/// sentence-ending punctuation.
pub open spec fn spec_is_break_char(c: char) -> bool {
    spec_is_ws(c) || c == '.' || c == '!' || c == '?'
}

/// The largest break-character position in `[lo, hi)`, if any.
pub open spec fn last_break_in(s: Seq<char>, lo: int, hi: int) -> Option<int>
    decreases hi - lo,
{
    if hi <= lo {
        None
    } else if spec_is_break_char(s[hi - 1]) {
        Some(hi - 1)
    } else {
        last_break_in(s, lo, hi - 1)
    }
}

proof fn lemma_last_break_some(s: Seq<char>, lo: int, hi: int, j: int)
    requires
        lo <= j < hi,
        spec_is_break_char(s[j]),
        forall|k: int| j < k < hi ==> !spec_is_break_char(s[k]),
    ensures
        last_break_in(s, lo, hi) == Some(j),
    decreases hi - lo,
{
    if j < hi - 1 {
        lemma_last_break_some(s, lo, hi - 1, j);
    }
}

proof fn lemma_last_break_none(s: Seq<char>, lo: int, hi: int)
    requires
        forall|k: int| lo <= k < hi ==> !spec_is_break_char(s[k]),
    ensures
        last_break_in(s, lo, hi) is None,
    decreases hi - lo,
{
    if hi > lo {
        lemma_last_break_none(s, lo, hi - 1);
    }
}

proof fn lemma_last_break_range(s: Seq<char>, lo: int, hi: int)
    ensures
        last_break_in(s, lo, hi) is Some ==> lo <= last_break_in(s, lo, hi)->0 < hi,
    decreases hi - lo,
{
    if hi > lo && !spec_is_break_char(s[hi - 1]) {
        lemma_last_break_range(s, lo, hi - 1);
    }
}

/// Where the chunk starting at `start` ends: at `start + cs` (or the end of
/// the text), moved back to just after the last break character in the final
/// fifth of the window when the window does not reach the end of the text.
pub open spec fn chunk_end_at(s: Seq<char>, start: int, cs: int) -> int {
    let end = if start + cs < s.len() {
        start + cs
    } else {
        s.len() as int
    };
    if end < s.len() {
        let ss = if end - cs / 5 >= 0 {
            end - cs / 5
        } else {
            0
        };
        match last_break_in(s, ss, end) {
            Some(j) => j + 1,
            None => end,
        }
    } else {
        end
    }
}

proof fn lemma_chunk_end_advances(s: Seq<char>, start: int, cs: int)
    requires
        4 <= cs,
        0 <= start < s.len(),
    ensures
        start < chunk_end_at(s, start, cs) <= s.len(),
{
    let end = if start + cs < s.len() {
        start + cs
    } else {
        s.len() as int
    };
    if end < s.len() {
        let ss = if end - cs / 5 >= 0 {
            end - cs / 5
        } else {
            0
        };
        lemma_last_break_range(s, ss, end);
        assert(cs / 5 < cs);
    }
}

/// The chunk texts that the windowing loop emits from position `start` on:
/// each piece trimmed, the next window starting `co` characters before the
/// previous piece ended (or right at its end when the overlap would not
/// advance).
pub open spec fn chunks_from(s: Seq<char>, start: int, cs: int, co: int) -> Seq<Seq<char>>
    decreases s.len() - start
        when 4 <= cs && 0 <= start && 0 <= co
        via chunks_from_decreases
{
    if start >= s.len() {
        Seq::<Seq<char>>::empty()
    } else {
        let ce = chunk_end_at(s, start, cs);
        let piece = seq_trim(s.subrange(start, ce));
        if ce >= s.len() {
            seq![piece]
        } else {
            let ns = if ce - co <= start {
                ce
            } else {
                ce - co
            };
            seq![piece] + chunks_from(s, ns, cs, co)
        }
    }
}

#[via_fn]
proof fn chunks_from_decreases(s: Seq<char>, start: int, cs: int, co: int) {
    if start < s.len() {
        lemma_chunk_end_advances(s, start, cs);
    }
}

/// The chunk texts for a whole text: none when the text is all whitespace,
/// otherwise the windowing loop's pieces from the beginning.
pub open spec fn chunk_text_spec(s: Seq<char>, size_tokens: int, overlap_tokens: int) -> Seq<
    Seq<char>,
> {
    if seq_trim(s).len() == 0 {
        Seq::<Seq<char>>::empty()
    } else {
        chunks_from(s, 0, 4 * size_tokens, 4 * overlap_tokens)
    }
}

/// Cut `text` into chunk texts of about `4 * size_tokens` characters with
/// `4 * overlap_tokens` characters of overlap, breaking preferably at
/// whitespace or sentence punctuation in the last fifth of each window.
/// All-whitespace input yields no chunks; input no longer than one window
/// yields exactly one.
pub fn chunk_text(text: &str, size_tokens: usize, overlap_tokens: usize) -> (r: Result<
    Vec<String>,
    RagmcpError,
>)
    requires
        1 <= size_tokens,
        size_tokens <= usize::MAX / 4,
        overlap_tokens < size_tokens,
    ensures
        r is Ok,
        r->Ok_0.deep_view() == chunk_text_spec(text@, size_tokens as int, overlap_tokens as int),
{
    let v = chars_of(text);
    let trimmed = trim_chars(&v);
    if trimmed.len() == 0 {
        return Ok(Vec::new());
    }
    let cs: usize = size_tokens * 4;
    let co: usize = overlap_tokens * 4;
    let ghost csi = cs as int;
    let ghost coi = co as int;
    let mut out: Vec<String> = Vec::new();
    let mut start: usize = 0;
    proof {
        assert(v@.len() > 0) by {
            if v@.len() == 0 {
                assert(seq_trim(v@).len() == 0);
            }
        }
        assert(out.deep_view() + chunks_from(v@, 0, csi, coi) =~= chunks_from(v@, 0, csi, coi));
    }
    loop
        invariant_except_break
            4 <= cs,
            csi == cs as int,
            coi == co as int,
            co < cs,
            start < v@.len(),
            v@ == text@,
            out.deep_view() + chunks_from(v@, start as int, csi, coi) == chunks_from(
                v@,
                0,
                csi,
                coi,
            ),
        ensures
            out.deep_view() == chunks_from(v@, 0, csi, coi),
        decreases v@.len() - start,
    {
        let end: usize = if cs < v.len() - start {
            start + cs
        } else {
            v.len()
        };
        let ce: usize = if end < v.len() {
            let fifth = cs / 5;
            let ss: usize = if fifth > end {
                0
            } else {
                end - fifth
            };
            // scan backwards for the last break character in [ss, end)
            let mut j: usize = end;
            let mut found: Option<usize> = None;
            while j > ss
                invariant_except_break
                    ss <= j <= end <= v@.len(),
                    found is None,
                    forall|k: int| j <= k < end ==> !spec_is_break_char(v@[k]),
                ensures
                    found is Some ==> ss <= found->0 < end && spec_is_break_char(
                        v@[found->0 as int],
                    ) && forall|k: int| found->0 < k < end ==> !spec_is_break_char(v@[k]),
                    found is None ==> forall|k: int| ss <= k < end ==> !spec_is_break_char(v@[k]),
                decreases j,
            {
                let c = v[j - 1];
                if crate::text::is_ws(c) || c == '.' || c == '!' || c == '?' {
                    found = Some(j - 1);
                    break ;
                }
                j = j - 1;
            }
            match found {
                Some(bp) => {
                    proof {
                        lemma_last_break_some(v@, ss as int, end as int, bp as int);
                    }
                    bp + 1
                },
                None => {
                    proof {
                        lemma_last_break_none(v@, ss as int, end as int);
                    }
                    end
                },
            }
        } else {
            end
        };
        proof {
            assert(ce as int == chunk_end_at(v@, start as int, csi));
            lemma_chunk_end_advances(v@, start as int, csi);
        }
        let piece_chars = subvec(&v, start, ce);
        let piece_trimmed = trim_chars(&piece_chars);
        let piece = string_from_chars(&piece_trimmed);
        let ghost old_dv = out.deep_view();
        out.push(piece);
        proof {
            assert(out.deep_view() =~~= old_dv.push(seq_trim(v@.subrange(start as int, ce as int))));
        }
        if ce >= v.len() {
            proof {
                let pc = seq_trim(v@.subrange(start as int, ce as int));
                assert(chunks_from(v@, start as int, csi, coi) =~= seq![pc]);
                assert(old_dv.push(pc) =~= old_dv + seq![pc]);
            }
            break ;
        }
        let ns: usize = if co > ce {
            ce
        } else if ce - co <= start {
            ce
        } else {
            ce - co
        };
        proof {
            let pc = seq_trim(v@.subrange(start as int, ce as int));
            assert(ns as int == (if ce as int - coi <= start as int {
                ce as int
            } else {
                ce as int - coi
            }));
            assert(chunks_from(v@, start as int, csi, coi) =~= seq![pc] + chunks_from(
                v@,
                ns as int,
                csi,
                coi,
            ));
            assert(old_dv.push(pc) =~= old_dv + seq![pc]);
            assert((old_dv + seq![pc]) + chunks_from(v@, ns as int, csi, coi) =~= old_dv + (
            seq![pc] + chunks_from(v@, ns as int, csi, coi)));
        }
        start = ns;
    }
    Ok(out)
}

/// An all-whitespace text yields no chunks; a non-empty text no longer
/// than one window yields exactly one chunk, its trimmed self.
pub proof fn lemma_chunk_text_boundaries(s: Seq<char>, size_tokens: int, overlap_tokens: int)
    requires
        1 <= size_tokens,
        0 <= overlap_tokens,
    ensures
        seq_trim(s).len() == 0 ==> chunk_text_spec(s, size_tokens, overlap_tokens) == Seq::<
            Seq<char>,
        >::empty(),
        seq_trim(s).len() > 0 && s.len() <= 4 * size_tokens ==> chunk_text_spec(
            s,
            size_tokens,
            overlap_tokens,
        ) == seq![seq_trim(s)],
{
    if seq_trim(s).len() > 0 && s.len() <= 4 * size_tokens {
        let cs = 4 * size_tokens;
        let co = 4 * overlap_tokens;
        assert(s.len() > 0) by {
            if s.len() == 0 {
                assert(seq_trim(s).len() == 0);
            }
        }
        assert(chunk_end_at(s, 0, cs) == s.len());
        assert(s.subrange(0, s.len() as int) =~= s);
        assert(chunks_from(s, 0, cs, co) =~= seq![seq_trim(s)]);
    }
}

/// The chunks of one section: its content cut into windows, each chunk
/// carrying the section's header and type and the token estimate of its
/// text.
pub open spec fn section_chunks(sec: SectionView, size_tokens: int, overlap_tokens: int) -> Seq<
    ChunkView,
> {
    chunk_text_spec(sec.content, size_tokens, overlap_tokens).map_values(
        |t: Seq<char>|
            ChunkView {
                text: t,
                tokens: est_tokens(t.len()),
                section_header: Some(sec.header),
                chunk_type: sec.section_type,
            },
    )
}

/// The chunks of a whole document: the concatenation of every section's
/// chunks; when that is empty, the full content cut into chunks without
/// section metadata.
pub open spec fn document_chunks(doc: ParsedDocumentView, size_tokens: int, overlap_tokens: int) -> Seq<ChunkView> {
    let per = Seq::new(
        doc.sections.len(),
        |i: int| section_chunks(doc.sections[i], size_tokens, overlap_tokens),
    ).flatten();
    if per.len() == 0 {
        chunk_text_spec(doc.content, size_tokens, overlap_tokens).map_values(
            |t: Seq<char>|
                ChunkView {
                    text: t,
                    tokens: est_tokens(t.len()),
                    section_header: None,
                    chunk_type: None,
                },
        )
    } else {
        per
    }
}

/// Turn every chunk text of `texts` into a `Chunk` with the given section
/// metadata.
fn chunks_with_meta(
    texts: Vec<String>,
    section_header: Option<&String>,
    chunk_type: Option<&String>,
) -> (r: Vec<Chunk>)
    ensures
        r.deep_view() == texts.deep_view().map_values(
            |t: Seq<char>|
                ChunkView {
                    text: t,
                    tokens: est_tokens(t.len()),
                    section_header: match section_header {
                        Some(h) => Some(h@),
                        None => None,
                    },
                    chunk_type: match chunk_type {
                        Some(c) => Some(c@),
                        None => None,
                    },
                },
        ),
{
    let ghost target = texts.deep_view().map_values(
        |t: Seq<char>|
            ChunkView {
                text: t,
                tokens: est_tokens(t.len()),
                section_header: match section_header {
                    Some(h) => Some(h@),
                    None => None,
                },
                chunk_type: match chunk_type {
                    Some(c) => Some(c@),
                    None => None,
                },
            },
    );
    let mut r: Vec<Chunk> = Vec::new();
    let mut i: usize = 0;
    while i < texts.len()
        invariant
            i <= texts.len(),
            target == texts.deep_view().map_values(
                |t: Seq<char>|
                    ChunkView {
                        text: t,
                        tokens: est_tokens(t.len()),
                        section_header: match section_header {
                            Some(h) => Some(h@),
                            None => None,
                        },
                        chunk_type: match chunk_type {
                            Some(c) => Some(c@),
                            None => None,
                        },
                    },
            ),
            r.deep_view() =~= target.subrange(0, i as int),
        decreases texts.len() - i,
    {
        let text: String = texts[i].clone();
        let tokens = estimate_tokens(text.as_str());
        let sh: Option<String> = match section_header {
            Some(h) => Some(h.clone()),
            None => None,
        };
        let ct: Option<String> = match chunk_type {
            Some(c) => Some(c.clone()),
            None => None,
        };
        let ghost old_dv = r.deep_view();
        r.push(Chunk { text, tokens, section_header: sh, chunk_type: ct });
        proof {
            assert(texts.deep_view()[i as int] == texts@[i as int]@);
            assert(r.deep_view() =~= old_dv.push(target[i as int]));
            assert(r.deep_view() =~= target.subrange(0, i + 1 as int));
        }
        i = i + 1;
    }
    proof {
        assert(target.subrange(0, target.len() as int) =~= target);
    }
    r
}

/// Chunk a parsed document: each section's content is cut with the
/// configured window and overlap; a document whose sections yield nothing
/// is chunked over its full content.
pub fn chunk_document(parsed: &crate::parsers::ParsedDocument, config: &PerformanceConfig) -> (r:
    Result<Vec<Chunk>, RagmcpError>)
    requires
        1 <= config.chunk_size_tokens,
        config.chunk_size_tokens <= usize::MAX / 4,
        config.chunk_overlap_tokens < config.chunk_size_tokens,
    ensures
        r is Ok,
        r->Ok_0.deep_view() == document_chunks(
            parsed@,
            config.chunk_size_tokens as int,
            config.chunk_overlap_tokens as int,
        ),
{
    broadcast use Seq::lemma_flatten_push;

    let ghost st = config.chunk_size_tokens as int;
    let ghost ot = config.chunk_overlap_tokens as int;
    let ghost per_section = Seq::new(
        parsed@.sections.len(),
        |i: int| section_chunks(parsed@.sections[i], st, ot),
    );
    let mut chunks: Vec<Chunk> = Vec::new();
    let mut i: usize = 0;
    proof {
        assert(per_section.subrange(0, 0) =~= Seq::<Seq<ChunkView>>::empty());
        assert(chunks.deep_view() =~= per_section.subrange(0, 0).flatten());
    }
    while i < parsed.sections.len()
        invariant
            i <= parsed.sections.len(),
            st == config.chunk_size_tokens as int,
            ot == config.chunk_overlap_tokens as int,
            1 <= config.chunk_size_tokens,
            config.chunk_size_tokens <= usize::MAX / 4,
            config.chunk_overlap_tokens < config.chunk_size_tokens,
            per_section == Seq::new(
                parsed@.sections.len(),
                |j: int| section_chunks(parsed@.sections[j], st, ot),
            ),
            chunks.deep_view() == per_section.subrange(0, i as int).flatten(),
        decreases parsed.sections.len() - i,
    {
        let sec = &parsed.sections[i];
        let texts = match chunk_text(
            sec.content.as_str(),
            config.chunk_size_tokens,
            config.chunk_overlap_tokens,
        ) {
            Ok(t) => t,
            Err(e) => {
                return Err(e);
            },
        };
        let sec_chunks = chunks_with_meta(texts, Some(&sec.header), sec.section_type.as_ref());
        let ghost old_dv = chunks.deep_view();
        let mut k: usize = 0;
        let ghost sc_dv = sec_chunks.deep_view();
        let mut sec_chunks = sec_chunks;
        while k < sec_chunks.len()
            invariant
                k <= sec_chunks.len(),
                sec_chunks.deep_view() == sc_dv,
                chunks.deep_view() == old_dv + sc_dv.subrange(0, k as int),
            decreases sec_chunks.len() - k,
        {
            let c = copy_chunk(&sec_chunks[k]);
            let ghost before = chunks.deep_view();
            chunks.push(c);
            proof {
                assert(chunks.deep_view() =~= before.push(sc_dv[k as int]));
                assert(chunks.deep_view() =~= old_dv + sc_dv.subrange(0, k + 1 as int));
            }
            k = k + 1;
        }
        proof {
            assert(sc_dv.subrange(0, sc_dv.len() as int) =~= sc_dv);
            assert(sc_dv =~= section_chunks(parsed@.sections[i as int], st, ot)) by {
                assert(parsed.sections.deep_view()[i as int] == parsed.sections@[i as int]@);
            }
            assert(per_section.subrange(0, i + 1 as int).drop_last() =~= per_section.subrange(
                0,
                i as int,
            ));
            assert(per_section.subrange(0, i + 1 as int).flatten() =~= per_section.subrange(
                0,
                i as int,
            ).flatten() + per_section[i as int]) by {
                per_section.subrange(0, i + 1 as int).lemma_flatten_and_flatten_alt_are_equivalent();
                per_section.subrange(0, i as int).lemma_flatten_and_flatten_alt_are_equivalent();
            }
            assert(chunks.deep_view() =~= per_section.subrange(0, i + 1 as int).flatten());
        }
        i = i + 1;
    }
    proof {
        assert(per_section.subrange(0, per_section.len() as int) =~= per_section);
    }
    if chunks.len() == 0 {
        let texts = match chunk_text(
            parsed.content.as_str(),
            config.chunk_size_tokens,
            config.chunk_overlap_tokens,
        ) {
            Ok(t) => t,
            Err(e) => {
                return Err(e);
            },
        };
        let full = chunks_with_meta(texts, None, None);
        proof {
            assert(per_section.flatten().len() == 0) by {
                assert(chunks.deep_view().len() == 0);
            }
        }
        return Ok(full);
    }
    Ok(chunks)
}

/// A field-for-field copy of a chunk.
fn copy_chunk(c: &Chunk) -> (r: Chunk)
    ensures
        r@ == c@,
{
    Chunk {
        text: c.text.clone(),
        tokens: c.tokens,
        section_header: match &c.section_header {
            Some(h) => Some(h.clone()),
            None => None,
        },
        chunk_type: match &c.chunk_type {
            Some(t) => Some(t.clone()),
            None => None,
        },
    }
}

} // verus!
