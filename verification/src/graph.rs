//! The entity graph: routing relations extracted from arrow patterns in
//! document text (`left → right`), and cycle-safe breadth-first traversal
//! over a relation set.

use crate::text::{chars_of, spec_is_ws, str_eq, string_from_chars, subvec};
use vstd::prelude::*;

verus! {

/// One edge of the entity graph.
#[derive(Clone)]
pub struct Relation {
    pub relation_id: String,
    pub source_entity: String,
    pub relation_type: String,
    pub target_entity: String,
    pub metadata_json: Option<String>,
}

/// The mathematical image of a relation.
#[verifier::ext_equal]
pub struct RelationView {
    pub relation_id: Seq<char>,
    pub source_entity: Seq<char>,
    pub relation_type: Seq<char>,
    pub target_entity: Seq<char>,
    pub metadata_json: Option<Seq<char>>,
}

impl View for Relation {
    type V = RelationView;

    open spec fn view(&self) -> RelationView {
        RelationView {
            relation_id: self.relation_id@,
            source_entity: self.source_entity@,
            relation_type: self.relation_type@,
            target_entity: self.target_entity@,
            metadata_json: self.metadata_json.deep_view(),
        }
    }
}

impl DeepView for Relation {
    type V = RelationView;

    open spec fn deep_view(&self) -> RelationView {
        self.view()
    }
}

/// A field-for-field copy of a relation.
pub fn copy_relation(r: &Relation) -> (c: Relation)
    ensures
        c@ == r@,
{
    Relation {
        relation_id: r.relation_id.clone(),
        source_entity: r.source_entity.clone(),
        relation_type: r.relation_type.clone(),
        target_entity: r.target_entity.clone(),
        metadata_json: match &r.metadata_json {
            Some(m) => Some(m.clone()),
            None => None,
        },
    }
}

/// The characters an entity word is made of: ASCII letters, digits,
/// underscore and hyphen.
pub open spec fn spec_is_word_char(c: char) -> bool {
    ('a' <= c && c <= 'z') || ('A' <= c && c <= 'Z') || ('0' <= c && c <= '9') || c == '_' || c
        == '-'
}

/// Executable word-character test.
#[verifier::when_used_as_spec(spec_is_word_char)]
pub fn is_word_char(c: char) -> (b: bool)
    ensures
        b == spec_is_word_char(c),
{
    ('a' <= c && c <= 'z') || ('A' <= c && c <= 'Z') || ('0' <= c && c <= '9') || c == '_' || c
        == '-'
}

/// The position reached by skipping whitespace backwards from `pos`, never
/// before `floor`.
pub open spec fn skip_ws_back(s: Seq<char>, floor: int, pos: int) -> int
    decreases pos - floor,
{
    if pos > floor && pos <= s.len() && pos >= 1 && spec_is_ws(s[pos - 1]) {
        skip_ws_back(s, floor, pos - 1)
    } else {
        pos
    }
}

/// The position reached by taking word characters backwards from `pos`,
/// never before `floor`.
pub open spec fn skip_word_back(s: Seq<char>, floor: int, pos: int) -> int
    decreases pos - floor,
{
    if pos > floor && pos <= s.len() && pos >= 1 && spec_is_word_char(s[pos - 1]) {
        skip_word_back(s, floor, pos - 1)
    } else {
        pos
    }
}

/// The position reached by skipping whitespace forwards from `pos`.
pub open spec fn skip_ws_fwd(s: Seq<char>, pos: int) -> int
    decreases s.len() - pos,
{
    if 0 <= pos < s.len() && spec_is_ws(s[pos]) {
        skip_ws_fwd(s, pos + 1)
    } else {
        pos
    }
}

/// The position reached by taking word characters forwards from `pos`.
pub open spec fn skip_word_fwd(s: Seq<char>, pos: int) -> int
    decreases s.len() - pos,
{
    if 0 <= pos < s.len() && spec_is_word_char(s[pos]) {
        skip_word_fwd(s, pos + 1)
    } else {
        pos
    }
}

proof fn lemma_skip_back_ranges(s: Seq<char>, floor: int, pos: int)
    requires
        0 <= floor <= pos <= s.len(),
    ensures
        floor <= skip_ws_back(s, floor, pos) <= pos,
        floor <= skip_word_back(s, floor, pos) <= pos,
    decreases pos - floor,
{
    if pos > floor && pos >= 1 && (spec_is_ws(s[pos - 1]) || spec_is_word_char(s[pos - 1])) {
        lemma_skip_back_ranges(s, floor, pos - 1);
    }
}

proof fn lemma_skip_fwd_ranges(s: Seq<char>, pos: int)
    requires
        0 <= pos <= s.len(),
    ensures
        pos <= skip_ws_fwd(s, pos) <= s.len(),
        pos <= skip_word_fwd(s, pos) <= s.len(),
    decreases s.len() - pos,
{
    if pos < s.len() && (spec_is_ws(s[pos]) || spec_is_word_char(s[pos])) {
        lemma_skip_fwd_ranges(s, pos + 1);
    }
}

/// The word pairs found by scanning for `left → right` from position
/// `pos` on: at each arrow, the word just before it (whitespace between
/// them allowed, never reaching back before `minb`, the end of the
/// previous match) and the word just after it; matches never overlap.
pub open spec fn arrow_pairs(s: Seq<char>, pos: int, minb: int) -> Seq<(Seq<char>, Seq<char>)>
    decreases s.len() - pos
        when 0 <= minb <= pos
        via arrow_pairs_decreases
{
    if pos >= s.len() {
        Seq::<(Seq<char>, Seq<char>)>::empty()
    } else if s[pos] == '\u{2192}' {
        let lend = skip_ws_back(s, minb, pos);
        let lstart = skip_word_back(s, minb, lend);
        let rstart = skip_ws_fwd(s, pos + 1);
        let rend = skip_word_fwd(s, rstart);
        if lstart < lend && rstart < rend {
            seq![(s.subrange(lstart, lend), s.subrange(rstart, rend))] + arrow_pairs(s, rend, rend)
        } else {
            arrow_pairs(s, pos + 1, minb)
        }
    } else {
        arrow_pairs(s, pos + 1, minb)
    }
}

#[via_fn]
proof fn arrow_pairs_decreases(s: Seq<char>, pos: int, minb: int) {
    if pos < s.len() && s[pos] == '\u{2192}' {
        lemma_skip_back_ranges(s, minb, pos);
        lemma_skip_back_ranges(s, minb, skip_ws_back(s, minb, pos));
        lemma_skip_fwd_ranges(s, pos + 1);
        lemma_skip_fwd_ranges(s, skip_ws_fwd(s, pos + 1));
    }
}

/// The arrow pairs of a whole text.
pub open spec fn arrow_pairs_of(s: Seq<char>) -> Seq<(Seq<char>, Seq<char>)> {
    arrow_pairs(s, 0, 0)
}

/// The ASCII-lowercased form of a word (arrow words hold only ASCII word
/// characters, where ASCII and Unicode lowering agree).
pub open spec fn lower_word(w: Seq<char>) -> Seq<char> {
    w.map_values(|c: char| crate::text::spec_lower_ascii(c))
}

/// The word pairs found in `content`, in scan order.
pub fn find_arrow_pairs(content: &str) -> (r: Vec<(Vec<char>, Vec<char>)>)
    ensures
        r.deep_view() == arrow_pairs_of(content@),
{
    let v = chars_of(content);
    let mut out: Vec<(Vec<char>, Vec<char>)> = Vec::new();
    let mut pos: usize = 0;
    let mut minb: usize = 0;
    proof {
        assert(out.deep_view() + arrow_pairs(v@, 0, 0) =~= arrow_pairs(v@, 0, 0));
    }
    while pos < v.len()
        invariant
            0 <= minb <= pos <= v@.len(),
            v@ == content@,
            out.deep_view() + arrow_pairs(v@, pos as int, minb as int) == arrow_pairs(v@, 0, 0),
        decreases v@.len() - pos,
    {
        if v[pos] == '\u{2192}' {
            // left word: skip whitespace, then word characters, backwards
            let mut lend: usize = pos;
            while lend > minb && crate::text::is_ws(v[lend - 1])
                invariant
                    minb <= lend <= pos <= v@.len(),
                    skip_ws_back(v@, minb as int, pos as int) == skip_ws_back(
                        v@,
                        minb as int,
                        lend as int,
                    ),
                decreases lend,
            {
                lend = lend - 1;
            }
            proof {
                assert(lend as int == skip_ws_back(v@, minb as int, pos as int));
            }
            let mut lstart: usize = lend;
            while lstart > minb && is_word_char(v[lstart - 1])
                invariant
                    minb <= lstart <= lend <= v@.len(),
                    skip_word_back(v@, minb as int, lend as int) == skip_word_back(
                        v@,
                        minb as int,
                        lstart as int,
                    ),
                decreases lstart,
            {
                lstart = lstart - 1;
            }
            proof {
                assert(lstart as int == skip_word_back(v@, minb as int, lend as int));
            }
            // right word: skip whitespace, then word characters, forwards
            let mut rstart: usize = pos + 1;
            while rstart < v.len() && crate::text::is_ws(v[rstart])
                invariant
                    pos + 1 <= rstart <= v@.len(),
                    skip_ws_fwd(v@, pos + 1) == skip_ws_fwd(v@, rstart as int),
                decreases v@.len() - rstart,
            {
                rstart = rstart + 1;
            }
            proof {
                assert(rstart as int == skip_ws_fwd(v@, pos + 1));
            }
            let mut rend: usize = rstart;
            while rend < v.len() && is_word_char(v[rend])
                invariant
                    rstart <= rend <= v@.len(),
                    skip_word_fwd(v@, rstart as int) == skip_word_fwd(v@, rend as int),
                decreases v@.len() - rend,
            {
                rend = rend + 1;
            }
            proof {
                assert(rend as int == skip_word_fwd(v@, rstart as int));
            }
            if lstart < lend && rstart < rend {
                let lw = subvec(&v, lstart, lend);
                let rw = subvec(&v, rstart, rend);
                let ghost old_dv = out.deep_view();
                out.push((lw, rw));
                proof {
                    assert(out.deep_view() =~~= old_dv.push(
                        (v@.subrange(lstart as int, lend as int), v@.subrange(
                            rstart as int,
                            rend as int,
                        )),
                    ));
                    assert(arrow_pairs(v@, pos as int, minb as int) =~= seq![
                        (v@.subrange(lstart as int, lend as int), v@.subrange(
                            rstart as int,
                            rend as int,
                        )),
                    ] + arrow_pairs(v@, rend as int, rend as int));
                    assert((old_dv + seq![
                        (v@.subrange(lstart as int, lend as int), v@.subrange(
                            rstart as int,
                            rend as int,
                        )),
                    ]) + arrow_pairs(v@, rend as int, rend as int) =~= old_dv + (seq![
                        (v@.subrange(lstart as int, lend as int), v@.subrange(
                            rstart as int,
                            rend as int,
                        )),
                    ] + arrow_pairs(v@, rend as int, rend as int)));
                }
                pos = rend;
                minb = rend;
            } else {
                pos = pos + 1;
            }
        } else {
            pos = pos + 1;
        }
    }
    proof {
        assert(arrow_pairs(v@, pos as int, minb as int) =~= Seq::<(Seq<char>, Seq<char>)>::empty());
        assert(out.deep_view() + Seq::<(Seq<char>, Seq<char>)>::empty() =~= out.deep_view());
    }
    out
}

/// Relies on `uuid::Uuid::new_v4` and its hyphenated text form: a random
/// version-4 UUID written as 36 characters with hyphens at positions 8,
/// 13, 18 and 23. The value is random; nothing else is promised of it.
#[verifier::external_body]
fn new_uuid_v4() -> (r: String)
    ensures
        r@.len() == 36,
        r@[8] == '-' && r@[13] == '-' && r@[18] == '-' && r@[23] == '-',
{
    uuid::Uuid::new_v4().to_string()
}

/// ASCII-lowercase every character of the word.
fn lower_word_chars(w: &Vec<char>) -> (r: Vec<char>)
    ensures
        r@ == lower_word(w@),
{
    let mut r: Vec<char> = Vec::new();
    let mut i: usize = 0;
    while i < w.len()
        invariant
            i <= w@.len(),
            r@.len() == i,
            forall|j: int| 0 <= j < i ==> r@[j] == crate::text::spec_lower_ascii(w@[j]),
        decreases w@.len() - i,
    {
        r.push(crate::text::lower_ascii(w[i]));
        i = i + 1;
    }
    proof {
        assert(r@ =~= lower_word(w@));
    }
    r
}

/// The entity name an extracted word stands for: `entity:` plus the
/// lowercased word.
pub open spec fn entity_of_word(w: Seq<char>) -> Seq<char> {
    "entity:"@ + lower_word(w)
}

/// The metadata recorded on every relation a document yields: the owning
/// entity it was extracted from.
pub open spec fn extraction_metadata(entity_name: Seq<char>) -> Seq<char> {
    "{\"extracted_from\":\"entity:"@ + entity_name + "\"}"@
}

/// Extract routing relations from document content: every `left → right`
/// arrow pair becomes an edge `entity:<left> routes_to entity:<right>`
/// (words lowercased), tagged with the owning entity. Relation identifiers
/// are fresh UUIDs.
pub fn extract_routing_relations(entity_name: &str, content: &str) -> (r: Vec<Relation>)
    ensures
        r.deep_view().len() == arrow_pairs_of(content@).len(),
        forall|i: int|
            0 <= i < r.deep_view().len() ==> {
                let (l, w) = arrow_pairs_of(content@)[i];
                &&& (#[trigger] r.deep_view()[i]).source_entity == entity_of_word(l)
                &&& r.deep_view()[i].target_entity == entity_of_word(w)
                &&& r.deep_view()[i].relation_type == "routes_to"@
                &&& r.deep_view()[i].metadata_json == Some(extraction_metadata(entity_name@))
                &&& r.deep_view()[i].relation_id.len() == 36
            },
{
    let pairs = find_arrow_pairs(content);
    let ghost pdv = pairs.deep_view();
    let mut out: Vec<Relation> = Vec::new();
    let mut i: usize = 0;
    while i < pairs.len()
        invariant
            i <= pairs@.len(),
            pdv == pairs.deep_view(),
            pdv == arrow_pairs_of(content@),
            out.deep_view().len() == i,
            forall|j: int|
                0 <= j < i ==> {
                    let (l, w) = pdv[j];
                    &&& (#[trigger] out.deep_view()[j]).source_entity == entity_of_word(l)
                    &&& out.deep_view()[j].target_entity == entity_of_word(w)
                    &&& out.deep_view()[j].relation_type == "routes_to"@
                    &&& out.deep_view()[j].metadata_json == Some(
                        extraction_metadata(entity_name@),
                    )
                    &&& out.deep_view()[j].relation_id.len() == 36
                },
        decreases pairs@.len() - i,
    {
        let (lw, rw) = &pairs[i];
        let source = {
            let mut s = "entity:".to_owned();
            let low = lower_word_chars(lw);
            let lows = string_from_chars(&low);
            s.append(lows.as_str());
            s
        };
        let target = {
            let mut s = "entity:".to_owned();
            let low = lower_word_chars(rw);
            let lows = string_from_chars(&low);
            s.append(lows.as_str());
            s
        };
        let meta = {
            let mut s = "{\"extracted_from\":\"entity:".to_owned();
            s.append(entity_name);
            s.append("\"}");
            s
        };
        let rel = Relation {
            relation_id: new_uuid_v4(),
            source_entity: source,
            relation_type: "routes_to".to_owned(),
            target_entity: target,
            metadata_json: Some(meta),
        };
        let ghost old_dv = out.deep_view();
        let ghost relv = rel@;
        proof {
            assert(pdv[i as int] == pairs@[i as int].deep_view());
        }
        out.push(rel);
        proof {
            assert(out.deep_view() =~= old_dv.push(relv));
            let (l, w) = pdv[i as int];
            assert(l == pairs@[i as int].0@ && w == pairs@[i as int].1@);
            assert(relv.source_entity == entity_of_word(l));
            assert(relv.target_entity == entity_of_word(w));
        }
        i = i + 1;
    }
    out
}

/// Whether a relation's type passes the optional filter.
pub open spec fn type_passes(types: Option<Seq<Seq<char>>>, t: Seq<char>) -> bool {
    match types {
        None => true,
        Some(ts) => ts.contains(t),
    }
}

/// Breadth-first traversal of the relation set from `start_entity`,
/// following edges whose type passes the filter, visiting every entity at
/// most once, to at most `max_depth` hops. The returned edges are drawn
/// from `relations`, their targets are pairwise distinct and never the
/// start entity, and a zero depth returns nothing. At depth one or more,
/// every passing edge out of the start entity is represented among the
/// returned targets.
pub fn traverse_graph(
    relations: &Vec<Relation>,
    start_entity: &str,
    relation_types: &Option<Vec<String>>,
    max_depth: usize,
) -> (r: Vec<Relation>)
    ensures
        ({
            let rdv = relations.deep_view();
            let out = r.deep_view();
            let types = match relation_types {
                Some(ts) => Some(ts.deep_view()),
                None => None,
            };
            &&& out.len() <= rdv.len()
            &&& forall|i: int| 0 <= i < out.len() ==> rdv.contains(#[trigger] out[i])
            &&& forall|i: int, j: int|
                0 <= i < j < out.len() ==> (#[trigger] out[i]).target_entity != (
                #[trigger] out[j]).target_entity
            &&& forall|i: int| 0 <= i < out.len() ==> (#[trigger] out[i]).target_entity != start_entity@
            &&& forall|i: int|
                0 <= i < out.len() ==> type_passes(types, (#[trigger] out[i]).relation_type)
            &&& (max_depth == 0 ==> out.len() == 0)
            &&& (max_depth >= 1 ==> forall|m: int|
                0 <= m < rdv.len() && (#[trigger] rdv[m]).source_entity == start_entity@
                    && type_passes(types, rdv[m].relation_type) && rdv[m].target_entity
                    != start_entity@ ==> exists|i: int|
                    0 <= i < out.len() && (#[trigger] out[i]).target_entity
                        == rdv[m].target_entity)
        }),
{
    let ghost rdv = relations.deep_view();
    let ghost types: Option<Seq<Seq<char>>> = match relation_types {
        Some(ts) => Some(ts.deep_view()),
        None => None,
    };
    let ghost targets = rdv.map_values(|x: RelationView| x.target_entity);
    let mut visited: Vec<String> = Vec::new();
    visited.push(start_entity.to_owned());
    let mut queue_e: Vec<String> = Vec::new();
    queue_e.push(start_entity.to_owned());
    let mut queue_d: Vec<usize> = Vec::new();
    queue_d.push(0);
    let mut out: Vec<Relation> = Vec::new();
    let mut qi: usize = 0;
    proof {
        assert(visited.deep_view() =~= seq![start_entity@]);
        assert(queue_e.deep_view() =~= seq![start_entity@]);
        assert(queue_d@ =~= seq![0usize]);
    }
    while qi < queue_e.len()
        invariant
            rdv == relations.deep_view(),
            types == (match relation_types {
                Some(ts) => Some(ts.deep_view()),
                None => None,
            }),
            targets == rdv.map_values(|x: RelationView| x.target_entity),
            qi <= queue_e@.len(),
            queue_e@.len() == queue_d@.len(),
            queue_e@.len() == visited@.len(),
            visited.deep_view()[0] == start_entity@,
            queue_e.deep_view()[0] == start_entity@,
            queue_d@[0] == 0,
            visited@.len() >= 1,
            visited.deep_view().no_duplicates(),
            forall|i: int|
                1 <= i < visited.deep_view().len() ==> targets.contains(
                    #[trigger] visited.deep_view()[i],
                ),
            out.deep_view().len() == visited@.len() - 1,
            forall|i: int|
                0 <= i < out.deep_view().len() ==> (#[trigger] out.deep_view()[i]).target_entity
                    == visited.deep_view()[i + 1],
            forall|i: int|
                0 <= i < out.deep_view().len() ==> rdv.contains(#[trigger] out.deep_view()[i]),
            forall|i: int|
                0 <= i < out.deep_view().len() ==> type_passes(
                    types,
                    (#[trigger] out.deep_view()[i]).relation_type,
                ),
            max_depth == 0 ==> out.deep_view().len() == 0,
            max_depth >= 1 && qi >= 1 ==> forall|m: int|
                0 <= m < rdv.len() && (#[trigger] rdv[m]).source_entity == start_entity@
                    && type_passes(types, rdv[m].relation_type) ==> visited.deep_view().contains(
                    rdv[m].target_entity,
                ),
        decreases 2 + rdv.len() - qi,
    {
        proof {
            lemma_visited_bound(visited.deep_view(), targets);
        }
        let entity = queue_e[qi].clone();
        let depth = queue_d[qi];
        proof {
            assert(entity@ == queue_e.deep_view()[qi as int]);
        }
        if depth < max_depth {
            let mut m: usize = 0;
            while m < relations.len()
                invariant
                    rdv == relations.deep_view(),
                    types == (match relation_types {
                        Some(ts) => Some(ts.deep_view()),
                        None => None,
                    }),
                    targets == rdv.map_values(|x: RelationView| x.target_entity),
                    m <= rdv.len(),
                    qi < queue_e@.len(),
                    queue_e@.len() == queue_d@.len(),
                    queue_e@.len() == visited@.len(),
                    visited.deep_view()[0] == start_entity@,
                    queue_e.deep_view()[0] == start_entity@,
                    queue_d@[0] == 0,
                    visited@.len() >= 1,
                    visited.deep_view().no_duplicates(),
                    forall|i: int|
                        1 <= i < visited.deep_view().len() ==> targets.contains(
                            #[trigger] visited.deep_view()[i],
                        ),
                    out.deep_view().len() == visited@.len() - 1,
                    forall|i: int|
                        0 <= i < out.deep_view().len() ==> (
                        #[trigger] out.deep_view()[i]).target_entity == visited.deep_view()[i + 1],
                    forall|i: int|
                        0 <= i < out.deep_view().len() ==> rdv.contains(
                            #[trigger] out.deep_view()[i],
                        ),
                    forall|i: int|
                        0 <= i < out.deep_view().len() ==> type_passes(
                            types,
                            (#[trigger] out.deep_view()[i]).relation_type,
                        ),
                    max_depth == 0 ==> out.deep_view().len() == 0,
                    depth < max_depth,
                    entity@ == queue_e.deep_view()[qi as int],
                    qi == 0 ==> entity@ == start_entity@,
                    qi == 0 ==> forall|mm: int|
                        0 <= mm < m && (#[trigger] rdv[mm]).source_entity == start_entity@
                            && type_passes(types, rdv[mm].relation_type)
                            ==> visited.deep_view().contains(rdv[mm].target_entity),
                    max_depth >= 1 && qi >= 1 ==> forall|mm: int|
                        0 <= mm < rdv.len() && (#[trigger] rdv[mm]).source_entity == start_entity@
                            && type_passes(types, rdv[mm].relation_type)
                            ==> visited.deep_view().contains(rdv[mm].target_entity),
                decreases rdv.len() - m,
            {
                let rel = &relations[m];
                proof {
                    assert(rel@ == rdv[m as int]);
                }
                let src_matches = str_eq(rel.source_entity.as_str(), entity.as_str());
                let type_ok = match relation_types {
                    None => true,
                    Some(ts) => {
                        let mut found = false;
                        let mut t: usize = 0;
                        while t < ts.len()
                            invariant
                                t <= ts@.len(),
                                rel@ == rdv[m as int],
                                m < rdv.len(),
                                found == exists|u: int|
                                    0 <= u < t && ts.deep_view()[u] == rel@.relation_type,
                            decreases ts@.len() - t,
                        {
                            if str_eq(ts[t].as_str(), rel.relation_type.as_str()) {
                                found = true;
                                proof {
                                    assert(ts.deep_view()[t as int] == ts@[t as int]@);
                                }
                            }
                            t = t + 1;
                        }
                        found
                    },
                };
                proof {
                    assert(type_ok == type_passes(types, rdv[m as int].relation_type)) by {
                        match relation_types {
                            None => {},
                            Some(ts) => {
                                if type_ok {
                                    let u = choose|u: int|
                                        0 <= u < ts.deep_view().len() && ts.deep_view()[u] == rel@.relation_type;
                                    assert(ts.deep_view().contains(rel@.relation_type));
                                } else {
                                    if ts.deep_view().contains(rel@.relation_type) {
                                        let u = choose|u: int|
                                            0 <= u < ts.deep_view().len() && ts.deep_view()[u]
                                                == rel@.relation_type;
                                    }
                                }
                            },
                        }
                    }
                }
                if src_matches && type_ok {
                    // already visited?
                    let mut seen = false;
                    let mut vv: usize = 0;
                    while vv < visited.len()
                        invariant
                            vv <= visited@.len(),
                            rel@ == rdv[m as int],
                            m < rdv.len(),
                            seen == exists|u: int|
                                0 <= u < vv && visited.deep_view()[u] == rel@.target_entity,
                        decreases visited@.len() - vv,
                    {
                        if str_eq(visited[vv].as_str(), rel.target_entity.as_str()) {
                            seen = true;
                            proof {
                                assert(visited.deep_view()[vv as int] == visited@[vv as int]@);
                            }
                        }
                        vv = vv + 1;
                    }
                    proof {
                        assert(seen == visited.deep_view().contains(rel@.target_entity)) by {
                            if seen {
                                let u = choose|u: int|
                                    0 <= u < visited.deep_view().len() && visited.deep_view()[u]
                                        == rel@.target_entity;
                            } else {
                                if visited.deep_view().contains(rel@.target_entity) {
                                    let u = choose|u: int|
                                        0 <= u < visited.deep_view().len() && visited.deep_view()[u]
                                            == rel@.target_entity;
                                }
                            }
                        }
                    }
                    if !seen {
                        let ghost old_vis = visited.deep_view();
                        let ghost old_out = out.deep_view();
                        let ghost old_qe = queue_e.deep_view();
                        visited.push(rel.target_entity.clone());
                        queue_e.push(rel.target_entity.clone());
                        if depth >= usize::MAX - 1 {
                            // depth is bounded by max_depth <= usize::MAX, and
                            // never reaches it because of the strict guard
                            queue_d.push(depth);
                        } else {
                            queue_d.push(depth + 1);
                        }
                        out.push(copy_relation(rel));
                        proof {
                            assert(visited.deep_view() =~= old_vis.push(rel@.target_entity));
                            assert(queue_e.deep_view() =~= old_qe.push(rel@.target_entity));
                            assert(out.deep_view() =~= old_out.push(rdv[m as int]));
                            assert(targets[m as int] == rdv[m as int].target_entity);
                            assert(targets.contains(rdv[m as int].target_entity));
                            assert(rdv.contains(rdv[m as int]));
                            assert(visited.deep_view().no_duplicates());
                            assert forall|x: Seq<char>| old_vis.contains(x) implies visited.deep_view().contains(x) by {
                                let u = choose|u: int| 0 <= u < old_vis.len() && old_vis[u] == x;
                                assert(visited.deep_view()[u] == x);
                            }
                            assert(visited.deep_view().contains(rel@.target_entity)) by {
                                assert(visited.deep_view()[old_vis.len() as int]
                                    == rel@.target_entity);
                            }
                            assert forall|i: int|
                                0 <= i < out.deep_view().len() implies (
                            #[trigger] out.deep_view()[i]).target_entity
                                == visited.deep_view()[i + 1] by {
                                if i < old_out.len() {
                                    assert(old_out[i].target_entity == old_vis[i + 1]);
                                }
                            }
                        }
                    }
                }
                m = m + 1;
            }
        }
        qi = qi + 1;
    }
    proof {
        assert forall|i: int, j: int|
            0 <= i < j < out.deep_view().len() implies (#[trigger] out.deep_view()[i]).target_entity
            != (#[trigger] out.deep_view()[j]).target_entity by {
            assert(out.deep_view()[i].target_entity == visited.deep_view()[i + 1]);
            assert(out.deep_view()[j].target_entity == visited.deep_view()[j + 1]);
        }
        assert forall|i: int|
            0 <= i < out.deep_view().len() implies (#[trigger] out.deep_view()[i]).target_entity
            != start_entity@ by {
            assert(out.deep_view()[i].target_entity == visited.deep_view()[i + 1]);
            assert(visited.deep_view()[0] == start_entity@);
        }
        lemma_visited_bound(visited.deep_view(), targets);
        if max_depth >= 1 {
            assert forall|m: int|
                0 <= m < rdv.len() && (#[trigger] rdv[m]).source_entity == start_entity@
                    && type_passes(types, rdv[m].relation_type) && rdv[m].target_entity
                    != start_entity@ implies exists|i: int|
                0 <= i < out.deep_view().len() && (#[trigger] out.deep_view()[i]).target_entity
                    == rdv[m].target_entity by {
                assert(qi >= 1);
                assert(visited.deep_view().contains(rdv[m].target_entity));
                let u = choose|u: int|
                    0 <= u < visited.deep_view().len() && visited.deep_view()[u]
                        == rdv[m].target_entity;
                assert(u >= 1);
                assert(out.deep_view()[u - 1].target_entity == visited.deep_view()[u]);
            }
        }
    }
    out
}

/// A distinct list of visited entities, all but the first drawn from the
/// relation targets, cannot outgrow the relation set by more than one.
proof fn lemma_visited_bound(visited: Seq<Seq<char>>, targets: Seq<Seq<char>>)
    requires
        visited.len() >= 1,
        visited.no_duplicates(),
        forall|i: int| 1 <= i < visited.len() ==> targets.contains(#[trigger] visited[i]),
    ensures
        visited.len() <= 1 + targets.len(),
{
    let tail = visited.drop_first();
    assert(tail.no_duplicates()) by {
        assert(forall|i: int, j: int|
            0 <= i < j < tail.len() ==> tail[i] == visited[i + 1] && tail[j] == visited[j + 1]);
    }
    assert(forall|i: int| 0 <= i < tail.len() ==> targets.contains(#[trigger] tail[i]));
    tail.unique_seq_to_set();
    assert(tail.to_set().subset_of(targets.to_set())) by {
        assert forall|x: Seq<char>| tail.to_set().contains(x) implies targets.to_set().contains(
            x,
        ) by {
            assert(tail.contains(x));
            let i = choose|i: int| 0 <= i < tail.len() && tail[i] == x;
            assert(targets.contains(x));
            let j = choose|j: int| 0 <= j < targets.len() && targets[j] == x;
        }
    }
    targets.lemma_cardinality_of_set();
    broadcast use vstd::seq_lib::seq_to_set_is_finite;

    vstd::set_lib::lemma_len_subset(tail.to_set(), targets.to_set());
}

} // verus!
