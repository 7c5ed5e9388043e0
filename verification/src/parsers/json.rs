//! The JSON parser: schema files yield a section per definition or
//! property; other objects a section per top-level key. The value tree
//! comes from `serde_json`; everything after that is verified.

use crate::error::RagmcpError;
use crate::parsers::{DocParser, ParsedDocument, ParsedDocumentView, Section, SectionView};
use crate::text::{chars_eq_lit, chars_of, string_from_chars};
use vstd::prelude::*;

verus! {

/// A JSON value as plain data. Numbers keep their rendered text.
pub enum JsonNode {
    Null,
    Bool(bool),
    Num(String),
    Str(String),
    Arr(Vec<JsonNode>),
    Obj(Vec<(String, JsonNode)>),
}

/// The mathematical image of a JSON value.
pub enum JsonNodeView {
    Null,
    Bool(bool),
    Num(Seq<char>),
    Str(Seq<char>),
    Arr(Seq<JsonNodeView>),
    Obj(Seq<(Seq<char>, JsonNodeView)>),
}

impl JsonNode {
    /// The node's mathematical image.
    pub open spec fn view(&self) -> JsonNodeView
        decreases self, 1int, 0int,
    {
        match self {
            JsonNode::Null => JsonNodeView::Null,
            JsonNode::Bool(b) => JsonNodeView::Bool(*b),
            JsonNode::Num(s) => JsonNodeView::Num(s@),
            JsonNode::Str(s) => JsonNodeView::Str(s@),
            JsonNode::Arr(items) => JsonNodeView::Arr(arr_views(items@, 0)),
            JsonNode::Obj(entries) => JsonNodeView::Obj(obj_views(entries@, 0)),
        }
    }
}

/// The images of the array items from `i` on.
pub open spec fn arr_views(items: Seq<JsonNode>, i: int) -> Seq<JsonNodeView>
    decreases items, 0int, items.len() - i,
{
    if i < 0 || i >= items.len() {
        Seq::<JsonNodeView>::empty()
    } else {
        seq![items[i].view()] + arr_views(items, i + 1)
    }
}

/// The images of the object entries from `i` on.
pub open spec fn obj_views(entries: Seq<(String, JsonNode)>, i: int) -> Seq<
    (Seq<char>, JsonNodeView),
>
    decreases entries, 0int, entries.len() - i,
{
    if i < 0 || i >= entries.len() {
        Seq::<(Seq<char>, JsonNodeView)>::empty()
    } else {
        seq![(entries[i].0@, entries[i].1.view())] + obj_views(entries, i + 1)
    }
}

/// Indexing facts for the item images.
pub proof fn lemma_arr_views(items: Seq<JsonNode>, i: int)
    requires
        0 <= i,
    ensures
        arr_views(items, i).len() == if i <= items.len() {
            items.len() - i
        } else {
            0
        },
        forall|j: int|
            0 <= j < arr_views(items, i).len() ==> arr_views(items, i)[j] == items[i + j].view(),
    decreases items.len() - i,
{
    if i < items.len() {
        lemma_arr_views(items, i + 1);
        assert forall|j: int|
            0 <= j < arr_views(items, i).len() implies arr_views(items, i)[j] == items[i
            + j].view() by {
            if j > 0 {
                assert(arr_views(items, i)[j] == arr_views(items, i + 1)[j - 1]);
            }
        }
    }
}

/// Indexing facts for the entry images.
pub proof fn lemma_obj_views(entries: Seq<(String, JsonNode)>, i: int)
    requires
        0 <= i,
    ensures
        obj_views(entries, i).len() == if i <= entries.len() {
            entries.len() - i
        } else {
            0
        },
        forall|j: int|
            0 <= j < obj_views(entries, i).len() ==> obj_views(entries, i)[j] == (
            entries[i + j].0@, entries[i + j].1.view()),
    decreases entries.len() - i,
{
    if i < entries.len() {
        lemma_obj_views(entries, i + 1);
        assert forall|j: int|
            0 <= j < obj_views(entries, i).len() implies obj_views(entries, i)[j] == (
        entries[i + j].0@, entries[i + j].1.view()) by {
            if j > 0 {
                assert(obj_views(entries, i)[j] == obj_views(entries, i + 1)[j - 1]);
            }
        }
    }
}

/// The value tree `serde_json` yields for a text, when it parses; object
/// keys come out in the parser's (sorted) order. A function of the text
/// alone.
pub uninterp spec fn json_tree_of(s: Seq<char>) -> Option<JsonNodeView>;

#[verifier::external_type_specification]
#[verifier::external_body]
pub struct ExJsonValue(serde_json::Value);

/// Turn a `serde_json` value into plain data, field for field; numbers
/// are rendered to text.
#[verifier::external_body]
fn json_convert(v: &serde_json::Value) -> JsonNode {
    match v {
        serde_json::Value::Null => JsonNode::Null,
        serde_json::Value::Bool(b) => JsonNode::Bool(*b),
        serde_json::Value::Number(n) => JsonNode::Num(n.to_string()),
        serde_json::Value::String(s) => JsonNode::Str(s.clone()),
        serde_json::Value::Array(items) => JsonNode::Arr(items.iter().map(json_convert).collect()),
        serde_json::Value::Object(map) => JsonNode::Obj(
            map.iter().map(|(k, val)| (k.clone(), json_convert(val))).collect(),
        ),
    }
}

/// Relies on `serde_json::from_str::<Value>`: the text's value tree when
/// it is valid JSON, an error otherwise.
#[verifier::external_body]
fn json_parse(content: &str) -> (r: Result<JsonNode, String>)
    ensures
        r is Ok <==> json_tree_of(content@) is Some,
        r is Ok ==> r->Ok_0.view() == json_tree_of(content@)->0,
{
    match serde_json::from_str::<serde_json::Value>(content) {
        Ok(v) => Ok(json_convert(&v)),
        Err(e) => Err(format!("{}", e)),
    }
}

/// The readable text of a JSON value: arrays joined with `, `, objects as
/// `key: value` pairs joined with `, `.
pub open spec fn json_text(v: JsonNodeView) -> Seq<char>
    decreases v, 0int,
{
    match v {
        JsonNodeView::Null => "null"@,
        JsonNodeView::Bool(b) => if b {
            "true"@
        } else {
            "false"@
        },
        JsonNodeView::Num(s) => s,
        JsonNodeView::Str(s) => s,
        JsonNodeView::Arr(items) => json_join_texts(items, 0),
        JsonNodeView::Obj(entries) => json_join_entries(entries, 0),
    }
}

/// Array items from `i` on, joined with `, `.
pub open spec fn json_join_texts(items: Seq<JsonNodeView>, i: int) -> Seq<char>
    decreases items, items.len() - i,
        when 0 <= i
{
    if i >= items.len() {
        Seq::<char>::empty()
    } else if i == items.len() - 1 {
        json_text(items[i])
    } else {
        json_text(items[i]) + ", "@ + json_join_texts(items, i + 1)
    }
}

/// Object entries from `i` on, as `key: value`, joined with `, `.
pub open spec fn json_join_entries(entries: Seq<(Seq<char>, JsonNodeView)>, i: int) -> Seq<char>
    decreases entries, entries.len() - i,
        when 0 <= i
{
    if i >= entries.len() {
        Seq::<char>::empty()
    } else if i == entries.len() - 1 {
        entries[i].0 + ": "@ + json_text(entries[i].1)
    } else {
        entries[i].0 + ": "@ + json_text(entries[i].1) + ", "@ + json_join_entries(entries, i + 1)
    }
}

/// The readable text of a JSON value.
pub fn json_value_to_text(v: &JsonNode) -> (r: String)
    ensures
        r@ == json_text(v.view()),
    decreases v,
{
    match v {
        JsonNode::Null => "null".to_owned(),
        JsonNode::Bool(b) => {
            if *b {
                "true".to_owned()
            } else {
                "false".to_owned()
            }
        },
        JsonNode::Num(s) => s.clone(),
        JsonNode::Str(s) => s.clone(),
        JsonNode::Arr(items) => {
            let ghost m = arr_views(items@, 0);
            proof {
                lemma_arr_views(items@, 0);
            }
            let mut out = String::new();
            let mut i: usize = 0;
            proof {
                assert(out@ + json_join_texts(m, 0) =~= json_join_texts(m, 0));
            }
            while i < items.len()
                invariant
                    v is Arr,
                    v->Arr_0@ == items@,
                    i <= items@.len(),
                    m == arr_views(items@, 0),
                    m.len() == items@.len(),
                    forall|j: int| 0 <= j < m.len() ==> m[j] == items@[j].view(),
                    out@ + json_join_texts(m, i as int) == json_join_texts(m, 0),
                decreases items@.len() - i,
            {
                proof {
                    assert(decreases_to!(v => v->Arr_0));
                    assert(decreases_to!(v->Arr_0 => v->Arr_0@));
                    assert(decreases_to!(v->Arr_0@ => v->Arr_0@[i as int]));
                }
                let ghost old_out = out@;
                let t = json_value_to_text(&items[i]);
                out.append(t.as_str());
                if i + 1 < items.len() {
                    out.append(", ");
                    proof {
                        assert(json_join_texts(m, i as int) == json_text(m[i as int]) + ", "@
                            + json_join_texts(m, i + 1));
                        assert(t@ == json_text(m[i as int]));
                        assert(out@ + json_join_texts(m, i + 1) =~= old_out + json_join_texts(
                            m,
                            i as int,
                        ));
                    }
                } else {
                    proof {
                        assert(i == items@.len() - 1);
                        assert(json_join_texts(m, i as int) == json_text(m[i as int]));
                        assert(t@ == json_text(m[i as int]));
                        assert(json_join_texts(m, i + 1) =~= Seq::<char>::empty());
                        assert(out@ + json_join_texts(m, i + 1) =~= old_out + json_join_texts(
                            m,
                            i as int,
                        ));
                    }
                }
                i = i + 1;
            }
            proof {
                assert(json_join_texts(m, items@.len() as int) =~= Seq::<char>::empty());
                assert(out@ + json_join_texts(m, items@.len() as int) =~= out@);
            }
            out
        },
        JsonNode::Obj(entries) => {
            let ghost m = obj_views(entries@, 0);
            proof {
                lemma_obj_views(entries@, 0);
            }
            let mut out = String::new();
            let mut i: usize = 0;
            proof {
                assert(out@ + json_join_entries(m, 0) =~= json_join_entries(m, 0));
            }
            while i < entries.len()
                invariant
                    v is Obj,
                    v->Obj_0@ == entries@,
                    i <= entries@.len(),
                    m == obj_views(entries@, 0),
                    m.len() == entries@.len(),
                    forall|j: int|
                        0 <= j < m.len() ==> m[j] == (entries@[j].0@, entries@[j].1.view()),
                    out@ + json_join_entries(m, i as int) == json_join_entries(m, 0),
                decreases entries@.len() - i,
            {
                let ghost old_out = out@;
                let (k, val) = &entries[i];
                out.append(k.as_str());
                out.append(": ");
                proof {
                    assert(decreases_to!(v => v->Obj_0));
                    assert(decreases_to!(v->Obj_0 => v->Obj_0@));
                    assert(decreases_to!(v->Obj_0@ => v->Obj_0@[i as int]));
                    assert(decreases_to!(v->Obj_0@[i as int] => v->Obj_0@[i as int].1));
                }
                let t = json_value_to_text(val);
                out.append(t.as_str());
                if i + 1 < entries.len() {
                    out.append(", ");
                    proof {
                        assert(json_join_entries(m, i as int) == m[i as int].0 + ": "@ + json_text(
                            m[i as int].1,
                        ) + ", "@ + json_join_entries(m, i + 1));
                        assert(t@ == json_text(m[i as int].1));
                        assert(out@ + json_join_entries(m, i + 1) =~= old_out + json_join_entries(
                            m,
                            i as int,
                        ));
                    }
                } else {
                    proof {
                        assert(i == entries@.len() - 1);
                        assert(json_join_entries(m, i as int) == m[i as int].0 + ": "@ + json_text(
                            m[i as int].1,
                        ));
                        assert(t@ == json_text(m[i as int].1));
                        assert(json_join_entries(m, i + 1) =~= Seq::<char>::empty());
                        assert(out@ + json_join_entries(m, i + 1) =~= old_out + json_join_entries(
                            m,
                            i as int,
                        ));
                    }
                }
                i = i + 1;
            }
            proof {
                assert(json_join_entries(m, entries@.len() as int) =~= Seq::<char>::empty());
                assert(out@ + json_join_entries(m, entries@.len() as int) =~= out@);
            }
            out
        },
    }
}

/// The first value stored under a key, if any.
pub open spec fn obj_get(entries: Seq<(Seq<char>, JsonNodeView)>, key: Seq<char>) -> Option<
    JsonNodeView,
>
    decreases entries.len(),
{
    if entries.len() == 0 {
        None
    } else if entries[0].0 == key {
        Some(entries[0].1)
    } else {
        obj_get(entries.drop_first(), key)
    }
}

/// Look a key up in an object's entries.
fn obj_lookup<'a>(entries: &'a Vec<(String, JsonNode)>, key: &str) -> (r: Option<&'a JsonNode>)
    ensures
        ({
            let dv = obj_views(entries@, 0);
            &&& r is Some <==> obj_get(dv, key@) is Some
            &&& r is Some ==> r->0.view() == obj_get(dv, key@)->0
        }),
{
    let ghost dv = obj_views(entries@, 0);
    proof {
        lemma_obj_views(entries@, 0);
        assert(dv.subrange(0, dv.len() as int) =~= dv);
    }
    let mut i: usize = 0;
    while i < entries.len()
        invariant
            i <= entries@.len(),
            dv == obj_views(entries@, 0),
            dv.len() == entries@.len(),
            forall|j: int| 0 <= j < dv.len() ==> dv[j] == (entries@[j].0@, entries@[j].1.view()),
            obj_get(dv, key@) == obj_get(dv.subrange(i as int, dv.len() as int), key@),
        decreases entries@.len() - i,
    {
        proof {
            let m = dv.subrange(i as int, dv.len() as int);
            assert(m[0] == dv[i as int]);
            assert(m.drop_first() =~= dv.subrange(i + 1, dv.len() as int));
        }
        if crate::text::str_eq(entries[i].0.as_str(), key) {
            return Some(&entries[i].1);
        }
        i = i + 1;
    }
    proof {
        assert(dv.subrange(dv.len() as int, dv.len() as int) =~= Seq::<
            (Seq<char>, JsonNodeView),
        >::empty());
    }
    None
}

/// Parses JSON documents, JSON Schema files in particular.
pub struct JsonParser;

impl DocParser for JsonParser {
    open spec fn can_parse_spec(&self, extension: Seq<char>) -> bool {
        extension == "json"@
    }

    open spec fn parse_ok(&self, content: Seq<char>, path: Seq<char>) -> bool {
        json_tree_of(content) is Some
    }

    open spec fn parse_doc(&self, content: Seq<char>, path: Seq<char>) -> ParsedDocumentView {
        ParsedDocumentView {
            content: content,
            sections: json_sections(json_tree_of(content)->0, content),
            doc_type: "json_schema"@,
        }
    }

    fn can_parse(&self, extension: &str) -> (b: bool) {
        let v = chars_of(extension);
        chars_eq_lit(&v, "json")
    }

    fn parse(&self, content: &str, path: &str) -> (r: Result<ParsedDocument, RagmcpError>) {
        let node = match json_parse(content) {
            Ok(n) => n,
            Err(m) => {
                let mut msg = "JSON parse error in ".to_owned();
                msg.append(path);
                msg.append(": ");
                msg.append(m.as_str());
                return Err(RagmcpError::Parse(msg));
            },
        };
        let sections = build_json_sections(&node, content);
        let doc = ParsedDocument {
            content: content.to_owned(),
            sections,
            doc_type: "json_schema".to_owned(),
        };
        proof {
            assert(doc@.sections =~= json_sections(json_tree_of(content@)->0, content@));
            assert(doc@ =~~= ParsedDocumentView {
                content: content@,
                sections: json_sections(json_tree_of(content@)->0, content@),
                doc_type: "json_schema"@,
            });
        }
        Ok(doc)
    }
}

/// One schema-definition section's text.
pub open spec fn def_text(name: Seq<char>, schema: JsonNodeView) -> Seq<char> {
    let base = "Definition: "@ + name;
    match schema {
        JsonNodeView::Obj(map) => {
            let with_desc = match obj_get(map, "description"@) {
                Some(JsonNodeView::Str(d)) => base + seq!['\n'] + "Description: "@ + d,
                _ => base,
            };
            let with_type = match obj_get(map, "type"@) {
                Some(JsonNodeView::Str(t)) => with_desc + seq!['\n'] + "Type: "@ + t,
                _ => with_desc,
            };
            match obj_get(map, "properties"@) {
                Some(JsonNodeView::Obj(props)) => with_type + seq!['\n'] + "Properties:"@
                    + prop_lines(props, 0),
                _ => with_type,
            }
        },
        _ => base,
    }
}

/// The `  - key: value` lines of a properties object.
pub open spec fn prop_lines(props: Seq<(Seq<char>, JsonNodeView)>, i: int) -> Seq<char>
    decreases props.len() - i,
    when 0 <= i
{
    if i >= props.len() {
        Seq::<char>::empty()
    } else {
        seq!['\n'] + "  - "@ + props[i].0 + ": "@ + json_text(props[i].1) + prop_lines(props, i + 1)
    }
}

/// One schema-property section's text.
pub open spec fn property_text(name: Seq<char>, prop: JsonNodeView) -> Seq<char> {
    let base = "Property: "@ + name;
    match prop {
        JsonNodeView::Obj(map) => {
            let with_type = match obj_get(map, "type"@) {
                Some(JsonNodeView::Str(t)) => base + seq!['\n'] + "Type: "@ + t,
                _ => base,
            };
            let with_desc = match obj_get(map, "description"@) {
                Some(JsonNodeView::Str(d)) => with_type + seq!['\n'] + "Description: "@ + d,
                _ => with_type,
            };
            match obj_get(map, "enum"@) {
                Some(JsonNodeView::Arr(vals)) => with_desc + seq!['\n'] + "Enum values: "@
                    + json_join_texts(vals, 0),
                _ => with_desc,
            }
        },
        _ => base + seq!['\n'] + json_text(prop),
    }
}

/// The sections of a parsed JSON document: schema definitions first, then
/// schema properties; top-level keys when the file is an object without
/// either; one `content` section otherwise.
pub open spec fn json_sections(tree: JsonNodeView, content: Seq<char>) -> Seq<SectionView> {
    match tree {
        JsonNodeView::Obj(map) => {
            let defs = match obj_get(map, "definitions"@) {
                Some(JsonNodeView::Obj(d)) => Seq::new(
                    d.len(),
                    |i: int|
                        SectionView {
                            header: "Definition: "@ + d[i].0,
                            content: def_text(d[i].0, d[i].1),
                            section_type: Some("definition"@),
                        },
                ),
                _ => Seq::<SectionView>::empty(),
            };
            let props = match obj_get(map, "properties"@) {
                Some(JsonNodeView::Obj(p)) => Seq::new(
                    p.len(),
                    |i: int|
                        SectionView {
                            header: "Property: "@ + p[i].0,
                            content: property_text(p[i].0, p[i].1),
                            section_type: Some("property"@),
                        },
                ),
                _ => Seq::<SectionView>::empty(),
            };
            let schema = defs + props;
            if schema.len() == 0 {
                Seq::new(
                    map.len(),
                    |i: int|
                        SectionView {
                            header: map[i].0,
                            content: json_text(map[i].1),
                            section_type: Some(map[i].0),
                        },
                )
            } else {
                schema
            }
        },
        _ => seq![
            SectionView { header: "content"@, content: json_text(tree), section_type: None },
        ],
    }
}

/// Render one definition section's text.
fn build_def_text(name: &String, schema: &JsonNode) -> (r: String)
    ensures
        r@ == def_text(name@, schema.view()),
{
    let mut out = "Definition: ".to_owned();
    out.append(name.as_str());
    match schema {
        JsonNode::Obj(map) => {
            match obj_lookup(map, "description") {
                Some(JsonNode::Str(d)) => {
                    crate::text::push_char(&mut out, '\n');
                    out.append("Description: ");
                    out.append(d.as_str());
                },
                _ => {},
            }
            match obj_lookup(map, "type") {
                Some(JsonNode::Str(t)) => {
                    crate::text::push_char(&mut out, '\n');
                    out.append("Type: ");
                    out.append(t.as_str());
                },
                _ => {},
            }
            match obj_lookup(map, "properties") {
                Some(JsonNode::Obj(props)) => {
                    crate::text::push_char(&mut out, '\n');
                    out.append("Properties:");
                    let ghost pdv = obj_views(props@, 0);
                    proof {
                        lemma_obj_views(props@, 0);
                    }
                    let mut i: usize = 0;
                    let ghost base = out@;
                    while i < props.len()
                        invariant
                            i <= props@.len(),
                            pdv == obj_views(props@, 0),
                            pdv.len() == props@.len(),
                            forall|j: int|
                                0 <= j < pdv.len() ==> pdv[j] == (props@[j].0@, props@[j].1.view()),
                            out@ + prop_lines(pdv, i as int) == base + prop_lines(pdv, 0),
                        decreases props@.len() - i,
                    {
                        let ghost old_out = out@;
                        crate::text::push_char(&mut out, '\n');
                        out.append("  - ");
                        out.append(props[i].0.as_str());
                        out.append(": ");
                        let t = json_value_to_text(&props[i].1);
                        out.append(t.as_str());
                        proof {
                            assert(prop_lines(pdv, i as int) == seq!['\n'] + "  - "@ + pdv[
                                i as int].0 + ": "@ + json_text(pdv[i as int].1) + prop_lines(
                                pdv,
                                i + 1,
                            ));
                            assert(t@ == json_text(pdv[i as int].1));
                            assert(out@ + prop_lines(pdv, i + 1) =~= old_out + prop_lines(
                                pdv,
                                i as int,
                            ));
                        }
                        i = i + 1;
                    }
                    proof {
                        assert(prop_lines(pdv, props@.len() as int) =~= Seq::<char>::empty());
                        assert(out@ + prop_lines(pdv, props@.len() as int) =~= out@);
                    }
                },
                _ => {},
            }
        },
        _ => {},
    }
    out
}

/// Render one property section's text.
fn build_property_text(name: &String, prop: &JsonNode) -> (r: String)
    ensures
        r@ == property_text(name@, prop.view()),
{
    let mut out = "Property: ".to_owned();
    out.append(name.as_str());
    match prop {
        JsonNode::Obj(map) => {
            match obj_lookup(map, "type") {
                Some(JsonNode::Str(t)) => {
                    crate::text::push_char(&mut out, '\n');
                    out.append("Type: ");
                    out.append(t.as_str());
                },
                _ => {},
            }
            match obj_lookup(map, "description") {
                Some(JsonNode::Str(d)) => {
                    crate::text::push_char(&mut out, '\n');
                    out.append("Description: ");
                    out.append(d.as_str());
                },
                _ => {},
            }
            match obj_lookup(map, "enum") {
                Some(JsonNode::Arr(vals)) => {
                    crate::text::push_char(&mut out, '\n');
                    out.append("Enum values: ");
                    let t = json_value_to_text(&JsonNode::Arr(Vec::new()));
                    proof {
                    }
                    let joined = join_values(vals);
                    out.append(joined.as_str());
                },
                _ => {},
            }
        },
        _ => {
            crate::text::push_char(&mut out, '\n');
            let t = json_value_to_text(prop);
            out.append(t.as_str());
        },
    }
    out
}

/// The texts of the values, joined with `, `.
fn join_values(vals: &Vec<JsonNode>) -> (r: String)
    ensures
        r@ == json_join_texts(arr_views(vals@, 0), 0),
{
    let ghost m = arr_views(vals@, 0);
    proof {
        lemma_arr_views(vals@, 0);
    }
    let mut out = String::new();
    let mut i: usize = 0;
    proof {
        assert(out@ + json_join_texts(m, 0) =~= json_join_texts(m, 0));
    }
    while i < vals.len()
        invariant
            i <= vals@.len(),
            m == arr_views(vals@, 0),
            m.len() == vals@.len(),
            forall|j: int| 0 <= j < m.len() ==> m[j] == vals@[j].view(),
            out@ + json_join_texts(m, i as int) == json_join_texts(m, 0),
        decreases vals@.len() - i,
    {
        let ghost old_out = out@;
        let t = json_value_to_text(&vals[i]);
        out.append(t.as_str());
        if i + 1 < vals.len() {
            out.append(", ");
            proof {
                assert(json_join_texts(m, i as int) == json_text(m[i as int]) + ", "@
                    + json_join_texts(m, i + 1));
                assert(t@ == json_text(m[i as int]));
                assert(out@ + json_join_texts(m, i + 1) =~= old_out + json_join_texts(
                    m,
                    i as int,
                ));
            }
        } else {
            proof {
                assert(i == vals@.len() - 1);
                assert(json_join_texts(m, i as int) == json_text(m[i as int]));
                assert(t@ == json_text(m[i as int]));
                assert(json_join_texts(m, i + 1) =~= Seq::<char>::empty());
                assert(out@ + json_join_texts(m, i + 1) =~= old_out + json_join_texts(
                    m,
                    i as int,
                ));
            }
        }
        i = i + 1;
    }
    proof {
        assert(json_join_texts(m, vals@.len() as int) =~= Seq::<char>::empty());
        assert(out@ + json_join_texts(m, vals@.len() as int) =~= out@);
    }
    out
}

/// Build the sections of a parsed JSON document.
fn build_json_sections(node: &JsonNode, content: &str) -> (r: Vec<Section>)
    ensures
        r.deep_view() == json_sections(node.view(), content@),
{
    match node {
        JsonNode::Obj(map) => {
            let ghost mdv = obj_views(map@, 0);
            let mut sections: Vec<Section> = Vec::new();
            let ghost target = json_sections(node.view(), content@);
            // definitions
            let ghost defs_target = (match obj_get(mdv, "definitions"@) {
                Some(JsonNodeView::Obj(d)) => Seq::new(
                    d.len(),
                    |i: int|
                        SectionView {
                            header: "Definition: "@ + d[i].0,
                            content: def_text(d[i].0, d[i].1),
                            section_type: Some("definition"@),
                        },
                ),
                _ => Seq::<SectionView>::empty(),
            });
            let defs_found = obj_lookup(map, "definitions");
            match defs_found {
                Some(JsonNode::Obj(defs)) => {
                    let ghost ddv = obj_views(defs@, 0);
                    proof {
                        lemma_obj_views(defs@, 0);
                        assert(obj_get(mdv, "definitions"@)->0 == JsonNodeView::Obj(ddv));
                        assert(defs_target =~= Seq::new(
                            ddv.len(),
                            |k: int|
                                SectionView {
                                    header: "Definition: "@ + ddv[k].0,
                                    content: def_text(ddv[k].0, ddv[k].1),
                                    section_type: Some("definition"@),
                                },
                        ));
                        assert(sections.deep_view() =~= defs_target.subrange(0, 0));
                    }
                    let mut i: usize = 0;
                    while i < defs.len()
                        invariant
                            i <= defs@.len(),
                            ddv == obj_views(defs@, 0),
                            ddv.len() == defs@.len(),
                            forall|j: int|
                                0 <= j < ddv.len() ==> ddv[j] == (defs@[j].0@, defs@[j].1.view()),
                            defs_target == Seq::new(
                                ddv.len(),
                                |k: int|
                                    SectionView {
                                        header: "Definition: "@ + ddv[k].0,
                                        content: def_text(ddv[k].0, ddv[k].1),
                                        section_type: Some("definition"@),
                                    },
                            ),
                            sections.deep_view() == defs_target.subrange(0, i as int),
                        decreases defs@.len() - i,
                    {
                        let (name, schema) = &defs[i];
                        let mut header = "Definition: ".to_owned();
                        header.append(name.as_str());
                        let text = build_def_text(name, schema);
                        let ghost old_dv = sections.deep_view();
                        let sct = Section {
                            header,
                            content: text,
                            section_type: Some("definition".to_owned()),
                        };
                        let ghost sv = sct@;
                        sections.push(sct);
                        proof {
                            assert(ddv[i as int] == (defs@[i as int].0@, defs@[i as int].1.view()));
                            assert(sections.deep_view() =~= old_dv.push(sv));
                            assert(sv =~~= defs_target[i as int]);
                            assert(sections.deep_view() =~= defs_target.subrange(0, i + 1 as int));
                        }
                        i = i + 1;
                    }
                    proof {
                        assert(defs_target.subrange(0, defs_target.len() as int) =~= defs_target);
                    }
                },
                _ => {
                    proof {
                        assert(defs_target =~= Seq::<SectionView>::empty()) by {
                            if obj_get(mdv, "definitions"@) is Some {
                                match defs_found {
                                    Some(n) => {
                                        assert(n.view() == obj_get(mdv, "definitions"@)->0);
                                    },
                                    None => {},
                                }
                            }
                        }
                        assert(sections.deep_view() =~= defs_target);
                    }
                },
            }
            // properties
            let ghost props_target = (match obj_get(mdv, "properties"@) {
                Some(JsonNodeView::Obj(p)) => Seq::new(
                    p.len(),
                    |i: int|
                        SectionView {
                            header: "Property: "@ + p[i].0,
                            content: property_text(p[i].0, p[i].1),
                            section_type: Some("property"@),
                        },
                ),
                _ => Seq::<SectionView>::empty(),
            });
            let ghost after_defs = sections.deep_view();
            let props_found = obj_lookup(map, "properties");
            match props_found {
                Some(JsonNode::Obj(props)) => {
                    let ghost pdv = obj_views(props@, 0);
                    proof {
                        lemma_obj_views(props@, 0);
                        assert(obj_get(mdv, "properties"@)->0 == JsonNodeView::Obj(pdv));
                        assert(props_target =~= Seq::new(
                            pdv.len(),
                            |k: int|
                                SectionView {
                                    header: "Property: "@ + pdv[k].0,
                                    content: property_text(pdv[k].0, pdv[k].1),
                                    section_type: Some("property"@),
                                },
                        ));
                        assert(props_target.subrange(0, 0) =~= Seq::<SectionView>::empty());
                        assert(sections.deep_view() =~= after_defs + props_target.subrange(0, 0));
                    }
                    let mut i: usize = 0;
                    while i < props.len()
                        invariant
                            i <= props@.len(),
                            pdv == obj_views(props@, 0),
                            pdv.len() == props@.len(),
                            forall|j: int|
                                0 <= j < pdv.len() ==> pdv[j] == (props@[j].0@, props@[j].1.view()),
                            props_target == Seq::new(
                                pdv.len(),
                                |k: int|
                                    SectionView {
                                        header: "Property: "@ + pdv[k].0,
                                        content: property_text(pdv[k].0, pdv[k].1),
                                        section_type: Some("property"@),
                                    },
                            ),
                            sections.deep_view() == after_defs + props_target.subrange(
                                0,
                                i as int,
                            ),
                        decreases props@.len() - i,
                    {
                        let (name, prop) = &props[i];
                        let mut header = "Property: ".to_owned();
                        header.append(name.as_str());
                        let text = build_property_text(name, prop);
                        let ghost old_dv = sections.deep_view();
                        let sct = Section {
                            header,
                            content: text,
                            section_type: Some("property".to_owned()),
                        };
                        let ghost sv = sct@;
                        sections.push(sct);
                        proof {
                            assert(pdv[i as int] == (props@[i as int].0@, props@[
                                i as int].1.view()));
                            assert(sections.deep_view() =~= old_dv.push(sv));
                            assert(sv =~~= props_target[i as int]);
                            assert(sections.deep_view() =~= after_defs + props_target.subrange(
                                0,
                                i + 1 as int,
                            ));
                        }
                        i = i + 1;
                    }
                    proof {
                        assert(props_target.subrange(0, props_target.len() as int)
                            =~= props_target);
                    }
                },
                _ => {
                    proof {
                        assert(props_target =~= Seq::<SectionView>::empty()) by {
                            if obj_get(mdv, "properties"@) is Some {
                                match props_found {
                                    Some(n) => {
                                        assert(n.view() == obj_get(mdv, "properties"@)->0);
                                    },
                                    None => {},
                                }
                            }
                        }
                        assert(sections.deep_view() =~= after_defs + props_target);
                    }
                },
            }
            proof {
                assert(sections.deep_view() =~= defs_target + props_target);
            }
            if sections.len() == 0 {
                // no schema shape: top-level keys become the sections
                let ghost keys_target = Seq::new(
                    mdv.len(),
                    |i: int|
                        SectionView {
                            header: mdv[i].0,
                            content: json_text(mdv[i].1),
                            section_type: Some(mdv[i].0),
                        },
                );
                proof {
                    lemma_obj_views(map@, 0);
                    assert(sections.deep_view() =~= keys_target.subrange(0, 0));
                }
                let mut i: usize = 0;
                while i < map.len()
                    invariant
                        i <= map@.len(),
                        mdv == obj_views(map@, 0),
                        mdv.len() == map@.len(),
                        forall|j: int|
                            0 <= j < mdv.len() ==> mdv[j] == (map@[j].0@, map@[j].1.view()),
                        keys_target == Seq::new(
                            mdv.len(),
                            |k: int|
                                SectionView {
                                    header: mdv[k].0,
                                    content: json_text(mdv[k].1),
                                    section_type: Some(mdv[k].0),
                                },
                        ),
                        sections.deep_view() == keys_target.subrange(0, i as int),
                    decreases map@.len() - i,
                {
                    let (key, val) = &map[i];
                    let text = json_value_to_text(val);
                    let ghost old_dv = sections.deep_view();
                    let sct = Section {
                        header: key.clone(),
                        content: text,
                        section_type: Some(key.clone()),
                    };
                    let ghost sv = sct@;
                    sections.push(sct);
                    proof {
                        assert(mdv[i as int] == (map@[i as int].0@, map@[i as int].1.view()));
                        assert(sections.deep_view() =~= old_dv.push(sv));
                        assert(sv =~~= keys_target[i as int]);
                        assert(sections.deep_view() =~= keys_target.subrange(0, i + 1 as int));
                    }
                    i = i + 1;
                }
                proof {
                    assert(keys_target.subrange(0, keys_target.len() as int) =~= keys_target);
                    assert(defs_target + props_target =~= Seq::<SectionView>::empty());
                    assert(sections.deep_view() =~= json_sections(node.view(), content@));
                }
            } else {
                proof {
                    assert((defs_target + props_target).len() != 0);
                    assert(sections.deep_view() =~= json_sections(node.view(), content@));
                }
            }
            sections
        },
        _ => {
            let text = json_value_to_text(node);
            let mut sections: Vec<Section> = Vec::new();
            let sct = Section { header: "content".to_owned(), content: text, section_type: None };
            let ghost sv = sct@;
            sections.push(sct);
            proof {
                assert(sections.deep_view() =~= seq![sv]);
                assert(sections.deep_view() =~= json_sections(node.view(), content@));
            }
            sections
        },
    }
}

} // verus!
