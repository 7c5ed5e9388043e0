//! The YAML parser: each top-level mapping key becomes a section. The
//! value tree comes from `serde_yaml_ng`; everything after that is
//! verified.

use crate::error::RagmcpError;
use crate::parsers::{DocParser, ParsedDocument, ParsedDocumentView, Section, SectionView};
use crate::text::{chars_eq_lit, chars_of};
use vstd::prelude::*;

verus! {

/// One mapping entry: whether the key was a plain scalar (string, number
/// or boolean), its text, and the value.
pub struct YamlEntry {
    pub key_plain: bool,
    pub key: String,
    pub value: YamlNode,
}

/// A YAML value as plain data. Scalars keep their rendered text; tagged
/// values are unwrapped to their inner value.
pub enum YamlNode {
    Null,
    Bool(bool),
    Num(String),
    Str(String),
    List(Vec<YamlNode>),
    Mapping(Vec<YamlEntry>),
}

/// The image of one mapping entry.
pub struct YamlEntryView {
    pub key_plain: bool,
    pub key: Seq<char>,
    pub value: YamlNodeView,
}

/// The mathematical image of a YAML value.
pub enum YamlNodeView {
    Null,
    Bool(bool),
    Num(Seq<char>),
    Str(Seq<char>),
    List(Seq<YamlNodeView>),
    Mapping(Seq<YamlEntryView>),
}

impl YamlNode {
    /// The node's mathematical image.
    pub open spec fn view(&self) -> YamlNodeView
        decreases self, 1int, 0int,
    {
        match self {
            YamlNode::Null => YamlNodeView::Null,
            YamlNode::Bool(b) => YamlNodeView::Bool(*b),
            YamlNode::Num(s) => YamlNodeView::Num(s@),
            YamlNode::Str(s) => YamlNodeView::Str(s@),
            YamlNode::List(items) => YamlNodeView::List(yl_views(items@, 0)),
            YamlNode::Mapping(entries) => YamlNodeView::Mapping(ym_views(entries@, 0)),
        }
    }
}

/// The images of the list items from `i` on.
pub open spec fn yl_views(items: Seq<YamlNode>, i: int) -> Seq<YamlNodeView>
    decreases items, 0int, items.len() - i,
{
    if i < 0 || i >= items.len() {
        Seq::<YamlNodeView>::empty()
    } else {
        seq![items[i].view()] + yl_views(items, i + 1)
    }
}

/// The images of the mapping entries from `i` on.
pub open spec fn ym_views(entries: Seq<YamlEntry>, i: int) -> Seq<YamlEntryView>
    decreases entries, 0int, entries.len() - i,
{
    if i < 0 || i >= entries.len() {
        Seq::<YamlEntryView>::empty()
    } else {
        seq![
            YamlEntryView {
                key_plain: entries[i].key_plain,
                key: entries[i].key@,
                value: entries[i].value.view(),
            },
        ] + ym_views(entries, i + 1)
    }
}

/// Indexing facts for the item images.
pub proof fn lemma_yl_views(items: Seq<YamlNode>, i: int)
    requires
        0 <= i,
    ensures
        yl_views(items, i).len() == if i <= items.len() {
            items.len() - i
        } else {
            0
        },
        forall|j: int|
            0 <= j < yl_views(items, i).len() ==> yl_views(items, i)[j] == items[i + j].view(),
    decreases items.len() - i,
{
    if i < items.len() {
        lemma_yl_views(items, i + 1);
        assert forall|j: int|
            0 <= j < yl_views(items, i).len() implies yl_views(items, i)[j] == items[i
            + j].view() by {
            if j > 0 {
                assert(yl_views(items, i)[j] == yl_views(items, i + 1)[j - 1]);
            }
        }
    }
}

/// Indexing facts for the entry images.
pub proof fn lemma_ym_views(entries: Seq<YamlEntry>, i: int)
    requires
        0 <= i,
    ensures
        ym_views(entries, i).len() == if i <= entries.len() {
            entries.len() - i
        } else {
            0
        },
        forall|j: int|
            0 <= j < ym_views(entries, i).len() ==> ym_views(entries, i)[j] == (YamlEntryView {
                key_plain: entries[i + j].key_plain,
                key: entries[i + j].key@,
                value: entries[i + j].value.view(),
            }),
    decreases entries.len() - i,
{
    if i < entries.len() {
        lemma_ym_views(entries, i + 1);
        assert forall|j: int|
            0 <= j < ym_views(entries, i).len() implies ym_views(entries, i)[j] == (YamlEntryView {
            key_plain: entries[i + j].key_plain,
            key: entries[i + j].key@,
            value: entries[i + j].value.view(),
        }) by {
            if j > 0 {
                assert(ym_views(entries, i)[j] == ym_views(entries, i + 1)[j - 1]);
            }
        }
    }
}

/// The value tree `serde_yaml_ng` yields for a text, when it parses.
/// A function of the text alone.
pub uninterp spec fn yaml_tree_of(s: Seq<char>) -> Option<YamlNodeView>;

#[verifier::external_type_specification]
#[verifier::external_body]
pub struct ExYamlValue(serde_yaml_ng::Value);

/// Turn a `serde_yaml_ng` value into plain data, field for field; numbers
/// are rendered to text, tagged values are unwrapped, and mapping keys
/// record whether they were plain scalars.
#[verifier::external_body]
fn yaml_convert(v: &serde_yaml_ng::Value) -> YamlNode {
    match v {
        serde_yaml_ng::Value::Null => YamlNode::Null,
        serde_yaml_ng::Value::Bool(b) => YamlNode::Bool(*b),
        serde_yaml_ng::Value::Number(n) => YamlNode::Num(n.to_string()),
        serde_yaml_ng::Value::String(s) => YamlNode::Str(s.clone()),
        serde_yaml_ng::Value::Sequence(items) => YamlNode::List(
            items.iter().map(yaml_convert).collect(),
        ),
        serde_yaml_ng::Value::Mapping(map) => YamlNode::Mapping(
            map.iter().map(|(k, val)| yaml_entry_convert(k, val)).collect(),
        ),
        serde_yaml_ng::Value::Tagged(tagged) => yaml_convert(&tagged.value),
    }
}

/// Turn one mapping entry into plain data: plain scalar keys keep their
/// text, any other key is marked non-plain.
#[verifier::external_body]
fn yaml_entry_convert(k: &serde_yaml_ng::Value, val: &serde_yaml_ng::Value) -> YamlEntry {
    let (key_plain, key) = match k {
        serde_yaml_ng::Value::String(s) => (true, s.clone()),
        serde_yaml_ng::Value::Number(n) => (true, n.to_string()),
        serde_yaml_ng::Value::Bool(b) => (true, b.to_string()),
        _ => (false, String::new()),
    };
    YamlEntry { key_plain, key, value: yaml_convert(val) }
}

/// Relies on `serde_yaml_ng::from_str::<Value>`: the text's value tree
/// when it is valid YAML, an error otherwise.
#[verifier::external_body]
fn yaml_parse(content: &str) -> (r: Result<YamlNode, String>)
    ensures
        r is Ok <==> yaml_tree_of(content@) is Some,
        r is Ok ==> r->Ok_0.view() == yaml_tree_of(content@)->0,
{
    match serde_yaml_ng::from_str::<serde_yaml_ng::Value>(content) {
        Ok(v) => Ok(yaml_convert(&v)),
        Err(e) => Err(format!("{}", e)),
    }
}

/// The readable text of a YAML value: lists joined with `, `, mappings as
/// `key: value` lines.
pub open spec fn yaml_text(v: YamlNodeView) -> Seq<char>
    decreases v, 0int,
{
    match v {
        YamlNodeView::Null => "null"@,
        YamlNodeView::Bool(b) => if b {
            "true"@
        } else {
            "false"@
        },
        YamlNodeView::Num(s) => s,
        YamlNodeView::Str(s) => s,
        YamlNodeView::List(items) => yaml_join_texts(items, 0),
        YamlNodeView::Mapping(entries) => yaml_join_entries(entries, 0),
    }
}

/// The rendered key of a nested mapping entry: its text for plain keys,
/// `key` otherwise.
pub open spec fn nested_key(e: YamlEntryView) -> Seq<char> {
    if e.key_plain {
        e.key
    } else {
        "key"@
    }
}

/// List items from `i` on, joined with `, `.
pub open spec fn yaml_join_texts(items: Seq<YamlNodeView>, i: int) -> Seq<char>
    decreases items, items.len() - i,
        when 0 <= i
{
    if i >= items.len() {
        Seq::<char>::empty()
    } else if i == items.len() - 1 {
        yaml_text(items[i])
    } else {
        yaml_text(items[i]) + ", "@ + yaml_join_texts(items, i + 1)
    }
}

/// Mapping entries from `i` on, as `key: value`, joined with newlines.
pub open spec fn yaml_join_entries(entries: Seq<YamlEntryView>, i: int) -> Seq<char>
    decreases entries, entries.len() - i,
        when 0 <= i
{
    if i >= entries.len() {
        Seq::<char>::empty()
    } else if i == entries.len() - 1 {
        nested_key(entries[i]) + ": "@ + yaml_text(entries[i].value)
    } else {
        nested_key(entries[i]) + ": "@ + yaml_text(entries[i].value) + seq!['\n']
            + yaml_join_entries(entries, i + 1)
    }
}

/// The readable text of a YAML value.
pub fn yaml_value_to_text(v: &YamlNode) -> (r: String)
    ensures
        r@ == yaml_text(v.view()),
    decreases v,
{
    match v {
        YamlNode::Null => "null".to_owned(),
        YamlNode::Bool(b) => {
            if *b {
                "true".to_owned()
            } else {
                "false".to_owned()
            }
        },
        YamlNode::Num(s) => s.clone(),
        YamlNode::Str(s) => s.clone(),
        YamlNode::List(items) => {
            let ghost m = yl_views(items@, 0);
            proof {
                lemma_yl_views(items@, 0);
            }
            let mut out = String::new();
            let mut i: usize = 0;
            proof {
                assert(out@ + yaml_join_texts(m, 0) =~= yaml_join_texts(m, 0));
            }
            while i < items.len()
                invariant
                    v is List,
                    v->List_0@ == items@,
                    i <= items@.len(),
                    m == yl_views(items@, 0),
                    m.len() == items@.len(),
                    forall|j: int| 0 <= j < m.len() ==> m[j] == items@[j].view(),
                    out@ + yaml_join_texts(m, i as int) == yaml_join_texts(m, 0),
                decreases items@.len() - i,
            {
                proof {
                    assert(decreases_to!(v => v->List_0));
                    assert(decreases_to!(v->List_0 => v->List_0@));
                    assert(decreases_to!(v->List_0@ => v->List_0@[i as int]));
                }
                let ghost old_out = out@;
                let t = yaml_value_to_text(&items[i]);
                out.append(t.as_str());
                if i + 1 < items.len() {
                    out.append(", ");
                    proof {
                        assert(yaml_join_texts(m, i as int) == yaml_text(m[i as int]) + ", "@
                            + yaml_join_texts(m, i + 1));
                        assert(t@ == yaml_text(m[i as int]));
                        assert(out@ + yaml_join_texts(m, i + 1) =~= old_out + yaml_join_texts(
                            m,
                            i as int,
                        ));
                    }
                } else {
                    proof {
                        assert(i == items@.len() - 1);
                        assert(yaml_join_texts(m, i as int) == yaml_text(m[i as int]));
                        assert(t@ == yaml_text(m[i as int]));
                        assert(yaml_join_texts(m, i + 1) =~= Seq::<char>::empty());
                        assert(out@ + yaml_join_texts(m, i + 1) =~= old_out + yaml_join_texts(
                            m,
                            i as int,
                        ));
                    }
                }
                i = i + 1;
            }
            proof {
                assert(yaml_join_texts(m, items@.len() as int) =~= Seq::<char>::empty());
                assert(out@ + yaml_join_texts(m, items@.len() as int) =~= out@);
            }
            out
        },
        YamlNode::Mapping(entries) => {
            let ghost m = ym_views(entries@, 0);
            proof {
                lemma_ym_views(entries@, 0);
            }
            let mut out = String::new();
            let mut i: usize = 0;
            proof {
                assert(out@ + yaml_join_entries(m, 0) =~= yaml_join_entries(m, 0));
            }
            while i < entries.len()
                invariant
                    v is Mapping,
                    v->Mapping_0@ == entries@,
                    i <= entries@.len(),
                    m == ym_views(entries@, 0),
                    m.len() == entries@.len(),
                    forall|j: int|
                        0 <= j < m.len() ==> m[j] == (YamlEntryView {
                            key_plain: entries@[j].key_plain,
                            key: entries@[j].key@,
                            value: entries@[j].value.view(),
                        }),
                    out@ + yaml_join_entries(m, i as int) == yaml_join_entries(m, 0),
                decreases entries@.len() - i,
            {
                let ghost old_out = out@;
                if entries[i].key_plain {
                    out.append(entries[i].key.as_str());
                } else {
                    out.append("key");
                }
                out.append(": ");
                proof {
                    assert(decreases_to!(v => v->Mapping_0));
                    assert(decreases_to!(v->Mapping_0 => v->Mapping_0@));
                    assert(decreases_to!(v->Mapping_0@ => v->Mapping_0@[i as int]));
                    assert(decreases_to!(v->Mapping_0@[i as int] => v->Mapping_0@[i as int].value));
                }
                let t = yaml_value_to_text(&entries[i].value);
                out.append(t.as_str());
                if i + 1 < entries.len() {
                    crate::text::push_char(&mut out, '\n');
                    proof {
                        assert(yaml_join_entries(m, i as int) == nested_key(m[i as int]) + ": "@
                            + yaml_text(m[i as int].value) + seq!['\n'] + yaml_join_entries(
                            m,
                            i + 1,
                        ));
                        assert(t@ == yaml_text(m[i as int].value));
                        assert(out@ + yaml_join_entries(m, i + 1) =~= old_out + yaml_join_entries(
                            m,
                            i as int,
                        ));
                    }
                } else {
                    proof {
                        assert(i == entries@.len() - 1);
                        assert(yaml_join_entries(m, i as int) == nested_key(m[i as int]) + ": "@
                            + yaml_text(m[i as int].value));
                        assert(t@ == yaml_text(m[i as int].value));
                        assert(yaml_join_entries(m, i + 1) =~= Seq::<char>::empty());
                        assert(out@ + yaml_join_entries(m, i + 1) =~= old_out + yaml_join_entries(
                            m,
                            i as int,
                        ));
                    }
                }
                i = i + 1;
            }
            proof {
                assert(yaml_join_entries(m, entries@.len() as int) =~= Seq::<char>::empty());
                assert(out@ + yaml_join_entries(m, entries@.len() as int) =~= out@);
            }
            out
        },
    }
}

/// The header of a top-level section: the key's text for plain keys,
/// `unknown` otherwise.
pub open spec fn section_key(e: YamlEntryView) -> Seq<char> {
    if e.key_plain {
        e.key
    } else {
        "unknown"@
    }
}

/// The sections of a parsed YAML document: one per top-level mapping
/// entry; one `root` section for any other value; one `content` section
/// holding the raw text when the mapping was empty.
pub open spec fn yaml_sections(tree: YamlNodeView, content: Seq<char>) -> Seq<SectionView> {
    match tree {
        YamlNodeView::Mapping(entries) => {
            if entries.len() == 0 {
                seq![
                    SectionView { header: "content"@, content: content, section_type: None },
                ]
            } else {
                Seq::new(
                    entries.len(),
                    |i: int|
                        SectionView {
                            header: section_key(entries[i]),
                            content: yaml_text(entries[i].value),
                            section_type: Some(section_key(entries[i])),
                        },
                )
            }
        },
        _ => seq![
            SectionView { header: "root"@, content: yaml_text(tree), section_type: None },
        ],
    }
}

/// Parses mapping-structured YAML documents.
pub struct YamlParser;

impl DocParser for YamlParser {
    open spec fn can_parse_spec(&self, extension: Seq<char>) -> bool {
        extension == "yaml"@ || extension == "yml"@
    }

    open spec fn parse_ok(&self, content: Seq<char>, path: Seq<char>) -> bool {
        yaml_tree_of(content) is Some
    }

    open spec fn parse_doc(&self, content: Seq<char>, path: Seq<char>) -> ParsedDocumentView {
        ParsedDocumentView {
            content: content,
            sections: yaml_sections(yaml_tree_of(content)->0, content),
            doc_type: "yaml"@,
        }
    }

    fn can_parse(&self, extension: &str) -> (b: bool) {
        let v = chars_of(extension);
        chars_eq_lit(&v, "yaml") || chars_eq_lit(&v, "yml")
    }

    fn parse(&self, content: &str, path: &str) -> (r: Result<ParsedDocument, RagmcpError>) {
        let node = match yaml_parse(content) {
            Ok(n) => n,
            Err(m) => {
                let mut msg = "YAML parse error in ".to_owned();
                msg.append(path);
                msg.append(": ");
                msg.append(m.as_str());
                return Err(RagmcpError::Parse(msg));
            },
        };
        let mut sections: Vec<Section> = Vec::new();
        match &node {
            YamlNode::Mapping(entries) => {
                if entries.len() == 0 {
                    sections.push(
                        Section {
                            header: "content".to_owned(),
                            content: content.to_owned(),
                            section_type: None,
                        },
                    );
                    proof {
                        assert(sections.deep_view() =~= yaml_sections(node.view(), content@));
                    }
                } else {
                    let ghost m = ym_views(entries@, 0);
                    let ghost target = yaml_sections(node.view(), content@);
                    proof {
                        lemma_ym_views(entries@, 0);
                        assert(target =~= Seq::new(
                            m.len(),
                            |i: int|
                                SectionView {
                                    header: section_key(m[i]),
                                    content: yaml_text(m[i].value),
                                    section_type: Some(section_key(m[i])),
                                },
                        ));
                        assert(sections.deep_view() =~= target.subrange(0, 0));
                    }
                    let mut i: usize = 0;
                    while i < entries.len()
                        invariant
                            i <= entries@.len(),
                            m == ym_views(entries@, 0),
                            m.len() == entries@.len(),
                            forall|j: int|
                                0 <= j < m.len() ==> m[j] == (YamlEntryView {
                                    key_plain: entries@[j].key_plain,
                                    key: entries@[j].key@,
                                    value: entries@[j].value.view(),
                                }),
                            target == Seq::new(
                                m.len(),
                                |k: int|
                                    SectionView {
                                        header: section_key(m[k]),
                                        content: yaml_text(m[k].value),
                                        section_type: Some(section_key(m[k])),
                                    },
                            ),
                            sections.deep_view() == target.subrange(0, i as int),
                        decreases entries@.len() - i,
                    {
                        let header: String = if entries[i].key_plain {
                            entries[i].key.clone()
                        } else {
                            "unknown".to_owned()
                        };
                        let text = yaml_value_to_text(&entries[i].value);
                        let ghost old_dv = sections.deep_view();
                        let sct = Section {
                            header: header.clone(),
                            content: text,
                            section_type: Some(header),
                        };
                        let ghost sv = sct@;
                        sections.push(sct);
                        proof {
                            assert(sections.deep_view() =~= old_dv.push(sv));
                            assert(sv =~~= target[i as int]);
                            assert(sections.deep_view() =~= target.subrange(0, i + 1 as int));
                        }
                        i = i + 1;
                    }
                    proof {
                        assert(target.subrange(0, target.len() as int) =~= target);
                    }
                }
            },
            _ => {
                let text = yaml_value_to_text(&node);
                let sct = Section { header: "root".to_owned(), content: text, section_type: None };
                let ghost sv = sct@;
                sections.push(sct);
                proof {
                    assert(sections.deep_view() =~= seq![sv]);
                    assert(sections.deep_view() =~= yaml_sections(node.view(), content@));
                }
            },
        }
        let doc = ParsedDocument {
            content: content.to_owned(),
            sections,
            doc_type: "yaml".to_owned(),
        };
        proof {
            assert(doc@.sections =~= yaml_sections(yaml_tree_of(content@)->0, content@));
            assert(doc@ =~~= ParsedDocumentView {
                content: content@,
                sections: yaml_sections(yaml_tree_of(content@)->0, content@),
                doc_type: "yaml"@,
            });
        }
        Ok(doc)
    }
}

} // verus!
