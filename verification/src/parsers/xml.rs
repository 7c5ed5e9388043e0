//! The XML parser: each top-level element under the root becomes a
//! section. The tag stream comes from `quick_xml`; the section-building
//! fold over that stream is verified.

use crate::error::RagmcpError;
use crate::parsers::{DocParser, ParsedDocument, ParsedDocumentView, Section, SectionView};
use crate::text::{chars_eq_lit, chars_of, contains_seq, seq_trim, string_from_chars, trim_chars};
use quick_xml::events::Event;
use vstd::prelude::*;

verus! {

/// One event of the tag stream, reduced to what the section fold reads.
pub enum XmlEvent {
    Start(String),
    Text(String),
    End,
    Eof,
    Error(String),
    Other,
}

/// The mathematical image of a tag-stream event.
pub enum XmlEventView {
    Start(Seq<char>),
    Text(Seq<char>),
    End,
    Eof,
    Error(Seq<char>),
    Other,
}

impl View for XmlEvent {
    type V = XmlEventView;

    open spec fn view(&self) -> XmlEventView {
        match self {
            XmlEvent::Start(n) => XmlEventView::Start(n@),
            XmlEvent::Text(t) => XmlEventView::Text(t@),
            XmlEvent::End => XmlEventView::End,
            XmlEvent::Eof => XmlEventView::Eof,
            XmlEvent::Error(m) => XmlEventView::Error(m@),
            XmlEvent::Other => XmlEventView::Other,
        }
    }
}

/// The whole tag stream that `quick_xml` yields for a text: a function of
/// the text alone, ending in an end-of-file or error event.
pub uninterp spec fn qx_events_of(s: Seq<char>) -> Seq<XmlEventView>;

/// The tag events a reader has still to yield.
pub uninterp spec fn qx_remaining(r: quick_xml::Reader<&[u8]>) -> Seq<XmlEventView>;

#[verifier::external_type_specification]
#[verifier::external_body]
#[verifier::reject_recursive_types(R)]
pub struct ExQxReader<R>(quick_xml::Reader<R>);

/// Relies on `quick_xml::Reader::from_str`: a fresh reader yields exactly
/// the tag stream of the text.
#[verifier::external_body]
fn qx_from_str<'a>(s: &'a str) -> (r: quick_xml::Reader<&'a [u8]>)
    ensures
        qx_remaining(r) == qx_events_of(s@),
{
    quick_xml::Reader::from_str(s)
}

/// Relies on `quick_xml::Reader::read_event`: the reader hands out its
/// stream one event at a time (start tags with their name, text with its
/// raw bytes as text, end tags, end-of-file once the input is consumed,
/// errors as errors), and keeps yielding end-of-file after the end.
#[verifier::external_body]
fn qx_read_event(r: &mut quick_xml::Reader<&[u8]>) -> (e: Result<XmlEvent, String>)
    ensures
        ({
            let rem = qx_remaining(*old(r));
            if rem.len() > 0 {
                &&& qx_remaining(*final (r)) == rem.drop_first()
                &&& match e {
                    Ok(ev) => !(rem[0] is Error) && ev@ == rem[0],
                    Err(m) => rem[0] is Error && m@ == rem[0]->Error_0,
                }
            } else {
                &&& e is Ok
                &&& e->Ok_0 is Eof
                &&& qx_remaining(*final (r)).len() == 0
            }
        }),
{
    match r.read_event() {
        Ok(Event::Start(t)) => Ok(
            XmlEvent::Start(t.name().as_ref().to_owned()),
        ),
        Ok(Event::Text(t)) => Ok(XmlEvent::Text(t.as_ref().to_owned())),
        Ok(Event::End(_)) => Ok(XmlEvent::End),
        Ok(Event::Eof) => Ok(XmlEvent::Eof),
        Ok(_) => Ok(XmlEvent::Other),
        Err(e) => Err(format!("{}", e)),
    }
}

/// The section being accumulated: its header, its text so far, and its
/// type.
pub struct XmlCur {
    pub header: Seq<char>,
    pub content: Seq<char>,
    pub section_type: Option<Seq<char>>,
}

/// The fold state while walking the tag stream.
pub struct XmlFoldState {
    pub depth: int,
    pub root: Option<Seq<char>>,
    pub cur: Option<XmlCur>,
    pub sections: Seq<SectionView>,
}

/// The fold state before any event.
pub open spec fn xml_init() -> XmlFoldState {
    XmlFoldState { depth: 0, root: None, cur: None, sections: Seq::<SectionView>::empty() }
}

/// A finished section, flushed when non-empty: at a start tag the raw
/// accumulated text is kept, at an end tag it is trimmed.
pub open spec fn xml_flush(sections: Seq<SectionView>, cur: XmlCur, trimmed: bool) -> Seq<
    SectionView,
> {
    let text = if trimmed {
        seq_trim(cur.content)
    } else {
        cur.content
    };
    if seq_trim(cur.content).len() != 0 {
        sections.push(
            SectionView {
                header: cur.header,
                content: text,
                section_type: Some(
                    match cur.section_type {
                        Some(t) => t,
                        None => cur.header,
                    },
                ),
            },
        )
    } else {
        sections
    }
}

/// One step of the section fold.
pub open spec fn xml_step(st: XmlFoldState, ev: XmlEventView) -> XmlFoldState {
    match ev {
        XmlEventView::Start(name) => {
            let root = if st.root is None {
                Some(name)
            } else {
                st.root
            };
            let (sections, cur) = if st.depth == 1 {
                let flushed = match st.cur {
                    Some(c) => xml_flush(st.sections, c, false),
                    None => st.sections,
                };
                let stype = if name == "agent"@ {
                    None
                } else {
                    Some(name)
                };
                (
                    flushed,
                    Some(XmlCur { header: name, content: Seq::<char>::empty(), section_type: stype }),
                )
            } else {
                (st.sections, st.cur)
            };
            XmlFoldState {
                depth: if st.depth < usize::MAX {
                    st.depth + 1
                } else {
                    st.depth
                },
                root,
                cur,
                sections,
            }
        },
        XmlEventView::Text(t) => {
            match st.cur {
                Some(c) => XmlFoldState {
                    cur: Some(XmlCur { content: c.content + t + seq![' '], ..c }),
                    ..st
                },
                None => st,
            }
        },
        XmlEventView::End => {
            let depth = if st.depth > 0 {
                st.depth - 1
            } else {
                0
            };
            if depth == 1 && st.cur is Some {
                XmlFoldState {
                    depth,
                    sections: xml_flush(st.sections, st.cur->0, true),
                    cur: None,
                    ..st
                }
            } else {
                XmlFoldState { depth, ..st }
            }
        },
        _ => st,
    }
}

/// The fold over the whole stream: stops at end-of-file, fails at an
/// error event.
pub open spec fn xml_fold(events: Seq<XmlEventView>, st: XmlFoldState) -> Result<
    XmlFoldState,
    Seq<char>,
>
    decreases events.len(),
{
    if events.len() == 0 {
        Ok(st)
    } else {
        match events[0] {
            XmlEventView::Eof => Ok(st),
            XmlEventView::Error(m) => Err(m),
            _ => xml_fold(events.drop_first(), xml_step(st, events[0])),
        }
    }
}

/// Whether the whole text parses without a tag-stream error.
pub open spec fn xml_parse_ok(content: Seq<char>) -> bool {
    xml_fold(qx_events_of(content), xml_init()) is Ok
}

/// The detected document type: prompts and agent documents are
/// `agent_prompt`, anything else plain `xml`.
pub open spec fn xml_doc_type(path: Seq<char>) -> Seq<char> {
    if crate::text::spec_contains_seq(path, "prompt.xml"@) || crate::text::spec_contains_seq(
        path,
        "agent"@,
    ) {
        "agent_prompt"@
    } else {
        "xml"@
    }
}

/// The sections of a successfully parsed document: the fold's sections,
/// the leftover open section flushed when any section exists, and a
/// single whole-content section when none does.
pub open spec fn xml_doc_spec(content: Seq<char>, path: Seq<char>) -> ParsedDocumentView {
    let st = xml_fold(qx_events_of(content), xml_init())->Ok_0;
    let sections = if st.sections.len() == 0 {
        seq![
            SectionView {
                header: match st.root {
                    Some(rt) => rt,
                    None => "root"@,
                },
                content: content,
                section_type: None,
            },
        ]
    } else {
        match st.cur {
            Some(c) => xml_flush(st.sections, c, true),
            None => st.sections,
        }
    };
    ParsedDocumentView { content: content, sections, doc_type: xml_doc_type(path) }
}

/// Parses tag-structured documents.
pub struct XmlParser;

/// The exec image of the fold state.
struct XmlCurExec {
    header: String,
    content: String,
    section_type: Option<String>,
}

impl DocParser for XmlParser {
    open spec fn can_parse_spec(&self, extension: Seq<char>) -> bool {
        extension == "xml"@
    }

    open spec fn parse_ok(&self, content: Seq<char>, path: Seq<char>) -> bool {
        xml_parse_ok(content)
    }

    open spec fn parse_doc(&self, content: Seq<char>, path: Seq<char>) -> ParsedDocumentView {
        xml_doc_spec(content, path)
    }

    fn can_parse(&self, extension: &str) -> (b: bool) {
        let v = chars_of(extension);
        chars_eq_lit(&v, "xml")
    }

    fn parse(&self, content: &str, path: &str) -> (r: Result<ParsedDocument, RagmcpError>) {
        let mut reader = qx_from_str(content);
        let mut depth: usize = 0;
        let mut root: Option<String> = None;
        let mut cur: Option<XmlCurExec> = None;
        let mut sections: Vec<Section> = Vec::new();
        let mut fold_done: Result<(), String> = Ok(());
        let ghost all = qx_events_of(content@);
        let ghost mut st = xml_init();
        loop
            invariant_except_break
                all == qx_events_of(content@),
                fold_done is Ok,
                st.depth == depth as int,
                0 <= st.depth <= usize::MAX,
                st.root == (match root {
                    Some(ref rt) => Some(rt@),
                    None => None::<Seq<char>>,
                }),
                st.cur == (match cur {
                    Some(ref c) => Some(
                        XmlCur {
                            header: c.header@,
                            content: c.content@,
                            section_type: match c.section_type {
                                Some(ref t) => Some(t@),
                                None => None::<Seq<char>>,
                            },
                        },
                    ),
                    None => None::<XmlCur>,
                }),
                st.sections == sections.deep_view(),
                xml_fold(all, xml_init()) == xml_fold(qx_remaining(reader), st),
            ensures
                st.depth == depth as int,
                st.root == (match root {
                    Some(ref rt) => Some(rt@),
                    None => None::<Seq<char>>,
                }),
                st.cur == (match cur {
                    Some(ref c) => Some(
                        XmlCur {
                            header: c.header@,
                            content: c.content@,
                            section_type: match c.section_type {
                                Some(ref t) => Some(t@),
                                None => None::<Seq<char>>,
                            },
                        },
                    ),
                    None => None::<XmlCur>,
                }),
                st.sections == sections.deep_view(),
                ({
                    let fr = xml_fold(all, xml_init());
                    match fold_done {
                        Ok(()) => fr == Ok::<XmlFoldState, Seq<char>>(st),
                        Err(ref m) => fr == Err::<XmlFoldState, Seq<char>>(m@),
                    }
                }),
            decreases qx_remaining(reader).len(),
        {
            let ghost rem = qx_remaining(reader);
            let ev = qx_read_event(&mut reader);
            match ev {
                Err(m) => {
                    proof {
                        assert(rem.len() > 0 && rem[0] is Error);
                        assert(xml_fold(rem, st) == Err::<XmlFoldState, Seq<char>>(m@));
                    }
                    fold_done = Err(m);
                    break ;
                },
                Ok(event) => {
                    let is_eof = match &event {
                        XmlEvent::Eof => true,
                        _ => false,
                    };
                    if is_eof {
                        proof {
                            assert(xml_fold(rem, st) == Ok::<XmlFoldState, Seq<char>>(st)) by {
                                if rem.len() > 0 {
                                    assert(rem[0] is Eof);
                                }
                            }
                        }
                        break ;
                    }
                    proof {
                        assert(rem.len() > 0) by {
                            if rem.len() == 0 {
                                assert(event@ is Eof);
                            }
                        }
                        assert(event@ == rem[0]);
                        assert(!(rem[0] is Eof) && !(rem[0] is Error));
                        assert(xml_fold(rem, st) == xml_fold(rem.drop_first(), xml_step(st, rem[0])));
                    }
                    let ghost st0 = st;
                    proof {
                        st = xml_step(st0, event@);
                    }
                    match event {
                        XmlEvent::Start(name) => {
                            if root.is_none() {
                                root = Some(name.clone());
                            }
                            if depth == 1 {
                                let flushed_cur = cur;
                                cur = None;
                                if let Some(c) = flushed_cur {
                                    push_section_exec(&mut sections, c, false);
                                }
                                let nv = chars_of(name.as_str());
                                let stype: Option<String> = if chars_eq_lit(&nv, "agent") {
                                    None
                                } else {
                                    Some(name.clone())
                                };
                                cur = Some(
                                    XmlCurExec {
                                        header: name,
                                        content: String::new(),
                                        section_type: stype,
                                    },
                                );
                            }
                            if depth < usize::MAX {
                                depth = depth + 1;
                            }
                            proof {
                                assert(st.sections =~= sections.deep_view());
                            }
                        },
                        XmlEvent::Text(t) => {
                            let tmp = cur;
                            cur = match tmp {
                                Some(mut c) => {
                                    c.content.append(t.as_str());
                                    c.content.append(" ");
                                    Some(c)
                                },
                                None => None,
                            };
                            proof {
                                reveal_strlit(" ");
                                assert(" "@ =~= seq![' ']);
                                if st0.cur is Some {
                                    assert(st.cur->0.content =~= st0.cur->0.content + t@
                                        + seq![' ']);
                                    assert(cur is Some);
                                    assert(st.cur->0.content =~= (st0.cur->0.content + t@)
                                        + " "@);
                                }
                            }
                        },
                        XmlEvent::End => {
                            if depth > 0 {
                                depth = depth - 1;
                            }
                            if depth == 1 && cur.is_some() {
                                let c = cur;
                                cur = None;
                                if let Some(c) = c {
                                    push_section_exec(&mut sections, c, true);
                                }
                            }
                            proof {
                                assert(st.sections =~= sections.deep_view());
                            }
                        },
                        XmlEvent::Eof => {},
                        XmlEvent::Error(_) => {},
                        XmlEvent::Other => {},
                    }
                },
            }
        }
        match fold_done {
            Err(m) => {
                let mut msg = "XML parse error in ".to_owned();
                msg.append(path);
                msg.append(": ");
                msg.append(m.as_str());
                Err(RagmcpError::Parse(msg))
            },
            Ok(()) => {
                if sections.len() == 0 {
                    let header = match root {
                        Some(rt) => rt,
                        None => "root".to_owned(),
                    };
                    let ghost old_dv = sections.deep_view();
                    let sct = Section { header, content: content.to_owned(), section_type: None };
                    let ghost sv = sct@;
                    sections.push(sct);
                    proof {
                        assert(sections.deep_view() =~= old_dv.push(sv));
                        assert(sections.deep_view() =~= xml_doc_spec(content@, path@).sections);
                    }
                } else {
                    let c = cur;
                    cur = None;
                    if let Some(c) = c {
                        push_section_exec(&mut sections, c, true);
                    }
                    proof {
                        assert(sections.deep_view() =~= xml_doc_spec(content@, path@).sections);
                    }
                }
                let pv = chars_of(path);
                let is_agent = {
                    let needle1 = chars_of("prompt.xml");
                    let needle2 = chars_of("agent");
                    contains_seq(&pv, &needle1) || contains_seq(&pv, &needle2)
                };
                let doc_type: String = if is_agent {
                    "agent_prompt".to_owned()
                } else {
                    "xml".to_owned()
                };
                let doc = ParsedDocument { content: content.to_owned(), sections, doc_type };
                proof {
                    assert(doc@.sections =~= xml_doc_spec(content@, path@).sections);
                    assert(doc@ =~~= xml_doc_spec(content@, path@));
                }
                Ok(doc)
            },
        }
    }
}

/// Push the finished section when its trimmed text is non-empty.
fn push_section_exec(sections: &mut Vec<Section>, c: XmlCurExec, trimmed: bool)
    ensures
        final (sections).deep_view() == xml_flush(
            old(sections).deep_view(),
            XmlCur {
                header: c.header@,
                content: c.content@,
                section_type: match c.section_type {
                    Some(ref t) => Some(t@),
                    None => None,
                },
            },
            trimmed,
        ),
{
    let cv = chars_of(c.content.as_str());
    let tv = trim_chars(&cv);
    if tv.len() > 0 {
        let text = if trimmed {
            string_from_chars(&tv)
        } else {
            c.content
        };
        let stype: String = match c.section_type {
            Some(t) => t,
            None => c.header.clone(),
        };
        let ghost old_dv = sections.deep_view();
        let s = Section { header: c.header, content: text, section_type: Some(stype) };
        let ghost sv = s@;
        sections.push(s);
        proof {
            assert(sections.deep_view() =~= old_dv.push(sv));
        }
    }
}

} // verus!
