//! The markdown parser: heading-delimited sections, with inline and
//! fenced code kept in backticks and an optional leading frontmatter
//! block. The event stream comes from `pulldown_cmark`; the
//! section-building fold over that stream is verified.

use crate::error::RagmcpError;
use crate::parsers::{ParsedDocument, ParsedDocumentView, Section, SectionView};
use crate::text::{
    chars_eq_lit, chars_of, occurs_at, seq_trim, string_from_chars, subvec, trim_chars,
    usize_to_chars,
};
use pulldown_cmark::{CodeBlockKind, Event, Tag, TagEnd};
use vstd::prelude::*;

verus! {

/// One event of the markdown stream, reduced to what the section fold
/// reads.
pub enum MdEvent {
    HeadingStart(u32),
    Text(String),
    Code(String),
    CodeBlockStart(String),
    CodeBlockEnd,
    Brk,
    Other,
}

/// The mathematical image of a markdown event.
pub enum MdEventView {
    HeadingStart(int),
    Text(Seq<char>),
    Code(Seq<char>),
    CodeBlockStart(Seq<char>),
    CodeBlockEnd,
    Brk,
    Other,
}

impl View for MdEvent {
    type V = MdEventView;

    open spec fn view(&self) -> MdEventView {
        match self {
            MdEvent::HeadingStart(l) => MdEventView::HeadingStart(*l as int),
            MdEvent::Text(t) => MdEventView::Text(t@),
            MdEvent::Code(c) => MdEventView::Code(c@),
            MdEvent::CodeBlockStart(l) => MdEventView::CodeBlockStart(l@),
            MdEvent::CodeBlockEnd => MdEventView::CodeBlockEnd,
            MdEvent::Brk => MdEventView::Brk,
            MdEvent::Other => MdEventView::Other,
        }
    }
}

/// The whole event stream `pulldown_cmark` yields for a text: a function
/// of the text alone.
pub uninterp spec fn md_events_of(s: Seq<char>) -> Seq<MdEventView>;

/// The events a parser has still to yield.
pub uninterp spec fn md_remaining(p: pulldown_cmark::Parser) -> Seq<MdEventView>;

#[verifier::external_type_specification]
#[verifier::external_body]
#[verifier::reject_recursive_types(F)]
pub struct ExMdParser<'input, F>(pulldown_cmark::Parser<'input, F>);

#[verifier::external_type_specification]
#[verifier::external_body]
pub struct ExMdCallback(pulldown_cmark::DefaultBrokenLinkCallback);

#[verifier::external_type_specification]
#[verifier::external_body]
pub struct ExMdEvent<'a>(pulldown_cmark::Event<'a>);

/// Relies on `pulldown_cmark::Parser::new`: a fresh parser yields exactly
/// the event stream of the text.
#[verifier::external_body]
fn md_parser_new<'a>(s: &'a str) -> (p: pulldown_cmark::Parser<'a>)
    ensures
        md_remaining(p) == md_events_of(s@),
{
    pulldown_cmark::Parser::new(s)
}

/// Relies on the parser's `Iterator::next`: events come out one at a
/// time (heading starts with their level, text, inline code, code-block
/// fences with their language, breaks), and the exhausted parser keeps
/// returning nothing.
#[verifier::external_body]
fn md_next(p: &mut pulldown_cmark::Parser) -> (e: Option<MdEvent>)
    ensures
        ({
            let rem = md_remaining(*old(p));
            if rem.len() > 0 {
                &&& md_remaining(*final (p)) == rem.drop_first()
                &&& e is Some
                &&& e->0@ == rem[0]
            } else {
                &&& e is None
                &&& md_remaining(*final (p)).len() == 0
            }
        }),
{
    match p.next() {
        None => None,
        Some(ev) => Some(md_convert(ev)),
    }
}

/// Turn one `pulldown_cmark` event into the reduced form the fold reads,
/// variant for variant.
#[verifier::external_body]
fn md_convert(ev: Event) -> MdEvent {
    match ev {
        Event::Start(Tag::Heading { level, .. }) => MdEvent::HeadingStart(level as u32),
        Event::Text(t) => MdEvent::Text(t.into_string()),
        Event::Code(c) => MdEvent::Code(c.into_string()),
        Event::Start(Tag::CodeBlock(CodeBlockKind::Fenced(lang))) => MdEvent::CodeBlockStart(
            lang.into_string(),
        ),
        Event::Start(Tag::CodeBlock(CodeBlockKind::Indented)) => MdEvent::CodeBlockStart(
            String::new(),
        ),
        Event::End(TagEnd::CodeBlock) => MdEvent::CodeBlockEnd,
        Event::SoftBreak => MdEvent::Brk,
        Event::HardBreak => MdEvent::Brk,
        _ => MdEvent::Other,
    }
}

/// The open section: its header (empty until the heading text arrives),
/// its text so far, and the heading level.
pub struct MdCur {
    pub header: Seq<char>,
    pub content: Seq<char>,
    pub level: int,
}

/// The fold state while walking the event stream.
pub struct MdFoldState {
    pub cur: Option<MdCur>,
    pub loose: Seq<char>,
    pub skip: bool,
    pub sections: Seq<SectionView>,
}

/// The heading type label `h<level>`.
pub open spec fn heading_type(level: int) -> Seq<char> {
    seq!['h'] + crate::text::dec_str(level)
}

/// A finished section, flushed when its text is non-empty, labelled with
/// its heading level (or `markdown` at the end of the document).
pub open spec fn md_flush(
    sections: Seq<SectionView>,
    cur: MdCur,
    label: Seq<char>,
    trimmed: bool,
) -> Seq<SectionView> {
    if seq_trim(cur.content).len() != 0 {
        sections.push(
            SectionView {
                header: cur.header,
                content: if trimmed {
                    seq_trim(cur.content)
                } else {
                    cur.content
                },
                section_type: Some(label),
            },
        )
    } else {
        sections
    }
}

/// One step of the section fold.
pub open spec fn md_step(st: MdFoldState, ev: MdEventView) -> MdFoldState {
    match ev {
        MdEventView::HeadingStart(level) => {
            let sections = match st.cur {
                Some(c) => md_flush(st.sections, c, heading_type(level), true),
                None => st.sections,
            };
            MdFoldState {
                cur: Some(MdCur { header: Seq::<char>::empty(), content: Seq::<char>::empty(), level }),
                loose: Seq::<char>::empty(),
                skip: false,
                sections,
            }
        },
        MdEventView::Text(t) => {
            if st.skip {
                st
            } else {
                match st.cur {
                    Some(c) => if c.header.len() == 0 {
                        MdFoldState { cur: Some(MdCur { header: t, ..c }), ..st }
                    } else {
                        MdFoldState {
                            cur: Some(MdCur { content: c.content + t + seq![' '], ..c }),
                            ..st
                        }
                    },
                    None => MdFoldState { loose: st.loose + t + seq![' '], ..st },
                }
            }
        },
        MdEventView::Code(code) => {
            if st.skip {
                st
            } else {
                let piece = "```"@ + code + "``` "@;
                match st.cur {
                    Some(c) => MdFoldState {
                        cur: Some(MdCur { content: c.content + piece, ..c }),
                        ..st
                    },
                    None => MdFoldState { loose: st.loose + piece, ..st },
                }
            }
        },
        MdEventView::CodeBlockStart(lang) => {
            if st.skip {
                st
            } else {
                let piece = "```"@ + lang + seq!['\n'];
                match st.cur {
                    Some(c) => MdFoldState {
                        cur: Some(MdCur { content: c.content + piece, ..c }),
                        ..st
                    },
                    None => MdFoldState { loose: st.loose + piece, ..st },
                }
            }
        },
        MdEventView::CodeBlockEnd => {
            if st.skip {
                st
            } else {
                let piece = "```\n"@;
                match st.cur {
                    Some(c) => MdFoldState {
                        cur: Some(MdCur { content: c.content + piece, ..c }),
                        ..st
                    },
                    None => MdFoldState { loose: st.loose + piece, ..st },
                }
            }
        },
        MdEventView::Brk => {
            if st.skip {
                st
            } else {
                match st.cur {
                    Some(c) => MdFoldState {
                        cur: Some(MdCur { content: c.content.push('\n'), ..c }),
                        ..st
                    },
                    None => MdFoldState { loose: st.loose.push('\n'), ..st },
                }
            }
        },
        MdEventView::Other => st,
    }
}

/// The fold over the whole stream.
pub open spec fn md_fold(events: Seq<MdEventView>, st: MdFoldState) -> MdFoldState
    decreases events.len(),
{
    if events.len() == 0 {
        st
    } else {
        md_fold(events.drop_first(), md_step(st, events[0]))
    }
}

/// The leading frontmatter block, when the document opens with `---` on
/// its own line: the text between the opening delimiter and the first
/// closing `---` line found from offset four on.
pub open spec fn frontmatter_of(content: Seq<char>) -> Option<Seq<char>> {
    if content.len() >= 4 && content.subrange(0, 4) == "---\n"@ {
        let rest = content.subrange(4, content.len() as int);
        if crate::text::spec_contains_seq(rest, "---\n"@) {
            Some(content.subrange(4, 4 + first_marker_at(rest)))
        } else {
            None
        }
    } else {
        None
    }
}

/// The first offset where the closing delimiter occurs.
pub open spec fn first_marker_at(s: Seq<char>) -> int {
    choose|at: int|
        occurs_at(s, "---\n"@, at) && forall|b: int| 0 <= b < at ==> !occurs_at(s, "---\n"@, b)
}

/// The parsed document: sections from the event fold (the last open
/// section flushed with the `markdown` label), a single whole-content
/// section when no heading produced one, and the frontmatter, when
/// present, put first.
pub open spec fn md_doc_spec(content: Seq<char>) -> ParsedDocumentView {
    let init = MdFoldState {
        cur: None,
        loose: Seq::<char>::empty(),
        skip: frontmatter_of(content) is Some,
        sections: Seq::<SectionView>::empty(),
    };
    let st = md_fold(md_events_of(content), init);
    let folded = match st.cur {
        Some(c) => md_flush(st.sections, c, "markdown"@, true),
        None => st.sections,
    };
    let base = if folded.len() == 0 {
        seq![
            SectionView {
                header: "content"@,
                content: if st.loose.len() != 0 {
                    seq_trim(st.loose)
                } else {
                    content
                },
                section_type: None,
            },
        ]
    } else {
        folded
    };
    let sections = match frontmatter_of(content) {
        Some(fm) => seq![
            SectionView { header: "frontmatter"@, content: fm, section_type: Some("frontmatter"@) },
        ] + base,
        None => base,
    };
    ParsedDocumentView { content: content, sections, doc_type: "markdown"@ }
}

/// Parses heading-structured markdown documents.
pub struct MarkdownParser;

struct MdCurExec {
    header: String,
    content: String,
    level: u32,
}

impl crate::parsers::DocParser for MarkdownParser {
    open spec fn can_parse_spec(&self, extension: Seq<char>) -> bool {
        extension == "md"@
    }

    open spec fn parse_ok(&self, content: Seq<char>, path: Seq<char>) -> bool {
        true
    }

    open spec fn parse_doc(&self, content: Seq<char>, path: Seq<char>) -> ParsedDocumentView {
        md_doc_spec(content)
    }

    fn can_parse(&self, extension: &str) -> (b: bool) {
        let v = chars_of(extension);
        chars_eq_lit(&v, "md")
    }

    #[verifier::rlimit(80)]
    fn parse(&self, content: &str, path: &str) -> (r: Result<ParsedDocument, RagmcpError>) {
        proof {
            reveal_strlit("---\n");
        }
        let cv = chars_of(content);
        // frontmatter: a leading `---` line closed by another
        let frontmatter: Option<String> = {
            let opener = chars_of("---\n");
            let mut opens = false;
            if cv.len() >= 4 {
                let head = subvec(&cv, 0, 4);
                opens = crate::text::chars_eq(&head, &opener);
                proof {
                    assert(head@ =~= content@.subrange(0, 4));
                }
            }
            if opens {
                let rest = subvec(&cv, 4, cv.len());
                match find_marker(&rest) {
                    Some(at) => {
                        let fm = subvec(&rest, 0, at);
                        proof {
                            let restv = content@.subrange(4, content@.len() as int);
                            assert(rest@ =~= restv);
                            assert(content@.subrange(0, 4) =~= "---\n"@);
                            assert(frontmatter_of(content@) == Some(
                                content@.subrange(4, 4 + first_marker_at(restv)),
                            ));
                            assert(fm@ =~= rest@.subrange(0, at as int));
                            assert(rest@.subrange(0, at as int) =~= content@.subrange(4, 4 + (
                            at as int)));
                        }
                        Some(string_from_chars(&fm))
                    },
                    None => {
                        proof {
                            let restv = content@.subrange(4, content@.len() as int);
                            assert(rest@ =~= restv);
                            assert(content@.subrange(0, 4) =~= "---\n"@);
                        }
                        None
                    },
                }
            } else {
                proof {
                    if content@.len() >= 4 && content@.subrange(0, 4) == "---\n"@ {
                        assert(cv@.subrange(0, 4) =~= content@.subrange(0, 4));
                    }
                }
                None
            }
        };
        let ghost all = md_events_of(content@);
        let ghost init = MdFoldState {
            cur: None,
            loose: Seq::<char>::empty(),
            skip: frontmatter_of(content@) is Some,
            sections: Seq::<SectionView>::empty(),
        };
        let mut parser = md_parser_new(content);
        let mut cur: Option<MdCurExec> = None;
        let mut loose = String::new();
        let mut skip = frontmatter.is_some();
        let mut sections: Vec<Section> = Vec::new();
        let ghost mut st = init;
        proof {
            assert(st.skip == skip);
        }
        loop
            invariant_except_break
                all == md_events_of(content@),
                st.skip == skip,
                st.loose == loose@,
                st.cur == (match cur {
                    Some(ref c) => Some(
                        MdCur { header: c.header@, content: c.content@, level: c.level as int },
                    ),
                    None => None::<MdCur>,
                }),
                st.sections == sections.deep_view(),
                md_fold(all, init) == md_fold(md_remaining(parser), st),
            ensures
                st.loose == loose@,
                st.cur == (match cur {
                    Some(ref c) => Some(
                        MdCur { header: c.header@, content: c.content@, level: c.level as int },
                    ),
                    None => None::<MdCur>,
                }),
                st.sections == sections.deep_view(),
                st == md_fold(all, init),
            decreases md_remaining(parser).len(),
        {
            let ghost rem = md_remaining(parser);
            let ev = md_next(&mut parser);
            let event = match ev {
                None => {
                    proof {
                        assert(md_fold(rem, st) == st);
                    }
                    break ;
                },
                Some(e) => e,
            };
            proof {
                assert(rem.len() > 0);
                assert(event@ == rem[0]);
                assert(md_fold(rem, st) == md_fold(rem.drop_first(), md_step(st, rem[0])));
            }
            let ghost st0 = st;
            proof {
                st = md_step(st0, event@);
            }
            match event {
                MdEvent::HeadingStart(level) => {
                    let flushed = cur;
                    cur = None;
                    if let Some(c) = flushed {
                        let label = heading_label(level);
                        push_md_section(&mut sections, c.header, c.content, label);
                    }
                    loose = String::new();
                    cur = Some(
                        MdCurExec { header: String::new(), content: String::new(), level },
                    );
                    skip = false;
                    proof {
                        assert(st.sections =~= sections.deep_view());
                        assert(st.loose =~= loose@);
                    }
                },
                MdEvent::Text(t) => {
                    if !skip {
                        let tmp = cur;
                        cur = match tmp {
                            Some(mut c) => {
                                if c.header.as_str().unicode_len() == 0 {
                                    c.header = t;
                                } else {
                                    c.content.append(t.as_str());
                                    c.content.append(" ");
                                }
                                Some(c)
                            },
                            None => {
                                loose.append(t.as_str());
                                loose.append(" ");
                                None
                            },
                        };
                        proof {
                            reveal_strlit(" ");
                            assert(" "@ =~= seq![' ']);
                            if st0.cur is Some {
                                if st0.cur->0.header.len() != 0 {
                                    assert(st.cur->0.content =~= (st0.cur->0.content + t@) + " "@);
                                }
                            } else {
                                assert(st.loose =~= (st0.loose + t@) + " "@);
                            }
                        }
                    }
                },
                MdEvent::Code(code) => {
                    if !skip {
                        append_piece_code(&mut cur, &mut loose, code.as_str());
                        proof {
                            let piece = "```"@ + code@ + "``` "@;
                            if st0.cur is Some {
                                assert(st.cur->0.content =~= st0.cur->0.content + piece);
                            } else {
                                assert(st.loose =~= st0.loose + piece);
                            }
                        }
                    }
                },
                MdEvent::CodeBlockStart(lang) => {
                    if !skip {
                        append_piece_fence(&mut cur, &mut loose, lang.as_str());
                        proof {
                            let piece = "```"@ + lang@ + seq!['\n'];
                            if st0.cur is Some {
                                assert(st.cur->0.content =~= st0.cur->0.content + piece);
                            } else {
                                assert(st.loose =~= st0.loose + piece);
                            }
                        }
                    }
                },
                MdEvent::CodeBlockEnd => {
                    if !skip {
                        append_piece_close(&mut cur, &mut loose);
                        proof {
                            let piece = "```\n"@;
                            if st0.cur is Some {
                                assert(st.cur->0.content =~= st0.cur->0.content + piece);
                            } else {
                                assert(st.loose =~= st0.loose + piece);
                            }
                        }
                    }
                },
                MdEvent::Brk => {
                    if !skip {
                        let tmp = cur;
                        cur = match tmp {
                            Some(mut c) => {
                                crate::text::push_char(&mut c.content, '\n');
                                Some(c)
                            },
                            None => {
                                crate::text::push_char(&mut loose, '\n');
                                None
                            },
                        };
                    }
                },
                MdEvent::Other => {},
            }
        }
        // the last open section keeps the `markdown` label
        let leftover = cur;
        if let Some(c) = leftover {
            push_md_section(&mut sections, c.header, c.content, "markdown".to_owned());
        }
        proof {
            let stf = md_fold(all, init);
            assert(sections.deep_view() =~= (match stf.cur {
                Some(c) => md_flush(stf.sections, c, "markdown"@, true),
                None => stf.sections,
            }));
        }
        if sections.len() == 0 {
            let lv = chars_of(loose.as_str());
            let ltrim = trim_chars(&lv);
            let text: String = if loose.as_str().unicode_len() != 0 {
                string_from_chars(&ltrim)
            } else {
                content.to_owned()
            };
            let ghost old_dv = sections.deep_view();
            let sct = Section { header: "content".to_owned(), content: text, section_type: None };
            let ghost sv = sct@;
            sections.push(sct);
            proof {
                assert(sections.deep_view() =~= old_dv.push(sv));
            }
        }
        let mut with_fm: Vec<Section> = Vec::new();
        if let Some(fm) = frontmatter {
            with_fm.push(
                Section {
                    header: "frontmatter".to_owned(),
                    content: fm,
                    section_type: Some("frontmatter".to_owned()),
                },
            );
            let mut i: usize = 0;
            let ghost base = sections.deep_view();
            proof {
                assert(with_fm.deep_view() =~= seq![
                    SectionView {
                        header: "frontmatter"@,
                        content: frontmatter_of(content@)->0,
                        section_type: Some("frontmatter"@),
                    },
                ]);
            }
            while i < sections.len()
                invariant
                    i <= sections@.len(),
                    base == sections.deep_view(),
                    with_fm.deep_view() =~= seq![
                        SectionView {
                            header: "frontmatter"@,
                            content: frontmatter_of(content@)->0,
                            section_type: Some("frontmatter"@),
                        },
                    ] + base.subrange(0, i as int),
                decreases sections@.len() - i,
            {
                let s = &sections[i];
                let ghost old_dv = with_fm.deep_view();
                let copy = Section {
                    header: s.header.clone(),
                    content: s.content.clone(),
                    section_type: match &s.section_type {
                        Some(t) => Some(t.clone()),
                        None => None,
                    },
                };
                proof {
                    assert(copy@ == base[i as int]);
                }
                with_fm.push(copy);
                proof {
                    assert(with_fm.deep_view() =~= old_dv.push(base[i as int]));
                }
                i = i + 1;
            }
            proof {
                assert(base.subrange(0, base.len() as int) =~= base);
            }
            sections = with_fm;
        }
        let doc = ParsedDocument {
            content: content.to_owned(),
            sections,
            doc_type: "markdown".to_owned(),
        };
        proof {
            assert(doc@.sections =~= md_doc_spec(content@).sections);
            assert(doc@ =~~= md_doc_spec(content@));
        }
        Ok(doc)
    }
}

/// The section label `h<level>`.
fn heading_label(level: u32) -> (r: String)
    ensures
        r@ == heading_type(level as int),
{
    let mut s = String::new();
    crate::text::push_char(&mut s, 'h');
    let digits = usize_to_chars(level as usize);
    let ds = string_from_chars(&digits);
    s.append(ds.as_str());
    proof {
        assert(s@ =~= heading_type(level as int));
    }
    s
}

/// Push the finished section when its trimmed text is non-empty.
fn push_md_section(sections: &mut Vec<Section>, header: String, content: String, label: String)
    ensures
        final (sections).deep_view() == md_flush(
            old(sections).deep_view(),
            MdCur { header: header@, content: content@, level: 0 },
            label@,
            true,
        ),
{
    let cvv = chars_of(content.as_str());
    let tv = trim_chars(&cvv);
    if tv.len() > 0 {
        let text = string_from_chars(&tv);
        let ghost old_dv = sections.deep_view();
        let s = Section { header, content: text, section_type: Some(label) };
        let ghost sv = s@;
        sections.push(s);
        proof {
            assert(sections.deep_view() =~= old_dv.push(sv));
        }
    }
}

/// Append an inline code piece to the open section or the loose text.
fn append_piece_code(cur: &mut Option<MdCurExec>, loose: &mut String, code: &str)
    ensures
        ({
            let piece = "```"@ + code@ + "``` "@;
            match *old(cur) {
                Some(c) => (*final (cur)) matches Some(c2) && c2.header@ == c.header@ && c2.level
                    == c.level && c2.content@ == c.content@ + piece && final (loose)@ == old(
                    loose,
                )@,
                None => (*final (cur)) is None && final (loose)@ == old(loose)@ + piece,
            }
        }),
{
    let tmp = cur.take();
    match tmp {
        Some(mut c) => {
            c.content.append("```");
            c.content.append(code);
            c.content.append("``` ");
            proof {
                assert(c.content@ =~= old(cur)->0.content@ + ("```"@ + code@ + "``` "@));
            }
            *cur = Some(c);
        },
        None => {
            loose.append("```");
            loose.append(code);
            loose.append("``` ");
            proof {
                assert(loose@ =~= old(loose)@ + ("```"@ + code@ + "``` "@));
            }
        },
    }
}

/// Append a fence-opening piece to the open section or the loose text.
fn append_piece_fence(cur: &mut Option<MdCurExec>, loose: &mut String, lang: &str)
    ensures
        ({
            let piece = "```"@ + lang@ + seq!['\n'];
            match *old(cur) {
                Some(c) => (*final (cur)) matches Some(c2) && c2.header@ == c.header@ && c2.level
                    == c.level && c2.content@ == c.content@ + piece && final (loose)@ == old(
                    loose,
                )@,
                None => (*final (cur)) is None && final (loose)@ == old(loose)@ + piece,
            }
        }),
{
    let tmp = cur.take();
    match tmp {
        Some(mut c) => {
            c.content.append("```");
            c.content.append(lang);
            crate::text::push_char(&mut c.content, '\n');
            proof {
                assert(c.content@ =~= old(cur)->0.content@ + ("```"@ + lang@ + seq!['\n']));
            }
            *cur = Some(c);
        },
        None => {
            loose.append("```");
            loose.append(lang);
            crate::text::push_char(loose, '\n');
            proof {
                assert(loose@ =~= old(loose)@ + ("```"@ + lang@ + seq!['\n']));
            }
        },
    }
}

/// Append a fence-closing piece to the open section or the loose text.
fn append_piece_close(cur: &mut Option<MdCurExec>, loose: &mut String)
    ensures
        ({
            let piece = "```\n"@;
            match *old(cur) {
                Some(c) => (*final (cur)) matches Some(c2) && c2.header@ == c.header@ && c2.level
                    == c.level && c2.content@ == c.content@ + piece && final (loose)@ == old(
                    loose,
                )@,
                None => (*final (cur)) is None && final (loose)@ == old(loose)@ + piece,
            }
        }),
{
    let tmp = cur.take();
    match tmp {
        Some(mut c) => {
            c.content.append("```\n");
            proof {
                assert(c.content@ =~= old(cur)->0.content@ + "```\n"@);
            }
            *cur = Some(c);
        },
        None => {
            loose.append("```\n");
            proof {
                assert(loose@ =~= old(loose)@ + "```\n"@);
            }
        },
    }
}

/// The earliest offset of the closing delimiter, if it occurs.
fn find_marker(s: &Vec<char>) -> (r: Option<usize>)
    ensures
        r is Some <==> crate::text::spec_contains_seq(s@, "---\n"@),
        r is Some ==> r->0 as int == first_marker_at(s@) && r->0 + 4 <= s@.len(),
{
    proof {
        reveal_strlit("---\n");
    }
    let needle = chars_of("---\n");
    if s.len() < 4 {
        proof {
            assert(forall|at: int| !occurs_at(s@, "---\n"@, at));
        }
        return None;
    }
    let mut at: usize = 0;
    while at <= s.len() - 4
        invariant
            4 <= s@.len(),
            needle@ == "---\n"@,
            needle@.len() == 4,
            at <= s@.len() - 4 + 1,
            forall|b: int| 0 <= b < at ==> !occurs_at(s@, "---\n"@, b),
        decreases s@.len() - at,
    {
        let mut k: usize = 0;
        let mut mismatch = false;
        while k < 4
            invariant
                at + 4 <= s@.len(),
                s@.len() <= usize::MAX,
                needle@ == "---\n"@,
                needle@.len() == 4,
                k <= 4,
                !mismatch ==> forall|j: int| 0 <= j < k ==> s@[at + j] == needle@[j],
                mismatch ==> !occurs_at(s@, "---\n"@, at as int),
            ensures
                mismatch ==> !occurs_at(s@, "---\n"@, at as int),
                !mismatch ==> forall|j: int| 0 <= j < 4 ==> s@[at + j] == needle@[j],
            decreases 4 - k,
        {
            if s[at + k] != needle[k] {
                mismatch = true;
                proof {
                    assert(s@.subrange(at as int, at + 4)[k as int] == s@[at + k]);
                }
                break ;
            }
            k = k + 1;
        }
        if !mismatch {
            proof {
                assert(s@.subrange(at as int, at + 4) =~= needle@);
                assert(occurs_at(s@, "---\n"@, at as int));
                assert(first_marker_at(s@) == at as int) by {
                    let w = first_marker_at(s@);
                    assert(occurs_at(s@, "---\n"@, at as int) && forall|b: int|
                        0 <= b < at ==> !occurs_at(s@, "---\n"@, b));
                    assert(occurs_at(s@, "---\n"@, w) && forall|b: int|
                        0 <= b < w ==> !occurs_at(s@, "---\n"@, b));
                }
            }
            return Some(at);
        }
        at = at + 1;
    }
    proof {
        assert forall|j: int| !occurs_at(s@, "---\n"@, j) by {
            if occurs_at(s@, "---\n"@, j) {
                assert(0 <= j < at);
            }
        }
    }
    None
}

} // verus!
