//! Document parsers: structured formats are cut into sections; plain text
//! is one section. A registry picks the parser by file extension and falls
//! back to plain text when a structured parse fails.

pub mod json;
pub mod markdown;
pub mod plaintext;
pub mod yaml;
pub mod xml;

use crate::error::RagmcpError;
use vstd::prelude::*;

verus! {

/// A titled stretch of a parsed document.
pub struct Section {
    pub header: String,
    pub content: String,
    pub section_type: Option<String>,
}

/// The mathematical image of a section.
pub struct SectionView {
    pub header: Seq<char>,
    pub content: Seq<char>,
    pub section_type: Option<Seq<char>>,
}

impl View for Section {
    type V = SectionView;

    open spec fn view(&self) -> SectionView {
        SectionView {
            header: self.header@,
            content: self.content@,
            section_type: self.section_type.deep_view(),
        }
    }
}

impl DeepView for Section {
    type V = SectionView;

    open spec fn deep_view(&self) -> SectionView {
        self.view()
    }
}

/// A parsed document: its full text, its sections, and the detected type.
pub struct ParsedDocument {
    pub content: String,
    pub sections: Vec<Section>,
    pub doc_type: String,
}

/// The mathematical image of a parsed document.
pub struct ParsedDocumentView {
    pub content: Seq<char>,
    pub sections: Seq<SectionView>,
    pub doc_type: Seq<char>,
}

impl View for ParsedDocument {
    type V = ParsedDocumentView;

    open spec fn view(&self) -> ParsedDocumentView {
        ParsedDocumentView {
            content: self.content@,
            sections: self.sections.deep_view(),
            doc_type: self.doc_type@,
        }
    }
}

impl DeepView for ParsedDocument {
    type V = ParsedDocumentView;

    open spec fn deep_view(&self) -> ParsedDocumentView {
        self.view()
    }
}

/// A document parser: decides which extensions it accepts and cuts content
/// into sections.
pub trait DocParser: Sized {
    /// Which extensions this parser accepts.
    spec fn can_parse_spec(&self, extension: Seq<char>) -> bool;

    /// Whether parsing this content under this path succeeds.
    spec fn parse_ok(&self, content: Seq<char>, path: Seq<char>) -> bool;

    /// The document that a successful parse yields.
    spec fn parse_doc(&self, content: Seq<char>, path: Seq<char>) -> ParsedDocumentView;

    /// Check whether this parser handles the given file extension.
    fn can_parse(&self, extension: &str) -> (b: bool)
        ensures
            b == self.can_parse_spec(extension@),
    ;

    /// Parse document content into structured sections.
    fn parse(&self, content: &str, path: &str) -> (r: Result<ParsedDocument, RagmcpError>)
        ensures
            r is Ok <==> self.parse_ok(content@, path@),
            r is Ok ==> r->Ok_0@ == self.parse_doc(content@, path@),
    ;
}

/// One of the built-in parsers.
pub enum BuiltinParser {
    Xml(xml::XmlParser),
    Yaml(yaml::YamlParser),
    Json(json::JsonParser),
    Markdown(markdown::MarkdownParser),
}

/// Which extensions a built-in parser accepts.
pub open spec fn parser_can(p: BuiltinParser, ext: Seq<char>) -> bool {
    match p {
        BuiltinParser::Xml(q) => q.can_parse_spec(ext),
        BuiltinParser::Yaml(q) => q.can_parse_spec(ext),
        BuiltinParser::Json(q) => q.can_parse_spec(ext),
        BuiltinParser::Markdown(q) => q.can_parse_spec(ext),
    }
}

/// Whether a built-in parser succeeds on this content.
pub open spec fn parser_ok(p: BuiltinParser, content: Seq<char>, path: Seq<char>) -> bool {
    match p {
        BuiltinParser::Xml(q) => q.parse_ok(content, path),
        BuiltinParser::Yaml(q) => q.parse_ok(content, path),
        BuiltinParser::Json(q) => q.parse_ok(content, path),
        BuiltinParser::Markdown(q) => q.parse_ok(content, path),
    }
}

/// The document a successful built-in parse yields.
pub open spec fn parser_doc(p: BuiltinParser, content: Seq<char>, path: Seq<char>) -> ParsedDocumentView {
    match p {
        BuiltinParser::Xml(q) => q.parse_doc(content, path),
        BuiltinParser::Yaml(q) => q.parse_doc(content, path),
        BuiltinParser::Json(q) => q.parse_doc(content, path),
        BuiltinParser::Markdown(q) => q.parse_doc(content, path),
    }
}

impl BuiltinParser {
    /// Check whether this parser handles the given file extension.
    pub fn can_parse(&self, extension: &str) -> (b: bool)
        ensures
            b == parser_can(*self, extension@),
    {
        match self {
            BuiltinParser::Xml(q) => q.can_parse(extension),
            BuiltinParser::Yaml(q) => q.can_parse(extension),
            BuiltinParser::Json(q) => q.can_parse(extension),
            BuiltinParser::Markdown(q) => q.can_parse(extension),
        }
    }

    /// Parse document content with this parser.
    pub fn parse(&self, content: &str, path: &str) -> (r: Result<ParsedDocument, RagmcpError>)
        ensures
            r is Ok <==> parser_ok(*self, content@, path@),
            r is Ok ==> r->Ok_0@ == parser_doc(*self, content@, path@),
    {
        match self {
            BuiltinParser::Xml(q) => q.parse(content, path),
            BuiltinParser::Yaml(q) => q.parse(content, path),
            BuiltinParser::Json(q) => q.parse(content, path),
            BuiltinParser::Markdown(q) => q.parse(content, path),
        }
    }
}

/// The first registered parser accepting the extension, if any.
pub open spec fn find_parser_idx(ps: Seq<BuiltinParser>, ext: Seq<char>) -> Option<int>
    decreases ps.len(),
{
    if ps.len() == 0 {
        None
    } else if parser_can(ps[0], ext) {
        Some(0int)
    } else {
        match find_parser_idx(ps.drop_first(), ext) {
            Some(j) => Some(j + 1),
            None => None,
        }
    }
}

/// Selects a parser by lowercased extension; a failed structured parse
/// falls back to plain text so ingestion never stalls on a bad file.
pub struct ParserRegistry {
    pub parsers: Vec<BuiltinParser>,
}

impl ParserRegistry {
    /// The registry with all built-in parsers registered.
    pub fn new() -> (r: ParserRegistry)
        ensures
            r.parsers@.len() == 4,
            r.parsers@[0] is Xml,
            r.parsers@[1] is Yaml,
            r.parsers@[2] is Json,
            r.parsers@[3] is Markdown,
    {
        let mut registry = ParserRegistry { parsers: Vec::new() };
        registry.register(BuiltinParser::Xml(xml::XmlParser));
        registry.register(BuiltinParser::Yaml(yaml::YamlParser));
        registry.register(BuiltinParser::Json(json::JsonParser));
        registry.register(BuiltinParser::Markdown(markdown::MarkdownParser));
        registry
    }

    /// Register one more parser at the end of the lookup order.
    pub fn register(&mut self, parser: BuiltinParser)
        ensures
            final (self).parsers@ == old(self).parsers@.push(parser),
    {
        self.parsers.push(parser);
    }

    /// The first registered parser that handles the extension.
    pub fn find_parser(&self, extension: &str) -> (r: Option<&BuiltinParser>)
        ensures
            r is Some <==> find_parser_idx(self.parsers@, extension@) is Some,
            r is Some ==> *r->0 == self.parsers@[find_parser_idx(self.parsers@, extension@)->0],
    {
        let ghost ps = self.parsers@;
        let mut i: usize = 0;
        proof {
            assert(ps.subrange(0, ps.len() as int) =~= ps);
        }
        while i < self.parsers.len()
            invariant
                i <= ps.len(),
                ps == self.parsers@,
                find_parser_idx(ps, extension@) == (match find_parser_idx(
                    ps.subrange(i as int, ps.len() as int),
                    extension@,
                ) {
                    Some(j) => Some(j + i),
                    None => None::<int>,
                }),
            decreases ps.len() - i,
        {
            proof {
                let m = ps.subrange(i as int, ps.len() as int);
                assert(m[0] == ps[i as int]);
                assert(m.drop_first() =~= ps.subrange(i + 1, ps.len() as int));
            }
            if self.parsers[i].can_parse(extension) {
                return Some(&self.parsers[i]);
            }
            i = i + 1;
        }
        proof {
            assert(ps.subrange(ps.len() as int, ps.len() as int) =~= Seq::<BuiltinParser>::empty());
        }
        None
    }

    /// Parse content with the parser registered for the extension; when
    /// that parser fails, fall back to a plain-text parse. The only error
    /// is an extension no parser handles.
    pub fn parse(&self, content: &str, path: &str, extension: &str) -> (r: Result<
        ParsedDocument,
        RagmcpError,
    >)
        ensures
            r is Ok <==> find_parser_idx(self.parsers@, extension@) is Some,
            r is Err ==> r->Err_0 is Parse,
            r is Ok ==> ({
                let p = self.parsers@[find_parser_idx(self.parsers@, extension@)->0];
                r->Ok_0@ == if parser_ok(p, content@, path@) {
                    parser_doc(p, content@, path@)
                } else {
                    plaintext::plaintext_doc(content@, path@)
                }
            }),
    {
        let parser = match self.find_parser(extension) {
            Some(p) => p,
            None => {
                let mut msg = "No parser found for extension: ".to_owned();
                msg.append(extension);
                return Err(RagmcpError::Parse(msg));
            },
        };
        match parser.parse(content, path) {
            Ok(doc) => Ok(doc),
            Err(_) => {
                // a parse failure must not block ingestion: plain text stands in
                let fallback = plaintext::PlainTextParser;
                fallback.parse(content, path)
            },
        }
    }
}

} // verus!
