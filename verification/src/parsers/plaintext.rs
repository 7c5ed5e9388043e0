//! The plain-text fallback parser: the whole file is one section.

use crate::error::RagmcpError;
use crate::parsers::{DocParser, ParsedDocument, ParsedDocumentView, Section, SectionView};
use crate::text::{chars_of, ends_with_lit, spec_ends_with};
use vstd::prelude::*;

verus! {

/// Treats the entire file as a single section. Used directly for plain
/// files and as the fallback when a structured parser fails.
pub struct PlainTextParser;

/// The document type recorded by the plain-text parse, derived from the
/// path's extension.
pub open spec fn plaintext_doc_type(path: Seq<char>) -> Seq<char> {
    if spec_ends_with(path, ".yaml"@) || spec_ends_with(path, ".yml"@) {
        "yaml_plaintext"@
    } else if spec_ends_with(path, ".json"@) {
        "json_plaintext"@
    } else if spec_ends_with(path, ".xml"@) {
        "xml_plaintext"@
    } else {
        "plaintext"@
    }
}

/// The document that a plain-text parse yields: one section titled
/// `content` holding the whole text.
pub open spec fn plaintext_doc(content: Seq<char>, path: Seq<char>) -> ParsedDocumentView {
    ParsedDocumentView {
        content: content,
        sections: seq![
            SectionView { header: "content"@, content: content, section_type: None },
        ],
        doc_type: plaintext_doc_type(path),
    }
}

impl DocParser for PlainTextParser {
    open spec fn can_parse_spec(&self, extension: Seq<char>) -> bool {
        true
    }

    open spec fn parse_ok(&self, content: Seq<char>, path: Seq<char>) -> bool {
        true
    }

    open spec fn parse_doc(&self, content: Seq<char>, path: Seq<char>) -> ParsedDocumentView {
        plaintext_doc(content, path)
    }

    fn can_parse(&self, _extension: &str) -> (b: bool) {
        true
    }

    fn parse(&self, content: &str, path: &str) -> (r: Result<ParsedDocument, RagmcpError>) {
        let pv = chars_of(path);
        let doc_type: String = if ends_with_lit(&pv, ".yaml") || ends_with_lit(&pv, ".yml") {
            "yaml_plaintext".to_owned()
        } else if ends_with_lit(&pv, ".json") {
            "json_plaintext".to_owned()
        } else if ends_with_lit(&pv, ".xml") {
            "xml_plaintext".to_owned()
        } else {
            "plaintext".to_owned()
        };
        let sections = vec![
            Section {
                header: "content".to_owned(),
                content: content.to_owned(),
                section_type: None,
            },
        ];
        let doc = ParsedDocument { content: content.to_owned(), sections, doc_type };
        proof {
            assert(doc@.sections =~= plaintext_doc(content@, path@).sections);
        }
        Ok(doc)
    }
}

} // verus!
