use ragmcp::parsers::json::JsonParser;
use ragmcp::parsers::markdown::MarkdownParser;
use ragmcp::parsers::plaintext::PlainTextParser;
use ragmcp::parsers::xml::XmlParser;
use ragmcp::parsers::yaml::YamlParser;
use ragmcp::parsers::{DocParser, ParserRegistry};

#[test]
fn test_xml_parser_can_parse() {
    let parser = XmlParser;
    assert!(parser.can_parse("xml"));
    assert!(!parser.can_parse("yaml"));
}

#[test]
fn test_xml_parser_simple() {
    let parser = XmlParser;
    let content = r#"
            <agent>
                <Identity>Test Agent</Identity>
                <RoleStack>Role 1, Role 2</RoleStack>
            </agent>
        "#;

    let result = parser.parse(content, "test/agent/prompt.xml").unwrap();
    assert_eq!(result.doc_type, "agent_prompt");
    assert!(result.sections.len() >= 2);

    let identity_section = result.sections.iter().find(|s| s.header == "Identity").unwrap();
    assert!(identity_section.content.contains("Test Agent"));
}

#[test]
fn test_yaml_parser_can_parse() {
    let parser = YamlParser;
    assert!(parser.can_parse("yaml"));
    assert!(parser.can_parse("yml"));
    assert!(!parser.can_parse("json"));
}

#[test]
fn test_yaml_parser_simple() {
    let parser = YamlParser;
    let content = r#"
key1: value1
key2: value2
nested:
  subkey: subvalue
"#;

    let result = parser.parse(content, "test.yaml").unwrap();
    assert_eq!(result.doc_type, "yaml");
    assert!(result.sections.len() >= 2);

    let key1_section = result.sections.iter().find(|s| s.header == "key1").unwrap();
    assert!(key1_section.content.contains("value1"));
}

#[test]
fn test_json_parser_can_parse() {
    let parser = JsonParser;
    assert!(parser.can_parse("json"));
    assert!(!parser.can_parse("xml"));
}

#[test]
fn test_json_parser_schema() {
    let parser = JsonParser;
    let content = r#"
{
  "definitions": {
    "TestType": {
      "type": "object",
      "description": "A test type",
      "properties": {
        "name": {"type": "string"}
      }
    }
  }
}
"#;

    let result = parser.parse(content, "test.json").unwrap();
    assert_eq!(result.doc_type, "json_schema");
    assert!(result.sections.len() >= 1);

    let def_section = result.sections.iter().find(|s| s.header.contains("Definition")).unwrap();
    assert!(def_section.content.contains("TestType"));
}

#[test]
fn test_markdown_parser_can_parse() {
    let parser = MarkdownParser;
    assert!(parser.can_parse("md"));
    assert!(!parser.can_parse("txt"));
}

#[test]
fn test_markdown_parser_simple() {
    let parser = MarkdownParser;
    let content = r#"
# Title

This is content.

## Subsection

More content.
"#;

    let result = parser.parse(content, "test.md").unwrap();
    assert_eq!(result.doc_type, "markdown");
    assert!(result.sections.len() >= 2);

    let title_section = result.sections.iter().find(|s| s.header == "Title").unwrap();
    assert!(title_section.content.contains("This is content"));
}

#[test]
fn markdown_frontmatter_becomes_first_section() {
    let parser = MarkdownParser;
    let content = "---\ntitle: Doc\n---\n# Head\n\nBody text.\n";
    let result = parser.parse(content, "test.md").unwrap();
    assert_eq!(result.sections[0].header, "frontmatter");
    assert!(result.sections[0].content.contains("title: Doc"));
}

#[test]
fn test_parser_registry() {
    let registry = ParserRegistry::new();

    assert!(registry.find_parser("xml").is_some());
    assert!(registry.find_parser("yaml").is_some());
    assert!(registry.find_parser("yml").is_some());
    assert!(registry.find_parser("json").is_some());
    assert!(registry.find_parser("md").is_some());
    assert!(registry.find_parser("txt").is_none());
}

#[test]
fn test_parser_fallback_to_plaintext() {
    let registry = ParserRegistry::new();

    // Invalid JSON that should fail parsing
    let invalid_json = r#"{"key": "value", invalid}"#;

    // Should fall back to plain text instead of erroring
    let result = registry.parse(invalid_json, "test.json", "json");
    assert!(result.is_ok());

    let doc = result.unwrap();
    assert_eq!(doc.doc_type, "json_plaintext");
    assert_eq!(doc.sections.len(), 1);
    assert_eq!(doc.sections[0].header, "content");
    assert!(doc.sections[0].content.contains("invalid"));
}

#[test]
fn plaintext_parser_keeps_whole_file() {
    let parser = PlainTextParser;
    let doc = parser.parse("plain body", "notes.txt").unwrap();
    assert_eq!(doc.doc_type, "plaintext");
    assert_eq!(doc.sections.len(), 1);
    assert_eq!(doc.sections[0].header, "content");
    assert_eq!(doc.sections[0].content, "plain body");
    let doc2 = parser.parse("k: v", "conf.yml").unwrap();
    assert_eq!(doc2.doc_type, "yaml_plaintext");
}
