use csstree::parser::parser::{Atrule, Config, Lexer, Property, SyntaxDescriptor};
use csstree::parser::{comment_value, TokenStream};
use csstree::syntax::config::parser::{
    ParseContext, ParserConfig, ParserConfigContainer, ParserConfigFeatures, ParserConfigSupports,
};
use csstree::syntax::AtContainerParser;
use csstree::utils::str_map::StrMap;
use csstree::walker::{Config as WalkerConfig, FieldType, Node, NodeType, WalkOptions, Walker};

fn descriptor(text: &str) -> SyntaxDescriptor {
    SyntaxDescriptor { syntax: Some(text.to_string()), match_graph: None }
}

#[test]
fn default_lexer_dump() {
    let lexer = Lexer::new(None);
    let dump = lexer.dump(false, false);
    assert!(!dump.generic);
    assert_eq!(dump.css_wide_keywords, vec!["inherit".to_string(), "initial".to_string(), "unset".to_string()]);
    assert_eq!(dump.units.len(), 0);
    assert_eq!(dump.types.len(), 0);
    assert_eq!(dump.properties.len(), 0);
    assert_eq!(dump.atrules.len(), 0);
    assert!(lexer.validate().is_none());
}

#[test]
fn configured_lexer_dump() {
    let mut units: StrMap<Vec<String>> = StrMap::new();
    units.insert("length".to_string(), vec!["px".to_string(), "em".to_string()]);
    let mut types: StrMap<SyntaxDescriptor> = StrMap::new();
    types.insert("length-percentage".to_string(), descriptor("<length> | <percentage>"));
    let config = Config {
        css_wide_keywords: Some(vec!["revert".to_string()]),
        units: Some(units),
        types: Some(types),
        generic: true,
        atrules: None,
        properties: None,
    };
    let mut lexer = Lexer::new(Some(config));
    lexer.add_property("width".to_string(), Property { name: "width".to_string(), syntax: Some(descriptor("auto")) });
    lexer.add_atrule(
        "media".to_string(),
        Atrule { name: "media".to_string(), prelude: None, descriptors: None },
    );
    lexer.add_type("angle".to_string(), descriptor("<number>deg"));
    let dump = lexer.dump(true, true);
    assert!(dump.generic);
    assert_eq!(dump.css_wide_keywords, vec!["revert".to_string()]);
    assert_eq!(dump.units.get("length"), Some(&vec!["px".to_string(), "em".to_string()]));
    assert_eq!(dump.types.get("length-percentage").map(|s| s.as_str()), Some("syntax"));
    assert_eq!(dump.types.get("angle").map(|s| s.as_str()), Some("syntax"));
    assert_eq!(dump.properties.get("width").map(|s| s.as_str()), Some("syntax"));
    assert_eq!(dump.atrules.get("media").map(|s| s.as_str()), Some("atrule"));
    assert!(lexer.validate().is_none());
}

#[test]
fn comment_values() {
    assert_eq!(comment_value("/* hi */", 0, 8), " hi ");
    assert_eq!(comment_value("/* open", 0, 7), " open");
    assert_eq!(comment_value("a/*x*/b", 1, 6), "x");
    assert_eq!(comment_value("/**/", 0, 4), "");
}

#[test]
fn parser_token_stream_is_empty() {
    let mut stream = TokenStream::new();
    stream.set_source("a { b: c }");
    let mut calls = 0;
    stream.for_each_token(|_token| calls += 1);
    assert_eq!(calls, 0);
    assert!(stream.eof());
}

#[test]
fn at_container_prelude_runs() {
    AtContainerParser::prelude();
    let _parser = AtContainerParser {};
}

#[test]
fn parser_config_holds_its_tests() {
    let config = ParserConfig {
        parse_context: ParseContext {
            default: 0,
            stylesheet: 1,
            atrule: 3,
            media_query_list: 0,
            media_query: 0,
            rule: 0,
            selector_list: 0,
            selector: 0,
            declaration_list: 0,
            declaration: 0,
            value: 0,
        },
        features: ParserConfigFeatures {
            supports: ParserConfigSupports { selector: |s: &str| s.starts_with('.') },
            container: ParserConfigContainer { style: |s: &str| !s.is_empty() },
        },
    };
    assert_eq!(config.parse_context.atrule, 3);
    assert!((config.features.supports.selector)(".a"));
    assert!(!(config.features.container.style)(""));
}

fn walker_config() -> WalkerConfig {
    let mut rule: StrMap<Vec<FieldType>> = StrMap::new();
    rule.insert("prelude".to_string(), vec![FieldType::Node]);
    rule.insert("block".to_string(), vec![FieldType::Node, FieldType::List]);
    let mut node: StrMap<NodeType> = StrMap::new();
    node.insert("Rule".to_string(), NodeType { structure: Some(rule) });
    node.insert("Block".to_string(), NodeType { structure: Some(StrMap::new()) });
    WalkerConfig { node }
}

#[test]
fn walker_visits_known_types() {
    let walker = Walker::new(walker_config());
    let root = Node { node_type: "Rule".to_string() };
    walker.walk(&root, None, |_node, _item, _list| None);
    walker.walk(&root, Some(WalkOptions { reverse: false, visit: Some("Rule".to_string()) }), |_n, _i, _l| None);
    walker.walk(&root, Some(WalkOptions { reverse: true, visit: Some("Block".to_string()) }), |_n, _i, _l| None);
    walker.walk(&root, Some(WalkOptions { reverse: true, visit: None }), |_n, _i, _l| None);
}
