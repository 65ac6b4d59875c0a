//! The document loader: parsing, expansion over whole trees, positional
//! overrides, re-rendering, and the line-context error report.

use unconfig::{
    deserialize_error_report, format_usize, resolve_document, split_lines, ConfigError, EnvMap,
    Node,
};

fn env_of(pairs: &[(&str, &str)]) -> EnvMap {
    let mut env = EnvMap::new();
    for (k, v) in pairs {
        env.push((*k).to_string(), (*v).to_string());
    }
    env
}

fn mapping_get<'a>(node: &'a Node, key: &str) -> &'a Node {
    match node {
        Node::Mapping(pairs) => {
            for (k, v) in pairs {
                if k == key {
                    return v;
                }
            }
            panic!("key {key} not found");
        },
        _ => panic!("not a mapping"),
    }
}

#[test]
fn literal_document_parses_to_literal_values() {
    let doc = "name: app\ncount: 7\nratio: -3\nflag: true\nitems:\n  - 1\n  - two\n";
    let resolved = resolve_document(doc, &env_of(&[])).unwrap();
    assert_eq!(mapping_get(&resolved.tree, "name"), &Node::Str("app".to_string()));
    assert_eq!(mapping_get(&resolved.tree, "count"), &Node::UInt(7));
    assert_eq!(mapping_get(&resolved.tree, "ratio"), &Node::Int(-3));
    assert_eq!(mapping_get(&resolved.tree, "flag"), &Node::Bool(true));
    match mapping_get(&resolved.tree, "items") {
        Node::Sequence(items) => {
            assert_eq!(items[0], Node::UInt(1));
            assert_eq!(items[1], Node::Str("two".to_string()));
        },
        other => panic!("items is {other:?}"),
    }
}

#[test]
fn round_trip_without_interpolations_is_stable() {
    let doc = "name: app\ncount: 7\nflag: true\n";
    let env = env_of(&[("UNRELATED", "x")]);
    let once = resolve_document(doc, &env).unwrap();
    let twice = resolve_document(once.text.as_str(), &env).unwrap();
    assert_eq!(once.tree, twice.tree);
}

#[test]
fn markers_substitute_inside_nested_documents() {
    let doc = "server:\n  host: \"${HOST:localhost}\"\n  port: \"${PORT}\"\n";
    let env = env_of(&[("PORT", "8080")]);
    let resolved = resolve_document(doc, &env).unwrap();
    let server = mapping_get(&resolved.tree, "server");
    assert_eq!(mapping_get(server, "host"), &Node::Str("localhost".to_string()));
    assert_eq!(mapping_get(server, "port"), &Node::UInt(8080));
}

#[test]
fn positional_override_beats_marker_substitution() {
    let doc = "logger:\n  level: \"${LEVEL:info}\"\n";
    let env = env_of(&[("LOGGER_LEVEL", "warn"), ("LEVEL", "debug")]);
    let resolved = resolve_document(doc, &env).unwrap();
    let logger = mapping_get(&resolved.tree, "logger");
    assert_eq!(mapping_get(logger, "level"), &Node::Str("warn".to_string()));
}

#[test]
fn positional_override_value_is_coerced() {
    let doc = "limits:\n  max: placeholder\n";
    let env = env_of(&[("LIMITS_MAX", "250")]);
    let resolved = resolve_document(doc, &env).unwrap();
    let limits = mapping_get(&resolved.tree, "limits");
    assert_eq!(mapping_get(limits, "max"), &Node::UInt(250));
}

#[test]
fn sequence_children_keep_the_parent_path() {
    let doc = "hosts:\n  - \"${H1:a}\"\n  - plain\n";
    let env = env_of(&[("HOSTS", "override")]);
    let resolved = resolve_document(doc, &env).unwrap();
    match mapping_get(&resolved.tree, "hosts") {
        Node::Sequence(items) => {
            assert_eq!(items[0], Node::Str("override".to_string()));
            assert_eq!(items[1], Node::Str("override".to_string()));
        },
        other => panic!("hosts is {other:?}"),
    }
    let quiet = resolve_document(doc, &env_of(&[])).unwrap();
    match mapping_get(&quiet.tree, "hosts") {
        Node::Sequence(items) => {
            assert_eq!(items[0], Node::Str("a".to_string()));
            assert_eq!(items[1], Node::Str("plain".to_string()));
        },
        other => panic!("hosts is {other:?}"),
    }
}

#[test]
fn positional_override_name_joins_nested_upper_cased_keys() {
    let doc = "outer:\n  myInner:\n    value: x\n";
    let env = env_of(&[("OUTER_MYINNER_VALUE", "deep")]);
    let resolved = resolve_document(doc, &env).unwrap();
    let outer = mapping_get(&resolved.tree, "outer");
    let inner = mapping_get(outer, "myInner");
    assert_eq!(mapping_get(inner, "value"), &Node::Str("deep".to_string()));
}

#[test]
fn float_scalars_parse_and_round_trip() {
    let doc = "ratio: 1.5\n";
    let resolved = resolve_document(doc, &env_of(&[])).unwrap();
    assert_eq!(mapping_get(&resolved.tree, "ratio"), &Node::Float("1.5".to_string()));
    let again = resolve_document(resolved.text.as_str(), &env_of(&[])).unwrap();
    assert_eq!(resolved.tree, again.tree);
}

#[test]
fn empty_document_resolves_to_null() {
    let resolved = resolve_document("", &env_of(&[])).unwrap();
    assert_eq!(resolved.tree, Node::Null);
}

#[test]
fn duplicate_keys_are_a_parse_error() {
    let r = resolve_document("a: 1\na: 2\n", &env_of(&[]));
    assert!(matches!(r, Err(ConfigError::Parse(_))));
}

#[test]
fn non_string_keys_collide_and_are_refused() {
    let r = resolve_document("1: a\n2: b\n", &env_of(&[]));
    assert_eq!(r.err(), Some(ConfigError::Keys));
}

#[test]
fn invalid_syntax_is_a_parse_error() {
    let r = resolve_document("a: [unclosed\n - b:\n", &env_of(&[]));
    assert!(matches!(r, Err(ConfigError::Parse(_))));
}

#[test]
fn split_lines_matches_document_lines() {
    assert_eq!(split_lines("a\nb\n"), vec!["a".to_string(), "b".to_string()]);
    assert_eq!(split_lines("a\nb"), vec!["a".to_string(), "b".to_string()]);
    assert_eq!(split_lines(""), Vec::<String>::new());
    assert_eq!(split_lines("\n"), vec!["".to_string()]);
}

#[test]
fn decimal_rendering() {
    assert_eq!(format_usize(0), "0");
    assert_eq!(format_usize(7), "7");
    assert_eq!(format_usize(12), "12");
    assert_eq!(format_usize(123456), "123456");
}

#[test]
fn report_window_spans_five_lines_each_side_with_the_line_marked() {
    let mut doc = String::new();
    for i in 1..=20 {
        doc.push_str(&format!("line{i}\n"));
    }
    let report = deserialize_error_report("bad type", &doc, 12).unwrap();
    assert!(report.starts_with("bad type\n"));
    assert!(report.contains("set DEBUG_CONFIG=1"));
    assert!(!report.contains("line6\n"));
    assert!(report.contains("  7: line7\n"));
    assert!(report.contains(" 11: line11\n"));
    assert!(report.contains("\u{1b}[31;1m 12: line12\u{1b}[0m\n"));
    assert!(report.contains(" 17: line17\n"));
    assert!(!report.contains("line18\n"));
}

#[test]
fn report_window_clamps_to_document_bounds() {
    let doc = "a\nb\nc\n";
    let top = deserialize_error_report("oops", doc, 1).unwrap();
    assert!(top.contains("\u{1b}[31;1m  1: a\u{1b}[0m\n"));
    assert!(top.contains("  3: c\n"));
    let bottom = deserialize_error_report("oops", doc, 3).unwrap();
    assert!(bottom.contains("  1: a\n"));
    assert!(bottom.contains("\u{1b}[31;1m  3: c\u{1b}[0m\n"));
}

#[test]
fn report_outside_the_document_is_refused() {
    let doc = "a\nb\n";
    assert!(deserialize_error_report("oops", doc, 0).is_none());
    assert!(deserialize_error_report("oops", doc, 3).is_none());
}
