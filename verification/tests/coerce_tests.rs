//! Scalar coercion: integer and float syntax, booleans, and the rule that
//! only changed text is coerced.

use unconfig::{coerce, expand, is_float, parse_u64, EnvMap, Node};

fn env_of(pairs: &[(&str, &str)]) -> EnvMap {
    let mut env = EnvMap::new();
    for (k, v) in pairs {
        env.push((*k).to_string(), (*v).to_string());
    }
    env
}

#[test]
fn parse_u64_accepts_digits_and_plus() {
    assert_eq!(parse_u64("123"), Some(123));
    assert_eq!(parse_u64("+7"), Some(7));
    assert_eq!(parse_u64("0"), Some(0));
    assert_eq!(parse_u64("007"), Some(7));
    assert_eq!(parse_u64("18446744073709551615"), Some(u64::MAX));
}

#[test]
fn parse_u64_rejects_bad_text() {
    assert_eq!(parse_u64(""), None);
    assert_eq!(parse_u64("+"), None);
    assert_eq!(parse_u64("-5"), None);
    assert_eq!(parse_u64("12a"), None);
    assert_eq!(parse_u64("1.5"), None);
    assert_eq!(parse_u64("18446744073709551616"), None);
}

#[test]
fn float_syntax_accepted() {
    assert!(is_float("1.5"));
    assert!(is_float(".5"));
    assert!(is_float("5."));
    assert!(is_float("1e3"));
    assert!(is_float("1.2e-4"));
    assert!(is_float("-2.5E+10"));
    assert!(is_float("inf"));
    assert!(is_float("-Infinity"));
    assert!(is_float("NaN"));
    assert!(is_float("+.5"));
}

#[test]
fn float_syntax_rejected() {
    assert!(!is_float(""));
    assert!(!is_float("."));
    assert!(!is_float("e3"));
    assert!(!is_float("1e"));
    assert!(!is_float("1.2.3"));
    assert!(!is_float("\\5"));
    assert!(!is_float("five"));
    assert!(!is_float("1 "));
}

#[test]
fn unchanged_text_is_not_coerced() {
    assert_eq!(coerce("123", "123".to_string()), Node::Str("123".to_string()));
    assert_eq!(coerce("true", "true".to_string()), Node::Str("true".to_string()));
    let env = env_of(&[]);
    let leaf = Node::Str("123".to_string());
    assert_eq!(expand(&leaf, &env), Node::Str("123".to_string()));
}

#[test]
fn changed_text_coerces_in_order() {
    assert_eq!(coerce("${V}", "5".to_string()), Node::UInt(5));
    assert_eq!(coerce("${V}", "1.5".to_string()), Node::Float("1.5".to_string()));
    assert_eq!(coerce("${V}", "true".to_string()), Node::Bool(true));
    assert_eq!(coerce("${V}", "false".to_string()), Node::Bool(false));
    assert_eq!(coerce("${V}", "hello".to_string()), Node::Str("hello".to_string()));
}

#[test]
fn substituted_number_becomes_number_but_backslashed_stays_string() {
    let env = env_of(&[("VAR", "5")]);
    let plain = Node::Str("${VAR}".to_string());
    assert_eq!(expand(&plain, &env), Node::UInt(5));
    let escaped = Node::Str("\\\\${VAR}".to_string());
    assert_eq!(expand(&escaped, &env), Node::Str("\\5".to_string()));
}
