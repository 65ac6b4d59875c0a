//! The substitution engine on plain strings: markers, escapes, fallbacks.

use unconfig::{substitute, EnvMap};

fn env_of(pairs: &[(&str, &str)]) -> EnvMap {
    let mut env = EnvMap::new();
    for (k, v) in pairs {
        env.push((*k).to_string(), (*v).to_string());
    }
    env
}

#[test]
fn no_marker_is_identity() {
    let env = env_of(&[("HOME", "/u"), ("X", "1")]);
    assert_eq!(substitute("plain text, no markers", &env), "plain text, no markers");
    assert_eq!(substitute("", &env), "");
    assert_eq!(substitute("half $ marker { only", &env), "half $ marker { only");
}

#[test]
fn simple_marker_substitutes() {
    let env = env_of(&[("HOME", "/u")]);
    assert_eq!(substitute("/mypath/${HOME}/x", &env), "/mypath//u/x");
}

#[test]
fn several_markers_in_one_pass() {
    let env = env_of(&[("APP_NAME", "demo"), ("APP_VERSION", "2")]);
    assert_eq!(
        substitute("My name is ${APP_NAME}. I have version ${APP_VERSION}", &env),
        "My name is demo. I have version 2"
    );
}

#[test]
fn single_backslash_keeps_marker_literal() {
    let env = env_of(&[("NOTVAR", "should not appear")]);
    assert_eq!(substitute("a\\${NOTVAR}b", &env), "a${NOTVAR}b");
}

#[test]
fn double_backslash_substitutes_after_one_backslash() {
    let env = env_of(&[("VAR", "5")]);
    assert_eq!(substitute("\\\\${VAR}", &env), "\\5");
}

#[test]
fn missing_with_fallback_takes_fallback() {
    let env = env_of(&[]);
    assert_eq!(substitute("${MISSING:default}", &env), "default");
}

#[test]
fn set_with_fallback_takes_value() {
    let env = env_of(&[("SET", "value")]);
    assert_eq!(substitute("${SET:default}", &env), "value");
}

#[test]
fn missing_without_fallback_becomes_empty() {
    let env = env_of(&[]);
    assert_eq!(substitute("${MISSING}", &env), "");
    assert_eq!(substitute("a${MISSING}b", &env), "ab");
}

#[test]
fn unclosed_marker_stays_literal() {
    let env = env_of(&[("X", "1")]);
    assert_eq!(substitute("${NOCLOSE", &env), "${NOCLOSE");
    assert_eq!(substitute("pre ${NOCLOSE tail", &env), "pre ${NOCLOSE tail");
}

#[test]
fn escaped_then_real_marker() {
    let env = env_of(&[("B", "two")]);
    assert_eq!(substitute("\\${A} and ${B}", &env), "${A} and two");
}

#[test]
fn empty_name_with_colon_takes_fallback() {
    let env = env_of(&[]);
    assert_eq!(substitute("${:fb}", &env), "fb");
}

#[test]
fn replaced_text_is_not_scanned_again() {
    let env = env_of(&[("A", "${B}"), ("B", "x")]);
    assert_eq!(substitute("${A}", &env), "${B}");
}

#[test]
fn replacement_ending_in_backslash_escapes_the_next_marker() {
    let env = env_of(&[("E", "x\\"), ("F", "y")]);
    assert_eq!(substitute("${E}${F}", &env), "x${F}");
}

#[test]
fn first_binding_wins_in_env() {
    let mut env = EnvMap::new();
    env.push("K".to_string(), "first".to_string());
    env.push("K".to_string(), "second".to_string());
    assert_eq!(substitute("${K}", &env), "first");
}
