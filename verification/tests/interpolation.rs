//! Interpolation of configuration values against an environment.

use podcomp::interp::{interpolate, Env};

fn env_with(vars: &[(&str, Option<&str>)]) -> Env {
    let mut env = Env::new();
    for (name, value) in vars {
        if let Some(v) = value {
            env.set(String::from(*name), String::from(*v));
        }
    }
    env
}

#[test]
fn simple_named() {
    let env = env_with(&[("VAR", Some("woop"))]);
    let result = interpolate("$VAR", &env);
    assert_eq!(result.ok(), Some(String::from("woop")));
}

#[test]
fn simple_named_missing() {
    let env = env_with(&[("VAR", None)]);
    let result = interpolate("pre $VAR post", &env);
    assert_eq!(result.ok(), Some(String::from("pre  post")));
}

#[test]
fn braced_named() {
    let env = env_with(&[("VAR", Some("woop"))]);
    let result = interpolate("${VAR}", &env);
    assert_eq!(result.ok(), Some(String::from("woop")));
}

#[test]
fn braced_named_text() {
    let env = env_with(&[("VAR", Some("woop"))]);
    let result = interpolate("pre ${VAR} post", &env);
    assert_eq!(result.ok(), Some(String::from("pre woop post")));
}

#[test]
fn default_named() {
    let env = env_with(&[("VAR", None)]);
    let result = interpolate("${VAR-default}", &env);
    assert_eq!(result.ok(), Some(String::from("default")));
}

#[test]
fn no_default_named() {
    let env = env_with(&[("VAR", Some("woop"))]);
    let result = interpolate("${VAR-default}", &env);
    assert_eq!(result.ok(), Some(String::from("woop")));
}

#[test]
fn default_pattern() {
    let env = env_with(&[("DEF", Some("woop"))]);
    let result = interpolate("${VAR-$DEF}", &env);
    assert_eq!(result.ok(), Some(String::from("woop")));
}

#[test]
fn default_named_no_empty() {
    let env = env_with(&[("VAR", Some(""))]);
    let result = interpolate("${VAR:-default}", &env);
    assert_eq!(result.ok(), Some(String::from("default")));
}

#[test]
fn no_default_named_no_empty() {
    let env = env_with(&[("VAR", Some("woop"))]);
    let result = interpolate("${VAR:-default}", &env);
    assert_eq!(result.ok(), Some(String::from("woop")));
}

#[test]
fn default_pattern_no_empty() {
    let env = env_with(&[("VAR", Some("")), ("DEF", Some("woop"))]);
    let result = interpolate("${VAR:-$DEF}", &env);
    assert_eq!(result.ok(), Some(String::from("woop")));
}

#[test]
fn error_named() {
    let env = env_with(&[("VAR", None)]);
    let result = interpolate("${VAR?msg}", &env);
    assert_eq!(
        result.err().map(|err| err.message()),
        Some(String::from("Required variable \"VAR\" is missing a value: msg"))
    );
}

#[test]
fn error_named_no_empty() {
    let env = env_with(&[("VAR", Some(""))]);
    let result = interpolate("${VAR:?msg}", &env);
    assert_eq!(
        result.err().map(|err| err.message()),
        Some(String::from("Required variable \"VAR\" is missing a value: msg"))
    );
}

#[test]
fn error_no_message() {
    let env = env_with(&[("VAR", None)]);
    let result = interpolate("${VAR?}", &env);
    assert_eq!(
        result.err().map(|err| err.message()),
        Some(String::from("Required variable \"VAR\" is missing a value"))
    );
}

#[test]
fn error_no_message_no_empty() {
    let env = env_with(&[("VAR", Some(""))]);
    let result = interpolate("${VAR:?}", &env);
    assert_eq!(
        result.err().map(|err| err.message()),
        Some(String::from("Required variable \"VAR\" is missing a value"))
    );
}

#[test]
fn replacement_named() {
    let env = env_with(&[("VAR", Some(""))]);
    let result = interpolate("${VAR+replacement}", &env);
    assert_eq!(result.ok(), Some(String::from("replacement")));
}

#[test]
fn no_replacement_named() {
    let env = env_with(&[("VAR", None)]);
    let result = interpolate("${VAR+replacement}", &env);
    assert_eq!(result.ok(), Some(String::new()));
}

#[test]
fn replacement_named_no_empty() {
    let env = env_with(&[("VAR", Some("woop"))]);
    let result = interpolate("${VAR:+replacement}", &env);
    assert_eq!(result.ok(), Some(String::from("replacement")));
}

#[test]
fn no_replacement_named_no_empty() {
    let env = env_with(&[("VAR", Some(""))]);
    let result = interpolate("${VAR:+replacement}", &env);
    assert_eq!(result.ok(), Some(String::new()));
}

#[test]
fn escaped_dollar() {
    let env = env_with(&[("VAR", Some("woop"))]);
    let result = interpolate("a$$VAR b", &env);
    assert_eq!(result.ok(), Some(String::from("a$VAR b")));
}

#[test]
fn nested_default() {
    let env = env_with(&[("INNER", Some("deep"))]);
    let result = interpolate("${VAR-${INNER-flat}}", &env);
    assert_eq!(result.ok(), Some(String::from("deep")));
}

#[test]
fn unterminated_brace_is_text() {
    let env = env_with(&[("VAR", Some("woop"))]);
    let result = interpolate("${VAR", &env);
    assert_eq!(result.ok(), Some(String::from("${VAR")));
}

#[test]
fn bad_substitution_is_rejected() {
    let env = env_with(&[]);
    let result = interpolate("${}", &env);
    assert_eq!(
        result.err().map(|err| err.message()),
        Some(String::from("invalid variable substitution syntax"))
    );
}

#[test]
fn lone_dollar_is_text() {
    let env = env_with(&[]);
    let result = interpolate("a$ b$", &env);
    assert_eq!(result.ok(), Some(String::from("a$ b$")));
}

#[test]
fn empty_value() {
    let env = env_with(&[]);
    let result = interpolate("", &env);
    assert_eq!(result.ok(), Some(String::new()));
}

#[test]
fn error_message_from_nested_default() {
    let env = env_with(&[("FALLBACK", Some("use this"))]);
    let result = interpolate("${VAR?${FALLBACK}}", &env);
    assert_eq!(
        result.err().map(|err| err.message()),
        Some(String::from("Required variable \"VAR\" is missing a value: use this"))
    );
}

#[test]
fn bad_separator_is_rejected() {
    let env = env_with(&[("VAR", Some("woop"))]);
    let result = interpolate("${VAR:x}", &env);
    assert_eq!(
        result.err().map(|err| err.message()),
        Some(String::from("invalid variable substitution syntax"))
    );
}

#[test]
fn unbalanced_nested_brace_is_text() {
    let env = env_with(&[("X", Some("ok"))]);
    let result = interpolate("${VAR-${X}", &env);
    assert_eq!(result.ok(), Some(String::from("${VAR-ok")));
}
