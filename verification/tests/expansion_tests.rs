use dotenvx::expand_variables;
use dotenvx::EnvMap;

fn make_env(pairs: &[(&str, &str)]) -> EnvMap {
    let mut env = EnvMap::new();
    for (k, v) in pairs {
        env.insert(k.to_string(), v.to_string());
    }
    env
}

#[test]
fn test_simple_expansion() {
    let env = make_env(&[("USER", "alice")]);
    let result = expand_variables("Hello $USER", &env).unwrap();
    assert_eq!(result, "Hello alice");
}

#[test]
fn test_braces_expansion() {
    let env = make_env(&[("USER", "alice")]);
    let result = expand_variables("Hello ${USER}", &env).unwrap();
    assert_eq!(result, "Hello alice");
}

#[test]
fn test_default_value() {
    let env = EnvMap::new();
    let result = expand_variables("${USER:-guest}", &env).unwrap();
    assert_eq!(result, "guest");

    let env = make_env(&[("USER", "alice")]);
    let result = expand_variables("${USER:-guest}", &env).unwrap();
    assert_eq!(result, "alice");
}

#[test]
fn test_default_value_empty() {
    let env = make_env(&[("USER", "")]);
    let result = expand_variables("${USER:-guest}", &env).unwrap();
    assert_eq!(result, "guest");
}

#[test]
fn test_alternate_value() {
    let env = EnvMap::new();
    let result = expand_variables("${USER:+present}", &env).unwrap();
    assert_eq!(result, "");

    let env = make_env(&[("USER", "alice")]);
    let result = expand_variables("${USER:+present}", &env).unwrap();
    assert_eq!(result, "present");
}

#[test]
fn test_missing_variable() {
    let env = EnvMap::new();
    let result = expand_variables("Hello $USER", &env).unwrap();
    assert_eq!(result, "Hello ");
}

#[test]
fn test_multiple_expansions() {
    let env = make_env(&[("HOST", "localhost"), ("PORT", "3000")]);
    let result = expand_variables("http://$HOST:$PORT", &env).unwrap();
    assert_eq!(result, "http://localhost:3000");
}

#[test]
fn test_nested_expansion() {
    let env = make_env(&[("USER", "alice"), ("SUFFIX", "123")]);
    let result = expand_variables("${USER:-guest}_${SUFFIX:-000}", &env).unwrap();
    assert_eq!(result, "alice_123");
}

#[test]
fn test_no_expansion_needed() {
    let env = EnvMap::new();
    let result = expand_variables("plain text", &env).unwrap();
    assert_eq!(result, "plain text");
}

#[test]
fn test_unrecognized_braces_left_untouched() {
    let env = make_env(&[("A", "x")]);
    let result = expand_variables("${1BAD} ${A}", &env).unwrap();
    assert_eq!(result, "${1BAD} x");
}

#[test]
fn test_unknown_operator_left_untouched() {
    let env = make_env(&[("A", "x")]);
    let result = expand_variables("${A:x} ${A-y}", &env).unwrap();
    assert_eq!(result, "${A:x} ${A-y}");
}

#[test]
fn test_envmap_last_write_wins() {
    let mut env = EnvMap::new();
    env.insert("K".to_string(), "a".to_string());
    env.insert("K".to_string(), "b".to_string());
    assert_eq!(env.len(), 1);
    assert_eq!(env.get("K").unwrap(), "b");
    env.remove("K");
    assert!(env.get("K").is_none());
}
