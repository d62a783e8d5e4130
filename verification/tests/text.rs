use parsesm::text::{find_last_slash, has_prefix, replace_js_str, strip_prefix_once};

#[test]
fn replace_simple() {
    assert_eq!(replace_js_str("/app.js"), "/app.js.map");
}

#[test]
fn replace_empty_and_short() {
    assert_eq!(replace_js_str(""), "");
    assert_eq!(replace_js_str(".j"), ".j");
    assert_eq!(replace_js_str("js"), "js");
}

#[test]
fn replace_exact_pattern() {
    assert_eq!(replace_js_str(".js"), ".js.map");
}

#[test]
fn replace_every_occurrence_left_to_right() {
    assert_eq!(replace_js_str("a.jsb.js"), "a.js.mapb.js.map");
    assert_eq!(replace_js_str(".js.js"), ".js.map.js.map");
}

#[test]
fn replace_does_not_rescan_output() {
    // The scan resumes after each replacement, so the `.js` inside the
    // emitted `.js.map` is never replaced again.
    assert_eq!(replace_js_str("x.json"), "x.js.mapon");
}

#[test]
fn prefix_tests() {
    assert!(has_prefix("https://h", "https://"));
    assert!(!has_prefix("https://h", "http://"));
    assert!(has_prefix("abc", ""));
    assert!(!has_prefix("ab", "abc"));
}

#[test]
fn strip_once_only() {
    assert_eq!(strip_prefix_once("webpack:///./a.js", "webpack:///"), "./a.js");
    assert_eq!(strip_prefix_once("plain", "webpack:///"), "plain");
    assert_eq!(strip_prefix_once("././a", "./"), "./a");
}

#[test]
fn last_slash_position() {
    assert_eq!(find_last_slash("a/b/c.js"), Some(3));
    assert_eq!(find_last_slash("/x"), Some(0));
    assert_eq!(find_last_slash("noslash"), None);
    assert_eq!(find_last_slash(""), None);
}
