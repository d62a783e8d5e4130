use parsesm::discover::find_scripts;

#[test]
fn relative_script_rewritten() {
    let html = r#"<html><head><script src="/app.js"></script></head><body></body></html>"#;
    let urls = find_scripts("https://example.test", html);
    assert_eq!(urls, vec!["https://example.test/app.js.map".to_string()]);
}

#[test]
fn cross_origin_script_ignored() {
    let html = r#"<html><body><script src="https://cdn.other/lib.js"></script></body></html>"#;
    let urls = find_scripts("https://example.test", html);
    assert!(urls.is_empty());
    for u in &urls {
        assert!(!u.contains("cdn.other"));
    }
}

#[test]
fn inline_and_srcless_scripts_ignored() {
    let html = r#"<html><body><script>var x = 1;</script><script type="module"></script></body></html>"#;
    let urls = find_scripts("https://example.test", html);
    assert!(urls.is_empty());
}

#[test]
fn query_string_rewritten_textually() {
    let html = r#"<html><body><script src="/x.js?v=1"></script></body></html>"#;
    let urls = find_scripts("https://example.test", html);
    assert_eq!(urls, vec!["https://example.test/x.js.map?v=1".to_string()]);
}

#[test]
fn every_occurrence_replaced() {
    let html = r#"<html><body><script src="/foo.js?x.js=1"></script></body></html>"#;
    let urls = find_scripts("https://example.test", html);
    assert_eq!(
        urls,
        vec!["https://example.test/foo.js.map?x.js.map=1".to_string()]
    );
}

#[test]
fn non_js_path_still_attempted() {
    let html = r#"<html><body><script src="/bundle.css"></script></body></html>"#;
    let urls = find_scripts("https://example.test", html);
    assert_eq!(urls, vec!["https://example.test/bundle.css".to_string()]);
}

#[test]
fn document_order_and_duplicates_kept() {
    let html = r#"<html><body><script src="/a.js"></script><script src="https://cdn.other/skip.js"></script><script src="/b.js"></script><script src="/a.js"></script></body></html>"#;
    let urls = find_scripts("https://example.test", html);
    assert_eq!(
        urls,
        vec![
            "https://example.test/a.js.map".to_string(),
            "https://example.test/b.js.map".to_string(),
            "https://example.test/a.js.map".to_string(),
        ]
    );
}

#[test]
fn protocol_relative_script_ignored() {
    let html = r#"<html><body><script src="//cdn.other/lib.js"></script></body></html>"#;
    let urls = find_scripts("https://example.test", html);
    assert!(urls.is_empty());
}
