use parsesm::place::{plan_write, PathError};

#[test]
fn https_scheme_stripped_for_host_key() {
    let cmd = plan_write("https://example.test", "webpack:///./src/a.js", "A").unwrap();
    assert_eq!(cmd.dir, "./out/example.test/src");
    assert_eq!(cmd.path, "./out/example.test/src/a.js");
    assert_eq!(cmd.contents, "A");
}

#[test]
fn http_scheme_stripped_for_host_key() {
    let cmd = plan_write("http://example.test", "webpack:///./x.js", "X").unwrap();
    assert_eq!(cmd.dir, "./out/example.test");
    assert_eq!(cmd.path, "./out/example.test/x.js");
}

#[test]
fn port_and_path_preserved_in_host_key() {
    let cmd = plan_write("https://example.test:8443", "webpack:///./x.js", "X").unwrap();
    assert_eq!(cmd.path, "./out/example.test:8443/x.js");
}

#[test]
fn other_scheme_flows_through() {
    let cmd = plan_write("ftp://example.test", "webpack:///./x.js", "X").unwrap();
    assert_eq!(cmd.path, "./out/ftp://example.test/x.js");
}

#[test]
fn single_scheme_trim_only() {
    let cmd = plan_write("http://http://x", "webpack:///./a.js", "A").unwrap();
    assert_eq!(cmd.path, "./out/http://x/a.js");
}

#[test]
fn nested_module_path_kept() {
    let cmd = plan_write("https://example.test", "webpack:///./src/sub/b.js", "B").unwrap();
    assert_eq!(cmd.dir, "./out/example.test/src/sub");
    assert_eq!(cmd.path, "./out/example.test/src/sub/b.js");
}

#[test]
fn plain_path_without_prefixes() {
    let cmd = plan_write("https://example.test", "lib/util.js", "U").unwrap();
    assert_eq!(cmd.dir, "./out/example.test/lib");
    assert_eq!(cmd.path, "./out/example.test/lib/util.js");
}

#[test]
fn leading_slash_gives_empty_dir() {
    let cmd = plan_write("https://example.test", "/abs.js", "V").unwrap();
    assert_eq!(cmd.dir, "./out/example.test");
    assert_eq!(cmd.path, "./out/example.test/abs.js");
}

#[test]
fn trailing_slash_is_bad_path() {
    assert!(matches!(
        plan_write("https://example.test", "webpack:///src/", "A"),
        Err(PathError::BadPath)
    ));
}

#[test]
fn empty_logical_path_is_bad_path() {
    assert!(matches!(
        plan_write("https://example.test", "webpack:///", "A"),
        Err(PathError::BadPath)
    ));
    assert!(matches!(
        plan_write("https://example.test", "", "A"),
        Err(PathError::BadPath)
    ));
}

#[test]
fn all_paths_under_host_root() {
    let cases = vec![
        "webpack:///./src/a.js",
        "./b.js",
        "/c.js",
        "deep/one/two/three.js",
    ];
    for logical in cases {
        let cmd = plan_write("https://example.test", logical, "T").unwrap();
        assert!(cmd.path.starts_with("./out/example.test/"));
        assert!(cmd.dir.starts_with("./out/example.test"));
    }
}

#[test]
fn dot_file_components_are_bad_paths() {
    assert!(matches!(
        plan_write("https://example.test", "webpack:///a/..", "A"),
        Err(PathError::BadPath)
    ));
    assert!(matches!(
        plan_write("https://example.test", "webpack:///a/.", "A"),
        Err(PathError::BadPath)
    ));
    assert!(matches!(
        plan_write("https://example.test", "..", "A"),
        Err(PathError::BadPath)
    ));
}
