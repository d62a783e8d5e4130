use parsesm::decode::{load_from_slice, MapError};

#[test]
fn regular_map_decoded() {
    let body = br#"{"version":3,"sources":["webpack:///./src/a.js","webpack:///./src/sub/b.js"],"sourcesContent":["A","B"],"names":[],"mappings":""}"#;
    let entries = match load_from_slice(body) {
        Ok(e) => e,
        Err(_) => panic!("regular map must decode"),
    };
    assert_eq!(
        entries.sources,
        vec![
            "webpack:///./src/a.js".to_string(),
            "webpack:///./src/sub/b.js".to_string(),
        ]
    );
    assert_eq!(
        entries.contents,
        vec![Some("A".to_string()), Some("B".to_string())]
    );
}

#[test]
fn missing_contents_stay_absent() {
    let body = br#"{"version":3,"sources":["webpack:///./y.js","webpack:///./z.js"],"sourcesContent":["Y",null],"names":[],"mappings":""}"#;
    let entries = match load_from_slice(body) {
        Ok(e) => e,
        Err(_) => panic!("regular map must decode"),
    };
    assert_eq!(entries.sources.len(), entries.contents.len());
    assert_eq!(entries.contents[0], Some("Y".to_string()));
    assert_eq!(entries.contents[1], None);
}

#[test]
fn indexed_map_flattened_with_inlined_contents() {
    let body = br#"{"version":3,"sections":[{"offset":{"line":0,"column":0},"map":{"version":3,"sources":["webpack:///./x.js"],"sourcesContent":["X"],"names":[],"mappings":"AAAA"}}]}"#;
    let entries = match load_from_slice(body) {
        Ok(e) => e,
        Err(_) => panic!("indexed map must flatten"),
    };
    assert_eq!(entries.sources, vec!["webpack:///./x.js".to_string()]);
    assert_eq!(entries.contents, vec![Some("X".to_string())]);
}

#[test]
fn malformed_body_unsupported() {
    let body = b"this is not a sourcemap";
    assert!(matches!(load_from_slice(body), Err(MapError::Unsupported)));
}

#[test]
fn truncated_json_unsupported() {
    let body = br#"{"version":3,"sources":["#;
    assert!(matches!(load_from_slice(body), Err(MapError::Unsupported)));
}
