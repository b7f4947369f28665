use wp_update::decode::{decode_name_list, decode_update_list, get_json, UpdateCandidate};

fn b(s: &str) -> Vec<u8> {
    s.as_bytes().to_vec()
}

fn cand(name: &str, version: &str, update_version: &str) -> UpdateCandidate {
    UpdateCandidate { name: b(name), version: b(version), update_version: b(update_version) }
}

#[test]
fn decodes_one_item() {
    let raw = b(r#"[{"name":"foo","version":"1.0","update_version":"1.1"}]"#);
    assert_eq!(decode_update_list(&raw), vec![cand("foo", "1.0", "1.1")]);
}

#[test]
fn decodes_two_items_in_order() {
    let raw = b(
        r#"[{"name":"foo","version":"1.0","update_version":"1.1"},{"name":"bar","version":"2.0","update_version":"2.1"}]"#,
    );
    assert_eq!(
        decode_update_list(&raw),
        vec![cand("foo", "1.0", "1.1"), cand("bar", "2.0", "2.1")]
    );
}

#[test]
fn tolerates_whitespace_between_tokens() {
    let raw = b("[{\"name\" : \"foo\" ,\n  \"version\": \"1.0\", \"update_version\": \"1.1\"}]\n");
    assert_eq!(decode_update_list(&raw), vec![cand("foo", "1.0", "1.1")]);
}

#[test]
fn leading_noise_is_skipped() {
    let payload = r#"[{"name":"foo","version":"1.0","update_version":"1.1"}]"#;
    let noisy = b(&format!(
        "Deprecated: some_function is deprecated since version 2.0!\nPHP Warning: stuff\n{payload}"
    ));
    assert_eq!(decode_update_list(&noisy), decode_update_list(&b(payload)));
    assert_eq!(decode_update_list(&noisy), vec![cand("foo", "1.0", "1.1")]);
}

#[test]
fn no_marker_yields_no_items() {
    assert_eq!(decode_update_list(&b("no structured output here")), vec![] as Vec<UpdateCandidate>);
    assert_eq!(decode_name_list(&b("Error: something went wrong")), Vec::<Vec<u8>>::new());
    assert_eq!(decode_update_list(&b("")), vec![] as Vec<UpdateCandidate>);
}

#[test]
fn empty_array_yields_no_items() {
    // `[]` holds no object, hence no marker, hence no items.
    assert_eq!(decode_update_list(&b("[]")), vec![] as Vec<UpdateCandidate>);
}

#[test]
fn malformed_payload_yields_no_items() {
    assert_eq!(decode_update_list(&b(r#"[{"name":"#)), vec![] as Vec<UpdateCandidate>);
    assert_eq!(decode_update_list(&b(r#"[{"name" "foo"}]"#)), vec![] as Vec<UpdateCandidate>);
    assert_eq!(decode_update_list(&b(r#"[{"name":"foo"}] trailing"#)), vec![] as Vec<UpdateCandidate>);
    assert_eq!(decode_update_list(&b(r#"[{"name":42}]"#)), vec![] as Vec<UpdateCandidate>);
}

#[test]
fn missing_required_field_yields_no_items() {
    let raw = b(r#"[{"name":"foo","version":"1.0"}]"#);
    assert_eq!(decode_update_list(&raw), vec![] as Vec<UpdateCandidate>);
    // The same payload is fine for a name query.
    assert_eq!(decode_name_list(&raw), vec![b("foo")]);
}

#[test]
fn extra_fields_are_ignored() {
    let raw = b(r#"[{"title":"Foo","name":"foo","version":"1.0","update_version":"1.1"}]"#);
    assert_eq!(decode_update_list(&raw), vec![cand("foo", "1.0", "1.1")]);
}

#[test]
fn decodes_escaped_strings() {
    let raw = b(r#"[{"name":"a\"b\\c\/d\ne"}]"#);
    assert_eq!(decode_name_list(&raw), vec![b("a\"b\\c/d\ne")]);
}

#[test]
fn unsupported_escape_yields_no_items() {
    let raw = b(r#"[{"name":"a\u0041"}]"#);
    assert_eq!(decode_name_list(&raw), Vec::<Vec<u8>>::new());
}

#[test]
fn decodes_active_plugin_names() {
    let raw = b(r#"[{"name":"akismet"},{"name":"jetpack"}]"#);
    assert_eq!(decode_name_list(&raw), vec![b("akismet"), b("jetpack")]);
}

#[test]
fn get_json_locates_the_payload() {
    let raw = b(r#"Warning: x
[{"name":"foo"}]"#);
    let found = get_json(&raw).expect("marker present");
    assert_eq!(found, b(r#"[{"name":"foo"}]"#).as_slice());
    assert!(get_json(b"nothing structured").is_none());
}
