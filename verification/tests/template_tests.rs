use wp_update::template::{has_brace, resolve_template, substitute_install_path};

fn b(s: &str) -> Vec<u8> {
    s.as_bytes().to_vec()
}

#[test]
fn resolves_every_recognized_token() {
    let out = resolve_template(
        b"{installation_path}/../{unix_time}.{step}.sql",
        b"/srv/wp",
        b"update_core",
        b"1700000000",
    );
    assert_eq!(out, b("/srv/wp/../1700000000.update_core.sql"));
    // The template's placeholders were all recognized, so no
    // placeholder token of any kind remains.
    assert!(!has_brace(&out));
    assert!(!out.contains(&b'}'));
}

#[test]
fn repeated_tokens_are_each_resolved() {
    let out = resolve_template(b"{step}-{step}", b"/srv", b"x", b"7");
    assert_eq!(out, b("x-x"));
}

#[test]
fn unrecognized_tokens_are_left_verbatim() {
    let out = resolve_template(b"{foo}/{step}", b"/srv", b"x", b"7");
    assert_eq!(out, b("{foo}/x"));
}

#[test]
fn values_are_not_rescanned() {
    // The step value happens to look like another token; a single
    // left-to-right pass must not substitute inside it.
    let out = resolve_template(b"{step}{unix_time}", b"/srv", b"{unix_time}", b"7");
    assert_eq!(out, b("{unix_time}7"));
}

#[test]
fn empty_template_resolves_to_empty() {
    let out = resolve_template(b"", b"/srv", b"x", b"7");
    assert_eq!(out, b(""));
}

#[test]
fn stray_path_substitutes_installation_path_only() {
    let out = substitute_install_path(b"{installation_path}/$XDG_CACHE_HOME", b"/srv/wp");
    assert_eq!(out, b("/srv/wp/$XDG_CACHE_HOME"));
    let untouched = substitute_install_path(b"{step}/cache", b"/srv/wp");
    assert_eq!(untouched, b("{step}/cache"));
}

#[test]
fn unresolved_placeholders_are_detectable() {
    let out = resolve_template(b"{foo}/{step}", b"/srv", b"x", b"7");
    assert!(has_brace(&out));
}
