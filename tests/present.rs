use ax::present::{
    decimal_text, pick_prints, render_entry, render_include, render_prints,
};

fn sel_of(v: &[&str]) -> ax::present::Selection {
    pick_prints(&v.iter().map(|s| s.to_string()).collect())
}

fn hs() -> Vec<(String, String)> {
    vec![
        ("content-type".to_string(), "text/plain".to_string()),
        ("server".to_string(), "mock".to_string()),
    ]
}

#[test]
fn decimal_text_of_codes() {
    assert_eq!(decimal_text(0), "0");
    assert_eq!(decimal_text(7), "7");
    assert_eq!(decimal_text(404), "404");
    assert_eq!(decimal_text(65535), "65535");
}

#[test]
fn selectors_are_read() {
    let s = sel_of(&["body", "status_code", "bogus", "body"]);
    assert_eq!((s.status_code, s.status_text, s.headers, s.body), (1, 0, 0, 2));
    let s = sel_of(&[]);
    assert_eq!((s.status_code, s.status_text, s.headers, s.body), (0, 0, 0, 0));
}

#[test]
fn status_code_and_body_for_not_found() {
    let s = sel_of(&["status_code", "body"]);
    let out = render_prints(&s, 404, "Not Found", &hs(), "not found");
    assert_eq!(
        out,
        "\x1b[1mStatus Code:\x1b[0m 404\n\x1b[1mBody:\x1b[0m not found\n"
    );
}

#[test]
fn all_fields_in_fixed_order() {
    let s = sel_of(&["body", "headers", "status_text", "status_code"]);
    let out = render_prints(&s, 200, "OK", &hs(), "hi");
    assert_eq!(
        out,
        "\x1b[1mStatus Code:\x1b[0m 200\n\x1b[1mStatus Text:\x1b[0m OK\n\
         \x1b[1mcontent-type:\x1b[0m text/plain\n\x1b[1mserver:\x1b[0m mock\n\
         \x1b[1mBody:\x1b[0m hi\n"
    );
}

#[test]
fn entry_has_collection_heading() {
    let s = sel_of(&["status_text"]);
    let out = render_entry("users", &s, 500, "Internal Server Error", &hs(), "");
    assert_eq!(
        out,
        "\x1b[1mCollection:\x1b[0m users\n\n\x1b[1mStatus Text:\x1b[0m Internal Server Error\n"
    );
}

#[test]
fn include_mode_text() {
    let out = render_include("HTTP/1.1", 201, "Created", &hs(), "done");
    assert_eq!(
        out,
        "HTTP/1.1 201 Created\n\x1b[1mcontent-type:\x1b[0m text/plain\n\
         \x1b[1mserver:\x1b[0m mock\n\ndone"
    );
    let out = render_include("HTTP/1.0", 204, "No Content", &vec![], "");
    assert_eq!(out, "HTTP/1.0 204 No Content\n\n");
}

#[test]
fn repeated_selector_repeats_its_output() {
    let s = sel_of(&["status_code", "status_code"]);
    let out = render_prints(&s, 404, "Not Found", &hs(), "not found");
    assert_eq!(
        out,
        "\x1b[1mStatus Code:\x1b[0m 404\n\x1b[1mStatus Code:\x1b[0m 404\n"
    );
    let s = sel_of(&["headers", "headers"]);
    let one = vec![("a".to_string(), "1".to_string())];
    let out = render_prints(&s, 200, "OK", &one, "");
    assert_eq!(out, "\x1b[1ma:\x1b[0m 1\n\x1b[1ma:\x1b[0m 1\n");
}
