use ax::headers::parse_header_line;
use ax::request::{create_request, set_headers};
use ax::text::{str_eq_ignore_ascii_case, str_equal, trim_str};

fn applied(raw: &[&str], json: bool) -> Result<Vec<(String, Vec<String>)>, String> {
    let url = String::from("http://localhost:1/");
    let request = create_request("GET".to_string(), &url).unwrap();
    let owned: Vec<String> = raw.iter().map(|h| h.to_string()).collect();
    let refs: Vec<&String> = owned.iter().collect();
    let r = set_headers(refs, request, json)?;
    Ok(r.header_names()
        .into_iter()
        .map(|n| {
            let vs = r.all(&n).into_iter().map(|v| v.to_string()).collect();
            (n, vs)
        })
        .collect())
}

fn lines(v: &[(&str, &str)]) -> Vec<(String, Vec<String>)> {
    v.iter()
        .map(|(a, b)| (a.to_string(), vec![b.to_string()]))
        .collect()
}

#[test]
fn well_formed_header_is_trimmed() {
    assert_eq!(
        applied(&["  X-Token :   abc  ", "Accept:text/html"], false),
        Ok(lines(&[("x-token", "abc"), ("accept", "text/html")]))
    );
}

#[test]
fn parse_header_line_splits_on_the_only_colon() {
    assert_eq!(
        parse_header_line("Accept:text/html"),
        Some(("Accept".to_string(), "text/html".to_string()))
    );
    assert_eq!(parse_header_line("no colon here"), None);
    assert_eq!(parse_header_line("Host: example.com:8080"), None);
    assert_eq!(
        parse_header_line(" A :  "),
        Some(("A".to_string(), "".to_string()))
    );
}

#[test]
fn first_of_two_same_names_wins() {
    assert_eq!(
        applied(&["Accept: text/html", "accept: application/xml"], false),
        Ok(lines(&[("accept", "text/html")]))
    );
}

#[test]
fn json_request_adds_content_type() {
    assert_eq!(
        applied(&["Accept: */*"], true),
        Ok(lines(&[("accept", "*/*"), ("content-type", "application/json")]))
    );
    assert_eq!(
        applied(&[], true),
        Ok(lines(&[("content-type", "application/json")]))
    );
}

#[test]
fn json_request_overrides_text_plain() {
    assert_eq!(
        applied(&["Content-Type: text/plain"], true),
        Ok(lines(&[("content-type", "application/json")]))
    );
    assert_eq!(
        applied(&["Content-Type: text/plain"], false),
        Ok(lines(&[("content-type", "text/plain")]))
    );
}

#[test]
fn no_headers_without_json_is_empty() {
    assert_eq!(applied(&[], false), Ok(vec![]));
}

#[test]
fn malformed_header_is_refused() {
    assert_eq!(
        applied(&["Accept: */*", "Broken", "a:b:c"], false),
        Err("Invalid header format: Broken".to_string())
    );
    assert_eq!(
        applied(&["a:b:c"], true),
        Err("Invalid header format: a:b:c".to_string())
    );
}

#[test]
fn trim_strips_unicode_white_space() {
    assert_eq!(trim_str("\u{3000} \tx y\u{A0}\n"), "x y");
    assert_eq!(trim_str("   "), "");
    assert_eq!(trim_str(""), "");
}

#[test]
fn ascii_case_comparisons() {
    assert!(str_eq_ignore_ascii_case("content-TYPE", "Content-Type"));
    assert!(!str_eq_ignore_ascii_case("Content-Typ", "Content-Type"));
    assert!(str_equal("GET", "GET"));
    assert!(!str_equal("get", "GET"));
}
