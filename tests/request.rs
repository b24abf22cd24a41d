use ax::request::{create_request, parse_method, plan_call, set_headers, Call, Method};

#[test]
fn supported_methods_parse() {
    assert_eq!(parse_method("GET"), Ok(Method::Get));
    assert_eq!(parse_method("POST"), Ok(Method::Post));
    assert_eq!(parse_method("PUT"), Ok(Method::Put));
    assert_eq!(parse_method("DELETE"), Ok(Method::Delete));
    assert_eq!(parse_method("HEAD"), Ok(Method::Head));
}

#[test]
fn unsupported_method_is_refused() {
    assert_eq!(parse_method("PATCH"), Err("Unsupported HTTP method: PATCH".to_string()));
    assert_eq!(parse_method("get"), Err("Unsupported HTTP method: get".to_string()));
    let url = String::from("http://localhost:1/");
    match create_request("PATCH".to_string(), &url) {
        Err(e) => assert_eq!(e, "Unsupported HTTP method: PATCH"),
        Ok(_) => panic!("PATCH must be refused"),
    }
}

#[test]
fn create_request_uses_the_method() {
    let url = String::from("http://localhost:1/path");
    for m in ["GET", "POST", "PUT", "DELETE", "HEAD"] {
        let r = create_request(m.to_string(), &url).unwrap();
        assert_eq!(r.method(), m);
        assert_eq!(r.url(), "http://localhost:1/path");
        assert!(r.header_names().is_empty());
    }
}

#[test]
fn set_headers_applies_merged_headers() {
    let url = String::from("http://localhost:1/");
    let r = create_request("POST".to_string(), &url).unwrap();
    let a = String::from(" X-Token : abc ");
    let b = String::from("x-token: other");
    let c = String::from("Content-Type: text/plain");
    let r = set_headers(vec![&a, &b, &c], r, true).unwrap();
    assert_eq!(r.header("X-Token"), Some("abc"));
    assert_eq!(r.header("content-type"), Some("application/json"));
    assert_eq!(r.header_names(), vec!["x-token".to_string(), "content-type".to_string()]);
}

#[test]
fn set_headers_reports_malformed_header() {
    let url = String::from("http://localhost:1/");
    let r = create_request("GET".to_string(), &url).unwrap();
    let a = String::from("NoSeparator");
    match set_headers(vec![&a], r, false) {
        Err(e) => assert_eq!(e, "Invalid header format: NoSeparator"),
        Ok(_) => panic!("a malformed header must be refused"),
    }
}

#[test]
fn body_decides_the_call() {
    let d = String::from("{\"a\":1}");
    assert_eq!(plan_call(Some(&d)), Call::Payload("{\"a\":1}".to_string()));
    assert_eq!(plan_call(None), Call::Bodyless);
}

#[test]
fn set_headers_keeps_a_header_already_set() {
    let url = String::from("http://localhost:1/");
    let r = create_request("GET".to_string(), &url).unwrap().set("Accept", "text/html");
    let a = String::from("accept: application/xml");
    let b = String::from("X-Id: 1");
    let r = set_headers(vec![&a, &b], r, false).unwrap();
    assert_eq!(r.all("Accept"), vec!["text/html"]);
    assert_eq!(r.all("X-Id"), vec!["1"]);
    assert_eq!(r.method(), "GET");
    assert_eq!(r.url(), "http://localhost:1/");
}

#[test]
fn set_headers_json_keeps_one_content_type() {
    let url = String::from("http://localhost:1/");
    let r = create_request("PUT".to_string(), &url).unwrap();
    let a = String::from("content-type: text/plain");
    let b = String::from("Content-Type: text/html");
    let r = set_headers(vec![&a, &b], r, true).unwrap();
    assert_eq!(r.all("Content-Type"), vec!["application/json"]);
}

#[test]
fn first_header_wins_even_with_a_non_ascii_value() {
    let url = String::from("http://localhost:1/");
    let r = create_request("GET".to_string(), &url).unwrap();
    let a = String::from("A: café");
    let b = String::from("a: x");
    let r = set_headers(vec![&a, &b], r, false).unwrap();
    assert_eq!(r.header_names(), vec!["a".to_string()]);
    assert_eq!(r.header("a"), None);
}
