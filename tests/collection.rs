use ax::collection::{
    after_entry, BatchStep, EntryOutcome, declares_json_request, is_json_marker, missing_collection_message, prepare_collection,
    Collection,
};
use ax::present::{pick_prints, render_entry};
use ax::request::Call;

fn entry(name: &str, method: &str, headers: &[&str], data: Option<&str>) -> Collection {
    Collection {
        name: name.to_string(),
        url: "http://localhost:1/items".to_string(),
        method: method.to_string(),
        headers: headers.iter().map(|h| h.to_string()).collect(),
        data: data.map(|d| d.to_string()),
        print: vec!["status_code".to_string()],
    }
}

#[test]
fn json_marker_is_lowercase_and_trimmed() {
    assert!(is_json_marker("  content-type:application/json \t"));
    assert!(!is_json_marker("content-type: application/json"));
    assert!(!is_json_marker("Content-Type:application/json"));
}

#[test]
fn json_declared_through_lowercasing() {
    assert!(declares_json_request(&vec![
        "Accept: */*".to_string(),
        " CONTENT-TYPE:Application/JSON ".to_string()
    ]));
    assert!(!declares_json_request(&vec!["Content-Type: application/json".to_string()]));
    assert!(!declares_json_request(&vec![]));
}

#[test]
fn prepared_entry_carries_headers_and_body() {
    let c = entry(
        "create",
        "POST",
        &["Content-Type:application/json", "X-Id: 7"],
        Some("{\"a\":1}"),
    );
    let (req, call) = prepare_collection(&c).unwrap();
    assert_eq!(req.method(), "POST");
    assert_eq!(req.header("content-type"), Some("application/json"));
    assert_eq!(req.header("x-id"), Some("7"));
    assert_eq!(call, Call::Payload("{\"a\":1}".to_string()));
    let c = entry("list", "GET", &[], None);
    let (req, call) = prepare_collection(&c).unwrap();
    assert!(req.header_names().is_empty());
    assert_eq!(call, Call::Bodyless);
}

#[test]
fn bad_entry_does_not_stop_the_next() {
    let entries = vec![
        entry("first", "GET", &["Malformed"], None),
        entry("second", "GET", &["Accept: */*"], None),
    ];
    let mut out = String::new();
    let mut err = String::new();
    for c in &entries {
        let outcome = match prepare_collection(c) {
            Ok(_) => {
                let sel = pick_prints(&c.print);
                EntryOutcome::Rendered(render_entry(&c.name, &sel, 200, "OK", &vec![], ""))
            }
            Err(e) => EntryOutcome::Refused(e),
        };
        match after_entry(&outcome) {
            BatchStep::Continue { stdout, stderr } => {
                out.push_str(&stdout);
                err.push_str(&stderr);
            }
            BatchStep::Stop => panic!("no transport failure here"),
        }
    }
    assert_eq!(err, "Invalid header format: Malformed\n");
    assert_eq!(
        out,
        "\n\n\x1b[1mCollection:\x1b[0m second\n\n\x1b[1mStatus Code:\x1b[0m 200\n\n\n"
    );
}

#[test]
fn after_entry_steps() {
    assert_eq!(
        after_entry(&EntryOutcome::Rendered("x\n".to_string())),
        BatchStep::Continue { stdout: "x\n\n\n".to_string(), stderr: String::new() }
    );
    assert_eq!(
        after_entry(&EntryOutcome::Refused("bad".to_string())),
        BatchStep::Continue { stdout: "\n\n".to_string(), stderr: "bad\n".to_string() }
    );
    assert_eq!(after_entry(&EntryOutcome::TransportFailed), BatchStep::Stop);
}

#[test]
fn unsupported_method_in_entry() {
    let c = entry("patch", "PATCH", &["Broken"], None);
    match prepare_collection(&c) {
        Err(e) => assert_eq!(e, "Unsupported HTTP method: PATCH"),
        Ok(_) => panic!("PATCH must be refused"),
    }
}

#[test]
fn missing_file_message() {
    assert_eq!(
        missing_collection_message("/no/such.json"),
        "Cannot find collection file: /no/such.json"
    );
}
