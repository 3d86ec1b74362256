use road47::config::RequestModificationRule;
use road47::http::{
    apply_modification_rules, collect_headers, contains_substring, parse_request_line,
    parse_request_path, rate_limit_response, remove_header_entries, render_request,
    rewrite_request, upsert_header,
};

#[test]
fn parse_request_path_recovers_second_token() {
    assert_eq!(
        parse_request_path("GET /api/v1/users HTTP/1.1"),
        Some("/api/v1/users".to_string())
    );
    assert_eq!(parse_request_path("POST /x HTTP/1.1 extra"), Some("/x".to_string()));
    assert_eq!(parse_request_path("  GET   /y   HTTP/1.1"), Some("/y".to_string()));
}

#[test]
fn parse_request_path_rejects_short_lines() {
    assert_eq!(parse_request_path(""), None);
    assert_eq!(parse_request_path("GET"), None);
    assert_eq!(parse_request_path("GET /x"), None);
    assert_eq!(parse_request_path("   "), None);
}

#[test]
fn parse_request_line_returns_method_and_path() {
    let (method, path) = parse_request_line("PUT /things HTTP/1.1").unwrap();
    assert_eq!(method, "PUT");
    assert_eq!(path, "/things");
}

#[test]
fn rate_limit_response_bytes() {
    let expected = "HTTP/1.1 429 Too Many Requests\r\nContent-Type: text/plain\r\nContent-Length: 27\r\n\r\nError: Rate limit exceeded.\n";
    assert_eq!(rate_limit_response(), expected.as_bytes().to_vec());
}

#[test]
fn contains_substring_finds_fragments() {
    assert!(contains_substring("/api/v1/users", "/v1/"));
    assert!(contains_substring("abc", ""));
    assert!(!contains_substring("/api", "/v2"));
    assert!(!contains_substring("ab", "abc"));
}

#[test]
fn header_removal_and_upsert() {
    let mut headers = vec![
        ("Host".to_string(), "a".to_string()),
        ("X-Trace".to_string(), "1".to_string()),
        ("Accept".to_string(), "*/*".to_string()),
    ];
    remove_header_entries(&mut headers, &"X-Trace".to_string());
    assert_eq!(
        headers,
        vec![
            ("Host".to_string(), "a".to_string()),
            ("Accept".to_string(), "*/*".to_string()),
        ]
    );
    upsert_header(&mut headers, "Host".to_string(), "b".to_string());
    assert_eq!(headers[0], ("Host".to_string(), "b".to_string()));
    upsert_header(&mut headers, "X-New".to_string(), "v".to_string());
    assert_eq!(headers[2], ("X-New".to_string(), "v".to_string()));
}

#[test]
fn collect_headers_parses_and_overwrites() {
    let section = "Host: a\r\nAccept: */*\r\nHost: b";
    let headers = collect_headers(section);
    assert_eq!(
        headers,
        vec![
            ("Host".to_string(), "b".to_string()),
            ("Accept".to_string(), "*/*".to_string()),
        ]
    );
}

#[test]
fn apply_rules_path_match_stops_processing() {
    let rules = vec![
        RequestModificationRule {
            path_contains: Some("/old".to_string()),
            rewrite_url: Some("/new".to_string()),
            remove_headers: vec!["Host".to_string()],
            add_headers: vec![],
        },
        RequestModificationRule {
            path_contains: None,
            rewrite_url: None,
            remove_headers: vec!["Accept".to_string()],
            add_headers: vec![],
        },
    ];
    let mut headers = vec![
        ("Host".to_string(), "a".to_string()),
        ("Accept".to_string(), "*/*".to_string()),
    ];
    let path = apply_modification_rules("/old/thing".to_string(), &mut headers, &rules);
    assert_eq!(path, "/new");
    assert_eq!(headers.len(), 2);
}

#[test]
fn apply_rules_edits_headers_when_no_path_match() {
    let rules = vec![RequestModificationRule {
        path_contains: Some("/absent".to_string()),
        rewrite_url: Some("/new".to_string()),
        remove_headers: vec!["X-Remove".to_string()],
        add_headers: vec![("X-Add".to_string(), "yes".to_string())],
    }];
    let mut headers = vec![
        ("Host".to_string(), "a".to_string()),
        ("X-Remove".to_string(), "1".to_string()),
    ];
    let path = apply_modification_rules("/keep".to_string(), &mut headers, &rules);
    assert_eq!(path, "/keep");
    assert_eq!(
        headers,
        vec![
            ("Host".to_string(), "a".to_string()),
            ("X-Add".to_string(), "yes".to_string()),
        ]
    );
}

#[test]
fn render_request_layout() {
    let headers = vec![("Host".to_string(), "h".to_string())];
    let out = render_request(
        &"GET".to_string(),
        &"/p".to_string(),
        &headers,
        "\r\n\r\nBODY",
    );
    assert_eq!(out, "GET /p HTTP/1.1\r\nHost: h\r\n\r\n\r\n\r\nBODY");
}

#[test]
fn rewrite_request_replaces_path() {
    let rules = vec![RequestModificationRule {
        path_contains: Some("/old".to_string()),
        rewrite_url: Some("/new".to_string()),
        remove_headers: vec![],
        add_headers: vec![],
    }];
    let request = "GET /old HTTP/1.1\r\nHost: e\r\n\r\nBODY";
    let out = rewrite_request(request, &rules).unwrap();
    assert_eq!(out, "GET /new HTTP/1.1\r\nHost: e\r\n\r\n\r\n\r\nBODY");
}

#[test]
fn rewrite_request_edits_headers() {
    let rules = vec![RequestModificationRule {
        path_contains: None,
        rewrite_url: None,
        remove_headers: vec!["X-Remove".to_string()],
        add_headers: vec![("X-Add".to_string(), "on".to_string())],
    }];
    let request = "GET /p HTTP/1.1\r\nHost: e\r\nX-Remove: 1\r\n\r\n";
    let out = rewrite_request(request, &rules).unwrap();
    assert_eq!(out, "GET /p HTTP/1.1\r\nHost: e\r\nX-Add: on\r\n\r\n\r\n\r\n");
}

#[test]
fn rewrite_request_rejects_malformed_request_line() {
    let rules: Vec<RequestModificationRule> = vec![];
    assert_eq!(rewrite_request("GET\r\nHost: e\r\n\r\n", &rules), None);
    assert_eq!(rewrite_request("", &rules), None);
}
