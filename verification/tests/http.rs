use heimdall::http::{
    ends_head, parse_head, parse_pairs, percent_decode, reason, response_head, Pairs, Request,
};
use heimdall::json::Json;

fn request(headers: Vec<(&str, &str)>, json: Option<Json>) -> Request {
    Request {
        method: "GET".to_string(),
        path: "/".to_string(),
        query: Pairs::new(),
        headers: Pairs::from_list(
            headers
                .into_iter()
                .map(|(k, v)| (k.to_string(), v.to_string()))
                .collect(),
        ),
        body: Vec::new(),
        json,
        too_large: false,
    }
}

#[test]
fn percent_decode_handles_escapes_and_plus() {
    assert_eq!(percent_decode("a%20b+c"), "a b c");
    assert_eq!(percent_decode("%2Ftmp"), "/tmp");
    assert_eq!(percent_decode("100%"), "100%");
}

#[test]
fn parse_pairs_splits_on_ampersand() {
    let pairs = parse_pairs("project=bifrost&env=dev");
    assert_eq!(pairs.get("project").unwrap(), "bifrost");
    assert_eq!(pairs.get("env").unwrap(), "dev");
}

#[test]
fn cookie_reads_one_value() {
    let request = request(vec![("cookie", "a=1; heimdall_session=abc; b=2")], None);
    assert_eq!(request.cookie("heimdall_session"), Some("abc".to_string()));
    assert_eq!(request.cookie("otra"), None);
}

#[test]
fn bearer_reads_the_token() {
    let request = request(vec![("authorization", "Bearer hd_abc")], None);
    assert_eq!(request.bearer(), Some("hd_abc".to_string()));
}

#[test]
fn percent_decode_keeps_what_is_not_an_escape() {
    assert_eq!(percent_decode("%zz%4"), "%zz%4");
    assert_eq!(percent_decode("%C3%B1"), "ñ");
    assert_eq!(percent_decode("%FF"), "\u{FFFD}");
}

#[test]
fn later_pairs_win_and_bare_keys_are_empty() {
    let pairs = parse_pairs("a=1&a=2&b&=3&c=x%3Dy");
    assert_eq!(pairs.get("a").unwrap(), "2");
    assert_eq!(pairs.get("b").unwrap(), "");
    assert_eq!(pairs.get("c").unwrap(), "x=y");
    assert_eq!(pairs.get("").unwrap(), "3");
    assert_eq!(pairs.len(), 4);
}

#[test]
fn a_missing_bearer_or_cookie_is_none() {
    let request = request(vec![("authorization", "Basic x")], None);
    assert_eq!(request.bearer(), None);
    assert_eq!(request.cookie("heimdall_session"), None);
    assert!(request.header("Authorization").is_some());
}

#[test]
fn the_body_fields_are_read_from_its_json() {
    let body = Json::Object(vec![
        ("name".to_string(), Json::Text("x".to_string())),
        ("admin".to_string(), Json::Bool(true)),
        ("ttl".to_string(), Json::NegInt(-3)),
        ("keys".to_string(), Json::Array(vec![Json::Text("A".to_string()), Json::Null])),
    ]);
    let request = request(vec![], Some(body));
    assert_eq!(request.field("name"), Some("x".to_string()));
    assert!(request.flag("admin"));
    assert!(!request.flag("name"));
    assert_eq!(request.number("ttl"), Some(-3));
    assert_eq!(request.list("keys"), Some(vec!["A".to_string()]));
    assert_eq!(request.list("name"), None);
    assert!(request.json().is_some());
}

#[test]
fn a_head_gives_method_path_query_and_headers() {
    let lines = vec![
        "Host: x\r\n".to_string(),
        "Content-Length: 12\r\n".to_string(),
        "AUTHORIZATION:  Bearer t \r\n".to_string(),
        "no es un header\r\n".to_string(),
    ];
    let head = parse_head("GET /v1/secrets?project=a&env=b HTTP/1.1\r\n", &lines);
    assert_eq!(head.method, "GET");
    assert_eq!(head.path, "/v1/secrets");
    assert_eq!(head.query.get("project").unwrap(), "a");
    assert_eq!(head.headers.get("authorization").unwrap(), "Bearer t");
    assert_eq!(head.headers.len(), 3);
    assert_eq!(head.length, 12);
    assert!(!head.too_large);
    let big = parse_head("PUT /x HTTP/1.1", &vec!["content-length: 2000000".to_string()]);
    assert!(big.too_large);
    assert_eq!(big.length, 0);
    let bare = parse_head("GET", &vec![]);
    assert_eq!(bare.path, "/");
    assert!(ends_head("\r\n"));
    assert!(!ends_head("Host: x\r\n"));
}

#[test]
fn a_response_head_has_the_fixed_headers() {
    assert_eq!(
        response_head(404, "application/json", &vec![], 7),
        "HTTP/1.1 404 Not Found\r\nContent-Type: application/json\r\nContent-Length: 7\r\nCache-Control: no-store\r\nConnection: close\r\n\r\n"
    );
    assert_eq!(
        response_head(200, "text/css", &vec![("cache-control".to_string(), "immutable".to_string())], 0),
        "HTTP/1.1 200 OK\r\nContent-Type: text/css\r\nContent-Length: 0\r\nConnection: close\r\ncache-control: immutable\r\n\r\n"
    );
    assert_eq!(reason(413), "Payload Too Large");
    assert_eq!(reason(999), "OK");
}

#[test]
fn plain_pairs_read_as_written() {
    let pairs = parse_pairs("a=b");
    assert_eq!(pairs.get("a").unwrap(), "b");
}
