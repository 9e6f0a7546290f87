use sohara::io::{
    body_is_json, create_table_sql, first_object_keys, insert_sql, json_request_headers, json_text, parse_response, parse_url,
    request_text, url_error_message, DbSource, Header, HttpSink, HttpSource, UrlError,
};
use sohara::json::Json;

#[test]
fn http_build_rejects_non_http_urls() {
    let error = HttpSource::build("https://example.com", None, Vec::new(), None).unwrap_err();
    assert_eq!(error, UrlError::Scheme);
    assert_eq!(url_error_message(error, "https://example.com"), "only http:// urls are supported (S5)");
    let error = HttpSink::build("http://host:99999/x", None, Vec::new()).unwrap_err();
    assert_eq!(url_error_message(error, "http://host:99999/x"), "invalid port in url 'http://host:99999/x'");
}

#[test]
fn urls_split_into_host_port_and_path() {
    let u = parse_url("http://127.0.0.1:8080/api/items").unwrap();
    assert_eq!((u.host.as_str(), u.port, u.path.as_str()), ("127.0.0.1", 8080, "/api/items"));
    let u = parse_url("http://example.com").unwrap();
    assert_eq!((u.host.as_str(), u.port, u.path.as_str()), ("example.com", 80, "/"));
    let source = HttpSource::build("http://h/x", None, Vec::new(), Some(5)).unwrap();
    assert_eq!(source.method, "GET");
    assert_eq!(source.name, "http:http://h/x");
    let sink = HttpSink::build("http://h/x", None, Vec::new()).unwrap();
    assert_eq!(sink.method, "POST");
}

#[test]
fn requests_and_responses_have_the_wire_form() {
    let u = parse_url("http://h:81/p").unwrap();
    let headers = vec![Header { name: "X-A".to_owned(), value: "1".to_owned() }];
    assert_eq!(
        request_text("POST", &u, &headers, "{}"),
        "POST /p HTTP/1.1\r\nHost: h\r\nConnection: close\r\nX-A: 1\r\nContent-Length: 2\r\n\r\n{}"
    );
    assert_eq!(parse_response("HTTP/1.1 200 OK\r\nA: b\r\n\r\nbody").ok(), Some("body".to_owned()));
    let failed = parse_response("HTTP/1.1 404 Not Found\r\n\r\nnope").unwrap_err();
    assert_eq!(failed.message(), "http request failed: HTTP/1.1 404 Not Found");
    assert_eq!(parse_response("garbage").unwrap_err().message(), "malformed http response");
    assert_eq!(parse_response("\r\n\r\nbody").unwrap_err().message(), "http response without status line");
    assert!(body_is_json("{\"a\":1}"));
    assert!(body_is_json("[1]"));
    assert!(!body_is_json("hello"));
}

#[test]
fn sql_statements_name_every_column() {
    let columns = vec!["a".to_owned(), "b".to_owned()];
    assert_eq!(insert_sql("t", &columns), "INSERT INTO t (a, b) VALUES (?, ?)");
    assert_eq!(create_table_sql("t", &columns), "CREATE TABLE IF NOT EXISTS t (a TEXT, b TEXT)");
    let payload = Json::Object(vec![("x".to_owned(), Json::Null), ("y".to_owned(), Json::Bool(true))]);
    assert_eq!(first_object_keys(&payload), Ok(vec!["x".to_owned(), "y".to_owned()]));
    assert_eq!(first_object_keys(&Json::Null), Err("db sink requires object records".to_owned()));
    assert_eq!(json_text(&Json::Bool(true), ""), "true");
    assert_eq!(json_text(&Json::Null, ""), "");
    assert_eq!(json_text(&Json::Number("1.5".to_owned()), ""), "1.5");
    assert_eq!(json_text(&Json::Array(vec![]), "[]"), "[]");
    assert_eq!(DbSource::build("x.db".to_owned(), "select 1".to_owned()).name, "db:x.db");
}

#[test]
fn json_request_headers_are_set_and_ordered_by_name() {
    let given = vec![
        Header { name: "X-Trace".to_owned(), value: "1".to_owned() },
        Header { name: "Content-Type".to_owned(), value: "text/plain".to_owned() },
        Header { name: "Accept".to_owned(), value: "*/*".to_owned() },
    ];
    let all = json_request_headers(given);
    let pairs: Vec<(String, String)> = all.into_iter().map(|h| (h.name, h.value)).collect();
    assert_eq!(
        pairs,
        vec![
            ("Accept".to_owned(), "*/*".to_owned()),
            ("Content-Type".to_owned(), "application/json".to_owned()),
            ("X-Trace".to_owned(), "1".to_owned()),
        ]
    );
}
