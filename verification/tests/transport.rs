use three_ds_http::address::Url;
use three_ds_http::client::{Body, Client};
use three_ds_http::response::{http_headermap_from_minreq_headers, http_response_from_minreq_response};
use three_ds_http::transport::{Dispatch, TransportOutcome, TransportResponse};
use three_ds_http::error::Error;
use three_ds_http::method::{Method, TransportMethod};

fn response(code: i32, headers: Vec<(&str, &str)>, body: &[u8]) -> TransportResponse {
    TransportResponse {
        status_code: code,
        headers: headers.into_iter().map(|(n, v)| (n.to_string(), v.to_string())).collect(),
        body: body.to_vec(),
    }
}

#[test]
fn execute_hands_the_request_to_the_transport() {
    let client = Client::new();
    let request = client
        .request(Method::Patch, "https://example.com/api/v10")
        .header("Authorization", "Bot abc.def")
        .header("X-Audit", "caf\u{e9}")
        .body(Body::from(b"{\"a\":1}".to_vec()))
        .build()
        .unwrap_or_else(|e| panic!("{:?}", e));
    match client.execute(request) {
        Dispatch::Send(t, url) => {
            assert_eq!(t.method, TransportMethod::Patch);
            assert_eq!(t.url, "https://example.com/api/v10");
            assert_eq!(url.as_str(), "https://example.com/api/v10");
            assert_eq!(
                t.headers,
                vec![
                    (b"authorization".to_vec(), b"Bot abc.def".to_vec()),
                    (b"x-audit".to_vec(), Vec::new()),
                ]
            );
            assert_eq!(t.body, Some(b"{\"a\":1}".to_vec()));
        }
        Dispatch::Failed(e) => panic!("unexpected failure {:?}", e),
    }
}

#[test]
fn execute_refuses_extension_method() {
    let client = Client::new();
    let request = client
        .request(Method::Extension("PURGE".to_string()), "https://example.com")
        .build()
        .unwrap_or_else(|e| panic!("{:?}", e));
    assert!(matches!(client.execute(request), Dispatch::Failed(Error::TaskFailed)));
}

#[test]
fn execute_refuses_body_that_is_not_utf8() {
    let client = Client::new();
    let request = client
        .request(Method::Post, "https://example.com")
        .body(Body::from(vec![0xffu8, 0xfe]))
        .build()
        .unwrap_or_else(|e| panic!("{:?}", e));
    assert!(matches!(client.execute(request), Dispatch::Failed(Error::TaskFailed)));
}

#[test]
fn execute_without_body_sends_none() {
    let client = Client::new();
    let request = client.get("https://example.com").build().unwrap_or_else(|e| panic!("{:?}", e));
    match client.execute(request) {
        Dispatch::Send(t, _) => {
            assert_eq!(t.method, TransportMethod::Get);
            assert!(t.body.is_none());
            assert!(t.headers.is_empty());
        }
        Dispatch::Failed(e) => panic!("{:?}", e),
    }
}

#[test]
fn send_of_failed_builder_is_build_failed() {
    let client = Client::new();
    assert!(matches!(client.get("no url").send(), Dispatch::Failed(Error::BuildFailed)));
}

#[test]
fn send_of_good_builder_dispatches() {
    let client = Client::new();
    match client.get("http://localhost:8080/x").header("a", "b").send() {
        Dispatch::Send(t, url) => {
            assert_eq!(t.url, "http://localhost:8080/x");
            assert_eq!(url.as_str(), "http://localhost:8080/x");
            assert_eq!(t.headers, vec![(b"a".to_vec(), b"b".to_vec())]);
        }
        Dispatch::Failed(e) => panic!("{:?}", e),
    }
}

#[test]
fn complete_builds_response() {
    let url = Url::parse("https://example.com/a").unwrap();
    let outcome = TransportOutcome::Received(response(
        204,
        vec![("content-type", "text/plain"), ("bad header", "x"), ("x-bad-value", "a\u{7f}b")],
        b"hello",
    ));
    let res = Client::complete(url, outcome).unwrap_or_else(|e| panic!("{:?}", e));
    assert_eq!(res.status().as_u16(), 204);
    assert_eq!(res.url().as_str(), "https://example.com/a");
    assert_eq!(res.headers().len(), 1);
    assert_eq!(res.headers().get("content-type").unwrap(), "text/plain");
    assert_eq!(res.bytes().unwrap_or_else(|e| panic!("{:?}", e)), b"hello".to_vec());
}

#[test]
fn complete_reports_transport_errors() {
    let url = Url::parse("https://example.com").unwrap();
    match Client::complete(url.clone(), TransportOutcome::SendFailed) {
        Err(e) => assert_eq!(e, Error::TransportFailed),
        Ok(_) => panic!("expected an error"),
    }
    match Client::complete(url, TransportOutcome::TaskFailed) {
        Err(e) => assert_eq!(e, Error::TaskFailed),
        Ok(_) => panic!("expected an error"),
    }
}

#[test]
fn status_is_read_as_sixteen_bits() {
    let url = Url::parse("https://example.com").unwrap();
    let res = http_response_from_minreq_response(response(65536 + 404, vec![], b""), url);
    assert_eq!(res.status().as_u16(), 404);
}

#[test]
fn response_headers_are_normalized_and_later_pairs_win() {
    let pairs = vec![
        ("X-Rate", "1".to_string()),
        ("x-rate", "2".to_string()),
        ("Server", "nginx".to_string()),
    ];
    let pairs: Vec<(String, String)> = pairs.into_iter().map(|(n, v)| (n.to_string(), v)).collect();
    let map = http_headermap_from_minreq_headers(&pairs);
    assert_eq!(map.len(), 2);
    assert_eq!(map.get("x-rate").unwrap(), "2");
    assert_eq!(map.get("server").unwrap(), "nginx");
    let keys: Vec<&str> = map.keys().map(|k| k.as_str()).collect();
    assert_eq!(keys, vec!["x-rate", "server"]);
}

#[test]
fn response_header_with_tab_and_high_bytes_is_kept() {
    let pairs = vec![("x-a".to_string(), "a\tb".to_string()), ("x-b".to_string(), "\u{e9}".to_string())];
    let map = http_headermap_from_minreq_headers(&pairs);
    assert_eq!(map.get("x-a").unwrap().as_bytes(), b"a\tb");
    assert_eq!(map.get("x-b").unwrap().as_bytes(), "\u{e9}".as_bytes());
}

#[test]
fn response_fits_counts_distinct_accepted_names() {
    assert!(three_ds_http::response::response_fits(&response(200, vec![("a", "1"), ("A", "2")], b"")));
    assert!(!three_ds_http::response::response_fits(&response(99, vec![], b"")));
    assert!(!three_ds_http::response::response_fits(&response(1000, vec![], b"")));
    assert!(three_ds_http::response::response_fits(&response(65536 + 200, vec![], b"")));
    let many: Vec<(String, String)> = (0..7000).map(|i| (format!("x-{}", i), "v".to_string())).collect();
    let big = TransportResponse { status_code: 200, headers: many, body: vec![] };
    assert!(!three_ds_http::response::response_fits(&big));
    let repeated: Vec<(String, String)> = (0..7000).map(|i| ("x-same".to_string(), format!("{}", i))).collect();
    let ok = TransportResponse { status_code: 200, headers: repeated, body: vec![] };
    assert!(three_ds_http::response::response_fits(&ok));
    let url = Url::parse("https://example.com").unwrap();
    let res = Client::complete(url, TransportOutcome::Received(ok)).unwrap_or_else(|e| panic!("{:?}", e));
    assert_eq!(res.headers().get("x-same").unwrap(), "6999");
}
