use three_ds_http::client::Client;
use three_ds_http::response::http_headermap_from_minreq_headers;

fn pairs(list: &[(&str, &str)]) -> Vec<(String, String)> {
    list.iter().map(|(n, v)| (n.to_string(), v.to_string())).collect()
}

#[test]
fn header_read_back_gives_the_value_set() {
    let request = Client::new()
        .get("https://example.com")
        .header("x-one", "1")
        .header("x-two", "2")
        .header("x-one", "3")
        .build()
        .unwrap_or_else(|e| panic!("{:?}", e));
    let one: Vec<&[u8]> = request.headers().get_all("x-one").iter().map(|v| v.as_bytes()).collect();
    assert_eq!(one, vec![&b"3"[..]]);
    assert_eq!(request.headers().get("x-two").unwrap(), "2");
}

#[test]
fn header_names_ignore_case() {
    let upper = Client::new().get("https://example.com").header("USER-AGENT", "a").build().ok().unwrap();
    let lower = Client::new().get("https://example.com").header("user-agent", "a").build().ok().unwrap();
    let mixed = Client::new().get("https://example.com").header("User-Agent", "a").build().ok().unwrap();
    for r in [&upper, &lower, &mixed] {
        let keys: Vec<&str> = r.headers().keys().map(|k| k.as_str()).collect();
        assert_eq!(keys, vec!["user-agent"]);
    }
}

#[test]
fn response_headers_do_not_depend_on_walk_order() {
    let forward = pairs(&[("content-type", "text/plain"), ("x-ratelimit-limit", "5"), ("bad key", "z"), ("server", "s")]);
    let mut backward = forward.clone();
    backward.reverse();
    let a = http_headermap_from_minreq_headers(&forward);
    let b = http_headermap_from_minreq_headers(&backward);
    assert_eq!(a.len(), 3);
    for name in ["content-type", "x-ratelimit-limit", "server"] {
        assert_eq!(a.get(name), b.get(name));
    }
    assert!(a.get("bad key").is_none());
}

#[test]
fn extend_takes_other_names_and_keeps_the_rest() {
    let mut other = http::HeaderMap::new();
    other.insert("b", http::HeaderValue::from_static("B"));
    let request = Client::new()
        .get("https://example.com")
        .header("a", "1")
        .header("b", "2")
        .headers(other)
        .build()
        .ok()
        .unwrap();
    assert_eq!(request.headers().get("a").unwrap(), "1");
    assert_eq!(request.headers().get("b").unwrap(), "B");
    assert_eq!(request.headers().len(), 2);
}
