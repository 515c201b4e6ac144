use three_ds_http::client::{Body, Client, ClientBuilder, Config, Request, RequestBuilder, DEFAULT_USER_AGENT};
use three_ds_http::error::Error;
use three_ds_http::method::Method;
use three_ds_http::address::Url;

fn built(builder: RequestBuilder) -> Request {
    match builder.build() {
        Ok(r) => r,
        Err(e) => panic!("request did not build: {:?}", e),
    }
}

#[test]
fn default_config() {
    let config = Config::default();
    assert_eq!(config.user_agent.as_deref(), Some(DEFAULT_USER_AGENT.as_bytes()));
    assert_eq!(config.timeout, Some(30));
    assert!(config.proxy.is_none());
    let client = Client::new();
    assert_eq!(client.config().timeout, Some(30));
    assert_eq!(client.config().user_agent.as_deref(), Some(DEFAULT_USER_AGENT.as_bytes()));
    let built_client = ClientBuilder::new().use_rustls_tls().build().unwrap();
    assert_eq!(built_client.config().timeout, Some(30));
    assert!(Client::builder().config.proxy.is_none());
}

#[test]
fn request_starts_empty() {
    let client = Client::new();
    let request = built(client.request(Method::Post, "https://example.com/x"));
    assert_eq!(request.method(), &Method::Post);
    assert_eq!(request.url().as_str(), "https://example.com/x");
    assert!(request.headers().is_empty());
    assert!(request.body().is_none());
    let request = built(client.get(Url::parse("https://example.com").unwrap()));
    assert_eq!(request.method(), &Method::Get);
}

#[test]
fn request_with_bad_url_holds_invalid_url() {
    let client = Client::new();
    match client.get("::::").build() {
        Err(e) => assert_eq!(e, Error::InvalidUrl),
        Ok(_) => panic!("expected an error"),
    }
}

#[test]
fn header_is_normalized_and_replaces() {
    let client = Client::new();
    let request = built(
        client
            .get("https://example.com")
            .header("Content-Type", "text/plain")
            .header("X-Other", "1")
            .header("content-type", "application/json"),
    );
    let headers = request.headers();
    assert_eq!(headers.len(), 2);
    let values: Vec<&[u8]> = headers.get_all("content-type").iter().map(|v| v.as_bytes()).collect();
    assert_eq!(values, vec![&b"application/json"[..]]);
    let keys: Vec<&str> = headers.keys().map(|k| k.as_str()).collect();
    assert_eq!(keys, vec!["content-type", "x-other"]);
}

#[test]
fn invalid_header_is_ignored() {
    let client = Client::new();
    let request = built(
        client
            .get("https://example.com")
            .header("bad name", "v")
            .header("good", "bad\nvalue")
            .header("", "v"),
    );
    assert!(request.headers().is_empty());
}

#[test]
fn body_is_set() {
    let client = Client::new();
    let request = built(client.get("https://example.com").body(Body::from(vec![1u8, 2, 3])));
    assert_eq!(request.body().unwrap().as_bytes(), &[1u8, 2, 3][..]);
}

#[test]
fn headers_extend_replaces_named_values() {
    let client = Client::new();
    let mut more = http::HeaderMap::new();
    more.insert("a", http::HeaderValue::from_static("new"));
    more.append("c", http::HeaderValue::from_static("c1"));
    more.append("c", http::HeaderValue::from_static("c2"));
    let request = built(
        client
            .get("https://example.com")
            .header("a", "old")
            .header("b", "kept")
            .headers(more),
    );
    let headers = request.headers();
    assert_eq!(headers.get("a").unwrap(), "new");
    assert_eq!(headers.get("b").unwrap(), "kept");
    let c: Vec<&[u8]> = headers.get_all("c").iter().map(|v| v.as_bytes()).collect();
    assert_eq!(c, vec![&b"c1"[..], &b"c2"[..]]);
    let keys: Vec<&str> = headers.keys().map(|k| k.as_str()).collect();
    assert_eq!(keys, vec!["a", "b", "c"]);
}

#[test]
fn failed_builder_stays_failed() {
    let client = Client::new();
    let builder = client
        .get("not a url")
        .header("a", "b")
        .body(Body::from(vec![1u8]))
        .headers(http::HeaderMap::new());
    match builder.build() {
        Err(e) => assert_eq!(e, Error::InvalidUrl),
        Ok(_) => panic!("expected an error"),
    }
}

#[test]
fn builder_from_parts() {
    let client = Client::new();
    let url = Url::parse("https://example.com").unwrap();
    let request = built(RequestBuilder::new(client.clone(), Ok(Request::new(Method::Delete, url))));
    assert_eq!(request.method(), &Method::Delete);
    match RequestBuilder::new(client, Err(Error::TransportFailed)).build() {
        Err(e) => assert_eq!(e, Error::TransportFailed),
        Ok(_) => panic!("expected an error"),
    }
}

#[test]
fn new_request_is_http11() {
    let request = built(Client::new().get("https://example.com"));
    assert_eq!(request.version(), three_ds_http::client::Version::Http11);
}

#[test]
fn header_map_helpers() {
    let mut map = three_ds_http::client::empty_headers();
    assert!(map.is_empty());
    three_ds_http::client::set_header(&mut map, "X-Key", "one");
    three_ds_http::client::set_header(&mut map, "x-key", "two");
    three_ds_http::client::set_header(&mut map, "bad key", "three");
    assert_eq!(map.len(), 1);
    assert_eq!(map.get("x-key").unwrap(), "two");
    let request = built(Client::new().get("https://example.com").header("a", "1").headers(map));
    assert_eq!(request.headers().get("x-key").unwrap(), "two");
    assert_eq!(request.headers().get("a").unwrap(), "1");
}

#[test]
fn empty_header_map_changes_nothing() {
    let request = built(Client::new().get("https://example.com").header("a", "1").headers(http::HeaderMap::new()));
    assert_eq!(request.headers().len(), 1);
    assert_eq!(request.headers().get("a").unwrap(), "1");
}

#[test]
fn header_count_counts_names() {
    let mut map = three_ds_http::client::empty_headers();
    assert_eq!(three_ds_http::client::header_count(&map), 0);
    three_ds_http::client::set_header(&mut map, "a", "1");
    three_ds_http::client::set_header(&mut map, "A", "2");
    three_ds_http::client::set_header(&mut map, "b", "3");
    assert_eq!(three_ds_http::client::header_count(&map), 2);
    let mut multi = http::HeaderMap::new();
    multi.append("c", http::HeaderValue::from_static("1"));
    multi.append("c", http::HeaderValue::from_static("2"));
    assert_eq!(three_ds_http::client::header_count(&multi), 1);
}

#[test]
fn version_is_kept_by_builder_steps() {
    let request = built(
        Client::new()
            .get("https://example.com")
            .header("a", "1")
            .body(Body::from(vec![1u8]))
            .headers(http::HeaderMap::new()),
    );
    assert_eq!(request.version(), three_ds_http::client::Version::Http11);
}
