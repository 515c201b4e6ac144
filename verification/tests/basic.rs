use three_ds_http::address::Url;
use three_ds_http::method::Method;
use three_ds_http::basic::Client;

#[test]
fn basic_builder_collects_headers() {
    let client = Client::new();
    let builder = client
        .request(Method::Put, Url::parse("https://example.com/s").unwrap())
        .header("Accept", "*/*")
        .header("bad name", "x")
        .header("accept", "text/plain");
    assert_eq!(builder.method(), &Method::Put);
    assert_eq!(builder.url().as_str(), "https://example.com/s");
    assert_eq!(builder.header_map().len(), 1);
    assert_eq!(builder.header_map().get("accept").unwrap(), "text/plain");
}
