use three_ds_http::address::Url;
use three_ds_http::error::{Kind, ReqwestError};
use three_ds_http::error::Error;
use three_ds_http::method::{convert_http_method, is_sendable, Method, TransportMethod};
use three_ds_http::status::StatusCode;

#[test]
fn converts_each_standard_method() {
    let pairs = vec![
        (Method::Get, TransportMethod::Get),
        (Method::Post, TransportMethod::Post),
        (Method::Put, TransportMethod::Put),
        (Method::Delete, TransportMethod::Delete),
        (Method::Head, TransportMethod::Head),
        (Method::Options, TransportMethod::Options),
        (Method::Connect, TransportMethod::Connect),
        (Method::Patch, TransportMethod::Patch),
        (Method::Trace, TransportMethod::Trace),
    ];
    for (method, expected) in pairs {
        assert!(is_sendable(&method));
        assert_eq!(convert_http_method(&method), expected);
    }
}

#[test]
fn extension_method_is_not_sendable() {
    assert!(!is_sendable(&Method::Extension("PURGE".to_string())));
}

#[test]
fn status_codes_from_100_to_999() {
    assert!(StatusCode::from_u16(99).is_none());
    assert_eq!(StatusCode::from_u16(100).unwrap().as_u16(), 100);
    assert_eq!(StatusCode::from_u16(200).unwrap().as_u16(), 200);
    assert_eq!(StatusCode::from_u16(999).unwrap().as_u16(), 999);
    assert!(StatusCode::from_u16(1000).is_none());
    assert!(StatusCode::from_u16(0).is_none());
}

#[test]
fn error_messages() {
    assert_eq!(Error::InvalidUrl.message(), "Invalid URL");
    assert_eq!(Error::BuildFailed.message(), "Failed to build request.");
    assert_eq!(Error::TransportFailed.message(), "minreq failed");
    assert_eq!(Error::TaskFailed.message(), "Spawn blocking task failed");
}

#[test]
fn reqwest_error_messages() {
    let e = ReqwestError::new(Kind::Decode, None);
    assert_eq!(e.message(), "3DS Reqwest Stub Error: Decode");
    assert!(e.url().is_none());
    let url = Url::parse("https://example.com").unwrap();
    let e = ReqwestError::new(Kind::Status(StatusCode::from_u16(404).unwrap()), Some(url));
    assert_eq!(e.message(), "3DS Reqwest Stub Error: Status(404, None)");
    assert_eq!(e.kind(), Kind::Status(StatusCode::from_u16(404).unwrap()));
    assert_eq!(e.url().unwrap().as_str(), "https://example.com/");
    assert_eq!(ReqwestError::new(Kind::Builder, None).message(), "3DS Reqwest Stub Error: Builder");
    assert_eq!(
        ReqwestError::new(Kind::Status(StatusCode::from_u16(100).unwrap()), None).message(),
        "3DS Reqwest Stub Error: Status(100, None)"
    );
}
