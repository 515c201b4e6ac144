use three_ds_http::address::{IntoUrlSealed, Url};
use three_ds_http::error::Error;

#[test]
fn parses_absolute_url_into_its_serialization() {
    let url = Url::parse("https://example.net").unwrap();
    assert_eq!(url.as_str(), "https://example.net/");
    let url = Url::parse("HTTP://Example.COM/a/../b?q=1").unwrap();
    assert_eq!(url.as_str(), "http://example.com/b?q=1");
}

#[test]
fn relative_or_garbage_url_is_invalid() {
    assert_eq!(Url::parse("not a url"), Err(Error::InvalidUrl));
    assert_eq!(Url::parse("/relative/path"), Err(Error::InvalidUrl));
    assert_eq!(Url::parse(""), Err(Error::InvalidUrl));
}

#[test]
fn into_url_for_each_kind_of_value() {
    let parsed = Url::parse("https://discord.com/api").unwrap();
    assert_eq!(parsed.clone().into_url(), Ok(parsed.clone()));
    assert_eq!("https://discord.com/api".into_url(), Ok(parsed.clone()));
    assert_eq!(String::from("https://discord.com/api").into_url(), Ok(parsed.clone()));
    let owned = String::from("https://discord.com/api");
    assert_eq!((&owned).into_url(), Ok(parsed.clone()));
    assert_eq!("nope".into_url(), Err(Error::InvalidUrl));
    assert_eq!(String::from("nope").into_url(), Err(Error::InvalidUrl));
}

#[test]
fn into_url_text() {
    let parsed = Url::parse("https://discord.com/api").unwrap();
    assert_eq!(IntoUrlSealed::as_str(&parsed), "https://discord.com/api");
    assert_eq!(IntoUrlSealed::as_str(&"abc"), "abc");
    let owned = String::from("xyz");
    assert_eq!(IntoUrlSealed::as_str(&owned), "xyz");
    assert_eq!(IntoUrlSealed::as_str(&&owned), "xyz");
}

#[test]
fn url_without_host_is_refused_for_requests() {
    let mail = Url::parse("mailto:a@b.c").unwrap();
    assert!(!mail.has_host());
    assert_eq!(mail.into_url(), Err(Error::InvalidUrl));
    assert_eq!("mailto:a@b.c".into_url(), Err(Error::InvalidUrl));
    assert_eq!(String::from("data:text/plain,Stuff").into_url(), Err(Error::InvalidUrl));
    let owned = String::from("unix:/run/foo.socket");
    assert_eq!((&owned).into_url(), Err(Error::InvalidUrl));
    assert!(Url::parse("https://example.com").unwrap().has_host());
}
