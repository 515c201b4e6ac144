//! Absolute URLs, and the values that can be turned into one.

use vstd::prelude::*;

use crate::error::Error;

verus! {

/// The serialization of the URL that `url::Url::parse` makes of a text, or
/// none where the text is not an absolute URL. Parsing follows the WHATWG URL
/// standard and takes pages to state, so only its result is named here.
pub uninterp spec fn url_parse(input: Seq<char>) -> Option<Seq<char>>;

/// Whether the URL that `url::Url::parse` makes of a text has a host, as
/// `url::Url::has_host` tells (a `mailto:` or `data:` URL has none).
pub uninterp spec fn url_has_host(input: Seq<char>) -> bool;

/// `url::Url::parse`, then `url::Url::has_host` and `String::from(Url)`,
/// which hands out the URL's serialization: the serialization is `url_parse`
/// of the text and the flag is `url_has_host` of it.
#[verifier::external_body]
fn parse_url_serialization(input: &str) -> (parsed: Option<(String, bool)>)
    ensures
        parsed matches Some((s, host)) ==> url_parse(input@) == Some(s@) && host == url_has_host(
            input@,
        ),
        parsed is None ==> url_parse(input@) is None,
{
    url::Url::parse(input).ok().map(|u| {
        let host = u.has_host();
        (String::from(u), host)
    })
}

/// An absolute URL, kept as its serialization, with whether it has a host.
#[derive(Clone, Debug, PartialEq, Eq)]
pub struct Url {
    serialization: String,
    host: bool,
}

impl View for Url {
    type V = Seq<char>;

    closed spec fn view(&self) -> Seq<char> {
        self.serialization@
    }
}

/// The URL that a text gives where a request can go to it: one that parses
/// and has a host.
pub open spec fn request_url(input: Seq<char>) -> Option<Seq<char>> {
    match url_parse(input) {
        Some(s) => if url_has_host(input) {
            Some(s)
        } else {
            None
        },
        None => None,
    }
}

/// Text names the URL a request goes to exactly when `url` parses it and
/// the parsed URL has a host; that URL is then the parsed one.
pub proof fn lemma_request_url_exactly(input: Seq<char>)
    ensures
        url_parse(input) is Some && url_has_host(input) ==> request_url(input) == url_parse(input),
        !(url_parse(input) is Some && url_has_host(input)) ==> request_url(input) is None,
{
}

impl Url {
    /// Whether the URL has a host.
    pub closed spec fn has_host_spec(&self) -> bool {
        self.host
    }

    /// Parses an absolute URL.
    pub fn parse(input: &str) -> (url: Result<Url, Error>)
        ensures
            url matches Ok(u) ==> url_parse(input@) == Some(u@) && u.has_host_spec()
                == url_has_host(input@),
            url matches Err(e) ==> url_parse(input@) is None && e == Error::InvalidUrl,
    {
        match parse_url_serialization(input) {
            Some((serialization, host)) => Ok(Url { serialization, host }),
            None => Err(Error::InvalidUrl),
        }
    }

    /// Whether the URL has a host.
    pub fn has_host(&self) -> (host: bool)
        ensures
            host == self.has_host_spec(),
    {
        self.host
    }

    /// The serialization of the URL.
    pub fn as_str(&self) -> (text: &str)
        ensures
            text@ == self@,
    {
        self.serialization.as_str()
    }
}

/// What can be turned into a `Url` for a request: a `Url` itself, or a
/// text to parse.
pub trait IntoUrlSealed: Sized {
    /// The URL that the value turns into, as its serialization, or none
    /// where it has none with a host.
    spec fn url_of(&self) -> Option<Seq<char>>;

    /// The text that the value shows.
    spec fn text_of(&self) -> Seq<char>;

    /// Turns the value into a URL that a request can go to: besides parsing
    /// as a URL, it must have a host, as a URI for a network request does.
    /// Anything else gives `Error::InvalidUrl`.
    fn into_url(self) -> (url: Result<Url, Error>)
        ensures
            url matches Ok(u) ==> self.url_of() == Some(u@),
            url matches Err(e) ==> self.url_of() is None && e == Error::InvalidUrl,
    ;

    /// The text of the value.
    fn as_str(&self) -> (text: &str)
        ensures
            text@ == self.text_of(),
    ;
}

/// The values that a client accepts where it expects a URL.
pub trait IntoUrl: IntoUrlSealed {

}

impl IntoUrlSealed for Url {
    open spec fn url_of(&self) -> Option<Seq<char>> {
        if self.has_host_spec() {
            Some(self@)
        } else {
            None
        }
    }

    open spec fn text_of(&self) -> Seq<char> {
        self@
    }

    fn into_url(self) -> (url: Result<Url, Error>) {
        if self.has_host() {
            Ok(self)
        } else {
            Err(Error::InvalidUrl)
        }
    }

    fn as_str(&self) -> (text: &str) {
        self.serialization.as_str()
    }
}

impl<'a> IntoUrlSealed for &'a str {
    open spec fn url_of(&self) -> Option<Seq<char>> {
        request_url((**self)@)
    }

    open spec fn text_of(&self) -> Seq<char> {
        (**self)@
    }

    fn into_url(self) -> (url: Result<Url, Error>) {
        match Url::parse(self) {
            Ok(url) => url.into_url(),
            Err(e) => Err(e),
        }
    }

    fn as_str(&self) -> (text: &str) {
        *self
    }
}

impl<'a> IntoUrlSealed for &'a String {
    open spec fn url_of(&self) -> Option<Seq<char>> {
        request_url((**self)@)
    }

    open spec fn text_of(&self) -> Seq<char> {
        (**self)@
    }

    fn into_url(self) -> (url: Result<Url, Error>) {
        match Url::parse(self.as_str()) {
            Ok(url) => url.into_url(),
            Err(e) => Err(e),
        }
    }

    fn as_str(&self) -> (text: &str) {
        (**self).as_str()
    }
}

impl IntoUrlSealed for String {
    open spec fn url_of(&self) -> Option<Seq<char>> {
        request_url(self@)
    }

    open spec fn text_of(&self) -> Seq<char> {
        self@
    }

    fn into_url(self) -> (url: Result<Url, Error>) {
        match Url::parse(self.as_str()) {
            Ok(url) => url.into_url(),
            Err(e) => Err(e),
        }
    }

    fn as_str(&self) -> (text: &str) {
        self.as_str()
    }
}

/// A `Url` with a host turns into itself, whatever its scheme, and one with
/// no host turns into nothing.
pub proof fn lemma_url_into_url(u: Url)
    ensures
        u.has_host_spec() ==> u.url_of() == Some(u@),
        !u.has_host_spec() ==> u.url_of() is None,
{
}

/// Text turns into the same URL whether it is given as a `&str`, a `String`
/// or a `&String`: the one `url` parses from it when that has a host.
pub proof fn lemma_text_into_url(s: String, t: &str)
    ensures
        s.url_of() == request_url(s@),
        <&String as IntoUrlSealed>::url_of(&&s) == request_url(s@),
        <&str as IntoUrlSealed>::url_of(&t) == request_url(t@),
        s@ == t@ ==> s.url_of() == <&str as IntoUrlSealed>::url_of(&t),
{
}

impl IntoUrl for Url {

}

impl IntoUrl for String {

}

impl<'a> IntoUrl for &'a str {

}

impl<'a> IntoUrl for &'a String {

}

} // verus!
