//! A minimal client whose builder only collects a method, a URL and headers.

use vstd::prelude::*;

use crate::address::Url;
use crate::client::{headers_after_header, set_header};
use crate::header::{header_entries, header_map_safe_len, new_header_map};
use crate::method::Method;
use crate::multipart::Form;

verus! {

/// Whether the minimal builder can set more than single headers. It cannot:
/// setting a body, a multipart form or a whole header map has no
/// implementation, so every such call is refused.
pub open spec fn more_than_headers_supported() -> bool {
    false
}

/// The body of a request made with the minimal builder, which holds nothing.
pub struct Body;

/// A client with no configuration.
#[derive(Debug)]
pub struct Client;

impl Client {
    pub fn new() -> (client: Self) {
        Client
    }

    /// Starts a request with the given method to the given URL, with no
    /// header and no body.
    pub fn request(&self, method: Method, url: Url) -> (builder: ReqwestRequestBuilder)
        ensures
            builder.method_spec() == method,
            builder.url_spec() == url@,
            builder.headers_spec() == Seq::<(Seq<u8>, Seq<Seq<u8>>)>::empty(),
            builder.body_spec() is None,
    {
        ReqwestRequestBuilder { method, url, headers: new_header_map(), body: None }
    }
}

/// A request under construction: method, URL, headers and an optional body.
pub struct ReqwestRequestBuilder {
    method: Method,
    url: Url,
    headers: http::header::HeaderMap,
    body: Option<Vec<u8>>,
}

impl ReqwestRequestBuilder {
    pub closed spec fn method_spec(&self) -> Method {
        self.method
    }

    pub closed spec fn url_spec(&self) -> Seq<char> {
        self.url@
    }

    pub closed spec fn headers_spec(&self) -> Seq<(Seq<u8>, Seq<Seq<u8>>)> {
        header_entries(self.headers)
    }

    pub closed spec fn body_spec(&self) -> Option<Seq<u8>> {
        match self.body {
            Some(b) => Some(b@),
            None => None,
        }
    }

    /// Sets a header: when the name and the value are a header name and a
    /// header value, the value replaces every value the name had; otherwise
    /// nothing changes.
    pub fn header(self, key: &str, value: &str) -> (builder: Self)
        requires
            self.headers_spec().len() <= header_map_safe_len(),
        ensures
            builder.method_spec() == self.method_spec(),
            builder.url_spec() == self.url_spec(),
            builder.body_spec() == self.body_spec(),
            builder.headers_spec() == headers_after_header(self.headers_spec(), key@, value@),
    {
        let mut builder = self;
        set_header(&mut builder.headers, key, value);
        builder
    }

    /// Setting a body is not supported: no call is admitted.
    pub fn body(self, body: Body) -> (builder: Self)
        requires
            more_than_headers_supported(),
    {
        self
    }

    /// Setting a multipart form is not supported: no call is admitted.
    pub fn multipart(self, form: Form) -> (builder: Self)
        requires
            more_than_headers_supported(),
    {
        self
    }

    /// Setting a whole header map is not supported: no call is admitted.
    pub fn headers(self, headers: http::header::HeaderMap) -> (builder: Self)
        requires
            more_than_headers_supported(),
    {
        self
    }

    pub fn method(&self) -> (method: &Method)
        ensures
            *method == self.method_spec(),
    {
        &self.method
    }

    pub fn url(&self) -> (url: &Url)
        ensures
            url@ == self.url_spec(),
    {
        &self.url
    }

    pub fn header_map(&self) -> (headers: &http::header::HeaderMap)
        ensures
            header_entries(*headers) == self.headers_spec(),
    {
        &self.headers
    }
}

} // verus!
