//! The client, its configuration, requests and the builder that makes them.

use std::sync::Arc;

use vstd::prelude::*;
use vstd::string::*;
use vstd::multiset::Multiset;
use vstd::utf8::encode_utf8;

use crate::address::{IntoUrl, IntoUrlSealed, Url};
use crate::error::Error;
use crate::header::{
    extend_entries, header_entries, header_map_extend, header_map_insert, header_map_safe_len,
    header_name_from_bytes, is_header_value, lemma_parsed_name_is_canonical, lemma_put_entry_values,
    new_header_map, parse_header_name, parse_header_value, put_entry, values_of, entry_index,
    header_map_entries, lemma_extend_entries_values,
};
use crate::method::Method;
use crate::multipart::{multipart_supported, Form};

verus! {

#[verifier::external_type_specification]
#[verifier::external_body]
pub struct ExExtensions(http::Extensions);

/// What an `http::Extensions` type map holds: one unit per stored value. The
/// values are of arbitrary types, so only how many there are is kept.
pub uninterp spec fn extension_entries(extensions: http::Extensions) -> Multiset<()>;

/// `http::Extensions::new`, which makes the map with no inner table: it holds
/// nothing.
#[verifier::external_body]
fn new_extensions() -> (extensions: http::Extensions)
    ensures
        extension_entries(extensions) == Multiset::<()>::empty(),
{
    http::Extensions::new()
}

/// An HTTP protocol version.
#[derive(Clone, Copy, Debug, PartialEq, Eq, Structural)]
pub enum Version {
    Http09,
    Http10,
    Http11,
    H2,
    H3,
}

/// `Arc::clone`, which hands out another pointer to the same configuration.
#[verifier::external_body]
fn share_config(config: &Arc<Config>) -> (shared: Arc<Config>)
    ensures
        shared == *config,
{
    Arc::clone(config)
}

/// The user agent that a new client is configured with.
pub const DEFAULT_USER_AGENT: &'static str = "DiscordBot (https://github.com/serenity-rs/serenity)";

/// The settings a client is made with.
#[derive(Debug)]
pub struct Config {
    /// The user agent, as the bytes of a header value.
    pub user_agent: Option<Vec<u8>>,
    /// Timeout in seconds.
    pub timeout: Option<u64>,
    pub proxy: Option<String>,
}

impl Config {
    /// The settings of a new client: the default user agent, a timeout of
    /// 30 seconds and no proxy.
    pub open spec fn is_default(&self) -> bool {
        &&& self.user_agent matches Some(agent) && agent@ == DEFAULT_USER_AGENT.spec_bytes()
        &&& self.timeout == Some(30u64)
        &&& self.proxy is None
    }
}

impl Default for Config {
    fn default() -> (config: Self)
        ensures
            config.is_default(),
    {
        let agent: &str = DEFAULT_USER_AGENT;
        proof {
            reveal_strlit("DiscordBot (https://github.com/serenity-rs/serenity)");
            assert(is_ascii(agent));
            is_ascii_spec_bytes(agent);
            assert(is_header_value(agent.spec_bytes()));
        }
        let user_agent = parse_header_value(agent.as_bytes());
        Config { user_agent, timeout: Some(30), proxy: None }
    }
}

/// A client: the configuration that every request it makes is sent with.
#[derive(Debug, Clone)]
pub struct Client {
    config: Arc<Config>,
}

impl Client {
    /// The configuration the client was made with.
    pub closed spec fn config_spec(&self) -> Config {
        *self.config
    }

    /// A client with the default configuration.
    pub fn new() -> (client: Client)
        ensures
            client.config_spec().is_default(),
    {
        Client { config: Arc::new(ClientBuilder::new().config) }
    }

    /// A builder for a client, starting from the default configuration.
    pub fn builder() -> (builder: ClientBuilder)
        ensures
            builder.config.is_default(),
    {
        ClientBuilder::new()
    }

    /// The configuration the client was made with.
    pub fn config(&self) -> (config: &Config)
        ensures
            *config == self.config_spec(),
    {
        &*self.config
    }

    /// Starts a request with the given method to the given URL. A URL given
    /// as text that does not parse leaves the builder holding
    /// `Error::InvalidUrl`.
    pub fn request<U: IntoUrl>(&self, method: Method, url: U) -> (builder: RequestBuilder)
        ensures
            builder.client_spec().config_spec() == self.config_spec(),
            url.url_of() is None ==> builder.request_spec() == Err::<Request, Error>(
                Error::InvalidUrl,
            ),
            url.url_of() matches Some(u) ==> builder.request_spec() matches Ok(r) && r.is_new(
                method,
                u,
            ),
    {
        let request = match url.into_url() {
            Ok(url) => Ok(Request::new(method, url)),
            Err(e) => Err(e),
        };
        RequestBuilder::new(Client { config: share_config(&self.config) }, request)
    }

    /// Starts a GET request to the given URL.
    pub fn get<U: IntoUrl>(&self, url: U) -> (builder: RequestBuilder)
        ensures
            builder.client_spec().config_spec() == self.config_spec(),
            url.url_of() is None ==> builder.request_spec() == Err::<Request, Error>(
                Error::InvalidUrl,
            ),
            url.url_of() matches Some(u) ==> builder.request_spec() matches Ok(r) && r.is_new(
                Method::Get,
                u,
            ),
    {
        self.request(Method::Get, url)
    }
}

/// Builds a client from a configuration.
pub struct ClientBuilder {
    pub config: Config,
}

impl ClientBuilder {
    /// A builder holding the default configuration.
    pub fn new() -> (builder: ClientBuilder)
        ensures
            builder.config.is_default(),
    {
        ClientBuilder { config: Config::default() }
    }

    /// The client with the builder's configuration; building cannot fail.
    pub fn build(self) -> (client: Result<Client, Error>)
        ensures
            client matches Ok(c) && c.config_spec() == self.config,
    {
        Ok(Client { config: Arc::new(self.config) })
    }

    /// Asks for TLS through rustls, which the transport uses anyway: the
    /// builder is handed back as it was.
    pub fn use_rustls_tls(self) -> (builder: Self)
        ensures
            builder.config == self.config,
    {
        self
    }
}

/// The body of a request: its bytes.
pub struct Body {
    bytes: Vec<u8>,
}

impl View for Body {
    type V = Seq<u8>;

    closed spec fn view(&self) -> Seq<u8> {
        self.bytes@
    }
}

impl Body {
    /// The bytes of the body.
    pub fn as_bytes(&self) -> (bytes: &[u8])
        ensures
            bytes@ == self@,
    {
        self.bytes.as_slice()
    }

    /// The bytes of the body, taken out of it.
    pub fn into_bytes(self) -> (bytes: Vec<u8>)
        ensures
            bytes@ == self@,
    {
        self.bytes
    }
}

impl From<Vec<u8>> for Body {
    fn from(value: Vec<u8>) -> (body: Self)
        ensures
            body@ == value@,
    {
        Body { bytes: value }
    }
}

impl vstd::std_specs::convert::FromSpecImpl<Vec<u8>> for Body {
    open spec fn obeys_from_spec() -> bool {
        true
    }

    closed spec fn from_spec(v: Vec<u8>) -> Body {
        Body { bytes: v }
    }
}

/// An HTTP request: method, URL, headers and an optional body.
pub struct Request {
    method: Method,
    url: Url,
    headers: http::header::HeaderMap,
    body: Option<Body>,
    version: Version,
    extensions: http::Extensions,
}

impl Request {
    pub closed spec fn method_spec(&self) -> Method {
        self.method
    }

    /// The serialization of the request's URL.
    pub closed spec fn url_spec(&self) -> Seq<char> {
        self.url@
    }

    pub closed spec fn headers_spec(&self) -> Seq<(Seq<u8>, Seq<Seq<u8>>)> {
        header_entries(self.headers)
    }

    pub closed spec fn body_spec(&self) -> Option<Seq<u8>> {
        match self.body {
            Some(b) => Some(b@),
            None => None,
        }
    }

    pub closed spec fn version_spec(&self) -> Version {
        self.version
    }

    /// What the request's extensions hold.
    pub closed spec fn extensions_spec(&self) -> Multiset<()> {
        extension_entries(self.extensions)
    }

    /// A request as `Request::new` makes it: the given method and URL, no
    /// header and no body, for HTTP/1.1 and with no extension.
    pub open spec fn is_new(&self, method: Method, url: Seq<char>) -> bool {
        &&& self.method_spec() == method
        &&& self.url_spec() == url
        &&& self.headers_spec() == Seq::<(Seq<u8>, Seq<Seq<u8>>)>::empty()
        &&& self.body_spec() is None
        &&& self.version_spec() == Version::Http11
        &&& self.extensions_spec() == Multiset::<()>::empty()
    }

    /// A request with the given method and URL, no header and no body, for
    /// HTTP/1.1 (the version `http` defaults to) and with no extension.
    pub fn new(method: Method, url: Url) -> (request: Request)
        ensures
            request.is_new(method, url@),
    {
        Request {
            method,
            url,
            headers: new_header_map(),
            body: None,
            version: Version::Http11,
            extensions: new_extensions(),
        }
    }

    pub fn method(&self) -> (method: &Method)
        ensures
            *method == self.method_spec(),
    {
        &self.method
    }

    pub fn url(&self) -> (url: &Url)
        ensures
            url@ == self.url_spec(),
    {
        &self.url
    }

    pub fn headers(&self) -> (headers: &http::header::HeaderMap)
        ensures
            header_entries(*headers) == self.headers_spec(),
    {
        &self.headers
    }

    /// The method, URL, headers and body of the request, taken apart.
    pub fn into_parts(self) -> (parts: (Method, Url, http::header::HeaderMap, Option<Body>))
        ensures
            parts.0 == self.method_spec(),
            parts.1@ == self.url_spec(),
            header_entries(parts.2) == self.headers_spec(),
            parts.3 matches Some(b) ==> self.body_spec() == Some(b@),
            parts.3 is None ==> self.body_spec() is None,
    {
        (self.method, self.url, self.headers, self.body)
    }

    pub fn version(&self) -> (version: Version)
        ensures
            version == self.version_spec(),
    {
        self.version
    }

    pub fn body(&self) -> (body: Option<&Body>)
        ensures
            body matches Some(b) ==> self.body_spec() == Some(b@),
            body is None ==> self.body_spec() is None,
    {
        match &self.body {
            Some(b) => Some(b),
            None => None,
        }
    }
}

/// The headers of a request after `RequestBuilder::header` with the given
/// name and value texts: the value is stored under the name when `http`
/// accepts both, and nothing changes otherwise.
pub open spec fn headers_after_header(
    headers: Seq<(Seq<u8>, Seq<Seq<u8>>)>,
    key: Seq<char>,
    value: Seq<char>,
) -> Seq<(Seq<u8>, Seq<Seq<u8>>)> {
    match header_name_from_bytes(encode_utf8(key)) {
        Some(name) => if is_header_value(encode_utf8(value)) {
            put_entry(headers, name, seq![encode_utf8(value)])
        } else {
            headers
        },
        None => headers,
    }
}

/// A header map with no entry.
pub fn empty_headers() -> (map: http::header::HeaderMap)
    ensures
        header_entries(map) == Seq::<(Seq<u8>, Seq<Seq<u8>>)>::empty(),
{
    new_header_map()
}

/// The number of entries of a map: one per distinct name.
pub fn header_count(map: &http::header::HeaderMap) -> (n: usize)
    ensures
        n == header_entries(*map).len(),
{
    header_map_entries(map).len()
}

/// Sets a header in a map: when the name and the value are a header name and
/// a header value, the value replaces every value the name had; otherwise
/// nothing changes.
pub fn set_header(map: &mut http::header::HeaderMap, key: &str, value: &str)
    requires
        header_entries(*old(map)).len() <= header_map_safe_len(),
    ensures
        header_entries(*final(map)) == headers_after_header(header_entries(*old(map)), key@, value@),
{
    let name = parse_header_name(key.as_bytes());
    let checked = parse_header_value(value.as_bytes());
    match (name, checked) {
        (Some(n), Some(v)) => {
            proof {
                lemma_parsed_name_is_canonical(key.spec_bytes());
            }
            header_map_insert(map, n.as_slice(), v.as_slice());
        },
        _ => {},
    }
}

/// `after` is `before` with other headers and the same method, URL, body,
/// version and extensions.
pub open spec fn same_but_headers(
    before: Request,
    after: Request,
    headers: Seq<(Seq<u8>, Seq<Seq<u8>>)>,
) -> bool {
    &&& after.method_spec() == before.method_spec()
    &&& after.url_spec() == before.url_spec()
    &&& after.body_spec() == before.body_spec()
    &&& after.version_spec() == before.version_spec()
    &&& after.extensions_spec() == before.extensions_spec()
    &&& after.headers_spec() == headers
}

/// A request under construction, or the error that stopped its
/// construction, with the client that will send it.
pub struct RequestBuilder {
    client: Client,
    request: Result<Request, Error>,
}

impl RequestBuilder {
    pub closed spec fn client_spec(&self) -> Client {
        self.client
    }

    pub closed spec fn request_spec(&self) -> Result<Request, Error> {
        self.request
    }

    /// A builder for the given request, or holding the given error.
    pub fn new(client: Client, request: Result<Request, Error>) -> (builder: Self)
        ensures
            builder.client_spec() == client,
            builder.request_spec() == request,
    {
        RequestBuilder { client, request }
    }

    /// Sets a header: when the name and the value are a header name and a
    /// header value, the value replaces every value the name had; otherwise,
    /// or when the builder holds an error, nothing changes.
    pub fn header(self, key: &str, value: &str) -> (builder: Self)
        requires
            self.request_spec() matches Ok(r) ==> r.headers_spec().len() <= header_map_safe_len(),
        ensures
            builder.client_spec() == self.client_spec(),
            self.request_spec() matches Err(e) ==> builder.request_spec() == Err::<Request, Error>(
                e,
            ),
            self.request_spec() matches Ok(r) ==> builder.request_spec() matches Ok(r2)
                && same_but_headers(r, r2, headers_after_header(r.headers_spec(), key@, value@)),
    {
        let RequestBuilder { client, request } = self;
        match request {
            Ok(mut req) => {
                set_header(&mut req.headers, key, value);
                RequestBuilder { client, request: Ok(req) }
            },
            Err(e) => RequestBuilder { client, request: Err(e) },
        }
    }

    /// Sets the body; a builder holding an error is left as it is.
    pub fn body(self, body: Body) -> (builder: Self)
        ensures
            builder.client_spec() == self.client_spec(),
            self.request_spec() matches Err(e) ==> builder.request_spec() == Err::<Request, Error>(
                e,
            ),
            self.request_spec() matches Ok(r) ==> builder.request_spec() matches Ok(r2) && {
                &&& r2.method_spec() == r.method_spec()
                &&& r2.url_spec() == r.url_spec()
                &&& r2.headers_spec() == r.headers_spec()
                &&& r2.body_spec() == Some(body@)
                &&& r2.version_spec() == r.version_spec()
                &&& r2.extensions_spec() == r.extensions_spec()
            },
    {
        let RequestBuilder { client, request } = self;
        match request {
            Ok(mut req) => {
                req.body = Some(body);
                RequestBuilder { client, request: Ok(req) }
            },
            Err(e) => RequestBuilder { client, request: Err(e) },
        }
    }

    /// Adds a map of headers: each name of the map takes the map's values in
    /// place of all it had, and every other name keeps its values. A builder
    /// holding an error is left as it is.
    pub fn headers(self, headers: http::header::HeaderMap) -> (builder: Self)
        requires
            self.request_spec() matches Ok(r) ==> (header_entries(headers).len() > 0
                ==> extend_entries(r.headers_spec(), header_entries(headers)).len()
                <= header_map_safe_len()),
        ensures
            builder.client_spec() == self.client_spec(),
            self.request_spec() matches Err(e) ==> builder.request_spec() == Err::<Request, Error>(
                e,
            ),
            self.request_spec() matches Ok(r) ==> (builder.request_spec() matches Ok(r2)
                && same_but_headers(
                r,
                r2,
                extend_entries(r.headers_spec(), header_entries(headers)),
            ) && forall|name: Seq<u8>|
                #[trigger] values_of(r2.headers_spec(), name) == (if entry_index(
                    header_entries(headers),
                    name,
                ) is Some {
                    values_of(header_entries(headers), name)
                } else {
                    values_of(r.headers_spec(), name)
                })),
    {
        let RequestBuilder { client, request } = self;
        match request {
            Ok(mut req) => {
                let ghost before = header_entries(req.headers);
                // Reading the added map's entries shows that its names are
                // distinct, which the values read back after extending rest on.
                let _added = header_map_entries(&headers);
                proof {
                    assert forall|name: Seq<u8>|
                        #[trigger] values_of(extend_entries(before, header_entries(headers)), name)
                            == (if entry_index(header_entries(headers), name) is Some {
                            values_of(header_entries(headers), name)
                        } else {
                            values_of(before, name)
                        }) by {
                        lemma_extend_entries_values(before, header_entries(headers), name);
                    }
                }
                header_map_extend(&mut req.headers, headers);
                RequestBuilder { client, request: Ok(req) }
            },
            Err(e) => RequestBuilder { client, request: Err(e) },
        }
    }

    /// Sending a multipart form as the body is not supported: no call is
    /// admitted.
    pub fn multipart(self, form: Form) -> (builder: Self)
        requires
            multipart_supported(),
    {
        self
    }

    /// The client and the request (or the error), taken apart.
    pub fn into_parts(self) -> (parts: (Client, Result<Request, Error>))
        ensures
            parts.0 == self.client_spec(),
            parts.1 == self.request_spec(),
    {
        (self.client, self.request)
    }

    /// The request, or the error that stopped its construction.
    pub fn build(self) -> (request: Result<Request, Error>)
        ensures
            request == self.request_spec(),
    {
        self.request
    }
}

/// Setting a header that `http` accepts on a request: reading the header
/// back gives exactly the value set, and every other header reads as before.
pub proof fn lemma_header_read_back(
    headers: Seq<(Seq<u8>, Seq<Seq<u8>>)>,
    key: Seq<char>,
    value: Seq<char>,
    other: Seq<u8>,
)
    requires
        header_name_from_bytes(encode_utf8(key)) is Some,
        is_header_value(encode_utf8(value)),
    ensures
        values_of(
            headers_after_header(headers, key, value),
            header_name_from_bytes(encode_utf8(key)).unwrap(),
        ) == seq![encode_utf8(value)],
        other != header_name_from_bytes(encode_utf8(key)).unwrap() ==> values_of(
            headers_after_header(headers, key, value),
            other,
        ) == values_of(headers, other),
{
    lemma_put_entry_values(
        headers,
        header_name_from_bytes(encode_utf8(key)).unwrap(),
        seq![encode_utf8(value)],
        other,
    );
}

} // verus!
