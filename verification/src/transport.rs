//! Sending a request: what the blocking transport is handed, and what is
//! made of what it hands back.

use vstd::prelude::*;

use crate::address::Url;
use crate::client::{Client, Request, RequestBuilder};
use crate::error::Error;
use crate::header::{flatten_entries, header_entries, header_map_entries, is_visible_ascii};
use crate::method::{convert_http_method, is_sendable, transport_method_of, TransportMethod};
use crate::response::{
    can_take_response, http_response_from_minreq_response, response_header_entries, Response,
};
use vstd::slice::slice_to_vec;
use vstd::utf8::valid_utf8;

verus! {

/// `std::str::from_utf8(..).is_ok()`: whether the bytes are UTF-8, in the
/// sense of vstd's `valid_utf8`.
#[verifier::external_body]
fn is_utf8(bytes: &[u8]) -> (valid: bool)
    ensures
        valid == valid_utf8(bytes@),
{
    std::str::from_utf8(bytes).is_ok()
}

/// A request as the blocking transport sends it.
pub struct TransportRequest {
    pub method: TransportMethod,
    /// The serialization of the URL.
    pub url: String,
    /// The headers, name and value, in the order in which the request's
    /// header map yields them.
    pub headers: Vec<(Vec<u8>, Vec<u8>)>,
    pub body: Option<Vec<u8>>,
}

/// A response as the blocking transport hands it over.
pub struct TransportResponse {
    pub status_code: i32,
    /// The response headers, name and value, in the order in which the
    /// transport's map of them was walked.
    pub headers: Vec<(String, String)>,
    pub body: Vec<u8>,
}

/// How the blocking exchange ended.
pub enum TransportOutcome {
    /// A response came back.
    Received(TransportResponse),
    /// The transport could not send the request or read the response.
    SendFailed,
    /// The blocking task did not finish.
    TaskFailed,
}

/// What sending a request takes: the exchange to hand to the transport,
/// with the URL that the response will carry, or the error that ends it
/// before any exchange.
pub enum Dispatch {
    Send(TransportRequest, Url),
    Failed(Error),
}

/// The text of a header value, as `HeaderValue::to_str` gives it, or the
/// empty text where it gives none: a value whose bytes are all visible ASCII
/// reads as itself.
pub open spec fn header_text(value: Seq<u8>) -> Seq<u8> {
    if forall|i: int| 0 <= i < value.len() ==> is_visible_ascii(#[trigger] value[i]) {
        value
    } else {
        Seq::empty()
    }
}

/// The headers that the transport sends for a header map: every (name,
/// value) pair in the map's order, each value as its text.
pub open spec fn transport_headers(entries: Seq<(Seq<u8>, Seq<Seq<u8>>)>) -> Seq<(Seq<u8>, Seq<u8>)> {
    flatten_entries(entries).map_values(|p: (Seq<u8>, Seq<u8>)| (p.0, header_text(p.1)))
}

/// A request that the transport can carry: a standard method, and a body, if
/// any, that is UTF-8 text.
pub open spec fn can_dispatch(request: Request) -> bool {
    &&& request.method_spec().is_standard()
    &&& request.body_spec() matches Some(b) ==> valid_utf8(b)
}

/// A header value is sent as itself exactly when each of its bytes is a tab
/// or a character from the space to `~` (what `HeaderValue::to_str`
/// accepts); a value holding any other byte is sent as the empty text.
pub proof fn lemma_header_text_is_value_or_empty(value: Seq<u8>)
    ensures
        (forall|i: int| 0 <= i < value.len() ==> (32 <= #[trigger] value[i] <= 126 || value[i] == 9))
            ==> header_text(value) == value,
        (exists|i: int| 0 <= i < value.len() && !(32 <= #[trigger] value[i] <= 126 || value[i] == 9))
            ==> header_text(value) == Seq::<u8>::empty(),
{
    if exists|i: int| 0 <= i < value.len() && !(32 <= #[trigger] value[i] <= 126 || value[i] == 9) {
        let i = choose|i: int| 0 <= i < value.len() && !(32 <= #[trigger] value[i] <= 126 || value[i]
            == 9);
        assert(!is_visible_ascii(value[i]));
    }
}

/// When every header value of a map is text, the transport is handed every
/// (name, value) pair of the map, in the map's order, with the values as
/// they are.
pub proof fn lemma_text_headers_sent_unchanged(entries: Seq<(Seq<u8>, Seq<Seq<u8>>)>)
    requires
        forall|p: (Seq<u8>, Seq<u8>)|
            flatten_entries(entries).contains(p) ==> forall|i: int|
                0 <= i < p.1.len() ==> (32 <= #[trigger] p.1[i] <= 126 || p.1[i] == 9),
    ensures
        transport_headers(entries) == flatten_entries(entries),
{
    let flat = flatten_entries(entries);
    assert forall|k: int| 0 <= k < flat.len() implies #[trigger] transport_headers(entries)[k]
        == flat[k] by {
        assert(flat.contains(flat[k]));
        lemma_header_text_is_value_or_empty(flat[k].1);
    }
    assert(transport_headers(entries) =~= flat);
}

/// The `j`-th value stored under the `i`-th name stands among the pairs of
/// the map.
proof fn lemma_flatten_has(entries: Seq<(Seq<u8>, Seq<Seq<u8>>)>, i: int, j: int)
    requires
        0 <= i < entries.len(),
        0 <= j < entries[i].1.len(),
    ensures
        exists|k: int|
            0 <= k < flatten_entries(entries).len() && #[trigger] flatten_entries(entries)[k] == (
            entries[i].0,
            entries[i].1[j],
        ),
    decreases entries.len(),
{
    let pre = flatten_entries(entries.drop_last());
    let tail = entries.last().1.map_values(|v: Seq<u8>| (entries.last().0, v));
    assert(flatten_entries(entries) == pre + tail);
    if i == entries.len() - 1 {
        let k = pre.len() + j;
        assert((pre + tail)[k] == tail[j]);
    } else {
        lemma_flatten_has(entries.drop_last(), i, j);
        assert(entries.drop_last()[i] == entries[i]);
        let k = choose|k: int| 0 <= k < pre.len() && #[trigger] pre[k] == (entries[i].0, entries[i].1[j]);
        assert((pre + tail)[k] == pre[k]);
    }
}

/// Each pair of the map is a value stored under its name.
proof fn lemma_flatten_from(entries: Seq<(Seq<u8>, Seq<Seq<u8>>)>, k: int)
    requires
        0 <= k < flatten_entries(entries).len(),
    ensures
        exists|i: int, j: int|
            0 <= i < entries.len() && 0 <= j < entries[i].1.len() && flatten_entries(entries)[k] == (
            #[trigger] entries[i].0,
            #[trigger] entries[i].1[j],
        ),
    decreases entries.len(),
{
    let pre = flatten_entries(entries.drop_last());
    let tail = entries.last().1.map_values(|v: Seq<u8>| (entries.last().0, v));
    assert(flatten_entries(entries) == pre + tail);
    let last = entries.len() - 1;
    if k < pre.len() {
        lemma_flatten_from(entries.drop_last(), k);
        let (i, j) = choose|i: int, j: int|
            0 <= i < entries.drop_last().len() && 0 <= j < entries.drop_last()[i].1.len()
                && pre[k] == (#[trigger] entries.drop_last()[i].0, #[trigger] entries.drop_last()[i].1[j]);
        assert(entries.drop_last()[i] == entries[i]);
        assert((pre + tail)[k] == pre[k]);
        assert(flatten_entries(entries)[k] == (entries[i].0, entries[i].1[j]));
    } else {
        let j = k - pre.len();
        assert((pre + tail)[k] == tail[j]);
        assert(flatten_entries(entries)[k] == (entries[last].0, entries[last].1[j]));
    }
}

/// The transport is handed every value of the header map under its name,
/// as the value's text, and nothing that the map does not hold: a pair is
/// sent exactly when it is some stored value's name and text.
pub proof fn lemma_headers_sent_are_stored(entries: Seq<(Seq<u8>, Seq<Seq<u8>>)>)
    ensures
        forall|i: int, j: int|
            0 <= i < entries.len() && 0 <= j < entries[i].1.len() ==> transport_headers(
                entries,
            ).contains((#[trigger] entries[i].0, header_text(#[trigger] entries[i].1[j]))),
        forall|p: (Seq<u8>, Seq<u8>)|
            #[trigger] transport_headers(entries).contains(p) ==> exists|i: int, j: int|
                0 <= i < entries.len() && 0 <= j < entries[i].1.len() && p == (
                #[trigger] entries[i].0,
                header_text(#[trigger] entries[i].1[j]),
            ),
{
    let flat = flatten_entries(entries);
    let sent = transport_headers(entries);
    assert forall|i: int, j: int|
        0 <= i < entries.len() && 0 <= j < entries[i].1.len() implies sent.contains(
        (#[trigger] entries[i].0, header_text(#[trigger] entries[i].1[j])),
    ) by {
        lemma_flatten_has(entries, i, j);
        let k = choose|k: int| 0 <= k < flat.len() && #[trigger] flat[k] == (entries[i].0, entries[i].1[j]);
        assert(sent[k] == (entries[i].0, header_text(entries[i].1[j])));
    }
    assert forall|p: (Seq<u8>, Seq<u8>)| #[trigger] sent.contains(p) implies exists|i: int, j: int|
        0 <= i < entries.len() && 0 <= j < entries[i].1.len() && p == (
        #[trigger] entries[i].0,
        header_text(#[trigger] entries[i].1[j]),
    ) by {
        let k = choose|k: int| 0 <= k < sent.len() && sent[k] == p;
        lemma_flatten_from(entries, k);
        let (i, j) = choose|i: int, j: int|
            0 <= i < entries.len() && 0 <= j < entries[i].1.len() && flat[k] == (
            #[trigger] entries[i].0,
            #[trigger] entries[i].1[j],
        );
        assert(sent[k] == (flat[k].0, header_text(flat[k].1)));
    }
}

/// Which requests the transport carries: every request whose method is not
/// an extension method (GET, POST, PUT, DELETE, HEAD, OPTIONS, CONNECT, PATCH
/// or TRACE) and whose body is absent or UTF-8 text; no other.
pub proof fn lemma_dispatch_exactly(request: Request)
    ensures
        can_dispatch(request) <==> (!(request.method_spec() is Extension) && (
        request.body_spec() is None || valid_utf8(request.body_spec().unwrap()))),
{
}

/// The text of a header value, or an empty text when a byte of it is not
/// visible ASCII.
fn header_value_text(value: &Vec<u8>) -> (text: Vec<u8>)
    ensures
        text@ == header_text(value@),
{
    let mut i: usize = 0;
    while i < value.len()
        invariant
            0 <= i <= value.len(),
            forall|k: int| 0 <= k < i ==> is_visible_ascii(#[trigger] value@[k]),
        decreases value.len() - i,
    {
        let b = value[i];
        if !((b >= 32 && b < 127) || b == 9) {
            return Vec::new();
        }
        i = i + 1;
    }
    slice_to_vec(value.as_slice())
}

proof fn lemma_flatten_take_step(entries: Seq<(Seq<u8>, Seq<Seq<u8>>)>, i: int)
    requires
        0 <= i < entries.len(),
    ensures
        flatten_entries(entries.take(i + 1)) == flatten_entries(entries.take(i))
            + entries[i].1.map_values(|v: Seq<u8>| (entries[i].0, v)),
{
    assert(entries.take(i + 1).drop_last() =~= entries.take(i));
    assert(entries.take(i + 1).last() == entries[i]);
}

proof fn lemma_bytes_deep_view(v: Vec<u8>)
    ensures
        v.deep_view() == v@,
{
    assert(v.deep_view() =~= v@);
}

proof fn lemma_map_values_concat(
    a: Seq<(Seq<u8>, Seq<u8>)>,
    b: Seq<(Seq<u8>, Seq<u8>)>,
    f: spec_fn((Seq<u8>, Seq<u8>)) -> (Seq<u8>, Seq<u8>),
)
    ensures
        (a + b).map_values(f) =~= a.map_values(f) + b.map_values(f),
{
}

/// The headers of a map, flattened into the pairs that the transport sends.
fn transport_header_list(map: &http::header::HeaderMap) -> (list: Vec<(Vec<u8>, Vec<u8>)>)
    ensures
        list.deep_view() == transport_headers(header_entries(*map)),
{
    let entries = header_map_entries(map);
    let ghost all = entries.deep_view();
    let mut list: Vec<(Vec<u8>, Vec<u8>)> = Vec::new();
    let mut i: usize = 0;
    proof {
        assert(all.take(0) =~= Seq::<(Seq<u8>, Seq<Seq<u8>>)>::empty());
        assert(list.deep_view() =~= transport_headers(all.take(0)));
    }
    while i < entries.len()
        invariant
            0 <= i <= entries.len(),
            all == entries.deep_view(),
            all == header_entries(*map),
            list.deep_view() == transport_headers(all.take(i as int)),
        decreases entries.len() - i,
    {
        let name = &entries[i].0;
        let values = &entries[i].1;
        let ghost before = list.deep_view();
        let ghost f = |v: Seq<u8>| (name@, header_text(v));
        let mut j: usize = 0;
        proof {
            assert(values.deep_view().take(0).map_values(f) =~= Seq::<(Seq<u8>, Seq<u8>)>::empty());
            assert(list.deep_view() =~= before + values.deep_view().take(0).map_values(f));
        }
        while j < values.len()
            invariant
                0 <= j <= values.len(),
                i < entries.len(),
                name == &entries[i as int].0,
                values == &entries[i as int].1,
                f == (|v: Seq<u8>| (name@, header_text(v))),
                list.deep_view() == before + values.deep_view().take(j as int).map_values(f),
            decreases values.len() - j,
        {
            let text = header_value_text(&values[j]);
            let pair = (slice_to_vec(name.as_slice()), text);
            proof {
                lemma_bytes_deep_view(values@[j as int]);
                lemma_bytes_deep_view(pair.0);
                lemma_bytes_deep_view(pair.1);
                lemma_bytes_deep_view(*name);
            }
            let ghost old_view = list.deep_view();
            list.push(pair);
            proof {
                assert(list.deep_view() =~= old_view.push((name@, header_text(values@[j as int]@))));
                assert(values.deep_view().take(j + 1) =~= values.deep_view().take(j as int).push(
                    values@[j as int]@,
                ));
                assert(values.deep_view().take(j + 1).map_values(f) =~= values.deep_view().take(
                    j as int,
                ).map_values(f).push(f(values@[j as int]@)));
                assert(list.deep_view() =~= before + values.deep_view().take(j + 1).map_values(f));
            }
            j = j + 1;
        }
        proof {
            lemma_bytes_deep_view(*name);
            assert(values.deep_view().take(j as int) =~= values.deep_view());
            assert(all[i as int] == (name@, values.deep_view()));
            lemma_flatten_take_step(all, i as int);
            let g = |p: (Seq<u8>, Seq<u8>)| (p.0, header_text(p.1));
            lemma_map_values_concat(
                flatten_entries(all.take(i as int)),
                all[i as int].1.map_values(|v: Seq<u8>| (all[i as int].0, v)),
                g,
            );
            assert(all[i as int].1.map_values(|v: Seq<u8>| (all[i as int].0, v)).map_values(g)
                =~= values.deep_view().map_values(f));
        }
        i = i + 1;
    }
    proof {
        assert(all.take(i as int) =~= all);
    }
    list
}

impl Client {
    /// Starts sending a request: the exchange for the transport, or
    /// `Error::TaskFailed` for a request the transport cannot carry (an
    /// extension method, or a body that is not UTF-8 text).
    pub fn execute(&self, request: Request) -> (step: Dispatch)
        ensures
            !can_dispatch(request) ==> step == Dispatch::Failed(Error::TaskFailed),
            can_dispatch(request) ==> (step matches Dispatch::Send(t, u) && {
                &&& transport_method_of(request.method_spec()) == Some(t.method)
                &&& t.url@ == request.url_spec()
                &&& u@ == request.url_spec()
                &&& t.headers.deep_view() == transport_headers(request.headers_spec())
                &&& t.body.deep_view() == request.body_spec()
            }),
    {
        let (method, url, headers, body) = request.into_parts();
        if !is_sendable(&method) {
            return Dispatch::Failed(Error::TaskFailed);
        }
        let method = convert_http_method(&method);
        let headers = transport_header_list(&headers);
        let body = match body {
            Some(b) => {
                if !is_utf8(b.as_bytes()) {
                    return Dispatch::Failed(Error::TaskFailed);
                }
                Some(b.into_bytes())
            },
            None => None,
        };
        let url_text = url.as_str().to_owned();
        Dispatch::Send(TransportRequest { method, url: url_text, headers, body }, url)
    }

    /// Finishes sending a request once the transport is done: the response,
    /// carrying the URL the request went to, or the error that ended the
    /// exchange.
    pub fn complete(url: Url, outcome: TransportOutcome) -> (response: Result<Response, Error>)
        requires
            outcome matches TransportOutcome::Received(r) ==> can_take_response(r),
        ensures
            outcome is SendFailed ==> response == Err::<Response, Error>(Error::TransportFailed),
            outcome is TaskFailed ==> response == Err::<Response, Error>(Error::TaskFailed),
            outcome matches TransportOutcome::Received(r) ==> (response matches Ok(res) && {
                &&& res.status_spec() == r.status_code as u16
                &&& res.headers_spec() == response_header_entries(r.headers.deep_view())
                &&& res.body_spec() == r.body@
                &&& res.url_spec() == url@
            }),
    {
        match outcome {
            TransportOutcome::Received(r) => Ok(http_response_from_minreq_response(r, url)),
            TransportOutcome::SendFailed => Err(Error::TransportFailed),
            TransportOutcome::TaskFailed => Err(Error::TaskFailed),
        }
    }
}

impl RequestBuilder {
    /// Starts sending the request: a builder holding an error ends with
    /// `Error::BuildFailed`; otherwise the client starts the exchange.
    pub fn send(self) -> (step: Dispatch)
        ensures
            self.request_spec() is Err ==> step == Dispatch::Failed(Error::BuildFailed),
            self.request_spec() matches Ok(request) ==> {
                &&& !can_dispatch(request) ==> step == Dispatch::Failed(Error::TaskFailed)
                &&& can_dispatch(request) ==> (step matches Dispatch::Send(t, u) && {
                    &&& transport_method_of(request.method_spec()) == Some(t.method)
                    &&& t.url@ == request.url_spec()
                    &&& u@ == request.url_spec()
                    &&& t.headers.deep_view() == transport_headers(request.headers_spec())
                    &&& t.body.deep_view() == request.body_spec()
                })
            },
    {
        let (client, request) = self.into_parts();
        match request {
            Ok(request) => client.execute(request),
            Err(_) => Dispatch::Failed(Error::BuildFailed),
        }
    }
}

} // verus!
