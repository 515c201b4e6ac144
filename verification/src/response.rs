//! Responses, and how the transport's status, headers and body become one.

use vstd::prelude::*;
use vstd::string::*;
use vstd::utf8::encode_utf8;

use crate::address::Url;
use crate::error::ReqwestError;
use crate::header::{
    entry_index,
    header_entries, header_map_insert, header_map_safe_len, header_name_from_bytes,
    is_header_value, lemma_parsed_name_is_canonical, lemma_put_entry_len, lemma_put_entry_values,
    new_header_map, parse_header_name, parse_header_value, put_entry, values_of, distinct_names,
    lemma_put_entry_distinct, lemma_entry_index,
};
use crate::status::{is_status_code, StatusCode};
use crate::transport::TransportResponse;

verus! {

/// The entries of the header map made from the transport's response
/// headers, taken in the given order: a pair is stored when `http` accepts
/// its name and its value, and skipped otherwise.
pub open spec fn response_header_entries(pairs: Seq<(Seq<char>, Seq<char>)>) -> Seq<
    (Seq<u8>, Seq<Seq<u8>>),
>
    decreases pairs.len(),
{
    if pairs.len() == 0 {
        Seq::empty()
    } else {
        let before = response_header_entries(pairs.drop_last());
        let name = encode_utf8(pairs.last().0);
        let value = encode_utf8(pairs.last().1);
        match header_name_from_bytes(name) {
            Some(n) => if is_header_value(value) {
                put_entry(before, n, seq![value])
            } else {
                before
            },
            None => before,
        }
    }
}

/// The header name under which a transport header pair is stored: its name,
/// when `http` accepts both the name and the value; none otherwise.
pub open spec fn accepted_name(pair: (Seq<char>, Seq<char>)) -> Option<Seq<u8>> {
    if is_header_value(encode_utf8(pair.1)) {
        header_name_from_bytes(encode_utf8(pair.0))
    } else {
        None
    }
}

proof fn lemma_response_header_entries_step(pairs: Seq<(Seq<char>, Seq<char>)>)
    requires
        pairs.len() > 0,
    ensures
        response_header_entries(pairs) == (match accepted_name(pairs.last()) {
            Some(n) => put_entry(
                response_header_entries(pairs.drop_last()),
                n,
                seq![encode_utf8(pairs.last().1)],
            ),
            None => response_header_entries(pairs.drop_last()),
        }),
{
}

/// Whatever the order in which the transport's headers are walked, an
/// accepted pair can be read back from the response's map under its name,
/// with its value and no other, as long as no other accepted pair has that
/// name.
pub proof fn lemma_response_headers_read_back(pairs: Seq<(Seq<char>, Seq<char>)>, i: int)
    requires
        0 <= i < pairs.len(),
        accepted_name(pairs[i]) is Some,
        forall|j: int|
            0 <= j < pairs.len() && j != i ==> accepted_name(#[trigger] pairs[j]) != accepted_name(
                pairs[i],
            ),
    ensures
        values_of(response_header_entries(pairs), accepted_name(pairs[i]).unwrap()) == seq![
            encode_utf8(pairs[i].1),
        ],
    decreases pairs.len(),
{
    let rest = pairs.drop_last();
    let name = accepted_name(pairs[i]).unwrap();
    lemma_response_header_entries_step(pairs);
    if i == pairs.len() - 1 {
        lemma_put_entry_values(
            response_header_entries(rest),
            name,
            seq![encode_utf8(pairs[i].1)],
            name,
        );
    } else {
        assert forall|j: int|
            0 <= j < rest.len() && j != i implies accepted_name(#[trigger] rest[j])
            != accepted_name(rest[i]) by {
            assert(rest[j] == pairs[j] && rest[i] == pairs[i]);
        }
        assert(rest[i] == pairs[i]);
        lemma_response_headers_read_back(rest, i);
        assert(accepted_name(pairs[pairs.len() - 1]) != accepted_name(pairs[i]));
        if let Some(n) = accepted_name(pairs.last()) {
            assert(n != name);
            lemma_put_entry_values(
                response_header_entries(rest),
                n,
                seq![encode_utf8(pairs.last().1)],
                name,
            );
        }
    }
}

/// A name under which no transport header pair is stored reads as nothing
/// in the response's map.
pub proof fn lemma_response_headers_absent(pairs: Seq<(Seq<char>, Seq<char>)>, name: Seq<u8>)
    requires
        forall|a: int| 0 <= a < pairs.len() ==> accepted_name(#[trigger] pairs[a]) != Some(name),
    ensures
        values_of(response_header_entries(pairs), name) == Seq::<Seq<u8>>::empty(),
    decreases pairs.len(),
{
    if pairs.len() > 0 {
        let rest = pairs.drop_last();
        lemma_response_header_entries_step(pairs);
        assert forall|a: int| 0 <= a < rest.len() implies accepted_name(#[trigger] rest[a]) != Some(
            name,
        ) by {
            assert(rest[a] == pairs[a]);
        }
        lemma_response_headers_absent(rest, name);
        if let Some(n) = accepted_name(pairs.last()) {
            lemma_put_entry_values(
                response_header_entries(rest),
                n,
                seq![encode_utf8(pairs.last().1)],
                name,
            );
        }
    }
}

/// No more entries than pairs.
pub proof fn lemma_response_header_entries_len(pairs: Seq<(Seq<char>, Seq<char>)>)
    ensures
        response_header_entries(pairs).len() <= pairs.len(),
    decreases pairs.len(),
{
    if pairs.len() > 0 {
        lemma_response_header_entries_len(pairs.drop_last());
        let before = response_header_entries(pairs.drop_last());
        match header_name_from_bytes(encode_utf8(pairs.last().0)) {
            Some(n) => {
                lemma_put_entry_len(before, n, seq![encode_utf8(pairs.last().1)]);
            },
            None => {},
        }
    }
}

/// Taking in more pairs never removes an entry.
pub proof fn lemma_response_header_entries_grow(pairs: Seq<(Seq<char>, Seq<char>)>, i: int)
    requires
        0 <= i <= pairs.len(),
    ensures
        response_header_entries(pairs.take(i)).len() <= response_header_entries(pairs).len(),
    decreases pairs.len(),
{
    if i == pairs.len() {
        assert(pairs.take(i) =~= pairs);
    } else {
        let rest = pairs.drop_last();
        lemma_response_header_entries_step(pairs);
        if let Some(n) = accepted_name(pairs.last()) {
            lemma_put_entry_len(response_header_entries(rest), n, seq![encode_utf8(pairs.last().1)]);
        }
        assert(rest.take(i) =~= pairs.take(i));
        lemma_response_header_entries_grow(rest, i);
    }
}

/// An entry that comes from one of the pairs: the pair's name is accepted as
/// the entry's name, and the entry holds just the pair's value.
pub open spec fn entry_from_pair(
    pairs: Seq<(Seq<char>, Seq<char>)>,
    entry: (Seq<u8>, Seq<Seq<u8>>),
) -> bool {
    &&& entry.1.len() == 1
    &&& exists|j: int|
        0 <= j < pairs.len() && accepted_name(#[trigger] pairs[j]) == Some(entry.0) && entry.1[0]
            == encode_utf8(pairs[j].1)
}

/// The response's map holds each name once, each with a single value, and
/// every entry comes from one of the transport's pairs.
pub proof fn lemma_response_header_entries_shape(pairs: Seq<(Seq<char>, Seq<char>)>)
    ensures
        distinct_names(response_header_entries(pairs)),
        forall|k: int|
            0 <= k < response_header_entries(pairs).len() ==> entry_from_pair(
                pairs,
                #[trigger] response_header_entries(pairs)[k],
            ),
    decreases pairs.len(),
{
    if pairs.len() > 0 {
        let rest = pairs.drop_last();
        let before = response_header_entries(rest);
        lemma_response_header_entries_step(pairs);
        lemma_response_header_entries_shape(rest);
        let after = response_header_entries(pairs);
        assert forall|k: int| 0 <= k < before.len() implies entry_from_pair(pairs, #[trigger] before[k])
            by {
            assert(entry_from_pair(rest, before[k]));
            let j = choose|j: int|
                0 <= j < rest.len() && accepted_name(#[trigger] rest[j]) == Some(before[k].0)
                    && before[k].1[0] == encode_utf8(rest[j].1);
            assert(rest[j] == pairs[j]);
        }
        if let Some(n) = accepted_name(pairs.last()) {
            let v = seq![encode_utf8(pairs.last().1)];
            lemma_put_entry_distinct(before, n, v);
            lemma_entry_index(before, n);
            assert(entry_from_pair(pairs, (n, v))) by {
                assert(accepted_name(pairs[pairs.len() - 1]) == Some(n));
            }
            assert forall|k: int| 0 <= k < after.len() implies entry_from_pair(pairs, #[trigger] after[k])
                by {
                if k < before.len() && after[k] == before[k] {
                } else {
                    assert(after[k] == (n, v));
                }
            }
        }
    }
}

/// The header map of a response, built from the transport's header pairs:
/// each pair whose name and value `http` accepts is inserted in turn.
pub fn http_headermap_from_minreq_headers(headers: &Vec<(String, String)>) -> (map: http::header::HeaderMap)
    requires
        response_header_entries(headers.deep_view()).len() <= header_map_safe_len(),
    ensures
        header_entries(map) == response_header_entries(headers.deep_view()),
        header_entries(map).len() <= headers@.len(),
        distinct_names(header_entries(map)),
        forall|k: int|
            0 <= k < header_entries(map).len() ==> entry_from_pair(
                headers.deep_view(),
                #[trigger] header_entries(map)[k],
            ),
{
    let ghost pairs = headers.deep_view();
    let mut map = new_header_map();
    let mut i: usize = 0;
    proof {
        assert(pairs.take(0) =~= Seq::<(Seq<char>, Seq<char>)>::empty());
    }
    while i < headers.len()
        invariant
            0 <= i <= headers.len(),
            response_header_entries(pairs).len() <= header_map_safe_len(),
            pairs == headers.deep_view(),
            header_entries(map) == response_header_entries(pairs.take(i as int)),
        decreases headers.len() - i,
    {
        let name_text = headers[i].0.as_str();
        let value_text = headers[i].1.as_str();
        let name = parse_header_name(name_text.as_bytes());
        let value = parse_header_value(value_text.as_bytes());
        proof {
            assert(pairs.take(i + 1).drop_last() =~= pairs.take(i as int));
            assert(pairs.take(i + 1).last() == pairs[i as int]);
            lemma_response_header_entries_grow(pairs, i + 1);
            lemma_response_header_entries_step(pairs.take(i + 1));
            if let Some(n) = accepted_name(pairs[i as int]) {
                lemma_put_entry_len(
                    response_header_entries(pairs.take(i as int)),
                    n,
                    seq![encode_utf8(pairs[i as int].1)],
                );
            }
        }
        match (name, value) {
            (Some(n), Some(v)) => {
                proof {
                    lemma_parsed_name_is_canonical(name_text.spec_bytes());
                }
                header_map_insert(&mut map, n.as_slice(), v.as_slice());
            },
            _ => {},
        }
        i = i + 1;
    }
    proof {
        assert(pairs.take(i as int) =~= pairs);
        lemma_response_header_entries_len(pairs);
        lemma_response_header_entries_shape(pairs);
    }
    map
}

/// A response as `http` types carry it: status, headers and a body.
pub struct HyperResponse<T> {
    pub status: StatusCode,
    pub headers: http::header::HeaderMap,
    pub body: T,
}

impl<T> HyperResponse<T> {
    pub fn headers(&self) -> (headers: &http::header::HeaderMap)
        ensures
            *headers == self.headers,
    {
        &self.headers
    }

    pub fn status(&self) -> (status: StatusCode)
        ensures
            status == self.status,
    {
        self.status
    }

    fn into_body(self) -> (body: T)
        ensures
            body == self.body,
    {
        self.body
    }
}

/// The response to a request: status, headers, body bytes and the URL the
/// request went to.
pub struct Response {
    res: HyperResponse<Vec<u8>>,
    url: Box<Url>,
}

impl Response {
    /// The status code, as its number.
    pub closed spec fn status_spec(&self) -> u16 {
        self.res.status@
    }

    pub closed spec fn headers_spec(&self) -> Seq<(Seq<u8>, Seq<Seq<u8>>)> {
        header_entries(self.res.headers)
    }

    pub closed spec fn url_spec(&self) -> Seq<char> {
        self.url@
    }

    pub closed spec fn body_spec(&self) -> Seq<u8> {
        self.res.body@
    }

    pub fn headers(&self) -> (headers: &http::header::HeaderMap)
        ensures
            header_entries(*headers) == self.headers_spec(),
    {
        self.res.headers()
    }

    pub fn status(&self) -> (status: StatusCode)
        ensures
            status@ == self.status_spec(),
    {
        self.res.status()
    }

    pub fn url(&self) -> (url: &Url)
        ensures
            url@ == self.url_spec(),
    {
        &self.url
    }

    /// The body's bytes. The body is held whole, so collecting it cannot
    /// fail.
    pub fn bytes(self) -> (bytes: Result<Vec<u8>, ReqwestError>)
        ensures
            bytes matches Ok(b) && b@ == self.body_spec(),
    {
        Ok(self.res.into_body())
    }
}

/// A transport response that `http` types can hold: its status, read as a
/// 16-bit number, is a status code, and its accepted headers have few enough
/// distinct names for a header map.
pub open spec fn can_take_response(response: TransportResponse) -> bool {
    &&& is_status_code(response.status_code as u16)
    &&& response_header_entries(response.headers.deep_view()).len() <= header_map_safe_len()
}

/// A transport response can be taken exactly when its status, read as 16
/// bits, lies from 100 to 999, whatever class (1xx to 9xx) it is in, and its
/// accepted headers have at most 6553 distinct names.
pub proof fn lemma_can_take_response_exactly(response: TransportResponse)
    ensures
        can_take_response(response) <==> (100 <= (response.status_code as u16) <= 999
            && response_header_entries(response.headers.deep_view()).len() <= 6553),
{
}

/// The names of the entries, in order.
pub open spec fn entry_names(entries: Seq<(Seq<u8>, Seq<Seq<u8>>)>) -> Seq<Seq<u8>> {
    entries.map_values(|e: (Seq<u8>, Seq<Seq<u8>>)| e.0)
}

/// Storing under a name that is there keeps the names; a new name goes last.
proof fn lemma_put_entry_names(
    entries: Seq<(Seq<u8>, Seq<Seq<u8>>)>,
    name: Seq<u8>,
    values: Seq<Seq<u8>>,
)
    ensures
        entry_names(put_entry(entries, name, values)) == (if entry_index(entries, name) is Some {
            entry_names(entries)
        } else {
            entry_names(entries).push(name)
        }),
{
    lemma_entry_index(entries, name);
    assert(entry_names(put_entry(entries, name, values)) =~= (if entry_index(entries, name) is Some {
        entry_names(entries)
    } else {
        entry_names(entries).push(name)
    }));
}

/// Whether two byte strings are equal.
fn same_bytes(a: &Vec<u8>, b: &Vec<u8>) -> (same: bool)
    ensures
        same == (a@ == b@),
{
    if a.len() != b.len() {
        return false;
    }
    let mut i: usize = 0;
    while i < a.len()
        invariant
            0 <= i <= a.len(),
            a.len() == b.len(),
            forall|k: int| 0 <= k < i ==> a@[k] == b@[k],
        decreases a.len() - i,
    {
        if a[i] != b[i] {
            return false;
        }
        i = i + 1;
    }
    assert(a@ =~= b@);
    true
}

/// Whether the name is among the names.
fn has_name(names: &Vec<Vec<u8>>, name: &Vec<u8>) -> (found: bool)
    ensures
        found == names@.map_values(|v: Vec<u8>| v@).contains(name@),
{
    let ghost seen = names@.map_values(|v: Vec<u8>| v@);
    let mut i: usize = 0;
    while i < names.len()
        invariant
            0 <= i <= names.len(),
            seen == names@.map_values(|v: Vec<u8>| v@),
            forall|k: int| 0 <= k < i ==> seen[k] != name@,
        decreases names.len() - i,
    {
        if same_bytes(&names[i], name) {
            assert(seen[i as int] == name@);
            return true;
        }
        i = i + 1;
    }
    false
}

/// Whether the library can take a transport response: true exactly when
/// `can_take_response` holds, that is, when its status reads as a status
/// code and its accepted headers have few enough distinct names.
pub fn response_fits(response: &TransportResponse) -> (fits: bool)
    ensures
        fits == can_take_response(*response),
{
    #[verifier::truncate]
    let code = response.status_code as u16;
    if !(100 <= code && code <= 999) {
        return false;
    }
    let headers = &response.headers;
    let ghost pairs = headers.deep_view();
    let mut names: Vec<Vec<u8>> = Vec::new();
    let mut i: usize = 0;
    proof {
        assert(pairs.take(0) =~= Seq::<(Seq<char>, Seq<char>)>::empty());
        assert(names@.map_values(|v: Vec<u8>| v@) =~= entry_names(
            response_header_entries(pairs.take(0)),
        ));
    }
    while i < headers.len()
        invariant
            0 <= i <= headers.len(),
            pairs == headers.deep_view(),
            pairs == response.headers.deep_view(),
            names@.map_values(|v: Vec<u8>| v@) == entry_names(
                response_header_entries(pairs.take(i as int)),
            ),
            names@.len() <= header_map_safe_len(),
        decreases headers.len() - i,
    {
        let name_text = headers[i].0.as_str();
        let value_text = headers[i].1.as_str();
        let name = parse_header_name(name_text.as_bytes());
        let value = parse_header_value(value_text.as_bytes());
        let ghost before = response_header_entries(pairs.take(i as int));
        proof {
            assert(pairs.take(i + 1).drop_last() =~= pairs.take(i as int));
            assert(pairs.take(i + 1).last() == pairs[i as int]);
            lemma_response_header_entries_step(pairs.take(i + 1));
        }
        match (name, value) {
            (Some(n), Some(_)) => {
                let found = has_name(&names, &n);
                let ghost seen = names@.map_values(|v: Vec<u8>| v@);
                proof {
                    lemma_put_entry_names(before, n@, seq![encode_utf8(pairs[i as int].1)]);
                    lemma_entry_index(before, n@);
                    if found {
                        let k = choose|k: int| 0 <= k < seen.len() && #[trigger] seen[k] == n@;
                        assert(entry_names(before)[k] == before[k].0);
                        assert(before[k].0 == n@);
                    } else {
                        assert forall|k: int| 0 <= k < before.len() implies before[k].0 != n@ by {
                            assert(entry_names(before)[k] == before[k].0);
                        }
                    }
                }
                if !found {
                    // One more name would exceed `header_map_safe_len()`.
                    if names.len() >= 6553 {
                        proof {
                            assert(accepted_name(pairs[i as int]) == Some(n@));
                            assert(names@.len() == before.len());
                            assert(response_header_entries(pairs.take(i + 1)).len() == before.len()
                                + 1);
                            lemma_response_header_entries_grow(pairs, i + 1);
                            assert(response_header_entries(pairs).len() > header_map_safe_len());
                        }
                        return false;
                    }
                    let ghost old_names = names@;
                    names.push(n);
                    proof {
                        assert(names@.map_values(|v: Vec<u8>| v@) =~= old_names.map_values(
                            |v: Vec<u8>| v@,
                        ).push(n@));
                    }
                }
            },
            _ => {},
        }
        i = i + 1;
    }
    proof {
        assert(pairs.take(i as int) =~= pairs);
    }
    true
}

/// The response made from what the transport received, for the given URL.
pub fn http_response_from_minreq_response(response: TransportResponse, url: Url) -> (res: Response)
    requires
        can_take_response(response),
    ensures
        res.status_spec() == response.status_code as u16,
        res.headers_spec() == response_header_entries(response.headers.deep_view()),
        res.body_spec() == response.body@,
        res.url_spec() == url@,
{
    #[verifier::truncate]
    let code = response.status_code as u16;
    let status = StatusCode::from_u16(code).unwrap();
    let headers = http_headermap_from_minreq_headers(&response.headers);
    Response { res: HyperResponse { status, headers, body: response.body }, url: Box::new(url) }
}

} // verus!
