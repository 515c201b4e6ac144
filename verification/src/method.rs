//! Request methods, and the methods that the transport can put on the wire.

use vstd::prelude::*;

verus! {

/// An HTTP request method: one of the nine that HTTP defines, or an
/// extension method named by its token.
#[derive(Clone, Debug, PartialEq, Eq)]
pub enum Method {
    Options,
    Get,
    Post,
    Put,
    Delete,
    Head,
    Trace,
    Connect,
    Patch,
    Extension(String),
}

/// A method as the blocking transport names it.
#[derive(Clone, Copy, Debug, PartialEq, Eq, Structural)]
pub enum TransportMethod {
    Get,
    Head,
    Post,
    Put,
    Delete,
    Connect,
    Options,
    Trace,
    Patch,
}

impl Method {
    /// One of the nine methods that HTTP defines.
    pub open spec fn is_standard(&self) -> bool {
        !(self is Extension)
    }
}

/// The transport method that stands for a request method, for the nine
/// standard methods; none for an extension method.
pub open spec fn transport_method_of(method: Method) -> Option<TransportMethod> {
    match method {
        Method::Get => Some(TransportMethod::Get),
        Method::Post => Some(TransportMethod::Post),
        Method::Put => Some(TransportMethod::Put),
        Method::Delete => Some(TransportMethod::Delete),
        Method::Head => Some(TransportMethod::Head),
        Method::Options => Some(TransportMethod::Options),
        Method::Connect => Some(TransportMethod::Connect),
        Method::Patch => Some(TransportMethod::Patch),
        Method::Trace => Some(TransportMethod::Trace),
        Method::Extension(_) => None,
    }
}

/// The transport method for a standard request method. The transport has no
/// way to send an extension method, so none may be given.
pub fn convert_http_method(method: &Method) -> (converted: TransportMethod)
    requires
        method.is_standard(),
    ensures
        transport_method_of(*method) == Some(converted),
{
    match method {
        Method::Get => TransportMethod::Get,
        Method::Post => TransportMethod::Post,
        Method::Put => TransportMethod::Put,
        Method::Delete => TransportMethod::Delete,
        Method::Head => TransportMethod::Head,
        Method::Options => TransportMethod::Options,
        Method::Connect => TransportMethod::Connect,
        Method::Patch => TransportMethod::Patch,
        Method::Trace => TransportMethod::Trace,
        Method::Extension(_) => {
            proof {
                assert(false);
            }
            TransportMethod::Get
        },
    }
}

/// Whether the transport can send a method: true exactly for the nine
/// standard methods.
pub fn is_sendable(method: &Method) -> (sendable: bool)
    ensures
        sendable == method.is_standard(),
        sendable == (transport_method_of(*method) is Some),
{
    match method {
        Method::Extension(_) => false,
        _ => true,
    }
}

/// Distinct standard methods go to distinct transport methods, and every
/// transport method stands for one of them: the conversion loses nothing.
pub proof fn lemma_transport_method_one_to_one(a: Method, b: Method)
    requires
        a.is_standard(),
        b.is_standard(),
        transport_method_of(a) == transport_method_of(b),
    ensures
        a == b,
{
}

/// Every transport method is the conversion of some standard method.
pub proof fn lemma_transport_method_onto(t: TransportMethod)
    ensures
        exists|m: Method| m.is_standard() && #[trigger] transport_method_of(m) == Some(t),
{
    let m = match t {
        TransportMethod::Get => Method::Get,
        TransportMethod::Head => Method::Head,
        TransportMethod::Post => Method::Post,
        TransportMethod::Put => Method::Put,
        TransportMethod::Delete => Method::Delete,
        TransportMethod::Connect => Method::Connect,
        TransportMethod::Options => Method::Options,
        TransportMethod::Trace => Method::Trace,
        TransportMethod::Patch => Method::Patch,
    };
    assert(transport_method_of(m) == Some(t));
}

} // verus!
