//! The errors of the client.

use vstd::prelude::*;
use vstd::string::StringExecFns;

use crate::address::Url;
use crate::status::StatusCode;

verus! {

/// Why a request could not be built, sent or read.
#[derive(Clone, Copy, Debug, PartialEq, Eq, Structural)]
pub enum Error {
    /// The text given as a URL does not parse as an absolute URL.
    InvalidUrl,
    /// The builder held an error instead of a request when it was sent.
    BuildFailed,
    /// The transport could not complete the exchange.
    TransportFailed,
    /// The blocking task that performs the exchange did not finish.
    TaskFailed,
}

impl Error {
    /// The message that describes the error.
    pub fn message(&self) -> (text: &'static str)
        ensures
            *self == Error::InvalidUrl ==> text@ == "Invalid URL"@,
            *self == Error::BuildFailed ==> text@ == "Failed to build request."@,
            *self == Error::TransportFailed ==> text@ == "minreq failed"@,
            *self == Error::TaskFailed ==> text@ == "Spawn blocking task failed"@,
    {
        match self {
            Error::InvalidUrl => "Invalid URL",
            Error::BuildFailed => "Failed to build request.",
            Error::TransportFailed => "minreq failed",
            Error::TaskFailed => "Spawn blocking task failed",
        }
    }
}

/// What kind of failure a `ReqwestError` reports.
#[derive(Clone, Copy, Debug, PartialEq, Eq, Structural)]
pub enum Kind {
    Builder,
    Request,
    Redirect,
    /// A response came back with the given status.
    Status(StatusCode),
    Body,
    Decode,
    Upgrade,
}

/// The text of a decimal digit.
pub open spec fn digit_text(d: int) -> Seq<char> {
    if d == 0 {
        "0"@
    } else if d == 1 {
        "1"@
    } else if d == 2 {
        "2"@
    } else if d == 3 {
        "3"@
    } else if d == 4 {
        "4"@
    } else if d == 5 {
        "5"@
    } else if d == 6 {
        "6"@
    } else if d == 7 {
        "7"@
    } else if d == 8 {
        "8"@
    } else {
        "9"@
    }
}

/// How a kind is written in an error's message: its name, and for a status
/// the three digits of the code and no further detail.
pub open spec fn kind_text(kind: Kind) -> Seq<char> {
    match kind {
        Kind::Builder => "Builder"@,
        Kind::Request => "Request"@,
        Kind::Redirect => "Redirect"@,
        Kind::Status(s) => "Status("@ + digit_text((s@ / 100) as int) + digit_text(
            ((s@ / 10) % 10) as int,
        ) + digit_text((s@ % 10) as int) + ", None)"@,
        Kind::Body => "Body"@,
        Kind::Decode => "Decode"@,
        Kind::Upgrade => "Upgrade"@,
    }
}

fn digit_str(d: u16) -> (text: &'static str)
    requires
        d < 10,
    ensures
        text@ == digit_text(d as int),
{
    if d == 0 {
        "0"
    } else if d == 1 {
        "1"
    } else if d == 2 {
        "2"
    } else if d == 3 {
        "3"
    } else if d == 4 {
        "4"
    } else if d == 5 {
        "5"
    } else if d == 6 {
        "6"
    } else if d == 7 {
        "7"
    } else if d == 8 {
        "8"
    } else {
        "9"
    }
}

/// A failure while sending a request or reading its response, of a given
/// kind, with the URL concerned where there is one.
#[derive(Debug)]
pub struct ReqwestError {
    kind: Kind,
    url: Option<Url>,
}

impl ReqwestError {
    pub closed spec fn kind_spec(&self) -> Kind {
        self.kind
    }

    /// The serialization of the URL concerned, if any.
    pub closed spec fn url_spec(&self) -> Option<Seq<char>> {
        match self.url {
            Some(u) => Some(u@),
            None => None,
        }
    }

    /// An error of the given kind about the given URL.
    pub fn new(kind: Kind, url: Option<Url>) -> (error: Self)
        ensures
            error.kind_spec() == kind,
            url matches Some(u) ==> error.url_spec() == Some(u@),
            url is None ==> error.url_spec() is None,
    {
        ReqwestError { kind, url }
    }

    pub fn kind(&self) -> (kind: Kind)
        ensures
            kind == self.kind_spec(),
    {
        self.kind
    }

    pub fn url(&self) -> (url: Option<&Url>)
        ensures
            url matches Some(u) ==> self.url_spec() == Some(u@),
            url is None ==> self.url_spec() is None,
    {
        match &self.url {
            Some(u) => Some(u),
            None => None,
        }
    }

    /// The message that describes the error: a fixed prefix, then its kind.
    pub fn message(&self) -> (text: String)
        ensures
            text@ == "3DS Reqwest Stub Error: "@ + kind_text(self.kind_spec()),
    {
        let mut text = String::from_str("3DS Reqwest Stub Error: ");
        match self.kind {
            Kind::Builder => text.append("Builder"),
            Kind::Request => text.append("Request"),
            Kind::Redirect => text.append("Redirect"),
            Kind::Status(s) => {
                let code = s.as_u16();
                text.append("Status(");
                text.append(digit_str(code / 100));
                text.append(digit_str((code / 10) % 10));
                text.append(digit_str(code % 10));
                text.append(", None)");
            },
            Kind::Body => text.append("Body"),
            Kind::Decode => text.append("Decode"),
            Kind::Upgrade => text.append("Upgrade"),
        }
        text
    }
}

} // verus!
