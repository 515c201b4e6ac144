//! Response status codes.

use vstd::prelude::*;

verus! {

/// The numbers that `http` accepts as status codes.
pub open spec fn is_status_code(code: u16) -> bool {
    100 <= code <= 999
}

/// `http::StatusCode::from_u16` followed by `StatusCode::as_u16`: the
/// function accepts exactly the numbers from 100 to 999 and keeps them.
#[verifier::external_body]
fn http_status_from_u16(code: u16) -> (checked: Option<u16>)
    ensures
        checked == (if is_status_code(code) { Some(code) } else { None::<u16> }),
{
    http::StatusCode::from_u16(code).ok().map(|status| status.as_u16())
}

/// An HTTP status code, a number from 100 to 999.
#[derive(Clone, Copy, Debug, PartialEq, Eq, Structural)]
pub struct StatusCode {
    code: u16,
}

impl View for StatusCode {
    type V = u16;

    closed spec fn view(&self) -> u16 {
        self.code
    }
}

impl StatusCode {
    #[verifier::type_invariant]
    spec fn holds_status_code(self) -> bool {
        is_status_code(self.code)
    }

    /// The status code with the given number; none unless it lies between
    /// 100 and 999.
    pub fn from_u16(code: u16) -> (status: Option<StatusCode>)
        ensures
            status matches Some(s) ==> s@ == code,
            status is Some <==> is_status_code(code),
    {
        match http_status_from_u16(code) {
            Some(checked) => Some(StatusCode { code: checked }),
            None => None,
        }
    }

    /// The number of the status code.
    pub fn as_u16(&self) -> (code: u16)
        ensures
            code == self@,
            is_status_code(code),
    {
        proof {
            use_type_invariant(self);
        }
        self.code
    }
}

} // verus!
