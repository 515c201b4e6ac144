//! Multipart forms. Only an empty form can be made: adding a part, making a
//! part, and sending a form are not supported, so those functions admit no
//! call.

use vstd::prelude::*;

use crate::error::Error;

verus! {

/// Whether multipart bodies are supported. They are not: making a part,
/// adding one to a form, naming or typing a part, or sending a form as a
/// request's body has no implementation, so every such call is refused.
pub open spec fn multipart_supported() -> bool {
    false
}

/// A multipart form, which holds nothing.
pub struct Form;

/// A part of a multipart form, which holds nothing.
pub struct Part;

impl Form {
    /// An empty form.
    pub fn new() -> (form: Form) {
        Form
    }

    /// Adding a part to a form is not supported: no call is admitted.
    pub fn part(self, name: String, part: Part) -> (form: Form)
        requires
            multipart_supported(),
    {
        self
    }

    /// Adding a text field to a form is not supported: no call is admitted.
    pub fn text(self, name: String, value: String) -> (form: Form)
        requires
            multipart_supported(),
    {
        self
    }
}

impl Part {
    /// Making a part from bytes is not supported: no call is admitted.
    pub fn bytes(value: Vec<u8>) -> (part: Part)
        requires
            multipart_supported(),
    {
        Part
    }

    /// Giving a part a file name is not supported: no call is admitted.
    pub fn file_name(self, filename: String) -> (part: Part)
        requires
            multipart_supported(),
    {
        self
    }

    /// Giving a part a MIME type is not supported: no call is admitted.
    pub fn mime_str(self, mime: &str) -> (part: Result<Part, Error>)
        requires
            multipart_supported(),
    {
        Ok(self)
    }
}

} // verus!
