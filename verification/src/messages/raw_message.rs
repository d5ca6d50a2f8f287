//! Defines a message that can be sent without the struct name, generally for raw JSON.

use vstd::prelude::*;
use vstd::string::*;

use crate::messages::length_prefix::{framed, write_length_prefix};

verus! {

/// Defines a message that will not serialize the struct name into the result.
#[derive(Debug)]
pub struct RawMessage {
    content: String,
}

impl RawMessage {
    /// The text this message carries.
    pub closed spec fn content(&self) -> Seq<char> {
        self.content@
    }

    /// Creates a new [`RawMessage`] that will only serialize the inner content.
    pub fn new(content: String) -> (message: Self)
        ensures
            message.content() == content@,
    {
        Self { content }
    }

    /// Converts the inner content to bytes: its UTF-8 encoding, prefixed with
    /// the encoding's length.
    pub fn as_bytes(&self) -> (bytes: Vec<u8>)
        ensures
            bytes@ == framed(vstd::utf8::encode_utf8(self.content())),
    {
        write_length_prefix(self.content.as_str().as_bytes())
    }
}

} // verus!
