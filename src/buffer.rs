use vstd::prelude::*;
use vstd::string::StringSliceAdditionalSpecFns;
use vstd::utf8::{is_char_boundary, valid_utf8};

use crate::encoding::lemma_str_bytes_valid;

verus! {

/// Handle to text held by the host runtime. The runtime keeps the text alive
/// for as long as any handle to it exists; the handle itself is a cheap copy.
#[derive(Clone, Copy)]
pub struct StrBuffer {
    text: &'static str,
}

impl StrBuffer {
    /// The text, as UTF-8 bytes.
    pub closed spec fn bytes(self) -> Seq<u8> {
        self.text.spec_bytes()
    }

    /// The text is well-formed UTF-8.
    pub proof fn lemma_bytes_valid(self)
        ensures
            valid_utf8(self.bytes()),
    {
        lemma_str_bytes_valid(self.text);
    }

    /// The handle of `text`.
    pub closed spec fn spec_from_static(text: &'static str) -> StrBuffer {
        StrBuffer { text }
    }

    /// The handle of text that lives for the whole process.
    pub fn from_static(text: &'static str) -> (r: StrBuffer)
        ensures
            r == StrBuffer::spec_from_static(text),
            r.bytes() == text.spec_bytes(),
    {
        StrBuffer { text }
    }

    pub fn as_str(&self) -> (r: &str)
        ensures
            r.spec_bytes() == self.bytes(),
    {
        self.text
    }

    /// A handle to the same text without its first `skip_bytes` bytes.
    pub fn skip_prefix(&self, skip_bytes: usize) -> (r: StrBuffer)
        requires
            skip_bytes <= self.bytes().len(),
            is_char_boundary(self.bytes(), skip_bytes as int),
        ensures
            r.bytes() == self.bytes().skip(skip_bytes as int),
    {
        let (_, rest) = self.text.split_at(skip_bytes);
        StrBuffer { text: rest }
    }
}

impl From<&'static str> for StrBuffer {
    fn from(text: &'static str) -> (r: StrBuffer) {
        StrBuffer::from_static(text)
    }
}

impl vstd::std_specs::convert::FromSpecImpl<&'static str> for StrBuffer {
    open spec fn obeys_from_spec() -> bool {
        true
    }

    open spec fn from_spec(text: &'static str) -> StrBuffer {
        StrBuffer::spec_from_static(text)
    }
}

impl AsRef<str> for StrBuffer {
    fn as_ref(&self) -> &str {
        self.as_str()
    }
}

} // verus!
