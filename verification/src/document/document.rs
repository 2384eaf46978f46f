//! A text document and where it came from.
use vstd::prelude::*;
use vstd::utf8::{encode_scalar, encode_utf8};

verus! {

/// A document's text and the path it was read from.
#[derive(Debug, Clone, PartialEq, Eq)]
pub struct Document {
    source: String,
    text: String,
}

impl Document {
    /// The path the document came from.
    pub closed spec fn spec_source(&self) -> Seq<char> {
        self.source@
    }

    /// The document's text.
    pub closed spec fn spec_text(&self) -> Seq<char> {
        self.text@
    }

    /// A document read from `source`.
    pub fn new(source: &str, text: &str) -> (d: Self)
        ensures
            d.spec_source() == source@,
            d.spec_text() == text@,
    {
        Document { source: source.to_string(), text: text.to_string() }
    }

    /// The path the document came from.
    pub fn source(&self) -> (s: &str)
        ensures
            s@ == self.spec_source(),
    {
        self.source.as_str()
    }

    /// The document's text.
    pub fn text(&self) -> (s: &str)
        ensures
            s@ == self.spec_text(),
    {
        self.text.as_str()
    }

    /// Length of the text in UTF-8 bytes.
    pub fn len(&self) -> (n: usize)
        ensures
            n == encode_utf8(self.spec_text()).len(),
    {
        self.text.as_str().as_bytes().len()
    }

    /// Whether the text is empty: it has no character, and no byte.
    pub fn is_empty(&self) -> (b: bool)
        ensures
            b == (self.spec_text().len() == 0),
            b == (encode_utf8(self.spec_text()).len() == 0),
    {
        proof {
            lemma_no_bytes_iff_no_chars(self.text@);
        }
        self.text.as_str().is_empty()
    }
}

/// A text has no UTF-8 byte exactly when it has no character.
pub proof fn lemma_no_bytes_iff_no_chars(text: Seq<char>)
    ensures
        encode_utf8(text).len() == 0 <==> text.len() == 0,
{
    if text.len() > 0 {
        assert(encode_utf8(text) == encode_scalar(text[0] as u32) + encode_utf8(text.drop_first()));
        assert(encode_scalar(text[0] as u32).len() >= 1);
    }
}

} // verus!
