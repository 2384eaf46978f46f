//! The interface of a text tokenizer.
use vstd::prelude::*;

use crate::error::Result;

verus! {

/// Turns text into token ids and back.
pub trait Tokenizer {
    /// Whether `encode` is known to follow [`spec_encode`](Self::spec_encode).
    /// Nothing is claimed of an implementation that does not say so.
    open spec fn obeys_encode_spec(&self) -> bool {
        false
    }

    /// The token ids this tokenizer gives `text`, or `None` where it
    /// refuses it.
    open spec fn spec_encode(&self, text: Seq<char>) -> Option<Seq<u32>> {
        None
    }

    /// The token ids of `text`.
    fn encode(&self, text: &str) -> (r: Result<Vec<u32>>)
        ensures
            self.obeys_encode_spec() ==> (r is Ok <==> self.spec_encode(text@) is Some),
            self.obeys_encode_spec() ==> (r matches Ok(ids) ==> self.spec_encode(text@) == Some(ids@)),
    ;

    /// The text of `token_ids`, optionally without special tokens.
    fn decode(&self, token_ids: &[u32], skip_special_tokens: bool) -> Result<String>;

    /// Number of tokens in the vocabulary.
    fn vocab_size(&self) -> usize;

    /// The beginning-of-sequence token, if there is one.
    fn bos_token_id(&self) -> Option<u32>;

    /// The end-of-sequence token, if there is one.
    fn eos_token_id(&self) -> Option<u32>;
}

} // verus!
