//! The stopping rules of greedy generation. The caller runs the model:
//! it prefills the prompt, picks each token with the greedy choice, reports
//! it, and runs the model on it again while the run asks to continue.
use vstd::prelude::*;

use crate::error::{Result, TinyError};
use crate::generation::sampler::{greedy_index, greedy_next_token};
use crate::text::{decimal, push_decimal, push_str};

verus! {

/// The tokens of a greedy generation run so far.
#[derive(Debug, Clone)]
pub struct GreedyRun {
    tokens: Vec<u32>,
    generated: usize,
    max_new_tokens: usize,
    max_seq_len: usize,
    eos_token_id: Option<u32>,
}

impl GreedyRun {
    /// The prompt followed by the generated tokens.
    pub closed spec fn spec_tokens(&self) -> Seq<u32> {
        self.tokens@
    }

    /// Number of generated tokens.
    pub closed spec fn spec_generated(&self) -> nat {
        self.generated as nat
    }

    /// Most tokens to generate.
    pub closed spec fn spec_max_new_tokens(&self) -> nat {
        self.max_new_tokens as nat
    }

    /// The model's context limit.
    pub closed spec fn spec_max_seq_len(&self) -> nat {
        self.max_seq_len as nat
    }

    /// The token that ends generation, if any.
    pub closed spec fn spec_eos(&self) -> Option<u32> {
        self.eos_token_id
    }

    /// A run on `prompt_tokens`: the prompt must not be empty and must fit
    /// in the context.
    pub fn start(prompt_tokens: &[u32], max_new_tokens: usize, max_seq_len: usize, eos_token_id: Option<u32>) -> (r: Result<GreedyRun>)
        ensures
            r is Ok <==> 0 < prompt_tokens@.len() <= max_seq_len,
            r matches Ok(g) ==> g.spec_tokens() == prompt_tokens@ && g.spec_generated() == 0
                && g.spec_max_new_tokens() == max_new_tokens && g.spec_max_seq_len() == max_seq_len
                && g.spec_eos() == eos_token_id,
            r matches Err(e) ==> (e is InvalidShape <==> prompt_tokens@.len() == 0),
            r matches Err(e) ==> (e is PositionOutOfRange <==> prompt_tokens@.len() > max_seq_len),
            r matches Err(TinyError::InvalidShape(m)) ==> m@ == "generation prompt cannot be empty"@,
            r matches Err(TinyError::PositionOutOfRange { start_pos, seq_len, max_seq_len: m }) ==> start_pos
                == 0 && seq_len == prompt_tokens@.len() && m == max_seq_len,
    {
        if prompt_tokens.len() == 0 {
            return Err(TinyError::InvalidShape("generation prompt cannot be empty".to_string()));
        }
        if prompt_tokens.len() > max_seq_len {
            return Err(TinyError::PositionOutOfRange {
                start_pos: 0,
                seq_len: prompt_tokens.len(),
                max_seq_len,
            });
        }
        Ok(GreedyRun {
            tokens: vstd::slice::slice_to_vec(prompt_tokens),
            generated: 0,
            max_new_tokens,
            max_seq_len,
            eos_token_id,
        })
    }

    /// Whether a token is to be generated at all.
    pub fn wants_token(&self) -> (b: bool)
        ensures
            b == (self.spec_generated() < self.spec_max_new_tokens()),
    {
        self.generated < self.max_new_tokens
    }

    /// Records a generated token. The answer says whether the model is to
    /// run on it for another token: not after the end token, not once the
    /// context is full, and not once enough tokens were generated.
    pub fn accept(&mut self, token: u32) -> (more: bool)
        requires
            old(self).spec_generated() < old(self).spec_max_new_tokens(),
        ensures
            final(self).spec_tokens() == old(self).spec_tokens().push(token),
            final(self).spec_generated() == old(self).spec_generated() + 1,
            final(self).spec_max_new_tokens() == old(self).spec_max_new_tokens(),
            final(self).spec_max_seq_len() == old(self).spec_max_seq_len(),
            final(self).spec_eos() == old(self).spec_eos(),
            more == (old(self).spec_eos() != Some(token) && final(self).spec_tokens().len()
                < old(self).spec_max_seq_len() && final(self).spec_generated() < old(self).spec_max_new_tokens()),
    {
        self.tokens.push(token);
        self.generated = self.generated + 1;
        let is_eos = match self.eos_token_id {
            Some(e) => e == token,
            None => false,
        };
        !is_eos && self.tokens.len() < self.max_seq_len && self.generated < self.max_new_tokens
    }

    /// Generates the next token from the model's logits for the last
    /// position (`f32` bit patterns): the greedy choice of that row,
    /// recorded as [`accept`](Self::accept) does. The answer is the token and
    /// whether the model is to run on it. A row with no finite logit, or a
    /// choice beyond `u32`, is refused as [`greedy_next_token`] refuses it,
    /// and the run is unchanged.
    pub fn step(&mut self, logits: &[u32]) -> (r: Result<(u32, bool)>)
        requires
            old(self).spec_generated() < old(self).spec_max_new_tokens(),
        ensures
            r is Ok <==> (greedy_index(logits@, logits@.len() as int) matches Some(i) && i <= u32::MAX),
            r matches Ok(p) ==> greedy_index(logits@, logits@.len() as int) == Some(p.0 as int)
                && final(self).spec_tokens() == old(self).spec_tokens().push(p.0)
                && final(self).spec_generated() == old(self).spec_generated() + 1
                && p.1 == (old(self).spec_eos() != Some(p.0) && final(self).spec_tokens().len()
                < old(self).spec_max_seq_len() && final(self).spec_generated() < old(self).spec_max_new_tokens()),
            r is Err ==> final(self).spec_tokens() == old(self).spec_tokens() && final(self).spec_generated()
                == old(self).spec_generated(),
            final(self).spec_max_new_tokens() == old(self).spec_max_new_tokens(),
            final(self).spec_max_seq_len() == old(self).spec_max_seq_len(),
            final(self).spec_eos() == old(self).spec_eos(),
            r matches Err(e) ==> e matches TinyError::Sampling(m) && m@ == if greedy_index(
                logits@,
                logits@.len() as int,
            ) is None {
                "no finite logits available"@
            } else {
                "token id exceeds u32"@
            },
    {
        let token = match greedy_next_token(logits) {
            Ok(t) => t,
            Err(e) => {
                return Err(e);
            },
        };
        let more = self.accept(token);
        Ok((token, more))
    }

    /// The prompt followed by the generated tokens.
    pub fn tokens(&self) -> (t: &[u32])
        ensures
            t@ == self.spec_tokens(),
    {
        self.tokens.as_slice()
    }

    /// Consumes the run, giving the prompt followed by the generated tokens.
    pub fn into_tokens(self) -> (t: Vec<u32>)
        ensures
            t@ == self.spec_tokens(),
    {
        self.tokens
    }
}

/// How many tokens a chat reply may take: the request, capped by what is
/// left of the context after the prompt. A prompt that fills the context is
/// refused.
pub fn reply_budget(prompt_len: usize, max_seq_len: usize, max_new_tokens: usize) -> (r: Result<usize>)
    ensures
        r is Ok <==> prompt_len < max_seq_len,
        r matches Ok(n) ==> n == (if max_new_tokens < max_seq_len - prompt_len {
            max_new_tokens as int
        } else {
            max_seq_len - prompt_len
        }),
        r matches Ok(n) ==> n <= max_new_tokens && prompt_len + n <= max_seq_len,
        r matches Err(TinyError::PositionOutOfRange { start_pos, seq_len, max_seq_len: m }) ==> start_pos == 0
            && seq_len == prompt_len && m == max_seq_len,
        r matches Err(e) ==> e is PositionOutOfRange,
{
    if prompt_len >= max_seq_len {
        return Err(TinyError::PositionOutOfRange { start_pos: 0, seq_len: prompt_len, max_seq_len });
    }
    let remaining = max_seq_len - prompt_len;
    if max_new_tokens < remaining {
        Ok(max_new_tokens)
    } else {
        Ok(remaining)
    }
}


/// Checks that the tokenizer and the model share a vocabulary size.
pub fn check_vocab_sizes(tokenizer_vocab: usize, model_vocab: usize) -> (r: Result<()>)
    ensures
        r is Ok <==> tokenizer_vocab == model_vocab,
        r matches Err(e) ==> e matches TinyError::Tokenizer(m) && m@ == "tokenizer vocab size "@ + decimal(
            tokenizer_vocab as nat,
        ) + " does not match model vocab size "@ + decimal(model_vocab as nat),
{
    if tokenizer_vocab != model_vocab {
        let mut m = "tokenizer vocab size ".to_string();
        push_decimal(&mut m, tokenizer_vocab);
        push_str(&mut m, " does not match model vocab size ");
        push_decimal(&mut m, model_vocab);
        return Err(TinyError::Tokenizer(m));
    }
    Ok(())
}

} // verus!
