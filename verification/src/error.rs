use vstd::prelude::*;

use crate::text::{decimal, push_decimal, push_str};

verus! {

/// Errors reported by the library.
#[derive(Debug, Clone, PartialEq, Eq)]
pub enum TinyError {
    InvalidShape(String),
    ShapeMismatch { left: Vec<usize>, right: Vec<usize> },
    InvalidDimension(String),
    InvalidTokenId { token_id: u32, vocab_size: usize },
    UnsupportedDType(String),
    NonContiguousTensor(String),
    PositionOutOfRange { start_pos: usize, seq_len: usize, max_seq_len: usize },
    Metal(String),
    InvalidArgument(String),
    ModelFormat(String),
    MissingWeight(String),
    Tokenizer(String),
    Tool(String),
    Sampling(String),
    StructuredOutput(String),
    Io(String),
}

/// Result type of the library.
pub type Result<T> = std::result::Result<T, TinyError>;


/// `[a, b, c]`: the dimensions in the form `Debug` gives a list of them.
pub open spec fn dims_text(dims: Seq<usize>) -> Seq<char> {
    "["@ + dims_items(dims) + "]"@
}

/// The dimensions separated by `, `.
pub open spec fn dims_items(dims: Seq<usize>) -> Seq<char>
    decreases dims.len(),
{
    if dims.len() == 0 {
        Seq::empty()
    } else if dims.len() == 1 {
        decimal(dims[0] as nat)
    } else {
        dims_items(dims.drop_last()) + ", "@ + decimal(dims.last() as nat)
    }
}

/// The text that describes an error.
pub open spec fn error_text(e: TinyError) -> Seq<char> {
    match e {
        TinyError::InvalidShape(m) => "invalid shape: "@ + m@,
        TinyError::ShapeMismatch { left, right } => "shape mismatch: left="@ + dims_text(left@) + ", right="@
            + dims_text(right@),
        TinyError::InvalidDimension(m) => "invalid dimension: "@ + m@,
        TinyError::InvalidTokenId { token_id, vocab_size } => "invalid token id "@ + decimal(token_id as nat)
            + ": vocabulary size is "@ + decimal(vocab_size as nat),
        TinyError::UnsupportedDType(m) => "unsupported dtype: "@ + m@,
        TinyError::NonContiguousTensor(m) => "non-contiguous tensor: "@ + m@,
        TinyError::PositionOutOfRange { start_pos, seq_len, max_seq_len } => "position range ["@ + decimal(
            start_pos as nat,
        ) + ", "@ + decimal((start_pos + seq_len) as nat) + ") exceeds max sequence length "@ + decimal(
            max_seq_len as nat,
        ),
        TinyError::Metal(m) => "metal error: "@ + m@,
        TinyError::InvalidArgument(m) => "invalid argument: "@ + m@,
        TinyError::ModelFormat(m) => "invalid model format: "@ + m@,
        TinyError::MissingWeight(m) => "missing weight: "@ + m@,
        TinyError::Tokenizer(m) => "tokenizer error: "@ + m@,
        TinyError::Tool(m) => "tool error: "@ + m@,
        TinyError::Sampling(m) => "sampling error: "@ + m@,
        TinyError::StructuredOutput(m) => "structured output error: "@ + m@,
        TinyError::Io(m) => "I/O error: "@ + m@,
    }
}

pub(crate) fn push_dims(out: &mut String, dims: &Vec<usize>)
    ensures
        final(out)@ == old(out)@ + dims_text(dims@),
{
    push_str(out, "[");
    let ghost head = out@;
    let mut i: usize = 0;
    assert(dims@.take(0) =~= Seq::<usize>::empty());
    while i < dims.len()
        invariant
            0 <= i <= dims@.len(),
            out@ == head + dims_items(dims@.take(i as int)),
        decreases dims@.len() - i,
    {
        if i > 0 {
            push_str(out, ", ");
        }
        push_decimal(out, dims[i]);
        assert(dims@.take(i + 1).drop_last() =~= dims@.take(i as int));
        i = i + 1;
        assert(out@ =~= head + dims_items(dims@.take(i as int)));
    }
    assert(dims@.take(dims@.len() as int) =~= dims@);
    push_str(out, "]");
}

impl TinyError {
    /// The text that describes the error.
    pub fn message(&self) -> (s: String)
        ensures
            s@ == error_text(*self),
    {
        let mut out = String::new();
        match self {
            TinyError::InvalidShape(m) => {
                push_str(&mut out, "invalid shape: ");
                push_str(&mut out, m.as_str());
            },
            TinyError::ShapeMismatch { left, right } => {
                push_str(&mut out, "shape mismatch: left=");
                push_dims(&mut out, left);
                push_str(&mut out, ", right=");
                push_dims(&mut out, right);
            },
            TinyError::InvalidDimension(m) => {
                push_str(&mut out, "invalid dimension: ");
                push_str(&mut out, m.as_str());
            },
            TinyError::InvalidTokenId { token_id, vocab_size } => {
                push_str(&mut out, "invalid token id ");
                push_decimal(&mut out, *token_id as usize);
                push_str(&mut out, ": vocabulary size is ");
                push_decimal(&mut out, *vocab_size);
            },
            TinyError::UnsupportedDType(m) => {
                push_str(&mut out, "unsupported dtype: ");
                push_str(&mut out, m.as_str());
            },
            TinyError::NonContiguousTensor(m) => {
                push_str(&mut out, "non-contiguous tensor: ");
                push_str(&mut out, m.as_str());
            },
            TinyError::PositionOutOfRange { start_pos, seq_len, max_seq_len } => {
                push_str(&mut out, "position range [");
                push_decimal(&mut out, *start_pos);
                push_str(&mut out, ", ");
                crate::text::push_decimal_wide(&mut out, (*start_pos as u128) + (*seq_len as u128));
                push_str(&mut out, ") exceeds max sequence length ");
                push_decimal(&mut out, *max_seq_len);
            },
            TinyError::Metal(m) => {
                push_str(&mut out, "metal error: ");
                push_str(&mut out, m.as_str());
            },
            TinyError::InvalidArgument(m) => {
                push_str(&mut out, "invalid argument: ");
                push_str(&mut out, m.as_str());
            },
            TinyError::ModelFormat(m) => {
                push_str(&mut out, "invalid model format: ");
                push_str(&mut out, m.as_str());
            },
            TinyError::MissingWeight(m) => {
                push_str(&mut out, "missing weight: ");
                push_str(&mut out, m.as_str());
            },
            TinyError::Tokenizer(m) => {
                push_str(&mut out, "tokenizer error: ");
                push_str(&mut out, m.as_str());
            },
            TinyError::Tool(m) => {
                push_str(&mut out, "tool error: ");
                push_str(&mut out, m.as_str());
            },
            TinyError::Sampling(m) => {
                push_str(&mut out, "sampling error: ");
                push_str(&mut out, m.as_str());
            },
            TinyError::StructuredOutput(m) => {
                push_str(&mut out, "structured output error: ");
                push_str(&mut out, m.as_str());
            },
            TinyError::Io(m) => {
                push_str(&mut out, "I/O error: ");
                push_str(&mut out, m.as_str());
            },
        }
        assert(out@ =~= error_text(*self));
        out
    }
}

} // verus!
