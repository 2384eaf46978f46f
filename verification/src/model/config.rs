//! Model hyper-parameters and their validation.
use vstd::prelude::*;

use crate::error::{Result, TinyError};
use crate::text::{push_decimal, push_str, decimal};

verus! {

/// Whether the IEEE-754 single-precision number with bits `bits` is finite
/// and greater than zero.
pub open spec fn positive_finite_bits(bits: u32) -> bool {
    0 < bits < 0x7f80_0000
}

/// The hyper-parameters of a decoder-only transformer. The two floating-point
/// parameters are held as their IEEE-754 single-precision bit patterns.
#[derive(Debug, Clone, Copy, PartialEq, Eq)]
pub struct ModelConfig {
    pub vocab_size: usize,
    pub hidden_size: usize,
    pub intermediate_size: usize,
    pub num_layers: usize,
    pub num_heads: usize,
    pub num_kv_heads: usize,
    pub max_seq_len: usize,
    pub rms_norm_eps: u32,
    pub rope_theta: u32,
}

impl ModelConfig {
    /// Whether every check that reports an invalid shape passes.
    pub open spec fn shape_ok(&self) -> bool {
        &&& self.vocab_size != 0
        &&& self.hidden_size != 0
        &&& self.intermediate_size != 0
        &&& self.num_layers != 0
        &&& self.num_heads != 0
        &&& self.num_kv_heads != 0
        &&& self.hidden_size % self.num_heads == 0
        &&& (self.hidden_size / self.num_heads) % 2 == 0
        &&& self.max_seq_len != 0
        &&& positive_finite_bits(self.rms_norm_eps)
        &&& positive_finite_bits(self.rope_theta)
    }

    /// The message of the first shape check the configuration fails.
    pub open spec fn shape_error_text(&self) -> Seq<char> {
        if self.vocab_size == 0 {
            "vocab size cannot be zero"@
        } else if self.hidden_size == 0 {
            "hidden size cannot be zero"@
        } else if self.intermediate_size == 0 {
            "intermediate size cannot be zero"@
        } else if self.num_layers == 0 {
            "number of layers cannot be zero"@
        } else if self.num_heads == 0 {
            "number of attention heads cannot be zero"@
        } else if self.num_kv_heads == 0 {
            "number of key/value attention heads cannot be zero"@
        } else if self.hidden_size % self.num_heads != 0 {
            "hidden size "@ + decimal(self.hidden_size as nat) + " must be divisible by num_heads "@
                + decimal(self.num_heads as nat)
        } else if (self.hidden_size / self.num_heads) % 2 != 0 {
            "RoPE requires an even head dimension, got "@ + decimal(
                (self.hidden_size / self.num_heads) as nat,
            )
        } else if self.max_seq_len == 0 {
            "max sequence length cannot be zero"@
        } else if !positive_finite_bits(self.rms_norm_eps) {
            "RMSNorm epsilon must be positive and finite"@
        } else {
            "RoPE theta must be positive and finite"@
        }
    }

    /// Whether the configuration describes a usable model.
    pub open spec fn valid(&self) -> bool {
        self.shape_ok() && self.num_heads % self.num_kv_heads == 0
    }

    /// Checks the configuration: every size positive, the hidden size split
    /// evenly into heads of even dimension, a positive finite RMSNorm epsilon
    /// and RoPE theta, and query heads grouped evenly over key/value heads.
    pub fn validate(&self) -> (r: Result<()>)
        ensures
            r is Ok <==> self.valid(),
            r matches Err(e) ==> (e is InvalidShape <==> !self.shape_ok()) && (e is ModelFormat
                <==> self.shape_ok()),
            r matches Err(TinyError::ModelFormat(m)) ==> m@ == kv_head_text(
                self.num_heads as nat,
                self.num_kv_heads as nat,
            ),
            r matches Err(TinyError::InvalidShape(m)) ==> m@ == self.shape_error_text(),
    {
        if self.vocab_size == 0 {
            return Err(TinyError::InvalidShape("vocab size cannot be zero".to_string()));
        }
        if self.hidden_size == 0 {
            return Err(TinyError::InvalidShape("hidden size cannot be zero".to_string()));
        }
        if self.intermediate_size == 0 {
            return Err(TinyError::InvalidShape("intermediate size cannot be zero".to_string()));
        }
        if self.num_layers == 0 {
            return Err(TinyError::InvalidShape("number of layers cannot be zero".to_string()));
        }
        if self.num_heads == 0 {
            return Err(
                TinyError::InvalidShape("number of attention heads cannot be zero".to_string()),
            );
        }
        if self.num_kv_heads == 0 {
            return Err(
                TinyError::InvalidShape(
                    "number of key/value attention heads cannot be zero".to_string(),
                ),
            );
        }
        if self.hidden_size % self.num_heads != 0 {
            let mut m = String::new();
            push_str(&mut m, "hidden size ");
            push_decimal(&mut m, self.hidden_size);
            push_str(&mut m, " must be divisible by num_heads ");
            push_decimal(&mut m, self.num_heads);
            return Err(TinyError::InvalidShape(m));
        }
        let head_dim = self.hidden_size / self.num_heads;
        if head_dim % 2 != 0 {
            let mut m = String::new();
            push_str(&mut m, "RoPE requires an even head dimension, got ");
            push_decimal(&mut m, head_dim);
            return Err(TinyError::InvalidShape(m));
        }
        if self.max_seq_len == 0 {
            return Err(TinyError::InvalidShape("max sequence length cannot be zero".to_string()));
        }
        if !(0 < self.rms_norm_eps && self.rms_norm_eps < 0x7f80_0000) {
            return Err(
                TinyError::InvalidShape("RMSNorm epsilon must be positive and finite".to_string()),
            );
        }
        if !(0 < self.rope_theta && self.rope_theta < 0x7f80_0000) {
            return Err(
                TinyError::InvalidShape("RoPE theta must be positive and finite".to_string()),
            );
        }
        if self.num_heads % self.num_kv_heads != 0 {
            return Err(TinyError::ModelFormat(kv_head_message(self.num_heads, self.num_kv_heads)));
        }
        Ok(())
    }

    /// The dimension of one attention head.
    pub fn head_dim(&self) -> (d: usize)
        requires
            self.num_heads > 0,
        ensures
            d == self.hidden_size / self.num_heads,
    {
        self.hidden_size / self.num_heads
    }

    /// Width of the query projection: all heads side by side.
    pub fn q_proj_size(&self) -> (n: usize)
        requires
            self.num_heads > 0,
        ensures
            n == self.num_heads * (self.hidden_size / self.num_heads),
    {
        let d = self.head_dim();
        proof {
            vstd::arithmetic::div_mod::lemma_fundamental_div_mod(self.hidden_size as int, self.num_heads as int);
            vstd::arithmetic::div_mod::lemma_mod_bound(self.hidden_size as int, self.num_heads as int);
        }
        self.num_heads * d
    }

    /// Width of the key and value projections: the key/value heads side by side.
    pub fn kv_proj_size(&self) -> (n: usize)
        requires
            self.num_heads > 0,
            self.num_kv_heads * (self.hidden_size / self.num_heads) <= usize::MAX,
        ensures
            n == self.num_kv_heads * (self.hidden_size / self.num_heads),
    {
        self.num_kv_heads * self.head_dim()
    }

    /// Number of query heads that share one key/value head.
    pub fn num_kv_groups(&self) -> (n: usize)
        requires
            self.num_kv_heads > 0,
        ensures
            n == self.num_heads / self.num_kv_heads,
    {
        self.num_heads / self.num_kv_heads
    }
}

/// The message of the key/value head grouping error.
pub open spec fn kv_head_text(num_heads: nat, num_kv_heads: nat) -> Seq<char> {
    "num_heads "@ + decimal(num_heads) + " must be divisible by num_kv_heads "@ + decimal(num_kv_heads)
}

fn kv_head_message(num_heads: usize, num_kv_heads: usize) -> (m: String)
    ensures
        m@ == kv_head_text(num_heads as nat, num_kv_heads as nat),
{
    let mut m = String::new();
    push_str(&mut m, "num_heads ");
    push_decimal(&mut m, num_heads);
    push_str(&mut m, " must be divisible by num_kv_heads ");
    push_decimal(&mut m, num_kv_heads);
    m
}

} // verus!
