//! Settings of one text generation run, and their validation.
use vstd::prelude::*;

use crate::error::{Result, TinyError};

verus! {

/// Bits of the single-precision number `+0.0`.
pub const ZERO_BITS: u32 = 0;

/// Bits of the single-precision number `-0.0`.
pub const NEGATIVE_ZERO_BITS: u32 = 0x8000_0000;

/// Bits of the single-precision number `1.0`.
pub const ONE_BITS: u32 = 0x3f80_0000;

/// Whether the IEEE-754 single-precision number with bits `bits` equals
/// zero (either sign of zero).
pub open spec fn is_zero_bits(bits: u32) -> bool {
    bits == ZERO_BITS || bits == NEGATIVE_ZERO_BITS
}

/// Whether the single-precision number with bits `bits` is finite and
/// `>= 0.0`: a non-negative finite value, or `-0.0`.
pub open spec fn non_negative_finite_bits(bits: u32) -> bool {
    bits < 0x7f80_0000 || bits == NEGATIVE_ZERO_BITS
}

/// Whether the single-precision number with bits `bits` is finite and lies
/// in `(0, 1]`. Positive finite numbers order as their bits do.
pub open spec fn unit_interval_bits(bits: u32) -> bool {
    0 < bits <= ONE_BITS
}

/// How one generation run chooses its tokens. The temperature and the
/// nucleus mass `top_p` are held as their IEEE-754 single-precision bit
/// patterns.
#[derive(Debug, Clone, Copy, PartialEq, Eq)]
pub struct GenerationConfig {
    pub max_new_tokens: usize,
    pub temperature: u32,
    pub top_k: Option<usize>,
    pub top_p: u32,
    pub seed: u64,
}

/// The message of the first check that `config` fails, if any.
pub open spec fn config_error(config: GenerationConfig) -> Option<Seq<char>> {
    if !non_negative_finite_bits(config.temperature) {
        Some("temperature must be finite and >= 0"@)
    } else if !unit_interval_bits(config.top_p) {
        Some("top_p must satisfy 0 < top_p <= 1"@)
    } else if config.top_k == Some(0usize) {
        Some("top_k must be greater than 0"@)
    } else {
        None
    }
}

impl GenerationConfig {
    /// Checks the settings: a finite temperature `>= 0`, a finite `top_p`
    /// in `(0, 1]`, and a `top_k`, where one is given, greater than zero.
    pub fn validate(&self) -> (r: Result<()>)
        ensures
            r is Ok <==> config_error(*self) is None,
            r matches Err(e) ==> e matches TinyError::Sampling(m) && config_error(*self) == Some(m@),
    {
        if !(self.temperature < 0x7f80_0000 || self.temperature == NEGATIVE_ZERO_BITS) {
            proof {
                reveal_strlit("temperature must be finite and >= 0");
            }
            return Err(TinyError::Sampling("temperature must be finite and >= 0".to_string()));
        }
        if !(0 < self.top_p && self.top_p <= ONE_BITS) {
            proof {
                reveal_strlit("top_p must satisfy 0 < top_p <= 1");
            }
            return Err(TinyError::Sampling("top_p must satisfy 0 < top_p <= 1".to_string()));
        }
        if let Some(k) = self.top_k {
            if k == 0 {
                proof {
                    reveal_strlit("top_k must be greater than 0");
                }
                return Err(TinyError::Sampling("top_k must be greater than 0".to_string()));
            }
        }
        Ok(())
    }

    /// Whether tokens are chosen greedily: a temperature of zero.
    pub fn is_greedy(&self) -> (b: bool)
        ensures
            b <==> is_zero_bits(self.temperature),
    {
        self.temperature == ZERO_BITS || self.temperature == NEGATIVE_ZERO_BITS
    }
}

impl Default for GenerationConfig {
    /// Greedy generation of at most 64 tokens with seed 42, no `top_k`
    /// and the whole probability mass.
    fn default() -> (c: Self)
        ensures
            c == (GenerationConfig {
                max_new_tokens: 64,
                temperature: ZERO_BITS,
                top_k: None,
                top_p: ONE_BITS,
                seed: 42,
            }),
    {
        GenerationConfig {
            max_new_tokens: 64,
            temperature: ZERO_BITS,
            top_k: None,
            top_p: ONE_BITS,
            seed: 42,
        }
    }
}

} // verus!
