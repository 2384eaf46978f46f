//! Choosing the next token from a row of logits.
use vstd::prelude::*;

use crate::error::{Result, TinyError};

verus! {

/// Whether the `f32` with bit pattern `bits` is finite.
pub open spec fn f32_bits_finite(bits: u32) -> bool {
    bits % 0x8000_0000 < 0x7f80_0000
}

/// The position of the `f32` with bit pattern `bits` in the IEEE-754 total
/// order (`f32::total_cmp`), as an unsigned key.
pub open spec fn total_order_key(bits: u32) -> int {
    if bits < 0x8000_0000 {
        bits + 0x8000_0000
    } else {
        0xffff_ffff - bits
    }
}

/// The index of the greatest finite value among the first `n` logits, the
/// last one where several are greatest.
pub open spec fn greedy_index(logits: Seq<u32>, n: int) -> Option<int>
    decreases n,
{
    if n <= 0 {
        None
    } else {
        let before = greedy_index(logits, n - 1);
        if f32_bits_finite(logits[n - 1]) && (before matches Some(b) ==> total_order_key(logits[n - 1])
            >= total_order_key(logits[b])) {
            Some(n - 1)
        } else {
            before
        }
    }
}

fn finite_bits(bits: u32) -> (b: bool)
    ensures
        b == f32_bits_finite(bits),
{
    bits % 0x8000_0000 < 0x7f80_0000
}

fn order_key(bits: u32) -> (k: u32)
    ensures
        k == total_order_key(bits),
{
    if bits < 0x8000_0000 {
        bits + 0x8000_0000
    } else {
        0xffff_ffff - bits
    }
}

/// The greedy choice over a row of logits given as `f32` bit patterns: the
/// index of the greatest finite logit (by `f32::total_cmp`, the last of
/// equals). No finite logit, or an index beyond `u32`, is an error.
pub fn greedy_next_token(logits: &[u32]) -> (r: Result<u32>)
    ensures
        r is Ok <==> (greedy_index(logits@, logits@.len() as int) matches Some(i) && i <= u32::MAX),
        r matches Ok(t) ==> greedy_index(logits@, logits@.len() as int) == Some(t as int),
        r matches Err(e) ==> e matches TinyError::Sampling(m) && m@ == if greedy_index(
            logits@,
            logits@.len() as int,
        ) is None {
            "no finite logits available"@
        } else {
            "token id exceeds u32"@
        },
{
    let mut best: usize = 0;
    let mut found = false;
    let mut best_key: u32 = 0;
    let mut i: usize = 0;
    while i < logits.len()
        invariant
            0 <= i <= logits@.len(),
            found <==> greedy_index(logits@, i as int) is Some,
            found ==> greedy_index(logits@, i as int) == Some(best as int) && best < i
                && best_key == total_order_key(logits@[best as int]),
        decreases logits@.len() - i,
    {
        let v = logits[i];
        if finite_bits(v) {
            let k = order_key(v);
            if !found || k >= best_key {
                best = i;
                best_key = k;
                found = true;
            }
        }
        i = i + 1;
    }
    if !found {
        return Err(TinyError::Sampling("no finite logits available".to_string()));
    }
    if best > 0xffff_ffff {
        return Err(TinyError::Sampling("token id exceeds u32".to_string()));
    }
    Ok(best as u32)
}

/// The greedy choice is a finite logit at least as great as every other
/// finite logit and greater than every finite logit after it.
pub proof fn lemma_greedy_is_last_maximum(logits: Seq<u32>, n: int)
    requires
        0 <= n <= logits.len(),
    ensures
        greedy_index(logits, n) is None <==> forall|j: int| 0 <= j < n ==> !f32_bits_finite(#[trigger] logits[j]),
        greedy_index(logits, n) matches Some(i) ==> {
            &&& 0 <= i < n
            &&& f32_bits_finite(logits[i])
            &&& forall|j: int| 0 <= j < n && f32_bits_finite(#[trigger] logits[j]) ==> total_order_key(logits[j])
                <= total_order_key(logits[i])
            &&& forall|j: int| i < j < n && f32_bits_finite(#[trigger] logits[j]) ==> total_order_key(logits[j])
                < total_order_key(logits[i])
        },
    decreases n,
{
    if n > 0 {
        lemma_greedy_is_last_maximum(logits, n - 1);
    }
}

} // verus!
