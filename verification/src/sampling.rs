//! Greedy selection of the next token.
//!
//! Logits are `f32` values, handed to this module as their IEEE-754 bit
//! patterns. Two non-NaN values compare as their ordering keys do: the key of
//! a pattern is its magnitude bits, negated when the sign bit is set, so that
//! `-0.0` and `+0.0` share the key 0. A NaN compares neither above nor below
//! anything.

use vstd::prelude::*;

verus! {

/// The sign bit of an `f32` bit pattern.
pub open spec fn sign_bit() -> int {
    0x8000_0000
}

/// The pattern of positive infinity; magnitudes above it are NaNs.
pub open spec fn infinity_bits() -> int {
    0x7f80_0000
}

/// Whether the pattern `b` is a NaN.
pub open spec fn is_nan_bits(b: u32) -> bool {
    (b as int) % sign_bit() > infinity_bits()
}

/// The ordering key of the pattern `b`.
pub open spec fn order_key(b: u32) -> int {
    if b >= sign_bit() {
        -(b - sign_bit())
    } else {
        b as int
    }
}

/// `a > b` on the `f32` values with the patterns `a` and `b`.
pub open spec fn f32_bits_gt(a: u32, b: u32) -> bool {
    !is_nan_bits(a) && !is_nan_bits(b) && order_key(a) > order_key(b)
}

/// `best` is where a left-to-right scan that moves to every value greater than
/// the best so far ends: the first largest value, unless the first value is a
/// NaN, which no value exceeds.
pub open spec fn is_greedy_choice(logits: Seq<u32>, best: int) -> bool {
    &&& 0 <= best < logits.len()
    &&& if is_nan_bits(logits[0]) {
        best == 0
    } else {
        &&& !is_nan_bits(logits[best])
        &&& forall|j: int|
            0 <= j < logits.len() && !is_nan_bits(logits[j]) ==> order_key(#[trigger] logits[j])
                <= order_key(logits[best])
        &&& forall|j: int|
            0 <= j < best && !is_nan_bits(logits[j]) ==> order_key(#[trigger] logits[j])
                < order_key(logits[best])
    }
}

fn nan_bits(b: u32) -> (r: bool)
    ensures
        r == is_nan_bits(b),
{
    b % 0x8000_0000 > 0x7f80_0000
}

fn key_of(b: u32) -> (k: i64)
    ensures
        k == order_key(b),
{
    if b >= 0x8000_0000 {
        -((b - 0x8000_0000) as i64)
    } else {
        b as i64
    }
}

/// The order of two non-NaN `f32` values, read off their bit patterns: two
/// non-negative values (sign bit clear) order as their patterns do, two
/// negative ones the other way round, a non-negative value is above a negative
/// one unless both are zeros, and a negative value is never above a
/// non-negative one. Every difference in any bit of the pattern counts.
pub proof fn lemma_gt_bits_is_ieee_order(a: u32, b: u32)
    requires
        (a as int) % 0x8000_0000 <= 0x7f80_0000,
        (b as int) % 0x8000_0000 <= 0x7f80_0000,
    ensures
        f32_bits_gt(a, b) <==> if a < 0x8000_0000 && b < 0x8000_0000 {
            a > b
        } else if a >= 0x8000_0000 && b >= 0x8000_0000 {
            a < b
        } else if a < 0x8000_0000 {
            !(a == 0 && b == 0x8000_0000)
        } else {
            false
        },
{
}

/// A NaN is never above nor below anything.
pub proof fn lemma_gt_bits_nan(a: u32, b: u32)
    requires
        (a as int) % 0x8000_0000 > 0x7f80_0000 || (b as int) % 0x8000_0000 > 0x7f80_0000,
    ensures
        !f32_bits_gt(a, b),
        !f32_bits_gt(b, a),
{
}

/// `a > b` for the `f32` values with the patterns `a` and `b`.
pub fn gt_bits(a: u32, b: u32) -> (r: bool)
    ensures
        r == f32_bits_gt(a, b),
        (a as int) % 0x8000_0000 <= 0x7f80_0000 && (b as int) % 0x8000_0000 <= 0x7f80_0000 ==> (r
            <==> if a < 0x8000_0000 && b < 0x8000_0000 {
            a > b
        } else if a >= 0x8000_0000 && b >= 0x8000_0000 {
            a < b
        } else if a < 0x8000_0000 {
            !(a == 0 && b == 0x8000_0000)
        } else {
            false
        }),
{
    proof {
        if (a as int) % 0x8000_0000 <= 0x7f80_0000 && (b as int) % 0x8000_0000 <= 0x7f80_0000 {
            lemma_gt_bits_is_ieee_order(a, b);
        }
    }
    !nan_bits(a) && !nan_bits(b) && key_of(a) > key_of(b)
}

/// What the greedy choice is, in terms of `>` on the logits: with a NaN in
/// front, the front; otherwise a non-NaN logit that no logit is above, and
/// above every non-NaN logit before it.
pub proof fn lemma_greedy_choice_is_first_largest(logits: Seq<u32>, best: int)
    requires
        is_greedy_choice(logits, best),
    ensures
        0 <= best < logits.len(),
        (logits[0] as int) % 0x8000_0000 > 0x7f80_0000 ==> best == 0,
        (logits[0] as int) % 0x8000_0000 <= 0x7f80_0000 ==> {
            &&& (logits[best] as int) % 0x8000_0000 <= 0x7f80_0000
            &&& forall|j: int|
                0 <= j < logits.len() ==> !f32_bits_gt(#[trigger] logits[j], logits[best])
            &&& forall|j: int|
                0 <= j < best && (logits[j] as int) % 0x8000_0000 <= 0x7f80_0000
                    ==> f32_bits_gt(logits[best], #[trigger] logits[j])
        },
{
}

/// Index of the largest logit, the first one among equals.
pub fn argmax(logits: &[u32]) -> (best: usize)
    requires
        logits@.len() > 0,
    ensures
        is_greedy_choice(logits@, best as int),
{
    let mut best: usize = 0;
    let mut best_val: u32 = logits[0];
    let mut i: usize = 1;
    while i < logits.len()
        invariant
            1 <= i <= logits@.len(),
            best < i,
            best_val == logits@[best as int],
            is_nan_bits(logits@[0]) ==> best == 0,
            !is_nan_bits(logits@[0]) ==> !is_nan_bits(best_val),
            forall|j: int|
                0 <= j < i && !is_nan_bits(logits@[j]) && !is_nan_bits(best_val) ==> order_key(
                    #[trigger] logits@[j],
                ) <= order_key(best_val),
            forall|j: int|
                0 <= j < best && !is_nan_bits(logits@[j]) ==> order_key(#[trigger] logits@[j])
                    < order_key(best_val),
        decreases logits@.len() - i,
    {
        let v = logits[i];
        if gt_bits(v, best_val) {
            best_val = v;
            best = i;
        }
        i = i + 1;
    }
    best
}

} // verus!
