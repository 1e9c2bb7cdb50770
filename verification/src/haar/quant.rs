//! The quantisers: a power-of-two step per coefficient position, and per plane for the DC.

use vstd::prelude::*;

use crate::haar::transform;

verus! {

/// Quantiser step of luma position `i`.
pub open spec fn luma_step(i: int) -> int {
    if i <= 2 {
        16
    } else if i == 3 {
        32
    } else if i <= 11 {
        4
    } else if i <= 15 {
        8
    } else if i <= 47 {
        2
    } else {
        4
    }
}

/// Whether luma position `i` truncates towards zero rather than rounding half up: the finest
/// HL and LH bands do.
pub open spec fn luma_truncates(i: int) -> bool {
    16 <= i <= 47
}

/// What rounding adds at luma position `i` before dividing: half a step, or nothing where the
/// quotient is truncated.
pub open spec fn luma_bias(i: int) -> int {
    if luma_truncates(i) {
        0
    } else {
        luma_step(i) / 2
    }
}

/// `v` held to the 12-bit signed range of a coefficient token.
pub open spec fn clamp_token(v: int) -> int {
    if v < -2048 {
        -2048
    } else if v > 2047 {
        2047
    } else {
        v
    }
}

/// A quotient truncated towards zero.
pub open spec fn truncated(v: int, step: int) -> int {
    if v < 0 {
        -((-v) / step)
    } else {
        v / step
    }
}

/// A luma coefficient divided by its position's step and held to the token range.
pub open spec fn quantize_spec(coeff: int, i: int) -> int {
    clamp_token(
        if luma_truncates(i) {
            truncated(coeff, luma_step(i))
        } else {
            (coeff + luma_bias(i)) / luma_step(i)
        },
    )
}

/// The shift and the rounding bias of luma position `i`.
fn step_bias(i: usize) -> (r: (u32, i32))
    requires
        i < 64,
    ensures
        r.1 == luma_bias(i as int),
        r.0 == 1 ==> luma_step(i as int) == 2,
        r.0 == 2 ==> luma_step(i as int) == 4,
        r.0 == 3 ==> luma_step(i as int) == 8,
        r.0 == 4 ==> luma_step(i as int) == 16,
        r.0 == 5 ==> luma_step(i as int) == 32,
        1 <= r.0 <= 5,
{
    if i <= 2 {
        (4, 8)
    } else if i == 3 {
        (5, 16)
    } else if i <= 11 {
        (2, 2)
    } else if i <= 15 {
        (3, 4)
    } else if i <= 47 {
        (1, 0)
    } else {
        (2, 2)
    }
}

/// `v` held to the token range.
fn clamp_to_token(v: i32) -> (r: i32)
    ensures
        r == clamp_token(v as int),
{
    if v < -2048 {
        -2048
    } else if v > 2047 {
        2047
    } else {
        v
    }
}

/// Quantise luma coefficient `coeff` at position `i`; see [`quantize_spec`].
pub fn quantize(coeff: i32, i: usize) -> (q: i32)
    requires
        i < 64,
        coeff + luma_bias(i as int) <= i32::MAX,
        luma_truncates(i as int) ==> coeff > i32::MIN,
    ensures
        q == quantize_spec(coeff as int, i as int),
{
    let (shift, bias) = step_bias(i);
    if bias == 0 {
        let magnitude: i32 = if coeff < 0 {
            -coeff
        } else {
            coeff
        };
        proof {
            transform::lemma_shift_is_floor(magnitude);
        }
        let q: i32 = magnitude >> shift;
        if coeff < 0 {
            clamp_to_token(-q)
        } else {
            clamp_to_token(q)
        }
    } else {
        proof {
            transform::lemma_shift_is_floor((coeff + bias) as i32);
        }
        clamp_to_token((coeff + bias) >> shift)
    }
}

/// Quantiser step of chroma AC position `i`.
pub open spec fn chroma_step(i: int) -> int {
    if i == 1 || i == 2 || 4 <= i <= 11 {
        16
    } else if i >= 48 {
        64
    } else {
        32
    }
}

/// A chroma AC coefficient divided by its position's step, rounded half up on the signed value.
pub open spec fn quantize_chroma_spec(coeff: int, i: int) -> int {
    (coeff + chroma_step(i) / 2) / chroma_step(i)
}

/// Quantise chroma AC coefficient `coeff` at position `i`; see [`quantize_chroma_spec`].
pub fn quantize_chroma_ac(coeff: i32, i: usize) -> (q: i32)
    requires
        i < 64,
        coeff + chroma_step(i as int) / 2 <= i32::MAX,
    ensures
        q == quantize_chroma_spec(coeff as int, i as int),
{
    let shift: u32 = if i == 1 || i == 2 || (4 <= i && i <= 11) {
        4
    } else if i >= 48 {
        6
    } else {
        5
    };
    let half: i32 = if shift == 4 {
        8
    } else if shift == 5 {
        16
    } else {
        32
    };
    proof {
        transform::lemma_shift_is_floor((coeff + half) as i32);
    }
    (coeff + half) >> shift
}

/// Quantiser step of a plane's DC: luma is plane 0.
pub open spec fn dc_step(plane: int) -> int {
    if plane == 0 {
        16
    } else {
        64
    }
}

/// A DC divided by its plane's step, rounded half up on the signed value.
pub open spec fn quantize_dc_spec(plane: int, v: int) -> int {
    (v + dc_step(plane) / 2) / dc_step(plane)
}

/// Quantise the DC of `plane`; see [`quantize_dc_spec`].
pub fn quantize_dc_round(plane: usize, v: i32) -> (q: i32)
    requires
        v + dc_step(plane as int) / 2 <= i32::MAX,
    ensures
        q == quantize_dc_spec(plane as int, v as int),
{
    if plane == 0 {
        proof {
            transform::lemma_shift_is_floor((v + 8) as i32);
        }
        (v + 8) >> 4u32
    } else {
        proof {
            transform::lemma_shift_is_floor((v + 32) as i32);
        }
        (v + 32) >> 6u32
    }
}

/// Rounding half up leaves an error of at most half a step, at either sign.
pub proof fn law_rounding_error_is_half_a_step(coeff: int, i: int)
    requires
        0 <= i < 64,
    ensures
        -chroma_step(i) < 2 * (chroma_step(i) * quantize_chroma_spec(coeff, i) - coeff)
            <= chroma_step(i),
        -16 < 2 * (16 * quantize_dc_spec(0, coeff) - coeff) <= 16,
        -64 < 2 * (64 * quantize_dc_spec(1, coeff) - coeff) <= 64,
{
    let s = chroma_step(i);
    let v = coeff + s / 2;
    vstd::arithmetic::div_mod::lemma_fundamental_div_mod(v, s);
    vstd::arithmetic::div_mod::lemma_fundamental_div_mod(coeff + 8, 16);
    vstd::arithmetic::div_mod::lemma_fundamental_div_mod(coeff + 32, 64);
}

/// Every luma token fits twelve signed bits, and larger coefficients never give smaller tokens.
pub proof fn law_luma_tokens_are_monotone(a: int, b: int, i: int)
    requires
        0 <= i < 64,
        a <= b,
    ensures
        -2048 <= quantize_spec(a, i) <= quantize_spec(b, i) <= 2047,
{
    let s = luma_step(i);
    if s == 2 {
    } else {
        vstd::arithmetic::div_mod::lemma_div_is_ordered(a + luma_bias(i), b + luma_bias(i), s);
    }
}

/// A zero coefficient quantises to zero at every position.
pub proof fn lemma_zero_stays_zero(i: int)
    ensures
        quantize_spec(0, i) == 0,
        quantize_chroma_spec(0, i) == 0,
        quantize_dc_spec(0, 0) == 0,
        quantize_dc_spec(1, 0) == 0,
{
    if i <= 2 {
    } else if i == 3 {
    } else if i <= 11 {
    } else if i <= 15 {
    } else if i <= 47 {
    } else {
        assert(luma_step(i) == 4);
    }
}

} // verus!
