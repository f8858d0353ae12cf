//! Real numbers travel through this crate as the bit patterns of their
//! binary64 encoding.  This module says what a pattern encodes, and compares
//! numbers by their patterns: every test on a pattern is proved to be the
//! test on the number.  Arithmetic on the numbers is not done here.

use vstd::arithmetic::mul::{lemma_mul_inequality, lemma_mul_strict_inequality};
use vstd::arithmetic::power2::{lemma_pow2_pos, lemma_pow2_strictly_increases, pow2};
use vstd::prelude::*;

verus! {

/// The pattern of zero.
pub const ZERO: u64 = 0;

/// The pattern of the number one.
pub const ONE: u64 = 0x3FF0_0000_0000_0000;

/// The pattern of the number two.
pub const TWO: u64 = 0x4000_0000_0000_0000;

/// The pattern of the largest finite number.
pub const LARGEST: u64 = 0x7FEF_FFFF_FFFF_FFFF;

/// The pattern of positive infinity.
pub const INFINITY: u64 = 0x7FF0_0000_0000_0000;

/// What a pattern encodes.
pub enum Number {
    /// Not a number.
    Nan,
    /// Infinity, with its sign.
    Infinite { negative: bool },
    /// The number of size `magnitude` parts in two to the power 1074, with
    /// its sign.  Zero has a sign too.
    Finite { negative: bool, magnitude: nat },
}

/// The sign bit of a pattern: set for the negative numbers and for negative
/// zero.
pub open spec fn sign_of(bits: u64) -> bool {
    bits >= 0x8000_0000_0000_0000
}

/// The exponent field of a pattern: the eleven bits below the sign bit.
pub open spec fn exponent_of(bits: u64) -> u64 {
    (bits % 0x8000_0000_0000_0000) / 0x10_0000_0000_0000
}

/// The fraction field of a pattern: its lowest 52 bits.
pub open spec fn fraction_of(bits: u64) -> u64 {
    bits % 0x10_0000_0000_0000
}

/// The number that a pattern encodes.  An exponent field of all ones marks
/// infinity and what is not a number.  An exponent field of zero marks the
/// smallest numbers, whose size is the fraction field.  Any other pattern
/// has a leading bit above its fraction field, and each step of the exponent
/// doubles its size.
pub open spec fn decode(bits: u64) -> Number {
    let negative = sign_of(bits);
    let exponent = exponent_of(bits);
    let fraction = fraction_of(bits);
    if exponent == 0x7FF {
        if fraction == 0 {
            Number::Infinite { negative }
        } else {
            Number::Nan
        }
    } else if exponent == 0 {
        Number::Finite { negative, magnitude: fraction as nat }
    } else {
        Number::Finite {
            negative,
            magnitude: ((0x10_0000_0000_0000 + fraction) * pow2((exponent - 1) as nat)) as nat,
        }
    }
}

/// The fields of a pattern: its sign bit, its exponent and its fraction.
pub fn fields(bits: u64) -> (parts: (bool, u64, u64))
    ensures
        parts.0 == sign_of(bits),
        parts.1 == exponent_of(bits),
        parts.2 == fraction_of(bits),
        parts.1 <= 0x7FF,
        parts.2 < 0x10_0000_0000_0000,
{
    assert(bits >> 63 == 1 <==> bits >= 0x8000_0000_0000_0000) by (bit_vector);
    assert((bits >> 52) & 0x7FF == (bits % 0x8000_0000_0000_0000) / 0x10_0000_0000_0000)
        by (bit_vector);
    assert((bits >> 52) & 0x7FF <= 0x7FF) by (bit_vector);
    assert(bits & 0xF_FFFF_FFFF_FFFF == bits % 0x10_0000_0000_0000) by (bit_vector);
    (bits >> 63 == 1, (bits >> 52) & 0x7FF, bits & 0xF_FFFF_FFFF_FFFF)
}

/// Scaling by a power of two and taking the whole part of a quotient by
/// another: the powers cancel.
pub proof fn lemma_scale_by_powers(m: nat, up: nat, down: nat)
    ensures
        up >= down ==> (m * pow2(up)) / pow2(down) == m * pow2((up - down) as nat),
        up < down ==> (m * pow2(up)) / pow2(down) == m / pow2((down - up) as nat),
{
    lemma_pow2_pos(up);
    lemma_pow2_pos(down);
    if up >= down {
        let rest = pow2((up - down) as nat);
        vstd::arithmetic::power2::lemma_pow2_adds(down, (up - down) as nat);
        assert(m * pow2(up) == pow2(down) * (m * rest)) by (nonlinear_arith)
            requires
                pow2(up) == pow2(down) * rest,
        ;
        vstd::arithmetic::div_mod::lemma_div_multiples_vanish((m * rest) as int, pow2(down) as int);
    } else {
        let rest = pow2((down - up) as nat);
        lemma_pow2_pos((down - up) as nat);
        vstd::arithmetic::power2::lemma_pow2_adds(up, (down - up) as nat);
        vstd::arithmetic::div_mod::lemma_div_multiples_vanish_quotient(
            pow2(up) as int,
            m as int,
            rest as int,
        );
        assert(m * pow2(up) == pow2(up) * m) by (nonlinear_arith);
    }
}

/// Whether `a` is below `b` as numbers.  Nothing is below or above what is
/// not a number, and the two zeros are equal.
pub open spec fn less(a: Number, b: Number) -> bool {
    match (a, b) {
        (Number::Nan, _) => false,
        (_, Number::Nan) => false,
        (Number::Infinite { negative: a_negative }, Number::Infinite { negative: b_negative }) => {
            a_negative && !b_negative
        },
        (Number::Infinite { negative }, Number::Finite { .. }) => negative,
        (Number::Finite { .. }, Number::Infinite { negative }) => !negative,
        (
            Number::Finite { negative: a_negative, magnitude: a_magnitude },
            Number::Finite { negative: b_negative, magnitude: b_magnitude },
        ) => {
            let a_value = if a_negative {
                -a_magnitude
            } else {
                a_magnitude as int
            };
            let b_value = if b_negative {
                -b_magnitude
            } else {
                b_magnitude as int
            };
            a_value < b_value
        },
    }
}

/// Whether `a` and `b` are equal as numbers.  The two zeros are equal, and
/// what is not a number equals nothing.
pub open spec fn equal(a: Number, b: Number) -> bool {
    a !is Nan && b !is Nan && !less(a, b) && !less(b, a)
}

/// Whether `a` is at least `b` as numbers.
pub open spec fn at_least(a: Number, b: Number) -> bool {
    a !is Nan && b !is Nan && !less(a, b)
}

/// Whether a ray parameter lies in reach of `bound`: strictly between the
/// ray's origin and the bound, both given as patterns.  For a bound that
/// encodes a positive number or positive infinity this is the test
/// `0 < t && t < bound` on the numbers, by `lemma_in_reach_is_between`.
pub open spec fn in_reach(param: u64, bound: u64) -> bool {
    0 < param && param < bound
}

/// The named patterns encode what their names say: zero, one, two, the
/// largest of the finite numbers, and positive infinity.
pub proof fn lemma_named_patterns()
    ensures
        decode(ZERO) == (Number::Finite { negative: false, magnitude: 0 }),
        decode(ONE) == (Number::Finite { negative: false, magnitude: pow2(1074) }),
        decode(TWO) == (Number::Finite { negative: false, magnitude: 2 * pow2(1074) }),
        decode(LARGEST) is Finite,
        decode(INFINITY) == (Number::Infinite { negative: false }),
        forall|bits: u64|
            decode(bits) is Finite ==> !less(decode(LARGEST), #[trigger] decode(bits)),
{
    assert(pow2(1074) == 0x10_0000_0000_0000 * pow2(1022)) by {
        vstd::arithmetic::power2::lemma_pow2_adds(52, 1022);
        vstd::arithmetic::power2::lemma2_to64_rest();
        assert(pow2(52) == 0x10_0000_0000_0000);
        assert(pow2(1074) == pow2(52) * pow2(1022));
    }
    assert(2 * pow2(1074) == 0x10_0000_0000_0000 * pow2(1023)) by {
        vstd::arithmetic::power2::lemma_pow2_unfold(1023);
        assert(0x10_0000_0000_0000 * (2 * pow2(1022)) == 2 * (0x10_0000_0000_0000 * pow2(1022)))
            by (nonlinear_arith);
    }
    assert forall|bits: u64| decode(bits) is Finite implies !less(
        decode(LARGEST),
        #[trigger] decode(bits),
    ) by {
        let rest: u64 = if bits >= 0x8000_0000_0000_0000 {
            (bits - 0x8000_0000_0000_0000) as u64
        } else {
            bits
        };
        if rest < LARGEST {
            if rest > 0 {
                lemma_magnitude_grows(rest, LARGEST);
            } else {
                lemma_pow2_pos(2045);
                vstd::arithmetic::mul::lemma_mul_strictly_positive(
                    0x1F_FFFF_FFFF_FFFFint,
                    pow2(2045) as int,
                );
            }
        }
    }
}

/// Among the patterns of the positive finite numbers, the larger pattern
/// encodes the larger number.
pub proof fn lemma_magnitude_grows(a: u64, b: u64)
    requires
        0 < a < b < INFINITY,
    ensures
        decode(a) is Finite && !decode(a)->Finite_negative,
        decode(b) is Finite && !decode(b)->Finite_negative,
        0 < decode(a)->Finite_magnitude < decode(b)->Finite_magnitude,
{
    // the leading bit that a pattern with an exponent above zero leaves out
    let hidden: int = 0x10_0000_0000_0000;
    let a_exponent = a as int / hidden;
    let a_fraction = a as int % hidden;
    let b_exponent = b as int / hidden;
    let b_fraction = b as int % hidden;
    assert(a_exponent <= b_exponent);
    if a_exponent > 0 {
        lemma_pow2_pos((a_exponent - 1) as nat);
        lemma_mul_strict_inequality(0, hidden + a_fraction, pow2((a_exponent - 1) as nat) as int);
    }
    if a_exponent == b_exponent {
        assert(a_fraction < b_fraction);
        if a_exponent > 0 {
            lemma_mul_strict_inequality(
                hidden + a_fraction,
                hidden + b_fraction,
                pow2((a_exponent - 1) as nat) as int,
            );
        }
    } else {
        // `a` stays below `hidden` times two to the power of its exponent,
        // and `b` reaches `hidden` times two to the power of its own less one
        let a_power = pow2((if a_exponent > 0 { a_exponent - 1 } else { 0 }) as nat) as int;
        let b_power = pow2((b_exponent - 1) as nat) as int;
        lemma_pow2_pos((b_exponent - 1) as nat);
        lemma_mul_inequality(hidden, hidden + b_fraction, b_power);
        if a_exponent == 0 {
            lemma_mul_inequality(1, b_power, hidden);
            assert(hidden * b_power == b_power * hidden) by (nonlinear_arith);
        } else {
            lemma_pow2_pos((a_exponent - 1) as nat);
            lemma_mul_strict_inequality(hidden + a_fraction, 2 * hidden, a_power);
            vstd::arithmetic::power2::lemma_pow2_unfold(a_exponent as nat);
            assert(2 * hidden * a_power == hidden * pow2(a_exponent as nat)) by (nonlinear_arith)
                requires
                    pow2(a_exponent as nat) == 2 * a_power,
            ;
            if a_exponent < b_exponent - 1 {
                lemma_pow2_strictly_increases(a_exponent as nat, (b_exponent - 1) as nat);
            }
            lemma_mul_inequality(pow2(a_exponent as nat) as int, b_power, hidden);
            assert(hidden * pow2(a_exponent as nat) == pow2(a_exponent as nat) * hidden)
                by (nonlinear_arith);
            assert(hidden * b_power == b_power * hidden) by (nonlinear_arith);
        }
    }
}

/// Among the patterns without a sign bit that encode a number or infinity,
/// the order of the patterns is the order of what they encode.
pub proof fn lemma_order_of_sizes(a: u64, b: u64)
    requires
        a <= INFINITY,
        b <= INFINITY,
    ensures
        a < b <==> less(decode(a), decode(b)),
        a == b <==> equal(decode(a), decode(b)),
        decode(a) !is Nan && decode(b) !is Nan,
{
    if a < b {
        if b < INFINITY {
            if a > 0 {
                lemma_magnitude_grows(a, b);
            } else if b > 1 {
                lemma_magnitude_grows(1, b);
            }
        }
    } else if b < a {
        if a < INFINITY {
            if b > 0 {
                lemma_magnitude_grows(b, a);
            } else if a > 1 {
                lemma_magnitude_grows(1, a);
            }
        }
    }
}

/// Taking one off the exponent field of a pattern halves the number, as
/// long as the exponent field stays above zero.
pub proof fn lemma_one_off_the_exponent_halves(bits: u64)
    requires
        0x0020_0000_0000_0000 <= bits < INFINITY,
    ensures
        decode(bits) is Finite && !decode(bits)->Finite_negative,
        decode((bits - 0x0010_0000_0000_0000) as u64) == (Number::Finite {
            negative: false,
            magnitude: (decode(bits)->Finite_magnitude / 2) as nat,
        }),
        decode(bits)->Finite_magnitude % 2 == 0,
{
    let half = (bits - 0x0010_0000_0000_0000) as u64;
    let exponent = exponent_of(bits);
    assert(exponent_of(half) == exponent - 1);
    assert(fraction_of(half) == fraction_of(bits));
    vstd::arithmetic::power2::lemma_pow2_unfold((exponent - 1) as nat);
    let leading = 0x10_0000_0000_0000 + fraction_of(bits);
    let lower = pow2((exponent - 2) as nat);
    assert(leading * (2 * lower) == 2 * (leading * lower)) by (nonlinear_arith);
}

/// Setting the sign bit of a pattern changes the sign of what it encodes
/// and nothing else.
pub proof fn lemma_sign_bit(rest: u64)
    requires
        rest < 0x8000_0000_0000_0000,
    ensures
        ({
            let with_sign = (rest + 0x8000_0000_0000_0000) as u64;
            match decode(rest) {
                Number::Nan => decode(with_sign) is Nan,
                Number::Infinite { .. } => decode(with_sign) == (Number::Infinite {
                    negative: true,
                }),
                Number::Finite { magnitude, .. } => decode(with_sign) == (Number::Finite {
                    negative: true,
                    magnitude,
                }),
            }
        }),
        !sign_of(rest),
{
    let with_sign = (rest + 0x8000_0000_0000_0000) as u64;
    assert(exponent_of(with_sign) == exponent_of(rest));
    assert(fraction_of(with_sign) == fraction_of(rest));
}

/// The pattern without its sign bit.
fn without_sign(bits: u64) -> (rest: u64)
    ensures
        rest < 0x8000_0000_0000_0000,
        rest == bits % 0x8000_0000_0000_0000,
        sign_of(bits) ==> rest + 0x8000_0000_0000_0000 == bits,
        !sign_of(bits) ==> rest == bits,
{
    assert(bits & 0x7FFF_FFFF_FFFF_FFFF == bits % 0x8000_0000_0000_0000) by (bit_vector);
    bits & 0x7FFF_FFFF_FFFF_FFFF
}

/// Tells whether `a` is below `b` as numbers.
pub fn is_below(a: u64, b: u64) -> (below: bool)
    ensures
        below == less(decode(a), decode(b)),
{
    let a_rest: u64 = without_sign(a);
    let b_rest: u64 = without_sign(b);
    proof {
        lemma_sign_bit(a_rest);
        lemma_sign_bit(b_rest);
        if a_rest <= INFINITY && b_rest <= INFINITY {
            lemma_order_of_sizes(a_rest, b_rest);
            lemma_order_of_sizes(b_rest, a_rest);
            lemma_order_of_sizes(0, a_rest);
            lemma_order_of_sizes(0, b_rest);
        }
    }
    if a_rest > INFINITY || b_rest > INFINITY {
        false
    } else if a >= 0x8000_0000_0000_0000 {
        if b >= 0x8000_0000_0000_0000 {
            b_rest < a_rest
        } else {
            a_rest != 0 || b_rest != 0
        }
    } else {
        if b >= 0x8000_0000_0000_0000 {
            false
        } else {
            a_rest < b_rest
        }
    }
}

/// Tells whether a pattern encodes a number below zero.
pub fn is_below_zero(bits: u64) -> (below: bool)
    ensures
        below == less(decode(bits), decode(ZERO)),
{
    is_below(bits, ZERO)
}

/// Tells whether a pattern encodes a number above zero.
pub fn is_above_zero(bits: u64) -> (above: bool)
    ensures
        above == less(decode(ZERO), decode(bits)),
{
    is_below(ZERO, bits)
}

/// Tells whether a pattern encodes zero, of either sign.
pub fn is_zero(bits: u64) -> (zero: bool)
    ensures
        zero == equal(decode(bits), decode(ZERO)),
{
    let rest: u64 = without_sign(bits);
    proof {
        lemma_sign_bit(rest);
        if rest <= INFINITY {
            lemma_order_of_sizes(0, rest);
        }
    }
    rest == 0
}

/// The range test on patterns is the range test on numbers: for a bound
/// that encodes a positive number or positive infinity, a parameter is in
/// reach exactly if it encodes a number above zero and below the bound.
pub proof fn lemma_in_reach_is_between(param: u64, bound: u64)
    requires
        0 < bound <= INFINITY,
    ensures
        in_reach(param, bound) <==> less(decode(ZERO), decode(param)) && less(
            decode(param),
            decode(bound),
        ),
{
    if param <= INFINITY {
        lemma_order_of_sizes(ZERO, param);
        lemma_order_of_sizes(param, bound);
    } else if param >= 0x8000_0000_0000_0000 {
        let rest = (param - 0x8000_0000_0000_0000) as u64;
        lemma_sign_bit(rest);
        if rest <= INFINITY {
            lemma_order_of_sizes(ZERO, rest);
        }
    }
}

} // verus!
