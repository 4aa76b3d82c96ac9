//! What the numbers that settings hold stand for, and how they are ordered.
use crate::amp::{is_nearest, is_single, scale_refusal, GradScalerConfig};
use crate::float::{is_fraction, Binary64, ONE, SIGN};
use crate::product::{units, units_are_increasing, FRACTIONS};
use vstd::arithmetic::power2::{lemma2_to64, lemma2_to64_rest, lemma_pow2_adds, lemma_pow2_pos, pow2};
use vstd::prelude::*;

verus! {

/// The value of a number, counted in units of 2^-1074.
pub open spec fn value_of(number: Binary64) -> int {
    if number.bits >= 0x8000_0000_0000_0000 {
        -units(number.bits - 0x8000_0000_0000_0000)
    } else {
        units(number.bits as int)
    }
}

/// One, counted in units of 2^-1074.
pub open spec fn one() -> int {
    pow2(1074) as int
}

/// A number is finite exactly if its eleven exponent bits are not all set, and is no number at all
/// exactly if they are all set and a bit of its fraction is set too.
pub proof fn exponents_tell_finite_numbers(number: Binary64)
    ensures
        number.finite() <==> (number.bits / 0x10_0000_0000_0000) % 2048 != 2047,
        number.defined() <==> ((number.bits / 0x10_0000_0000_0000) % 2048 != 2047 || number.bits % 0x10_0000_0000_0000 == 0),
{
    let bits = number.bits as int;
    let size: int = 0x10_0000_0000_0000;
    let high = bits / size;
    let low = bits % size;
    assert(bits == high * size + low);
    assert(0 <= low < size);
    assert(0 <= high < 4096);
    if bits >= SIGN {
        assert(high >= 2048);
        assert(high % 2048 == high - 2048);
    } else {
        assert(high < 2048);
        assert(high % 2048 == high);
    }
}

/// Finite numbers are ordered by their values: both zeros count as zero, and a set sign bit makes a
/// value negative.
pub proof fn numbers_are_ordered_by_value(a: Binary64, b: Binary64)
    requires
        a.finite(),
        b.finite(),
    ensures
        a.less(b) <==> value_of(a) < value_of(b),
        a.at_most(b) <==> value_of(a) <= value_of(b),
        a.place() > 0 <==> value_of(a) > 0,
        a.place() < 0 <==> value_of(a) < 0,
        a.place() == 0 <==> value_of(a) == 0,
{
    units_of_zero();
    let x = a.magnitude();
    let y = b.magnitude();
    units_are_increasing(0, x);
    units_are_increasing(0, y);
    if x <= y {
        units_are_increasing(x, y);
    } else {
        units_are_increasing(y, x);
    }
}

/// A number that is not defined is neither less than, nor at most, nor above any other.
pub proof fn undefined_numbers_are_not_ordered(a: Binary64, b: Binary64)
    requires
        (a.bits / 0x10_0000_0000_0000) % 2048 == 2047 && a.bits % 0x10_0000_0000_0000 != 0,
    ensures
        !a.less(b) && !b.less(a) && !a.at_most(b) && !b.at_most(a),
{
    exponents_tell_finite_numbers(a);
}

/// Every finite number lies strictly between the two infinities.
pub proof fn finite_numbers_are_below_infinity(number: Binary64)
    ensures
        number.finite() <==> (Binary64 { bits: 0xfff0_0000_0000_0000 }).less(number) && number.less(
            Binary64 { bits: 0x7ff0_0000_0000_0000 },
        ),
{
}

proof fn units_of_zero()
    ensures
        units(0) == 0,
{
}

pub(crate) proof fn units_of_one()
    ensures
        units(ONE as int) == one(),
{
    lemma2_to64_rest();
    lemma_pow2_adds(52, 1022);
    assert(ONE as int / FRACTIONS as int == 1023 && ONE as int % FRACTIONS as int == 0);
}

/// How a number stands to one is how its value stands to one.
pub proof fn one_separates_numbers(number: Binary64)
    requires
        number.finite(),
    ensures
        number.place() < ONE <==> value_of(number) < one(),
        number.place() <= ONE <==> value_of(number) <= one(),
{
    units_of_one();
    numbers_are_ordered_by_value(number, Binary64 { bits: ONE });
}

/// A fraction is a finite number from zero to one.
pub proof fn fractions_lie_between_zero_and_one(number: Binary64)
    ensures
        is_fraction(number) <==> number.finite() && 0 <= value_of(number) <= one(),
{
    if number.finite() {
        one_separates_numbers(number);
        numbers_are_ordered_by_value(number, number);
    }
}

/// A loss scale is accepted exactly if it is a normal single-precision magnitude: at least 2^-126 and
/// at most (2^24 - 1) * 2^104.
pub proof fn scales_are_single_magnitudes(scale: Binary64)
    ensures
        scale_refusal(scale) is None <==> scale.finite() && pow2(948) <= value_of(scale) <= 0xff_ffff * pow2(1178),
{
    let least: int = 0x3810_0000_0000_0000;
    let most: int = 0x47ef_ffff_e000_0000;
    assert(units(least) == pow2(948)) by {
        lemma2_to64_rest();
        lemma_pow2_adds(52, 896);
        assert(least / FRACTIONS as int == 897 && least % FRACTIONS as int == 0);
    }
    assert(units(most) == 0xff_ffff * pow2(1178)) by {
        lemma2_to64();
        lemma_pow2_adds(29, 1149);
        assert(most / FRACTIONS as int == 1150 && most % FRACTIONS as int == 0xf_ffff_e000_0000);
        let p = pow2(1149) as int;
        assert(0x1f_ffff_e000_0000 * p == 0xff_ffff * (0x2000_0000 * p)) by (nonlinear_arith);
    }
    lemma_pow2_pos(948);
    if scale.bits >= SIGN {
        units_of_zero();
        units_are_increasing(0, scale.bits - SIGN);
    } else {
        let bits = scale.bits as int;
        if bits >= least {
            units_are_increasing(least, bits);
        } else {
            units_are_increasing(bits, least);
        }
        if bits <= most {
            units_are_increasing(bits, most);
        } else {
            units_are_increasing(most, bits);
        }
    }
}

/// A value is a significand of twenty-four bits times a power of two.
pub open spec fn is_written(value: int, digits: int, exponent: nat) -> bool {
    0x80_0000 <= digits < 0x100_0000 && value == digits * pow2(exponent)
}

/// A scale that is held has twenty-four significant bits.
pub proof fn held_scales_have_single_precision(scale: Binary64)
    requires
        is_single(scale),
    ensures
        exists|digits: int, exponent: nat| #[trigger] is_written(value_of(scale), digits, exponent),
{
    held_scale_is_written(scale);
}

proof fn held_scale_is_written(scale: Binary64)
    requires
        is_single(scale),
    ensures
        scale.bits as int / FRACTIONS as int >= 897,
        (scale.bits as int % FRACTIONS as int) % 0x2000_0000 == 0,
        is_written(
            value_of(scale),
            0x80_0000 + (scale.bits as int % FRACTIONS as int) / 0x2000_0000,
            (scale.bits as int / FRACTIONS as int + 28) as nat,
        ),
{
    let bits = scale.bits as int;
    let size = FRACTIONS as int;
    let spacing: int = 0x2000_0000;
    let high = bits / size;
    let low = bits % size;
    assert(bits == high * size + low);
    assert(high >= 897);
    assert(bits % spacing == 0);
    let digits = 0x80_0000 + low / spacing;
    assert(low % spacing == 0) by {
        assert(size == spacing * 0x80_0000);
        assert(bits == spacing * (high * 0x80_0000) + low);
    }
    assert(size + low == digits * spacing);
    lemma2_to64();
    lemma_pow2_adds(29, (high - 1) as nat);
    let p = pow2((high - 1) as nat) as int;
    assert((digits * spacing) * p == digits * (spacing * p)) by (nonlinear_arith);
    assert(is_written(value_of(scale), digits, (high + 28) as nat));
}

/// Where two numbers of single precision are equally near, the one whose last bit is zero is taken, and
/// otherwise one within half a step: in bits, no other number of single precision is nearer.
pub proof fn nearest_singles_are_even_on_ties(value: Binary64, r: Binary64, other: Binary64)
    requires
        is_nearest(value, r),
        is_single(r),
        other.bits % 0x2000_0000 == 0,
        other != r,
    ensures
        ({
            let near = if r.bits >= value.bits {
                r.bits - value.bits
            } else {
                value.bits - r.bits
            };
            let far = if other.bits >= value.bits {
                other.bits - value.bits
            } else {
                value.bits - other.bits
            };
            &&& near <= far
            &&& near == far ==> exists|digits: int, exponent: nat| #[trigger] is_written(value_of(r), digits, exponent) && digits % 2 == 0
        }),
{
    let spacing: int = 0x2000_0000;
    let x = r.bits as int / spacing;
    let y = other.bits as int / spacing;
    assert(r.bits == x * spacing && other.bits == y * spacing);
    held_scale_is_written(r);
    let high = r.bits as int / FRACTIONS as int;
    let low = r.bits as int % FRACTIONS as int;
    let digits = 0x80_0000 + low / spacing;
    assert(r.bits == high * FRACTIONS + low);
    assert(FRACTIONS == spacing * 0x80_0000);
    assert(low % spacing == 0);
    assert(x == high * 0x80_0000 + low / spacing);
    assert(x % 2 == digits % 2);
    assert(is_written(value_of(r), digits, (high + 28) as nat));
}

/// Settings of gradient scaling are accepted exactly if the initial scale is a normal single-precision
/// magnitude, the growth factor is above one, the backoff factor lies strictly between zero and one,
/// and the growth interval is not zero.
pub proof fn scaling_settings_are_bounded(config: GradScalerConfig)
    ensures
        config.refusal() is None <==> {
            &&& config.initial_scale.finite()
            &&& pow2(948) <= value_of(config.initial_scale) <= 0xff_ffff * pow2(1178)
            &&& config.growth_factor.finite()
            &&& value_of(config.growth_factor) > one()
            &&& config.backoff_factor.finite()
            &&& 0 < value_of(config.backoff_factor) < one()
            &&& config.growth_interval > 0
        },
{
    scales_are_single_magnitudes(config.initial_scale);
    if config.growth_factor.finite() {
        one_separates_numbers(config.growth_factor);
    }
    if config.backoff_factor.finite() {
        one_separates_numbers(config.backoff_factor);
        numbers_are_ordered_by_value(config.backoff_factor, config.backoff_factor);
    }
}

} // verus!
