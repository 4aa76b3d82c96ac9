//! Products of double-precision numbers, by their bits.
use crate::float::{Binary64, INFINITE, ONE};
use vstd::arithmetic::div_mod::{lemma_basic_div, lemma_div_denominator, lemma_fundamental_div_mod};
use vstd::arithmetic::power2::{
    lemma2_to64, lemma2_to64_rest, lemma_pow2_adds, lemma_pow2_pos, lemma_pow2_strictly_increases, lemma_pow2_unfold, pow2,
};
use vstd::prelude::*;

verus! {

/// The number of fractions between two powers of two.
pub const FRACTIONS: u64 = 0x10_0000_0000_0000;

/// A number that is not negative, counted in the smallest positive one. Infinity counts as the
/// power of two that follows the largest number.
pub open spec fn units(bits: int) -> int {
    let exponent = bits / FRACTIONS as int;
    let fraction = bits % FRACTIONS as int;
    if exponent == 0 {
        fraction
    } else {
        (FRACTIONS + fraction) * pow2((exponent - 1) as nat)
    }
}

/// `r` is the product of two numbers that are not negative, rounded to the nearest number: of
/// two that are equally near, to the even one.
pub open spec fn is_product(a: Binary64, b: Binary64, r: Binary64) -> bool {
    let twice = 2 * (units(a.bits as int) * units(b.bits as int));
    let below = (units(r.bits - 1) + units(r.bits as int)) * units(ONE as int);
    let above = (units(r.bits as int) + units(r.bits + 1)) * units(ONE as int);
    &&& r.bits <= INFINITE
    &&& r.bits > 0 ==> below < twice || (below == twice && r.bits % 2 == 0)
    &&& r.bits < INFINITE ==> twice < above || (twice == above && r.bits % 2 == 0)
}

proof fn next_unit(bits: int)
    requires
        0 <= bits,
    ensures
        0 <= units(bits) < units(bits + 1),
{
    let size = FRACTIONS as int;
    let exponent = bits / size;
    let fraction = bits % size;
    assert(bits == exponent * size + fraction);
    if fraction + 1 < size {
        assert((bits + 1) / size == exponent && (bits + 1) % size == fraction + 1);
    } else {
        assert((bits + 1) / size == exponent + 1 && (bits + 1) % size == 0);
    }
    if exponent == 0 {
        lemma2_to64();
    } else {
        let p = pow2((exponent - 1) as nat) as int;
        lemma_pow2_pos((exponent - 1) as nat);
        lemma_pow2_unfold(exponent as nat);
        assert((size + fraction) * p >= 0 && (size + fraction) * p < (size + fraction + 1) * p) by (nonlinear_arith)
            requires
                p > 0,
                size + fraction >= 0,
        ;
        if fraction + 1 == size {
            assert((size + fraction + 1) * p == size * (2 * p)) by (nonlinear_arith)
                requires
                    size + fraction + 1 == 2 * size,
            ;
        }
    }
}

/// A larger number counts more.
pub proof fn units_are_increasing(a: int, b: int)
    requires
        0 <= a <= b,
    ensures
        0 <= units(a) <= units(b),
        a < b ==> units(a) < units(b),
    decreases b - a,
{
    next_unit(a);
    if a < b {
        units_are_increasing(a + 1, b);
    }
}

/// Two numbers have one product.
pub proof fn product_is_unique(a: Binary64, b: Binary64, r: Binary64, s: Binary64)
    requires
        is_product(a, b, r),
        is_product(a, b, s),
    ensures
        r == s,
{
    product_is_no_larger(a, b, r, s);
    product_is_no_larger(a, b, s, r);
}

proof fn product_is_no_larger(a: Binary64, b: Binary64, r: Binary64, s: Binary64)
    requires
        is_product(a, b, r),
        is_product(a, b, s),
    ensures
        s.bits <= r.bits,
{
    if r.bits < s.bits {
        let one = units(ONE as int);
        let low = units(r.bits as int) + units(r.bits + 1);
        let high = units(s.bits - 1) + units(s.bits as int);
        units_are_increasing(0, ONE as int);
        units_are_increasing(r.bits as int, s.bits - 1);
        units_are_increasing(r.bits + 1, s.bits as int);
        assert(low * one <= high * one) by (nonlinear_arith)
            requires
                low <= high,
                one > 0,
        ;
        if r.bits + 1 < s.bits {
            assert(low * one < high * one) by (nonlinear_arith)
                requires
                    low < high,
                    one > 0,
            ;
        }
    }
}

/// A product with a number that is not below one is not below the other number, and a product
/// with one that is not above it is not above the other.
pub proof fn product_moves_with_factor(a: Binary64, b: Binary64, r: Binary64)
    requires
        a.bits < INFINITE,
        is_product(a, b, r),
    ensures
        b.bits >= ONE ==> r.bits >= a.bits,
        b.bits <= ONE ==> r.bits <= a.bits,
{
    let one = units(ONE as int);
    let x = units(a.bits as int);
    let y = units(b.bits as int);
    units_are_increasing(0, ONE as int);
    units_are_increasing(0, a.bits as int);
    if b.bits >= ONE && r.bits < a.bits {
        units_are_increasing(ONE as int, b.bits as int);
        units_are_increasing(r.bits as int, a.bits as int);
        units_are_increasing(r.bits + 1, a.bits as int);
        let sum = units(r.bits as int) + units(r.bits + 1);
        assert(sum * one < 2 * (x * y)) by (nonlinear_arith)
            requires
                sum < 2 * x,
                0 < one <= y,
                0 <= x,
        ;
    }
    if b.bits <= ONE && r.bits > a.bits {
        units_are_increasing(0, b.bits as int);
        units_are_increasing(b.bits as int, ONE as int);
        units_are_increasing(a.bits as int, r.bits - 1);
        units_are_increasing(a.bits as int, r.bits as int);
        let sum = units(r.bits - 1) + units(r.bits as int);
        assert(2 * (x * y) < sum * one) by (nonlinear_arith)
            requires
                2 * x < sum,
                0 <= y <= one,
                0 < one,
                0 <= x,
        ;
    }
}

/// One counts as a power of two.
proof fn one_is_a_power()
    ensures
        units(ONE as int) == pow2(1074),
        pow2(52) == FRACTIONS,
{
    lemma2_to64_rest();
    lemma_pow2_adds(52, 1022);
    assert(ONE as int / FRACTIONS as int == 1023 && ONE as int % FRACTIONS as int == 0);
}

/// A number with a whole significand and a power of two.
proof fn scaled_units(q: int, t: nat)
    requires
        0 <= q < 2 * FRACTIONS,
        q >= FRACTIONS || t == 0,
    ensures
        units(t * FRACTIONS + q) == q * pow2(t),
        units(t * FRACTIONS + q + 1) == (q + 1) * pow2(t),
{
    let size = FRACTIONS as int;
    let bits = t * size + q;
    lemma2_to64();
    if q >= size {
        assert(bits / size == t + 1 && bits % size == q - size);
        if q + 1 < 2 * size {
            assert((bits + 1) / size == t + 1 && (bits + 1) % size == q + 1 - size);
        } else {
            assert((bits + 1) / size == t + 2 && (bits + 1) % size == 0);
            lemma_pow2_unfold(t + 1);
            let p = pow2(t) as int;
            assert(size * (2 * p) == (q + 1) * p) by (nonlinear_arith)
                requires
                    q + 1 == 2 * size,
            ;
        }
    } else {
        assert(bits / size == 0 && bits % size == q);
        if q + 1 < size {
            assert((bits + 1) / size == 0 && (bits + 1) % size == q + 1);
        } else {
            assert((bits + 1) / size == 1 && (bits + 1) % size == 0);
        }
    }
}

/// The significand of a number and the power of two that it is counted in.
fn parts(a: Binary64) -> (r: (u64, u64))
    requires
        a.bits < INFINITE,
    ensures
        units(a.bits as int) == r.0 * pow2(r.1 as nat),
        r.0 < 2 * FRACTIONS,
        r.1 < 2046,
        a.bits >= FRACTIONS ==> r.0 >= FRACTIONS,
{
    let exponent: u64 = a.bits / FRACTIONS;
    let fraction: u64 = a.bits % FRACTIONS;
    if exponent == 0 {
        proof {
            lemma2_to64();
        }
        (fraction, 0)
    } else {
        (FRACTIONS + fraction, exponent - 1)
    }
}

/// The exact product stands between two neighbours, and the nearer one is chosen.
proof fn nearer_is_product(a: Binary64, b: Binary64, m: int, k: nat, q: int, rest: int, s: nat, t: nat, r: Binary64)
    requires
        units(a.bits as int) * units(b.bits as int) == m * pow2(k),
        m == q * pow2(s) + rest,
        0 <= rest < pow2(s),
        0 <= q < 2 * FRACTIONS,
        q >= FRACTIONS || t == 0,
        k + s == 1074 + t,
        t < 2046,
        r.bits == t * FRACTIONS + q + (if 2 * rest > pow2(s) || (2 * rest == pow2(s) && q % 2 == 1) {
            1int
        } else {
            0
        }),
    ensures
        is_product(a, b, r),
{
    let low = t * FRACTIONS + q;
    let p = pow2(t) as int;
    let one = units(ONE as int);
    let width = pow2(s) as int;
    let c = pow2(k) as int;
    let twice = 2 * (units(a.bits as int) * units(b.bits as int));
    one_is_a_power();
    scaled_units(q, t);
    lemma_pow2_pos(t);
    lemma_pow2_pos(s);
    lemma_pow2_pos(k);
    lemma_pow2_pos(1074);
    lemma_pow2_adds(k, s);
    lemma_pow2_adds(1074, t);
    assert(p * one == width * c) by (nonlinear_arith)
        requires
            c * width == one * p,
    ;
    assert((q * p) * one == q * (width * c)) by (nonlinear_arith)
        requires
            p * one == width * c,
    ;
    assert(((q + 1) * p) * one == (q + 1) * (width * c)) by (nonlinear_arith)
        requires
            p * one == width * c,
    ;
    assert(twice == 2 * (q * (width * c)) + (2 * rest) * c) by (nonlinear_arith)
        requires
            twice == 2 * (m * c),
            m == q * width + rest,
    ;
    let middle = (units(low) + units(low + 1)) * one;
    assert(middle == 2 * (q * (width * c)) + width * c) by (nonlinear_arith)
        requires
            middle == (units(low) + units(low + 1)) * one,
            units(low) == q * p,
            units(low + 1) == (q + 1) * p,
            (q * p) * one == q * (width * c),
            ((q + 1) * p) * one == (q + 1) * (width * c),
    ;
    assert((2 * rest) * c < width * c <==> 2 * rest < width) by (nonlinear_arith)
        requires
            c > 0,
    ;
    assert((2 * rest) * c == width * c <==> 2 * rest == width) by (nonlinear_arith)
        requires
            c > 0,
    ;
    assert(low % 2 == q % 2);
    next_unit(low);
    if r.bits == low {
        if low > 0 {
            next_unit(low - 1);
            let below = (units(low - 1) + units(low)) * one;
            assert(below < twice) by (nonlinear_arith)
                requires
                    below == (units(low - 1) + units(low)) * one,
                    units(low - 1) < units(low),
                    one > 0,
                    units(low) == q * p,
                    (q * p) * one == q * (width * c),
                    twice == 2 * (q * (width * c)) + (2 * rest) * c,
                    rest >= 0,
                    c > 0,
            ;
        }
    } else {
        next_unit(low + 1);
        let above = (units(low + 1) + units(low + 2)) * one;
        assert(twice < above) by (nonlinear_arith)
            requires
                above == (units(low + 1) + units(low + 2)) * one,
                units(low + 1) < units(low + 2),
                one > 0,
                units(low + 1) == (q + 1) * p,
                ((q + 1) * p) * one == (q + 1) * (width * c),
                twice == 2 * (q * (width * c)) + (2 * rest) * c,
                rest < width,
                c > 0,
        ;
    }
}

/// A product that is too large becomes infinite.
proof fn large_is_infinite(a: Binary64, b: Binary64, m: int, k: nat, q: int, rest: int, s: nat, t: nat)
    requires
        units(a.bits as int) * units(b.bits as int) == m * pow2(k),
        m == q * pow2(s) + rest,
        0 <= rest < pow2(s),
        FRACTIONS <= q < 2 * FRACTIONS,
        k + s == 1074 + t,
        t >= 2046,
    ensures
        is_product(a, b, (Binary64 { bits: INFINITE })),
{
    let low = t * FRACTIONS + q;
    let p = pow2(t) as int;
    let one = units(ONE as int);
    let width = pow2(s) as int;
    let c = pow2(k) as int;
    let twice = 2 * (units(a.bits as int) * units(b.bits as int));
    one_is_a_power();
    scaled_units(q, t);
    lemma_pow2_pos(k);
    lemma_pow2_pos(1074);
    lemma_pow2_adds(k, s);
    lemma_pow2_adds(1074, t);
    assert(low >= INFINITE);
    units_are_increasing(INFINITE as int, low);
    next_unit(INFINITE - 1);
    let below = (units(INFINITE - 1) + units(INFINITE as int)) * one;
    assert((q * p) * one == (q * width) * c) by (nonlinear_arith)
        requires
            c * width == one * p,
    ;
    assert(below < twice) by (nonlinear_arith)
        requires
            below == (units(INFINITE - 1) + units(INFINITE as int)) * one,
            units(INFINITE - 1) < units(INFINITE as int),
            units(INFINITE as int) <= units(low),
            one > 0,
            units(low) == q * p,
            (q * p) * one == (q * width) * c,
            twice == 2 * (m * c),
            m == q * width + rest,
            rest >= 0,
            c > 0,
    ;
}

/// A product that is too small becomes zero.
proof fn small_is_zero(a: Binary64, b: Binary64, m: int, k: nat)
    requires
        units(a.bits as int) * units(b.bits as int) == m * pow2(k),
        0 <= m < pow2(106),
        k + 107 < 1074,
    ensures
        is_product(a, b, (Binary64 { bits: 0 })),
{
    let c = pow2(k) as int;
    let one = units(ONE as int);
    let rest = (1074 - 107 - k) as nat;
    one_is_a_power();
    lemma_pow2_pos(k);
    lemma_pow2_pos(rest);
    lemma_pow2_unfold(107);
    lemma_pow2_adds(107, k);
    lemma_pow2_adds(107 + k, rest);
    let h = pow2(106) as int;
    let w = pow2(rest) as int;
    assert(units(0) == 0 && units(1) == 1);
    assert(2 * (m * c) < one) by (nonlinear_arith)
        requires
            0 <= m < h,
            c > 0,
            w >= 1,
            one == ((2 * h) * c) * w,
    ;
    assert((units(0) + units(1)) * one == one);
}

/// The product of two positive numbers.
pub fn multiply(a: Binary64, b: Binary64) -> (r: Binary64)
    requires
        FRACTIONS <= a.bits < INFINITE,
        0 < b.bits < INFINITE,
    ensures
        is_product(a, b, r),
{
    let (x, ex) = parts(a);
    let (y, ey) = parts(b);
    proof {
        units_are_increasing(0, b.bits as int);
        lemma_pow2_pos(ey as nat);
        assert(y > 0) by {
            if y == 0 {
                assert(0 * pow2(ey as nat) == 0) by (nonlinear_arith);
            }
        }
        lemma_pow2_adds(53, 53);
        lemma_pow2_unfold(107);
        lemma2_to64_rest();
        assert(FRACTIONS <= x * y < pow2(106)) by (nonlinear_arith)
            requires
                FRACTIONS <= x < 2 * FRACTIONS,
                0 < y < 2 * FRACTIONS,
                pow2(106) == (2 * FRACTIONS) * (2 * FRACTIONS),
        ;
        assert(pow2(106) < 0x8000_0000_0000_0000_0000_0000_0000_0000) by (nonlinear_arith)
            requires
                pow2(106) == (2 * FRACTIONS) * (2 * FRACTIONS),
        ;
    }
    let m: u128 = x as u128 * y as u128;
    let k: u64 = ex + ey;
    let ghost c = pow2(k as nat);
    assert(units(a.bits as int) * units(b.bits as int) == m * pow2(k as nat)) by {
        lemma_pow2_adds(ex as nat, ey as nat);
        let p = pow2(ex as nat) as int;
        let o = pow2(ey as nat) as int;
        assert((x * p) * (y * o) == (x * y) * (p * o)) by (nonlinear_arith);
    }
    assert(pow2(0) == 1) by {
        lemma2_to64();
    }
    let mut s: u64 = 0;
    let mut width: u128 = 1;
    let mut q: u128 = m;
    while s < 107 && (q >= 2 * FRACTIONS as u128 || k + s < 1074)
        invariant
            k < 4092,
            s <= 107,
            width == pow2(s as nat),
            m < pow2(106),
            FRACTIONS <= m,
            pow2(107) < 0x8000_0000_0000_0000_0000_0000_0000_0000,
            q == m / width,
            q >= FRACTIONS || k + s <= 1074,
        decreases 107 - s,
    {
        proof {
            lemma_pow2_unfold((s + 1) as nat);
            lemma_pow2_strictly_increases(s as nat, 107);
            lemma_pow2_pos(s as nat);
            lemma_div_denominator(m as int, width as int, 2);
        }
        width = width * 2;
        s = s + 1;
        q = q / 2;
    }
    proof {
        lemma_pow2_pos(s as nat);
    }
    let rest: u128 = m % width;
    proof {
        lemma_fundamental_div_mod(m as int, width as int);
        assert(m == q * width + rest) by (nonlinear_arith)
            requires
                m == width * q + rest,
        ;
    }
    if k + s < 1074 {
        proof {
            small_is_zero(a, b, m as int, k as nat);
        }
        return Binary64 { bits: 0 };
    }
    let t: u64 = k + s - 1074;
    assert(q < 2 * FRACTIONS) by {
        if s == 107 {
            lemma_pow2_unfold(107);
            lemma_basic_div(m as int, width as int);
        }
    }
    if t >= 2046 {
        proof {
            large_is_infinite(a, b, m as int, k as nat, q as int, rest as int, s as nat, t as nat);
        }
        return Binary64 { bits: INFINITE };
    }
    assert(t * FRACTIONS <= 2045 * FRACTIONS) by (nonlinear_arith)
        requires
            t <= 2045,
    ;
    let low: u64 = t * FRACTIONS + q as u64;
    let up = rest > width / 2 || (rest * 2 == width && q % 2 == 1);
    let r = Binary64 { bits: if up {
        low + 1
    } else {
        low
    } };
    proof {
        nearer_is_product(a, b, m as int, k as nat, q as int, rest as int, s as nat, t as nat, r);
    }
    r
}

} // verus!
