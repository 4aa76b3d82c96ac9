//! Integers as little-endian bytes.
use vstd::prelude::*;

verus! {

/// The lowest `n` bytes of a number, the lowest first.
pub open spec fn little_endian(value: int, n: nat) -> Seq<u8>
    decreases n,
{
    if n == 0 {
        Seq::empty()
    } else {
        seq![(value % 256) as u8] + little_endian(value / 256, (n - 1) as nat)
    }
}

/// The number that bytes stand for, the lowest first.
pub open spec fn number(bytes: Seq<u8>) -> int
    decreases bytes.len(),
{
    if bytes.len() == 0 {
        0
    } else {
        bytes[0] + 256 * number(bytes.skip(1))
    }
}

/// 256 to the power `n`.
pub open spec fn range_of(n: nat) -> int
    decreases n,
{
    if n == 0 {
        1
    } else {
        256 * range_of((n - 1) as nat)
    }
}

/// The bytes of a number number as many as were asked for.
pub proof fn little_endian_length(value: int, n: nat)
    ensures
        little_endian(value, n).len() == n,
    decreases n,
{
    if n > 0 {
        little_endian_length(value / 256, (n - 1) as nat);
    }
}

/// The bytes of a number that fits stand for that number.
pub proof fn number_of_little_endian(value: int, n: nat)
    requires
        0 <= value < range_of(n),
    ensures
        number(little_endian(value, n)) == value,
    decreases n,
{
    if n > 0 {
        let rest = little_endian(value / 256, (n - 1) as nat);
        assert(0 <= value / 256 < range_of((n - 1) as nat));
        number_of_little_endian(value / 256, (n - 1) as nat);
        assert(little_endian(value, n).skip(1) =~= rest);
        assert(little_endian(value, n)[0] == (value % 256) as u8);
    }
}

/// Bytes stand for a number that fits.
pub proof fn number_is_bounded(bytes: Seq<u8>)
    ensures
        0 <= number(bytes) < range_of(bytes.len()),
    decreases bytes.len(),
{
    if bytes.len() > 0 {
        number_is_bounded(bytes.skip(1));
    }
}

/// Appends the lowest `n` bytes of a number.
pub fn push_number(out: &mut Vec<u8>, value: u64, n: usize)
    ensures
        final(out)@ == old(out)@ + little_endian(value as int, n as nat),
{
    let ghost start = out@;
    let ghost all = little_endian(value as int, n as nat);
    let mut rest: u64 = value;
    let mut left: usize = n;
    assert(out@ + little_endian(rest as int, left as nat) =~= start + all);
    while left > 0
        invariant
            out@ + little_endian(rest as int, left as nat) == start + all,
        decreases left,
    {
        let low: u8 = (rest % 256) as u8;
        let ghost before = out@;
        out.push(low);
        proof {
            let tail = little_endian(rest as int / 256, (left - 1) as nat);
            assert(out@ + tail =~= before + little_endian(rest as int, left as nat));
        }
        rest = rest / 256;
        left -= 1;
    }
    assert(out@ =~= start + all);
}

/// Reads the number that the `n` bytes from `at` on stand for.
pub fn read_number(bytes: &[u8], at: usize, n: usize) -> (r: u64)
    requires
        n <= 8,
        at + n <= bytes@.len(),
    ensures
        r == number(bytes@.subrange(at as int, at + n)),
{
    let ghost part = bytes@.subrange(at as int, at + n);
    let mut value: u64 = 0;
    let mut k: usize = n;
    assert(part.skip(n as int) =~= Seq::empty());
    proof {
        ranges();
    }
    while k > 0
        invariant
            n <= 8,
            k <= n,
            at + n <= bytes@.len(),
            part == bytes@.subrange(at as int, at + n),
            value == number(part.skip(k as int)),
            value < range_of((n - k) as nat),
        decreases k,
    {
        proof {
            ranges();
            number_is_bounded(part.skip(k as int));
            assert(part.skip(k - 1).skip(1) =~= part.skip(k as int));
            assert(part.skip(k - 1)[0] == bytes@[at + k - 1]);
            range_grows((n - k) as nat, 7);
            number_is_bounded(part.skip(k - 1));
        }
        k -= 1;
        assert(bytes.len() == bytes@.len());
        value = value * 256 + bytes[at + k] as u64;
    }
    assert(part.skip(0) =~= part);
    value
}

proof fn ranges()
    ensures
        range_of(0) == 1,
        range_of(7) == 0x100_0000_0000_0000,
        range_of(8) == 0x1_0000_0000_0000_0000,
{
    reveal_with_fuel(range_of, 9);
}

proof fn range_grows(a: nat, b: nat)
    requires
        a <= b,
    ensures
        1 <= range_of(a) <= range_of(b),
    decreases b,
{
    if a < b {
        range_grows(a, (b - 1) as nat);
    } else if a > 0 {
        range_grows((a - 1) as nat, (a - 1) as nat);
    }
}

/// A signed number as the unsigned number with the same bits.
pub open spec fn unsigned_of(value: i64) -> int {
    if value < 0 {
        value + 0x1_0000_0000_0000_0000
    } else {
        value as int
    }
}

/// An unsigned number as the signed number with the same bits.
pub open spec fn signed_of(value: int) -> i64 {
    if value >= 0x8000_0000_0000_0000 {
        (value - 0x1_0000_0000_0000_0000) as i64
    } else {
        value as i64
    }
}

/// Reading the bits of a signed number gives the number back.
pub proof fn signed_of_unsigned(value: i64)
    ensures
        signed_of(unsigned_of(value)) == value,
        0 <= unsigned_of(value) < 0x1_0000_0000_0000_0000,
{
}

/// The unsigned number with the bits of a signed one.
pub fn to_unsigned(value: i64) -> (r: u64)
    ensures
        r == unsigned_of(value),
{
    if value < 0 {
        u64::MAX - ((-1 - value) as u64)
    } else {
        value as u64
    }
}

/// The signed number with the bits of an unsigned one.
pub fn to_signed(value: u64) -> (r: i64)
    ensures
        r == signed_of(value as int),
{
    if value >= 0x8000_0000_0000_0000 {
        -1 - ((u64::MAX - value) as i64)
    } else {
        value as i64
    }
}

/// What is written as eight bytes is read back.
pub proof fn signed_survives(value: i64)
    ensures
        signed_of(number(little_endian(unsigned_of(value), 8))) == value,
{
    ranges();
    signed_of_unsigned(value);
    number_of_little_endian(unsigned_of(value), 8);
}

} // verus!
