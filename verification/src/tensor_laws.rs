//! What shapes, element types and numbers in bytes stand for.
use crate::bytes::{little_endian, number, range_of, signed_of, unsigned_of};
use crate::kind::Kind;
use crate::tensor::{common_size, counted, device_refusal, is_broadcast, size_from_end};
use vstd::arithmetic::div_mod::lemma_div_denominator;
use vstd::prelude::*;

verus! {

/// How many bytes an element of each type takes: as many as the bits in its name, and a complex number
/// twice what its parts take.
pub proof fn element_types_have_their_widths()
    ensures
        8 * Kind::Uint8.width() == 8 && 8 * Kind::Int8.width() == 8 && 8 * Kind::QInt8.width() == 8 && 8 * Kind::QUInt8.width() == 8,
        8 * Kind::Int16.width() == 16 && 8 * Kind::Int.width() == 32 && 8 * Kind::Int64.width() == 64 && 8 * Kind::QInt32.width() == 32,
        8 * Kind::Half.width() == 16 && 8 * Kind::BFloat16.width() == 16,
        8 * Kind::Float.width() == 32 && 8 * Kind::Double.width() == 64,
        8 * Kind::Float8e5m2.width() == 8 && 8 * Kind::Float8e4m3fn.width() == 8,
        8 * Kind::Float8e5m2fnuz.width() == 8 && 8 * Kind::Float8e4m3fnuz.width() == 8,
        Kind::ComplexHalf.width() == 2 * Kind::Half.width(),
        Kind::ComplexFloat.width() == 2 * Kind::Float.width(),
        Kind::ComplexDouble.width() == 2 * Kind::Double.width(),
        Kind::Bool.width() == 1,
{
}

/// Parameters hold real numbers in one of four element types.
pub proof fn parameters_are_floating(kind: Kind)
    ensures
        kind.real_valued() <==> kind == Kind::Half || kind == Kind::BFloat16 || kind == Kind::Float || kind == Kind::Double,
{
}

/// The number of places in a box with sides `shape`.
pub open spec fn volume(shape: Seq<i64>) -> int
    decreases shape.len(),
{
    if shape.len() == 0 {
        1
    } else {
        shape[0] * volume(shape.skip(1))
    }
}

proof fn volume_grows(shape: Seq<i64>, n: int)
    requires
        0 <= n < shape.len(),
    ensures
        volume(shape.take(n + 1)) == volume(shape.take(n)) * shape[n],
    decreases n,
{
    let longer = shape.take(n + 1);
    let shorter = shape.take(n);
    if n == 0 {
        assert(longer.skip(1) =~= Seq::<i64>::empty());
        assert(shorter =~= Seq::<i64>::empty());
        assert(volume(Seq::<i64>::empty()) == 1);
        assert(longer[0] == shape[0]);
    } else {
        assert(longer.skip(1) =~= shape.skip(1).take(n));
        assert(shorter.skip(1) =~= shape.skip(1).take(n - 1));
        volume_grows(shape.skip(1), n - 1);
        let rest = volume(shape.skip(1).take(n - 1));
        let first = shape[0] as int;
        let last = shape[n] as int;
        assert(volume(longer) == first * (rest * last));
        assert(volume(shorter) == first * rest);
        assert(first * (rest * last) == (first * rest) * last) by (nonlinear_arith);
    }
}

proof fn counted_is_volume(shape: Seq<i64>, n: int)
    requires
        0 <= n <= shape.len(),
    ensures
        counted(shape, n) matches Some(count) ==> count == volume(shape.take(n)) && 0 <= count <= usize::MAX,
        counted(shape, n) is Some <==> forall|i: int|
            0 <= i < n ==> (#[trigger] shape[i]) >= 0 && shape[i] <= usize::MAX && volume(shape.take(i + 1)) <= usize::MAX,
    decreases n,
{
    if n == 0 {
        assert(shape.take(0) =~= Seq::<i64>::empty());
    } else {
        counted_is_volume(shape, n - 1);
        volume_grows(shape, n - 1);
        if counted(shape, n) is Some {
            let count = counted(shape, n - 1)->0;
            let side = shape[n - 1] as int;
            assert(count * side >= 0) by (nonlinear_arith)
                requires
                    count >= 0,
                    side >= 0,
            ;
        } else if counted(shape, n - 1) is Some {
            assert(!(shape[n - 1] >= 0 && shape[n - 1] <= usize::MAX && volume(shape.take(n - 1 + 1)) <= usize::MAX));
        } else {
            let i = choose|i: int|
                0 <= i < n - 1 && !((#[trigger] shape[i]) >= 0 && shape[i] <= usize::MAX && volume(shape.take(i + 1)) <= usize::MAX);
            assert(!(shape[i] >= 0 && shape[i] <= usize::MAX && volume(shape.take(i + 1)) <= usize::MAX));
        }
    }
}

/// The elements of a shape are counted as the product of its sides. They can be counted exactly if no
/// side is negative and no product of leading sides passes the limit of the machine.
pub proof fn elements_are_the_product_of_the_sides(shape: Seq<i64>)
    ensures
        counted(shape, shape.len() as int) matches Some(count) ==> count == volume(shape) && 0 <= count <= usize::MAX,
        counted(shape, shape.len() as int) is Some <==> forall|i: int|
            0 <= i < shape.len() ==> (#[trigger] shape[i]) >= 0 && shape[i] <= usize::MAX && volume(shape.take(i + 1)) <= usize::MAX,
{
    counted_is_volume(shape, shape.len() as int);
    assert(shape.take(shape.len() as int) =~= shape);
}

/// Two sizes meet where one of them is one or they are equal, and the common size is then the other
/// one; a size that is missing meets every size.
pub proof fn sizes_meet_at_one(x: i64, y: i64)
    ensures
        common_size(Some(x), Some(y)) is Some <==> x == y || x == 1 || y == 1,
        common_size(Some(1i64), Some(y)) == Some(y),
        common_size(Some(x), Some(1i64)) == Some(x),
        common_size(Some(x), Some(x)) == Some(x),
        common_size(None, Some(y)) == Some(y),
        common_size(Some(x), None) == Some(x),
{
}

/// The shape of a broadcast is as long as the longer of its two operands. Counted from the last side,
/// each of its sides is that of both operands, or of the one whose partner is one or missing.
pub proof fn broadcast_takes_the_larger_side(a: Seq<i64>, b: Seq<i64>, r: Seq<i64>, i: int)
    requires
        is_broadcast(a, b, r),
        1 <= i <= r.len(),
    ensures
        r.len() >= a.len() && r.len() >= b.len() && (r.len() == a.len() || r.len() == b.len()),
        i <= a.len() && i > b.len() ==> r[r.len() - i] == a[a.len() - i],
        i > a.len() && i <= b.len() ==> r[r.len() - i] == b[b.len() - i],
        i <= a.len() && i <= b.len() ==> {
            let x = a[a.len() - i];
            let y = b[b.len() - i];
            let z = r[r.len() - i];
            (x == y && z == x) || (x == 1 && z == y) || (y == 1 && z == x)
        },
{
    let j = i - 1;
    assert(common_size(size_from_end(a, j), size_from_end(b, j)) == size_from_end(r, j));
}

/// Two shapes can be broadcast exactly if, counted from the last side, each pair of their sides is
/// equal or holds a one.
pub proof fn broadcasts_exist_for_matching_sides(a: Seq<i64>, b: Seq<i64>)
    ensures
        (exists|r: Seq<i64>| is_broadcast(a, b, r)) <==> forall|i: int|
            0 <= i < a.len() && i < b.len() ==> #[trigger] common_size(size_from_end(a, i), size_from_end(b, i)) is Some,
{
    if exists|r: Seq<i64>| is_broadcast(a, b, r) {
        let r = choose|r: Seq<i64>| is_broadcast(a, b, r);
        assert forall|i: int| 0 <= i < a.len() && i < b.len() implies #[trigger] common_size(
            size_from_end(a, i),
            size_from_end(b, i),
        ) is Some by {
            assert(size_from_end(r, i) is Some);
        }
    }
    if forall|i: int|
        0 <= i < a.len() && i < b.len() ==> #[trigger] common_size(size_from_end(a, i), size_from_end(b, i)) is Some {
        let n = if a.len() >= b.len() {
            a.len()
        } else {
            b.len()
        };
        let r = Seq::new(n, |k: int| common_size(size_from_end(a, n - 1 - k), size_from_end(b, n - 1 - k))->0);
        assert forall|i: int| 0 <= i < r.len() implies #[trigger] common_size(size_from_end(a, i), size_from_end(b, i))
            == size_from_end(r, i) by {
            assert(n - 1 - (n - 1 - i) == i);
            assert(common_size(size_from_end(a, i), size_from_end(b, i)) is Some);
        }
        assert(is_broadcast(a, b, r));
    }
}

/// A tensor is refused for its device exactly if it lies on another one.
pub proof fn devices_must_agree(context: Seq<char>, actual: crate::kind::Device, expected: crate::kind::Device)
    ensures
        device_refusal(context, actual, expected) is None <==> actual == expected,
{
}

/// Byte `i` of a number in `n` bytes holds the digit of 256^i: the first byte is the least.
pub proof fn bytes_are_least_first(value: int, n: nat, i: int)
    requires
        0 <= i < n,
        value >= 0,
    ensures
        little_endian(value, n).len() == n,
        little_endian(value, n)[i] == (value / range_of(i as nat)) % 256,
    decreases n,
{
    let rest = little_endian(value / 256, (n - 1) as nat);
    crate::bytes::little_endian_length(value / 256, (n - 1) as nat);
    if i == 0 {
        assert(value / 1 == value);
    } else {
        bytes_are_least_first(value / 256, (n - 1) as nat, i - 1);
        let range = range_of((i - 1) as nat);
        range_is_positive((i - 1) as nat);
        assert(range_of(i as nat) == 256 * range);
        lemma_div_denominator(value, 256, range);
    }
}

proof fn range_is_positive(n: nat)
    ensures
        range_of(n) > 0,
    decreases n,
{
    if n > 0 {
        range_is_positive((n - 1) as nat);
    }
}

/// The number that bytes hold counts each of them by its place: what stands behind `a` counts
/// 256^a.len() times.
pub proof fn later_bytes_count_more(a: Seq<u8>, b: Seq<u8>, x: u8)
    ensures
        number(seq![x]) == x,
        number(a + b) == number(a) + range_of(a.len()) * number(b),
    decreases a.len(),
{
    assert(seq![x].skip(1) =~= Seq::<u8>::empty());
    assert(number(Seq::<u8>::empty()) == 0);
    assert(number(seq![x]) == x + 256 * number(seq![x].skip(1)));
    if a.len() == 0 {
        assert(a + b =~= b);
    } else {
        later_bytes_count_more(a.skip(1), b, x);
        assert((a + b).skip(1) =~= a.skip(1) + b);
        let range = range_of((a.len() - 1) as nat);
        assert(256 * (range * number(b)) == (256 * range) * number(b)) by (nonlinear_arith);
    }
}

/// 256^n, by its first values and how it grows.
pub proof fn ranges_grow_by_a_byte(n: nat)
    ensures
        range_of(0) == 1,
        range_of(1) == 256,
        range_of(n + 1) == 256 * range_of(n),
{
    assert(range_of(1) == 256 * range_of(0));
}

/// A signed number and the unsigned one with its bits differ by 2^64 exactly if it is negative.
pub proof fn signs_take_the_upper_half(value: i64, bits: u64)
    ensures
        value >= 0 ==> unsigned_of(value) == value,
        value < 0 ==> unsigned_of(value) - value == 0x1_0000_0000_0000_0000,
        bits < 0x8000_0000_0000_0000 ==> signed_of(bits as int) == bits,
        bits >= 0x8000_0000_0000_0000 ==> bits - signed_of(bits as int) == 0x1_0000_0000_0000_0000,
{
}

} // verus!
