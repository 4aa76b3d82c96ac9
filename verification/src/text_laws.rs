//! What numbers in decimal, ordered texts and lists of checks stand for.
use crate::error::{either, first_at, ErrorView};
use crate::text::{before, begins, decimal, digit, digits, ends, is_control, is_space, listed, order_of, shape_form};
use vstd::prelude::*;

verus! {

/// The number that a row of digits stands for.
pub open spec fn number_of(text: Seq<char>) -> int
    decreases text.len(),
{
    if text.len() == 0 {
        0
    } else {
        10 * number_of(text.drop_last()) + (text.last() as int - '0' as int)
    }
}

proof fn digits_stand_for_themselves(value: nat)
    requires
        value < 10,
    ensures
        digit(value) as int - '0' as int == value,
{
}

proof fn rows_stand_for_their_number(value: nat)
    ensures
        digits(value).len() > 0,
        number_of(digits(value)) == value,
        forall|i: int| 0 <= i < digits(value).len() ==> '0' <= #[trigger] digits(value)[i] <= '9',
        value > 0 ==> digits(value)[0] != '0',
    decreases value,
{
    if value < 10 {
        digits_stand_for_themselves(value);
        assert(seq![digit(value)].drop_last() =~= Seq::<char>::empty());
        assert(number_of(Seq::<char>::empty()) == 0);
    } else {
        rows_stand_for_their_number(value / 10);
        digits_stand_for_themselves(value % 10);
        let shorter = digits(value / 10);
        let row = shorter.push(digit(value % 10));
        assert(row.drop_last() =~= shorter);
        assert(row[0] == shorter[0]);
        assert forall|i: int| 0 <= i < row.len() implies '0' <= #[trigger] row[i] <= '9' by {
            if i < shorter.len() {
                assert(row[i] == shorter[i]);
            }
        }
    }
}

/// A number is written in decimal: its digits stand for it, none leads that counts nothing, and a negative
/// one has a minus before them.
pub proof fn numbers_are_written_in_decimal(value: int)
    ensures
        value >= 0 ==> number_of(decimal(value)) == value && forall|i: int|
            0 <= i < decimal(value).len() ==> '0' <= #[trigger] decimal(value)[i] <= '9',
        value > 0 ==> decimal(value)[0] != '0',
        decimal(0) == seq!['0'],
        value < 0 ==> decimal(value) == seq!['-'] + decimal(-value),
{
    if value >= 0 {
        rows_stand_for_their_number(value as nat);
    }
}

/// Texts are ordered by the first character in which they differ, and a text comes before every longer one
/// that it begins.
pub proof fn texts_are_ordered_by_their_first_difference(start: Seq<char>, a: Seq<char>, b: Seq<char>, x: char, y: char)
    requires
        x < y,
    ensures
        before(start + (seq![x] + a), start + (seq![y] + b)),
        !before(start + (seq![y] + b), start + (seq![x] + a)),
        before(start, start + (seq![x] + a)),
        !before(start, start),
    decreases start.len(),
{
    let low = start + (seq![x] + a);
    let high = start + (seq![y] + b);
    if start.len() == 0 {
        assert(low[0] == x && high[0] == y);
    } else {
        let rest = start.drop_first();
        texts_are_ordered_by_their_first_difference(rest, a, b, x, y);
        assert(low.drop_first() =~= rest + (seq![x] + a));
        assert(high.drop_first() =~= rest + (seq![y] + b));
        assert(low[0] == start[0] && high[0] == start[0]);
    }
}

/// Of two texts, one is the other, comes before it or after it.
pub proof fn orders_are_told(a: Seq<char>, b: Seq<char>)
    ensures
        order_of(a, b) is Same <==> a == b,
        order_of(a, b) is Before ==> before(a, b),
        order_of(a, b) is After ==> a != b && !before(a, b),
{
}

/// A text ends with another one exactly if it is something followed by that one.
pub proof fn texts_end_with_their_suffixes(text: Seq<char>, suffix: Seq<char>, start: Seq<char>)
    ensures
        ends(start + suffix, suffix),
        ends(text, suffix) ==> text == text.take(text.len() - suffix.len()) + suffix,
        begins(start + suffix, start),
{
    assert((start + suffix).skip(start.len() as int) =~= suffix);
    assert((start + suffix).take(start.len() as int) =~= start);
    if ends(text, suffix) {
        assert(text =~= text.take(text.len() - suffix.len()) + suffix);
    }
}

/// A shape is written as its sides between brackets, with a comma and a space between them.
pub proof fn shapes_are_written_in_brackets(shape: Seq<i64>, side: i64)
    ensures
        shape_form(Seq::empty()) == "["@ + "]"@,
        shape_form(seq![side]) == "["@ + decimal(side as int) + "]"@,
        shape.len() > 0 ==> shape_form(shape.push(side)) == "["@ + (listed(shape) + ", "@ + decimal(side as int)) + "]"@,
{
    assert("["@ + Seq::<char>::empty() =~= "["@);
    assert(shape.push(side).drop_last() =~= shape);
}

/// Control characters are those below the space, delete, and the next thirty-two.
pub proof fn control_characters_are_told_by_code(c: char)
    ensures
        is_control(c) <==> (c as int) < 32 || 127 <= (c as int) <= 159,
        is_space(c) && (c as int) < 128 ==> c as int == 32 || 9 <= (c as int) <= 13,
{
}

/// Of several checks, the first one that refuses decides.
pub proof fn the_first_refusal_counts(from: int, end: int, check: spec_fn(int) -> Option<ErrorView>, at: int)
    requires
        from <= at < end,
        check(at) is Some,
        forall|i: int| from <= i < at ==> (#[trigger] check(i)) is None,
    ensures
        first_at(from, end, check) == check(at),
    decreases at - from,
{
    if from < at {
        assert(check(from) is None);
        the_first_refusal_counts(from + 1, end, check, at);
    }
}

/// Of two checks, the first decides where it refuses, and the second where it does not.
pub proof fn either_check_may_refuse(a: Option<ErrorView>, b: Option<ErrorView>)
    ensures
        either(a, b) is None <==> a is None && b is None,
        a is Some ==> either(a, b) == a,
        a is None ==> either(a, b) == b,
{
}

} // verus!
