//! Text helpers: the order of names, decimal numerals and quoted debug forms.
use vstd::prelude::*;
use vstd::std_specs::iter::IteratorSpec;
use vstd::string::*;
use vstd::utf8::*;

verus! {

/// How one name stands to another in code point order.
#[derive(Debug, Clone, Copy, PartialEq, Eq, Structural)]
pub enum Order {
    Before,
    Same,
    After,
}

/// `a` comes strictly before `b`: they differ first at a smaller code point, or `a` is a
/// proper prefix of `b`.
pub open spec fn before(a: Seq<char>, b: Seq<char>) -> bool
    decreases a.len(),
{
    if b.len() == 0 {
        false
    } else if a.len() == 0 {
        true
    } else if a[0] != b[0] {
        a[0] < b[0]
    } else {
        before(a.drop_first(), b.drop_first())
    }
}

/// No name comes before itself.
pub proof fn before_irreflexive(a: Seq<char>)
    ensures
        !before(a, a),
    decreases a.len(),
{
    if a.len() > 0 {
        before_irreflexive(a.drop_first());
    }
}

/// The order of names is transitive.
pub proof fn before_transitive(a: Seq<char>, b: Seq<char>, c: Seq<char>)
    requires
        before(a, b),
        before(b, c),
    ensures
        before(a, c),
    decreases a.len(),
{
    if a.len() > 0 && a[0] == b[0] && b[0] == c[0] {
        before_transitive(a.drop_first(), b.drop_first(), c.drop_first());
    }
}

/// Two different names are ordered one way or the other.
pub proof fn before_total(a: Seq<char>, b: Seq<char>)
    ensures
        a == b || before(a, b) || before(b, a),
    decreases a.len(),
{
    if a.len() > 0 && b.len() > 0 && a[0] == b[0] {
        before_total(a.drop_first(), b.drop_first());
        if a.drop_first() == b.drop_first() {
            assert(a =~= seq![a[0]] + a.drop_first());
            assert(b =~= seq![b[0]] + b.drop_first());
        }
    } else if a.len() == 0 && b.len() == 0 {
        assert(a =~= b);
    }
}

/// Two names never come before each other.
pub proof fn before_antisymmetric(a: Seq<char>, b: Seq<char>)
    requires
        before(a, b),
    ensures
        !before(b, a),
        a != b,
{
    before_irreflexive(a);
    if before(b, a) {
        before_transitive(a, b, a);
    }
}

/// The order of two names.
pub open spec fn order_of(a: Seq<char>, b: Seq<char>) -> Order {
    if a == b {
        Order::Same
    } else if before(a, b) {
        Order::Before
    } else {
        Order::After
    }
}

/// Orders two names by code points.
pub fn order(a: &str, b: &str) -> (r: Order)
    ensures
        r == order_of(a@, b@),
{
    broadcast use group_string_axioms;
    let mut left = a.chars();
    let mut right = b.chars();
    let ghost mut k: int = 0;
    loop
        invariant
            0 <= k <= a@.len(),
            k <= b@.len(),
            left.remaining() == a@.skip(k),
            right.remaining() == b@.skip(k),
            left.decrease() is Some,
            a@.take(k) == b@.take(k),
            before(a@, b@) == before(a@.skip(k), b@.skip(k)),
            before(b@, a@) == before(b@.skip(k), a@.skip(k)),
        decreases left.decrease()->0,
    {
        let ghost ra = left.remaining();
        let ghost rb = right.remaining();
        let x = left.next();
        let y = right.next();
        match (x, y) {
            (None, None) => {
                proof {
                    assert(a@ =~= b@) by {
                        assert(a@ =~= a@.take(k));
                        assert(b@ =~= b@.take(k));
                    }
                }
                return Order::Same;
            },
            (None, Some(_)) => {
                proof {
                    before_antisymmetric(a@, b@);
                }
                return Order::Before;
            },
            (Some(_), None) => {
                proof {
                    before_antisymmetric(b@, a@);
                }
                return Order::After;
            },
            (Some(c), Some(d)) => {
                if c != d {
                    if c < d {
                        proof {
                            before_antisymmetric(a@, b@);
                        }
                        return Order::Before;
                    }
                    proof {
                        assert(d < c);
                        before_antisymmetric(b@, a@);
                    }
                    return Order::After;
                }
                proof {
                    assert(a@.skip(k).drop_first() =~= a@.skip(k + 1));
                    assert(b@.skip(k).drop_first() =~= b@.skip(k + 1));
                    assert(a@[k] == ra[0]);
                    assert(b@[k] == rb[0]);
                    assert(a@.take(k + 1) =~= a@.take(k).push(c));
                    assert(b@.take(k + 1) =~= b@.take(k).push(d));
                    k = k + 1;
                }
            },
        }
    }
}

/// `String::push` appends one character at the end.
pub assume_specification[ String::push ](text: &mut String, c: char)
    ensures
        final(text)@ == old(text)@.push(c),
;

/// Whether two names hold the same characters.
pub fn same(a: &str, b: &str) -> (r: bool)
    ensures
        r == (a@ == b@),
{
    match order(a, b) {
        Order::Same => true,
        _ => false,
    }
}

/// An owned copy of `a`.
pub fn owned(a: &str) -> (r: String)
    ensures
        r@ == a@,
{
    a.to_owned()
}

/// The concatenation of `a` and `b`.
pub fn join(a: &str, b: &str) -> (r: String)
    ensures
        r@ == a@ + b@,
{
    let mut text = a.to_owned();
    text.append(b);
    text
}

/// The concatenation of `a`, `b` and `c`.
pub fn join3(a: &str, b: &str, c: &str) -> (r: String)
    ensures
        r@ == a@ + b@ + c@,
{
    let mut text = a.to_owned();
    text.append(b);
    text.append(c);
    text
}

/// The numeral for a value below ten.
pub open spec fn digit(value: nat) -> char {
    if value == 0 {
        '0'
    } else if value == 1 {
        '1'
    } else if value == 2 {
        '2'
    } else if value == 3 {
        '3'
    } else if value == 4 {
        '4'
    } else if value == 5 {
        '5'
    } else if value == 6 {
        '6'
    } else if value == 7 {
        '7'
    } else if value == 8 {
        '8'
    } else {
        '9'
    }
}

/// The decimal numerals of a natural number, without leading zeros.
pub open spec fn digits(value: nat) -> Seq<char>
    decreases value,
{
    if value < 10 {
        seq![digit(value)]
    } else {
        digits(value / 10).push(digit(value % 10))
    }
}

/// The decimal form of an integer, with a leading minus sign when it is negative.
pub open spec fn decimal(value: int) -> Seq<char> {
    if value < 0 {
        seq!['-'] + digits((-value) as nat)
    } else {
        digits(value as nat)
    }
}

/// Different natural numbers have different numerals.
pub proof fn digits_are_distinct(a: nat, b: nat)
    requires
        digits(a) == digits(b),
    ensures
        a == b,
    decreases a,
{
    if a < 10 && b < 10 {
        assert(digits(a)[0] == digit(a) && digits(b)[0] == digit(b));
        digit_is_distinct(a, b);
    } else if a >= 10 && b >= 10 {
        let x = digits(a / 10);
        let y = digits(b / 10);
        assert(x.push(digit(a % 10)).drop_last() =~= x);
        assert(y.push(digit(b % 10)).drop_last() =~= y);
        assert(digits(a).last() == digit(a % 10) && digits(b).last() == digit(b % 10));
        digit_is_distinct(a % 10, b % 10);
        digits_are_distinct(a / 10, b / 10);
    } else if a >= 10 {
        digits_are_some(a / 10);
        assert(digits(a).len() > 1);
        assert(digits(b).len() == 1);
    } else {
        digits_are_some(b / 10);
        assert(digits(b).len() > 1);
        assert(digits(a).len() == 1);
    }
}

proof fn digit_is_distinct(a: nat, b: nat)
    requires
        a < 10,
        b < 10,
        digit(a) == digit(b),
    ensures
        a == b,
{
}

proof fn digits_are_some(value: nat)
    ensures
        digits(value).len() > 0,
{
}

fn digit_char(value: u64) -> (r: char)
    requires
        value < 10,
    ensures
        r == digit(value as nat),
{
    match value {
        0 => '0',
        1 => '1',
        2 => '2',
        3 => '3',
        4 => '4',
        5 => '5',
        6 => '6',
        7 => '7',
        8 => '8',
        _ => '9',
    }
}

fn push_digits(text: &mut String, value: u64)
    ensures
        final(text)@ == old(text)@ + digits(value as nat),
    decreases value,
{
    if value < 10 {
        text.push(digit_char(value));
        assert(text@ =~= old(text)@ + digits(value as nat));
    } else {
        push_digits(text, value / 10);
        text.push(digit_char(value % 10));
        assert(text@ =~= old(text)@ + digits(value as nat));
    }
}

/// Writes a natural number in decimal.
pub fn natural_text(value: u64) -> (r: String)
    ensures
        r@ == decimal(value as int),
{
    let mut text = String::new();
    push_digits(&mut text, value);
    assert(text@ =~= decimal(value as int));
    text
}

/// Writes an integer in decimal.
pub fn integer_text(value: i64) -> (r: String)
    ensures
        r@ == decimal(value as int),
{
    let mut text = String::new();
    if value < 0 {
        text.push('-');
        let magnitude: i128 = -(value as i128);
        push_digits(&mut text, magnitude as u64);
    } else {
        push_digits(&mut text, value as u64);
    }
    assert(text@ =~= decimal(value as int));
    text
}

/// The comma-separated decimal forms of a list of integers.
pub open spec fn listed(values: Seq<i64>) -> Seq<char>
    decreases values.len(),
{
    if values.len() == 0 {
        Seq::empty()
    } else if values.len() == 1 {
        decimal(values[0] as int)
    } else {
        listed(values.drop_last()) + ", "@ + decimal(values.last() as int)
    }
}

/// The bracketed list form of a shape, such as `[2, 3]`.
pub open spec fn shape_form(shape: Seq<i64>) -> Seq<char> {
    "["@ + listed(shape) + "]"@
}

/// Writes a shape as a bracketed list.
pub fn shape_text(shape: &[i64]) -> (r: String)
    ensures
        r@ == shape_form(shape@),
{
    let mut text = owned("[");
    let mut i: usize = 0;
    assert(text@ =~= "["@ + listed(shape@.take(0)));
    while i < shape.len()
        invariant
            i <= shape@.len(),
            text@ == "["@ + listed(shape@.take(i as int)),
        decreases shape@.len() - i,
    {
        let ghost before_text = text@;
        if i > 0 {
            text.append(", ");
        }
        let part = integer_text(shape[i]);
        text.append(part.as_str());
        proof {
            let longer = shape@.take(i as int + 1);
            assert(longer.drop_last() =~= shape@.take(i as int));
            assert(longer.last() == shape@[i as int]);
            if i == 0 {
                assert(before_text =~= "["@);
                assert(text@ =~= "["@ + listed(longer));
            } else {
                assert(text@ =~= "["@ + listed(longer));
            }
        }
        i += 1;
    }
    text.append("]");
    proof {
        assert(shape@.take(i as int) =~= shape@);
    }
    text
}

/// Control characters: the code points of the Unicode category `Cc`.
pub open spec fn is_control(c: char) -> bool {
    c <= '\u{1f}' || ('\u{7f}' <= c && c <= '\u{9f}')
}

/// Whether `text` holds a control character.
pub fn has_control(text: &str) -> (r: bool)
    ensures
        r == exists|i: int| 0 <= i < text@.len() && is_control(#[trigger] text@[i]),
{
    broadcast use group_string_axioms;
    let mut rest = text.chars();
    let ghost mut k: int = 0;
    loop
        invariant
            0 <= k <= text@.len(),
            rest.remaining() == text@.skip(k),
            rest.decrease() is Some,
            forall|i: int| 0 <= i < k ==> !is_control(#[trigger] text@[i]),
        decreases rest.decrease()->0,
    {
        match rest.next() {
            None => {
                return false;
            },
            Some(c) => {
                assert(c == text@[k]);
                if c <= '\u{1f}' || ('\u{7f}' <= c && c <= '\u{9f}') {
                    return true;
                }
                proof {
                    assert(text@.skip(k).drop_first() =~= text@.skip(k + 1));
                    k = k + 1;
                }
            },
        }
    }
}

/// Whether `text` holds the character `wanted`.
pub fn has_char(text: &str, wanted: char) -> (r: bool)
    ensures
        r == text@.contains(wanted),
{
    broadcast use group_string_axioms;
    let mut rest = text.chars();
    let ghost mut k: int = 0;
    loop
        invariant
            0 <= k <= text@.len(),
            rest.remaining() == text@.skip(k),
            rest.decrease() is Some,
            forall|i: int| 0 <= i < k ==> #[trigger] text@[i] != wanted,
        decreases rest.decrease()->0,
    {
        match rest.next() {
            None => {
                return false;
            },
            Some(c) => {
                assert(c == text@[k]);
                if c == wanted {
                    return true;
                }
                proof {
                    assert(text@.skip(k).drop_first() =~= text@.skip(k + 1));
                    k = k + 1;
                }
            },
        }
    }
}

/// The number of bytes of `text` in UTF-8.
pub fn byte_length(text: &str) -> (r: usize)
    ensures
        r == encode_utf8(text@).len(),
{
    text.as_bytes().len()
}

/// The characters of `text`, one element each.
pub fn characters(text: &str) -> (r: Vec<char>)
    ensures
        r@ == text@,
{
    broadcast use group_string_axioms;
    let mut rest = text.chars();
    let mut out: Vec<char> = Vec::new();
    assert(text@.skip(0) =~= text@);
    loop
        invariant
            out@.len() <= text@.len(),
            rest.remaining() == text@.skip(out@.len() as int),
            rest.decrease() is Some,
            out@ == text@.take(out@.len() as int),
        decreases rest.decrease()->0,
    {
        match rest.next() {
            None => {
                assert(out@ =~= text@);
                return out;
            },
            Some(c) => {
                let ghost k = out@.len() as int;
                assert(c == text@[k]);
                out.push(c);
                proof {
                    assert(text@.skip(k).drop_first() =~= text@.skip(k + 1));
                    assert(out@ =~= text@.take(k + 1));
                }
            },
        }
    }
}

/// Whether a text begins with another.
pub open spec fn begins(text: Seq<char>, prefix: Seq<char>) -> bool {
    prefix.len() <= text.len() && text.take(prefix.len() as int) == prefix
}

/// Whether a text ends with another.
pub open spec fn ends(text: Seq<char>, suffix: Seq<char>) -> bool {
    suffix.len() <= text.len() && text.skip(text.len() - suffix.len()) == suffix
}

/// Whether the characters from `at` on begin with those of another list.
pub fn holds_at(text: &Vec<char>, at: usize, part: &Vec<char>) -> (r: bool)
    requires
        at <= text@.len(),
    ensures
        r == (at + part@.len() <= text@.len() && text@.subrange(at as int, at + part@.len()) == part@),
{
    if part.len() > text.len() - at {
        return false;
    }
    let mut i: usize = 0;
    while i < part.len()
        invariant
            at + part@.len() <= text@.len(),
            i <= part@.len(),
            forall|j: int| 0 <= j < i ==> text@[at + j] == #[trigger] part@[j],
        decreases part@.len() - i,
    {
        assert(text.len() == text@.len());
        if text[at + i] != part[i] {
            assert(text@.subrange(at as int, at + part@.len())[i as int] != part@[i as int]);
            return false;
        }
        i += 1;
    }
    assert(text@.subrange(at as int, at + part@.len()) =~= part@);
    true
}

/// Whether a text begins with another.
pub fn starts_with(text: &str, prefix: &str) -> (r: bool)
    ensures
        r == begins(text@, prefix@),
{
    let all = characters(text);
    let part = characters(prefix);
    proof {
        if part@.len() <= all@.len() {
            assert(all@.subrange(0, part@.len() as int) =~= all@.take(part@.len() as int));
        }
    }
    holds_at(&all, 0, &part)
}

/// Whether a text ends with another.
pub fn ends_with(text: &str, suffix: &str) -> (r: bool)
    ensures
        r == ends(text@, suffix@),
{
    let all = characters(text);
    let part = characters(suffix);
    if part.len() > all.len() {
        return false;
    }
    let at: usize = all.len() - part.len();
    assert(all@.subrange(at as int, at + part@.len()) =~= all@.skip(at as int));
    holds_at(&all, at, &part)
}

/// The characters from `from` up to `end` as a text.
pub fn collect(all: &Vec<char>, from: usize, end: usize) -> (r: String)
    requires
        from <= end <= all@.len(),
    ensures
        r@ == all@.subrange(from as int, end as int),
{
    let mut out = String::new();
    let mut i: usize = from;
    assert(out@ =~= all@.subrange(from as int, from as int));
    while i < end
        invariant
            from <= i <= end <= all@.len(),
            out@ == all@.subrange(from as int, i as int),
        decreases end - i,
    {
        out.push(all[i]);
        assert(out@ =~= all@.subrange(from as int, i + 1));
        i += 1;
    }
    out
}

/// Calls `String::from_utf8_lossy`. Valid UTF-8 gives its text. Anything else gives a text with
/// a replacement character in it; which other characters it has is left unsaid.
#[verifier::external_body]
pub(crate) fn lossy(bytes: &[u8]) -> (r: String)
    ensures
        vstd::utf8::valid_utf8(bytes@) ==> r@ == vstd::utf8::decode_utf8(bytes@),
        !vstd::utf8::valid_utf8(bytes@) ==> r@.contains('\u{fffd}'),
{
    String::from_utf8_lossy(bytes).into_owned()
}

/// Unicode white space.
pub open spec fn is_space(c: char) -> bool {
    let n = c as int;
    9 <= n <= 13 || n == 0x20 || n == 0x85 || n == 0xa0 || n == 0x1680 || 0x2000 <= n <= 0x200a || n == 0x2028 || n == 0x2029 || n
        == 0x202f || n == 0x205f || n == 0x3000
}

/// Whether a character is Unicode white space.
pub fn space(c: char) -> (r: bool)
    ensures
        r == is_space(c),
{
    ('\u{9}' <= c && c <= '\u{d}') || c == ' ' || c == '\u{85}' || c == '\u{a0}' || c == '\u{1680}' || ('\u{2000}' <= c && c
        <= '\u{200a}') || c == '\u{2028}' || c == '\u{2029}' || c == '\u{202f}' || c == '\u{205f}' || c == '\u{3000}'
}

} // verus!
