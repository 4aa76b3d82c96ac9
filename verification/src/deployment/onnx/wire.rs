//! The bounds that a file has to keep before its messages are decoded.
use super::super::tree::MAX_DEPTH;
use crate::error::{deployment_error, deployment_text, refusal, ErrorView, Result};
use crate::text::{decimal, join3, natural_text};
use vstd::prelude::*;

verus! {

/// The largest number of fields of a file, nested ones included.
pub const MAX_FIELDS: usize = 320000;

/// 128 to the power `n`.
pub open spec fn groups_of_seven(n: int) -> int
    decreases n,
{
    if n <= 0 {
        1
    } else {
        128 * groups_of_seven(n - 1)
    }
}

/// The number that groups of seven bits from place `i` on stand for, and where they end. The
/// top bit of a byte tells that another one follows; there are at most ten, and the tenth
/// holds one bit.
pub open spec fn varint_from(bytes: Seq<u8>, i: int) -> Option<(int, int)>
    decreases 10 - i,
{
    if i >= 10 || i >= bytes.len() {
        None
    } else if bytes[i] < 0x80 {
        if i == 9 && bytes[i] >= 2 {
            None
        } else {
            Some((bytes[i] * groups_of_seven(i), i + 1))
        }
    } else {
        match varint_from(bytes, i + 1) {
            None => None,
            Some((value, end)) => Some(((bytes[i] - 0x80) * groups_of_seven(i) + value, end)),
        }
    }
}

/// The text of a decoding error.
pub open spec fn decode_text(cause: Seq<char>) -> Seq<char> {
    "failed to decode Protobuf message: "@ + cause
}

/// A number and how many bytes are left behind it, or why there is none.
pub open spec fn varint_of(bytes: Seq<u8>) -> core::result::Result<(int, int), Seq<char>> {
    match varint_from(bytes, 0) {
        None => Err(decode_text("invalid varint"@)),
        Some((value, end)) => Ok((value, bytes.len() - end)),
    }
}

/// The tag and the wire type of a field and how many bytes are left behind its key, or why
/// there is no key.
pub open spec fn key_of(bytes: Seq<u8>) -> core::result::Result<(int, int, int), Seq<char>> {
    match varint_of(bytes) {
        Err(e) => Err(e),
        Ok((key, left)) => if key > u32::MAX {
            Err(decode_text("invalid key value: "@ + decimal(key)))
        } else if key % 8 > 5 {
            Err(decode_text("invalid wire type value: "@ + decimal(key % 8)))
        } else if key / 8 < 1 {
            Err(decode_text("invalid tag value: 0"@))
        } else {
            Ok((key / 8, key % 8, left))
        },
    }
}

/// How deeply groups may be nested in a field that is stepped over.
pub const MAX_GROUPS: u32 = 100;

/// A number takes at least one byte and ends within the bytes.
pub proof fn varint_ends(bytes: Seq<u8>, i: int)
    requires
        0 <= i,
    ensures
        varint_from(bytes, i) matches Some((value, end)) ==> i < end <= bytes.len(),
    decreases 10 - i,
{
    if i < 10 && i < bytes.len() && bytes[i] >= 0x80 {
        varint_ends(bytes, i + 1);
    }
}

/// How many bytes are left behind the content of a field with the given wire type and tag, or
/// why it cannot be stepped over: a number, a length and as many bytes, eight or four bytes, or
/// a group. At most `limit` groups may be nested.
pub open spec fn left_behind(wire: int, tag: int, bytes: Seq<u8>, limit: int) -> core::result::Result<int, Seq<char>>
    decreases bytes.len(), 1nat,
{
    let fixed = if wire == 1 {
        8int
    } else {
        4
    };
    if limit <= 0 {
        Err(decode_text("recursion limit reached"@))
    } else if wire == 0 || wire == 2 {
        match varint_of(bytes) {
            Err(e) => Err(e),
            Ok((size, left)) => if wire == 0 {
                Ok(left)
            } else if size > left {
                Err(decode_text("buffer underflow"@))
            } else {
                Ok(left - size)
            },
        }
    } else if wire == 3 {
        group_left_behind(tag, bytes, limit)
    } else if wire == 4 {
        Err(decode_text("unexpected end group tag"@))
    } else if fixed > bytes.len() {
        Err(decode_text("buffer underflow"@))
    } else {
        Ok(bytes.len() - fixed)
    }
}

/// How many bytes are left behind the fields of a group and the key that ends it, which has the
/// tag of the group.
pub open spec fn group_left_behind(tag: int, bytes: Seq<u8>, limit: int) -> core::result::Result<int, Seq<char>>
    decreases bytes.len(), 0nat,
{
    match key_of(bytes) {
        Err(e) => Err(e),
        Ok((inner, wire, left)) => if wire == 4 {
            if inner == tag {
                Ok(left)
            } else {
                Err(decode_text("unexpected end group tag"@))
            }
        } else {
            proof {
                varint_ends(bytes, 0);
            }
            match left_behind(wire, inner, bytes.skip(bytes.len() - left), limit - 1) {
                Err(e) => Err(e),
                Ok(after) => if 0 <= after <= left {
                    group_left_behind(tag, bytes.skip(bytes.len() - after), limit)
                } else {
                    Ok(after)
                },
            }
        },
    }
}

/// Stepping over a field adds no bytes.
pub proof fn skipping_adds_nothing(wire: int, tag: int, bytes: Seq<u8>, limit: int)
    ensures
        left_behind(wire, tag, bytes, limit) matches Ok(left) ==> 0 <= left <= bytes.len(),
    decreases bytes.len(), 1nat,
{
    varint_ends(bytes, 0);
    varint_is_natural(bytes, 0);
    if wire == 3 {
        skipping_groups_adds_nothing(tag, bytes, limit);
    }
}

proof fn skipping_groups_adds_nothing(tag: int, bytes: Seq<u8>, limit: int)
    ensures
        group_left_behind(tag, bytes, limit) matches Ok(left) ==> 0 <= left <= bytes.len(),
    decreases bytes.len(), 0nat,
{
    varint_ends(bytes, 0);
    if let Ok((inner, wire, left)) = key_of(bytes) {
        if wire != 4 {
            let rest = bytes.skip(bytes.len() - left);
            skipping_adds_nothing(wire, inner, rest, limit - 1);
            if let Ok(after) = left_behind(wire, inner, rest, limit - 1) {
                skipping_groups_adds_nothing(tag, bytes.skip(bytes.len() - after), limit);
            }
        }
    }
}

proof fn varint_is_natural(bytes: Seq<u8>, i: int)
    requires
        0 <= i,
    ensures
        varint_from(bytes, i) matches Some((value, end)) ==> value >= 0,
    decreases 10 - i,
{
    if i < 10 && i < bytes.len() {
        groups_are_positive(i);
        if bytes[i] >= 0x80 {
            varint_is_natural(bytes, i + 1);
            let high = bytes[i] - 0x80;
            assert(high * groups_of_seven(i) >= 0) by (nonlinear_arith)
                requires
                    high >= 0,
                    groups_of_seven(i) > 0,
            ;
        } else {
            let low = bytes[i] as int;
            assert(low * groups_of_seven(i) >= 0) by (nonlinear_arith)
                requires
                    low >= 0,
                    groups_of_seven(i) > 0,
            ;
        }
    }
}

proof fn groups_are_positive(n: int)
    ensures
        groups_of_seven(n) > 0,
    decreases n,
{
    if n > 0 {
        groups_are_positive(n - 1);
    }
}

/// Calls `prost::encoding::decode_varint`. It reads groups of seven bits, the lowest first,
/// each but the last with its top bit set; it fails where they do not end within ten bytes or
/// exceed 64 bits. Returned are the number and how many bytes are left.
#[verifier::external_body]
fn decode_varint(bytes: &[u8]) -> (r: core::result::Result<(u64, usize), String>)
    ensures
        match (r, varint_of(bytes@)) {
            (Ok(found), Ok(expected)) => found.0 == expected.0 && found.1 == expected.1 && found.1 < bytes@.len(),
            (Err(e), Err(expected)) => e@ == expected,
            _ => false,
        },
{
    let mut rest: &[u8] = bytes;
    match prost::encoding::decode_varint(&mut rest) {
        Ok(value) => Ok((value, rest.len())),
        Err(e) => Err(e.to_string()),
    }
}

/// Calls `prost::encoding::decode_key`. It reads a number, of which the lowest three bits are
/// the wire type and the others the tag; it fails where the number exceeds 32 bits, the wire
/// type is unknown or the tag is zero. Returned are the tag, the wire type and how many bytes
/// are left.
#[verifier::external_body]
fn decode_key(bytes: &[u8]) -> (r: core::result::Result<(u32, u8, usize), String>)
    ensures
        match (r, key_of(bytes@)) {
            (Ok(found), Ok(expected)) => found.0 == expected.0 && found.1 == expected.1 && found.2 == expected.2 && found.2
                < bytes@.len(),
            (Err(e), Err(expected)) => e@ == expected,
            _ => false,
        },
{
    let mut rest: &[u8] = bytes;
    match prost::encoding::decode_key(&mut rest) {
        Ok((tag, wire)) => Ok((tag, wire as u8, rest.len())),
        Err(e) => Err(e.to_string()),
    }
}

/// Calls `prost::encoding::skip_field` with a fresh context. It steps over the content of a
/// field; where that is a group, over its fields in turn, up to a limit of nesting. Returned is
/// how many bytes are left.
#[verifier::external_body]
fn skip_field(wire: u8, tag: u32, bytes: &[u8]) -> (r: core::result::Result<usize, String>)
    requires
        wire <= 5,
    ensures
        match (r, left_behind(wire as int, tag as int, bytes@, MAX_GROUPS as int)) {
            (Ok(left), Ok(expected)) => left == expected,
            (Err(e), Err(expected)) => e@ == expected,
            _ => false,
        },
{
    let mut rest: &[u8] = bytes;
    match prost::encoding::WireType::try_from(wire as u64) {
        Ok(kind) => match prost::encoding::skip_field(kind, tag, &mut rest, prost::encoding::DecodeContext::default()) {
            Ok(()) => Ok(rest.len()),
            Err(e) => Err(e.to_string()),
        },
        Err(e) => Err(e.to_string()),
    }
}

/// The messages of the format.
#[derive(Debug, Clone, Copy, PartialEq, Eq, Structural)]
pub enum Schema {
    Model,
    Graph,
    Node,
    Attribute,
    Tensor,
    Value,
    Type,
    TensorType,
    Shape,
    Opset,
    Entry,
    Dim,
}

impl Schema {
    /// The number by which errors tell a message.
    pub open spec fn index(self) -> int {
        match self {
            Schema::Model => 0,
            Schema::Graph => 1,
            Schema::Node => 2,
            Schema::Attribute => 3,
            Schema::Tensor => 4,
            Schema::Value => 5,
            Schema::Type => 6,
            Schema::TensorType => 7,
            Schema::Shape => 8,
            Schema::Opset => 9,
            Schema::Entry => 10,
            Schema::Dim => 11,
        }
    }

    fn number(self) -> (r: u64)
        ensures
            r == self.index(),
    {
        match self {
            Schema::Model => 0,
            Schema::Graph => 1,
            Schema::Node => 2,
            Schema::Attribute => 3,
            Schema::Tensor => 4,
            Schema::Value => 5,
            Schema::Type => 6,
            Schema::TensorType => 7,
            Schema::Shape => 8,
            Schema::Opset => 9,
            Schema::Entry => 10,
            Schema::Dim => 11,
        }
    }

    /// The message that a field holds, if it holds one that is looked into.
    pub open spec fn nested(self, tag: int) -> Option<Schema> {
        match self {
            Schema::Model => if tag == 7 {
                Some(Schema::Graph)
            } else if tag == 8 {
                Some(Schema::Opset)
            } else if tag == 14 {
                Some(Schema::Entry)
            } else {
                None
            },
            Schema::Graph => if tag == 1 {
                Some(Schema::Node)
            } else if tag == 5 {
                Some(Schema::Tensor)
            } else if 11 <= tag <= 13 {
                Some(Schema::Value)
            } else {
                None
            },
            Schema::Node => if tag == 5 {
                Some(Schema::Attribute)
            } else {
                None
            },
            Schema::Attribute => if tag == 5 {
                Some(Schema::Tensor)
            } else {
                None
            },
            Schema::Value => if tag == 2 {
                Some(Schema::Type)
            } else {
                None
            },
            Schema::Type => if tag == 1 {
                Some(Schema::TensorType)
            } else {
                None
            },
            Schema::TensorType => if tag == 2 {
                Some(Schema::Shape)
            } else {
                None
            },
            Schema::Shape => if tag == 1 {
                Some(Schema::Dim)
            } else {
                None
            },
            _ => None,
        }
    }

    fn child(self, tag: u32) -> (r: Option<Schema>)
        ensures
            r == self.nested(tag as int),
    {
        match self {
            Schema::Model => if tag == 7 {
                Some(Schema::Graph)
            } else if tag == 8 {
                Some(Schema::Opset)
            } else if tag == 14 {
                Some(Schema::Entry)
            } else {
                None
            },
            Schema::Graph => if tag == 1 {
                Some(Schema::Node)
            } else if tag == 5 {
                Some(Schema::Tensor)
            } else if 11 <= tag && tag <= 13 {
                Some(Schema::Value)
            } else {
                None
            },
            Schema::Node => if tag == 5 {
                Some(Schema::Attribute)
            } else {
                None
            },
            Schema::Attribute => if tag == 5 {
                Some(Schema::Tensor)
            } else {
                None
            },
            Schema::Value => if tag == 2 {
                Some(Schema::Type)
            } else {
                None
            },
            Schema::Type => if tag == 1 {
                Some(Schema::TensorType)
            } else {
                None
            },
            Schema::TensorType => if tag == 2 {
                Some(Schema::Shape)
            } else {
                None
            },
            Schema::Shape => if tag == 1 {
                Some(Schema::Dim)
            } else {
                None
            },
            _ => None,
        }
    }

    /// The tags that a message may hold.
    pub open spec fn knows(self, tag: int) -> bool {
        match self {
            Schema::Model => 1 <= tag <= 8 || tag == 14 || tag == 20 || tag == 25 || tag == 26,
            Schema::Graph => tag == 1 || tag == 2 || tag == 5 || 10 <= tag <= 16,
            Schema::Node => 1 <= tag <= 10,
            Schema::Attribute => 1 <= tag <= 11 || 13 <= tag <= 15 || 20 <= tag <= 23,
            Schema::Tensor => 1 <= tag <= 16,
            Schema::Value => 1 <= tag <= 4,
            Schema::Type => tag == 1 || 4 <= tag <= 9,
            Schema::TensorType => tag == 1 || tag == 2,
            Schema::Shape => tag == 1,
            Schema::Opset => tag == 1 || tag == 2,
            Schema::Entry => tag == 1 || tag == 2,
            Schema::Dim => 1 <= tag <= 3,
        }
    }

    fn accepts(self, tag: u32) -> (r: bool)
        ensures
            r == self.knows(tag as int),
    {
        match self {
            Schema::Model => (1 <= tag && tag <= 8) || tag == 14 || tag == 20 || tag == 25 || tag == 26,
            Schema::Graph => tag == 1 || tag == 2 || tag == 5 || (10 <= tag && tag <= 16),
            Schema::Node => 1 <= tag && tag <= 10,
            Schema::Attribute => (1 <= tag && tag <= 11) || (13 <= tag && tag <= 15) || (20 <= tag && tag <= 23),
            Schema::Tensor => 1 <= tag && tag <= 16,
            Schema::Value => 1 <= tag && tag <= 4,
            Schema::Type => tag == 1 || (4 <= tag && tag <= 9),
            Schema::TensorType => tag == 1 || tag == 2,
            Schema::Shape => tag == 1,
            Schema::Opset => tag == 1 || tag == 2,
            Schema::Entry => tag == 1 || tag == 2,
            Schema::Dim => 1 <= tag && tag <= 3,
        }
    }
}

/// How many fields have been counted, and why the message is refused, if it is.
pub type Scan = (int, Option<ErrorView>);

/// The wire type of fields with a length.
pub const LENGTH_DELIMITED: u8 = 2;

/// The fields of a message from its first byte on, with `count` fields counted before.
pub open spec fn scanned(bytes: Seq<u8>, schema: Schema, depth: int, count: int) -> Scan
    decreases bytes.len(), 1nat,
{
    if depth > MAX_DEPTH {
        (count, Some(deployment_text("ONNX protobuf nesting exceeds limit"@)))
    } else {
        scanned_fields(bytes, schema, depth, count)
    }
}

/// The fields of a message that is not nested too deeply.
pub open spec fn scanned_fields(bytes: Seq<u8>, schema: Schema, depth: int, count: int) -> Scan
    decreases bytes.len(), 0nat,
{
    if bytes.len() == 0 {
        (count, None)
    } else if count + 1 > MAX_FIELDS {
        (count + 1, Some(deployment_text("ONNX protobuf field count exceeds limit"@)))
    } else {
        match key_of(bytes) {
            Err(e) => (count + 1, Some(deployment_text(e))),
            Ok((tag, wire, left)) => {
                let rest = bytes.skip(bytes.len() - left);
                if !schema.knows(tag) {
                    (
                        count + 1,
                        Some(
                            deployment_text(
                                "unknown ONNX schema field "@ + decimal(schema.index()) + ":"@ + decimal(tag),
                            ),
                        ),
                    )
                } else if left < 0 || left >= bytes.len() {
                    (count + 1, None)
                } else {
                    match schema.nested(tag) {
                        Some(inner) => scanned_message(rest, inner, wire, schema, depth, count + 1),
                        None => match left_behind(wire, tag, rest, MAX_GROUPS as int) {
                            Err(e) => (count + 1, Some(deployment_text(e))),
                            Ok(after) => if after < 0 || after > left {
                                (count + 1, None)
                            } else {
                                scanned_fields(rest.skip(left - after), schema, depth, count + 1)
                            },
                        },
                    }
                }
            },
        }
    }
}

/// A field that holds a message, behind its key, and the fields that follow it.
pub open spec fn scanned_message(bytes: Seq<u8>, inner: Schema, wire: int, schema: Schema, depth: int, count: int) -> Scan
    decreases bytes.len(), 2nat,
{
    if wire != LENGTH_DELIMITED {
        (count, Some(deployment_text("invalid ONNX message wire type"@)))
    } else {
        match varint_of(bytes) {
            Err(e) => (count, Some(deployment_text(e))),
            Ok((size, left)) => if size > usize::MAX {
                (count, Some(deployment_text("out of range integral type conversion attempted"@)))
            } else if size > left {
                (count, Some(deployment_text("truncated ONNX message"@)))
            } else if left < 0 || left >= bytes.len() || size < 0 {
                (count, None)
            } else {
                let body = bytes.skip(bytes.len() - left);
                let (total, stopped) = scanned(body.take(size), inner, depth + 1, count);
                if stopped is Some {
                    (total, stopped)
                } else {
                    scanned_fields(body.skip(size), schema, depth, total)
                }
            },
        }
    }
}

/// The bytes from `at` on.
fn tail(bytes: &[u8], at: usize) -> (r: &[u8])
    requires
        at <= bytes@.len(),
    ensures
        r@ == bytes@.skip(at as int),
{
    let r = vstd::slice::slice_subrange(bytes, at, bytes.len());
    assert(r@ =~= bytes@.skip(at as int));
    r
}

/// The bytes in front of `at`.
fn head(bytes: &[u8], at: usize) -> (r: &[u8])
    requires
        at <= bytes@.len(),
    ensures
        r@ == bytes@.take(at as int),
{
    let r = vstd::slice::slice_subrange(bytes, 0, at);
    assert(r@ =~= bytes@.take(at as int));
    r
}

/// Counts the fields of a message, nested ones included, before anything is allocated for
/// them, and refuses messages that are nested too deeply or hold unknown fields.
pub fn preflight(bytes: &[u8], schema: Schema, depth: usize, budget: &mut usize) -> (r: Result<()>)
    requires
        *old(budget) <= MAX_FIELDS,
    ensures
        (*final(budget) as int, refusal(r)) == scanned(bytes@, schema, depth as int, *old(budget) as int),
        r is Ok ==> *final(budget) <= MAX_FIELDS,
    decreases bytes@.len(),
{
    if depth > MAX_DEPTH {
        return Err(deployment_error("ONNX protobuf nesting exceeds limit"));
    }
    let mut rest: &[u8] = bytes;
    while rest.len() > 0
        invariant
            depth <= MAX_DEPTH,
            rest@.len() <= bytes@.len(),
            *budget <= MAX_FIELDS,
            scanned(bytes@, schema, depth as int, *old(budget) as int) == scanned_fields(
                rest@,
                schema,
                depth as int,
                *budget as int,
            ),
        decreases rest@.len(),
    {
        *budget = *budget + 1;
        if *budget > MAX_FIELDS {
            return Err(deployment_error("ONNX protobuf field count exceeds limit"));
        }
        let (tag, wire, left) = match decode_key(rest) {
            Ok(key) => key,
            Err(e) => {
                return Err(deployment_error(e.as_str()));
            },
        };
        if !schema.accepts(tag) {
            return Err(unknown_field(schema, tag));
        }
        let ghost before = rest@;
        let behind: usize = rest.len() - left;
        rest = tail(rest, behind);
        match schema.child(tag) {
            Some(inner) => {
                assert(scanned_fields(before, schema, depth as int, *budget - 1) == scanned_message(
                    rest@,
                    inner,
                    wire as int,
                    schema,
                    depth as int,
                    *budget as int,
                ));
                if wire != LENGTH_DELIMITED {
                    return Err(deployment_error("invalid ONNX message wire type"));
                }
                let (size, remaining) = match decode_varint(rest) {
                    Ok(found) => found,
                    Err(e) => {
                        return Err(deployment_error(e.as_str()));
                    },
                };
                if size > usize::MAX as u64 {
                    return Err(deployment_error("out of range integral type conversion attempted"));
                }
                let size: usize = size as usize;
                if size > remaining {
                    return Err(deployment_error("truncated ONNX message"));
                }
                let body = tail(rest, rest.len() - remaining);
                let part = head(body, size);
                if let Err(e) = preflight(part, inner, depth + 1, budget) {
                    return Err(e);
                }
                rest = tail(body, size);
            },
            None => {
                proof {
                    skipping_adds_nothing(wire as int, tag as int, rest@, MAX_GROUPS as int);
                }
                let after = match skip_field(wire, tag, rest) {
                    Ok(after) => after,
                    Err(e) => {
                        return Err(deployment_error(e.as_str()));
                    },
                };
                rest = tail(rest, left - after);
            },
        }
    }
    Ok(())
}

fn unknown_field(schema: Schema, tag: u32) -> (r: crate::error::RustTorchError)
    ensures
        r@ == deployment_text("unknown ONNX schema field "@ + decimal(schema.index()) + ":"@ + decimal(tag as int)),
{
    let number = natural_text(schema.number());
    let place = natural_text(tag as u64);
    let mut message = join3("unknown ONNX schema field ", number.as_str(), ":");
    message.append(place.as_str());
    deployment_error(message.as_str())
}

} // verus!
