//! Tensors as they travel between processes: shape, element type and bytes.
use super::{invalid, refused};
use crate::bytes::{little_endian, little_endian_length, number, number_of_little_endian, push_number, range_of, read_number};
use crate::error::{refusal, ErrorView, Result};
use crate::kind::{Device, Kind};
use crate::tensor::{copy_shape, counted, element_count, same_shape};
use vstd::prelude::*;

verus! {

/// The element types that processes exchange.
#[derive(Debug, Clone, Copy, PartialEq, Eq, Structural)]
pub enum Dtype {
    Float,
    Double,
    Int64,
}

/// The element type by which a kind is exchanged, if it is.
pub open spec fn dtype_of(kind: Kind) -> Option<Dtype> {
    match kind {
        Kind::Float => Some(Dtype::Float),
        Kind::Double => Some(Dtype::Double),
        Kind::Int64 => Some(Dtype::Int64),
        _ => None,
    }
}

impl Dtype {
    /// The kind of the elements.
    pub open spec fn as_kind(self) -> Kind {
        match self {
            Dtype::Float => Kind::Float,
            Dtype::Double => Kind::Double,
            Dtype::Int64 => Kind::Int64,
        }
    }

    /// The bytes of an element.
    pub open spec fn size(self) -> int {
        self.as_kind().width()
    }

    /// The kind of the elements.
    pub fn kind(self) -> (r: Kind)
        ensures
            r == self.as_kind(),
    {
        match self {
            Dtype::Float => Kind::Float,
            Dtype::Double => Kind::Double,
            Dtype::Int64 => Kind::Int64,
        }
    }

    /// The element type by which a kind is exchanged.
    pub fn from_kind(kind: Kind) -> (r: Result<Self>)
        ensures
            match (r, dtype_of(kind)) {
                (Ok(a), Some(b)) => a == b,
                (Err(e), None) => e@ == refused("CPU transport accepts only Float, Double, and Int64"@),
                _ => false,
            },
    {
        match kind {
            Kind::Float => Ok(Dtype::Float),
            Kind::Double => Ok(Dtype::Double),
            Kind::Int64 => Ok(Dtype::Int64),
            _ => Err(invalid("CPU transport accepts only Float, Double, and Int64")),
        }
    }
}

/// What the library reads of a tensor before it is sent.
#[derive(Debug, Clone, Copy, PartialEq, Eq, Structural)]
pub struct Candidate {
    /// Whether the tensor holds a value.
    pub defined: bool,
    /// Where it is stored.
    pub device: Device,
    /// Whether it is sparse.
    pub sparse: bool,
    /// Whether it is in an opaque processor layout.
    pub opaque: bool,
    /// The element type.
    pub kind: Kind,
    /// The number of elements.
    pub elements: usize,
}

/// A tensor as it travels.
#[derive(Debug, Clone, PartialEq, Eq)]
pub struct Payload {
    /// The size of each dimension.
    pub shape: Vec<i64>,
    /// The element type.
    pub dtype: Dtype,
    /// The elements in row order, each from its lowest byte up.
    pub bytes: Vec<u8>,
}

/// The content of a [`Payload`].
#[verifier::ext_equal]
pub struct PayloadView {
    pub shape: Seq<i64>,
    pub dtype: Dtype,
    pub bytes: Seq<u8>,
}

impl View for Payload {
    type V = PayloadView;

    open spec fn view(&self) -> PayloadView {
        PayloadView { shape: self.shape@, dtype: self.dtype, bytes: self.bytes@ }
    }
}

/// The contents of payloads.
pub open spec fn payload_views(list: Seq<Payload>) -> Seq<PayloadView> {
    Seq::new(list.len(), |i: int| list[i]@)
}

/// Why a tensor cannot be sent, if it cannot.
pub open spec fn capture_refusal(c: Candidate, limit: usize) -> Option<ErrorView> {
    if !c.defined || c.device != Device::Cpu || c.sparse || c.opaque {
        Some(refused("transport requires defined dense CPU tensors"@))
    } else {
        match dtype_of(c.kind) {
            None => Some(refused("CPU transport accepts only Float, Double, and Int64"@)),
            Some(dtype) => if c.elements * dtype.size() > limit {
                Some(refused("tensor exceeds message limit"@))
            } else {
                None
            },
        }
    }
}

impl PayloadView {
    /// Why the payload is refused, if it is.
    pub open spec fn refusal(self, limit: usize) -> Option<ErrorView> {
        if self.shape.len() > 64 || self.bytes.len() > limit {
            Some(refused("invalid tensor rank or byte count"@))
        } else {
            match counted(self.shape, self.shape.len() as int) {
                None => Some(refused("tensor dimensions overflow or are negative"@)),
                Some(n) => if n * self.dtype.size() != self.bytes.len() {
                    Some(refused("tensor byte count differs from shape and dtype"@))
                } else {
                    None
                },
            }
        }
    }

    /// Two payloads describe tensors of one shape and element type.
    pub open spec fn same_spec(self, other: PayloadView) -> bool {
        self.shape == other.shape && self.dtype == other.dtype
    }
}

impl Payload {
    /// Checks that a tensor can be sent, and gives its element type and its length in bytes.
    pub fn prepare(candidate: Candidate, limit: usize) -> (r: Result<(Dtype, usize)>)
        ensures
            refusal(r) == capture_refusal(candidate, limit),
            r matches Ok(p) ==> dtype_of(candidate.kind) == Some(p.0) && p.1 == candidate.elements * p.0.size(),
    {
        if !candidate.defined || candidate.device != Device::Cpu || candidate.sparse || candidate.opaque {
            return Err(invalid("transport requires defined dense CPU tensors"));
        }
        let dtype = match Dtype::from_kind(candidate.kind) {
            Ok(dtype) => dtype,
            Err(e) => {
                return Err(e);
            },
        };
        match candidate.elements.checked_mul(dtype.kind().bytes()) {
            Some(length) => {
                if length > limit {
                    return Err(invalid("tensor exceeds message limit"));
                }
                Ok((dtype, length))
            },
            None => Err(invalid("tensor exceeds message limit")),
        }
    }

    /// Makes a payload of what was read from a tensor.
    pub fn capture(shape: Vec<i64>, dtype: Dtype, bytes: Vec<u8>, limit: usize) -> (r: Result<Self>)
        ensures
            refusal(r) == (PayloadView { shape: shape@, dtype, bytes: bytes@ }).refusal(limit),
            r matches Ok(p) ==> p@ == (PayloadView { shape: shape@, dtype, bytes: bytes@ }),
    {
        let value = Payload { shape, dtype, bytes };
        if let Err(e) = value.validate(limit) {
            return Err(e);
        }
        Ok(value)
    }

    /// Checks that shape, element type and bytes agree.
    pub fn validate(&self, limit: usize) -> (r: Result<()>)
        ensures
            refusal(r) == self@.refusal(limit),
    {
        assert(self.bytes.len() == self.bytes@.len());
        if self.shape.len() > 64 || self.bytes.len() > limit {
            return Err(invalid("invalid tensor rank or byte count"));
        }
        match element_count(self.shape.as_slice()) {
            None => Err(invalid("tensor dimensions overflow or are negative")),
            Some(n) => {
                match n.checked_mul(self.dtype.kind().bytes()) {
                    Some(length) => {
                        if length != self.bytes.len() {
                            return Err(invalid("tensor byte count differs from shape and dtype"));
                        }
                        Ok(())
                    },
                    None => Err(invalid("tensor byte count differs from shape and dtype")),
                }
            },
        }
    }

    /// Whether two payloads describe tensors of one shape and element type.
    pub fn same_spec(&self, other: &Self) -> (r: bool)
        ensures
            r == self@.same_spec(other@),
    {
        same_shape(self.shape.as_slice(), other.shape.as_slice()) && self.dtype == other.dtype
    }

    /// A payload of its own with the same content.
    pub fn copy(&self) -> (r: Self)
        ensures
            r@ == self@,
    {
        Payload { shape: copy_shape(self.shape.as_slice()), dtype: self.dtype, bytes: copy_bytes(&self.bytes) }
    }
}

/// Bytes of their own with the same content.
pub fn copy_bytes(bytes: &Vec<u8>) -> (r: Vec<u8>)
    ensures
        r@ == bytes@,
{
    let mut out: Vec<u8> = Vec::new();
    let mut i: usize = 0;
    while i < bytes.len()
        invariant
            i <= bytes@.len(),
            out@ == bytes@.take(i as int),
        decreases bytes@.len() - i,
    {
        out.push(bytes[i]);
        i += 1;
        assert(out@ =~= bytes@.take(i as int));
    }
    assert(bytes@.take(bytes@.len() as int) =~= bytes@);
    out
}

/// The bytes with those of each whole element in the other order. What is left over at the end
/// stays as it is.
pub open spec fn swapped(bytes: Seq<u8>, width: int) -> Seq<u8> {
    Seq::new(
        bytes.len(),
        |i: int|
            if i / width * width + width <= bytes.len() {
                bytes[i / width * width + (width - 1 - i % width)]
            } else {
                bytes[i]
            },
    )
}

/// Reverses the bytes of each element, as a machine that keeps the highest byte first needs it.
pub fn swap_elements(bytes: &Vec<u8>, width: usize) -> (r: Vec<u8>)
    requires
        width > 0,
    ensures
        r@ == swapped(bytes@, width as int),
{
    let mut out: Vec<u8> = Vec::new();
    let mut i: usize = 0;
    while i < bytes.len()
        invariant
            width > 0,
            i <= bytes@.len(),
            out@.len() == i,
            forall|j: int| 0 <= j < i ==> #[trigger] out@[j] == swapped(bytes@, width as int)[j],
        decreases bytes@.len() - i,
    {
        proof {
            vstd::arithmetic::div_mod::lemma_mod_decreases(i as nat, width as nat);
        }
        let start: usize = i - i % width;
        proof {
            vstd::arithmetic::div_mod::lemma_fundamental_div_mod(i as int, width as int);
            vstd::arithmetic::mul::lemma_mul_is_commutative(i as int / width as int, width as int);
            assert(start == i as int / width as int * width as int);
            assert(bytes.len() == bytes@.len());
        }
        if bytes.len() - start >= width {
            out.push(bytes[start + (width - 1 - i % width)]);
        } else {
            out.push(bytes[i]);
        }
        i += 1;
    }
    assert(out@ =~= swapped(bytes@, width as int));
    out
}

/// Reversing the bytes of each element twice gives the bytes back.
pub proof fn swapping_twice_restores(bytes: Seq<u8>, width: int)
    requires
        width > 0,
    ensures
        swapped(swapped(bytes, width), width) == bytes,
{
    let once = swapped(bytes, width);
    assert forall|i: int| 0 <= i < bytes.len() implies #[trigger] swapped(once, width)[i] == bytes[i] by {
        let block = i / width;
        let rest = i % width;
        vstd::arithmetic::div_mod::lemma_fundamental_div_mod(i, width);
        vstd::arithmetic::mul::lemma_mul_is_commutative(block, width);
        assert(i == block * width + rest);
        assert(0 <= rest < width);
        if block * width + width <= bytes.len() {
            let j = block * width + (width - 1 - rest);
            vstd::arithmetic::div_mod::lemma_fundamental_div_mod_converse(j, width, block, width - 1 - rest);
            assert(j / width == block && j % width == width - 1 - rest);
            assert(0 <= block) by {
                vstd::arithmetic::div_mod::lemma_div_pos_is_pos(i, width);
            }
            assert(0 <= block * width) by (nonlinear_arith)
                requires
                    0 <= block,
                    0 < width,
            ;
            assert(0 <= j < bytes.len());
            assert(once[j] == bytes[block * width + (width - 1 - (width - 1 - rest))]);
        }
    }
    assert(swapped(once, width) =~= bytes);
}

/// A number from its highest byte down.
pub open spec fn big_endian(value: int, n: nat) -> Seq<u8> {
    little_endian(value, n).reverse()
}

/// The header of a message: its length in eight bytes, from the highest down.
pub fn frame_header(length: usize) -> (r: Vec<u8>)
    ensures
        r@ == big_endian(length as int, 8),
{
    let mut low: Vec<u8> = Vec::new();
    push_number(&mut low, length as u64, 8);
    proof {
        little_endian_length(length as int, 8);
        assert(low@ =~= little_endian(length as int, 8));
    }
    reversed(&low)
}

fn reversed(bytes: &Vec<u8>) -> (r: Vec<u8>)
    ensures
        r@ == bytes@.reverse(),
{
    let mut out: Vec<u8> = Vec::new();
    let mut i: usize = bytes.len();
    while i > 0
        invariant
            i <= bytes@.len(),
            out@.len() == bytes@.len() - i,
            forall|j: int| 0 <= j < out@.len() ==> #[trigger] out@[j] == bytes@[bytes@.len() - 1 - j],
        decreases i,
    {
        i -= 1;
        out.push(bytes[i]);
    }
    assert(out@ =~= bytes@.reverse());
    out
}

/// The length that a header tells, or why the message is refused.
pub open spec fn announced(header: Seq<u8>, limit: usize) -> core::result::Result<int, ErrorView> {
    let length = number(header.reverse());
    if length > limit {
        Err(refused("peer message exceeds limit"@))
    } else {
        Ok(length)
    }
}

/// Reads the header of a message.
pub fn frame_length(header: &Vec<u8>, limit: usize) -> (r: Result<usize>)
    requires
        header@.len() == 8,
    ensures
        match (r, announced(header@, limit)) {
            (Ok(a), Ok(b)) => a == b,
            (Err(a), Err(b)) => a@ == b,
            _ => false,
        },
{
    let low = reversed(header);
    assert(low@.subrange(0, 8) =~= low@);
    let length: u64 = read_number(low.as_slice(), 0, 8);
    if length > limit as u64 {
        return Err(invalid("peer message exceeds limit"));
    }
    Ok(length as usize)
}

/// A header tells the length that it was made for, to every reader whose limit allows it.
pub proof fn headers_survive(length: usize, limit: usize)
    ensures
        announced(big_endian(length as int, 8), limit) == if length <= limit {
            Ok::<int, ErrorView>(length as int)
        } else {
            Err(refused("peer message exceeds limit"@))
        },
{
    assert(little_endian(length as int, 8).reverse().reverse() =~= little_endian(length as int, 8));
    assert(range_of(8) == 0x1_0000_0000_0000_0000) by {
        reveal_with_fuel(range_of, 9);
    }
    number_of_little_endian(length as int, 8);
}

} // verus!
