//! What the library reads of a tensor.
use crate::error::{refusal, ErrorView, Result, RustTorchError};
use crate::kind::{Device, Kind};
use crate::text::owned;
use vstd::prelude::*;

verus! {

/// The facts about a tensor on which decisions rest. The elements stay with the tensor
/// runtime.
#[derive(Debug, PartialEq, Eq)]
pub struct TensorMeta {
    /// Whether the tensor holds a value at all.
    pub defined: bool,
    /// The size of each dimension.
    pub shape: Vec<i64>,
    /// The element type.
    pub kind: Kind,
    /// Where the tensor is stored.
    pub device: Device,
}

/// The content of a [`TensorMeta`].
#[verifier::ext_equal]
pub struct MetaView {
    pub defined: bool,
    pub shape: Seq<i64>,
    pub kind: Kind,
    pub device: Device,
}

impl View for TensorMeta {
    type V = MetaView;

    open spec fn view(&self) -> MetaView {
        MetaView { defined: self.defined, shape: self.shape@, kind: self.kind, device: self.device }
    }
}

impl TensorMeta {
    /// A defined tensor with the given shape, element type and device.
    pub fn new(shape: Vec<i64>, kind: Kind, device: Device) -> (r: Self)
        ensures
            r@ == (MetaView { defined: true, shape: shape@, kind, device }),
    {
        TensorMeta { defined: true, shape, kind, device }
    }
}

/// The shape and element type of a named tensor.
#[derive(Debug, PartialEq, Eq)]
pub struct TensorSpec {
    /// The size of each dimension.
    pub shape: Vec<i64>,
    /// The element type.
    pub kind: Kind,
}

/// The content of a [`TensorSpec`].
pub struct TensorSpecView {
    pub shape: Seq<i64>,
    pub kind: Kind,
}

impl View for TensorSpec {
    type V = TensorSpecView;

    open spec fn view(&self) -> TensorSpecView {
        TensorSpecView { shape: self.shape@, kind: self.kind }
    }
}

/// Why a tensor on `actual` is refused where `expected` is needed.
pub open spec fn device_refusal(context: Seq<char>, actual: Device, expected: Device) -> Option<ErrorView> {
    if actual == expected {
        None
    } else {
        Some(ErrorView::DeviceMismatch { context, expected, actual })
    }
}

/// Checks that a tensor lies on the expected device.
pub fn ensure_device(context: &str, actual: Device, expected: Device) -> (r: Result<()>)
    ensures
        refusal(r) == device_refusal(context@, actual, expected),
{
    if actual == expected {
        Ok(())
    } else {
        Err(RustTorchError::DeviceMismatch { context: owned(context), expected, actual })
    }
}

/// Copies a shape.
pub fn copy_shape(shape: &[i64]) -> (r: Vec<i64>)
    ensures
        r@ == shape@,
{
    let mut out: Vec<i64> = Vec::new();
    let mut i: usize = 0;
    while i < shape.len()
        invariant
            i <= shape@.len(),
            out@ == shape@.take(i as int),
        decreases shape@.len() - i,
    {
        out.push(shape[i]);
        assert(out@ =~= shape@.take(i as int + 1));
        i += 1;
    }
    assert(out@ =~= shape@);
    out
}

/// Whether two shapes are equal.
pub fn same_shape(a: &[i64], b: &[i64]) -> (r: bool)
    ensures
        r == (a@ == b@),
{
    if a.len() != b.len() {
        return false;
    }
    let mut i: usize = 0;
    while i < a.len()
        invariant
            a@.len() == b@.len(),
            i <= a@.len(),
            forall|j: int| 0 <= j < i ==> a@[j] == b@[j],
        decreases a@.len() - i,
    {
        if a[i] != b[i] {
            return false;
        }
        i += 1;
    }
    assert(a@ =~= b@);
    true
}

/// The size `i` places from the end, if there is one.
pub open spec fn size_from_end(shape: Seq<i64>, i: int) -> Option<i64> {
    if i < shape.len() {
        Some(shape[shape.len() - 1 - i])
    } else {
        None
    }
}

/// The size to which two sizes are stretched: one of them is missing, or one, or they are
/// equal.
pub open spec fn common_size(a: Option<i64>, b: Option<i64>) -> Option<i64> {
    match (a, b) {
        (None, y) => y,
        (x, None) => x,
        (Some(x), Some(y)) => if x == 1 {
            Some(y)
        } else if y == 1 || x == y {
            Some(x)
        } else {
            None
        },
    }
}

/// A shape to which two shapes are stretched, aligned at their ends.
pub open spec fn is_broadcast(a: Seq<i64>, b: Seq<i64>, r: Seq<i64>) -> bool {
    &&& r.len() == (if a.len() >= b.len() {
        a.len()
    } else {
        b.len()
    })
    &&& forall|i: int|
        0 <= i < r.len() ==> #[trigger] common_size(size_from_end(a, i), size_from_end(b, i)) == size_from_end(r, i)
}

/// Two shapes are stretched to no more than one shape.
pub proof fn broadcast_is_unique(a: Seq<i64>, b: Seq<i64>, r: Seq<i64>, s: Seq<i64>)
    requires
        is_broadcast(a, b, r),
        is_broadcast(a, b, s),
    ensures
        r == s,
{
    assert forall|k: int| 0 <= k < r.len() implies r[k] == s[k] by {
        let i = r.len() - 1 - k;
        assert(common_size(size_from_end(a, i), size_from_end(b, i)) == size_from_end(r, i));
        assert(common_size(size_from_end(a, i), size_from_end(b, i)) == size_from_end(s, i));
    }
    assert(r =~= s);
}

/// Two shapes are stretched to the same shape in either order.
pub proof fn broadcast_is_commutative(a: Seq<i64>, b: Seq<i64>, r: Seq<i64>)
    ensures
        is_broadcast(a, b, r) == is_broadcast(b, a, r),
{
    if is_broadcast(a, b, r) {
        assert forall|i: int| 0 <= i < r.len() implies #[trigger] common_size(size_from_end(b, i), size_from_end(a, i))
            == size_from_end(r, i) by {
            assert(common_size(size_from_end(a, i), size_from_end(b, i)) == size_from_end(r, i));
        }
    }
    if is_broadcast(b, a, r) {
        assert forall|i: int| 0 <= i < r.len() implies #[trigger] common_size(size_from_end(a, i), size_from_end(b, i))
            == size_from_end(r, i) by {
            assert(common_size(size_from_end(b, i), size_from_end(a, i)) == size_from_end(r, i));
        }
    }
}

fn from_end(shape: &[i64], i: usize) -> (r: Option<i64>)
    ensures
        r == size_from_end(shape@, i as int),
{
    if i < shape.len() {
        Some(shape[shape.len() - 1 - i])
    } else {
        None
    }
}

fn common(a: Option<i64>, b: Option<i64>) -> (r: Option<i64>)
    ensures
        r == common_size(a, b),
{
    match (a, b) {
        (None, y) => y,
        (x, None) => x,
        (Some(x), Some(y)) => if x == 1 {
            Some(y)
        } else if y == 1 || x == y {
            Some(x)
        } else {
            None
        },
    }
}

/// The shape to which two shapes are stretched, aligned at their ends, if there is one.
pub fn broadcast_shape(a: &[i64], b: &[i64]) -> (r: Option<Vec<i64>>)
    ensures
        match r {
            Some(shape) => is_broadcast(a@, b@, shape@),
            None => forall|shape: Seq<i64>| !(#[trigger] is_broadcast(a@, b@, shape)),
        },
{
    let rank = if a.len() >= b.len() {
        a.len()
    } else {
        b.len()
    };
    let mut reversed: Vec<i64> = Vec::new();
    let mut i: usize = 0;
    while i < rank
        invariant
            i <= rank,
            rank == (if a@.len() >= b@.len() {
                a@.len()
            } else {
                b@.len()
            }),
            reversed@.len() == i,
            forall|k: int|
                0 <= k < i ==> common_size(size_from_end(a@, k), size_from_end(b@, k)) == Some(#[trigger] reversed@[k]),
        decreases rank - i,
    {
        match common(from_end(a, i), from_end(b, i)) {
            Some(size) => {
                reversed.push(size);
            },
            None => {
                assert forall|shape: Seq<i64>| !(#[trigger] is_broadcast(a@, b@, shape)) by {
                    if is_broadcast(a@, b@, shape) {
                        assert(common_size(size_from_end(a@, i as int), size_from_end(b@, i as int)) == size_from_end(
                            shape,
                            i as int,
                        ));
                    }
                }
                return None;
            },
        }
        i += 1;
    }
    let mut shape: Vec<i64> = Vec::new();
    while shape.len() < rank
        invariant
            reversed@.len() == rank,
            shape@.len() <= rank,
            forall|k: int| 0 <= k < shape@.len() ==> #[trigger] shape@[k] == reversed@[rank - 1 - k],
        decreases rank - shape@.len(),
    {
        shape.push(reversed[rank - 1 - shape.len()]);
    }
    assert forall|k: int| 0 <= k < shape@.len() implies #[trigger] common_size(size_from_end(a@, k), size_from_end(b@, k))
        == size_from_end(shape@, k) by {
        assert(shape@[rank - 1 - k] == reversed@[k]);
    }
    Some(shape)
}

/// The number of elements of the first `n` dimensions, if none is negative and no product on
/// the way is too large to count.
pub open spec fn counted(shape: Seq<i64>, n: int) -> Option<int>
    decreases n,
{
    if n <= 0 {
        Some(1)
    } else {
        match counted(shape, n - 1) {
            None => None,
            Some(count) => if shape[n - 1] < 0 || shape[n - 1] > usize::MAX || count * shape[n - 1] > usize::MAX {
                None
            } else {
                Some(count * shape[n - 1])
            },
        }
    }
}

proof fn counted_fails(shape: Seq<i64>, n: int, m: int)
    requires
        0 <= n <= m,
        counted(shape, n) is None,
    ensures
        counted(shape, m) is None,
    decreases m - n,
{
    if n < m {
        counted_fails(shape, n + 1, m);
    }
}

/// Counts the elements of a shape.
pub fn element_count(shape: &[i64]) -> (r: Option<usize>)
    ensures
        match (r, counted(shape@, shape@.len() as int)) {
            (Some(a), Some(b)) => a == b,
            (None, None) => true,
            _ => false,
        },
{
    let mut total: usize = 1;
    let mut i: usize = 0;
    while i < shape.len()
        invariant
            i <= shape@.len(),
            counted(shape@, i as int) == Some(total as int),
        decreases shape@.len() - i,
    {
        let d: i64 = shape[i];
        proof {
            if counted(shape@, i + 1) is None {
                counted_fails(shape@, i + 1, shape@.len() as int);
            }
        }
        if d < 0 || d as u64 > usize::MAX as u64 {
            return None;
        }
        match total.checked_mul(d as usize) {
            None => {
                return None;
            },
            Some(next) => {
                total = next;
            },
        }
        i += 1;
    }
    Some(total)
}

} // verus!
