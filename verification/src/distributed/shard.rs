//! How a parameter is divided among ranks, and how its parts become a whole again.
use super::payload::Dtype;
use super::{invalid, refused};
use crate::error::{first_at, refusal, ErrorView, Result};
use crate::kind::{Device, Kind};
use crate::names::ascending;
use crate::tensor::{copy_shape, counted, element_count, same_shape};
use crate::text::{before, before_irreflexive, before_transitive, byte_length, characters, order, owned, same, Order};
use vstd::prelude::*;

verus! {

/// A whole parameter: its name, shape and element type.
#[derive(Debug, Clone, PartialEq, Eq)]
pub struct ParameterSpec {
    /// The name.
    pub name: String,
    /// The size of each dimension.
    pub shape: Vec<i64>,
    /// The element type.
    pub dtype: Dtype,
}

/// The content of a [`ParameterSpec`].
#[verifier::ext_equal]
pub struct SpecView {
    pub name: Seq<char>,
    pub shape: Seq<i64>,
    pub dtype: Dtype,
}

impl View for ParameterSpec {
    type V = SpecView;

    open spec fn view(&self) -> SpecView {
        SpecView { name: self.name@, shape: self.shape@, dtype: self.dtype }
    }
}

/// The contents of parameter specifications.
pub open spec fn spec_views(list: Seq<ParameterSpec>) -> Seq<SpecView> {
    Seq::new(list.len(), |i: int| list[i]@)
}

/// The names of parameters.
pub open spec fn spec_names(list: Seq<SpecView>) -> Seq<Seq<char>> {
    Seq::new(list.len(), |i: int| list[i].name)
}

/// Some part of a name between dots is empty.
pub open spec fn has_empty_part(name: Seq<char>) -> bool {
    ||| name.len() == 0
    ||| name[0] == '.'
    ||| name[name.len() - 1] == '.'
    ||| exists|i: int| 0 <= i < name.len() - 1 && #[trigger] name[i] == '.' && name[i + 1] == '.'
}

/// Why a parameter name is refused, if it is.
pub open spec fn name_refusal(name: Seq<char>) -> Option<ErrorView> {
    if vstd::utf8::encode_utf8(name).len() > 4096 || has_empty_part(name) || name.contains('\0') {
        Some(refused("parameter names require nonempty dot-separated components"@))
    } else {
        None
    }
}

/// Checks a parameter name.
pub fn valid_name(name: &str) -> (r: Result<()>)
    ensures
        refusal(r) == name_refusal(name@),
{
    let all = characters(name);
    let mut good = byte_length(name) <= 4096 && all.len() > 0;
    if good && (all[0] == '.' || all[all.len() - 1] == '.') {
        good = false;
    }
    let mut i: usize = 0;
    let mut broken = false;
    while i < all.len()
        invariant
            all@ == name@,
            i <= all@.len(),
            broken == (exists|j: int|
                0 <= j < i && (#[trigger] name@[j] == '\0' || (j + 1 < name@.len() && name@[j] == '.' && name@[j + 1] == '.'))),
        decreases all@.len() - i,
    {
        let c = all[i];
        if c == '\0' {
            broken = true;
        }
        if i + 1 < all.len() && c == '.' && all[i + 1] == '.' {
            broken = true;
        }
        assert(all@[i as int] == name@[i as int]);
        i += 1;
    }
    proof {
        if broken {
            let j = choose|j: int|
                0 <= j < name@.len() && (#[trigger] name@[j] == '\0' || (j + 1 < name@.len() && name@[j] == '.' && name@[j + 1] == '.'));
            if name@[j] == '\0' {
                assert(name@.contains('\0'));
            } else {
                assert(has_empty_part(name@));
            }
        } else {
            assert(!name@.contains('\0')) by {
                if name@.contains('\0') {
                    let j = name@.index_of('\0');
                    assert(name@[j] == '\0');
                }
            }
        }
    }
    if !good || broken {
        return Err(invalid("parameter names require nonempty dot-separated components"));
    }
    Ok(())
}

/// The number of elements of a parameter, or why it is refused.
pub open spec fn elements_of(shape: Seq<i64>) -> core::result::Result<int, ErrorView> {
    if shape.len() > 64 {
        Err(refused("parameter rank exceeds 64"@))
    } else {
        match counted(shape, shape.len() as int) {
            Some(n) => if n <= i64::MAX {
                Ok(n)
            } else {
                Err(refused("parameter dimensions are negative or overflow"@))
            },
            None => Err(refused("parameter dimensions are negative or overflow"@)),
        }
    }
}

/// Counts the elements of a parameter.
pub fn elements(shape: &[i64]) -> (r: Result<usize>)
    ensures
        match (r, elements_of(shape@)) {
            (Ok(a), Ok(b)) => a == b,
            (Err(a), Err(b)) => a@ == b,
            _ => false,
        },
{
    if shape.len() > 64 {
        return Err(invalid("parameter rank exceeds 64"));
    }
    match element_count(shape) {
        Some(n) => {
            if n as u64 > i64::MAX as u64 {
                return Err(invalid("parameter dimensions are negative or overflow"));
            }
            Ok(n)
        },
        None => Err(invalid("parameter dimensions are negative or overflow")),
    }
}

/// Why a parameter is refused, if it is.
pub open spec fn spec_refusal(spec: SpecView) -> Option<ErrorView> {
    match name_refusal(spec.name) {
        Some(e) => Some(e),
        None => if spec.dtype == Dtype::Int64 {
            Some(refused("sharded parameters must be nonempty CPU Float/Double tensors"@))
        } else {
            match elements_of(spec.shape) {
                Err(e) => Some(e),
                Ok(n) => if n == 0 {
                    Some(refused("sharded parameters must be nonempty CPU Float/Double tensors"@))
                } else {
                    None
                },
            }
        },
    }
}

/// The checks of parameters.
pub open spec fn spec_checks(list: Seq<SpecView>) -> spec_fn(int) -> Option<ErrorView> {
    |i: int| spec_refusal(list[i])
}

/// Why a list of parameters is refused, if it is.
pub open spec fn specs_refusal(list: Seq<SpecView>) -> Option<ErrorView> {
    if list.len() == 0 || !ascending(spec_names(list)) {
        Some(refused("sharded parameter list must be nonempty with unique sorted names"@))
    } else {
        first_at(0, list.len() as int, spec_checks(list))
    }
}

/// Checks a list of parameters.
pub fn validate_specs(list: &Vec<ParameterSpec>) -> (r: Result<()>)
    ensures
        refusal(r) == specs_refusal(spec_views(list@)),
{
    let ghost views = spec_views(list@);
    let ghost names = spec_names(views);
    if list.len() == 0 {
        return Err(invalid("sharded parameter list must be nonempty with unique sorted names"));
    }
    let mut i: usize = 1;
    while i < list.len()
        invariant
            views == spec_views(list@),
            names == spec_names(views),
            1 <= i <= list@.len(),
            forall|a: int, b: int| 0 <= a < b < i ==> before(#[trigger] names[a], #[trigger] names[b]),
        decreases list@.len() - i,
    {
        assert(names[i - 1] == list@[i - 1].name@);
        assert(names[i as int] == list@[i as int].name@);
        match order(list[i - 1].name.as_str(), list[i].name.as_str()) {
            Order::Before => {
                assert forall|a: int| 0 <= a < i implies before(#[trigger] names[a], names[i as int]) by {
                    if a < i - 1 {
                        before_transitive(names[a], names[i - 1], names[i as int]);
                    }
                }
            },
            _ => {
                proof {
                    before_irreflexive(names[i - 1]);
                }
                assert(!before(names[i - 1], names[i as int]));
                return Err(invalid("sharded parameter list must be nonempty with unique sorted names"));
            },
        }
        i += 1;
    }
    let ghost check = spec_checks(views);
    let ghost n = views.len() as int;
    let mut k: usize = 0;
    while k < list.len()
        invariant
            views == spec_views(list@),
            views.len() > 0,
            ascending(spec_names(views)),
            check == spec_checks(views),
            n == list@.len(),
            k <= n,
            first_at(0, n, check) == first_at(k as int, n, check),
        decreases n - k,
    {
        let spec = &list[k];
        assert(check(k as int) == spec_refusal(spec@));
        if let Err(e) = valid_name(spec.name.as_str()) {
            return Err(e);
        }
        if spec.dtype == Dtype::Int64 {
            return Err(invalid("sharded parameters must be nonempty CPU Float/Double tensors"));
        }
        match elements(spec.shape.as_slice()) {
            Err(e) => {
                return Err(e);
            },
            Ok(count) => {
                if count == 0 {
                    return Err(invalid("sharded parameters must be nonempty CPU Float/Double tensors"));
                }
            },
        }
        k += 1;
    }
    Ok(())
}

/// The elements that each rank holds of `count`: the last ranks may hold padding.
pub open spec fn chunk_of(count: int, world: int) -> int {
    (count + world - 1) / world
}

/// A chunk is as small as it can be for the chunks of all ranks to cover everything.
pub proof fn chunks_cover(count: int, world: int)
    requires
        0 <= count,
        0 < world,
    ensures
        0 <= chunk_of(count, world) <= count,
        chunk_of(count, world) * world >= count,
        chunk_of(count, world) * world < count + world,
        count > 0 ==> chunk_of(count, world) > 0,
{
    let chunk = chunk_of(count, world);
    let total = count + world - 1;
    vstd::arithmetic::div_mod::lemma_fundamental_div_mod(total, world);
    vstd::arithmetic::mul::lemma_mul_is_commutative(world, chunk);
    assert(0 <= total % world < world);
    assert(chunk * world == total - total % world);
    assert(0 <= chunk <= count) by (nonlinear_arith)
        requires
            chunk * world >= count,
            chunk * world < count + world,
            0 <= count,
            0 < world,
    ;
    if count > 0 {
        assert(chunk > 0) by (nonlinear_arith)
            requires
                chunk * world >= count,
                0 < count,
                0 < world,
        ;
    }
}

/// The number of elements that each rank holds.
pub fn chunk_size(count: usize, world: usize) -> (r: usize)
    requires
        world > 0,
    ensures
        r == chunk_of(count as int, world as int),
{
    let whole: usize = count / world;
    proof {
        vstd::arithmetic::div_mod::lemma_fundamental_div_mod(count as int, world as int);
        vstd::arithmetic::mul::lemma_mul_is_commutative(world as int, whole as int);
        chunks_cover(count as int, world as int);
        let chunk = chunk_of(count as int, world as int);
        let rest = count as int % world as int;
        vstd::arithmetic::div_mod::lemma_mod_bound(count as int, world as int);
        assert(whole * world + rest == count);
        assert(rest == 0 ==> chunk == whole) by (nonlinear_arith)
            requires
                whole * world + rest == count,
                chunk * world >= count,
                chunk * world < count + world,
                0 < world,
        ;
        assert(rest > 0 ==> chunk == whole + 1) by (nonlinear_arith)
            requires
                whole * world + rest == count,
                chunk * world >= count,
                chunk * world < count + world,
                rest < world,
                0 < world,
        ;
    }
    if count % world == 0 {
        whole
    } else {
        whole + 1
    }
}

/// The bytes that a rank holds of a parameter: chunk after chunk, with zeros behind the end.
pub open spec fn shard_of(bytes: Seq<u8>, size: int, rank: int) -> Seq<u8> {
    Seq::new(
        size as nat,
        |i: int|
            if rank * size + i < bytes.len() {
                bytes[rank * size + i]
            } else {
                0
            },
    )
}

/// Cuts out the part of a rank. `size` is the length of each part.
pub fn cut(bytes: &Vec<u8>, size: usize, rank: usize) -> (r: Vec<u8>)
    ensures
        r@ == shard_of(bytes@, size as int, rank as int),
{
    let mut out: Vec<u8> = Vec::new();
    let start = match rank.checked_mul(size) {
        Some(start) => if start < bytes.len() {
            start
        } else {
            bytes.len()
        },
        None => bytes.len(),
    };
    proof {
        assert(bytes.len() == bytes@.len());
        assert(rank * size >= 0) by (nonlinear_arith)
            requires
                rank >= 0,
                size >= 0,
        ;
    }
    while out.len() < size
        invariant
            start <= bytes@.len(),
            start == rank * size || (start == bytes@.len() && rank * size >= bytes@.len()),
            0 <= rank * size,
            out@.len() <= size,
            bytes.len() == bytes@.len(),
            forall|i: int| 0 <= i < out@.len() ==> #[trigger] out@[i] == shard_of(bytes@, size as int, rank as int)[i],
        decreases size - out@.len(),
    {
        if out.len() < bytes.len() - start {
            out.push(bytes[start + out.len()]);
        } else {
            out.push(0);
        }
    }
    assert(out@ =~= shard_of(bytes@, size as int, rank as int));
    out
}

/// The first `length` bytes of equally long parts in rank order.
pub open spec fn joined(parts: Seq<Seq<u8>>, size: int, length: int) -> Seq<u8> {
    Seq::new(length as nat, |i: int| parts[i / size][i % size])
}

/// The parts that all ranks hold of a parameter make up the whole again.
pub proof fn parts_join_again(bytes: Seq<u8>, size: int, world: int)
    requires
        0 < size,
        0 < world,
        size * world >= bytes.len(),
    ensures
        joined(Seq::new(world as nat, |r: int| shard_of(bytes, size, r)), size, bytes.len() as int) == bytes,
{
    let parts = Seq::new(world as nat, |r: int| shard_of(bytes, size, r));
    assert forall|i: int| 0 <= i < bytes.len() implies #[trigger] joined(parts, size, bytes.len() as int)[i] == bytes[i] by {
        vstd::arithmetic::div_mod::lemma_fundamental_div_mod(i, size);
        vstd::arithmetic::mul::lemma_mul_is_commutative(size, i / size);
        vstd::arithmetic::div_mod::lemma_mod_bound(i, size);
        vstd::arithmetic::div_mod::lemma_div_pos_is_pos(i, size);
        let rank = i / size;
        assert(rank < world) by (nonlinear_arith)
            requires
                rank * size <= i,
                i < size * world,
                0 < size,
        ;
        assert(parts[rank] == shard_of(bytes, size, rank));
        assert(rank * size + i % size == i);
    }
    assert(joined(parts, size, bytes.len() as int) =~= bytes);
}

/// Whether two lists of parameters are equal.
pub fn same_specs(a: &Vec<ParameterSpec>, b: &Vec<ParameterSpec>) -> (r: bool)
    ensures
        r == (spec_views(a@) == spec_views(b@)),
{
    let ghost left = spec_views(a@);
    let ghost right = spec_views(b@);
    if a.len() != b.len() {
        assert(left.len() != right.len());
        return false;
    }
    let mut i: usize = 0;
    while i < a.len()
        invariant
            left == spec_views(a@),
            right == spec_views(b@),
            a@.len() == b@.len(),
            i <= a@.len(),
            forall|j: int| 0 <= j < i ==> #[trigger] left[j] == right[j],
        decreases a@.len() - i,
    {
        assert(left[i as int] == a@[i as int]@ && right[i as int] == b@[i as int]@);
        if !same(a[i].name.as_str(), b[i].name.as_str()) || !same_shape(a[i].shape.as_slice(), b[i].shape.as_slice())
            || a[i].dtype != b[i].dtype {
            assert(left[i as int] != right[i as int]);
            return false;
        }
        i += 1;
    }
    assert(left =~= right);
    true
}

/// Parameters of their own with the same content.
pub fn copy_specs(list: &Vec<ParameterSpec>) -> (r: Vec<ParameterSpec>)
    ensures
        spec_views(r@) == spec_views(list@),
{
    let mut out: Vec<ParameterSpec> = Vec::new();
    let mut i: usize = 0;
    while i < list.len()
        invariant
            i <= list@.len(),
            out@.len() == i,
            forall|j: int| 0 <= j < i ==> (#[trigger] out@[j])@ == list@[j]@,
        decreases list@.len() - i,
    {
        out.push(
            ParameterSpec {
                name: owned(list[i].name.as_str()),
                shape: copy_shape(list[i].shape.as_slice()),
                dtype: list[i].dtype,
            },
        );
        i += 1;
    }
    assert(spec_views(out@) =~= spec_views(list@));
    out
}

/// The first element of the part of a rank.
pub open spec fn part_start(count: int, rank: int, world: int) -> int {
    let start = rank * chunk_of(count, world);
    if start < count {
        start
    } else {
        count
    }
}

/// Finds the part of a rank: where it begins, and how many elements it has before the padding
/// that fills its chunk.
pub fn part_bounds(count: usize, rank: usize, world: usize) -> (r: Result<(usize, usize)>)
    requires
        world > 0,
    ensures
        ({
            let chunk = chunk_of(count as int, world as int);
            let start = part_start(count as int, rank as int, world as int);
            match r {
                Ok(found) => rank * chunk <= usize::MAX && found.0 == start && found.1 == (if chunk < count - start {
                    chunk
                } else {
                    count - start
                }),
                Err(e) => rank * chunk > usize::MAX && e@ == refused("shard offset overflow"@),
            }
        }),
{
    let chunk: usize = chunk_size(count, world);
    let start: usize = match rank.checked_mul(chunk) {
        Some(offset) => if offset < count {
            offset
        } else {
            count
        },
        None => {
            return Err(invalid("shard offset overflow"));
        },
    };
    let length: usize = if chunk < count - start {
        chunk
    } else {
        count - start
    };
    Ok((start, length))
}

/// The parts of the ranks follow each other without a gap, from the first element to the last.
pub proof fn parts_meet(count: int, rank: int, world: int)
    requires
        0 <= count,
        0 <= rank < world,
    ensures
        part_start(count, 0, world) == 0,
        part_start(count, world, world) == count,
        part_start(count, rank + 1, world) - part_start(count, rank, world) == (if chunk_of(count, world) < count - part_start(
            count,
            rank,
            world,
        ) {
            chunk_of(count, world)
        } else {
            count - part_start(count, rank, world)
        }),
{
    chunks_cover(count, world);
    let chunk = chunk_of(count, world);
    vstd::arithmetic::mul::lemma_mul_is_commutative(world, chunk);
    vstd::arithmetic::mul::lemma_mul_is_distributive_add_other_way(chunk, rank, 1);
    assert(0 * chunk == 0);
}

/// What the library reads of a loss.
#[derive(Debug, Clone, Copy, PartialEq, Eq, Structural)]
pub struct Loss {
    /// Whether it holds a value.
    pub defined: bool,
    /// Where it is stored.
    pub device: Device,
    /// The number of elements.
    pub elements: usize,
    /// Whether gradients flow from it.
    pub requires_grad: bool,
    /// The element type.
    pub kind: Kind,
}

/// A loss can be trained on.
pub open spec fn is_scalar(loss: Loss) -> bool {
    &&& loss.defined
    &&& loss.device == Device::Cpu
    &&& loss.elements == 1
    &&& loss.requires_grad
    &&& loss.kind == Kind::Float || loss.kind == Kind::Double
}

/// Checks that a loss can be trained on.
pub fn scalar(loss: Loss) -> (r: Result<()>)
    ensures
        refusal(r) == (if is_scalar(loss) {
            None
        } else {
            Some(refused("training loss must be a tracked CPU Float/Double scalar"@))
        }),
{
    if !loss.defined || loss.device != Device::Cpu || loss.elements != 1 || !loss.requires_grad || (loss.kind != Kind::Float
        && loss.kind != Kind::Double) {
        return Err(invalid("training loss must be a tracked CPU Float/Double scalar"));
    }
    Ok(())
}

/// Checks that every parameter takes part in a loss. `defined` tells of each whether it has a
/// gradient.
pub fn check_participation(defined: &Vec<bool>) -> (r: Result<()>)
    ensures
        refusal(r) == (if forall|i: int| 0 <= i < defined@.len() ==> #[trigger] defined@[i] {
            None
        } else {
            Some(refused("every sharded parameter must participate in the loss"@))
        }),
{
    let mut i: usize = 0;
    while i < defined.len()
        invariant
            i <= defined@.len(),
            forall|j: int| 0 <= j < i ==> #[trigger] defined@[j],
        decreases defined@.len() - i,
    {
        if !defined[i] {
            assert(!defined@[i as int]);
            return Err(invalid("every sharded parameter must participate in the loss"));
        }
        i += 1;
    }
    Ok(())
}

} // verus!
