//! The guards that runtime tensors have to meet before a program reads them.
use super::types::{value_specs_view, Dimension, DimensionView, ValueSpec, ValueSpecView};
use crate::error::{deployment_error, deployment_text, first_at, first_at_none, first_at_step, refusal, ErrorView, Result};
use crate::kind::Device;
use crate::names::NameMap;
use crate::tensor::{MetaView, TensorMeta};
use crate::text::join;
use vstd::prelude::*;

verus! {

/// The contents of a list of tensor facts.
pub open spec fn metas_view(metas: Seq<TensorMeta>) -> Seq<MetaView> {
    metas.map_values(|m: TensorMeta| m@)
}

/// The symbol at an axis of a spec, if there is one.
pub open spec fn symbol_at(spec: ValueSpecView, k: int) -> Option<Seq<char>> {
    match spec.dimensions[k] {
        DimensionView::Symbol { name, .. } => Some(name),
        DimensionView::Known(_) => None,
    }
}

/// Axis `(i, k)` is read before axis `(j, l)`.
pub open spec fn reads_before(i: int, k: int, j: int, l: int) -> bool {
    i < j || (i == j && k < l)
}

/// A symbol stood for another size at an axis that is read before `(i, k)`.
pub open spec fn conflicts(specs: Seq<ValueSpecView>, metas: Seq<MetaView>, i: int, k: int, name: Seq<char>, size: i64) -> bool {
    exists|j: int, l: int|
        #![trigger specs[j].dimensions[l]]
        0 <= j < specs.len() && 0 <= l < specs[j].dimensions.len() && reads_before(j, l, i, k) && symbol_at(specs[j], l)
            == Some(name) && metas[j].shape[l] != size
}

/// Why axis `k` of tensor `i` is refused, if it is: a fixed size differs, or a symbol is out of
/// its range or stood for another size before.
pub open spec fn axis_refusal(specs: Seq<ValueSpecView>, metas: Seq<MetaView>, i: int, k: int) -> Option<ErrorView> {
    let actual = metas[i].shape[k];
    match specs[i].dimensions[k] {
        DimensionView::Known(n) => if n != actual {
            Some(deployment_text(specs[i].name + " fixed shape guard failed"@))
        } else {
            None
        },
        DimensionView::Symbol { name, min, max } => if actual < min || (max matches Some(m) && actual > m) || conflicts(
            specs,
            metas,
            i,
            k,
            name,
            actual,
        ) {
            Some(deployment_text(specs[i].name + " symbol "@ + name + " equality/range guard failed"@))
        } else {
            None
        },
    }
}

/// The check of each axis of tensor `i`.
pub open spec fn axis_checks(specs: Seq<ValueSpecView>, metas: Seq<MetaView>, i: int) -> spec_fn(int) -> Option<ErrorView> {
    |k: int| axis_refusal(specs, metas, i, k)
}

/// Why tensor `i` is refused, if it is.
pub open spec fn tensor_refusal(specs: Seq<ValueSpecView>, metas: Seq<MetaView>, device: Device, i: int) -> Option<ErrorView> {
    let spec = specs[i];
    let meta = metas[i];
    if meta.device != device || meta.kind != spec.dtype.element() || meta.shape.len() != spec.dimensions.len() {
        Some(deployment_text(spec.name + " dtype, rank or device guard failed"@))
    } else {
        first_at(0, spec.dimensions.len() as int, axis_checks(specs, metas, i))
    }
}

/// The check of each tensor.
pub open spec fn tensor_checks(specs: Seq<ValueSpecView>, metas: Seq<MetaView>, device: Device) -> spec_fn(int) -> Option<ErrorView> {
    |i: int| tensor_refusal(specs, metas, device, i)
}

/// Why tensors are refused as the values of the given specs, if they are.
pub open spec fn guard_refusal(specs: Seq<ValueSpecView>, metas: Seq<MetaView>, device: Device) -> Option<ErrorView> {
    if specs.len() != metas.len() {
        Some(deployment_text("input count mismatch"@))
    } else {
        first_at(0, specs.len() as int, tensor_checks(specs, metas, device))
    }
}

/// Tensors that pass the guards agree on every symbol: wherever a name occurs it stands for
/// the same size.
pub proof fn guarded_symbols_agree(
    specs: Seq<ValueSpecView>,
    metas: Seq<MetaView>,
    device: Device,
    i: int,
    k: int,
    j: int,
    l: int,
)
    requires
        guard_refusal(specs, metas, device) is None,
        0 <= i < specs.len(),
        0 <= j < specs.len(),
        0 <= k < specs[i].dimensions.len(),
        0 <= l < specs[j].dimensions.len(),
        symbol_at(specs[i], k) is Some,
        symbol_at(specs[i], k) == symbol_at(specs[j], l),
    ensures
        metas[i].shape[k] == metas[j].shape[l],
{
    let checks = tensor_checks(specs, metas, device);
    first_at_none(0, specs.len() as int, checks);
    assert(checks(i) is None && checks(j) is None);
    first_at_none(0, specs[i].dimensions.len() as int, axis_checks(specs, metas, i));
    first_at_none(0, specs[j].dimensions.len() as int, axis_checks(specs, metas, j));
    assert(axis_checks(specs, metas, i)(k) is None);
    assert(axis_checks(specs, metas, j)(l) is None);
    let name = symbol_at(specs[i], k)->0;
    assert(!conflicts(specs, metas, i, k, name, metas[i].shape[k]));
    assert(!conflicts(specs, metas, j, l, name, metas[j].shape[l]));
    if metas[i].shape[k] != metas[j].shape[l] {
        assert(specs[i].dimensions[k] == specs[i].dimensions[k]);
        assert(specs[j].dimensions[l] == specs[j].dimensions[l]);
        assert(reads_before(i, k, j, l) || reads_before(j, l, i, k));
    }
}

/// The bindings hold, for every symbol read before `(i, k)`, the one size it stood for.
spec fn bindings_hold(symbols: Map<Seq<char>, i64>, specs: Seq<ValueSpecView>, metas: Seq<MetaView>, i: int, k: int) -> bool {
    &&& forall|j: int, l: int|
        #![trigger specs[j].dimensions[l]]
        0 <= j < specs.len() && 0 <= l < specs[j].dimensions.len() && reads_before(j, l, i, k) && symbol_at(specs[j], l) is Some
            ==> symbols.dom().contains(symbol_at(specs[j], l)->0) && symbols[symbol_at(specs[j], l)->0] == metas[j].shape[l]
    &&& forall|name: Seq<char>| #[trigger]
        symbols.dom().contains(name) ==> exists|j: int, l: int|
            #![trigger specs[j].dimensions[l]]
            0 <= j < specs.len() && 0 <= l < specs[j].dimensions.len() && reads_before(j, l, i, k) && symbol_at(specs[j], l)
                == Some(name)
}

fn check_axis(
    spec: &ValueSpec,
    meta: &TensorMeta,
    k: usize,
    symbols: &mut NameMap<i64>,
    specs: Ghost<Seq<ValueSpecView>>,
    metas: Ghost<Seq<MetaView>>,
    i: Ghost<int>,
) -> (r: Result<()>)
    requires
        old(symbols).wf(),
        0 <= i@ < specs@.len(),
        specs@[i@] == spec@,
        metas@[i@] == meta@,
        k < spec.dimensions@.len(),
        spec.dimensions@.len() == meta.shape@.len(),
        bindings_hold(old(symbols)@, specs@, metas@, i@, k as int),
    ensures
        final(symbols).wf(),
        refusal(r) == axis_refusal(specs@, metas@, i@, k as int),
        r is Ok ==> bindings_hold(final(symbols)@, specs@, metas@, i@, k + 1),
{
    let ghost start = symbols@;
    assert(specs@[i@].dimensions[k as int] == spec.dimensions@[k as int]@);
    let actual: i64 = meta.shape[k];
    match &spec.dimensions[k] {
        Dimension::Known(n) => {
            if *n != actual {
                let message = join(spec.name.as_str(), " fixed shape guard failed");
                return Err(deployment_error(message.as_str()));
            }
            assert(bindings_hold(start, specs@, metas@, i@, k + 1));
            Ok(())
        },
        Dimension::Symbol { name, min, max } => {
            let above = match max {
                Some(m) => actual > *m,
                None => false,
            };
            let mut refused = actual < *min || above;
            if !refused {
                let prior = symbols.insert(name.clone(), actual);
                if let Some(size) = prior {
                    refused = size != actual;
                }
                proof {
                    if start.dom().contains(name@) {
                        let (j, l) = choose|j: int, l: int|
                            #![trigger specs@[j].dimensions[l]]
                            0 <= j < specs@.len() && 0 <= l < specs@[j].dimensions.len() && reads_before(j, l, i@, k as int)
                                && symbol_at(specs@[j], l) == Some(name@);
                        assert(specs@[j].dimensions[l] == specs@[j].dimensions[l]);
                    }
                }
                assert(refused == conflicts(specs@, metas@, i@, k as int, name@, actual));
            }
            if refused {
                let mut message = join(spec.name.as_str(), " symbol ");
                message.append(name.as_str());
                message.append(" equality/range guard failed");
                return Err(deployment_error(message.as_str()));
            }
            proof {
                let now = symbols@;
                assert(specs@[i@].dimensions[k as int] == specs@[i@].dimensions[k as int]);
                assert forall|j: int, l: int|
                    #![trigger specs@[j].dimensions[l]]
                    0 <= j < specs@.len() && 0 <= l < specs@[j].dimensions.len() && reads_before(j, l, i@, k + 1) && symbol_at(
                        specs@[j],
                        l,
                    ) is Some implies now.dom().contains(symbol_at(specs@[j], l)->0) && now[symbol_at(specs@[j], l)->0]
                    == metas@[j].shape[l] by {
                    if !(j == i@ && l == k) {
                        assert(reads_before(j, l, i@, k as int));
                    }
                }
                assert forall|other: Seq<char>| #[trigger] now.dom().contains(other) implies exists|j: int, l: int|
                    #![trigger specs@[j].dimensions[l]]
                    0 <= j < specs@.len() && 0 <= l < specs@[j].dimensions.len() && reads_before(j, l, i@, k + 1)
                        && symbol_at(specs@[j], l) == Some(other) by {
                    if other == name@ {
                        assert(symbol_at(specs@[i@], k as int) == Some(other));
                    } else {
                        assert(start.dom().contains(other));
                        let (j, l) = choose|j: int, l: int|
                            #![trigger specs@[j].dimensions[l]]
                            0 <= j < specs@.len() && 0 <= l < specs@[j].dimensions.len() && reads_before(j, l, i@, k as int)
                                && symbol_at(specs@[j], l) == Some(other);
                        assert(specs@[j].dimensions[l] == specs@[j].dimensions[l]);
                        assert(reads_before(j, l, i@, k + 1));
                    }
                }
            }
            Ok(())
        },
    }
}

/// Checks tensors against the specs of the values that they are to be.
#[verifier::loop_isolation(false)]
pub fn check_inputs(specs: &[ValueSpec], metas: &[TensorMeta], device: Device) -> (r: Result<()>)
    ensures
        refusal(r) == guard_refusal(value_specs_view(specs@), metas_view(metas@), device),
{
    let ghost views = value_specs_view(specs@);
    let ghost facts = metas_view(metas@);
    let ghost n = specs@.len() as int;
    let ghost checks = tensor_checks(views, facts, device);
    if specs.len() != metas.len() {
        return Err(deployment_error("input count mismatch"));
    }
    let mut symbols: NameMap<i64> = NameMap::new();
    let mut i: usize = 0;
    while i < specs.len()
        invariant
            views == value_specs_view(specs@),
            facts == metas_view(metas@),
            n == specs@.len() == metas@.len(),
            checks == tensor_checks(views, facts, device),
            i <= n,
            symbols.wf(),
            bindings_hold(symbols@, views, facts, i as int, 0),
            guard_refusal(views, facts, device) == first_at(0, n, checks),
            first_at(0, n, checks) == first_at(i as int, n, checks),
        decreases n - i,
    {
        let spec = &specs[i];
        let meta = &metas[i];
        let ghost axes = axis_checks(views, facts, i as int);
        let ghost rank = spec.dimensions@.len() as int;
        proof {
            first_at_step(i as int, n, checks);
            assert(views[i as int] == spec@);
            assert(facts[i as int] == meta@);
            assert(checks(i as int) == tensor_refusal(views, facts, device, i as int));
        }
        if meta.device != device || meta.kind != spec.dtype.kind() || meta.shape.len() != spec.dimensions.len() {
            let message = join(spec.name.as_str(), " dtype, rank or device guard failed");
            return Err(deployment_error(message.as_str()));
        }
        let mut k: usize = 0;
        while k < spec.dimensions.len()
            invariant
                i < n,
                n == views.len(),
                views[i as int] == spec@,
                facts[i as int] == meta@,
                rank == spec.dimensions@.len() == meta.shape@.len(),
                axes == axis_checks(views, facts, i as int),
                k <= rank,
                symbols.wf(),
                bindings_hold(symbols@, views, facts, i as int, k as int),
                first_at(0, rank, axes) == first_at(k as int, rank, axes),
            decreases rank - k,
        {
            proof {
                first_at_step(k as int, rank, axes);
            }
            if let Err(e) = check_axis(spec, meta, k, &mut symbols, Ghost(views), Ghost(facts), Ghost(i as int)) {
                proof {
                    assert(axes(k as int) == Some(e@));
                    assert(checks(i as int) == Some(e@));
                }
                return Err(e);
            }
            k += 1;
        }
        proof {
            assert forall|j: int, l: int|
                #![trigger views[j].dimensions[l]]
                0 <= j < n && 0 <= l < views[j].dimensions.len() && reads_before(j, l, i + 1, 0) implies reads_before(
                j,
                l,
                i as int,
                rank,
            ) by {
                assert(views[i as int].dimensions.len() == rank);
            }
            assert(bindings_hold(symbols@, views, facts, i + 1, 0)) by {
                assert forall|name: Seq<char>| #[trigger] symbols@.dom().contains(name) implies exists|j: int, l: int|
                    #![trigger views[j].dimensions[l]]
                    0 <= j < views.len() && 0 <= l < views[j].dimensions.len() && reads_before(j, l, i + 1, 0) && symbol_at(
                        views[j],
                        l,
                    ) == Some(name) by {
                    let (j, l) = choose|j: int, l: int|
                        #![trigger views[j].dimensions[l]]
                        0 <= j < views.len() && 0 <= l < views[j].dimensions.len() && reads_before(j, l, i as int, rank)
                            && symbol_at(views[j], l) == Some(name);
                    assert(views[j].dimensions[l] == views[j].dimensions[l]);
                    assert(reads_before(j, l, i + 1, 0));
                }
            }
        }
        i += 1;
    }
    Ok(())
}

} // verus!
