//! How names are mapped, and what the report of a load says.
use crate::interop::{
    entry_checks, entry_refusal, extension_refusal, load_refusal, matched, renamed, report_of, unmatched, MappingView,
};
use crate::error::{first_at_none, ErrorView};
use crate::names::{ascending_is_distinct, listing_exists, listing_in};
use crate::tensor::TensorSpecView;
use crate::text::begins;
use vstd::prelude::*;

verus! {

/// A name goes where its exact entry says; without one, where the longest entry that it begins with says,
/// which takes the place of that beginning; and without any, nowhere else.
pub proof fn names_go_where_the_mapping_says(mapping: MappingView, source: Seq<char>, prefix: Seq<char>)
    requires
        !mapping.exact.dom().contains(source),
    ensures
        (forall|p: Seq<char>| #[trigger] mapping.prefixes.dom().contains(p) ==> !begins(source, p)) ==> mapping.destination(source) == source,
        (mapping.prefixes.dom().contains(prefix) && begins(source, prefix) && forall|p: Seq<char>| #[trigger]
            mapping.prefixes.dom().contains(p) && begins(source, p) ==> p.len() <= prefix.len()) ==> mapping.destination(source)
            == mapping.prefixes[prefix] + source.skip(prefix.len() as int),
{
    if mapping.prefixes.dom().contains(prefix) && begins(source, prefix) && (forall|p: Seq<char>| #[trigger]
        mapping.prefixes.dom().contains(p) && begins(source, p) ==> p.len() <= prefix.len()) {
        assert(mapping.is_longest(source, prefix));
        crate::interop::longest_prefix_wins(mapping, source, prefix);
    }
}

/// A text begins with another one exactly if it is that one followed by something.
pub proof fn texts_begin_with_their_prefixes(text: Seq<char>, prefix: Seq<char>, rest: Seq<char>)
    ensures
        begins(prefix + rest, prefix),
        begins(text, prefix) ==> text == prefix + text.skip(prefix.len() as int),
{
    assert((prefix + rest).take(prefix.len() as int) =~= prefix);
    if begins(text, prefix) {
        assert(text =~= prefix + text.skip(prefix.len() as int));
    }
}

/// An entry of a file is accepted exactly if no entry before it goes to the same name and, where the
/// model has that name, it has the shape and element type of the model's tensor.
pub proof fn entries_fit_the_model(
    mapping: MappingView,
    model: Map<Seq<char>, TensorSpecView>,
    names: Seq<Seq<char>>,
    specs: Seq<TensorSpecView>,
    i: int,
)
    ensures
        entry_refusal(mapping, model, names, specs, i) is None <==> {
            let name = mapping.destination(names[i]);
            &&& forall|j: int| 0 <= j < i ==> mapping.destination(#[trigger] names[j]) != name
            &&& model.dom().contains(name) ==> specs[i].shape == model[name].shape && specs[i].kind == model[name].kind
        },
        entry_refusal(mapping, model, names, specs, i) matches Some(e) ==> {
            let name = mapping.destination(names[i]);
            match e {
                ErrorView::DuplicateMappedKey(n) => n == name,
                ErrorView::ShapeMismatch { name: n, expected, actual } => n == name && expected == model[name].shape && actual
                    == specs[i].shape,
                ErrorView::DtypeMismatch { name: n, expected, actual } => n == name && expected == model[name].kind && actual
                    == specs[i].kind,
                _ => false,
            }
        },
{
}

proof fn unmatched_are_listed(mapping: MappingView, model: Map<Seq<char>, TensorSpecView>, names: Seq<Seq<char>>, n: int)
    requires
        0 <= n <= names.len(),
    ensures
        forall|i: int|
            0 <= i < n && !model.dom().contains(mapping.destination(#[trigger] names[i])) ==> unmatched(mapping, model, names, n).contains(
                names[i],
            ),
        forall|k: int|
            0 <= k < unmatched(mapping, model, names, n).len() ==> is_outside(
                mapping,
                model,
                names,
                n,
                #[trigger] unmatched(mapping, model, names, n)[k],
            ),
    decreases n,
{
    if n > 0 {
        unmatched_are_listed(mapping, model, names, n - 1);
        let before = unmatched(mapping, model, names, n - 1);
        let all = unmatched(mapping, model, names, n);
        assert forall|i: int| 0 <= i < n && !model.dom().contains(mapping.destination(#[trigger] names[i])) implies all.contains(
            names[i],
        ) by {
            if i < n - 1 {
                let k = choose|k: int| 0 <= k < before.len() && before[k] == names[i];
                assert(all[k] == names[i]);
            } else {
                assert(all[before.len() as int] == names[i]);
            }
        }
        assert forall|k: int| 0 <= k < all.len() implies is_outside(mapping, model, names, n, #[trigger] all[k]) by {
            if k < before.len() {
                assert(is_outside(mapping, model, names, n - 1, before[k]));
                let i = choose|i: int|
                    0 <= i < n - 1 && #[trigger] names[i] == before[k] && !model.dom().contains(mapping.destination(names[i]));
                assert(names[i] == all[k]);
            } else {
                assert(names[n - 1] == all[k]);
            }
        }
    }
}

/// A name of the file goes to a name that the model does not have.
pub open spec fn is_outside(mapping: MappingView, model: Map<Seq<char>, TensorSpecView>, names: Seq<Seq<char>>, n: int, name: Seq<char>) -> bool {
    exists|i: int| 0 <= i < n && #[trigger] names[i] == name && !model.dom().contains(mapping.destination(names[i]))
}

proof fn renamed_are_listed(mapping: MappingView, names: Seq<Seq<char>>, n: int, i: int)
    requires
        0 <= i < n <= names.len(),
        mapping.destination(names[i]) != names[i],
    ensures
        renamed(mapping, names, n).contains((names[i], mapping.destination(names[i]))),
    decreases n,
{
    let before = renamed(mapping, names, n - 1);
    let all = renamed(mapping, names, n);
    let pair = (names[i], mapping.destination(names[i]));
    if i < n - 1 {
        renamed_are_listed(mapping, names, n - 1, i);
        let k = choose|k: int| 0 <= k < before.len() && before[k] == pair;
        assert(all[k] == pair);
    } else {
        assert(all[before.len() as int] == pair);
    }
}

proof fn renamed_go_elsewhere(mapping: MappingView, names: Seq<Seq<char>>, n: int)
    requires
        0 <= n <= names.len(),
    ensures
        forall|k: int|
            0 <= k < renamed(mapping, names, n).len() ==> {
                let pair = #[trigger] renamed(mapping, names, n)[k];
                pair.1 == mapping.destination(pair.0) && pair.1 != pair.0 && names.contains(pair.0)
            },
    decreases n,
{
    if n > 0 {
        renamed_go_elsewhere(mapping, names, n - 1);
        let before = renamed(mapping, names, n - 1);
        let all = renamed(mapping, names, n);
        assert forall|k: int| 0 <= k < all.len() implies ({
            let pair = #[trigger] all[k];
            pair.1 == mapping.destination(pair.0) && pair.1 != pair.0 && names.contains(pair.0)
        }) by {
            if k < before.len() {
                assert(all[k] == before[k]);
            } else {
                assert(names.contains(names[n - 1]));
            }
        }
    }
}

/// The report lists as loaded each name of the model that some entry goes to, as missing each other name
/// of the model, as unexpected each entry that goes to no name of the model, and as remapped each entry
/// that goes to another name than its own, with that name.
pub proof fn reports_tell_what_was_loaded(
    mapping: MappingView,
    model: Map<Seq<char>, TensorSpecView>,
    names: Seq<Seq<char>>,
    name: Seq<char>,
    i: int,
)
    requires
        model.dom().finite(),
        0 <= i < names.len(),
    ensures
        ({
            let report = report_of(mapping, model, names);
            let reached = exists|j: int| 0 <= j < names.len() && mapping.destination(#[trigger] names[j]) == name;
            &&& report.loaded.contains(name) <==> model.dom().contains(name) && reached
            &&& report.missing.contains(name) <==> model.dom().contains(name) && !reached
            &&& report.loaded.no_duplicates() && report.missing.no_duplicates()
            &&& report.unexpected.contains(names[i]) <==> !model.dom().contains(mapping.destination(names[i]))
            &&& report.remapped.contains((names[i], mapping.destination(names[i]))) <==> mapping.destination(names[i]) != names[i]
        }),
{
    let n = names.len() as int;
    let report = report_of(mapping, model, names);
    let found = matched(mapping, model, names, n);
    assert(found =~= model.dom().intersect(found));
    listing_exists(found);
    let gap = model.dom().difference(found);
    listing_exists(gap);
    ascending_is_distinct(listing_in(found));
    ascending_is_distinct(listing_in(gap));
    assert(found.contains(name) <==> model.dom().contains(name) && exists|j: int|
        0 <= j < names.len() && mapping.destination(#[trigger] names[j]) == name);
    unmatched_are_listed(mapping, model, names, n);
    if report.unexpected.contains(names[i]) {
        let k = choose|k: int| 0 <= k < report.unexpected.len() && report.unexpected[k] == names[i];
        assert(is_outside(mapping, model, names, n, report.unexpected[k]));
    }
    renamed_go_elsewhere(mapping, names, n);
    if mapping.destination(names[i]) != names[i] {
        renamed_are_listed(mapping, names, n, i);
    }
    if report.remapped.contains((names[i], mapping.destination(names[i]))) {
        let k = choose|k: int| 0 <= k < report.remapped.len() && report.remapped[k] == (names[i], mapping.destination(names[i]));
        assert(renamed(mapping, names, n)[k].1 != renamed(mapping, names, n)[k].0);
    }
}

/// A load is refused exactly if an entry is, or if it is strict and a name of the model is not reached or
/// an entry goes to no name of the model.
pub proof fn strict_loads_need_every_name(
    mapping: MappingView,
    model: Map<Seq<char>, TensorSpecView>,
    names: Seq<Seq<char>>,
    specs: Seq<TensorSpecView>,
    strict: bool,
)
    requires
        names.len() == specs.len(),
    ensures
        load_refusal(mapping, model, names, specs, strict) is None <==> {
            &&& forall|i: int| 0 <= i < names.len() ==> (#[trigger] entry_refusal(mapping, model, names, specs, i)) is None
            &&& strict ==> report_of(mapping, model, names).missing.len() == 0 && report_of(mapping, model, names).unexpected.len() == 0
        },
{
    let checks = entry_checks(mapping, model, names, specs);
    first_at_none(0, names.len() as int, checks);
    if forall|i: int| 0 <= i < names.len() ==> (#[trigger] checks(i)) is None {
        assert forall|i: int| 0 <= i < names.len() implies (#[trigger] entry_refusal(mapping, model, names, specs, i)) is None by {
            assert(checks(i) is None);
        }
    }
}

/// Weights are read from files that end in `.safetensors`, and from no others.
pub proof fn weights_come_from_safetensors_files(path: Seq<char>, extension: Option<Seq<char>>)
    ensures
        extension_refusal(path, extension) is None <==> extension is Some && extension->0 == "safetensors"@,
        extension_refusal(path, extension) matches Some(e) ==> e is UnsupportedModelFile && e->path == path,
{
}

} // verus!
