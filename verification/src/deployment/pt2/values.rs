//! Tensor metadata and symbolic sizes.
use super::super::types::{dimensions_view, Dimension, DimensionView, ValueSpec, ValueSpecView};
use super::json::{
    array, as_array, as_dtype, as_fixed, as_integer, as_string, dtype, entry, field, fixed, get, integer, items_view, present, string,
    Json, JsonView,
};
use crate::error::{deployment_error, deployment_text, outcome, refusal, ErrorView, Result};
use crate::text::{begins, characters, collect, ends, ends_with, join, same, starts_with};
use vstd::prelude::*;

verus! {

/// The name inside a serialized symbol, if the expression is one.
pub open spec fn symbol_inside(expression: Seq<char>) -> Option<Seq<char>> {
    let prefix = "Symbol('"@;
    let positive = "', positive=True, integer=True)"@;
    let plain = "', integer=True)"@;
    let rest = expression.skip(prefix.len() as int);
    if !begins(expression, prefix) {
        None
    } else if ends(rest, positive) {
        Some(rest.take(rest.len() - positive.len()))
    } else if ends(rest, plain) {
        Some(rest.take(rest.len() - plain.len()))
    } else {
        None
    }
}

/// A character of a symbol name.
pub open spec fn is_symbol_char(c: char) -> bool {
    ('a' <= c && c <= 'z') || ('A' <= c && c <= 'Z') || ('0' <= c && c <= '9') || c == '_'
}

/// The name of a symbolic size. Only a single symbol is understood, never an expression.
pub open spec fn symbol_of(v: JsonView) -> core::result::Result<Seq<char>, ErrorView> {
    match as_string(field(field(v, "as_expr"@), "expr_str"@)) {
        Err(e) => Err(e),
        Ok(expression) => match symbol_inside(expression) {
            None => Err(deployment_text("unsupported symbolic expression "@ + expression)),
            Some(name) => if name.len() == 0 || exists|i: int| 0 <= i < name.len() && !is_symbol_char(#[trigger] name[i]) {
                Err(deployment_text("invalid symbolic dimension name"@))
            } else {
                Ok(name)
            },
        },
    }
}

/// Why the metadata of a tensor is refused, if it is: it has to be strided and on the
/// processor.
pub open spec fn layout_refusal(meta: JsonView) -> Option<ErrorView> {
    match as_integer(field(meta, "layout"@)) {
        Err(e) => Some(e),
        Ok(n) => if n != 7 {
            Some(deployment_text("PT2 supports strided CPU metadata only; move a loaded model explicitly"@))
        } else {
            match as_string(field(field(meta, "device"@), "type"@)) {
                Err(e) => Some(e),
                Ok(device) => if device != "cpu"@ {
                    Some(deployment_text("PT2 supports strided CPU metadata only; move a loaded model explicitly"@))
                } else {
                    None
                },
            }
        },
    }
}

/// A bound of a range that may be left open.
pub open spec fn bound_of(range: JsonView, key: Seq<char>) -> core::result::Result<Option<i64>, ErrorView> {
    if field(range, key) is Null {
        Ok(None)
    } else {
        match as_integer(field(range, key)) {
            Err(e) => Err(e),
            Ok(n) => Ok(Some(n)),
        }
    }
}

/// A dimension: a size, or a symbol with the range that is declared for it.
pub open spec fn dimension_of(v: JsonView, ranges: JsonView) -> core::result::Result<DimensionView, ErrorView> {
    if entry(v, "as_int"@) is Some {
        match as_fixed(v) {
            Err(e) => Err(e),
            Ok(n) => Ok(DimensionView::Known(n)),
        }
    } else {
        match symbol_of(v) {
            Err(e) => Err(e),
            Ok(name) => match bound_of(field(ranges, name), "min_val"@) {
                Err(e) => Err(e),
                Ok(min) => match bound_of(field(ranges, name), "max_val"@) {
                    Err(e) => Err(e),
                    Ok(max) => Ok(
                        DimensionView::Symbol {
                            name,
                            min: match min {
                                Some(n) => n,
                                None => 0,
                            },
                            max,
                        },
                    ),
                },
            },
        }
    }
}

/// The first `n` dimensions of a list.
pub open spec fn dimension_items(
    items: Seq<JsonView>,
    ranges: JsonView,
    n: int,
) -> core::result::Result<Seq<DimensionView>, ErrorView>
    decreases n,
{
    if n <= 0 {
        Ok(Seq::empty())
    } else {
        match dimension_items(items, ranges, n - 1) {
            Err(e) => Err(e),
            Ok(list) => match dimension_of(items[n - 1], ranges) {
                Err(e) => Err(e),
                Ok(d) => Ok(list.push(d)),
            },
        }
    }
}

/// The spec of an input.
pub open spec fn input_spec_of(
    name: Seq<char>,
    meta: JsonView,
    ranges: JsonView,
) -> core::result::Result<ValueSpecView, ErrorView> {
    if layout_refusal(meta) is Some {
        Err(layout_refusal(meta)->0)
    } else {
        match as_array(field(meta, "sizes"@)) {
            Err(e) => Err(e),
            Ok(items) => match dimension_items(items, ranges, items.len() as int) {
                Err(e) => Err(e),
                Ok(dimensions) => match as_dtype(field(meta, "dtype"@)) {
                    Err(e) => Err(e),
                    Ok(dtype) => Ok(ValueSpecView { name, dtype, dimensions }),
                },
            },
        }
    }
}

fn inside(expression: &str) -> (r: Option<String>)
    ensures
        match (r, symbol_inside(expression@)) {
            (Some(name), Some(expected)) => name@ == expected,
            (None, None) => true,
            _ => false,
        },
{
    if !starts_with(expression, "Symbol('") {
        return None;
    }
    let all = characters(expression);
    let prefix = characters("Symbol('");
    let rest = collect(&all, prefix.len(), all.len());
    assert(rest@ =~= expression@.skip("Symbol('"@.len() as int));
    let inner = characters(rest.as_str());
    if ends_with(rest.as_str(), "', positive=True, integer=True)") {
        let suffix = characters("', positive=True, integer=True)");
        let name = collect(&inner, 0, inner.len() - suffix.len());
        assert(name@ =~= rest@.take(rest@.len() - "', positive=True, integer=True)"@.len()));
        return Some(name);
    }
    if ends_with(rest.as_str(), "', integer=True)") {
        let suffix = characters("', integer=True)");
        let name = collect(&inner, 0, inner.len() - suffix.len());
        assert(name@ =~= rest@.take(rest@.len() - "', integer=True)"@.len()));
        return Some(name);
    }
    None
}

fn is_symbol_name(name: &str) -> (r: bool)
    ensures
        r == !(name@.len() == 0 || exists|i: int| 0 <= i < name@.len() && !is_symbol_char(#[trigger] name@[i])),
{
    let all = characters(name);
    if all.len() == 0 {
        return false;
    }
    let mut i: usize = 0;
    while i < all.len()
        invariant
            all@ == name@,
            i <= all@.len(),
            forall|j: int| 0 <= j < i ==> is_symbol_char(#[trigger] all@[j]),
        decreases all@.len() - i,
    {
        let c = all[i];
        if !(('a' <= c && c <= 'z') || ('A' <= c && c <= 'Z') || ('0' <= c && c <= '9') || c == '_') {
            assert(!is_symbol_char(name@[i as int]));
            return false;
        }
        i += 1;
    }
    true
}

/// Reads the name of a symbolic size.
pub fn symbol(v: Option<&Json>) -> (r: Result<String>)
    ensures
        outcome(r) == symbol_of(present(v)),
{
    let expression = match string(get(get(v, "as_expr"), "expr_str")) {
        Ok(expression) => expression,
        Err(e) => {
            return Err(e);
        },
    };
    match inside(expression) {
        None => {
            let message = join("unsupported symbolic expression ", expression);
            Err(deployment_error(message.as_str()))
        },
        Some(name) => {
            if is_symbol_name(name.as_str()) {
                Ok(name)
            } else {
                Err(deployment_error("invalid symbolic dimension name"))
            }
        },
    }
}

/// Checks the layout and the device of tensor metadata.
pub fn meta_layout(meta: Option<&Json>) -> (r: Result<()>)
    ensures
        refusal(r) == layout_refusal(present(meta)),
{
    match integer(get(meta, "layout")) {
        Err(e) => {
            return Err(e);
        },
        Ok(n) => {
            if n != 7 {
                return Err(
                    deployment_error("PT2 supports strided CPU metadata only; move a loaded model explicitly"),
                );
            }
        },
    }
    match string(get(get(meta, "device"), "type")) {
        Err(e) => Err(e),
        Ok(device) => {
            if same(device, "cpu") {
                Ok(())
            } else {
                Err(deployment_error("PT2 supports strided CPU metadata only; move a loaded model explicitly"))
            }
        },
    }
}

fn read_bound(range: Option<&Json>, key: &str) -> (r: Result<Option<i64>>)
    ensures
        match (r, bound_of(present(range), key@)) {
            (Ok(found), Ok(expected)) => found == expected,
            (Err(e), Err(expected)) => e@ == expected,
            _ => false,
        },
{
    let value = get(range, key);
    match value {
        None => Ok(None),
        Some(Json::Null) => Ok(None),
        _ => {
            match integer(value) {
                Ok(n) => Ok(Some(n)),
                Err(e) => Err(e),
            }
        },
    }
}

fn read_dimension(v: &Json, ranges: Option<&Json>) -> (r: Result<Dimension>)
    ensures
        outcome(r) == dimension_of(v@, present(ranges)),
{
    if get(Some(v), "as_int").is_some() {
        return match fixed(Some(v)) {
            Ok(n) => Ok(Dimension::Known(n)),
            Err(e) => Err(e),
        };
    }
    let name = match symbol(Some(v)) {
        Ok(name) => name,
        Err(e) => {
            return Err(e);
        },
    };
    let range = get(ranges, name.as_str());
    let min: i64 = match read_bound(range, "min_val") {
        Ok(Some(n)) => n,
        Ok(None) => 0,
        Err(e) => {
            return Err(e);
        },
    };
    match read_bound(range, "max_val") {
        Ok(max) => Ok(Dimension::Symbol { name, min, max }),
        Err(e) => Err(e),
    }
}

proof fn dimension_items_fail(items: Seq<JsonView>, ranges: JsonView, k: int, n: int)
    requires
        0 <= k <= n,
        dimension_items(items, ranges, k) is Err,
    ensures
        dimension_items(items, ranges, n) == dimension_items(items, ranges, k),
    decreases n - k,
{
    if k < n {
        dimension_items_fail(items, ranges, k, n - 1);
    }
}

/// Reads the spec of an input.
#[verifier::loop_isolation(false)]
pub fn input_spec(name: &str, meta: Option<&Json>, ranges: Option<&Json>) -> (r: Result<ValueSpec>)
    ensures
        outcome(r) == input_spec_of(name@, present(meta), present(ranges)),
{
    if let Err(e) = meta_layout(meta) {
        return Err(e);
    }
    let items = match array(get(meta, "sizes")) {
        Ok(items) => items,
        Err(e) => {
            return Err(e);
        },
    };
    let ghost view = items_view(items@);
    let ghost bounds = present(ranges);
    let ghost n = items@.len() as int;
    let mut dimensions: Vec<Dimension> = Vec::new();
    let mut i: usize = 0;
    assert(dimensions_view(dimensions@) =~= Seq::empty());
    while i < items.len()
        invariant
            i <= n,
            dimension_items(view, bounds, i as int) == Ok::<Seq<DimensionView>, ErrorView>(dimensions_view(dimensions@)),
        decreases n - i,
    {
        proof {
            assert(view[i as int] == items@[i as int]@);
            if dimension_items(view, bounds, i + 1) is Err {
                dimension_items_fail(view, bounds, i + 1, n);
            }
        }
        match read_dimension(&items[i], ranges) {
            Ok(d) => {
                let ghost before = dimensions_view(dimensions@);
                dimensions.push(d);
                assert(dimensions_view(dimensions@) =~= before.push(d@));
            },
            Err(e) => {
                return Err(e);
            },
        }
        i += 1;
    }
    match dtype(get(meta, "dtype")) {
        Ok(dtype) => Ok(ValueSpec::new(name, dtype, dimensions)),
        Err(e) => Err(e),
    }
}

} // verus!
