//! JSON values, and how the format reads them.
use super::super::types::DType;
use crate::error::{deployment_error, deployment_text, ErrorView, Result};
use crate::text::{decimal, integer_text, join, same};
use vstd::prelude::*;

verus! {

/// The largest number of elements of an array, and of entries of an object, before another one
/// is refused.
pub const MAX_ITEMS: usize = 320000;

/// A JSON value. The entries of an object have different names and are listed in name order.
#[derive(Debug, PartialEq, Eq)]
pub enum Json {
    /// The value `null`.
    Null,
    /// A Boolean.
    Bool(bool),
    /// An integer.
    Int(i64),
    /// An integer beyond the signed range.
    Unsigned(u64),
    /// The bits of a double-precision number.
    Float(u64),
    /// A string.
    Text(String),
    /// An array.
    List(Vec<Json>),
    /// An object.
    Object(Vec<(String, Json)>),
}

/// The content of a [`Json`].
pub enum JsonView {
    Null,
    Bool(bool),
    Int(i64),
    Unsigned(u64),
    Float(u64),
    Text(Seq<char>),
    List(Seq<JsonView>),
    Object(Seq<(Seq<char>, JsonView)>),
}

/// The content of a value.
pub open spec fn json_view(json: Json) -> JsonView
    decreases json,
{
    match json {
        Json::Null => JsonView::Null,
        Json::Bool(b) => JsonView::Bool(b),
        Json::Int(n) => JsonView::Int(n),
        Json::Unsigned(n) => JsonView::Unsigned(n),
        Json::Float(bits) => JsonView::Float(bits),
        Json::Text(text) => JsonView::Text(text@),
        Json::List(items) => JsonView::List(
            Seq::new(
                items@.len(),
                |i: int|
                    if 0 <= i < items@.len() {
                        json_view(items@[i])
                    } else {
                        arbitrary()
                    },
            ),
        ),
        Json::Object(items) => JsonView::Object(
            Seq::new(
                items@.len(),
                |i: int|
                    if 0 <= i < items@.len() {
                        (items@[i].0@, json_view(items@[i].1))
                    } else {
                        arbitrary()
                    },
            ),
        ),
    }
}

impl View for Json {
    type V = JsonView;

    open spec fn view(&self) -> JsonView {
        json_view(*self)
    }
}

/// The contents of a list of values.
pub open spec fn items_view(items: Seq<Json>) -> Seq<JsonView> {
    items.map_values(|j: Json| j@)
}

/// The contents of the entries of an object.
pub open spec fn entries_view(entries: Seq<(String, Json)>) -> Seq<(Seq<char>, JsonView)> {
    entries.map_values(|e: (String, Json)| (e.0@, e.1@))
}

/// The view of an array.
pub proof fn list_parts(items: Vec<Json>)
    ensures
        Json::List(items)@ == JsonView::List(items_view(items@)),
{
    reveal_with_fuel(json_view, 2);
    assert(Json::List(items)@->List_0 =~= items_view(items@));
}

/// The view of an object.
pub proof fn object_parts(items: Vec<(String, Json)>)
    ensures
        Json::Object(items)@ == JsonView::Object(entries_view(items@)),
{
    reveal_with_fuel(json_view, 2);
    assert(Json::Object(items)@->Object_0 =~= entries_view(items@));
}

/// The value of the first entry with a name, from place `i` on.
pub open spec fn lookup(entries: Seq<(Seq<char>, JsonView)>, key: Seq<char>, i: int) -> Option<JsonView>
    decreases entries.len() - i,
{
    if i < 0 || i >= entries.len() {
        None
    } else if entries[i].0 == key {
        Some(entries[i].1)
    } else {
        lookup(entries, key, i + 1)
    }
}

/// The value of an entry, if the value is an object that has it.
pub open spec fn entry(v: JsonView, key: Seq<char>) -> Option<JsonView> {
    match v {
        JsonView::Object(entries) => lookup(entries, key, 0),
        _ => None,
    }
}

/// The value of an entry, or `null`.
pub open spec fn field(v: JsonView, key: Seq<char>) -> JsonView {
    match entry(v, key) {
        Some(value) => value,
        None => JsonView::Null,
    }
}

/// An element of an array, or `null`.
pub open spec fn element(v: JsonView, i: int) -> JsonView {
    match v {
        JsonView::List(items) => if 0 <= i < items.len() {
            items[i]
        } else {
            JsonView::Null
        },
        _ => JsonView::Null,
    }
}

/// A value that may be absent; an absent value is `null`.
pub open spec fn present(v: Option<&Json>) -> JsonView {
    match v {
        Some(json) => json@,
        None => JsonView::Null,
    }
}

/// The entries of an object.
pub open spec fn as_object(v: JsonView) -> core::result::Result<Seq<(Seq<char>, JsonView)>, ErrorView> {
    match v {
        JsonView::Object(entries) => Ok(entries),
        _ => Err(deployment_text("expected PT2 JSON object"@)),
    }
}

/// The elements of an array.
pub open spec fn as_array(v: JsonView) -> core::result::Result<Seq<JsonView>, ErrorView> {
    match v {
        JsonView::List(items) => Ok(items),
        _ => Err(deployment_text("expected PT2 JSON array"@)),
    }
}

/// A string.
pub open spec fn as_string(v: JsonView) -> core::result::Result<Seq<char>, ErrorView> {
    match v {
        JsonView::Text(text) => Ok(text),
        _ => Err(deployment_text("expected PT2 JSON string"@)),
    }
}

/// An integer.
pub open spec fn as_integer(v: JsonView) -> core::result::Result<i64, ErrorView> {
    match v {
        JsonView::Int(n) => Ok(n),
        _ => Err(deployment_text("expected PT2 JSON integer"@)),
    }
}

/// A Boolean.
pub open spec fn as_boolean(v: JsonView) -> core::result::Result<bool, ErrorView> {
    match v {
        JsonView::Bool(b) => Ok(b),
        _ => Err(deployment_text("expected PT2 JSON Boolean"@)),
    }
}

/// The name of a tensor argument.
pub open spec fn as_tensor_name(v: JsonView) -> core::result::Result<Seq<char>, ErrorView> {
    match as_object(v) {
        Err(e) => Err(e),
        Ok(entries) => if entries.len() != 1 {
            Err(deployment_text("unsupported PT2 argument union"@))
        } else {
            as_string(field(field(v, "as_tensor"@), "name"@))
        },
    }
}

/// A dtype by its code.
pub open spec fn as_dtype(v: JsonView) -> core::result::Result<DType, ErrorView> {
    match as_integer(v) {
        Err(e) => Err(e),
        Ok(n) => if n == 7 {
            Ok(DType::Float)
        } else if n == 8 {
            Ok(DType::Double)
        } else if n == 5 {
            Ok(DType::Int64)
        } else if n == 12 {
            Ok(DType::Bool)
        } else {
            Err(deployment_text("unsupported PT2 dtype "@ + decimal(n as int)))
        },
    }
}

/// The code of a dtype.
pub open spec fn scalar_code_of(dtype: DType) -> i64 {
    match dtype {
        DType::Float => 7,
        DType::Double => 8,
        DType::Int64 => 5,
        DType::Bool => 12,
    }
}

/// The code of a dtype stands for that dtype.
pub proof fn scalar_codes_survive(dtype: DType)
    ensures
        as_dtype(JsonView::Int(scalar_code_of(dtype))) == Ok::<DType, ErrorView>(dtype),
{
}

/// A size that is a number.
pub open spec fn as_fixed(v: JsonView) -> core::result::Result<i64, ErrorView> {
    match as_object(v) {
        Err(e) => Err(e),
        Ok(entries) => if entries.len() != 1 {
            Err(deployment_text("invalid PT2 dimension union"@))
        } else {
            as_integer(field(v, "as_int"@))
        },
    }
}

/// The first `n` sizes of a list.
pub open spec fn fixed_items(items: Seq<JsonView>, n: int) -> core::result::Result<Seq<i64>, ErrorView>
    decreases n,
{
    if n <= 0 {
        Ok(Seq::empty())
    } else {
        match fixed_items(items, n - 1) {
            Err(e) => Err(e),
            Ok(list) => match as_fixed(items[n - 1]) {
                Err(e) => Err(e),
                Ok(size) => Ok(list.push(size)),
            },
        }
    }
}

/// A list of sizes.
pub open spec fn as_fixed_list(v: JsonView) -> core::result::Result<Seq<i64>, ErrorView> {
    match as_array(v) {
        Err(e) => Err(e),
        Ok(items) => fixed_items(items, items.len() as int),
    }
}

/// The first `n` integers of a list.
pub open spec fn integer_items(items: Seq<JsonView>, n: int) -> core::result::Result<Seq<i64>, ErrorView>
    decreases n,
{
    if n <= 0 {
        Ok(Seq::empty())
    } else {
        match integer_items(items, n - 1) {
            Err(e) => Err(e),
            Ok(list) => match as_integer(items[n - 1]) {
                Err(e) => Err(e),
                Ok(value) => Ok(list.push(value)),
            },
        }
    }
}

/// The result of reading a value, as mathematical content.
pub open spec fn read_text(r: Result<&str>) -> core::result::Result<Seq<char>, ErrorView> {
    match r {
        Ok(text) => Ok(text@),
        Err(e) => Err(e@),
    }
}

/// The result of reading a plain value, as mathematical content.
pub open spec fn read_plain<T>(r: Result<T>) -> core::result::Result<T, ErrorView> {
    match r {
        Ok(value) => Ok(value),
        Err(e) => Err(e@),
    }
}

/// The result of reading numbers, as mathematical content.
pub open spec fn read_numbers(r: Result<Vec<i64>>) -> core::result::Result<Seq<i64>, ErrorView> {
    match r {
        Ok(list) => Ok(list@),
        Err(e) => Err(e@),
    }
}

/// Finds an entry.
#[verifier::loop_isolation(false)]
pub fn get<'a>(v: Option<&'a Json>, key: &str) -> (r: Option<&'a Json>)
    ensures
        match (r, entry(present(v), key@)) {
            (Some(found), Some(expected)) => found@ == expected,
            (None, None) => true,
            _ => false,
        },
        present(r) == field(present(v), key@),
{
    match v {
        Some(Json::Object(entries)) => {
            proof {
                object_parts(*entries);
            }
            let ghost view = entries_view(entries@);
            let mut i: usize = 0;
            while i < entries.len()
                invariant
                    view == entries_view(entries@),
                    i <= entries@.len(),
                    lookup(view, key@, 0) == lookup(view, key@, i as int),
                decreases entries@.len() - i,
            {
                let item = &entries[i];
                assert(view[i as int] == (item.0@, item.1@));
                if same(item.0.as_str(), key) {
                    return Some(&item.1);
                }
                i += 1;
            }
            None
        },
        _ => None,
    }
}

/// Finds an element.
pub fn item<'a>(v: Option<&'a Json>, i: usize) -> (r: Option<&'a Json>)
    ensures
        present(r) == element(present(v), i as int),
{
    match v {
        Some(Json::List(items)) => {
            proof {
                list_parts(*items);
            }
            if i < items.len() {
                assert(items_view(items@)[i as int] == items@[i as int]@);
                Some(&items[i])
            } else {
                None
            }
        },
        _ => None,
    }
}

/// Reads an object.
pub fn object<'a>(v: Option<&'a Json>) -> (r: Result<&'a Vec<(String, Json)>>)
    ensures
        match (r, as_object(present(v))) {
            (Ok(entries), Ok(expected)) => entries_view(entries@) == expected,
            (Err(e), Err(expected)) => e@ == expected,
            _ => false,
        },
{
    match v {
        Some(Json::Object(entries)) => {
            proof {
                object_parts(*entries);
            }
            Ok(entries)
        },
        _ => Err(deployment_error("expected PT2 JSON object")),
    }
}

/// Reads an array.
pub fn array<'a>(v: Option<&'a Json>) -> (r: Result<&'a Vec<Json>>)
    ensures
        match (r, as_array(present(v))) {
            (Ok(items), Ok(expected)) => items_view(items@) == expected,
            (Err(e), Err(expected)) => e@ == expected,
            _ => false,
        },
{
    match v {
        Some(Json::List(items)) => {
            proof {
                list_parts(*items);
            }
            Ok(items)
        },
        _ => Err(deployment_error("expected PT2 JSON array")),
    }
}

/// Reads a string.
pub fn string<'a>(v: Option<&'a Json>) -> (r: Result<&'a str>)
    ensures
        read_text(r) == as_string(present(v)),
{
    match v {
        Some(Json::Text(text)) => Ok(text.as_str()),
        _ => Err(deployment_error("expected PT2 JSON string")),
    }
}

/// Reads an integer.
pub fn integer(v: Option<&Json>) -> (r: Result<i64>)
    ensures
        read_plain(r) == as_integer(present(v)),
{
    match v {
        Some(Json::Int(n)) => Ok(*n),
        _ => Err(deployment_error("expected PT2 JSON integer")),
    }
}

/// Reads a Boolean.
pub fn boolean(v: Option<&Json>) -> (r: Result<bool>)
    ensures
        read_plain(r) == as_boolean(present(v)),
{
    match v {
        Some(Json::Bool(b)) => Ok(*b),
        _ => Err(deployment_error("expected PT2 JSON Boolean")),
    }
}

/// Reads the name of a tensor argument.
pub fn tensor_name<'a>(v: Option<&'a Json>) -> (r: Result<&'a str>)
    ensures
        read_text(r) == as_tensor_name(present(v)),
{
    match object(v) {
        Err(e) => Err(e),
        Ok(entries) => {
            if entries.len() != 1 {
                Err(deployment_error("unsupported PT2 argument union"))
            } else {
                string(get(get(v, "as_tensor"), "name"))
            }
        },
    }
}

/// Reads a dtype.
pub fn dtype(v: Option<&Json>) -> (r: Result<DType>)
    ensures
        read_plain(r) == as_dtype(present(v)),
{
    match integer(v) {
        Err(e) => Err(e),
        Ok(n) => {
            if n == 7 {
                Ok(DType::Float)
            } else if n == 8 {
                Ok(DType::Double)
            } else if n == 5 {
                Ok(DType::Int64)
            } else if n == 12 {
                Ok(DType::Bool)
            } else {
                let number = integer_text(n);
                let message = join("unsupported PT2 dtype ", number.as_str());
                Err(deployment_error(message.as_str()))
            }
        },
    }
}

/// Returns the code of a dtype.
pub fn scalar_code(dtype: DType) -> (r: i64)
    ensures
        r == scalar_code_of(dtype),
{
    match dtype {
        DType::Float => 7,
        DType::Double => 8,
        DType::Int64 => 5,
        DType::Bool => 12,
    }
}

/// Reads a size.
pub fn fixed(v: Option<&Json>) -> (r: Result<i64>)
    ensures
        read_plain(r) == as_fixed(present(v)),
{
    match object(v) {
        Err(e) => Err(e),
        Ok(entries) => {
            if entries.len() != 1 {
                Err(deployment_error("invalid PT2 dimension union"))
            } else {
                integer(get(v, "as_int"))
            }
        },
    }
}

proof fn fixed_items_fail(items: Seq<JsonView>, k: int, n: int)
    requires
        0 <= k <= n,
        fixed_items(items, k) is Err,
    ensures
        fixed_items(items, n) == fixed_items(items, k),
    decreases n - k,
{
    if k < n {
        fixed_items_fail(items, k, n - 1);
    }
}

/// Reads a list of sizes.
pub fn fixed_list(v: Option<&Json>) -> (r: Result<Vec<i64>>)
    ensures
        read_numbers(r) == as_fixed_list(present(v)),
{
    let items = match array(v) {
        Ok(items) => items,
        Err(e) => {
            return Err(e);
        },
    };
    let ghost view = items_view(items@);
    let ghost n = items@.len() as int;
    let mut out: Vec<i64> = Vec::new();
    let mut i: usize = 0;
    while i < items.len()
        invariant
            view == items_view(items@),
            n == items@.len(),
            as_array(present(v)) == Ok::<Seq<JsonView>, ErrorView>(view),
            i <= n,
            fixed_items(view, i as int) == Ok::<Seq<i64>, ErrorView>(out@),
        decreases n - i,
    {
        proof {
            assert(view[i as int] == items@[i as int]@);
            if fixed_items(view, i + 1) is Err {
                fixed_items_fail(view, i + 1, n);
            }
        }
        match fixed(Some(&items[i])) {
            Ok(size) => {
                out.push(size);
            },
            Err(e) => {
                return Err(e);
            },
        }
        i += 1;
    }
    Ok(out)
}

proof fn integer_items_fail(items: Seq<JsonView>, k: int, n: int)
    requires
        0 <= k <= n,
        integer_items(items, k) is Err,
    ensures
        integer_items(items, n) == integer_items(items, k),
    decreases n - k,
{
    if k < n {
        integer_items_fail(items, k, n - 1);
    }
}

/// Reads a list of integers.
pub fn integers(items: &Vec<Json>) -> (r: Result<Vec<i64>>)
    ensures
        read_numbers(r) == integer_items(items_view(items@), items@.len() as int),
{
    let ghost view = items_view(items@);
    let ghost n = items@.len() as int;
    let mut out: Vec<i64> = Vec::new();
    let mut i: usize = 0;
    while i < items.len()
        invariant
            view == items_view(items@),
            n == items@.len(),
            i <= n,
            integer_items(view, i as int) == Ok::<Seq<i64>, ErrorView>(out@),
        decreases n - i,
    {
        proof {
            assert(view[i as int] == items@[i as int]@);
            if integer_items(view, i + 1) is Err {
                integer_items_fail(view, i + 1, n);
            }
        }
        match integer(Some(&items[i])) {
            Ok(value) => {
                out.push(value);
            },
            Err(e) => {
                return Err(e);
            },
        }
        i += 1;
    }
    Ok(out)
}

/// Whether a value is an object whose only entry is the given integer.
pub open spec fn is_int_object(v: JsonView, key: Seq<char>, n: i64) -> bool {
    as_object(v) is Ok && as_object(v)->Ok_0.len() == 1 && entry(v, key) == Some(JsonView::Int(n))
}

/// Whether a value is an object whose only entry is the given integer.
pub fn only_int(v: Option<&Json>, key: &str, n: i64) -> (r: bool)
    ensures
        r == is_int_object(present(v), key@, n),
{
    match object(v) {
        Ok(entries) => {
            let found = match get(v, key) {
                Some(Json::Int(m)) => *m == n,
                _ => false,
            };
            entries.len() == 1 && found
        },
        Err(_) => false,
    }
}

/// Appends an element of an array that is being parsed. An array that is already longer than
/// the limit takes no more.
pub fn push_element(items: &mut Vec<Json>, value: Json) -> (r: core::result::Result<(), &'static str>)
    ensures
        match r {
            Ok(_) => old(items)@.len() <= MAX_ITEMS && final(items)@ == old(items)@.push(value),
            Err(message) => old(items)@.len() > MAX_ITEMS && message@ == "PT2 array exceeds limit"@ && final(items)@
                == old(items)@,
        },
{
    if items.len() > MAX_ITEMS {
        return Err("PT2 array exceeds limit");
    }
    items.push(value);
    Ok(())
}

/// The names of entries are in strictly ascending order.
pub open spec fn sorted_entries(entries: Seq<(String, Json)>) -> bool {
    forall|i: int, j: int|
        #![trigger entries[i], entries[j]]
        0 <= i < j < entries.len() ==> crate::text::before(entries[i].0@, entries[j].0@)
}

/// An entry has a name.
pub open spec fn names_entry(entries: Seq<(String, Json)>, key: Seq<char>) -> bool {
    exists|i: int| #![trigger entries[i]] 0 <= i < entries.len() && entries[i].0@ == key
}

/// Adds an entry of an object that is being parsed, in name order. An object that is already
/// larger than the limit takes no more, and no name occurs twice.
pub fn insert_entry(entries: &mut Vec<(String, Json)>, key: String, value: Json) -> (r: core::result::Result<(), &'static str>)
    requires
        sorted_entries(old(entries)@),
    ensures
        sorted_entries(final(entries)@),
        match r {
            Ok(_) => {
                &&& old(entries)@.len() <= MAX_ITEMS
                &&& !names_entry(old(entries)@, key@)
                &&& exists|at: int| 0 <= at <= old(entries)@.len() && final(entries)@ == #[trigger] old(entries)@.insert(at, (key, value))
            },
            Err(message) => {
                &&& old(entries)@.len() > MAX_ITEMS || names_entry(old(entries)@, key@)
                &&& message@ == "duplicate PT2 JSON key or excessive object"@
                &&& final(entries)@ == old(entries)@
            },
        },
{
    if entries.len() > MAX_ITEMS {
        return Err("duplicate PT2 JSON key or excessive object");
    }
    let ghost start = entries@;
    let mut at: usize = 0;
    while at < entries.len()
        invariant
            entries@ == start,
            sorted_entries(start),
            start == old(entries)@,
            at <= start.len(),
            start.len() <= MAX_ITEMS,
            forall|i: int| #![trigger start[i]] 0 <= i < at ==> crate::text::before(start[i].0@, key@),
        decreases start.len() - at,
    {
        match crate::text::order(entries[at].0.as_str(), key.as_str()) {
            crate::text::Order::Before => {
                at += 1;
            },
            crate::text::Order::Same => {
                assert(start[at as int].0@ == key@);
                return Err("duplicate PT2 JSON key or excessive object");
            },
            crate::text::Order::After => {
                proof {
                    crate::text::before_total(start[at as int].0@, key@);
                    insert_keeps_order(start, at as int, (key, value));
                }
                entries.insert(at, (key, value));
                assert(entries@ == start.insert(at as int, (key, value)));
                return Ok(());
            },
        }
    }
    proof {
        insert_keeps_order(start, at as int, (key, value));
    }
    entries.insert(at, (key, value));
    assert(entries@ == start.insert(at as int, (key, value)));
    Ok(())
}

proof fn insert_keeps_order(entries: Seq<(String, Json)>, at: int, new: (String, Json))
    requires
        sorted_entries(entries),
        0 <= at <= entries.len(),
        forall|i: int| #![trigger entries[i]] 0 <= i < at ==> crate::text::before(entries[i].0@, new.0@),
        at < entries.len() ==> crate::text::before(new.0@, entries[at].0@),
    ensures
        sorted_entries(entries.insert(at, new)),
        !names_entry(entries, new.0@),
{
    let all = entries.insert(at, new);
    assert forall|i: int| #![trigger entries[i]] at <= i < entries.len() implies crate::text::before(new.0@, entries[i].0@) by {
        if i > at {
            assert(crate::text::before(entries[at].0@, entries[i].0@));
            crate::text::before_transitive(new.0@, entries[at].0@, entries[i].0@);
        }
    }
    assert forall|i: int, j: int|
        #![trigger all[i], all[j]]
        0 <= i < j < all.len() implies crate::text::before(all[i].0@, all[j].0@) by {
        if j < at {
            assert(all[i] == entries[i] && all[j] == entries[j]);
        } else if j == at {
            assert(all[i] == entries[i]);
        } else if i < at {
            assert(all[i] == entries[i] && all[j] == entries[j - 1]);
        } else if i == at {
            assert(all[j] == entries[j - 1]);
        } else {
            assert(all[i] == entries[i - 1] && all[j] == entries[j - 1]);
        }
    }
    if names_entry(entries, new.0@) {
        let i = choose|i: int| #![trigger entries[i]] 0 <= i < entries.len() && entries[i].0@ == new.0@;
        crate::text::before_irreflexive(new.0@);
        assert(i < at || at <= i);
    }
}

} // verus!
