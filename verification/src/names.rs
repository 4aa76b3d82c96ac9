//! Maps keyed by names, held in name order.
use crate::text::{before, before_antisymmetric, before_transitive, order, Order};
use vstd::prelude::*;

verus! {

/// A map from names to values whose entries are listed in ascending name order.
#[derive(Debug, Clone, PartialEq)]
pub struct NameMap<V> {
    names: Vec<String>,
    values: Vec<V>,
}

/// The names are listed in strictly ascending order.
pub open spec fn ascending(names: Seq<Seq<char>>) -> bool {
    forall|i: int, j: int| 0 <= i < j < names.len() ==> before(#[trigger] names[i], #[trigger] names[j])
}

/// Names in strictly ascending order are pairwise different.
pub proof fn ascending_is_distinct(names: Seq<Seq<char>>)
    requires
        ascending(names),
    ensures
        names.no_duplicates(),
{
    assert forall|i: int, j: int| 0 <= i < names.len() && 0 <= j < names.len() && i != j implies names[i]
        != names[j] by {
        if i < j {
            before_antisymmetric(names[i], names[j]);
        } else {
            before_antisymmetric(names[j], names[i]);
        }
    }
}

/// Two ascending lists of the same names are equal: a set of names has one listing.
pub proof fn ascending_is_unique(a: Seq<Seq<char>>, b: Seq<Seq<char>>)
    requires
        ascending(a),
        ascending(b),
        forall|name: Seq<char>| a.contains(name) <==> b.contains(name),
    ensures
        a == b,
    decreases a.len(),
{
    if a.len() == 0 {
        if b.len() > 0 {
            assert(b.contains(b[0]));
        }
        assert(a =~= b);
    } else {
        assert(a.contains(a.last()));
        let j = b.index_of(a.last());
        assert(b[j] == a.last());
        assert(b.contains(b.last()));
        let i = a.index_of(b.last());
        assert(a[i] == b.last());
        if a.last() != b.last() {
            assert(before(b[j], b[b.len() - 1]));
            assert(before(a[i], a[a.len() - 1]));
            before_antisymmetric(a.last(), b.last());
        }
        ascending_is_distinct(a);
        ascending_is_distinct(b);
        let x = a.drop_last();
        let y = b.drop_last();
        assert forall|name: Seq<char>| x.contains(name) <==> y.contains(name) by {
            if x.contains(name) {
                let m = x.index_of(name);
                assert(a[m] == name);
                assert(a.contains(name));
                let k = b.index_of(name);
                assert(b[k] == name);
                assert(k < b.len() - 1);
                assert(y[k] == name);
            }
            if y.contains(name) {
                let m = y.index_of(name);
                assert(b[m] == name);
                assert(b.contains(name));
                let k = a.index_of(name);
                assert(a[k] == name);
                assert(k < a.len() - 1);
                assert(x[k] == name);
            }
        }
        ascending_is_unique(x, y);
        assert(a =~= x.push(a.last()));
        assert(b =~= y.push(b.last()));
    }
}

/// Names in ascending order.
pub open spec fn listing_in(names: Set<Seq<char>>) -> Seq<Seq<char>> {
    choose|list: Seq<Seq<char>>|
        #[trigger] ascending(list) && forall|name: Seq<char>| list.contains(name) <==> names.contains(name)
}

proof fn with_name(list: Seq<Seq<char>>, x: Seq<char>) -> (r: Seq<Seq<char>>)
    requires
        ascending(list),
        !list.contains(x),
    ensures
        ascending(r),
        forall|name: Seq<char>| #[trigger] r.contains(name) <==> list.contains(name) || name == x,
    decreases list.len(),
{
    if list.len() == 0 {
        let r = seq![x];
        assert(r[0] == x);
        r
    } else {
        let last = list.last();
        let rest = list.drop_last();
        assert(list[list.len() - 1] == last);
        crate::text::before_total(last, x);
        assert forall|name: Seq<char>| list.contains(name) <==> rest.contains(name) || name == last by {
            if list.contains(name) {
                let i = list.index_of(name);
                if i < rest.len() {
                    assert(rest[i] == name);
                }
            }
            if rest.contains(name) {
                let i = rest.index_of(name);
                assert(list[i] == name);
            }
        }
        if before(last, x) {
            let r = list.push(x);
            assert forall|i: int, j: int| 0 <= i < j < r.len() implies before(#[trigger] r[i], #[trigger] r[j]) by {
                if j < list.len() {
                    assert(before(list[i], list[j]));
                } else if i < list.len() - 1 {
                    assert(before(list[i], list[list.len() - 1]));
                    before_transitive(list[i], last, x);
                }
            }
            assert forall|name: Seq<char>| #[trigger] r.contains(name) <==> list.contains(name) || name == x by {
                if r.contains(name) {
                    let i = r.index_of(name);
                    if i < list.len() {
                        assert(list[i] == name);
                    }
                }
                if list.contains(name) {
                    let i = list.index_of(name);
                    assert(r[i] == name);
                }
                assert(r[list.len() as int] == x);
            }
            r
        } else {
            assert(ascending(rest)) by {
                assert forall|i: int, j: int| 0 <= i < j < rest.len() implies before(#[trigger] rest[i], #[trigger] rest[j]) by {
                    assert(before(list[i], list[j]));
                }
            }
            let inner = with_name(rest, x);
            let r = inner.push(last);
            assert forall|i: int, j: int| 0 <= i < j < r.len() implies before(#[trigger] r[i], #[trigger] r[j]) by {
                if j < inner.len() {
                    assert(before(inner[i], inner[j]));
                } else {
                    assert(inner.contains(inner[i]));
                    if inner[i] != x {
                        let k = rest.index_of(inner[i]);
                        assert(list[k] == inner[i]);
                        assert(before(list[k], list[list.len() - 1]));
                    }
                }
            }
            assert forall|name: Seq<char>| #[trigger] r.contains(name) <==> list.contains(name) || name == x by {
                if r.contains(name) {
                    let i = r.index_of(name);
                    if i < inner.len() {
                        assert(inner[i] == name);
                        assert(inner.contains(name));
                    }
                }
                if inner.contains(name) {
                    let i = inner.index_of(name);
                    assert(r[i] == name);
                }
                assert(r[inner.len() as int] == last);
            }
            r
        }
    }
}

proof fn sorted_names(names: Set<Seq<char>>) -> (r: Seq<Seq<char>>)
    requires
        names.finite(),
    ensures
        ascending(r),
        forall|name: Seq<char>| #[trigger] r.contains(name) <==> names.contains(name),
    decreases names.len(),
{
    if names.len() == 0 {
        let r = Seq::<Seq<char>>::empty();
        assert(names =~= Set::<Seq<char>>::empty());
        r
    } else {
        let x = names.choose();
        let rest = sorted_names(names.remove(x));
        assert(!rest.contains(x));
        let r = with_name(rest, x);
        assert forall|name: Seq<char>| #[trigger] r.contains(name) <==> names.contains(name) by {
            assert(rest.contains(name) <==> names.remove(x).contains(name));
        }
        r
    }
}

/// A finite set of names has a listing.
pub proof fn listing_exists(names: Set<Seq<char>>)
    requires
        names.finite(),
    ensures
        ascending(listing_in(names)),
        forall|name: Seq<char>| listing_in(names).contains(name) <==> names.contains(name),
{
    let list = sorted_names(names);
    assert forall|name: Seq<char>| list.contains(name) <==> names.contains(name) by {
    }
    assert(ascending(list) && forall|name: Seq<char>| list.contains(name) <==> names.contains(name));
}

/// The names of a map in ascending order.
pub open spec fn listing_of<V>(map: Map<Seq<char>, V>) -> Seq<Seq<char>> {
    listing_in(map.dom())
}

/// The listing depends only on which names there are.
pub proof fn listing_of_domain<V, W>(a: Map<Seq<char>, V>, b: Map<Seq<char>, W>)
    requires
        forall|name: Seq<char>| a.dom().contains(name) == #[trigger] b.dom().contains(name),
    ensures
        listing_of(a) == listing_of(b),
{
    assert(a.dom() =~= b.dom());
}

/// The values of a map in the order of their names.
pub open spec fn items_of<V>(map: Map<Seq<char>, V>) -> Seq<V> {
    listing_of(map).map_values(|name: Seq<char>| map[name])
}

impl<V> NameMap<V> {
    /// The listing is determined by the map alone.
    pub proof fn listing_is_determined(self)
        requires
            self.wf(),
        ensures
            self.listing() == listing_of(self@),
            self.items() == items_of(self@),
    {
        assert(ascending(self.listing()));
        ascending_is_unique(self.listing(), listing_of(self@));
        assert forall|i: int| 0 <= i < self.items().len() implies self.items()[i] == items_of(self@)[i] by {
            self.entry_in_map(i);
        }
        assert(self.items() =~= items_of(self@));
    }

    /// The names in ascending order.
    pub closed spec fn listing(self) -> Seq<Seq<char>> {
        self.names@.map_values(|n: String| n@)
    }

    /// The values in the order of their names.
    pub closed spec fn items(self) -> Seq<V> {
        self.values@
    }

    /// Every name has one value and the names ascend.
    pub open spec fn wf(self) -> bool {
        &&& self.listing().len() == self.items().len()
        &&& ascending(self.listing())
    }

    /// The map from each listed name to its value.
    pub open spec fn view(self) -> Map<Seq<char>, V> {
        Map::new(
            |name: Seq<char>| self.listing().contains(name),
            |name: Seq<char>| self.items()[self.listing().index_of(name)],
        )
    }

    /// Entry `i` of the listing is an entry of the map.
    pub proof fn entry_in_map(self, i: int)
        requires
            self.wf(),
            0 <= i < self.listing().len(),
        ensures
            self@.dom().contains(self.listing()[i]),
            self@[self.listing()[i]] == self.items()[i],
    {
        ascending_is_distinct(self.listing());
        assert(self.listing().contains(self.listing()[i]));
        let j = self.listing().index_of(self.listing()[i]);
        assert(self.listing()[j] == self.listing()[i]);
    }

    /// Every name of the map is listed.
    pub proof fn map_is_listed(self, name: Seq<char>)
        requires
            self.wf(),
            self@.dom().contains(name),
        ensures
            exists|i: int| 0 <= i < self.listing().len() && #[trigger] self.listing()[i] == name && self.items()[i] == self@[name],
    {
        let i = self.listing().index_of(name);
        assert(self.listing()[i] == name);
    }

    /// A map has no more entries than memory can hold.
    pub proof fn length_fits(self)
        ensures
            self.listing().len() <= usize::MAX,
    {
        assert(self.names.len() == self.names@.len());
    }

    /// There are as many names as entries.
    pub proof fn length_is_count(self)
        requires
            self.wf(),
        ensures
            self@.dom().finite(),
            self@.dom().len() == self.listing().len(),
    {
        ascending_is_distinct(self.listing());
        self.listing().unique_seq_to_set();
        assert(self@.dom() =~= self.listing().to_set());
    }

    /// An empty map.
    pub fn new() -> (r: Self)
        ensures
            r.wf(),
            r@ == Map::<Seq<char>, V>::empty(),
            r.listing() == Seq::<Seq<char>>::empty(),
            r.items() == Seq::<V>::empty(),
    {
        let r = NameMap { names: Vec::new(), values: Vec::new() };
        proof {
            assert(r.listing() =~= Seq::<Seq<char>>::empty());
            assert(r@ =~= Map::<Seq<char>, V>::empty());
        }
        r
    }

    /// The number of entries.
    pub fn len(&self) -> (r: usize)
        ensures
            r == self.listing().len(),
    {
        self.names.len()
    }

    /// The name of entry `i`.
    pub fn name(&self, i: usize) -> (r: &String)
        requires
            i < self.listing().len(),
        ensures
            r@ == self.listing()[i as int],
    {
        &self.names[i]
    }

    /// The value of entry `i`.
    pub fn item(&self, i: usize) -> (r: &V)
        requires
            self.wf(),
            i < self.listing().len(),
        ensures
            *r == self.items()[i as int],
    {
        &self.values[i]
    }

    /// Replaces the value of entry `i`.
    pub fn set(&mut self, i: usize, value: V)
        requires
            old(self).wf(),
            i < old(self).listing().len(),
        ensures
            final(self).wf(),
            final(self).listing() == old(self).listing(),
            final(self).items() == old(self).items().update(i as int, value),
            final(self)@ == old(self)@.insert(old(self).listing()[i as int], value),
    {
        let ghost start = *self;
        self.values.set(i, value);
        proof {
            ascending_is_distinct(self.listing());
            assert(self.listing().contains(self.listing()[i as int]));
            assert(self@.dom() =~= start@.insert(self.listing()[i as int], value).dom());
            assert forall|name: Seq<char>| #[trigger] self@.dom().contains(name) implies self@[name] == start@.insert(
                self.listing()[i as int],
                value,
            )[name] by {
                let j = self.listing().index_of(name);
                assert(self.listing()[j] == name);
            }
            assert(self@ =~= start@.insert(self.listing()[i as int], value));
        }
    }

    /// Takes the entries apart, in name order.
    pub fn into_entries(self) -> (r: Vec<(String, V)>)
        requires
            self.wf(),
        ensures
            r@.len() == self.listing().len(),
            forall|i: int| #![trigger r@[i]] 0 <= i < r@.len() ==> r@[i].0@ == self.listing()[i] && r@[i].1 == self.items()[i],
    {
        let ghost all = self;
        let ghost n = self.names@.len() as int;
        let mut names = self.names;
        let mut values = self.values;
        let mut back: Vec<(String, V)> = Vec::new();
        while names.len() > 0
            invariant
                names@.len() == values@.len(),
                back@.len() + names@.len() == n,
                all.names@.len() == n,
                all.values@.len() == n,
                names@ == all.names@.take(names@.len() as int),
                values@ == all.values@.take(values@.len() as int),
                forall|i: int| #![trigger back@[i]] 0 <= i < back@.len() ==> back@[i].0 == all.names@[n - 1 - i] && back@[i].1
                    == all.values@[n - 1 - i],
            decreases names@.len(),
        {
            if let Some(name) = names.pop() {
                if let Some(value) = values.pop() {
                    back.push((name, value));
                }
            }
            assert(names@ =~= all.names@.take(names@.len() as int));
            assert(values@ =~= all.values@.take(values@.len() as int));
        }
        let mut out: Vec<(String, V)> = Vec::new();
        while back.len() > 0
            invariant
                all.names@.len() == n,
                all.values@.len() == n,
                out@.len() + back@.len() == n,
                forall|i: int| #![trigger back@[i]] 0 <= i < back@.len() ==> back@[i].0 == all.names@[n - 1 - i] && back@[i].1
                    == all.values@[n - 1 - i],
                forall|i: int| #![trigger out@[i]] 0 <= i < out@.len() ==> out@[i].0 == all.names@[i] && out@[i].1
                    == all.values@[i],
            decreases back@.len(),
        {
            if let Some(entry) = back.pop() {
                out.push(entry);
            }
        }
        out
    }

    /// The first position whose name does not come before `name`.
    fn position(&self, name: &str) -> (r: usize)
        requires
            self.wf(),
        ensures
            r <= self.listing().len(),
            forall|i: int| 0 <= i < r ==> before(#[trigger] self.listing()[i], name@),
            forall|i: int| r <= i < self.listing().len() ==> !before(#[trigger] self.listing()[i], name@),
    {
        let mut low: usize = 0;
        let mut high: usize = self.names.len();
        while low < high
            invariant
                self.wf(),
                low <= high <= self.listing().len(),
                forall|i: int| 0 <= i < low ==> before(#[trigger] self.listing()[i], name@),
                forall|i: int| high <= i < self.listing().len() ==> !before(#[trigger] self.listing()[i], name@),
            decreases high - low,
        {
            let middle: usize = low + (high - low) / 2;
            let ghost at = self.listing()[middle as int];
            match order(self.names[middle].as_str(), name) {
                Order::Before => {
                    proof {
                        assert(at == self.names[middle as int]@);
                        assert forall|i: int| 0 <= i < middle + 1 implies before(#[trigger] self.listing()[i], name@) by {
                            if i < middle {
                                before_transitive(self.listing()[i], at, name@);
                            }
                        }
                    }
                    low = middle + 1;
                },
                _ => {
                    proof {
                        assert(at == self.names[middle as int]@);
                        assert(!before(at, name@)) by {
                            if at == name@ {
                                crate::text::before_irreflexive(at);
                            }
                        }
                        assert forall|i: int| middle <= i < self.listing().len() implies !before(#[trigger] self.listing()[i], name@) by {
                            if i > middle && before(self.listing()[i], name@) {
                                before_transitive(at, self.listing()[i], name@);
                            }
                        }
                    }
                    high = middle;
                },
            }
        }
        low
    }

    /// The position of `name`, if it is listed.
    pub fn find(&self, name: &str) -> (r: Option<usize>)
        requires
            self.wf(),
        ensures
            match r {
                Some(i) => i < self.listing().len() && self.listing()[i as int] == name@
                    && self@.dom().contains(name@) && self@[name@] == self.items()[i as int],
                None => !self@.dom().contains(name@),
            },
    {
        let at = self.position(name);
        if at < self.names.len() {
            if let Order::Same = order(self.names[at].as_str(), name) {
                proof {
                    assert(self.listing()[at as int] == self.names[at as int]@);
                    self.entry_in_map(at as int);
                }
                return Some(at);
            }
        }
        proof {
            if self.listing().contains(name@) {
                let i = self.listing().index_of(name@);
                assert(self.listing()[i] == name@);
                crate::text::before_irreflexive(name@);
                assert(i >= at);
                if i > at {
                    assert(before(self.listing()[at as int], self.listing()[i]));
                }
                assert(self.listing()[at as int] == self.names[at as int]@);
            }
        }
        None
    }

    /// Whether `name` is listed.
    pub fn contains(&self, name: &str) -> (r: bool)
        requires
            self.wf(),
        ensures
            r == self@.dom().contains(name@),
    {
        self.find(name).is_some()
    }

    /// The value of `name`, if it is listed.
    pub fn get(&self, name: &str) -> (r: Option<&V>)
        requires
            self.wf(),
        ensures
            match r {
                Some(v) => self@.dom().contains(name@) && *v == self@[name@],
                None => !self@.dom().contains(name@),
            },
    {
        match self.find(name) {
            Some(i) => Some(&self.values[i]),
            None => None,
        }
    }

    /// Binds `name` to `value` and returns the value it was bound to before.
    pub fn insert(&mut self, name: String, value: V) -> (r: Option<V>)
        requires
            old(self).wf(),
        ensures
            final(self).wf(),
            final(self)@ == old(self)@.insert(name@, value),
            match r {
                Some(v) => old(self)@.dom().contains(name@) && v == old(self)@[name@],
                None => !old(self)@.dom().contains(name@),
            },
    {
        match self.find(name.as_str()) {
            Some(i) => {
                let previous = self.values.remove(i);
                self.values.insert(i, value);
                proof {
                    let before_list = old(self).listing();
                    assert(self.listing() =~= before_list);
                    assert(self.items() =~= old(self).items().update(i as int, value));
                    ascending_is_distinct(before_list);
                    assert(self@ =~= old(self)@.insert(name@, value)) by {
                        assert forall|k: Seq<char>| before_list.contains(k) implies self@[k] == old(self)@.insert(name@, value)[k] by {
                            let j = before_list.index_of(k);
                            assert(before_list[j] == k);
                            let at = before_list.index_of(name@);
                            assert(before_list.contains(name@));
                            assert(before_list[at] == name@);
                        }
                    }
                }
                Some(previous)
            },
            None => {
                let at = self.position(name.as_str());
                let ghost key = name@;
                self.names.insert(at, name);
                self.values.insert(at, value);
                proof {
                    let a = old(self).listing();
                    let b = self.listing();
                    assert(b =~= a.insert(at as int, key));
                    assert(self.items() =~= old(self).items().insert(at as int, value));
                    assert forall|i: int| at <= i < a.len() implies before(key, #[trigger] a[i]) by {
                        crate::text::before_total(a[i], key);
                        assert(a.contains(a[i]));
                    }
                    assert(ascending(b)) by {
                        assert forall|i: int, j: int| 0 <= i < j < b.len() implies before(#[trigger] b[i], #[trigger] b[j]) by {
                            if j < at {
                                assert(b[i] == a[i] && b[j] == a[j]);
                            } else if j == at {
                                assert(b[i] == a[i]);
                            } else if i < at {
                                assert(b[i] == a[i] && b[j] == a[j - 1]);
                            } else if i == at {
                                assert(b[j] == a[j - 1]);
                            } else {
                                assert(b[i] == a[i - 1] && b[j] == a[j - 1]);
                            }
                        }
                    }
                    ascending_is_distinct(a);
                    ascending_is_distinct(b);
                    assert(self@ =~= old(self)@.insert(key, value)) by {
                        assert(b[at as int] == key);
                        assert forall|k: Seq<char>| b.contains(k) == (a.contains(k) || k == key) by {
                            if a.contains(k) {
                                let j = a.index_of(k);
                                assert(a[j] == k);
                                if j < at {
                                    assert(b[j] == k);
                                } else {
                                    assert(b[j + 1] == k);
                                }
                            }
                            if b.contains(k) && k != key {
                                let j = b.index_of(k);
                                assert(b[j] == k);
                                if j < at {
                                    assert(a[j] == k);
                                } else {
                                    assert(a[j - 1] == k);
                                }
                            }
                        }
                        assert forall|k: Seq<char>| b.contains(k) implies self@[k] == old(self)@.insert(key, value)[k] by {
                            let j = b.index_of(k);
                            assert(b[j] == k);
                            if k != key {
                                let m = a.index_of(k);
                                assert(a[m] == k);
                                if m < at {
                                    assert(b[m] == k);
                                } else {
                                    assert(b[m + 1] == k);
                                }
                            }
                        }
                    }
                }
                None
            },
        }
    }
}

/// Copies a map.
pub fn copy_names<V: Copy>(names: &NameMap<V>) -> (r: NameMap<V>)
    requires
        names.wf(),
    ensures
        r.wf(),
        r@ == names@,
        r.listing() == names.listing(),
        r.items() == names.items(),
{
    let mut list: Vec<String> = Vec::new();
    let mut values: Vec<V> = Vec::new();
    let mut i: usize = 0;
    while i < names.names.len()
        invariant
            names.wf(),
            i <= names.names@.len(),
            names.names@.len() == names.listing().len(),
            names.values@ == names.items(),
            list@.len() == i,
            values@.len() == i,
            forall|j: int| 0 <= j < i ==> #[trigger] list@[j] == names.names@[j],
            forall|j: int| 0 <= j < i ==> #[trigger] values@[j] == names.values@[j],
        decreases names.names@.len() - i,
    {
        list.push(names.names[i].clone());
        values.push(names.values[i]);
        i += 1;
    }
    let r = NameMap { names: list, values };
    proof {
        assert(r.listing() =~= names.listing());
        assert(r.items() =~= names.items());
        assert(r@ =~= names@);
    }
    r
}

} // verus!
