//! Which entries of a weight file go into which tensors of a model.
use crate::error::{first_at, first_at_none, refusal, texts, ErrorView, Result, RustTorchError};
use crate::names::{ascending, ascending_is_distinct, ascending_is_unique, listing_in, NameMap};
use crate::tensor::{copy_shape, same_shape, TensorSpec, TensorSpecView};
use crate::text::{begins, characters, collect, join, owned, same, starts_with};
use vstd::prelude::*;

verus! {

/// From names in a file to names in a model.
#[derive(Debug, Clone)]
pub struct StateDictMapping {
    exact: NameMap<String>,
    prefixes: NameMap<String>,
}

/// The content of a [`StateDictMapping`].
#[verifier::ext_equal]
pub struct MappingView {
    pub exact: Map<Seq<char>, Seq<char>>,
    pub prefixes: Map<Seq<char>, Seq<char>>,
}

/// The texts of a map.
pub open spec fn text_map(map: Map<Seq<char>, String>) -> Map<Seq<char>, Seq<char>> {
    map.map_values(|s: String| s@)
}

impl View for StateDictMapping {
    type V = MappingView;

    closed spec fn view(&self) -> MappingView {
        MappingView { exact: text_map(self.exact@), prefixes: text_map(self.prefixes@) }
    }
}

impl MappingView {
    /// A mapping that keeps every name.
    pub open spec fn identity() -> MappingView {
        MappingView { exact: Map::empty(), prefixes: Map::empty() }
    }

    /// A prefix applies to a name, and none that applies is longer.
    pub open spec fn is_longest(self, source: Seq<char>, prefix: Seq<char>) -> bool {
        &&& self.prefixes.dom().contains(prefix)
        &&& begins(source, prefix)
        &&& forall|other: Seq<char>| #[trigger]
            self.prefixes.dom().contains(other) && begins(source, other) ==> other.len() <= prefix.len()
    }

    /// Some prefix applies to a name.
    pub open spec fn applies(self, source: Seq<char>) -> bool {
        exists|prefix: Seq<char>| #[trigger] self.prefixes.dom().contains(prefix) && begins(source, prefix)
    }

    /// The name in the model: an exact entry wins, then the longest prefix; any other name is
    /// kept.
    pub open spec fn destination(self, source: Seq<char>) -> Seq<char> {
        if self.exact.dom().contains(source) {
            self.exact[source]
        } else if self.applies(source) {
            let prefix = choose|prefix: Seq<char>| self.is_longest(source, prefix);
            self.prefixes[prefix] + source.skip(prefix.len() as int)
        } else {
            source
        }
    }
}

/// The longest prefix that applies is unique.
proof fn longest_is_unique(mapping: MappingView, source: Seq<char>, a: Seq<char>, b: Seq<char>)
    requires
        mapping.is_longest(source, a),
        mapping.is_longest(source, b),
    ensures
        a == b,
{
    assert(a.len() == b.len());
}

impl StateDictMapping {
    /// The entries are in order.
    pub closed spec fn wf(self) -> bool {
        self.exact.wf() && self.prefixes.wf()
    }

    /// A mapping that keeps every name.
    pub fn new() -> (r: Self)
        ensures
            r.wf(),
            r@ == MappingView::identity(),
    {
        let r = StateDictMapping { exact: NameMap::new(), prefixes: NameMap::new() };
        assert(r@ =~= MappingView::identity());
        r
    }

    /// Maps one name.
    #[must_use]
    pub fn map(self, source: &str, destination: &str) -> (r: Self)
        requires
            self.wf(),
        ensures
            r.wf(),
            r@ == (MappingView { exact: self@.exact.insert(source@, destination@), ..self@ }),
    {
        let mut exact = self.exact;
        let value = owned(destination);
        let ghost before = exact@;
        let _ = exact.insert(owned(source), value);
        assert(text_map(exact@) =~= text_map(before).insert(source@, destination@));
        StateDictMapping { exact, prefixes: self.prefixes }
    }

    /// Maps every name with a prefix. Exact entries win.
    #[must_use]
    pub fn map_prefix(self, source: &str, destination: &str) -> (r: Self)
        requires
            self.wf(),
        ensures
            r.wf(),
            r@ == (MappingView { prefixes: self@.prefixes.insert(source@, destination@), ..self@ }),
    {
        let mut prefixes = self.prefixes;
        let value = owned(destination);
        let ghost before = prefixes@;
        let _ = prefixes.insert(owned(source), value);
        assert(text_map(prefixes@) =~= text_map(before).insert(source@, destination@));
        StateDictMapping { exact: self.exact, prefixes }
    }

    /// The name in the model for a name in a file.
    pub fn destination(&self, source: &str) -> (r: String)
        requires
            self.wf(),
        ensures
            r@ == self@.destination(source@),
    {
        assert(self@.exact.dom() =~= self.exact@.dom());
        assert(self@.prefixes.dom() =~= self.prefixes@.dom());
        if let Some(destination) = self.exact.get(source) {
            return owned(destination.as_str());
        }
        let ghost names = self.prefixes.listing();
        let mut best: Option<usize> = None;
        let mut longest: usize = 0;
        let mut i: usize = 0;
        while i < self.prefixes.len()
            invariant
                self.wf(),
                names == self.prefixes.listing(),
                i <= names.len(),
                match best {
                    Some(k) => k < i && begins(source@, names[k as int]) && names[k as int].len() == longest && forall|j: int|
                        0 <= j < i && begins(source@, #[trigger] names[j]) ==> names[j].len() <= longest,
                    None => forall|j: int| 0 <= j < i ==> !begins(source@, #[trigger] names[j]),
                },
            decreases names.len() - i,
        {
            let prefix = self.prefixes.name(i).as_str();
            if starts_with(source, prefix) {
                let length: usize = characters(prefix).len();
                if best.is_none() || length >= longest {
                    best = Some(i);
                    longest = length;
                }
            }
            i += 1;
        }
        match best {
            None => {
                proof {
                    if self@.applies(source@) {
                        let prefix = choose|prefix: Seq<char>| #[trigger]
                            self@.prefixes.dom().contains(prefix) && begins(source@, prefix);
                        self.prefixes.map_is_listed(prefix);
                    }
                }
                owned(source)
            },
            Some(k) => {
                let ghost prefix = names[k as int];
                proof {
                    self.prefixes.entry_in_map(k as int);
                    assert(self@.is_longest(source@, prefix)) by {
                        assert forall|other: Seq<char>| #[trigger]
                            self@.prefixes.dom().contains(other) && begins(source@, other) implies other.len() <= prefix.len() by {
                            self.prefixes.map_is_listed(other);
                        }
                    }
                    let chosen = choose|p: Seq<char>| self@.is_longest(source@, p);
                    longest_is_unique(self@, source@, prefix, chosen);
                    assert(self@.applies(source@));
                    assert(self@.prefixes[prefix] == self.prefixes.items()[k as int]@);
                }
                let all = characters(source);
                let rest = collect(&all, longest, all.len());
                assert(rest@ =~= source@.skip(prefix.len() as int));
                join(self.prefixes.item(k).as_str(), rest.as_str())
            },
        }
    }
}

impl Default for StateDictMapping {
    /// A mapping that keeps every name.
    fn default() -> (r: Self)
        ensures
            r.wf(),
            r@ == MappingView::identity(),
    {
        StateDictMapping::new()
    }
}

/// How a load is carried out.
#[derive(Debug, Clone, Copy, PartialEq, Eq, Structural)]
#[non_exhaustive]
pub struct LoadOptions {
    /// Whether missing or unexpected names fail the load.
    pub strict: bool,
    /// Whether the load is only checked.
    pub dry_run: bool,
}

impl LoadOptions {
    /// Missing and unexpected names fail the load.
    pub fn strict() -> (r: Self)
        ensures
            r == (LoadOptions { strict: true, dry_run: false }),
    {
        LoadOptions { strict: true, dry_run: false }
    }

    /// What matches is loaded, the rest is reported.
    pub fn non_strict() -> (r: Self)
        ensures
            r == (LoadOptions { strict: false, dry_run: false }),
    {
        LoadOptions { strict: false, dry_run: false }
    }

    /// Whether the load is only checked.
    #[must_use]
    pub fn dry_run(self, dry_run: bool) -> (r: Self)
        ensures
            r == (LoadOptions { dry_run, ..self }),
    {
        LoadOptions { dry_run, ..self }
    }
}

impl Default for LoadOptions {
    /// Missing and unexpected names fail the load.
    fn default() -> (r: Self)
        ensures
            r == (LoadOptions { strict: true, dry_run: false }),
    {
        LoadOptions::strict()
    }
}

/// What a load did, with all names in order.
#[derive(Debug, Clone, PartialEq, Eq)]
#[non_exhaustive]
pub struct LoadReport {
    /// The names in the model that were matched.
    pub loaded: Vec<String>,
    /// The names in the model that the file lacks.
    pub missing: Vec<String>,
    /// The names in the file that the model lacks.
    pub unexpected: Vec<String>,
    /// The names in the file that were mapped, with what they were mapped to.
    pub remapped: Vec<(String, String)>,
}

/// The content of a [`LoadReport`].
#[verifier::ext_equal]
pub struct ReportView {
    pub loaded: Seq<Seq<char>>,
    pub missing: Seq<Seq<char>>,
    pub unexpected: Seq<Seq<char>>,
    pub remapped: Seq<(Seq<char>, Seq<char>)>,
}

/// The contents of pairs of names.
pub open spec fn pair_views(list: Seq<(String, String)>) -> Seq<(Seq<char>, Seq<char>)> {
    Seq::new(list.len(), |i: int| (list[i].0@, list[i].1@))
}

impl Default for LoadReport {
    /// Nothing was loaded.
    fn default() -> (r: Self)
        ensures
            r@ == (ReportView {
                loaded: Seq::empty(),
                missing: Seq::empty(),
                unexpected: Seq::empty(),
                remapped: Seq::empty(),
            }),
    {
        let r = LoadReport { loaded: Vec::new(), missing: Vec::new(), unexpected: Vec::new(), remapped: Vec::new() };
        assert(r@.loaded =~= Seq::empty() && r@.missing =~= Seq::empty());
        assert(r@.unexpected =~= Seq::empty() && r@.remapped =~= Seq::empty());
        r
    }
}

impl View for LoadReport {
    type V = ReportView;

    open spec fn view(&self) -> ReportView {
        ReportView {
            loaded: texts(self.loaded@),
            missing: texts(self.missing@),
            unexpected: texts(self.unexpected@),
            remapped: pair_views(self.remapped@),
        }
    }
}

/// The contents of specifications by name.
pub open spec fn spec_map(map: Map<Seq<char>, TensorSpec>) -> Map<Seq<char>, TensorSpecView> {
    map.map_values(|t: TensorSpec| t@)
}

/// Why entry `i` of a file is refused, if it is.
pub open spec fn entry_refusal(
    mapping: MappingView,
    model: Map<Seq<char>, TensorSpecView>,
    names: Seq<Seq<char>>,
    specs: Seq<TensorSpecView>,
    i: int,
) -> Option<ErrorView> {
    let name = mapping.destination(names[i]);
    if exists|j: int| 0 <= j < i && mapping.destination(#[trigger] names[j]) == name {
        Some(ErrorView::DuplicateMappedKey(name))
    } else if !model.dom().contains(name) {
        None
    } else if specs[i].shape != model[name].shape {
        Some(ErrorView::ShapeMismatch { name, expected: model[name].shape, actual: specs[i].shape })
    } else if specs[i].kind != model[name].kind {
        Some(ErrorView::DtypeMismatch { name, expected: model[name].kind, actual: specs[i].kind })
    } else {
        None
    }
}

/// The checks of a file.
pub open spec fn entry_checks(
    mapping: MappingView,
    model: Map<Seq<char>, TensorSpecView>,
    names: Seq<Seq<char>>,
    specs: Seq<TensorSpecView>,
) -> spec_fn(int) -> Option<ErrorView> {
    |i: int| entry_refusal(mapping, model, names, specs, i)
}

/// The names in the model that the first `n` entries of a file are mapped to.
pub open spec fn matched(mapping: MappingView, model: Map<Seq<char>, TensorSpecView>, names: Seq<Seq<char>>, n: int) -> Set<Seq<char>> {
    Set::new(
        |name: Seq<char>|
            model.dom().contains(name) && exists|i: int| 0 <= i < n && mapping.destination(#[trigger] names[i]) == name,
    )
}

/// The names of the first `n` entries of a file that are mapped to nothing in the model.
pub open spec fn unmatched(mapping: MappingView, model: Map<Seq<char>, TensorSpecView>, names: Seq<Seq<char>>, n: int) -> Seq<Seq<char>>
    decreases n,
{
    if n <= 0 {
        Seq::empty()
    } else if model.dom().contains(mapping.destination(names[n - 1])) {
        unmatched(mapping, model, names, n - 1)
    } else {
        unmatched(mapping, model, names, n - 1).push(names[n - 1])
    }
}

/// The first `n` entries of a file whose names are mapped to others.
pub open spec fn renamed(mapping: MappingView, names: Seq<Seq<char>>, n: int) -> Seq<(Seq<char>, Seq<char>)>
    decreases n,
{
    if n <= 0 {
        Seq::empty()
    } else if mapping.destination(names[n - 1]) == names[n - 1] {
        renamed(mapping, names, n - 1)
    } else {
        renamed(mapping, names, n - 1).push((names[n - 1], mapping.destination(names[n - 1])))
    }
}

/// What a load reports.
pub open spec fn report_of(mapping: MappingView, model: Map<Seq<char>, TensorSpecView>, names: Seq<Seq<char>>) -> ReportView {
    let n = names.len() as int;
    ReportView {
        loaded: listing_in(matched(mapping, model, names, n)),
        missing: listing_in(model.dom().difference(matched(mapping, model, names, n))),
        unexpected: unmatched(mapping, model, names, n),
        remapped: renamed(mapping, names, n),
    }
}

/// Why a load is refused, if it is.
pub open spec fn load_refusal(
    mapping: MappingView,
    model: Map<Seq<char>, TensorSpecView>,
    names: Seq<Seq<char>>,
    specs: Seq<TensorSpecView>,
    strict: bool,
) -> Option<ErrorView> {
    match first_at(0, names.len() as int, entry_checks(mapping, model, names, specs)) {
        Some(e) => Some(e),
        None => {
            let report = report_of(mapping, model, names);
            if strict && (report.missing.len() > 0 || report.unexpected.len() > 0) {
                Some(ErrorView::IncompatibleModelState { missing: report.missing, unexpected: report.unexpected })
            } else {
                None
            }
        },
    }
}

/// A load that was checked: what it reports, and what is to be copied.
#[derive(Debug)]
pub struct LoadPlan {
    /// The report.
    pub report: LoadReport,
    /// For each name in the model that was matched, the place of its value in the file; empty
    /// if the load is only checked.
    pub copies: NameMap<usize>,
}

/// Where the value of each matched name stands in a file.
pub open spec fn is_source(mapping: MappingView, names: Seq<Seq<char>>, n: int, name: Seq<char>, at: int) -> bool {
    0 <= at < n && mapping.destination(names[at]) == name
}

/// The contents of the specifications of a file.
pub open spec fn spec_list(items: Seq<TensorSpec>) -> Seq<TensorSpecView> {
    Seq::new(items.len(), |i: int| items[i]@)
}

fn names_of(map: &NameMap<usize>) -> (r: Vec<String>)
    requires
        map.wf(),
    ensures
        texts(r@) == map.listing(),
{
    let mut out: Vec<String> = Vec::new();
    let mut i: usize = 0;
    while i < map.len()
        invariant
            map.wf(),
            i <= map.listing().len(),
            texts(out@) == map.listing().take(i as int),
        decreases map.listing().len() - i,
    {
        let ghost before = out@;
        let name = owned(map.name(i).as_str());
        let ghost text = name@;
        out.push(name);
        i += 1;
        assert(texts(out@) =~= texts(before).push(text));
        assert(texts(out@) =~= map.listing().take(i as int));
    }
    assert(map.listing().take(map.listing().len() as int) =~= map.listing());
    out
}

fn missing_in(model: &NameMap<TensorSpec>, loaded: &NameMap<usize>) -> (r: Vec<String>)
    requires
        model.wf(),
        loaded.wf(),
    ensures
        texts(r@) == listing_in(model@.dom().difference(loaded@.dom())),
{
    let ghost names = model.listing();
    let ghost gap = model@.dom().difference(loaded@.dom());
    let mut out: Vec<String> = Vec::new();
    let mut i: usize = 0;
    assert(texts(out@) =~= Seq::empty());
    while i < model.len()
        invariant
            model.wf(),
            loaded.wf(),
            names == model.listing(),
            gap == model@.dom().difference(loaded@.dom()),
            i <= names.len(),
            ascending(texts(out@)),
            forall|k: int| 0 <= k < out@.len() ==> exists|j: int| 0 <= j < i && #[trigger] names[j] == (#[trigger] texts(out@)[k]),
            forall|name: Seq<char>| texts(out@).contains(name) <==> gap.contains(name) && exists|j: int|
                0 <= j < i && #[trigger] names[j] == name,
        decreases names.len() - i,
    {
        let ghost before = texts(out@);
        let ghost current = names[i as int];
        proof {
            model.entry_in_map(i as int);
        }
        if !loaded.contains(model.name(i).as_str()) {
            out.push(owned(model.name(i).as_str()));
            assert(texts(out@) =~= before.push(current));
            proof {
                assert forall|a: int, b: int| 0 <= a < b < texts(out@).len() implies crate::text::before(
                    #[trigger] texts(out@)[a],
                    #[trigger] texts(out@)[b],
                ) by {
                    if b == before.len() {
                        assert(before[a] == texts(out@)[a]);
                        let j = choose|j: int| 0 <= j < i && #[trigger] names[j] == before[a];
                        assert(crate::text::before(names[j], names[i as int]));
                    } else {
                        assert(before[a] == texts(out@)[a] && before[b] == texts(out@)[b]);
                    }
                }
                assert forall|k: int| 0 <= k < out@.len() implies exists|j: int|
                    0 <= j < i + 1 && #[trigger] names[j] == (#[trigger] texts(out@)[k]) by {
                    if k < before.len() {
                        assert(before[k] == texts(out@)[k]);
                        let j = choose|j: int| 0 <= j < i && #[trigger] names[j] == before[k];
                        assert(names[j] == texts(out@)[k]);
                    } else {
                        assert(names[i as int] == texts(out@)[k]);
                    }
                }
                assert forall|name: Seq<char>| texts(out@).contains(name) <==> gap.contains(name) && exists|j: int|
                    0 <= j < i + 1 && #[trigger] names[j] == name by {
                    assert(texts(out@)[before.len() as int] == current);
                    if texts(out@).contains(name) {
                        let k = texts(out@).index_of(name);
                        if k < before.len() {
                            assert(before[k] == name);
                            assert(before.contains(name));
                        } else {
                            assert(names[i as int] == name);
                        }
                    }
                    if gap.contains(name) && exists|j: int| 0 <= j < i + 1 && #[trigger] names[j] == name {
                        let j = choose|j: int| 0 <= j < i + 1 && #[trigger] names[j] == name;
                        if j < i {
                            assert(before.contains(name));
                            let k = before.index_of(name);
                            assert(texts(out@)[k] == name);
                        }
                    }
                }
            }
        } else {
            proof {
                assert forall|name: Seq<char>| texts(out@).contains(name) <==> gap.contains(name) && exists|j: int|
                    0 <= j < i + 1 && #[trigger] names[j] == name by {
                    if gap.contains(name) && exists|j: int| 0 <= j < i + 1 && #[trigger] names[j] == name {
                        let j = choose|j: int| 0 <= j < i + 1 && #[trigger] names[j] == name;
                        assert(j < i);
                    }
                }
                assert forall|k: int| 0 <= k < out@.len() implies exists|j: int|
                    0 <= j < i + 1 && #[trigger] names[j] == (#[trigger] texts(out@)[k]) by {
                    let j = choose|j: int| 0 <= j < i && #[trigger] names[j] == texts(out@)[k];
                    assert(names[j] == texts(out@)[k]);
                }
            }
        }
        i += 1;
    }
    proof {
        let list = texts(out@);
        assert forall|name: Seq<char>| list.contains(name) <==> gap.contains(name) by {
            if gap.contains(name) {
                model.map_is_listed(name);
            }
        }
        let chosen = listing_in(gap);
        assert(ascending(list) && forall|name: Seq<char>| list.contains(name) <==> gap.contains(name));
        ascending_is_unique(list, chosen);
    }
    out
}

/// Checks a file against a model and decides what goes where. No value is copied before every
/// name, shape and element type has been checked. `file` lists what the file holds.
pub fn load_state_dict_with_mapping(
    file: &NameMap<TensorSpec>,
    model: &NameMap<TensorSpec>,
    mapping: &StateDictMapping,
    options: LoadOptions,
) -> (r: Result<LoadPlan>)
    requires
        file.wf(),
        model.wf(),
        mapping.wf(),
    ensures
        refusal(r) == load_refusal(mapping@, spec_map(model@), file.listing(), spec_list(file.items()), options.strict),
        r matches Ok(plan) ==> {
            &&& plan.report@ == report_of(mapping@, spec_map(model@), file.listing())
            &&& plan.copies.wf()
            &&& if options.dry_run {
                plan.copies@ == Map::<Seq<char>, usize>::empty()
            } else {
                &&& plan.copies@.dom() == matched(mapping@, spec_map(model@), file.listing(), file.listing().len() as int)
                &&& forall|name: Seq<char>| #[trigger]
                    plan.copies@.dom().contains(name) ==> is_source(
                        mapping@,
                        file.listing(),
                        file.listing().len() as int,
                        name,
                        plan.copies@[name] as int,
                    )
            }
        },
{
    let ghost names = file.listing();
    let ghost specs = spec_list(file.items());
    let ghost targets = spec_map(model@);
    let ghost m = mapping@;
    let ghost check = entry_checks(m, targets, names, specs);
    let ghost n = names.len() as int;
    let mut taken: NameMap<usize> = NameMap::new();
    let mut loaded: NameMap<usize> = NameMap::new();
    let mut unexpected: Vec<String> = Vec::new();
    let mut remapped: Vec<(String, String)> = Vec::new();
    assert(texts(unexpected@) =~= Seq::empty());
    assert(pair_views(remapped@) =~= Seq::empty());
    assert(targets.dom() =~= model@.dom());
    assert(loaded@.dom() =~= matched(m, targets, names, 0));
    let mut i: usize = 0;
    while i < file.len()
        invariant
            file.wf(),
            model.wf(),
            mapping.wf(),
            names == file.listing(),
            specs == spec_list(file.items()),
            targets == spec_map(model@),
            targets.dom() == model@.dom(),
            m == mapping@,
            check == entry_checks(m, targets, names, specs),
            n == names.len(),
            i <= n,
            taken.wf(),
            loaded.wf(),
            forall|name: Seq<char>| #[trigger]
                taken@.dom().contains(name) <==> exists|j: int| 0 <= j < i && m.destination(#[trigger] names[j]) == name,
            loaded@.dom() == matched(m, targets, names, i as int),
            forall|name: Seq<char>| #[trigger]
                loaded@.dom().contains(name) ==> is_source(m, names, i as int, name, loaded@[name] as int),
            texts(unexpected@) == unmatched(m, targets, names, i as int),
            pair_views(remapped@) == renamed(m, names, i as int),
            first_at(0, n, check) == first_at(i as int, n, check),
        decreases n - i,
    {
        let source = file.name(i).as_str();
        let spec = file.item(i);
        let destination = mapping.destination(source);
        let ghost name = destination@;
        proof {
            assert(name == m.destination(names[i as int]));
            assert(specs[i as int] == spec@);
            assert(check(i as int) == entry_refusal(m, targets, names, specs, i as int));
        }
        if taken.contains(destination.as_str()) {
            return Err(RustTorchError::DuplicateMappedKey(destination));
        }
        let ghost taken_before = taken@;
        let _ = taken.insert(owned(destination.as_str()), i);
        proof {
            assert forall|key: Seq<char>| #[trigger] taken@.dom().contains(key) <==> exists|j: int|
                0 <= j < i + 1 && m.destination(#[trigger] names[j]) == key by {
                if taken@.dom().contains(key) {
                    if key == name {
                        assert(m.destination(names[i as int]) == key);
                    } else {
                        assert(taken_before.dom().contains(key));
                    }
                }
                if exists|j: int| 0 <= j < i + 1 && m.destination(#[trigger] names[j]) == key {
                    let j = choose|j: int| 0 <= j < i + 1 && m.destination(#[trigger] names[j]) == key;
                    if j < i {
                        assert(taken_before.dom().contains(key));
                    }
                }
            }
        }
        if !same(source, destination.as_str()) {
            let ghost before = remapped@;
            remapped.push((owned(source), owned(destination.as_str())));
            assert(pair_views(remapped@) =~= pair_views(before).push((names[i as int], name)));
        }
        match model.get(destination.as_str()) {
            None => {
                let ghost before = unexpected@;
                let text = owned(source);
                let ghost view = text@;
                unexpected.push(text);
                proof {
                    assert(texts(unexpected@) =~= texts(before).push(view));
                    assert(matched(m, targets, names, i + 1) =~= matched(m, targets, names, i as int)) by {
                        matched_step(m, targets, names, i as int);
                    }
                }
            },
            Some(target) => {
                assert(target@ == targets[name]);
                if !same_shape(spec.shape.as_slice(), target.shape.as_slice()) {
                    return Err(
                        RustTorchError::ShapeMismatch {
                            name: destination,
                            expected: copy_shape(target.shape.as_slice()),
                            actual: copy_shape(spec.shape.as_slice()),
                        },
                    );
                }
                if spec.kind != target.kind {
                    return Err(
                        RustTorchError::DtypeMismatch { name: destination, expected: target.kind, actual: spec.kind },
                    );
                }
                let ghost before = loaded@;
                let _ = loaded.insert(destination, i);
                proof {
                    matched_step(m, targets, names, i as int);
                    assert(loaded@.dom() =~= matched(m, targets, names, i + 1));
                    assert forall|key: Seq<char>| #[trigger] loaded@.dom().contains(key) implies is_source(
                        m,
                        names,
                        i + 1,
                        key,
                        loaded@[key] as int,
                    ) by {
                        if key != name {
                            assert(before.dom().contains(key));
                        }
                    }
                }
            },
        }
        i += 1;
    }
    proof {
        loaded.listing_is_determined();
    }
    let missing = missing_in(model, &loaded);
    if options.strict && (missing.len() > 0 || unexpected.len() > 0) {
        return Err(RustTorchError::IncompatibleModelState { missing, unexpected });
    }
    let report = LoadReport { loaded: names_of(&loaded), missing, unexpected, remapped };
    if options.dry_run {
        let copies: NameMap<usize> = NameMap::new();
        assert(copies@ =~= Map::empty());
        return Ok(LoadPlan { report, copies });
    }
    Ok(LoadPlan { report, copies: loaded })
}

proof fn matched_step(mapping: MappingView, model: Map<Seq<char>, TensorSpecView>, names: Seq<Seq<char>>, i: int)
    requires
        0 <= i < names.len(),
    ensures
        matched(mapping, model, names, i + 1) == (if model.dom().contains(mapping.destination(names[i])) {
            matched(mapping, model, names, i).insert(mapping.destination(names[i]))
        } else {
            matched(mapping, model, names, i)
        }),
{
    let name = mapping.destination(names[i]);
    let after = matched(mapping, model, names, i + 1);
    let before = matched(mapping, model, names, i);
    assert forall|key: Seq<char>| after.contains(key) <==> (before.contains(key) || (key == name && model.dom().contains(name))) by {
        if after.contains(key) {
            let j = choose|j: int| 0 <= j < i + 1 && mapping.destination(#[trigger] names[j]) == key;
            if j < i {
                assert(mapping.destination(names[j]) == key);
            }
        }
        if before.contains(key) {
            let j = choose|j: int| 0 <= j < i && mapping.destination(#[trigger] names[j]) == key;
            assert(mapping.destination(names[j]) == key);
        }
        if key == name {
            assert(mapping.destination(names[i]) == key);
        }
    }
    assert(after =~= if model.dom().contains(name) {
        before.insert(name)
    } else {
        before
    });
}

/// Checks and plans a load without any mapping; missing and unexpected names fail it.
pub fn load_state_dict(file: &NameMap<TensorSpec>, model: &NameMap<TensorSpec>) -> (r: Result<LoadPlan>)
    requires
        file.wf(),
        model.wf(),
    ensures
        refusal(r) == load_refusal(
            MappingView::identity(),
            spec_map(model@),
            file.listing(),
            spec_list(file.items()),
            true,
        ),
        r matches Ok(plan) ==> plan.report@ == report_of(MappingView::identity(), spec_map(model@), file.listing())
            && plan.copies.wf() && plan.copies@.dom() == matched(
            MappingView::identity(),
            spec_map(model@),
            file.listing(),
            file.listing().len() as int,
        ) && forall|name: Seq<char>| #[trigger]
            plan.copies@.dom().contains(name) ==> is_source(
                MappingView::identity(),
                file.listing(),
                file.listing().len() as int,
                name,
                plan.copies@[name] as int,
            ),
{
    let mapping = StateDictMapping::new();
    load_state_dict_with_mapping(file, model, &mapping, LoadOptions::strict())
}

/// Why a file is refused by its name, if it is.
pub open spec fn extension_refusal(path: Seq<char>, extension: Option<Seq<char>>) -> Option<ErrorView> {
    if extension == Some("safetensors"@) {
        None
    } else {
        Some(ErrorView::UnsupportedModelFile { path, reason: "expected a .safetensors weight file"@ })
    }
}

/// Checks the extension of a file name.
pub fn require_safetensors(path: &str, extension: Option<&str>) -> (r: Result<()>)
    ensures
        refusal(r) == extension_refusal(
            path@,
            match extension {
                Some(e) => Some(e@),
                None => None,
            },
        ),
{
    if let Some(extension) = extension {
        if same(extension, "safetensors") {
            return Ok(());
        }
    }
    Err(
        RustTorchError::UnsupportedModelFile {
            path: owned(path),
            reason: owned("expected a .safetensors weight file"),
        },
    )
}

/// Without entries, every name is kept.
pub proof fn identity_keeps_names(source: Seq<char>)
    ensures
        MappingView::identity().destination(source) == source,
{
}

/// An exact entry wins over every prefix.
pub proof fn exact_entries_win(mapping: MappingView, source: Seq<char>, destination: Seq<char>)
    ensures
        (MappingView { exact: mapping.exact.insert(source, destination), ..mapping }).destination(source) == destination,
{
}

/// Of the prefixes that apply, the longest is replaced.
pub proof fn longest_prefix_wins(mapping: MappingView, source: Seq<char>, prefix: Seq<char>)
    requires
        !mapping.exact.dom().contains(source),
        mapping.is_longest(source, prefix),
    ensures
        mapping.destination(source) == mapping.prefixes[prefix] + source.skip(prefix.len() as int),
{
    let chosen = choose|p: Seq<char>| mapping.is_longest(source, p);
    longest_is_unique(mapping, source, prefix, chosen);
    assert(mapping.applies(source));
}

/// A strict load that is accepted covers the model: every name of the model gets a value of the
/// same shape and element type, and the file holds nothing else.
pub proof fn strict_loads_cover_the_model(
    mapping: MappingView,
    model: Map<Seq<char>, TensorSpecView>,
    names: Seq<Seq<char>>,
    specs: Seq<TensorSpecView>,
)
    requires
        model.dom().finite(),
        load_refusal(mapping, model, names, specs, true) is None,
    ensures
        matched(mapping, model, names, names.len() as int) == model.dom(),
        forall|i: int|
            0 <= i < names.len() ==> model.dom().contains(mapping.destination(#[trigger] names[i])) && model[mapping.destination(
                names[i],
            )].shape == specs[i].shape && model[mapping.destination(names[i])].kind == specs[i].kind,
{
    let n = names.len() as int;
    let found = matched(mapping, model, names, n);
    let gap = model.dom().difference(found);
    first_at_none(0, n, entry_checks(mapping, model, names, specs));
    crate::names::listing_exists(gap);
    assert(found =~= model.dom()) by {
        assert forall|name: Seq<char>| model.dom().contains(name) implies found.contains(name) by {
            if !found.contains(name) {
                assert(gap.contains(name));
                assert(listing_in(gap).contains(name));
            }
        }
    }
    unmatched_none(mapping, model, names, n);
    assert forall|i: int| 0 <= i < n implies model.dom().contains(mapping.destination(#[trigger] names[i])) && model[mapping.destination(
        names[i],
    )].shape == specs[i].shape && model[mapping.destination(names[i])].kind == specs[i].kind by {
        assert(entry_checks(mapping, model, names, specs)(i) is None);
    }
}

proof fn unmatched_none(mapping: MappingView, model: Map<Seq<char>, TensorSpecView>, names: Seq<Seq<char>>, n: int)
    requires
        0 <= n <= names.len(),
        unmatched(mapping, model, names, n).len() == 0,
    ensures
        forall|i: int| 0 <= i < n ==> model.dom().contains(mapping.destination(#[trigger] names[i])),
    decreases n,
{
    if n > 0 {
        unmatched_none(mapping, model, names, n - 1);
    }
}

/// Saved weights are loaded again: a file that lists exactly what the model holds is accepted
/// strictly and without a mapping, and every name of the model gets its value.
pub proof fn saved_weights_load_again(model: Map<Seq<char>, TensorSpecView>, names: Seq<Seq<char>>, specs: Seq<TensorSpecView>)
    requires
        ascending(names),
        names.len() == specs.len(),
        names.to_set() == model.dom(),
        forall|i: int| 0 <= i < names.len() ==> model[#[trigger] names[i]] == specs[i],
    ensures
        load_refusal(MappingView::identity(), model, names, specs, true) is None,
        matched(MappingView::identity(), model, names, names.len() as int) == model.dom(),
{
    let m = MappingView::identity();
    let n = names.len() as int;
    ascending_is_distinct(names);
    assert forall|i: int| 0 <= i < n implies (#[trigger] entry_checks(m, model, names, specs)(i)) is None by {
        assert(names.to_set().contains(names[i]));
        assert forall|j: int| 0 <= j < i implies m.destination(#[trigger] names[j]) != m.destination(names[i]) by {}
    }
    first_at_none(0, n, entry_checks(m, model, names, specs));
    let found = matched(m, model, names, n);
    assert(found =~= model.dom()) by {
        assert forall|name: Seq<char>| model.dom().contains(name) implies found.contains(name) by {
            assert(names.to_set().contains(name));
            let i = names.index_of(name);
            assert(m.destination(names[i]) == name);
        }
    }
    let gap = model.dom().difference(found);
    assert(gap =~= Set::empty());
    crate::names::listing_exists(gap);
    let none = listing_in(gap);
    if none.len() > 0 {
        assert(none.contains(none[0]));
    }
    all_matched(m, model, names, n);
}

proof fn all_matched(mapping: MappingView, model: Map<Seq<char>, TensorSpecView>, names: Seq<Seq<char>>, n: int)
    requires
        0 <= n <= names.len(),
        names.to_set() == model.dom(),
        forall|i: int| 0 <= i < names.len() ==> mapping.destination(#[trigger] names[i]) == names[i],
    ensures
        unmatched(mapping, model, names, n).len() == 0,
    decreases n,
{
    if n > 0 {
        all_matched(mapping, model, names, n - 1);
        assert(names.to_set().contains(names[n - 1]));
    }
}

} // verus!
