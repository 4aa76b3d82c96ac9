//! Calling structures as JSON.
use super::super::tree::{walked, walked_entries, walked_items, Tree, TreeView, MAX_DEPTH};
use super::json::{
    array, as_array, as_string, element, entries_view, field, get, item, items_view, list_parts, lookup, object_parts, present, string,
    Json, JsonView,
};
use crate::error::{deployment_error, deployment_text, outcome, texts, ErrorView, Result};
use crate::text::{join, owned, same};
use vstd::prelude::*;

verus! {

/// The strings that a JSON text lists, or why it does not. This is what
/// `serde_json::from_str` finds for a list of strings.
pub uninterp spec fn listed_strings(text: Seq<char>) -> core::result::Result<Seq<Seq<char>>, Seq<char>>;

/// Calls `serde_json::from_str` for a list of strings. The result is named.
#[verifier::external_body]
fn parse_strings(text: &str) -> (r: core::result::Result<Vec<String>, String>)
    ensures
        match (r, listed_strings(text@)) {
            (Ok(list), Ok(expected)) => texts(list@) == expected,
            (Err(e), Err(expected)) => e@ == expected,
            _ => false,
        },
{
    match serde_json::from_str::<Vec<String>>(text) {
        Ok(list) => Ok(list),
        Err(e) => Err(e.to_string()),
    }
}

/// Calls `serde_json::to_string` on a list of strings, which cannot fail. What it writes is
/// read back by `serde_json::from_str`.
#[verifier::external_body]
fn write_strings(list: &Vec<String>) -> (r: String)
    ensures
        listed_strings(r@) is Ok,
        listed_strings(r@)->Ok_0 == texts(list@),
{
    serde_json::to_string(list).unwrap_or_default()
}

/// A tree and how many names it has used, or why there is none.
pub type Parsed = core::result::Result<(TreeView, int), ErrorView>;

/// Trees and how many names they have used, or why there are none.
pub type ParsedList = core::result::Result<(Seq<TreeView>, int), ErrorView>;

/// Keys and values side by side.
pub open spec fn paired(keys: Seq<Seq<char>>, values: Seq<TreeView>) -> Seq<(Seq<char>, TreeView)> {
    Seq::new(keys.len(), |i: int| (keys[i], values[i]))
}

/// The tree that a node describes, with the names from place `at` on as its leaves.
pub open spec fn tree_of(v: JsonView, names: Seq<Seq<char>>, at: int, depth: int) -> Parsed
    decreases MAX_DEPTH + 1 - depth, 1nat, 0nat,
{
    if depth > MAX_DEPTH {
        Err(deployment_text("PT2 calling tree exceeds depth limit"@))
    } else {
        match as_array(field(v, "children_spec"@)) {
            Err(e) => Err(e),
            Ok(children) => if field(v, "type"@) is Null {
                if children.len() > 0 {
                    Err(deployment_text("invalid PT2 tensor leaf"@))
                } else if at >= names.len() {
                    Err(deployment_text("too many calling tree leaves"@))
                } else {
                    Ok((TreeView::Tensor(names[at]), at + 1))
                }
            } else {
                match trees_of(children, names, at, depth, children.len()) {
                    Err(e) => Err(e),
                    Ok((trees, next)) => match as_string(field(v, "type"@)) {
                        Err(e) => Err(e),
                        Ok(kind) => match container_of(kind, field(v, "context"@), trees) {
                            Err(e) => Err(e),
                            Ok(tree) => Ok((tree, next)),
                        },
                    },
                }
            },
        }
    }
}

/// The trees of the first `n` children of a node at `depth`.
pub open spec fn trees_of(children: Seq<JsonView>, names: Seq<Seq<char>>, at: int, depth: int, n: nat) -> ParsedList
    decreases MAX_DEPTH + 1 - depth, 0nat, n,
    when depth <= MAX_DEPTH
{
    if n == 0 {
        Ok((Seq::empty(), at))
    } else {
        match trees_of(children, names, at, depth, (n - 1) as nat) {
            Err(e) => Err(e),
            Ok((list, next)) => match tree_of(children[n - 1], names, next, depth + 1) {
                Err(e) => Err(e),
                Ok((tree, after)) => Ok((list.push(tree), after)),
            },
        }
    }
}

/// A container of a kind with the given subtrees.
pub open spec fn container_of(kind: Seq<char>, context: JsonView, trees: Seq<TreeView>) -> core::result::Result<TreeView, ErrorView> {
    if kind == "builtins.tuple"@ {
        Ok(TreeView::Tuple(trees))
    } else if kind == "builtins.list"@ {
        Ok(TreeView::List(trees))
    } else if kind == "builtins.dict"@ {
        match as_string(context) {
            Err(e) => Err(e),
            Ok(text) => match listed_strings(text) {
                Err(e) => Err(deployment_text(e)),
                Ok(keys) => if keys.len() != trees.len() {
                    Err(deployment_text("PT2 dictionary key count mismatch"@))
                } else {
                    Ok(TreeView::Dict(paired(keys, trees)))
                },
            },
        }
    } else {
        Err(deployment_text("unsupported PT2 calling tree "@ + kind))
    }
}

/// The tree that a calling specification describes: its version is one, and its leaves are
/// exactly the given names.
pub open spec fn parsed_tree(root: JsonView, names: Seq<Seq<char>>) -> core::result::Result<TreeView, ErrorView> {
    if element(root, 0) != JsonView::Int(1) {
        Err(deployment_text("unsupported PT2 tree version"@))
    } else {
        match tree_of(element(root, 1), names, 0, 0) {
            Err(e) => Err(e),
            Ok((tree, used)) => if used < names.len() {
                Err(deployment_text("too few calling tree leaves"@))
            } else {
                match walked(tree, 0, Seq::empty()) {
                    Err(e) => Err(e),
                    Ok(_) => Ok(tree),
                }
            },
        }
    }
}

proof fn trees_fail(children: Seq<JsonView>, names: Seq<Seq<char>>, at: int, depth: int, k: nat, n: nat)
    requires
        k <= n,
        depth <= MAX_DEPTH,
        trees_of(children, names, at, depth, k) is Err,
    ensures
        trees_of(children, names, at, depth, n) == trees_of(children, names, at, depth, k),
    decreases n - k,
{
    if k < n {
        trees_fail(children, names, at, depth, k, (n - 1) as nat);
    }
}

fn read_tree(v: &Json, names: &Vec<String>, at: &mut usize, depth: usize) -> (r: Result<Tree>)
    requires
        *old(at) <= names@.len(),
        depth <= MAX_DEPTH + 1,
    ensures
        *final(at) <= names@.len(),
        match (r, tree_of(v@, texts(names@), *old(at) as int, depth as int)) {
            (Ok(tree), Ok((expected, next))) => tree@ == expected && *final(at) == next,
            (Err(e), Err(expected)) => e@ == expected,
            _ => false,
        },
    decreases MAX_DEPTH + 1 - depth, 1nat,
{
    if depth > MAX_DEPTH {
        return Err(deployment_error("PT2 calling tree exceeds depth limit"));
    }
    let children = match array(get(Some(v), "children_spec")) {
        Ok(children) => children,
        Err(e) => {
            return Err(e);
        },
    };
    let kind = get(Some(v), "type");
    let leaf = match kind {
        None => true,
        Some(Json::Null) => true,
        _ => false,
    };
    assert(leaf == (field(v@, "type"@) is Null));
    if leaf {
        if children.len() > 0 {
            return Err(deployment_error("invalid PT2 tensor leaf"));
        }
        if *at >= names.len() {
            return Err(deployment_error("too many calling tree leaves"));
        }
        assert(texts(names@)[*at as int] == names@[*at as int]@);
        let name = names[*at].clone();
        *at = *at + 1;
        return Ok(Tree::Tensor(name));
    }
    let ghost start = *at;
    let trees = match read_trees(children, names, at, depth) {
        Ok(trees) => trees,
        Err(e) => {
            return Err(e);
        },
    };
    match string(kind) {
        Err(e) => Err(e),
        Ok(kind) => read_container(kind, get(Some(v), "context"), trees),
    }
}

fn read_trees(children: &Vec<Json>, names: &Vec<String>, at: &mut usize, depth: usize) -> (r: Result<Vec<Tree>>)
    requires
        *old(at) <= names@.len(),
        depth <= MAX_DEPTH,
    ensures
        *final(at) <= names@.len(),
        match (r, trees_of(items_view(children@), texts(names@), *old(at) as int, depth as int, children@.len())) {
            (Ok(trees), Ok((expected, next))) => trees@.map_values(|t: Tree| t@) == expected && *final(at) == next,
            (Err(e), Err(expected)) => e@ == expected,
            _ => false,
        },
    decreases MAX_DEPTH + 1 - depth, 0nat,
{
    let ghost view = items_view(children@);
    let ghost labels = texts(names@);
    let ghost start = *at as int;
    let mut out: Vec<Tree> = Vec::new();
    let mut i: usize = 0;
    assert(out@.map_values(|t: Tree| t@) =~= Seq::empty());
    while i < children.len()
        invariant
            view == items_view(children@),
            labels == texts(names@),
            start == *old(at),
            depth <= MAX_DEPTH,
            i <= children@.len(),
            *at <= names@.len(),
            trees_of(view, labels, start, depth as int, i as nat) == Ok::<(Seq<TreeView>, int), ErrorView>(
                (out@.map_values(|t: Tree| t@), *at as int),
            ),
        decreases children@.len() - i,
    {
        proof {
            assert(view[i as int] == children@[i as int]@);
            if trees_of(view, labels, start, depth as int, (i + 1) as nat) is Err {
                trees_fail(view, labels, start, depth as int, (i + 1) as nat, children@.len());
            }
        }
        match read_tree(&children[i], names, at, depth + 1) {
            Ok(tree) => {
                let ghost before = out@.map_values(|t: Tree| t@);
                out.push(tree);
                assert(out@.map_values(|t: Tree| t@) =~= before.push(tree@));
            },
            Err(e) => {
                return Err(e);
            },
        }
        i += 1;
    }
    Ok(out)
}

fn pair(keys: Vec<String>, trees: Vec<Tree>) -> (r: Vec<(String, Tree)>)
    requires
        keys@.len() == trees@.len(),
    ensures
        r@.map_values(|e: (String, Tree)| (e.0@, e.1@)) == paired(texts(keys@), trees@.map_values(|t: Tree| t@)),
{
    let ghost labels = keys@;
    let ghost values = trees@;
    let mut keys = keys;
    let mut trees = trees;
    let mut out: Vec<(String, Tree)> = Vec::new();
    while keys.len() > 0
        invariant
            labels.len() == values.len(),
            keys@.len() == trees@.len(),
            out@.len() + keys@.len() == labels.len(),
            keys@ == labels.skip(out@.len() as int),
            trees@ == values.skip(out@.len() as int),
            forall|j: int| #![trigger out@[j]] 0 <= j < out@.len() ==> out@[j].0 == labels[j] && out@[j].1 == values[j],
        decreases keys@.len(),
    {
        let ghost k = out@.len() as int;
        let key = keys.remove(0);
        let tree = trees.remove(0);
        assert(key == labels[k] && tree == values[k]);
        out.push((key, tree));
        assert(keys@ =~= labels.skip(k + 1));
        assert(trees@ =~= values.skip(k + 1));
    }
    assert(out@.map_values(|e: (String, Tree)| (e.0@, e.1@)) =~= paired(texts(labels), values.map_values(|t: Tree| t@)));
    out
}

fn read_container(kind: &str, context: Option<&Json>, trees: Vec<Tree>) -> (r: Result<Tree>)
    ensures
        outcome(r) == container_of(kind@, present(context), trees@.map_values(|t: Tree| t@)),
{
    if same(kind, "builtins.tuple") {
        proof {
            Tree::tuple_view(trees);
        }
        Ok(Tree::Tuple(trees))
    } else if same(kind, "builtins.list") {
        proof {
            Tree::list_view(trees);
        }
        Ok(Tree::List(trees))
    } else if same(kind, "builtins.dict") {
        let text = match string(context) {
            Ok(text) => text,
            Err(e) => {
                return Err(e);
            },
        };
        match parse_strings(text) {
            Err(e) => Err(deployment_error(e.as_str())),
            Ok(keys) => {
                assert(texts(keys@).len() == keys@.len());
                assert(trees@.map_values(|t: Tree| t@).len() == trees@.len());
                if keys.len() != trees.len() {
                    return Err(deployment_error("PT2 dictionary key count mismatch"));
                }
                let entries = pair(keys, trees);
                proof {
                    Tree::dict_view(entries);
                }
                Ok(Tree::Dict(entries))
            },
        }
    } else {
        let message = join("unsupported PT2 calling tree ", kind);
        Err(deployment_error(message.as_str()))
    }
}

/// Reads a calling specification whose leaves are the given names.
pub fn parse_tree(root: &Json, names: &Vec<String>) -> (r: Result<Tree>)
    ensures
        outcome(r) == parsed_tree(root@, texts(names@)),
{
    let version = match item(Some(root), 0) {
        Some(Json::Int(n)) => *n == 1,
        _ => false,
    };
    if !version {
        return Err(deployment_error("unsupported PT2 tree version"));
    }
    let mut at: usize = 0;
    let nothing = Json::Null;
    let body = match item(Some(root), 1) {
        Some(body) => body,
        None => &nothing,
    };
    assert(body@ == element(root@, 1));
    let tree = match read_tree(body, names, &mut at, 0) {
        Ok(tree) => tree,
        Err(e) => {
            return Err(e);
        },
    };
    if at < names.len() {
        return Err(deployment_error("too few calling tree leaves"));
    }
    match tree.leaves() {
        Ok(_) => Ok(tree),
        Err(e) => Err(e),
    }
}

/// The parts of a node of a calling specification.
pub open spec fn node_parts(kind: JsonView, context: JsonView, children: Seq<JsonView>) -> JsonView {
    JsonView::Object(
        seq![
            ("children_spec"@, JsonView::List(children)),
            ("context"@, context),
            ("type"@, kind),
        ],
    )
}

/// A value describes a tree. The text that lists the keys of a dictionary is left to the
/// writer of JSON.
pub open spec fn describes(v: JsonView, tree: TreeView) -> bool
    decreases tree, 0nat,
{
    match tree {
        TreeView::Tensor(_) => v == node_parts(JsonView::Null, JsonView::Null, Seq::empty()),
        TreeView::Tuple(items) => {
            &&& field(v, "children_spec"@) is List
            &&& v == node_parts(
                JsonView::Text("builtins.tuple"@),
                JsonView::Text("null"@),
                field(v, "children_spec"@)->List_0,
            )
            &&& field(v, "children_spec"@)->List_0.len() == items.len()
            &&& describes_all(field(v, "children_spec"@)->List_0, items, items.len())
        },
        TreeView::List(items) => {
            &&& field(v, "children_spec"@) is List
            &&& v == node_parts(
                JsonView::Text("builtins.list"@),
                JsonView::Text("null"@),
                field(v, "children_spec"@)->List_0,
            )
            &&& field(v, "children_spec"@)->List_0.len() == items.len()
            &&& describes_all(field(v, "children_spec"@)->List_0, items, items.len())
        },
        TreeView::Dict(items) => {
            &&& field(v, "children_spec"@) is List
            &&& field(v, "context"@) is Text
            &&& v == node_parts(
                JsonView::Text("builtins.dict"@),
                field(v, "context"@),
                field(v, "children_spec"@)->List_0,
            )
            &&& listed_strings(field(v, "context"@)->Text_0) == Ok::<Seq<Seq<char>>, Seq<char>>(
                items.map_values(|e: (Seq<char>, TreeView)| e.0),
            )
            &&& field(v, "children_spec"@)->List_0.len() == items.len()
            &&& describes_values(field(v, "children_spec"@)->List_0, items, items.len())
        },
    }
}

/// The first `n` values describe the first `n` trees.
pub open spec fn describes_all(values: Seq<JsonView>, trees: Seq<TreeView>, n: nat) -> bool
    decreases trees, n,
{
    n == 0 || (n <= trees.len() && describes_all(values, trees, (n - 1) as nat) && describes(
        values[n - 1],
        trees[n - 1],
    ))
}

/// The first `n` values describe the trees of the first `n` entries.
pub open spec fn describes_values(values: Seq<JsonView>, entries: Seq<(Seq<char>, TreeView)>, n: nat) -> bool
    decreases entries, n,
{
    n == 0 || (n <= entries.len() && describes_values(values, entries, (n - 1) as nat) && describes(
        values[n - 1],
        entries[n - 1].1,
    ))
}

/// The description of a calling structure: a version and a node.
pub open spec fn describes_root(root: JsonView, tree: TreeView) -> bool {
    &&& root is List
    &&& root->List_0.len() == 2
    &&& root->List_0[0] == JsonView::Int(1)
    &&& describes(root->List_0[1], tree)
}

proof fn node_fields(kind: JsonView, context: JsonView, children: Seq<JsonView>)
    ensures
        field(node_parts(kind, context, children), "children_spec"@) == JsonView::List(children),
        field(node_parts(kind, context, children), "context"@) == context,
        field(node_parts(kind, context, children), "type"@) == kind,
{
    reveal_strlit("children_spec");
    reveal_strlit("context");
    reveal_strlit("type");
    reveal_with_fuel(lookup, 4);
    assert("children_spec"@.len() == 13 && "context"@.len() == 7 && "type"@.len() == 4);
    let entries = node_parts(kind, context, children)->Object_0;
    assert(entries[0] == ("children_spec"@, JsonView::List(children)));
    assert(entries[1] == ("context"@, context));
    assert(entries[2] == ("type"@, kind));
}

/// Writes a node.
fn node(kind: Json, context: Json, children: Vec<Json>) -> (r: Json)
    ensures
        r@ == node_parts(kind@, context@, items_view(children@)),
{
    let mut entries: Vec<(String, Json)> = Vec::new();
    let list = Json::List(children);
    proof {
        list_parts(children);
    }
    entries.push((owned("children_spec"), list));
    entries.push((owned("context"), context));
    entries.push((owned("type"), kind));
    proof {
        object_parts(entries);
        assert(entries_view(entries@) =~= seq![
            ("children_spec"@, JsonView::List(items_view(children@))),
            ("context"@, context@),
            ("type"@, kind@),
        ]);
    }
    Json::Object(entries)
}

fn text_node(text: &str) -> (r: Json)
    ensures
        r@ == JsonView::Text(text@),
{
    Json::Text(owned(text))
}

fn describe(tree: &Tree) -> (r: Json)
    ensures
        describes(r@, tree@),
    decreases tree,
{
    match tree {
        Tree::Tensor(_) => {
            let none: Vec<Json> = Vec::new();
            assert(items_view(none@) =~= Seq::empty());
            node(Json::Null, Json::Null, none)
        },
        Tree::Tuple(items) => {
            let children = describe_all(items);
            let ghost view = items_view(children@);
            proof {
                Tree::tuple_view(*items);
                node_fields(JsonView::Text("builtins.tuple"@), JsonView::Text("null"@), view);
            }
            node(text_node("builtins.tuple"), text_node("null"), children)
        },
        Tree::List(items) => {
            let children = describe_all(items);
            let ghost view = items_view(children@);
            proof {
                Tree::list_view(*items);
                node_fields(JsonView::Text("builtins.list"@), JsonView::Text("null"@), view);
            }
            node(text_node("builtins.list"), text_node("null"), children)
        },
        Tree::Dict(items) => {
            let (keys, children) = describe_entries(items);
            let ghost view = items_view(children@);
            let text = write_strings(&keys);
            proof {
                Tree::dict_view(*items);
                node_fields(JsonView::Text("builtins.dict"@), JsonView::Text(text@), view);
            }
            node(text_node("builtins.dict"), Json::Text(text), children)
        },
    }
}

proof fn describes_all_again(before: Seq<JsonView>, after: Seq<JsonView>, trees: Seq<TreeView>, n: nat)
    requires
        n <= before.len() <= after.len(),
        forall|j: int| 0 <= j < before.len() ==> before[j] == #[trigger] after[j],
        describes_all(before, trees, n),
    ensures
        describes_all(after, trees, n),
    decreases n,
{
    if n > 0 {
        describes_all_again(before, after, trees, (n - 1) as nat);
    }
}

proof fn describes_values_again(
    before: Seq<JsonView>,
    after: Seq<JsonView>,
    entries: Seq<(Seq<char>, TreeView)>,
    n: nat,
)
    requires
        n <= before.len() <= after.len(),
        forall|j: int| 0 <= j < before.len() ==> before[j] == #[trigger] after[j],
        describes_values(before, entries, n),
    ensures
        describes_values(after, entries, n),
    decreases n,
{
    if n > 0 {
        describes_values_again(before, after, entries, (n - 1) as nat);
    }
}

fn describe_all(items: &Vec<Tree>) -> (r: Vec<Json>)
    ensures
        r@.len() == items@.len(),
        describes_all(items_view(r@), items@.map_values(|t: Tree| t@), items@.len()),
    decreases items,
{
    let ghost trees = items@.map_values(|t: Tree| t@);
    let mut out: Vec<Json> = Vec::new();
    let mut i: usize = 0;
    while i < items.len()
        invariant
            trees == items@.map_values(|t: Tree| t@),
            i <= items@.len(),
            out@.len() == i,
            describes_all(items_view(out@), trees, i as nat),
        decreases items@.len() - i,
    {
        assert(decreases_to!(items => items@[i as int]));
        let value = describe(&items[i]);
        let ghost before = items_view(out@);
        out.push(value);
        proof {
            describes_all_again(before, items_view(out@), trees, i as nat);
            assert(items_view(out@)[i as int] == value@);
            assert(trees[i as int] == items@[i as int]@);
        }
        i += 1;
    }
    out
}

fn describe_entries(items: &Vec<(String, Tree)>) -> (r: (Vec<String>, Vec<Json>))
    ensures
        texts(r.0@) == items@.map_values(|e: (String, Tree)| (e.0@, e.1@)).map_values(|e: (Seq<char>, TreeView)| e.0),
        r.1@.len() == items@.len(),
        describes_values(items_view(r.1@), items@.map_values(|e: (String, Tree)| (e.0@, e.1@)), items@.len()),
    decreases items,
{
    let ghost entries = items@.map_values(|e: (String, Tree)| (e.0@, e.1@));
    let mut keys: Vec<String> = Vec::new();
    let mut out: Vec<Json> = Vec::new();
    let mut i: usize = 0;
    while i < items.len()
        invariant
            entries == items@.map_values(|e: (String, Tree)| (e.0@, e.1@)),
            i <= items@.len(),
            out@.len() == i,
            keys@.len() == i,
            forall|j: int| 0 <= j < i ==> (#[trigger] keys@[j])@ == items@[j].0@,
            describes_values(items_view(out@), entries, i as nat),
        decreases items@.len() - i,
    {
        let entry = &items[i];
        assert(decreases_to!(items => items@[i as int]));
        assert(decreases_to!(items@[i as int] => items@[i as int].1));
        let value = describe(&entry.1);
        let ghost before = items_view(out@);
        keys.push(entry.0.clone());
        out.push(value);
        proof {
            describes_values_again(before, items_view(out@), entries, i as nat);
            assert(items_view(out@)[i as int] == value@);
            assert(entries[i as int] == (entry.0@, entry.1@));
        }
        i += 1;
    }
    assert(texts(keys@) =~= entries.map_values(|e: (Seq<char>, TreeView)| e.0));
    (keys, out)
}

/// Describes a calling structure.
pub fn tree_json(tree: &Tree) -> (r: Json)
    ensures
        describes_root(r@, tree@),
{
    let mut items: Vec<Json> = Vec::new();
    items.push(Json::Int(1));
    items.push(describe(tree));
    proof {
        list_parts(items);
    }
    Json::List(items)
}

/// What a walk lists starts with what was listed before.
proof fn walk_extends(tree: TreeView, depth: int, out: Seq<Seq<char>>)
    requires
        walked(tree, depth, out) is Ok,
    ensures
        walked(tree, depth, out)->Ok_0.len() >= out.len(),
        walked(tree, depth, out)->Ok_0.take(out.len() as int) == out,
    decreases tree, 0nat,
{
    match tree {
        TreeView::Tensor(name) => {
            assert(out.push(name).take(out.len() as int) =~= out);
        },
        TreeView::Tuple(items) => walk_items_extend(items, items.len(), depth, out),
        TreeView::List(items) => walk_items_extend(items, items.len(), depth, out),
        TreeView::Dict(items) => walk_entries_extend(items, items.len(), depth, out),
    }
}

proof fn walk_items_extend(items: Seq<TreeView>, n: nat, depth: int, out: Seq<Seq<char>>)
    requires
        n <= items.len(),
        walked_items(items, n, depth, out) is Ok,
    ensures
        walked_items(items, n, depth, out)->Ok_0.len() >= out.len(),
        walked_items(items, n, depth, out)->Ok_0.take(out.len() as int) == out,
    decreases items, n,
{
    if n == 0 {
        assert(out.take(out.len() as int) =~= out);
    } else {
        walk_items_extend(items, (n - 1) as nat, depth, out);
        let middle = walked_items(items, (n - 1) as nat, depth, out)->Ok_0;
        assert(decreases_to!(items => items[n - 1]));
        walk_extends(items[n - 1], depth + 1, middle);
        let after = walked_items(items, n, depth, out)->Ok_0;
        assert(after.take(out.len() as int) =~= after.take(middle.len() as int).take(out.len() as int));
    }
}

proof fn walk_entries_extend(items: Seq<(Seq<char>, TreeView)>, n: nat, depth: int, out: Seq<Seq<char>>)
    requires
        n <= items.len(),
        walked_entries(items, n, depth, out) is Ok,
    ensures
        walked_entries(items, n, depth, out)->Ok_0.len() >= out.len(),
        walked_entries(items, n, depth, out)->Ok_0.take(out.len() as int) == out,
    decreases items, n,
{
    if n == 0 {
        assert(out.take(out.len() as int) =~= out);
    } else {
        walk_entries_extend(items, (n - 1) as nat, depth, out);
        let middle = walked_entries(items, (n - 1) as nat, depth, out)->Ok_0;
        assert(decreases_to!(items => items[n - 1]));
        assert(decreases_to!(items[n - 1] => items[n - 1].1));
        walk_extends(items[n - 1].1, depth + 1, middle);
        let after = walked_entries(items, n, depth, out)->Ok_0;
        assert(after.take(out.len() as int) =~= after.take(middle.len() as int).take(out.len() as int));
    }
}

/// The names start with `part`.
spec fn leads(part: Seq<Seq<char>>, names: Seq<Seq<char>>) -> bool {
    part.len() <= names.len() && names.take(part.len() as int) == part
}

proof fn node_survives(v: JsonView, tree: TreeView, names: Seq<Seq<char>>, depth: int, out: Seq<Seq<char>>)
    requires
        describes(v, tree),
        walked(tree, depth, out) is Ok,
        leads(walked(tree, depth, out)->Ok_0, names),
    ensures
        tree_of(v, names, out.len() as int, depth) == Ok::<(TreeView, int), ErrorView>(
            (tree, walked(tree, depth, out)->Ok_0.len() as int),
        ),
    decreases tree, 0nat,
{
    let after = walked(tree, depth, out)->Ok_0;
    match tree {
        TreeView::Tensor(name) => {
            node_fields(JsonView::Null, JsonView::Null, Seq::empty());
            assert(after == out.push(name));
            assert(names.take(after.len() as int)[out.len() as int] == name);
        },
        TreeView::Tuple(items) => {
            let children = field(v, "children_spec"@)->List_0;
            node_fields(JsonView::Text("builtins.tuple"@), JsonView::Text("null"@), children);
            nodes_survive(children, items, names, depth, out, items.len());
            assert(items.take(items.len() as int) =~= items);
        },
        TreeView::List(items) => {
            let children = field(v, "children_spec"@)->List_0;
            node_fields(JsonView::Text("builtins.list"@), JsonView::Text("null"@), children);
            nodes_survive(children, items, names, depth, out, items.len());
            assert(items.take(items.len() as int) =~= items);
            reveal_strlit("builtins.tuple");
            reveal_strlit("builtins.list");
        },
        TreeView::Dict(items) => {
            let children = field(v, "children_spec"@)->List_0;
            node_fields(JsonView::Text("builtins.dict"@), field(v, "context"@), children);
            entries_survive(children, items, names, depth, out, items.len());
            let keys = items.map_values(|e: (Seq<char>, TreeView)| e.0);
            let trees = items.map_values(|e: (Seq<char>, TreeView)| e.1);
            assert(trees.take(items.len() as int) =~= trees);
            assert(paired(keys, trees) =~= items);
            reveal_strlit("builtins.tuple");
            reveal_strlit("builtins.list");
            reveal_strlit("builtins.dict");
            assert("builtins.dict"@[9] == 'd' && "builtins.list"@[9] == 'l');
        },
    }
}

proof fn nodes_survive(
    values: Seq<JsonView>,
    trees: Seq<TreeView>,
    names: Seq<Seq<char>>,
    depth: int,
    out: Seq<Seq<char>>,
    n: nat,
)
    requires
        describes_all(values, trees, n),
        depth <= MAX_DEPTH,
        n <= trees.len(),
        walked_items(trees, n, depth, out) is Ok,
        leads(walked_items(trees, n, depth, out)->Ok_0, names),
    ensures
        trees_of(values, names, out.len() as int, depth, n) == Ok::<(Seq<TreeView>, int), ErrorView>(
            (trees.take(n as int), walked_items(trees, n, depth, out)->Ok_0.len() as int),
        ),
    decreases trees, n,
{
    if n == 0 {
        assert(trees.take(0) =~= Seq::empty());
    } else {
        let middle = walked_items(trees, (n - 1) as nat, depth, out)->Ok_0;
        let after = walked_items(trees, n, depth, out)->Ok_0;
        walk_extends(trees[n - 1], depth + 1, middle);
        assert(names.take(middle.len() as int) =~= names.take(after.len() as int).take(middle.len() as int));
        nodes_survive(values, trees, names, depth, out, (n - 1) as nat);
        assert(decreases_to!(trees => trees[n - 1]));
        node_survives(values[n - 1], trees[n - 1], names, depth + 1, middle);
        assert(trees.take(n - 1).push(trees[n - 1]) =~= trees.take(n as int));
    }
}

proof fn entries_survive(
    values: Seq<JsonView>,
    entries: Seq<(Seq<char>, TreeView)>,
    names: Seq<Seq<char>>,
    depth: int,
    out: Seq<Seq<char>>,
    n: nat,
)
    requires
        describes_values(values, entries, n),
        depth <= MAX_DEPTH,
        n <= entries.len(),
        walked_entries(entries, n, depth, out) is Ok,
        leads(walked_entries(entries, n, depth, out)->Ok_0, names),
    ensures
        trees_of(values, names, out.len() as int, depth, n) == Ok::<(Seq<TreeView>, int), ErrorView>(
            (
                entries.map_values(|e: (Seq<char>, TreeView)| e.1).take(n as int),
                walked_entries(entries, n, depth, out)->Ok_0.len() as int,
            ),
        ),
    decreases entries, n,
{
    let trees = entries.map_values(|e: (Seq<char>, TreeView)| e.1);
    if n == 0 {
        assert(trees.take(0) =~= Seq::empty());
    } else {
        let middle = walked_entries(entries, (n - 1) as nat, depth, out)->Ok_0;
        let after = walked_entries(entries, n, depth, out)->Ok_0;
        walk_extends(entries[n - 1].1, depth + 1, middle);
        assert(names.take(middle.len() as int) =~= names.take(after.len() as int).take(middle.len() as int));
        entries_survive(values, entries, names, depth, out, (n - 1) as nat);
        assert(decreases_to!(entries => entries[n - 1]));
        assert(decreases_to!(entries[n - 1] => entries[n - 1].1));
        node_survives(values[n - 1], entries[n - 1].1, names, depth + 1, middle);
        assert(trees.take(n - 1).push(trees[n - 1]) =~= trees.take(n as int));
    }
}

/// A calling structure that is written and read again with its own leaves is the same.
pub proof fn trees_survive(root: JsonView, tree: TreeView, names: Seq<Seq<char>>)
    requires
        describes_root(root, tree),
        walked(tree, 0, Seq::empty()) == Ok::<Seq<Seq<char>>, ErrorView>(names),
    ensures
        parsed_tree(root, names) == Ok::<TreeView, ErrorView>(tree),
{
    assert(names.take(names.len() as int) =~= names);
    node_survives(root->List_0[1], tree, names, 0, Seq::empty());
}

} // verus!
