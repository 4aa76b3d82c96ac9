//! The calling structure of a program: nested tuples, lists and dictionaries of tensors.
use crate::error::{deployment_error, deployment_text, ErrorView, Result};
use crate::names::NameMap;
use vstd::prelude::*;

verus! {

/// The deepest nesting of trees and of conditional branches.
pub const MAX_DEPTH: usize = 32;

/// The largest number of nodes of a program, and of leaves before a tree is refused.
pub const MAX_NODES: usize = 10000;

/// Tensor-only calling structure.
#[derive(Debug, PartialEq, Eq)]
pub enum Tree {
    /// Tensor identified by its graph value name.
    Tensor(String),
    /// Ordered tuple of subtrees.
    Tuple(Vec<Tree>),
    /// Ordered list of subtrees.
    List(Vec<Tree>),
    /// Ordered dictionary with unique string keys.
    Dict(Vec<(String, Tree)>),
}

/// The content of a [`Tree`].
pub enum TreeView {
    Tensor(Seq<char>),
    Tuple(Seq<TreeView>),
    List(Seq<TreeView>),
    Dict(Seq<(Seq<char>, TreeView)>),
}

/// The content of a tree.
pub open spec fn tree_view(tree: Tree) -> TreeView
    decreases tree,
{
    match tree {
        Tree::Tensor(name) => TreeView::Tensor(name@),
        Tree::Tuple(items) => TreeView::Tuple(
            Seq::new(
                items@.len(),
                |i: int|
                    if 0 <= i < items@.len() {
                        tree_view(items@[i])
                    } else {
                        arbitrary()
                    },
            ),
        ),
        Tree::List(items) => TreeView::List(
            Seq::new(
                items@.len(),
                |i: int|
                    if 0 <= i < items@.len() {
                        tree_view(items@[i])
                    } else {
                        arbitrary()
                    },
            ),
        ),
        Tree::Dict(items) => TreeView::Dict(
            Seq::new(
                items@.len(),
                |i: int|
                    if 0 <= i < items@.len() {
                        (items@[i].0@, tree_view(items@[i].1))
                    } else {
                        arbitrary()
                    },
            ),
        ),
    }
}

impl View for Tree {
    type V = TreeView;

    open spec fn view(&self) -> TreeView {
        tree_view(*self)
    }
}

/// What a walk has listed so far, or why it stopped.
pub type Walk = core::result::Result<Seq<Seq<char>>, ErrorView>;

/// Lists the leaf names of `tree` behind `out`.
pub open spec fn walked(tree: TreeView, depth: int, out: Seq<Seq<char>>) -> Walk
    decreases tree, 0nat,
{
    if depth > MAX_DEPTH || out.len() > MAX_NODES {
        Err(deployment_text("calling tree exceeds limits"@))
    } else {
        match tree {
            TreeView::Tensor(name) => Ok(out.push(name)),
            TreeView::Tuple(items) => walked_items(items, items.len(), depth, out),
            TreeView::List(items) => walked_items(items, items.len(), depth, out),
            TreeView::Dict(items) => walked_entries(items, items.len(), depth, out),
        }
    }
}

/// Lists the leaf names of the first `n` subtrees.
pub open spec fn walked_items(items: Seq<TreeView>, n: nat, depth: int, out: Seq<Seq<char>>) -> Walk
    decreases items, n,
{
    if n == 0 || n > items.len() {
        Ok(out)
    } else {
        match walked_items(items, (n - 1) as nat, depth, out) {
            Err(e) => Err(e),
            Ok(list) => walked(items[n - 1], depth + 1, list),
        }
    }
}

/// Lists the leaf names of the first `n` entries; a key may not occur twice.
pub open spec fn walked_entries(items: Seq<(Seq<char>, TreeView)>, n: nat, depth: int, out: Seq<Seq<char>>) -> Walk
    decreases items, n,
{
    if n == 0 || n > items.len() {
        Ok(out)
    } else {
        match walked_entries(items, (n - 1) as nat, depth, out) {
            Err(e) => Err(e),
            Ok(list) => if exists|j: int| 0 <= j < n - 1 && (#[trigger] items[j]).0 == items[n - 1].0 {
                Err(deployment_text("duplicate dictionary key"@))
            } else {
                walked(items[n - 1].1, depth + 1, list)
            },
        }
    }
}

impl Tree {
    /// The view of a tensor leaf.
    pub proof fn tensor_view(name: String)
        ensures
            Tree::Tensor(name)@ == TreeView::Tensor(name@),
    {
    }

    /// The view of a tuple.
    pub proof fn tuple_view(items: Vec<Tree>)
        ensures
            Tree::Tuple(items)@ == TreeView::Tuple(items@.map_values(|t: Tree| t@)),
    {
        reveal_with_fuel(tree_view, 2);
        assert(Tree::Tuple(items)@->Tuple_0 =~= items@.map_values(|t: Tree| t@));
    }

    /// The view of a list.
    pub proof fn list_view(items: Vec<Tree>)
        ensures
            Tree::List(items)@ == TreeView::List(items@.map_values(|t: Tree| t@)),
    {
        reveal_with_fuel(tree_view, 2);
        assert(Tree::List(items)@->List_0 =~= items@.map_values(|t: Tree| t@));
    }

    /// The view of a dictionary.
    pub proof fn dict_view(items: Vec<(String, Tree)>)
        ensures
            Tree::Dict(items)@ == TreeView::Dict(items@.map_values(|e: (String, Tree)| (e.0@, e.1@))),
    {
        reveal_with_fuel(tree_view, 2);
        assert(Tree::Dict(items)@->Dict_0 =~= items@.map_values(|e: (String, Tree)| (e.0@, e.1@)));
    }

    /// Returns leaf names in calling order, rejecting excessive depth or duplicate dictionary
    /// keys.
    pub fn leaves(&self) -> (r: Result<Vec<&str>>)
        ensures
            match (r, walked(self@, 0, Seq::empty())) {
                (Ok(names), Ok(expected)) => names_view(names@) == expected,
                (Err(e), Err(expected)) => e@ == expected,
                _ => false,
            },
    {
        let mut out: Vec<&str> = Vec::new();
        assert(names_view(out@) =~= Seq::<Seq<char>>::empty());
        match walk(self, 0, &mut out) {
            Ok(()) => Ok(out),
            Err(e) => Err(e),
        }
    }
}

impl Clone for Tree {
    fn clone(&self) -> (r: Self)
        ensures
            r@ == self@,
    {
        copy_tree(self)
    }
}

/// Copies a tree.
pub fn copy_tree(tree: &Tree) -> (r: Tree)
    ensures
        r@ == tree@,
    decreases tree,
{
    match tree {
        Tree::Tensor(name) => Tree::Tensor(name.clone()),
        Tree::Tuple(items) => {
            let copies = copy_trees(items);
            proof {
                Tree::tuple_view(*items);
                Tree::tuple_view(copies);
            }
            Tree::Tuple(copies)
        },
        Tree::List(items) => {
            let copies = copy_trees(items);
            proof {
                Tree::list_view(*items);
                Tree::list_view(copies);
            }
            Tree::List(copies)
        },
        Tree::Dict(items) => {
            let copies = copy_entries(items);
            proof {
                Tree::dict_view(*items);
                Tree::dict_view(copies);
            }
            Tree::Dict(copies)
        },
    }
}

fn copy_trees(items: &Vec<Tree>) -> (r: Vec<Tree>)
    ensures
        r@.map_values(|t: Tree| t@) == items@.map_values(|t: Tree| t@),
    decreases items,
{
    let mut out: Vec<Tree> = Vec::new();
    let mut i: usize = 0;
    while i < items.len()
        invariant
            i <= items@.len(),
            out@.len() == i,
            forall|j: int| 0 <= j < i ==> (#[trigger] out@[j])@ == items@[j]@,
        decreases items@.len() - i,
    {
        assert(decreases_to!(items => items@[i as int]));
        out.push(copy_tree(&items[i]));
        i += 1;
    }
    assert(out@.map_values(|t: Tree| t@) =~= items@.map_values(|t: Tree| t@));
    out
}

fn copy_entries(items: &Vec<(String, Tree)>) -> (r: Vec<(String, Tree)>)
    ensures
        r@.map_values(|e: (String, Tree)| (e.0@, e.1@)) == items@.map_values(|e: (String, Tree)| (e.0@, e.1@)),
    decreases items,
{
    let mut out: Vec<(String, Tree)> = Vec::new();
    let mut i: usize = 0;
    while i < items.len()
        invariant
            i <= items@.len(),
            out@.len() == i,
            forall|j: int| #![trigger out@[j]] 0 <= j < i ==> out@[j].0@ == items@[j].0@ && out@[j].1@ == items@[j].1@,
        decreases items@.len() - i,
    {
        assert(decreases_to!(items => items@[i as int]));
        assert(decreases_to!(items@[i as int] => items@[i as int].1));
        let entry = &items[i];
        out.push((entry.0.clone(), copy_tree(&entry.1)));
        i += 1;
    }
    assert(out@.map_values(|e: (String, Tree)| (e.0@, e.1@)) =~= items@.map_values(|e: (String, Tree)| (e.0@, e.1@)));
    out
}

/// The texts of a list of names.
pub open spec fn names_view(names: Seq<&str>) -> Seq<Seq<char>> {
    names.map_values(|s: &str| s@)
}

/// What a walk left behind, as mathematical content.
pub open spec fn walk_outcome(r: Result<()>, out: Seq<&str>) -> Walk {
    match r {
        Ok(()) => Ok(names_view(out)),
        Err(e) => Err(e@),
    }
}

fn walk<'a>(tree: &'a Tree, depth: usize, out: &mut Vec<&'a str>) -> (r: Result<()>)
    requires
        depth <= MAX_DEPTH + 1,
    ensures
        walk_outcome(r, final(out)@) == walked(tree@, depth as int, names_view(old(out)@)),
    decreases tree,
{
    if depth > MAX_DEPTH || out.len() > MAX_NODES {
        return Err(deployment_error("calling tree exceeds limits"));
    }
    match tree {
        Tree::Tensor(name) => {
            out.push(name.as_str());
            assert(names_view(out@) =~= names_view(old(out)@).push(name@));
            Ok(())
        },
        Tree::Tuple(items) => {
            proof {
                Tree::tuple_view(*items);
            }
            walk_items(items, depth, out)
        },
        Tree::List(items) => {
            proof {
                Tree::list_view(*items);
            }
            walk_items(items, depth, out)
        },
        Tree::Dict(items) => {
            proof {
                Tree::dict_view(*items);
            }
            walk_entries(items, depth, out)
        },
    }
}

fn walk_items<'a>(items: &'a Vec<Tree>, depth: usize, out: &mut Vec<&'a str>) -> (r: Result<()>)
    requires
        depth <= MAX_DEPTH,
    ensures
        walk_outcome(r, final(out)@) == walked_items(
            items@.map_values(|t: Tree| t@),
            items@.len(),
            depth as int,
            names_view(old(out)@),
        ),
    decreases items,
{
    let ghost view = items@.map_values(|t: Tree| t@);
    let mut i: usize = 0;
    while i < items.len()
        invariant
            depth <= MAX_DEPTH,
            view == items@.map_values(|t: Tree| t@),
            i <= items@.len(),
            walked_items(view, i as nat, depth as int, names_view(old(out)@)) == Ok::<Seq<Seq<char>>, ErrorView>(names_view(out@)),
        decreases items@.len() - i,
    {
        let ghost before_item = names_view(out@);
        assert(view[i as int] == items@[i as int]@);
        assert(decreases_to!(items => items@[i as int]));
        if let Err(e) = walk(&items[i], depth + 1, out) {
            proof {
                walked_items_fail(view, (i + 1) as nat, view.len(), depth as int, names_view(old(out)@));
            }
            return Err(e);
        }
        i += 1;
    }
    Ok(())
}

fn walk_entries<'a>(items: &'a Vec<(String, Tree)>, depth: usize, out: &mut Vec<&'a str>) -> (r: Result<()>)
    requires
        depth <= MAX_DEPTH,
    ensures
        walk_outcome(r, final(out)@) == walked_entries(
            items@.map_values(|e: (String, Tree)| (e.0@, e.1@)),
            items@.len(),
            depth as int,
            names_view(old(out)@),
        ),
    decreases items,
{
    let ghost view = items@.map_values(|e: (String, Tree)| (e.0@, e.1@));
    let mut keys: NameMap<()> = NameMap::new();
    let mut i: usize = 0;
    while i < items.len()
        invariant
            depth <= MAX_DEPTH,
            view == items@.map_values(|e: (String, Tree)| (e.0@, e.1@)),
            i <= items@.len(),
            keys.wf(),
            forall|key: Seq<char>| #[trigger]
                keys@.dom().contains(key) <==> exists|j: int| 0 <= j < i && (#[trigger] view[j]).0 == key,
            walked_entries(view, i as nat, depth as int, names_view(old(out)@)) == Ok::<Seq<Seq<char>>, ErrorView>(names_view(out@)),
        decreases items@.len() - i,
    {
        let entry = &items[i];
        assert(view[i as int] == (entry.0@, entry.1@));
        let ghost earlier = keys@;
        if keys.insert(entry.0.clone(), ()).is_some() {
            proof {
                assert(earlier.dom().contains(entry.0@));
                walked_entries_fail(view, (i + 1) as nat, view.len(), depth as int, names_view(old(out)@));
            }
            return Err(deployment_error("duplicate dictionary key"));
        }
        proof {
            assert(!earlier.dom().contains(entry.0@));
            assert forall|key: Seq<char>| #[trigger]
                keys@.dom().contains(key) <==> exists|j: int| 0 <= j < i + 1 && (#[trigger] view[j]).0 == key by {
                if key == entry.0@ {
                    assert(view[i as int].0 == key);
                } else {
                    assert(keys@.dom().contains(key) == earlier.dom().contains(key));
                    if exists|j: int| 0 <= j < i + 1 && (#[trigger] view[j]).0 == key {
                        let j = choose|j: int| 0 <= j < i + 1 && (#[trigger] view[j]).0 == key;
                        assert(j != i);
                    }
                }
            }
        }
        assert(decreases_to!(items => items@[i as int]));
        assert(decreases_to!(items@[i as int] => items@[i as int].1));
        if let Err(e) = walk(&entry.1, depth + 1, out) {
            proof {
                walked_entries_fail(view, (i + 1) as nat, view.len(), depth as int, names_view(old(out)@));
            }
            return Err(e);
        }
        i += 1;
    }
    Ok(())
}

/// A walk that has failed stays failed.
proof fn walked_items_fail(items: Seq<TreeView>, k: nat, n: nat, depth: int, out: Seq<Seq<char>>)
    requires
        k <= n <= items.len(),
        walked_items(items, k, depth, out) is Err,
    ensures
        walked_items(items, n, depth, out) == walked_items(items, k, depth, out),
    decreases n - k,
{
    if k < n {
        walked_items_fail(items, k, (n - 1) as nat, depth, out);
    }
}

proof fn walked_entries_fail(items: Seq<(Seq<char>, TreeView)>, k: nat, n: nat, depth: int, out: Seq<Seq<char>>)
    requires
        k <= n <= items.len(),
        walked_entries(items, k, depth, out) is Err,
    ensures
        walked_entries(items, n, depth, out) == walked_entries(items, k, depth, out),
    decreases n - k,
{
    if k < n {
        walked_entries_fail(items, k, (n - 1) as nat, depth, out);
    }
}

} // verus!
