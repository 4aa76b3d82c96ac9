//! Graphs as text: a table of nodes and a Graphviz description.
use super::check::{value_form, value_text};
use super::ir::{nodes_view, Graph, Node, NodeView, ValueId};
use super::op::GraphOp;
use super::order::is_active;
use super::spec::{dims_view, Dim, DimView, SpecView};
use crate::kind::Kind;
use crate::text::{characters, decimal, integer_text, join3, natural_text, owned};
use vstd::prelude::*;
use vstd::string::*;

verus! {

/// The debug form that the standard library gives a string: quoted and escaped.
pub uninterp spec fn quoted_form(text: Seq<char>) -> Seq<char>;

/// `format!` with `{:?}` on a string. The result is named: how each character is escaped is
/// the standard library's rule and is not restated here.
#[verifier::external_body]
pub(crate) fn quoted(text: &str) -> (r: String)
    ensures
        r@ == quoted_form(text@),
{
    format!("{:?}", text)
}

/// A name as it stands inside a quoted Graphviz label: backslashes, quotes and line breaks
/// are escaped.
pub open spec fn escaped(text: Seq<char>) -> Seq<char>
    decreases text.len(),
{
    if text.len() == 0 {
        Seq::empty()
    } else {
        let c = text.last();
        escaped(text.drop_last()) + (if c == '\\' {
            seq!['\\', '\\']
        } else if c == '"' {
            seq!['\\', '"']
        } else if c == '\n' {
            seq!['\\', 'n']
        } else {
            seq![c]
        })
    }
}

/// Escapes a name for a Graphviz label.
pub fn escape_dot(value: &str) -> (r: String)
    ensures
        r@ == escaped(value@),
{
    let chars = characters(value);
    let mut text = String::new();
    let mut i: usize = 0;
    while i < chars.len()
        invariant
            i <= chars@.len(),
            text@ == escaped(chars@.take(i as int)),
        decreases chars@.len() - i,
    {
        let ghost earlier = text@;
        let c = chars[i];
        if c == '\\' {
            text.push('\\');
            text.push('\\');
        } else if c == '"' {
            text.push('\\');
            text.push('"');
        } else if c == '\n' {
            text.push('\\');
            text.push('n');
        } else {
            text.push(c);
        }
        proof {
            let longer = chars@.take(i as int + 1);
            assert(longer.drop_last() =~= chars@.take(i as int));
            assert(longer.last() == c);
            assert(text@ =~= escaped(longer));
        }
        i += 1;
    }
    assert(chars@.take(i as int) =~= chars@);
    text
}

/// The debug form of a list of values.
pub open spec fn values_form(values: Seq<ValueId>) -> Seq<char> {
    "["@ + values_listed(values) + "]"@
}

/// The debug forms of values, separated by commas.
pub open spec fn values_listed(values: Seq<ValueId>) -> Seq<char>
    decreases values.len(),
{
    if values.len() == 0 {
        Seq::empty()
    } else if values.len() == 1 {
        value_form(values[0])
    } else {
        values_listed(values.drop_last()) + ", "@ + value_form(values.last())
    }
}

fn values_text(values: &Vec<ValueId>) -> (r: String)
    ensures
        r@ == values_form(values@),
{
    let mut text = owned("[");
    let mut i: usize = 0;
    assert(text@ =~= "["@ + values_listed(values@.take(0)));
    while i < values.len()
        invariant
            i <= values@.len(),
            text@ == "["@ + values_listed(values@.take(i as int)),
        decreases values@.len() - i,
    {
        let ghost earlier = text@;
        if i > 0 {
            text.append(", ");
        }
        let part = value_text(values[i]);
        text.append(part.as_str());
        proof {
            let longer = values@.take(i as int + 1);
            assert(longer.drop_last() =~= values@.take(i as int));
            assert(longer.last() == values@[i as int]);
            if i == 0 {
                assert(earlier =~= "["@);
            }
            assert(text@ =~= "["@ + values_listed(longer));
        }
        i += 1;
    }
    text.append("]");
    assert(values@.take(i as int) =~= values@);
    text
}

/// The debug form of a dimension.
pub open spec fn dim_form(dim: DimView) -> Seq<char> {
    match dim {
        DimView::Known(value) => "Known("@ + decimal(value as int) + ")"@,
        DimView::Dynamic => "Dynamic"@,
        DimView::Symbol(name) => "Symbol("@ + quoted_form(name) + ")"@,
    }
}

fn dim_text(dim: &Dim) -> (r: String)
    ensures
        r@ == dim_form(dim@),
{
    match dim {
        Dim::Known(value) => {
            let number = integer_text(*value);
            join3("Known(", number.as_str(), ")")
        },
        Dim::Dynamic => owned("Dynamic"),
        Dim::Symbol(name) => {
            let name_text = quoted(name.as_str());
            join3("Symbol(", name_text.as_str(), ")")
        },
    }
}

/// The debug forms of dimensions, separated by commas.
pub open spec fn dims_listed(dims: Seq<DimView>) -> Seq<char>
    decreases dims.len(),
{
    if dims.len() == 0 {
        Seq::empty()
    } else if dims.len() == 1 {
        dim_form(dims[0])
    } else {
        dims_listed(dims.drop_last()) + ", "@ + dim_form(dims.last())
    }
}

/// The debug form of optional dimensions.
pub open spec fn shape_form(spec: SpecView) -> Seq<char> {
    match spec.dimensions {
        None => "None"@,
        Some(dims) => "Some(["@ + dims_listed(dims) + "])"@,
    }
}

fn shape_text(dims: Option<&[Dim]>) -> (r: String)
    ensures
        r@ == (match dims {
            None => "None"@,
            Some(dims) => "Some(["@ + dims_listed(dims_view(dims@)) + "])"@,
        }),
{
    let list = match dims {
        None => {
            return owned("None");
        },
        Some(list) => list,
    };
    let ghost view = dims_view(list@);
    let mut text = owned("Some([");
    let mut i: usize = 0;
    assert(text@ =~= "Some(["@ + dims_listed(view.take(0)));
    while i < list.len()
        invariant
            view == dims_view(list@),
            i <= list@.len(),
            text@ == "Some(["@ + dims_listed(view.take(i as int)),
        decreases list@.len() - i,
    {
        let ghost earlier = text@;
        if i > 0 {
            text.append(", ");
        }
        let part = dim_text(&list[i]);
        text.append(part.as_str());
        proof {
            let longer = view.take(i as int + 1);
            assert(longer.drop_last() =~= view.take(i as int));
            assert(longer.last() == list@[i as int]@);
            if i == 0 {
                assert(earlier =~= "Some(["@);
            }
            assert(text@ =~= "Some(["@ + dims_listed(longer));
        }
        i += 1;
    }
    text.append("])");
    assert(view.take(i as int) =~= view);
    text
}

/// The debug form of an optional dtype.
pub open spec fn kind_form(kind: Option<Kind>) -> Seq<char> {
    match kind {
        None => "None"@,
        Some(kind) => "Some("@ + kind.form() + ")"@,
    }
}

fn kind_text(kind: Option<Kind>) -> (r: String)
    ensures
        r@ == kind_form(kind),
{
    match kind {
        None => owned("None"),
        Some(kind) => join3("Some(", kind.text(), ")"),
    }
}

/// The product of two feature counts, held within the range of counts.
pub open spec fn saturated_product(a: int, b: int) -> int {
    if a * b > i64::MAX {
        i64::MAX as int
    } else if a * b < i64::MIN {
        i64::MIN as int
    } else {
        a * b
    }
}

/// How many parameters an operation owns.
pub open spec fn parameter_count(op: GraphOp) -> int {
    match op {
        GraphOp::Linear { in_features, out_features, bias } => saturated_product(in_features as int, out_features as int)
            + if bias {
            out_features as int
        } else {
            0
        },
        _ => 0,
    }
}

/// The count of every active node's parameters can be represented.
pub open spec fn parameters_fit(nodes: Seq<NodeView>) -> bool {
    forall|i: int|
        0 <= i < nodes.len() && nodes[i].active ==> i64::MIN <= #[trigger] parameter_count(nodes[i].op) <= i64::MAX
}

fn count_parameters(op: &GraphOp) -> (r: i64)
    requires
        i64::MIN <= parameter_count(*op) <= i64::MAX,
    ensures
        r == parameter_count(*op),
{
    match op {
        GraphOp::Linear { in_features, out_features, bias } => {
            let a: i128 = *in_features as i128;
            let b: i128 = *out_features as i128;
            assert(-0x4000_0000_0000_0000_0000_0000_0000_0000 <= a * b <= 0x4000_0000_0000_0000_0000_0000_0000_0000)
                by (nonlinear_arith)
                requires
                    -0x8000_0000_0000_0000 <= a <= 0x7fff_ffff_ffff_ffff,
                    -0x8000_0000_0000_0000 <= b <= 0x7fff_ffff_ffff_ffff,
            ;
            let product: i128 = a * b;
            let weights: i64 = if product > i64::MAX as i128 {
                i64::MAX
            } else if product < i64::MIN as i128 {
                i64::MIN
            } else {
                product as i64
            };
            if *bias {
                weights + *out_features
            } else {
                weights
            }
        },
        _ => 0,
    }
}

/// One line of the node table.
pub open spec fn summary_line(node: NodeView) -> Seq<char> {
    decimal(node.id.0 as int) + "  "@ + node.name + "  "@ + node.op.title() + "  "@ + values_form(node.inputs) + "  "@
        + shape_form(node.spec) + "  "@ + kind_form(node.spec.kind) + "  "@ + decimal(parameter_count(node.op)) + "\n"@
}

/// The table of the first `n` nodes.
pub open spec fn summary_form(nodes: Seq<NodeView>, n: int) -> Seq<char>
    decreases n,
{
    if n <= 0 {
        "id  name  op  inputs  shape  kind  parameters\n"@
    } else if nodes[n - 1].active {
        summary_form(nodes, n - 1) + summary_line(nodes[n - 1])
    } else {
        summary_form(nodes, n - 1)
    }
}

/// The Graphviz statement of a node.
pub open spec fn dot_node(node: NodeView) -> Seq<char> {
    "  n"@ + decimal(node.id.0 as int) + " [label=\""@ + escaped(node.name) + "\\n"@ + node.op.title() + "\"];\n"@
}

/// The Graphviz statements of the first `n` nodes.
pub open spec fn dot_nodes(nodes: Seq<NodeView>, n: int) -> Seq<char>
    decreases n,
{
    if n <= 0 {
        "digraph rusttorch {\n"@
    } else if nodes[n - 1].active {
        dot_nodes(nodes, n - 1) + dot_node(nodes[n - 1])
    } else {
        dot_nodes(nodes, n - 1)
    }
}

/// The Graphviz statements of a node's first `k` edges, those from active producers.
pub open spec fn dot_edges_of(nodes: Seq<NodeView>, i: int, k: int) -> Seq<char>
    decreases k,
{
    if k <= 0 {
        Seq::empty()
    } else if is_active(nodes, nodes[i].inputs[k - 1].0 as int) {
        dot_edges_of(nodes, i, k - 1) + "  n"@ + decimal(nodes[i].inputs[k - 1].0 as int) + " -> n"@ + decimal(
            nodes[i].id.0 as int,
        ) + ";\n"@
    } else {
        dot_edges_of(nodes, i, k - 1)
    }
}

/// The Graphviz statements of the edges into the first `n` nodes.
pub open spec fn dot_edges(nodes: Seq<NodeView>, n: int) -> Seq<char>
    decreases n,
{
    if n <= 0 {
        Seq::empty()
    } else if nodes[n - 1].active {
        dot_edges(nodes, n - 1) + dot_edges_of(nodes, n - 1, nodes[n - 1].inputs.len() as int)
    } else {
        dot_edges(nodes, n - 1)
    }
}

fn append_number(text: &mut String, value: usize)
    ensures
        final(text)@ == old(text)@ + decimal(value as int),
{
    let number = natural_text(value as u64);
    text.append(number.as_str());
}

fn line_text(node: &Node) -> (r: String)
    requires
        i64::MIN <= parameter_count(node@.op) <= i64::MAX,
    ensures
        r@ == summary_line(node@),
{
    let mut line = natural_text(node.id.0 as u64);
    line.append("  ");
    line.append(node.name.as_str());
    line.append("  ");
    line.append(node.op.label());
    line.append("  ");
    let inputs = values_text(&node.inputs);
    line.append(inputs.as_str());
    line.append("  ");
    let shape = shape_text(node.spec.dims());
    line.append(shape.as_str());
    line.append("  ");
    let kind = kind_text(node.spec.kind_value());
    line.append(kind.as_str());
    line.append("  ");
    let count = integer_text(count_parameters(&node.op));
    line.append(count.as_str());
    line.append("\n");
    line
}

impl Graph {
    /// Returns a deterministic human-readable table of active nodes.
    pub fn summary(&self) -> (r: String)
        requires
            parameters_fit(self@.nodes),
        ensures
            r@ == summary_form(self@.nodes, self@.nodes.len() as int),
    {
        let nodes = self.nodes();
        let ghost view = self@.nodes;
        let mut summary = owned("id  name  op  inputs  shape  kind  parameters\n");
        let mut i: usize = 0;
        while i < nodes.len()
            invariant
                view == nodes_view(nodes@),
                parameters_fit(view),
                i <= nodes@.len(),
                summary@ == summary_form(view, i as int),
            decreases nodes@.len() - i,
        {
            let node = &nodes[i];
            assert(view[i as int] == node@);
            if node.active {
                assert(parameter_count(view[i as int].op) <= i64::MAX);
                let line = line_text(node);
                summary.append(line.as_str());
            }
            i += 1;
        }
        summary
    }

    /// Renders active nodes and edges as a Graphviz DOT graph.
    pub fn to_dot(&self) -> (r: String)
        ensures
            r@ == dot_nodes(self@.nodes, self@.nodes.len() as int) + dot_edges(self@.nodes, self@.nodes.len() as int) + "}\n"@,
    {
        let nodes = self.nodes();
        let ghost view = self@.nodes;
        let mut dot = owned("digraph rusttorch {\n");
        let mut i: usize = 0;
        while i < nodes.len()
            invariant
                view == nodes_view(nodes@),
                i <= nodes@.len(),
                dot@ == dot_nodes(view, i as int),
            decreases nodes@.len() - i,
        {
            let node = &nodes[i];
            assert(view[i as int] == node@);
            if node.active {
                let ghost earlier = dot@;
                dot.append("  n");
                append_number(&mut dot, node.id.0);
                dot.append(" [label=\"");
                let name = escape_dot(node.name.as_str());
                dot.append(name.as_str());
                dot.append("\\n");
                dot.append(node.op.label());
                dot.append("\"];\n");
                assert(dot@ =~= earlier + dot_node(node@));
            }
            i += 1;
        }
        let ghost head = dot@;
        i = 0;
        assert(head =~= head + dot_edges(view, 0));
        while i < nodes.len()
            invariant
                view == nodes_view(nodes@),
                i <= nodes@.len(),
                dot@ == head + dot_edges(view, i as int),
            decreases nodes@.len() - i,
        {
            let node = &nodes[i];
            assert(view[i as int] == node@);
            if node.active {
                let ghost earlier = dot@;
                let mut k: usize = 0;
                assert(dot@ =~= earlier + dot_edges_of(view, i as int, 0));
                while k < node.inputs.len()
                    invariant
                        view == nodes_view(nodes@),
                        i < nodes@.len(),
                        view[i as int] == node@,
                        k <= node.inputs@.len(),
                        dot@ == earlier + dot_edges_of(view, i as int, k as int),
                    decreases node.inputs@.len() - k,
                {
                    let ghost before_edge = dot@;
                    let producer: usize = node.inputs[k].0;
                    assert(view[i as int].inputs[k as int].0 == producer);
                    if producer < nodes.len() {
                        assert(view[producer as int] == nodes@[producer as int]@);
                        if nodes[producer].active {
                            dot.append("  n");
                            append_number(&mut dot, producer);
                            dot.append(" -> n");
                            append_number(&mut dot, node.id.0);
                            dot.append(";\n");
                            assert(dot@ =~= earlier + dot_edges_of(view, i as int, k + 1));
                        }
                    }
                    k += 1;
                }
                assert(dot@ =~= head + dot_edges(view, i + 1));
            }
            i += 1;
        }
        dot.append("}\n");
        dot
    }
}

} // verus!
