//! The library's border with the crates it calls. Every item here states
//! something that Verus takes on trust.

use crate::text::uuid_text;
use crate::units::subgraph::{ComputeNode, ComputeNodeView};
use petgraph::graph::Graph;
use petgraph::Directed;
use rand::Rng;
use vstd::prelude::*;

verus! {

/// Calls `rand::Rng::gen_range` on the thread-local generator with the
/// half-open range `low..high`. The generator panics on an empty range, so the
/// range must be non-empty; the draw then lies inside it. Nothing else is
/// known of the value.
#[verifier::external_body]
pub(crate) fn random_in(low: u32, high: u32) -> (r: u32)
    requires
        low < high,
    ensures
        low <= r < high,
{
    rand::thread_rng().gen_range(low..high)
}

/// Calls `uuid::Uuid::new_v4` and hands the identifier out as the 128-bit
/// number that `Uuid::as_u128` gives. The value is random: nothing is claimed
/// of it, not even that it differs from earlier ones.
#[verifier::external_body]
pub(crate) fn fresh_id() -> (id: u128) {
    uuid::Uuid::new_v4().as_u128()
}

/// `petgraph::graph::Graph`, carried as an opaque value.
#[verifier::external_type_specification]
#[verifier::external_body]
#[verifier::reject_recursive_types(N)]
#[verifier::reject_recursive_types(E)]
#[verifier::reject_recursive_types(Ty)]
#[verifier::reject_recursive_types(Ix)]
pub struct ExGraph<N, E, Ty, Ix>(Graph<N, E, Ty, Ix>);

/// `petgraph::Directed`, the marker of a graph with directed edges.
#[verifier::external_type_specification]
#[verifier::external_body]
pub struct ExDirected(Directed);

/// The graph that a unit of work keeps its compute nodes in. It never gets an
/// edge; node indices are 32 bits wide.
pub type NodeGraph = Graph<ComputeNode, (), Directed, u32>;

/// The node weights of a graph, in the order of their node indices, which is
/// the order in which they were added.
pub uninterp spec fn graph_nodes(g: NodeGraph) -> Seq<ComputeNodeView>;

/// Calls `Graph::new`: a directed graph without nodes.
#[verifier::external_body]
pub(crate) fn graph_new() -> (g: NodeGraph)
    ensures
        graph_nodes(g) == Seq::<ComputeNodeView>::empty(),
{
    Graph::new()
}

/// Calls `Graph::node_count`: the number of node weights held.
#[verifier::external_body]
pub(crate) fn graph_node_count(g: &NodeGraph) -> (n: usize)
    ensures
        n == graph_nodes(*g).len(),
{
    g.node_count()
}

/// Calls `Graph::add_node`, which appends the weight under the next node
/// index. With 32-bit indices it panics once the index `u32::MAX` would be
/// handed out, so the graph must hold fewer nodes than that.
#[verifier::external_body]
pub(crate) fn graph_add_node(g: &mut NodeGraph, node: ComputeNode)
    requires
        graph_nodes(*old(g)).len() < u32::MAX,
    ensures
        graph_nodes(*final(g)) == graph_nodes(*old(g)).push(node@),
{
    g.add_node(node);
}

/// Calls `Graph::node_weights`, which walks the weights in the order of their
/// node indices, and hands out a copy of each.
#[verifier::external_body]
pub(crate) fn graph_node_list(g: &NodeGraph) -> (nodes: Vec<ComputeNode>)
    ensures
        nodes@.len() == graph_nodes(*g).len(),
        forall|i: int| 0 <= i < nodes@.len() ==> (#[trigger] nodes@[i])@ == graph_nodes(*g)[i],
{
    g.node_weights().map(|n| n.clone()).collect()
}

/// Calls `uuid::Uuid::from_u128` and the `to_string` that the identifier has
/// from its `Display`, which writes the hyphenated lower-case form.
#[verifier::external_body]
pub(crate) fn uuid_string(id: u128) -> (text: String)
    ensures
        text@ == uuid_text(id),
{
    uuid::Uuid::from_u128(id).to_string()
}

/// What `Debug` writes for a string: the string between double quotes, with
/// quotes, backslashes and unprintable characters escaped.
pub uninterp spec fn quoted_text(text: Seq<char>) -> Seq<char>;

/// Formats a string with `{:?}`.
#[verifier::external_body]
pub(crate) fn debug_quoted(text: &str) -> (quoted: String)
    ensures
        quoted@ == quoted_text(text@),
{
    format!("{:?}", text)
}

/// What `str::to_uppercase` makes of a text.
pub uninterp spec fn uppercase_text(text: Seq<char>) -> Seq<char>;

/// Calls `str::to_uppercase`.
#[verifier::external_body]
pub(crate) fn to_uppercase(text: &str) -> (upper: String)
    ensures
        upper@ == uppercase_text(text@),
{
    text.to_uppercase()
}

} // verus!
