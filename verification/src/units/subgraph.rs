use crate::trusted::{
    fresh_id, graph_add_node, graph_new, graph_node_count, graph_node_list, graph_nodes,
    random_in, NodeGraph,
};
use vstd::prelude::*;
use vstd::string::StringExecFns;

verus! {

/// Number of affinity steps in the unit interval: the affinity `a` stands for
/// the fraction `a / AFFINITY_SCALE`, so every affinity lies in `[0, 1)`.
pub const AFFINITY_SCALE: u32 = 1_000_000;

/// Two units connect when their affinities are less than this many steps
/// apart: three tenths of the unit interval.
pub const CONNECT_THRESHOLD: u32 = 300_000;

/// The most compute nodes that one unit can hold.
pub const MAX_NODES: usize = 0xFFFF_FFFF;

/// What [`Subgraph::merge`] reports when the two units hold too many nodes
/// for one.
pub const MERGE_TOO_LARGE: &'static str = "the merged unit would hold too many compute nodes";

/// What a compute node does.
#[derive(Debug)]
pub enum Operation {
    Transform(String),
    Split,
    Merge,
    Process(String),
    Filter(String),
    Aggregate,
}

/// An [`Operation`] with its text as a sequence of characters.
pub enum OperationView {
    Transform(Seq<char>),
    Split,
    Merge,
    Process(Seq<char>),
    Filter(Seq<char>),
    Aggregate,
}

impl View for Operation {
    type V = OperationView;

    open spec fn view(&self) -> OperationView {
        match self {
            Operation::Transform(s) => OperationView::Transform(s@),
            Operation::Split => OperationView::Split,
            Operation::Merge => OperationView::Merge,
            Operation::Process(s) => OperationView::Process(s@),
            Operation::Filter(s) => OperationView::Filter(s@),
            Operation::Aggregate => OperationView::Aggregate,
        }
    }
}

impl Clone for Operation {
    fn clone(&self) -> (res: Self)
        ensures
            res@ == self@,
    {
        match self {
            Operation::Transform(s) => Operation::Transform(s.clone()),
            Operation::Split => Operation::Split,
            Operation::Merge => Operation::Merge,
            Operation::Process(s) => Operation::Process(s.clone()),
            Operation::Filter(s) => Operation::Filter(s.clone()),
            Operation::Aggregate => Operation::Aggregate,
        }
    }
}

/// Where a compute node stands in its life.
#[derive(Debug, Clone, Copy, PartialEq, Eq, Structural)]
pub enum NodeState {
    Idle,
    Processing,
    Splitting,
    Merging,
    Complete,
}

/// One step of computation inside a unit of work.
#[derive(Debug)]
pub struct ComputeNode {
    pub id: u128,
    pub operation: Operation,
    pub state: NodeState,
    /// Free-form notes, as pairs of a key and a value in the order in which
    /// they were written.
    pub metadata: Vec<(String, String)>,
}

/// A [`ComputeNode`] as plain values.
pub struct ComputeNodeView {
    pub id: u128,
    pub operation: OperationView,
    pub state: NodeState,
    pub metadata: Seq<(Seq<char>, Seq<char>)>,
}

impl View for ComputeNode {
    type V = ComputeNodeView;

    open spec fn view(&self) -> ComputeNodeView {
        ComputeNodeView {
            id: self.id,
            operation: self.operation@,
            state: self.state,
            metadata: self.metadata.deep_view(),
        }
    }
}

impl Clone for ComputeNode {
    fn clone(&self) -> (res: Self)
        ensures
            res@ == self@,
    {
        let mut metadata: Vec<(String, String)> = Vec::new();
        let mut i: usize = 0;
        while i < self.metadata.len()
            invariant
                i <= self.metadata.len(),
                metadata@ == self.metadata@.take(i as int),
            decreases self.metadata.len() - i,
        {
            let pair = &self.metadata[i];
            metadata.push((pair.0.clone(), pair.1.clone()));
            assert(metadata@ =~= self.metadata@.take(i + 1));
            i += 1;
        }
        assert(metadata@ =~= self.metadata@);
        ComputeNode {
            id: self.id,
            operation: self.operation.clone(),
            state: self.state,
            metadata,
        }
    }
}

/// A fragment of work: an identifier, the compute nodes it carries, its place
/// in the lineage of splits, and an affinity that decides which other units it
/// connects with.
#[derive(Debug)]
pub struct Subgraph {
    id: u128,
    graph: NodeGraph,
    parent: Option<u128>,
    children: Vec<u128>,
    tornado_strength: u32,
}

/// A [`Subgraph`] as plain values.
pub struct SubgraphView {
    pub id: u128,
    pub nodes: Seq<ComputeNodeView>,
    pub parent: Option<u128>,
    pub children: Seq<u128>,
    /// In steps of `1 / AFFINITY_SCALE`.
    pub affinity: u32,
}

/// Whether two affinities are close enough for their units to connect.
pub open spec fn affinities_connect(a: u32, b: u32) -> bool {
    if a >= b {
        a - b < CONNECT_THRESHOLD
    } else {
        b - a < CONNECT_THRESHOLD
    }
}

/// The affinity of a unit that absorbed another: the mean of the two, rounded
/// down to a whole step.
pub open spec fn merged_affinity(a: u32, b: u32) -> u32 {
    ((a + b) / 2) as u32
}

impl View for Subgraph {
    type V = SubgraphView;

    closed spec fn view(&self) -> SubgraphView {
        SubgraphView {
            id: self.id,
            nodes: graph_nodes(self.graph),
            parent: self.parent,
            children: self.children@,
            affinity: self.tornado_strength,
        }
    }
}

impl Subgraph {
    #[verifier::type_invariant]
    spec fn well_formed(self) -> bool {
        &&& self.tornado_strength < AFFINITY_SCALE
        &&& graph_nodes(self.graph).len() <= MAX_NODES
    }

    /// Whether this unit and `other` connect. It depends on the two
    /// affinities alone.
    pub open spec fn connects(&self, other: &Subgraph) -> bool {
        affinities_connect(self@.affinity, other@.affinity)
    }

    /// A unit with a fresh random identifier and an affinity drawn uniformly
    /// from the unit interval. It has no nodes, no parent and no children.
    pub fn new() -> (unit: Subgraph)
        ensures
            unit@.nodes.len() == 0,
            unit@.parent is None,
            unit@.children.len() == 0,
            unit@.affinity < AFFINITY_SCALE,
    {
        Subgraph::with_id(fresh_id())
    }

    /// A unit as [`Subgraph::new`] makes it, but with the given identifier.
    pub fn with_id(id: u128) -> (unit: Subgraph)
        ensures
            unit@.id == id,
            unit@.nodes.len() == 0,
            unit@.parent is None,
            unit@.children.len() == 0,
            unit@.affinity < AFFINITY_SCALE,
    {
        let affinity = random_in(0, AFFINITY_SCALE);
        Subgraph {
            id,
            graph: graph_new(),
            parent: None,
            children: Vec::new(),
            tornado_strength: affinity,
        }
    }

    /// A unit with the given identifier and affinity, where the affinity lies
    /// in the unit interval; `None` where it does not.
    pub fn with_affinity(id: u128, affinity: u32) -> (unit: Option<Subgraph>)
        ensures
            unit is Some <==> affinity < AFFINITY_SCALE,
            unit is Some ==> unit->0@ == (SubgraphView {
                id,
                nodes: Seq::empty(),
                parent: None,
                children: Seq::empty(),
                affinity,
            }),
    {
        if affinity < AFFINITY_SCALE {
            let unit = Subgraph {
                id,
                graph: graph_new(),
                parent: None,
                children: Vec::new(),
                tornado_strength: affinity,
            };
            assert(unit@.children =~= Seq::empty());
            Some(unit)
        } else {
            None
        }
    }

    pub fn id(&self) -> (id: u128)
        ensures
            id == self@.id,
    {
        self.id
    }

    pub fn parent(&self) -> (parent: Option<u128>)
        ensures
            parent == self@.parent,
    {
        self.parent
    }

    pub fn children(&self) -> (children: &Vec<u128>)
        ensures
            children@ == self@.children,
    {
        &self.children
    }

    /// The affinity, in steps of `1 / AFFINITY_SCALE`. It always lies in the
    /// unit interval.
    pub fn tornado_strength(&self) -> (affinity: u32)
        ensures
            affinity == self@.affinity,
            affinity < AFFINITY_SCALE,
    {
        proof {
            use_type_invariant(self);
        }
        self.tornado_strength
    }

    pub fn node_count(&self) -> (n: usize)
        ensures
            n == self@.nodes.len(),
            n <= MAX_NODES,
    {
        proof {
            use_type_invariant(self);
        }
        graph_node_count(&self.graph)
    }

    /// A copy of each compute node, in the order in which they were added.
    pub fn nodes(&self) -> (nodes: Vec<ComputeNode>)
        ensures
            nodes@.len() == self@.nodes.len(),
            forall|i: int| 0 <= i < nodes@.len() ==> (#[trigger] nodes@[i])@ == self@.nodes[i],
    {
        graph_node_list(&self.graph)
    }

    /// Appends a compute node, unless the unit is full. Says whether it did.
    pub fn add_node(&mut self, node: ComputeNode) -> (added: bool)
        ensures
            added <==> old(self)@.nodes.len() < MAX_NODES,
            added ==> final(self)@ == (SubgraphView {
                nodes: old(self)@.nodes.push(node@),
                ..old(self)@
            }),
            !added ==> final(self)@ == old(self)@,
    {
        proof {
            use_type_invariant(&*self);
        }
        if graph_node_count(&self.graph) < MAX_NODES {
            let mut graph = graph_new();
            std::mem::swap(&mut graph, &mut self.graph);
            graph_add_node(&mut graph, node);
            self.graph = graph;
            true
        } else {
            false
        }
    }

    /// Splits off `num_splits` new units. Each is made as [`Subgraph::new`]
    /// makes one, with its own random identifier and affinity, and has this
    /// unit as its parent. Their identifiers are appended, in order, to this
    /// unit's children.
    pub fn split(&mut self, num_splits: usize) -> (splits: Vec<Subgraph>)
        ensures
            splits@.len() == num_splits,
            forall|i: int|
                0 <= i < num_splits ==> {
                    &&& (#[trigger] splits@[i])@.parent == Some(old(self)@.id)
                    &&& splits@[i]@.nodes.len() == 0
                    &&& splits@[i]@.children.len() == 0
                    &&& splits@[i]@.affinity < AFFINITY_SCALE
                },
            final(self)@ == (SubgraphView {
                children: old(self)@.children + Seq::new(
                    num_splits as nat,
                    |i: int| splits@[i]@.id,
                ),
                ..old(self)@
            }),
    {
        proof {
            use_type_invariant(&*self);
        }
        let mut splits: Vec<Subgraph> = Vec::new();
        let mut children: Vec<u128> = Vec::new();
        std::mem::swap(&mut children, &mut self.children);
        let parent = self.id;
        let mut i: usize = 0;
        while i < num_splits
            invariant
                i <= num_splits,
                splits@.len() == i,
                parent == old(self)@.id,
                forall|j: int|
                    0 <= j < i ==> {
                        &&& (#[trigger] splits@[j])@.parent == Some(parent)
                        &&& splits@[j]@.nodes.len() == 0
                        &&& splits@[j]@.children.len() == 0
                        &&& splits@[j]@.affinity < AFFINITY_SCALE
                    },
                children@ == old(self)@.children + Seq::new(i as nat, |j: int| splits@[j]@.id),
            decreases num_splits - i,
        {
            let mut child = Subgraph::new();
            child.parent = Some(parent);
            children.push(child.id);
            splits.push(child);
            assert(children@ =~= old(self)@.children + Seq::new(
                (i + 1) as nat,
                |j: int| splits@[j]@.id,
            ));
            i += 1;
        }
        self.children = children;
        splits
    }

    /// Absorbs `other`: its compute nodes are appended to this unit's, and the
    /// affinity becomes the mean of the two. Fails, and changes nothing, only
    /// where the nodes of both would not fit into one unit.
    pub fn merge(&mut self, other: Subgraph) -> (res: Result<(), String>)
        ensures
            res is Ok <==> old(self)@.nodes.len() + other@.nodes.len() <= MAX_NODES,
            res is Ok ==> final(self)@ == (SubgraphView {
                nodes: old(self)@.nodes + other@.nodes,
                affinity: merged_affinity(old(self)@.affinity, other@.affinity),
                ..old(self)@
            }),
            res is Err ==> final(self)@ == old(self)@ && res->Err_0@ == MERGE_TOO_LARGE@,
    {
        proof {
            use_type_invariant(&*self);
            use_type_invariant(&other);
        }
        let mine = graph_node_count(&self.graph);
        let theirs = graph_node_count(&other.graph);
        if theirs > MAX_NODES - mine {
            return Err(String::from_str(MERGE_TOO_LARGE));
        }
        let incoming = graph_node_list(&other.graph);
        let mut graph = graph_new();
        std::mem::swap(&mut graph, &mut self.graph);
        let mut i: usize = 0;
        while i < incoming.len()
            invariant
                i <= incoming.len(),
                incoming@.len() == other@.nodes.len(),
                forall|j: int|
                    0 <= j < incoming@.len() ==> (#[trigger] incoming@[j])@ == other@.nodes[j],
                old(self)@.nodes.len() + other@.nodes.len() <= MAX_NODES,
                graph_nodes(graph) == old(self)@.nodes + other@.nodes.take(i as int),
            decreases incoming.len() - i,
        {
            let node = incoming[i].clone();
            graph_add_node(&mut graph, node);
            assert(graph_nodes(graph) =~= old(self)@.nodes + other@.nodes.take(i + 1));
            i += 1;
        }
        assert(other@.nodes.take(i as int) =~= other@.nodes);
        self.graph = graph;
        self.tornado_strength = (self.tornado_strength + other.tornado_strength) / 2;
        Ok(())
    }

    /// Whether this unit and `other` can connect: their affinities are less
    /// than three tenths apart.
    pub fn can_connect_with(&self, other: &Subgraph) -> (yes: bool)
        ensures
            yes == self.connects(other),
    {
        let a = self.tornado_strength;
        let b = other.tornado_strength;
        if a >= b {
            a - b < CONNECT_THRESHOLD
        } else {
            b - a < CONNECT_THRESHOLD
        }
    }
}

impl Clone for Subgraph {
    /// A copy that shares nothing with this unit.
    fn clone(&self) -> (res: Self)
        ensures
            res@ == self@,
    {
        proof {
            use_type_invariant(self);
        }
        let nodes = graph_node_list(&self.graph);
        let mut graph = graph_new();
        let mut i: usize = 0;
        while i < nodes.len()
            invariant
                i <= nodes.len(),
                nodes@.len() == graph_nodes(self.graph).len(),
                nodes@.len() <= MAX_NODES,
                forall|j: int|
                    0 <= j < nodes@.len() ==> (#[trigger] nodes@[j])@ == graph_nodes(self.graph)[j],
                graph_nodes(graph) == graph_nodes(self.graph).take(i as int),
            decreases nodes.len() - i,
        {
            graph_add_node(&mut graph, nodes[i].clone());
            assert(graph_nodes(graph) =~= graph_nodes(self.graph).take(i + 1));
            i += 1;
        }
        assert(graph_nodes(self.graph).take(i as int) =~= graph_nodes(self.graph));
        Subgraph {
            id: self.id,
            graph,
            parent: self.parent,
            children: self.children.clone(),
            tornado_strength: self.tornado_strength,
        }
    }
}

/// Connecting is symmetric: whether `a` connects with `b` is whether `b`
/// connects with `a`.
pub proof fn connecting_is_symmetric(a: Subgraph, b: Subgraph)
    ensures
        a.connects(&b) == b.connects(&a),
{
}

} // verus!
