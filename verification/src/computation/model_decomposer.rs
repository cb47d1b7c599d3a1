use crate::text::{
    concat2, concat3, decimal, decimal_string, join_with, joined, uuid_text, SPACE,
};
use crate::trusted::{debug_quoted, fresh_id, quoted_text, uuid_string};
use crate::units::subgraph::{
    ComputeNode, NodeState, Operation, OperationView, Subgraph, SubgraphView, AFFINITY_SCALE,
};
use std::collections::HashMap;
use vstd::prelude::*;
use vstd::string::StringExecFns;

verus! {

broadcast use vstd::std_specs::hash::group_hash_axioms;

/// The kind of a layer of a model.
#[derive(Debug)]
pub enum LayerType {
    Attention,
    FeedForward,
    Embedding,
    Output,
    Custom(String),
}

/// A [`LayerType`] with its name as a sequence of characters.
pub enum LayerTypeView {
    Attention,
    FeedForward,
    Embedding,
    Output,
    Custom(Seq<char>),
}

impl View for LayerType {
    type V = LayerTypeView;

    open spec fn view(&self) -> LayerTypeView {
        match self {
            LayerType::Attention => LayerTypeView::Attention,
            LayerType::FeedForward => LayerTypeView::FeedForward,
            LayerType::Embedding => LayerTypeView::Embedding,
            LayerType::Output => LayerTypeView::Output,
            LayerType::Custom(name) => LayerTypeView::Custom(name@),
        }
    }
}

impl Clone for LayerType {
    fn clone(&self) -> (res: Self)
        ensures
            res@ == self@,
    {
        match self {
            LayerType::Attention => LayerType::Attention,
            LayerType::FeedForward => LayerType::FeedForward,
            LayerType::Embedding => LayerType::Embedding,
            LayerType::Output => LayerType::Output,
            LayerType::Custom(name) => LayerType::Custom(name.clone()),
        }
    }
}

/// The text that stands for a kind of layer: the variant's name, and for a
/// custom kind its own name behind it, quoted and in brackets.
pub open spec fn layer_label(kind: LayerTypeView) -> Seq<char> {
    match kind {
        LayerTypeView::Attention => "Attention"@,
        LayerTypeView::FeedForward => "FeedForward"@,
        LayerTypeView::Embedding => "Embedding"@,
        LayerTypeView::Output => "Output"@,
        LayerTypeView::Custom(name) => "Custom("@ + quoted_text(name) + ")"@,
    }
}

impl LayerType {
    /// Writes [`layer_label`].
    pub fn label(&self) -> (text: String)
        ensures
            text@ == layer_label(self@),
    {
        match self {
            LayerType::Attention => String::from_str("Attention"),
            LayerType::FeedForward => String::from_str("FeedForward"),
            LayerType::Embedding => String::from_str("Embedding"),
            LayerType::Output => String::from_str("Output"),
            LayerType::Custom(name) => concat3(
                "Custom(",
                debug_quoted(name.as_str()).as_str(),
                ")",
            ),
        }
    }

    pub fn is_attention(&self) -> (yes: bool)
        ensures
            yes == (self@ is Attention),
    {
        match self {
            LayerType::Attention => true,
            _ => false,
        }
    }
}

/// One layer of a model: its kind, its declared sizes, and the layers that it
/// takes its input from.
#[derive(Debug)]
pub struct ModelLayer {
    pub id: u128,
    pub layer_type: LayerType,
    pub input_size: usize,
    pub output_size: usize,
    pub dependencies: Vec<u128>,
}

/// A [`ModelLayer`] as plain values.
pub struct ModelLayerView {
    pub id: u128,
    pub layer_type: LayerTypeView,
    pub input_size: usize,
    pub output_size: usize,
    pub dependencies: Seq<u128>,
}

impl View for ModelLayer {
    type V = ModelLayerView;

    open spec fn view(&self) -> ModelLayerView {
        ModelLayerView {
            id: self.id,
            layer_type: self.layer_type@,
            input_size: self.input_size,
            output_size: self.output_size,
            dependencies: self.dependencies@,
        }
    }
}

impl Clone for ModelLayer {
    fn clone(&self) -> (res: Self)
        ensures
            res@ == self@,
    {
        ModelLayer {
            id: self.id,
            layer_type: self.layer_type.clone(),
            input_size: self.input_size,
            output_size: self.output_size,
            dependencies: self.dependencies.clone(),
        }
    }
}

/// The layers of a sequence as plain values.
pub open spec fn layers_view(layers: Seq<ModelLayer>) -> Seq<ModelLayerView> {
    Seq::new(layers.len(), |i: int| layers[i]@)
}

/// How a model is cut into units of work.
#[derive(Debug, Clone, Copy, PartialEq, Eq, Structural)]
pub enum DecompositionStrategy {
    /// One unit for each layer.
    LayerWise,
    /// One unit for each of the given number of heads of an attention layer,
    /// and one for each other layer.
    AttentionHeads(usize),
    /// The given number of units for each layer, one for each chunk of tokens.
    TokenWise(usize),
}

/// What the one compute node of a planned unit holds: the text of its
/// operation, and its notes.
pub struct NodePlan {
    pub operation: Seq<char>,
    pub metadata: Seq<(Seq<char>, Seq<char>)>,
}

/// How many units a layer of the given kind yields.
pub open spec fn units_per_layer(kind: LayerTypeView, strategy: DecompositionStrategy) -> nat {
    match strategy {
        DecompositionStrategy::LayerWise => 1,
        DecompositionStrategy::AttentionHeads(heads) => if kind is Attention {
            heads as nat
        } else {
            1
        },
        DecompositionStrategy::TokenWise(chunks) => chunks as nat,
    }
}

/// The plan for the unit with the given index among the units of a layer.
pub open spec fn node_plan(
    layer: ModelLayerView,
    strategy: DecompositionStrategy,
    index: nat,
) -> NodePlan {
    let kind = layer_label(layer.layer_type);
    let layer_id = ("layer_id"@, uuid_text(layer.id));
    match strategy {
        DecompositionStrategy::LayerWise => NodePlan {
            operation: kind,
            metadata: seq![
                layer_id,
                ("layer_type"@, kind),
                ("input_size"@, decimal(layer.input_size as nat)),
                ("output_size"@, decimal(layer.output_size as nat)),
            ],
        },
        DecompositionStrategy::AttentionHeads(heads) => if layer.layer_type is Attention {
            NodePlan {
                operation: "Attention_Head_"@ + decimal(index),
                metadata: seq![
                    layer_id,
                    ("head_index"@, decimal(index)),
                    ("head_count"@, decimal(heads as nat)),
                ],
            }
        } else {
            NodePlan { operation: kind, metadata: seq![layer_id] }
        },
        DecompositionStrategy::TokenWise(chunks) => NodePlan {
            operation: kind + "_TokenChunk_"@ + decimal(index),
            metadata: seq![
                layer_id,
                ("chunk_index"@, decimal(index)),
                ("total_chunks"@, decimal(chunks as nat)),
            ],
        },
    }
}

/// The plans for the units of one layer, by rising index.
pub open spec fn layer_plans(layer: ModelLayerView, strategy: DecompositionStrategy) -> Seq<
    NodePlan,
> {
    Seq::new(
        units_per_layer(layer.layer_type, strategy),
        |index: int| node_plan(layer, strategy, index as nat),
    )
}

/// The plans for the units of a model: those of the first layer, then those
/// of the second, and so on.
pub open spec fn plans(layers: Seq<ModelLayerView>, strategy: DecompositionStrategy) -> Seq<
    NodePlan,
>
    decreases layers.len(),
{
    if layers.len() == 0 {
        Seq::empty()
    } else {
        plans(layers.drop_last(), strategy) + layer_plans(layers.last(), strategy)
    }
}

/// Whether a unit is what a plan asks for: a unit without lineage whose one
/// compute node is idle and holds the planned operation and notes.
pub open spec fn follows_plan(unit: SubgraphView, plan: NodePlan) -> bool {
    &&& unit.parent is None
    &&& unit.children.len() == 0
    &&& unit.affinity < AFFINITY_SCALE
    &&& unit.nodes.len() == 1
    &&& unit.nodes[0].operation == OperationView::Process(plan.operation)
    &&& unit.nodes[0].state == NodeState::Idle
    &&& unit.nodes[0].metadata == plan.metadata
}

/// The most units of one layer that take part when results are put back
/// together. An ordering key is this many times the position of the layer
/// plus the sub-index of the unit, so a sub-index at or over it would run
/// into the keys of the next layer.
pub const ORDERING_STRIDE: usize = 1000;

/// The ordering key of the unit with the given sub-index among the units of
/// the layer at the given position.
pub open spec fn ordering_key(layer: int, sub: int) -> int {
    layer * ORDERING_STRIDE + sub
}

/// How many units of a layer with `len` units take part when results are put
/// back together: all of them, up to the stride of the ordering key.
pub open spec fn capped(len: int) -> int {
    if len < ORDERING_STRIDE {
        len
    } else {
        ORDERING_STRIDE as int
    }
}

/// The record of a decomposition: for each layer, by position, the
/// identifiers of the units made from it, by sub-index. The unit with the
/// sub-index `j` of the layer at position `li` is the one that stands at
/// `plans(layers.take(li), strategy).len() + j` among all the units.
pub open spec fn unit_rows(
    layers: Seq<ModelLayerView>,
    strategy: DecompositionStrategy,
    ids: Seq<u128>,
) -> Seq<Seq<u128>> {
    Seq::new(
        layers.len(),
        |li: int|
            Seq::new(
                units_per_layer(layers[li].layer_type, strategy),
                |j: int| ids[plans(layers.take(li), strategy).len() + j],
            ),
    )
}

/// The record by layer after the first `upto` layers were noted: a layer that
/// yielded units is noted with the first of them, and a layer that yielded
/// none is struck from the record.
pub open spec fn recorded(
    record: Map<u128, u128>,
    layers: Seq<ModelLayerView>,
    rows: Seq<Seq<u128>>,
    upto: int,
) -> Map<u128, u128>
    decreases upto,
{
    if upto <= 0 {
        record
    } else {
        let earlier = recorded(record, layers, rows, upto - 1);
        if rows[upto - 1].len() > 0 {
            earlier.insert(layers[upto - 1].id, rows[upto - 1][0])
        } else {
            earlier.remove(layers[upto - 1].id)
        }
    }
}

/// Whether the layers are the four of the sample model: an embedding from 512
/// to 768, attention and feed-forward at 768, and an output from 768 to
/// 51200, each but the first depending on the one before it.
pub open spec fn is_sample_model(layers: Seq<ModelLayerView>) -> bool {
    &&& layers.len() == 4
    &&& layers[0].layer_type is Embedding
    &&& layers[0].input_size == 512
    &&& layers[0].output_size == 768
    &&& layers[0].dependencies == Seq::<u128>::empty()
    &&& layers[1].layer_type is Attention
    &&& layers[1].input_size == 768
    &&& layers[1].output_size == 768
    &&& layers[1].dependencies == seq![layers[0].id]
    &&& layers[2].layer_type is FeedForward
    &&& layers[2].input_size == 768
    &&& layers[2].output_size == 768
    &&& layers[2].dependencies == seq![layers[1].id]
    &&& layers[3].layer_type is Output
    &&& layers[3].input_size == 768
    &&& layers[3].output_size == 51200
    &&& layers[3].dependencies == seq![layers[2].id]
}

/// A unit whose one compute node is idle and holds the given operation and
/// notes.
fn planned_unit(operation: String, metadata: Vec<(String, String)>) -> (unit: Subgraph)
    ensures
        follows_plan(
            unit@,
            NodePlan { operation: operation@, metadata: metadata.deep_view() },
        ),
{
    let mut unit = Subgraph::new();
    let node = ComputeNode {
        id: fresh_id(),
        operation: Operation::Process(operation),
        state: NodeState::Idle,
        metadata,
    };
    unit.add_node(node);
    unit
}

fn note(key: &str, value: String) -> (pair: (String, String))
    ensures
        pair.deep_view() == (key@, value@),
{
    (String::from_str(key), value)
}

/// The unit with the given index among the units of a layer.
fn unit_for(layer: &ModelLayer, strategy: DecompositionStrategy, index: usize) -> (unit: Subgraph)
    ensures
        follows_plan(unit@, node_plan(layer@, strategy, index as nat)),
{
    let kind = layer.layer_type.label();
    let layer_id = note("layer_id", uuid_string(layer.id));
    let mut metadata: Vec<(String, String)> = Vec::new();
    metadata.push(layer_id);
    match strategy {
        DecompositionStrategy::LayerWise => {
            metadata.push(note("layer_type", kind.clone()));
            metadata.push(note("input_size", decimal_string(layer.input_size)));
            metadata.push(note("output_size", decimal_string(layer.output_size)));
            assert(metadata.deep_view() =~= node_plan(layer@, strategy, index as nat).metadata);
            planned_unit(kind, metadata)
        },
        DecompositionStrategy::AttentionHeads(heads) => {
            if layer.layer_type.is_attention() {
                let number = decimal_string(index);
                let operation = concat2("Attention_Head_", number.as_str());
                metadata.push(note("head_index", number));
                metadata.push(note("head_count", decimal_string(heads)));
                assert(metadata.deep_view() =~= node_plan(
                    layer@,
                    strategy,
                    index as nat,
                ).metadata);
                planned_unit(operation, metadata)
            } else {
                assert(metadata.deep_view() =~= node_plan(
                    layer@,
                    strategy,
                    index as nat,
                ).metadata);
                planned_unit(kind, metadata)
            }
        },
        DecompositionStrategy::TokenWise(chunks) => {
            let number = decimal_string(index);
            let operation = concat3(kind.as_str(), "_TokenChunk_", number.as_str());
            metadata.push(note("chunk_index", number));
            metadata.push(note("total_chunks", decimal_string(chunks)));
            assert(metadata.deep_view() =~= node_plan(layer@, strategy, index as nat).metadata);
            planned_unit(operation, metadata)
        },
    }
}

/// The units of one layer, by rising index.
fn units_for(layer: &ModelLayer, strategy: DecompositionStrategy) -> (units: Vec<Subgraph>)
    ensures
        units@.len() == layer_plans(layer@, strategy).len(),
        forall|index: int|
            0 <= index < units@.len() ==> follows_plan(
                (#[trigger] units@[index])@,
                layer_plans(layer@, strategy)[index],
            ),
{
    let count: usize = match strategy {
        DecompositionStrategy::LayerWise => 1,
        DecompositionStrategy::AttentionHeads(heads) => if layer.layer_type.is_attention() {
            heads
        } else {
            1
        },
        DecompositionStrategy::TokenWise(chunks) => chunks,
    };
    let mut units: Vec<Subgraph> = Vec::new();
    let mut index: usize = 0;
    while index < count
        invariant
            index <= count,
            count == units_per_layer(layer@.layer_type, strategy),
            units@.len() == index,
            forall|at: int|
                0 <= at < index ==> follows_plan(
                    (#[trigger] units@[at])@,
                    layer_plans(layer@, strategy)[at],
                ),
        decreases count - index,
    {
        let unit = unit_for(layer, strategy, index);
        units.push(unit);
        index += 1;
    }
    units
}

/// The identifiers of a sequence of units, in order.
pub open spec fn unit_ids(units: Seq<Subgraph>) -> Seq<u128> {
    Seq::new(units.len(), |i: int| units[i]@.id)
}

/// The strings of a map as sequences of characters.
pub open spec fn result_texts(results: Map<u128, String>) -> Map<u128, Seq<char>> {
    results.map_values(|text: String| text@)
}

/// Whether `unit` stands among the first `upto` identifiers of a row.
pub open spec fn row_holds(row: Seq<u128>, unit: u128, upto: int) -> bool
    decreases upto,
{
    upto > 0 && (row_holds(row, unit, upto - 1) || row[upto - 1] == unit)
}

/// Whether `unit` takes part for one of the first `upto` layers of a record:
/// it stands in the layer's row, under the stride of the ordering key.
pub open spec fn rows_hold(rows: Seq<Seq<u128>>, unit: u128, upto: int) -> bool
    decreases upto,
{
    upto > 0 && (rows_hold(rows, unit, upto - 1) || row_holds(
        rows[upto - 1],
        unit,
        capped(rows[upto - 1].len() as int),
    ))
}

/// Whether `unit` takes part at a place before the sub-index `sub` of the
/// layer at `layer`, that is, under a smaller ordering key.
pub open spec fn stands_before(rows: Seq<Seq<u128>>, layer: int, sub: int, unit: u128) -> bool {
    rows_hold(rows, unit, layer) || row_holds(rows[layer], unit, sub)
}

/// The result that stands at a place of the record: that of the unit
/// recorded there, where the unit has a result and takes part at no earlier
/// place.
pub open spec fn result_at(
    rows: Seq<Seq<u128>>,
    results: Map<u128, Seq<char>>,
    layer: int,
    sub: int,
) -> Option<Seq<char>> {
    let unit = rows[layer][sub];
    if results.contains_key(unit) && !stands_before(rows, layer, sub, unit) {
        Some(results[unit])
    } else {
        None
    }
}

/// The results that stand at the first `upto` places of a layer, by rising
/// sub-index.
pub open spec fn row_results(
    rows: Seq<Seq<u128>>,
    results: Map<u128, Seq<char>>,
    layer: int,
    upto: int,
) -> Seq<Seq<char>>
    decreases upto,
{
    if upto <= 0 {
        Seq::empty()
    } else {
        let earlier = row_results(rows, results, layer, upto - 1);
        match result_at(rows, results, layer, upto - 1) {
            Some(text) => earlier.push(text),
            None => earlier,
        }
    }
}

/// The results of the units that take part for the first `upto` layers of a
/// record, by rising ordering key: layer by layer, and within a layer by
/// rising sub-index under the stride.
pub open spec fn results_in_order(
    rows: Seq<Seq<u128>>,
    results: Map<u128, Seq<char>>,
    upto: int,
) -> Seq<Seq<char>>
    decreases upto,
{
    if upto <= 0 {
        Seq::empty()
    } else {
        results_in_order(rows, results, upto - 1) + row_results(
            rows,
            results,
            upto - 1,
            capped(rows[upto - 1].len() as int),
        )
    }
}

/// The position of the first layer of a record, among the first `upto`, in
/// whose row `unit` stands.
pub open spec fn layer_position_of(rows: Seq<Seq<u128>>, unit: u128, upto: int) -> Option<int>
    decreases upto,
{
    if upto <= 0 {
        None
    } else {
        match layer_position_of(rows, unit, upto - 1) {
            Some(position) => Some(position),
            None => if row_holds(rows[upto - 1], unit, rows[upto - 1].len() as int) {
                Some(upto - 1)
            } else {
                None
            },
        }
    }
}

/// How many of the layers are attention layers.
pub open spec fn attention_layers(layers: Seq<ModelLayerView>) -> nat
    decreases layers.len(),
{
    if layers.len() == 0 {
        0
    } else {
        attention_layers(layers.drop_last()) + if layers.last().layer_type is Attention {
            1nat
        } else {
            0nat
        }
    }
}

/// Cuts a model into units of work, and keeps the records that put results
/// back in order.
pub struct ModelDecomposer {
    pub model_layers: Vec<ModelLayer>,
    /// For a layer's identifier, the identifier of the first unit made from
    /// it.
    pub subgraph_mapping: HashMap<u128, u128>,
    /// The record of the latest decomposition: for each layer, by position,
    /// the identifiers of the units made from it, by sub-index (the index of
    /// the head or of the chunk, and 0 for the one unit of a whole layer).
    pub unit_record: Vec<Vec<u128>>,
}

impl ModelDecomposer {
    /// A decomposer without layers and with empty records.
    pub fn new() -> (decomposer: ModelDecomposer)
        ensures
            decomposer.model_layers@.len() == 0,
            decomposer.subgraph_mapping@ == Map::<u128, u128>::empty(),
            decomposer.unit_record@.len() == 0,
    {
        ModelDecomposer {
            model_layers: Vec::new(),
            subgraph_mapping: HashMap::new(),
            unit_record: Vec::new(),
        }
    }

    /// Makes the sample model, keeps it as this decomposer's model, and
    /// returns a copy. The identifiers of the layers are fresh. The records
    /// are left as they were.
    pub fn create_sample_model(&mut self) -> (layers: Vec<ModelLayer>)
        ensures
            is_sample_model(layers_view(layers@)),
            layers_view(final(self).model_layers@) == layers_view(layers@),
            final(self).subgraph_mapping == old(self).subgraph_mapping,
            final(self).unit_record == old(self).unit_record,
    {
        let mut layers: Vec<ModelLayer> = Vec::new();
        layers.push(
            ModelLayer {
                id: fresh_id(),
                layer_type: LayerType::Embedding,
                input_size: 512,
                output_size: 768,
                dependencies: Vec::new(),
            },
        );
        let mut after_embedding: Vec<u128> = Vec::new();
        after_embedding.push(layers[0].id);
        layers.push(
            ModelLayer {
                id: fresh_id(),
                layer_type: LayerType::Attention,
                input_size: 768,
                output_size: 768,
                dependencies: after_embedding,
            },
        );
        let mut after_attention: Vec<u128> = Vec::new();
        after_attention.push(layers[1].id);
        layers.push(
            ModelLayer {
                id: fresh_id(),
                layer_type: LayerType::FeedForward,
                input_size: 768,
                output_size: 768,
                dependencies: after_attention,
            },
        );
        let mut after_feed_forward: Vec<u128> = Vec::new();
        after_feed_forward.push(layers[2].id);
        layers.push(
            ModelLayer {
                id: fresh_id(),
                layer_type: LayerType::Output,
                input_size: 768,
                output_size: 51200,
                dependencies: after_feed_forward,
            },
        );
        proof {
            let views = layers_view(layers@);
            assert(views[0].dependencies =~= Seq::<u128>::empty());
            assert(views[1].dependencies =~= seq![views[0].id]);
            assert(views[2].dependencies =~= seq![views[1].id]);
            assert(views[3].dependencies =~= seq![views[2].id]);
        }
        let mut kept: Vec<ModelLayer> = Vec::new();
        let mut i: usize = 0;
        while i < layers.len()
            invariant
                i <= layers@.len(),
                kept@.len() == i,
                forall|j: int| 0 <= j < i ==> (#[trigger] kept@[j])@ == layers@[j]@,
            decreases layers.len() - i,
        {
            kept.push(layers[i].clone());
            i += 1;
        }
        assert(layers_view(kept@) =~= layers_view(layers@));
        self.model_layers = kept;
        layers
    }

    /// Cuts the model into units of work: for each layer in turn, the units
    /// that the strategy plans for it. Each unit is new, with a random
    /// identifier and affinity, and holds one idle compute node with the
    /// planned operation and notes. Under every strategy the decomposition is
    /// recorded: the record of units is replaced by that of this
    /// decomposition, and the record by layer notes for each layer the first
    /// unit made from it.
    pub fn decompose_model(&mut self, decomposition_strategy: DecompositionStrategy) -> (subgraphs:
        Vec<Subgraph>)
        ensures
            final(self).model_layers == old(self).model_layers,
            subgraphs@.len() == plans(
                layers_view(old(self).model_layers@),
                decomposition_strategy,
            ).len(),
            forall|at: int|
                0 <= at < subgraphs@.len() ==> follows_plan(
                    (#[trigger] subgraphs@[at])@,
                    plans(layers_view(old(self).model_layers@), decomposition_strategy)[at],
                ),
            final(self).unit_record.deep_view() == unit_rows(
                layers_view(old(self).model_layers@),
                decomposition_strategy,
                unit_ids(subgraphs@),
            ),
            final(self).subgraph_mapping@ == recorded(
                old(self).subgraph_mapping@,
                layers_view(old(self).model_layers@),
                final(self).unit_record.deep_view(),
                old(self).model_layers@.len() as int,
            ),
    {
        let ghost layers = layers_view(self.model_layers@);
        let mut subgraphs: Vec<Subgraph> = Vec::new();
        let mut rows: Vec<Vec<u128>> = Vec::new();
        let mut i: usize = 0;
        while i < self.model_layers.len()
            invariant
                i <= self.model_layers@.len(),
                self.model_layers == old(self).model_layers,
                layers == layers_view(self.model_layers@),
                subgraphs@.len() == plans(layers.take(i as int), decomposition_strategy).len(),
                forall|at: int|
                    0 <= at < subgraphs@.len() ==> follows_plan(
                        (#[trigger] subgraphs@[at])@,
                        plans(layers.take(i as int), decomposition_strategy)[at],
                    ),
                rows@.len() == i,
                forall|li: int|
                    0 <= li < i ==> (#[trigger] rows@[li])@.len() == units_per_layer(
                        layers[li].layer_type,
                        decomposition_strategy,
                    ),
                forall|li: int, j: int|
                    0 <= li < i && 0 <= j < rows@[li]@.len() ==> #[trigger] rows@[li]@[j]
                        == subgraphs@[plans(layers.take(li), decomposition_strategy).len()
                        + j]@.id,
                self.subgraph_mapping@ == recorded(
                    old(self).subgraph_mapping@,
                    layers,
                    rows.deep_view(),
                    i as int,
                ),
            decreases self.model_layers.len() - i,
        {
            let ghost before = subgraphs@;
            let ghost rows_before = rows.deep_view();
            let mut made = units_for(&self.model_layers[i], decomposition_strategy);
            let ghost made_units = made@;
            proof {
                assert(layers.take(i + 1).drop_last() =~= layers.take(i as int));
                assert(layers.take(i + 1).last() == layers[i as int]);
            }
            let mut row: Vec<u128> = Vec::new();
            let mut j: usize = 0;
            while j < made.len()
                invariant
                    j <= made@.len(),
                    made@ == made_units,
                    row@.len() == j,
                    forall|k: int| 0 <= k < j ==> #[trigger] row@[k] == made_units[k]@.id,
                decreases made.len() - j,
            {
                row.push(made[j].id());
                j += 1;
            }
            let layer_id = self.model_layers[i].id;
            if row.len() > 0 {
                self.subgraph_mapping.insert(layer_id, row[0]);
            } else {
                self.subgraph_mapping.remove(&layer_id);
            }
            let ghost row_ids = row@;
            rows.push(row);
            subgraphs.append(&mut made);
            proof {
                assert(subgraphs@ =~= before + made_units);
                assert(rows.deep_view().len() == i + 1);
                assert(rows.deep_view()[i as int] == row_ids);
                assert forall|li: int| 0 <= li < i implies rows.deep_view()[li]
                    == rows_before[li] by {
                    assert(rows@[li] == rows@.drop_last()[li]);
                }
                lemma_recorded_reads_prefix(
                    old(self).subgraph_mapping@,
                    layers,
                    rows_before,
                    rows.deep_view(),
                    i as int,
                );
                assert forall|li: int, k: int|
                    0 <= li < i + 1 && 0 <= k < rows@[li]@.len() implies #[trigger] rows@[li]@[k]
                    == subgraphs@[plans(layers.take(li), decomposition_strategy).len() + k]@.id by {
                    if li < i {
                        lemma_plans_grow(layers, decomposition_strategy, li, i as int);
                        assert(rows@[li]@[k] == before[plans(
                            layers.take(li),
                            decomposition_strategy,
                        ).len() + k]@.id);
                    } else {
                        assert(rows@[li]@[k] == made_units[k]@.id);
                    }
                }
            }
            i += 1;
        }
        proof {
            assert(layers.take(i as int) =~= layers);
            let expected = unit_rows(layers, decomposition_strategy, unit_ids(subgraphs@));
            assert(rows.deep_view().len() == expected.len());
            assert forall|li: int| 0 <= li < expected.len() implies rows.deep_view()[li]
                == expected[li] by {
                assert(rows.deep_view()[li] == rows@[li]@);
                lemma_plans_grow(layers, decomposition_strategy, li, layers.len() as int);
                assert(layers.take(layers.len() as int) =~= layers);
                assert(rows@[li]@ =~= expected[li]);
            }
            assert(rows.deep_view() =~= expected);
        }
        self.unit_record = rows;
        subgraphs
    }

    /// Whether `unit` stands among the first `upto` identifiers of the row
    /// of the layer at `layer`.
    fn row_has(&self, layer: usize, unit: u128, upto: usize) -> (found: bool)
        requires
            layer < self.unit_record@.len(),
            upto <= self.unit_record@[layer as int]@.len(),
        ensures
            found == row_holds(self.unit_record.deep_view()[layer as int], unit, upto as int),
    {
        let row = &self.unit_record[layer];
        assert(self.unit_record.deep_view()[layer as int] == row@);
        let mut found = false;
        let mut k: usize = 0;
        while k < upto
            invariant
                k <= upto <= row@.len(),
                found == row_holds(row@, unit, k as int),
            decreases upto - k,
        {
            if row[k] == unit {
                found = true;
            }
            k += 1;
        }
        found
    }

    /// How many units of the layer at `layer` take part when results are put
    /// back together.
    fn taking_part(&self, layer: usize) -> (count: usize)
        requires
            layer < self.unit_record@.len(),
        ensures
            count == capped(self.unit_record.deep_view()[layer as int].len() as int),
            count <= self.unit_record@[layer as int]@.len(),
    {
        assert(self.unit_record.deep_view()[layer as int] == self.unit_record@[layer as int]@);
        let len = self.unit_record[layer].len();
        if len < ORDERING_STRIDE {
            len
        } else {
            ORDERING_STRIDE
        }
    }

    /// Whether `unit` takes part at a place before the sub-index `sub` of the
    /// layer at `layer`.
    fn takes_part_before(&self, layer: usize, sub: usize, unit: u128) -> (found: bool)
        requires
            layer < self.unit_record@.len(),
            sub <= self.unit_record@[layer as int]@.len(),
        ensures
            found == stands_before(self.unit_record.deep_view(), layer as int, sub as int, unit),
    {
        let ghost rows = self.unit_record.deep_view();
        let mut found = false;
        let mut li: usize = 0;
        while li < layer
            invariant
                li <= layer < self.unit_record@.len(),
                rows == self.unit_record.deep_view(),
                found == rows_hold(rows, unit, li as int),
            decreases layer - li,
        {
            let count = self.taking_part(li);
            if self.row_has(li, unit, count) {
                found = true;
            }
            li += 1;
        }
        if self.row_has(layer, unit, sub) {
            found = true;
        }
        found
    }

    /// The layer that a unit was made from: the layer of the model at the
    /// position of the first layer of the record in whose row the unit
    /// stands. There is none where the unit is not recorded, or where the
    /// model has no layer at that position.
    pub fn find_layer_for_subgraph(&self, subgraph_id: u128) -> (layer: Option<u128>)
        ensures
            layer == match layer_position_of(
                self.unit_record.deep_view(),
                subgraph_id,
                self.unit_record@.len() as int,
            ) {
                Some(position) => if position < self.model_layers@.len() {
                    Some(self.model_layers@[position].id)
                } else {
                    None
                },
                None => None,
            },
    {
        let ghost rows = self.unit_record.deep_view();
        let mut li: usize = 0;
        while li < self.unit_record.len()
            invariant
                li <= self.unit_record@.len(),
                rows == self.unit_record.deep_view(),
                layer_position_of(rows, subgraph_id, li as int) is None,
            decreases self.unit_record.len() - li,
        {
            assert(rows[li as int] == self.unit_record@[li as int]@);
            let len = self.unit_record[li].len();
            if self.row_has(li, subgraph_id, len) {
                proof {
                    lemma_layer_position_stays(rows, subgraph_id, li + 1, rows.len() as int);
                }
                if li < self.model_layers.len() {
                    return Some(self.model_layers[li].id);
                } else {
                    return None;
                }
            }
            li += 1;
        }
        None
    }

    /// Puts the results of units back together: the results of the units of
    /// the latest decomposition, by rising ordering key, with a space between
    /// each two. The ordering key of a unit is a thousand times the position
    /// of its layer plus its sub-index. A unit with a sub-index of a thousand
    /// or more takes no part, so that no key of one layer reaches the keys of
    /// the next; a result whose unit takes no part is left out. The order in
    /// which the map hands its results out does not matter.
    pub fn reintegrate_results(&self, subgraph_results: HashMap<u128, String>) -> (combined: String)
        ensures
            combined@ == joined(
                results_in_order(
                    self.unit_record.deep_view(),
                    result_texts(subgraph_results@),
                    self.unit_record@.len() as int,
                ),
                SPACE@,
            ),
    {
        let ghost rows = self.unit_record.deep_view();
        let ghost results = result_texts(subgraph_results@);
        let mut parts: Vec<String> = Vec::new();
        let mut li: usize = 0;
        while li < self.unit_record.len()
            invariant
                li <= self.unit_record@.len(),
                rows == self.unit_record.deep_view(),
                results == result_texts(subgraph_results@),
                parts.deep_view() == results_in_order(rows, results, li as int),
            decreases self.unit_record.len() - li,
        {
            let ghost earlier = parts.deep_view();
            let count = self.taking_part(li);
            let mut j: usize = 0;
            assert(parts.deep_view() =~= earlier + row_results(rows, results, li as int, 0));
            while j < count
                invariant
                    j <= count <= self.unit_record@[li as int]@.len(),
                    li < self.unit_record@.len(),
                    rows == self.unit_record.deep_view(),
                    results == result_texts(subgraph_results@),
                    parts.deep_view() == earlier + row_results(rows, results, li as int, j as int),
                decreases count - j,
            {
                assert(rows[li as int] == self.unit_record@[li as int]@);
                let unit = self.unit_record[li][j];
                let ghost shorter = parts.deep_view();
                match subgraph_results.get(&unit) {
                    Some(text) => {
                        if !self.takes_part_before(li, j, unit) {
                            parts.push(text.clone());
                            assert(parts.deep_view() =~= shorter.push(text@));
                        }
                    },
                    None => {},
                }
                assert(parts.deep_view() =~= earlier + row_results(
                    rows,
                    results,
                    li as int,
                    j + 1,
                ));
                j += 1;
            }
            li += 1;
        }
        join_with(&parts, SPACE)
    }
}

proof fn lemma_recorded_reads_prefix(
    record: Map<u128, u128>,
    layers: Seq<ModelLayerView>,
    shorter: Seq<Seq<u128>>,
    longer: Seq<Seq<u128>>,
    upto: int,
)
    requires
        0 <= upto <= shorter.len() <= longer.len(),
        forall|i: int| 0 <= i < shorter.len() ==> shorter[i] == longer[i],
    ensures
        recorded(record, layers, shorter, upto) == recorded(record, layers, longer, upto),
    decreases upto,
{
    if upto > 0 {
        lemma_recorded_reads_prefix(record, layers, shorter, longer, upto - 1);
    }
}

proof fn lemma_plans_grow(
    layers: Seq<ModelLayerView>,
    strategy: DecompositionStrategy,
    li: int,
    upto: int,
)
    requires
        0 <= li < upto <= layers.len(),
    ensures
        plans(layers.take(li), strategy).len() + units_per_layer(layers[li].layer_type, strategy)
            <= plans(layers.take(upto), strategy).len(),
    decreases upto - li,
{
    assert(layers.take(upto).drop_last() =~= layers.take(upto - 1));
    assert(layers.take(upto).last() == layers[upto - 1]);
    if li + 1 < upto {
        lemma_plans_grow(layers, strategy, li, upto - 1);
    }
}

proof fn lemma_layer_position_stays(rows: Seq<Seq<u128>>, unit: u128, from: int, upto: int)
    requires
        0 <= from <= upto,
        layer_position_of(rows, unit, from) is Some,
    ensures
        layer_position_of(rows, unit, upto) == layer_position_of(rows, unit, from),
    decreases upto - from,
{
    if from < upto {
        lemma_layer_position_stays(rows, unit, from, upto - 1);
    }
}

/// Among the units that take part, the ordering key rises with the place:
/// one unit comes before another, by the position of its layer and then by
/// its sub-index, exactly when its key is the smaller.
pub proof fn keys_rise_with_places(layer: int, sub: int, other_layer: int, other_sub: int)
    requires
        0 <= sub < ORDERING_STRIDE,
        0 <= other_sub < ORDERING_STRIDE,
    ensures
        (layer < other_layer || (layer == other_layer && sub < other_sub)) <==> ordering_key(
            layer,
            sub,
        ) < ordering_key(other_layer, other_sub),
{
}

/// Whether no unit stands at two of the places of a record that take part.
pub open spec fn stands_once(rows: Seq<Seq<u128>>) -> bool {
    forall|a: int, b: int, c: int, d: int|
        0 <= a < rows.len() && 0 <= b < capped(rows[a].len() as int) && 0 <= c < rows.len() && 0
            <= d < capped(rows[c].len() as int) && (a != c || b != d) ==> #[trigger] rows[a][b]
            != #[trigger] rows[c][d]
}

/// Whether the layers have identifiers that differ from one another.
pub open spec fn layers_differ(layers: Seq<ModelLayerView>) -> bool {
    forall|a: int, b: int|
        0 <= a < b < layers.len() ==> (#[trigger] layers[a]).id != (#[trigger] layers[b]).id
}

proof fn lemma_row_holds_somewhere(row: Seq<u128>, unit: u128, upto: int)
    requires
        row_holds(row, unit, upto),
    ensures
        exists|b: int| 0 <= b < upto && #[trigger] row[b] == unit,
    decreases upto,
{
    if row[upto - 1] != unit {
        lemma_row_holds_somewhere(row, unit, upto - 1);
    }
}

proof fn lemma_rows_hold_somewhere(rows: Seq<Seq<u128>>, unit: u128, upto: int)
    requires
        rows_hold(rows, unit, upto),
    ensures
        exists|a: int, b: int|
            0 <= a < upto && 0 <= b < capped(rows[a].len() as int) && #[trigger] rows[a][b]
                == unit,
    decreases upto,
{
    if row_holds(rows[upto - 1], unit, capped(rows[upto - 1].len() as int)) {
        lemma_row_holds_somewhere(rows[upto - 1], unit, capped(rows[upto - 1].len() as int));
        let b = choose|b: int|
            0 <= b < capped(rows[upto - 1].len() as int) && #[trigger] rows[upto - 1][b] == unit;
        assert(rows[upto - 1][b] == unit);
    } else {
        lemma_rows_hold_somewhere(rows, unit, upto - 1);
    }
}

/// Where no unit stands at two places, every unit that takes part and has a
/// result gives that result at its place: no result is left out, and none is
/// joined twice.
pub proof fn a_unit_that_stands_once_gives_its_result(
    rows: Seq<Seq<u128>>,
    results: Map<u128, Seq<char>>,
    layer: int,
    sub: int,
)
    requires
        stands_once(rows),
        0 <= layer < rows.len(),
        0 <= sub < capped(rows[layer].len() as int),
    ensures
        !stands_before(rows, layer, sub, rows[layer][sub]),
        results.contains_key(rows[layer][sub]) ==> result_at(rows, results, layer, sub) == Some(
            results[rows[layer][sub]],
        ),
{
    let unit = rows[layer][sub];
    if rows_hold(rows, unit, layer) {
        lemma_rows_hold_somewhere(rows, unit, layer);
        let (a, b) = choose|a: int, b: int|
            0 <= a < layer && 0 <= b < capped(rows[a].len() as int) && #[trigger] rows[a][b]
                == unit;
        assert(rows[a][b] != rows[layer][sub]);
    }
    if row_holds(rows[layer], unit, sub) {
        lemma_row_holds_somewhere(rows[layer], unit, sub);
        let b = choose|b: int| 0 <= b < sub && #[trigger] rows[layer][b] == unit;
        assert(rows[layer][b] != rows[layer][sub]);
    }
}

/// The units, among the first `upto` of the row of a layer, that have a
/// result.
spec fn row_units_with_results(
    rows: Seq<Seq<u128>>,
    results: Map<u128, Seq<char>>,
    layer: int,
    upto: int,
) -> Set<u128> {
    Set::new(|unit: u128| results.contains_key(unit) && row_holds(rows[layer], unit, upto))
}

/// The units that take part for the first `upto` layers and have a result.
spec fn units_with_results(
    rows: Seq<Seq<u128>>,
    results: Map<u128, Seq<char>>,
    upto: int,
) -> Set<u128> {
    Set::new(|unit: u128| results.contains_key(unit) && rows_hold(rows, unit, upto))
}

proof fn lemma_row_gives_each_result_once(
    rows: Seq<Seq<u128>>,
    results: Map<u128, Seq<char>>,
    layer: int,
    upto: int,
)
    requires
        stands_once(rows),
        0 <= layer < rows.len(),
        0 <= upto <= capped(rows[layer].len() as int),
    ensures
        row_units_with_results(rows, results, layer, upto).finite(),
        row_results(rows, results, layer, upto).len() == row_units_with_results(
            rows,
            results,
            layer,
            upto,
        ).len(),
    decreases upto,
{
    let now = row_units_with_results(rows, results, layer, upto);
    if upto == 0 {
        assert(now =~= Set::<u128>::empty());
    } else {
        lemma_row_gives_each_result_once(rows, results, layer, upto - 1);
        let earlier = row_units_with_results(rows, results, layer, upto - 1);
        let unit = rows[layer][upto - 1];
        a_unit_that_stands_once_gives_its_result(rows, results, layer, upto - 1);
        if results.contains_key(unit) {
            assert(!earlier.contains(unit));
            assert(now =~= earlier.insert(unit));
        } else {
            assert(now =~= earlier);
        }
    }
}

proof fn lemma_rows_give_each_result_once(
    rows: Seq<Seq<u128>>,
    results: Map<u128, Seq<char>>,
    upto: int,
)
    requires
        stands_once(rows),
        0 <= upto <= rows.len(),
    ensures
        units_with_results(rows, results, upto).finite(),
        results_in_order(rows, results, upto).len() == units_with_results(
            rows,
            results,
            upto,
        ).len(),
    decreases upto,
{
    let now = units_with_results(rows, results, upto);
    if upto == 0 {
        assert(now =~= Set::<u128>::empty());
    } else {
        lemma_rows_give_each_result_once(rows, results, upto - 1);
        let taking = capped(rows[upto - 1].len() as int);
        lemma_row_gives_each_result_once(rows, results, upto - 1, taking);
        let earlier = units_with_results(rows, results, upto - 1);
        let row = row_units_with_results(rows, results, upto - 1, taking);
        assert(now =~= earlier + row);
        assert(earlier.disjoint(row)) by {
            assert forall|unit: u128| earlier.contains(unit) implies !row.contains(unit) by {
                if row.contains(unit) {
                    lemma_rows_hold_somewhere(rows, unit, upto - 1);
                    lemma_row_holds_somewhere(rows[upto - 1], unit, taking);
                    let (a, b) = choose|a: int, b: int|
                        0 <= a < upto - 1 && 0 <= b < capped(rows[a].len() as int)
                            && #[trigger] rows[a][b] == unit;
                    let d = choose|d: int| 0 <= d < taking && #[trigger] rows[upto - 1][d] == unit;
                    assert(rows[a][b] != rows[upto - 1][d]);
                }
            }
        }
        vstd::set_lib::lemma_set_disjoint_lens(earlier, row);
    }
}

/// Where no unit stands at two places and every result is that of a unit
/// that takes part, every result is joined exactly once: as many texts are
/// joined as there are results.
pub proof fn every_result_is_joined_once(rows: Seq<Seq<u128>>, results: Map<u128, Seq<char>>)
    requires
        stands_once(rows),
        forall|unit: u128| #[trigger]
            results.contains_key(unit) ==> rows_hold(rows, unit, rows.len() as int),
    ensures
        results.dom().finite(),
        results_in_order(rows, results, rows.len() as int).len() == results.len(),
{
    lemma_rows_give_each_result_once(rows, results, rows.len() as int);
    assert(units_with_results(rows, results, rows.len() as int) =~= results.dom());
}

/// Where the units of a decomposition have identifiers that differ from one
/// another, no unit stands at two places of its record.
pub proof fn different_units_stand_once(
    layers: Seq<ModelLayerView>,
    strategy: DecompositionStrategy,
    ids: Seq<u128>,
)
    requires
        ids.no_duplicates(),
        ids.len() == plans(layers, strategy).len(),
    ensures
        stands_once(unit_rows(layers, strategy, ids)),
{
    let rows = unit_rows(layers, strategy, ids);
    assert(layers.take(layers.len() as int) =~= layers);
    assert forall|a: int, b: int, c: int, d: int|
        0 <= a < rows.len() && 0 <= b < capped(rows[a].len() as int) && 0 <= c < rows.len() && 0
            <= d < capped(rows[c].len() as int) && (a != c || b != d) implies #[trigger] rows[a][b]
        != #[trigger] rows[c][d] by {
        let first = plans(layers.take(a), strategy).len() + b;
        let second = plans(layers.take(c), strategy).len() + d;
        lemma_plans_grow(layers, strategy, a, layers.len() as int);
        lemma_plans_grow(layers, strategy, c, layers.len() as int);
        if a < c {
            lemma_plans_grow(layers, strategy, a, c);
        } else if c < a {
            lemma_plans_grow(layers, strategy, c, a);
        }
        assert(first != second);
        assert(rows[a][b] == ids[first]);
        assert(rows[c][d] == ids[second]);
    }
}

/// Where the layers have different identifiers, the record by layer names
/// after a decomposition, for every layer that yielded units, the first of
/// them, and names no unit for a layer that yielded none.
pub proof fn every_layer_is_noted(
    record: Map<u128, u128>,
    layers: Seq<ModelLayerView>,
    rows: Seq<Seq<u128>>,
    upto: int,
    layer: int,
)
    requires
        layers_differ(layers),
        0 <= layer < upto <= layers.len(),
    ensures
        rows[layer].len() > 0 ==> recorded(record, layers, rows, upto).contains_key(
            layers[layer].id,
        ) && recorded(record, layers, rows, upto)[layers[layer].id] == rows[layer][0],
        rows[layer].len() == 0 ==> !recorded(record, layers, rows, upto).contains_key(
            layers[layer].id,
        ),
    decreases upto,
{
    if layer < upto - 1 {
        every_layer_is_noted(record, layers, rows, upto - 1, layer);
        assert(layers[layer].id != layers[upto - 1].id);
    }
}

/// Cut layer by layer, a model yields one unit for each layer.
pub proof fn layer_wise_yields_one_unit_per_layer(layers: Seq<ModelLayerView>)
    ensures
        plans(layers, DecompositionStrategy::LayerWise).len() == layers.len(),
    decreases layers.len(),
{
    if layers.len() > 0 {
        layer_wise_yields_one_unit_per_layer(layers.drop_last());
    }
}

/// Cut by attention heads, a model yields `heads` units for each attention
/// layer and one unit for each other layer.
pub proof fn attention_heads_yield_units_per_head(layers: Seq<ModelLayerView>, heads: usize)
    ensures
        plans(layers, DecompositionStrategy::AttentionHeads(heads)).len() == heads
            * attention_layers(layers) + (layers.len() - attention_layers(layers)),
        attention_layers(layers) <= layers.len(),
    decreases layers.len(),
{
    let strategy = DecompositionStrategy::AttentionHeads(heads);
    if layers.len() > 0 {
        let earlier = layers.drop_last();
        attention_heads_yield_units_per_head(earlier, heads);
        assert(plans(layers, strategy).len() == plans(earlier, strategy).len() + layer_plans(
            layers.last(),
            strategy,
        ).len());
        assert(heads * (attention_layers(earlier) + 1) == heads * attention_layers(earlier)
            + heads) by (nonlinear_arith);
    } else {
        assert(heads * 0 == 0) by (nonlinear_arith);
    }
}

/// Cut by chunks of tokens, a model yields `chunks` units for each layer,
/// whatever the kind of the layer.
pub proof fn token_wise_yields_units_per_chunk(layers: Seq<ModelLayerView>, chunks: usize)
    ensures
        plans(layers, DecompositionStrategy::TokenWise(chunks)).len() == chunks * layers.len(),
    decreases layers.len(),
{
    if layers.len() > 0 {
        token_wise_yields_units_per_chunk(layers.drop_last(), chunks);
        assert(chunks * layers.len() == chunks * (layers.len() - 1) + chunks)
            by (nonlinear_arith);
    }
}

} // verus!
