use crate::computation::model_decomposer::{LayerType, LayerTypeView};
use crate::trusted::fresh_id;
use vstd::hash_map::StringHashMap;
use vstd::prelude::*;
use vstd::string::StringExecFns;

verus! {

/// The size of the vocabulary where a configuration names none.
pub const DEFAULT_VOCAB_SIZE: usize = 51200;

/// The hidden size where a configuration names none.
pub const DEFAULT_HIDDEN_SIZE: usize = 768;

/// The number of attention heads where a configuration names none.
pub const DEFAULT_NUM_HEADS: usize = 12;

/// A layer that looks tokens up in a table of embeddings.
#[derive(Debug, Clone, Copy, PartialEq, Eq, Structural)]
pub struct EmbeddingLayer {
    pub layer_id: u128,
    pub vocab_size: usize,
    pub hidden_size: usize,
}

/// A layer of attention.
#[derive(Debug, Clone, Copy, PartialEq, Eq, Structural)]
pub struct AttentionLayer {
    pub layer_id: u128,
    pub hidden_size: usize,
    pub num_heads: usize,
}

/// A feed-forward layer.
#[derive(Debug, Clone, Copy, PartialEq, Eq, Structural)]
pub struct FeedForwardLayer {
    pub layer_id: u128,
    pub hidden_size: usize,
}

/// A layer that projects onto the vocabulary.
#[derive(Debug, Clone, Copy, PartialEq, Eq, Structural)]
pub struct OutputLayer {
    pub layer_id: u128,
    pub hidden_size: usize,
    pub vocab_size: usize,
}

/// A layer of any of the four kinds that can be run.
#[derive(Debug, Clone, Copy, PartialEq, Eq, Structural)]
pub enum AnyLayer {
    Embedding(EmbeddingLayer),
    Attention(AttentionLayer),
    FeedForward(FeedForwardLayer),
    Output(OutputLayer),
}

impl AnyLayer {
    /// The kind of the layer.
    pub fn layer_type(&self) -> (kind: LayerType)
        ensures
            kind@ == match *self {
                AnyLayer::Embedding(_) => LayerTypeView::Embedding,
                AnyLayer::Attention(_) => LayerTypeView::Attention,
                AnyLayer::FeedForward(_) => LayerTypeView::FeedForward,
                AnyLayer::Output(_) => LayerTypeView::Output,
            },
    {
        match self {
            AnyLayer::Embedding(_) => LayerType::Embedding,
            AnyLayer::Attention(_) => LayerType::Attention,
            AnyLayer::FeedForward(_) => LayerType::FeedForward,
            AnyLayer::Output(_) => LayerType::Output,
        }
    }

    /// The identifier of the layer.
    pub fn layer_id(&self) -> (id: u128)
        ensures
            id == match *self {
                AnyLayer::Embedding(layer) => layer.layer_id,
                AnyLayer::Attention(layer) => layer.layer_id,
                AnyLayer::FeedForward(layer) => layer.layer_id,
                AnyLayer::Output(layer) => layer.layer_id,
            },
    {
        match self {
            AnyLayer::Embedding(layer) => layer.layer_id,
            AnyLayer::Attention(layer) => layer.layer_id,
            AnyLayer::FeedForward(layer) => layer.layer_id,
            AnyLayer::Output(layer) => layer.layer_id,
        }
    }
}

/// The value that a configuration gives a name, or the fallback where it
/// gives none.
pub open spec fn setting(config: Map<Seq<char>, usize>, name: Seq<char>, fallback: usize) -> usize {
    if config.contains_key(name) {
        config[name]
    } else {
        fallback
    }
}

/// The layer that the factory makes for a kind, an identifier and a
/// configuration. A custom kind is run as a feed-forward layer.
pub open spec fn layer_for(
    kind: LayerTypeView,
    layer_id: u128,
    config: Map<Seq<char>, usize>,
) -> AnyLayer {
    let vocab_size = setting(config, "vocab_size"@, DEFAULT_VOCAB_SIZE);
    let hidden_size = setting(config, "hidden_size"@, DEFAULT_HIDDEN_SIZE);
    let num_heads = setting(config, "num_heads"@, DEFAULT_NUM_HEADS);
    match kind {
        LayerTypeView::Embedding => AnyLayer::Embedding(
            EmbeddingLayer { layer_id, vocab_size, hidden_size },
        ),
        LayerTypeView::Attention => AnyLayer::Attention(
            AttentionLayer { layer_id, hidden_size, num_heads },
        ),
        LayerTypeView::FeedForward => AnyLayer::FeedForward(
            FeedForwardLayer { layer_id, hidden_size },
        ),
        LayerTypeView::Output => AnyLayer::Output(
            OutputLayer { layer_id, hidden_size, vocab_size },
        ),
        LayerTypeView::Custom(_) => AnyLayer::FeedForward(
            FeedForwardLayer { layer_id, hidden_size },
        ),
    }
}

/// The configuration of the blocks of a transformer.
pub open spec fn transformer_config(hidden_size: usize, vocab_size: usize) -> Map<
    Seq<char>,
    usize,
> {
    Map::<Seq<char>, usize>::empty().insert("hidden_size"@, hidden_size).insert(
        "vocab_size"@,
        vocab_size,
    ).insert("num_heads"@, DEFAULT_NUM_HEADS)
}

/// The configuration of the output layer of a transformer.
pub open spec fn output_config(hidden_size: usize, vocab_size: usize) -> Map<Seq<char>, usize> {
    Map::<Seq<char>, usize>::empty().insert("hidden_size"@, hidden_size).insert(
        "vocab_size"@,
        vocab_size,
    )
}

/// The layers of the blocks of a transformer, one block for each identifier:
/// attention and a feed-forward layer, and before those of the first block an
/// embedding. The layers of a block share the block's identifier.
pub open spec fn transformer_blocks(ids: Seq<u128>, config: Map<Seq<char>, usize>) -> Seq<
    AnyLayer,
>
    decreases ids.len(),
{
    if ids.len() == 0 {
        Seq::empty()
    } else {
        let lead = if ids.len() == 1 {
            seq![layer_for(LayerTypeView::Embedding, ids.last(), config)]
        } else {
            Seq::empty()
        };
        transformer_blocks(ids.drop_last(), config) + lead + seq![
            layer_for(LayerTypeView::Attention, ids.last(), config),
            layer_for(LayerTypeView::FeedForward, ids.last(), config),
        ]
    }
}

/// Whether `layers` is the stack of a transformer with `blocks` blocks: the
/// layers of the blocks, and an output layer with an identifier of its own.
pub open spec fn is_transformer_stack(
    layers: Seq<AnyLayer>,
    blocks: int,
    hidden_size: usize,
    vocab_size: usize,
) -> bool {
    exists|ids: Seq<u128>, output_id: u128| #[trigger]
        stack_of(ids, output_id, hidden_size, vocab_size) == layers && ids.len() == blocks
}

/// The stack of a transformer whose blocks and output layer have the given
/// identifiers.
pub open spec fn stack_of(
    ids: Seq<u128>,
    output_id: u128,
    hidden_size: usize,
    vocab_size: usize,
) -> Seq<AnyLayer> {
    transformer_blocks(ids, transformer_config(hidden_size, vocab_size)).push(
        layer_for(LayerTypeView::Output, output_id, output_config(hidden_size, vocab_size)),
    )
}

/// Reads a setting from a configuration.
fn read_setting(config: &StringHashMap<usize>, name: &str, fallback: usize) -> (value: usize)
    ensures
        value == setting(config@, name@, fallback),
{
    match config.get(name) {
        Some(value) => *value,
        None => fallback,
    }
}

/// Makes layers from their kind and a configuration.
pub struct LayerFactory;

impl LayerFactory {
    /// The layer of the given kind, with the sizes that the configuration
    /// names under `vocab_size`, `hidden_size` and `num_heads`. Where a name
    /// is missing the default counts.
    pub fn create_layer(layer_type: LayerType, layer_id: u128, config: &StringHashMap<usize>) -> (layer:
        AnyLayer)
        ensures
            layer == layer_for(layer_type@, layer_id, config@),
    {
        match layer_type {
            LayerType::Embedding => {
                let vocab_size = read_setting(config, "vocab_size", DEFAULT_VOCAB_SIZE);
                let hidden_size = read_setting(config, "hidden_size", DEFAULT_HIDDEN_SIZE);
                AnyLayer::Embedding(EmbeddingLayer { layer_id, vocab_size, hidden_size })
            },
            LayerType::Attention => {
                let hidden_size = read_setting(config, "hidden_size", DEFAULT_HIDDEN_SIZE);
                let num_heads = read_setting(config, "num_heads", DEFAULT_NUM_HEADS);
                AnyLayer::Attention(AttentionLayer { layer_id, hidden_size, num_heads })
            },
            LayerType::FeedForward => {
                let hidden_size = read_setting(config, "hidden_size", DEFAULT_HIDDEN_SIZE);
                AnyLayer::FeedForward(FeedForwardLayer { layer_id, hidden_size })
            },
            LayerType::Output => {
                let hidden_size = read_setting(config, "hidden_size", DEFAULT_HIDDEN_SIZE);
                let vocab_size = read_setting(config, "vocab_size", DEFAULT_VOCAB_SIZE);
                AnyLayer::Output(OutputLayer { layer_id, hidden_size, vocab_size })
            },
            LayerType::Custom(_) => {
                let hidden_size = read_setting(config, "hidden_size", DEFAULT_HIDDEN_SIZE);
                AnyLayer::FeedForward(FeedForwardLayer { layer_id, hidden_size })
            },
        }
    }

    /// The stack of layers of a transformer with `num_layers` blocks, each
    /// block and the output layer under a fresh identifier.
    pub fn transformer_stack(num_layers: usize, hidden_size: usize, vocab_size: usize) -> (layers:
        Vec<AnyLayer>)
        ensures
            is_transformer_stack(layers@, num_layers as int, hidden_size, vocab_size),
    {
        let mut config: StringHashMap<usize> = StringHashMap::new();
        config.insert(String::from_str("hidden_size"), hidden_size);
        config.insert(String::from_str("vocab_size"), vocab_size);
        config.insert(String::from_str("num_heads"), DEFAULT_NUM_HEADS);
        let mut layers: Vec<AnyLayer> = Vec::new();
        let ghost mut ids: Seq<u128> = Seq::empty();
        let mut block: usize = 0;
        while block < num_layers
            invariant
                block <= num_layers,
                ids.len() == block,
                config@ == transformer_config(hidden_size, vocab_size),
                layers@ == transformer_blocks(ids, transformer_config(hidden_size, vocab_size)),
            decreases num_layers - block,
        {
            let layer_id = fresh_id();
            let ghost before = layers@;
            if block == 0 {
                layers.push(LayerFactory::create_layer(LayerType::Embedding, layer_id, &config));
            }
            layers.push(LayerFactory::create_layer(LayerType::Attention, layer_id, &config));
            layers.push(LayerFactory::create_layer(LayerType::FeedForward, layer_id, &config));
            proof {
                let longer = ids.push(layer_id);
                assert(longer.drop_last() =~= ids);
                assert(layers@ =~= transformer_blocks(
                    longer,
                    transformer_config(hidden_size, vocab_size),
                ));
                ids = longer;
            }
            block += 1;
        }
        let output_id = fresh_id();
        let mut last_config: StringHashMap<usize> = StringHashMap::new();
        last_config.insert(String::from_str("hidden_size"), hidden_size);
        last_config.insert(String::from_str("vocab_size"), vocab_size);
        layers.push(LayerFactory::create_layer(LayerType::Output, output_id, &last_config));
        assert(stack_of(ids, output_id, hidden_size, vocab_size) == layers@);
        layers
    }
}

} // verus!
