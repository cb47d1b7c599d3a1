use std::collections::HashMap;
use wingbeat::computation::model_decomposer::{
    DecompositionStrategy, LayerType, ModelDecomposer, ModelLayer,
};
use wingbeat::units::subgraph::{ComputeNode, NodeState, Operation, Subgraph, AFFINITY_SCALE};

fn pair(key: &str, value: &str) -> (String, String) {
    (key.to_string(), value.to_string())
}

fn only_node(unit: &Subgraph) -> ComputeNode {
    let mut nodes = unit.nodes();
    assert_eq!(nodes.len(), 1);
    nodes.remove(0)
}

fn operation(node: &ComputeNode) -> String {
    match &node.operation {
        Operation::Process(text) => text.clone(),
        _ => panic!("not a process node"),
    }
}

fn layer(id: u128, layer_type: LayerType, input_size: usize, output_size: usize) -> ModelLayer {
    ModelLayer { id, layer_type, input_size, output_size, dependencies: vec![] }
}

fn hyphenated(id: u128) -> String {
    uuid::Uuid::from_u128(id).to_string()
}

#[test]
fn a_new_decomposer_is_empty() {
    let decomposer = ModelDecomposer::new();
    assert!(decomposer.model_layers.is_empty());
    assert!(decomposer.subgraph_mapping.is_empty());
    assert!(decomposer.unit_record.is_empty());
}

#[test]
fn the_sample_model_has_four_chained_layers() {
    let mut decomposer = ModelDecomposer::new();
    let layers = decomposer.create_sample_model();
    assert_eq!(layers.len(), 4);
    assert!(matches!(layers[0].layer_type, LayerType::Embedding));
    assert!(matches!(layers[1].layer_type, LayerType::Attention));
    assert!(matches!(layers[2].layer_type, LayerType::FeedForward));
    assert!(matches!(layers[3].layer_type, LayerType::Output));
    let sizes: Vec<(usize, usize)> =
        layers.iter().map(|l| (l.input_size, l.output_size)).collect();
    assert_eq!(sizes, vec![(512, 768), (768, 768), (768, 768), (768, 51200)]);
    assert!(layers[0].dependencies.is_empty());
    for i in 1..4 {
        assert_eq!(layers[i].dependencies, vec![layers[i - 1].id]);
    }
    assert_eq!(decomposer.model_layers.len(), 4);
    for i in 0..4 {
        assert_eq!(decomposer.model_layers[i].id, layers[i].id);
        assert_eq!(decomposer.model_layers[i].dependencies, layers[i].dependencies);
        assert_eq!(decomposer.model_layers[i].output_size, layers[i].output_size);
    }
    assert!(decomposer.subgraph_mapping.is_empty());
}

#[test]
fn layer_wise_yields_one_unit_per_layer() {
    let mut decomposer = ModelDecomposer::new();
    let layers = decomposer.create_sample_model();
    let units = decomposer.decompose_model(DecompositionStrategy::LayerWise);
    assert_eq!(units.len(), 4);
    let kinds = ["Embedding", "Attention", "FeedForward", "Output"];
    for (i, unit) in units.iter().enumerate() {
        assert!(unit.parent().is_none());
        assert!(unit.children().is_empty());
        assert!(unit.tornado_strength() < AFFINITY_SCALE);
        let node = only_node(unit);
        assert_eq!(operation(&node), kinds[i]);
        assert_eq!(node.state, NodeState::Idle);
        assert_eq!(
            node.metadata,
            vec![
                pair("layer_id", &hyphenated(layers[i].id)),
                pair("layer_type", kinds[i]),
                pair("input_size", &layers[i].input_size.to_string()),
                pair("output_size", &layers[i].output_size.to_string()),
            ]
        );
        assert_eq!(decomposer.subgraph_mapping.get(&layers[i].id), Some(&unit.id()));
    }
    assert_eq!(decomposer.subgraph_mapping.len(), 4);
    assert_eq!(decomposer.model_layers.len(), 4);
    let rows: Vec<Vec<u128>> = units.iter().map(|unit| vec![unit.id()]).collect();
    assert_eq!(decomposer.unit_record, rows);
}

#[test]
fn attention_heads_split_attention_layers_only() {
    let mut decomposer = ModelDecomposer::new();
    let layers = decomposer.create_sample_model();
    let units = decomposer.decompose_model(DecompositionStrategy::AttentionHeads(8));
    assert_eq!(units.len(), 1 + 8 + 1 + 1);
    let embedding = only_node(&units[0]);
    assert_eq!(operation(&embedding), "Embedding");
    assert_eq!(embedding.metadata, vec![pair("layer_id", &hyphenated(layers[0].id))]);
    for head in 0..8 {
        let node = only_node(&units[1 + head]);
        assert_eq!(operation(&node), format!("Attention_Head_{}", head));
        assert_eq!(
            node.metadata,
            vec![
                pair("layer_id", &hyphenated(layers[1].id)),
                pair("head_index", &head.to_string()),
                pair("head_count", "8"),
            ]
        );
    }
    assert_eq!(operation(&only_node(&units[9])), "FeedForward");
    assert_eq!(operation(&only_node(&units[10])), "Output");
    // every unit is recorded with its layer and its head
    let ids: Vec<u128> = units.iter().map(|unit| unit.id()).collect();
    assert_eq!(
        decomposer.unit_record,
        vec![vec![ids[0]], ids[1..9].to_vec(), vec![ids[9]], vec![ids[10]]]
    );
    // and every layer is noted with the first of its units
    assert_eq!(decomposer.subgraph_mapping.len(), 4);
    assert_eq!(decomposer.subgraph_mapping.get(&layers[0].id), Some(&ids[0]));
    assert_eq!(decomposer.subgraph_mapping.get(&layers[1].id), Some(&ids[1]));
    assert_eq!(decomposer.subgraph_mapping.get(&layers[2].id), Some(&ids[9]));
    assert_eq!(decomposer.subgraph_mapping.get(&layers[3].id), Some(&ids[10]));
    for (at, id) in ids.iter().enumerate() {
        let layer = if at == 0 { 0 } else if at < 9 { 1 } else { at - 7 };
        assert_eq!(decomposer.find_layer_for_subgraph(*id), Some(layers[layer].id));
    }
}

#[test]
fn attention_heads_may_number_more_than_nine() {
    let mut decomposer = ModelDecomposer::new();
    decomposer.model_layers = vec![layer(1, LayerType::Attention, 4, 4)];
    let units = decomposer.decompose_model(DecompositionStrategy::AttentionHeads(12));
    assert_eq!(units.len(), 12);
    let node = only_node(&units[11]);
    assert_eq!(operation(&node), "Attention_Head_11");
    assert_eq!(node.metadata[1], pair("head_index", "11"));
    assert_eq!(node.metadata[2], pair("head_count", "12"));
}

#[test]
fn token_wise_yields_the_same_number_for_every_layer() {
    let mut decomposer = ModelDecomposer::new();
    let layers = decomposer.create_sample_model();
    let units = decomposer.decompose_model(DecompositionStrategy::TokenWise(4));
    assert_eq!(units.len(), 16);
    let kinds = ["Embedding", "Attention", "FeedForward", "Output"];
    for (at, unit) in units.iter().enumerate() {
        let (layer, chunk) = (at / 4, at % 4);
        let node = only_node(unit);
        assert_eq!(operation(&node), format!("{}_TokenChunk_{}", kinds[layer], chunk));
        assert_eq!(
            node.metadata,
            vec![
                pair("layer_id", &hyphenated(layers[layer].id)),
                pair("chunk_index", &chunk.to_string()),
                pair("total_chunks", "4"),
            ]
        );
        assert_eq!(decomposer.unit_record[layer][chunk], unit.id());
        assert_eq!(decomposer.find_layer_for_subgraph(unit.id()), Some(layers[layer].id));
    }
    assert_eq!(decomposer.unit_record.len(), 4);
    for layer in 0..4 {
        assert_eq!(decomposer.unit_record[layer].len(), 4);
        assert_eq!(
            decomposer.subgraph_mapping.get(&layers[layer].id),
            Some(&units[4 * layer].id())
        );
    }
}

#[test]
fn no_heads_and_no_chunks_yield_no_units() {
    let mut decomposer = ModelDecomposer::new();
    let layers = decomposer.create_sample_model();
    decomposer.decompose_model(DecompositionStrategy::LayerWise);
    assert_eq!(decomposer.subgraph_mapping.len(), 4);
    assert_eq!(decomposer.decompose_model(DecompositionStrategy::TokenWise(0)).len(), 0);
    // a layer that yields no unit is struck from the record by layer
    assert!(decomposer.subgraph_mapping.is_empty());
    assert_eq!(decomposer.unit_record, vec![Vec::<u128>::new(); 4]);
    // three layers that are not attention layers still yield one unit each
    let units = decomposer.decompose_model(DecompositionStrategy::AttentionHeads(0));
    assert_eq!(units.len(), 3);
    assert_eq!(decomposer.subgraph_mapping.len(), 3);
    assert_eq!(decomposer.subgraph_mapping.get(&layers[1].id), None);
    assert_eq!(decomposer.subgraph_mapping.get(&layers[2].id), Some(&units[1].id()));
    assert_eq!(
        decomposer.unit_record,
        vec![vec![units[0].id()], vec![], vec![units[1].id()], vec![units[2].id()]]
    );
}

#[test]
fn a_model_without_layers_yields_no_units() {
    let mut decomposer = ModelDecomposer::new();
    for strategy in [
        DecompositionStrategy::LayerWise,
        DecompositionStrategy::AttentionHeads(8),
        DecompositionStrategy::TokenWise(4),
    ] {
        assert!(decomposer.decompose_model(strategy).is_empty());
    }
}

#[test]
fn a_custom_layer_is_labelled_with_its_quoted_name() {
    assert_eq!(LayerType::Custom("norm".to_string()).label(), "Custom(\"norm\")");
    assert_eq!(LayerType::Custom("a\"b\\c\n".to_string()).label(), "Custom(\"a\\\"b\\\\c\\n\")");
    assert_eq!(LayerType::Attention.label(), "Attention");
    assert_eq!(LayerType::FeedForward.label(), "FeedForward");
    assert_eq!(LayerType::Embedding.label(), "Embedding");
    assert_eq!(LayerType::Output.label(), "Output");

    let mut decomposer = ModelDecomposer::new();
    decomposer.model_layers = vec![layer(
        0x0123456789abcdef_0123456789abcdef,
        LayerType::Custom("norm".to_string()),
        1,
        2,
    )];
    let units = decomposer.decompose_model(DecompositionStrategy::TokenWise(1));
    let node = only_node(&units[0]);
    assert_eq!(operation(&node), "Custom(\"norm\")_TokenChunk_0");
    assert_eq!(node.metadata[0], pair("layer_id", "01234567-89ab-cdef-0123-456789abcdef"));
}

#[test]
fn results_come_back_in_the_order_of_the_layers() {
    let mut decomposer = ModelDecomposer::new();
    decomposer.create_sample_model();
    let units = decomposer.decompose_model(DecompositionStrategy::LayerWise);
    let mut results: HashMap<u128, String> = HashMap::new();
    results.insert(units[3].id(), "out".to_string());
    results.insert(units[0].id(), "embed".to_string());
    results.insert(units[2].id(), "ffn".to_string());
    results.insert(units[1].id(), "attend".to_string());
    assert_eq!(decomposer.reintegrate_results(results), "embed attend ffn out");
}

#[test]
fn results_of_unknown_units_are_left_out() {
    let mut decomposer = ModelDecomposer::new();
    decomposer.create_sample_model();
    let units = decomposer.decompose_model(DecompositionStrategy::LayerWise);
    let mut results: HashMap<u128, String> = HashMap::new();
    results.insert(units[2].id(), "ffn".to_string());
    results.insert(units[0].id(), "embed".to_string());
    results.insert(units[0].id().wrapping_add(1), "stray".to_string());
    assert_eq!(decomposer.reintegrate_results(results), "embed ffn");
    assert_eq!(decomposer.reintegrate_results(HashMap::new()), "");
}

#[test]
fn results_of_chunks_come_back_by_layer_and_chunk() {
    let mut decomposer = ModelDecomposer::new();
    decomposer.create_sample_model();
    let units = decomposer.decompose_model(DecompositionStrategy::TokenWise(3));
    let mut results: HashMap<u128, String> = HashMap::new();
    for (at, unit) in units.iter().enumerate().rev() {
        results.insert(unit.id(), format!("l{}c{}", at / 3, at % 3));
    }
    assert_eq!(
        decomposer.reintegrate_results(results),
        "l0c0 l0c1 l0c2 l1c0 l1c1 l1c2 l2c0 l2c1 l2c2 l3c0 l3c1 l3c2"
    );
    // one result alone comes back as it is
    let mut results: HashMap<u128, String> = HashMap::new();
    results.insert(units[0].id(), "first".to_string());
    assert_eq!(decomposer.reintegrate_results(results), "first");
}

#[test]
fn results_of_heads_come_back_by_layer_and_head() {
    let mut decomposer = ModelDecomposer::new();
    decomposer.create_sample_model();
    let units = decomposer.decompose_model(DecompositionStrategy::AttentionHeads(2));
    let mut results: HashMap<u128, String> = HashMap::new();
    results.insert(units[4].id(), "out".to_string());
    results.insert(units[2].id(), "head1".to_string());
    results.insert(units[0].id(), "embed".to_string());
    results.insert(units[1].id(), "head0".to_string());
    assert_eq!(decomposer.reintegrate_results(results), "embed head0 head1 out");
}

#[test]
fn a_unit_past_the_stride_takes_no_part() {
    let mut decomposer = ModelDecomposer::new();
    decomposer.model_layers = vec![
        layer(1, LayerType::Attention, 4, 4),
        layer(2, LayerType::Output, 4, 4),
    ];
    let units = decomposer.decompose_model(DecompositionStrategy::AttentionHeads(1001));
    assert_eq!(units.len(), 1002);
    assert_eq!(decomposer.unit_record[0].len(), 1001);
    let mut results: HashMap<u128, String> = HashMap::new();
    results.insert(units[1001].id(), "out".to_string());
    results.insert(units[1000].id(), "head1000".to_string());
    results.insert(units[999].id(), "head999".to_string());
    results.insert(units[0].id(), "head0".to_string());
    assert_eq!(decomposer.reintegrate_results(results), "head0 head999 out");
    // the unit is recorded all the same
    assert_eq!(decomposer.find_layer_for_subgraph(units[1000].id()), Some(1));
}

#[test]
fn a_unit_recorded_twice_counts_at_its_first_place() {
    let mut decomposer = ModelDecomposer::new();
    decomposer.model_layers = vec![
        layer(10, LayerType::Embedding, 1, 1),
        layer(11, LayerType::Attention, 1, 1),
        layer(12, LayerType::Output, 1, 1),
    ];
    decomposer.unit_record = vec![vec![100], vec![200, 100], vec![100, 300]];
    let mut results: HashMap<u128, String> = HashMap::new();
    results.insert(100, "shared".to_string());
    results.insert(200, "own".to_string());
    results.insert(300, "last".to_string());
    assert_eq!(decomposer.reintegrate_results(results), "shared own last");
    assert_eq!(decomposer.find_layer_for_subgraph(100), Some(10));
    assert_eq!(decomposer.find_layer_for_subgraph(200), Some(11));
    assert_eq!(decomposer.find_layer_for_subgraph(300), Some(12));
    assert_eq!(decomposer.find_layer_for_subgraph(400), None);
    // a place of the record for which the model has no layer names none
    decomposer.model_layers.truncate(2);
    assert_eq!(decomposer.find_layer_for_subgraph(300), None);
}

#[test]
fn a_second_decomposition_overwrites_the_record() {
    let mut decomposer = ModelDecomposer::new();
    let layers = decomposer.create_sample_model();
    let first = decomposer.decompose_model(DecompositionStrategy::LayerWise);
    let second = decomposer.decompose_model(DecompositionStrategy::LayerWise);
    for i in 0..4 {
        assert_eq!(decomposer.subgraph_mapping.get(&layers[i].id), Some(&second[i].id()));
        assert_eq!(decomposer.find_layer_for_subgraph(second[i].id()), Some(layers[i].id));
        assert_eq!(decomposer.find_layer_for_subgraph(first[i].id()), None);
    }
}
