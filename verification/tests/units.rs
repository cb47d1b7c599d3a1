use wingbeat::units::subgraph::{
    ComputeNode, NodeState, Operation, Subgraph, AFFINITY_SCALE, CONNECT_THRESHOLD,
};

fn node(id: u128, text: &str) -> ComputeNode {
    ComputeNode {
        id,
        operation: Operation::Process(text.to_string()),
        state: NodeState::Idle,
        metadata: vec![("key".to_string(), text.to_string())],
    }
}

fn process_text(node: &ComputeNode) -> String {
    match &node.operation {
        Operation::Process(text) => text.clone(),
        _ => panic!("not a process node"),
    }
}

#[test]
fn new_units_have_an_affinity_in_the_unit_interval() {
    for _ in 0..200 {
        let unit = Subgraph::new();
        assert!(unit.tornado_strength() < AFFINITY_SCALE);
        assert_eq!(unit.node_count(), 0);
        assert!(unit.nodes().is_empty());
    }
}

#[test]
fn new_units_get_different_identifiers() {
    let a = Subgraph::new();
    let b = Subgraph::new();
    assert_ne!(a.id(), b.id());
}

#[test]
fn with_affinity_takes_the_unit_interval_only() {
    let unit = Subgraph::with_affinity(7, 0).unwrap();
    assert_eq!(unit.id(), 7);
    assert_eq!(unit.tornado_strength(), 0);
    assert!(unit.parent().is_none());
    assert!(unit.children().is_empty());
    assert_eq!(unit.node_count(), 0);

    let unit = Subgraph::with_affinity(8, AFFINITY_SCALE - 1).unwrap();
    assert_eq!(unit.tornado_strength(), 999_999);

    assert!(Subgraph::with_affinity(9, AFFINITY_SCALE).is_none());
    assert!(Subgraph::with_affinity(9, u32::MAX).is_none());
}

#[test]
fn with_id_keeps_the_identifier() {
    let unit = Subgraph::with_id(0xabcdef);
    assert_eq!(unit.id(), 0xabcdef);
    assert!(unit.tornado_strength() < AFFINITY_SCALE);
    assert!(unit.parent().is_none());
}

#[test]
fn split_of_nothing_yields_nothing() {
    let mut parent = Subgraph::new();
    let children = parent.split(0);
    assert!(children.is_empty());
    assert!(parent.children().is_empty());
}

#[test]
fn repeated_splits_accumulate_children() {
    let mut parent = Subgraph::with_affinity(1, 250_000).unwrap();
    let first = parent.split(2);
    let second = parent.split(3);
    assert_eq!(first.len(), 2);
    assert_eq!(second.len(), 3);
    let mut expected: Vec<u128> = first.iter().map(|child| child.id()).collect();
    expected.extend(second.iter().map(|child| child.id()));
    assert_eq!(parent.children(), &expected);
    for child in first.iter().chain(second.iter()) {
        assert_eq!(child.parent(), Some(1));
        assert!(child.children().is_empty());
        assert_eq!(child.node_count(), 0);
        assert!(child.tornado_strength() < AFFINITY_SCALE);
    }
    // the parent itself is otherwise unchanged
    assert_eq!(parent.id(), 1);
    assert_eq!(parent.tornado_strength(), 250_000);
    assert!(parent.parent().is_none());
}

#[test]
fn add_node_appends_in_order() {
    let mut unit = Subgraph::new();
    assert!(unit.add_node(node(1, "first")));
    assert!(unit.add_node(node(2, "second")));
    assert_eq!(unit.node_count(), 2);
    let nodes = unit.nodes();
    assert_eq!(nodes.len(), 2);
    assert_eq!(nodes[0].id, 1);
    assert_eq!(process_text(&nodes[0]), "first");
    assert_eq!(nodes[0].metadata, vec![("key".to_string(), "first".to_string())]);
    assert_eq!(nodes[1].id, 2);
    assert_eq!(process_text(&nodes[1]), "second");
    assert_eq!(nodes[1].state, NodeState::Idle);
}

#[test]
fn merge_appends_nodes_and_takes_the_mean() {
    let mut a = Subgraph::with_affinity(1, 200_000).unwrap();
    let mut b = Subgraph::with_affinity(2, 500_001).unwrap();
    a.add_node(node(10, "a0"));
    b.add_node(node(20, "b0"));
    b.add_node(node(21, "b1"));
    let children_before = a.children().clone();

    assert_eq!(a.merge(b), Ok(()));

    // (200000 + 500001) / 2, rounded down
    assert_eq!(a.tornado_strength(), 350_000);
    assert_eq!(a.id(), 1);
    assert_eq!(a.children(), &children_before);
    let texts: Vec<String> = a.nodes().iter().map(process_text).collect();
    assert_eq!(texts, vec!["a0", "b0", "b1"]);
}

#[test]
fn merge_of_equal_affinities_keeps_the_affinity() {
    let mut a = Subgraph::with_affinity(1, 999_999).unwrap();
    let b = Subgraph::with_affinity(2, 999_999).unwrap();
    assert!(a.merge(b).is_ok());
    assert_eq!(a.tornado_strength(), 999_999);
}

#[test]
fn connecting_is_symmetric_on_samples() {
    let samples = [0u32, 1, 100_000, 299_999, 300_000, 300_001, 500_000, 799_999, 999_999];
    for &x in &samples {
        for &y in &samples {
            let a = Subgraph::with_affinity(1, x).unwrap();
            let b = Subgraph::with_affinity(2, y).unwrap();
            assert_eq!(a.can_connect_with(&b), b.can_connect_with(&a));
            let apart = if x >= y { x - y } else { y - x };
            assert_eq!(a.can_connect_with(&b), apart < CONNECT_THRESHOLD);
        }
    }
}

#[test]
fn the_threshold_itself_does_not_connect() {
    let a = Subgraph::with_affinity(1, 100_000).unwrap();
    let near = Subgraph::with_affinity(2, 399_999).unwrap();
    let at = Subgraph::with_affinity(3, 400_000).unwrap();
    assert!(a.can_connect_with(&near));
    assert!(!a.can_connect_with(&at));
    assert!(a.can_connect_with(&a));
}

#[test]
fn clone_copies_every_part() {
    let mut unit = Subgraph::with_affinity(5, 42).unwrap();
    unit.add_node(node(1, "n"));
    let _ = unit.split(2);
    let copy = unit.clone();
    assert_eq!(copy.id(), unit.id());
    assert_eq!(copy.parent(), unit.parent());
    assert_eq!(copy.children(), unit.children());
    assert_eq!(copy.tornado_strength(), 42);
    assert_eq!(copy.node_count(), 1);
    assert_eq!(process_text(&copy.nodes()[0]), "n");
    // the copy shares nothing with the unit it was made from
    let mut copy = copy;
    copy.add_node(node(2, "m"));
    assert_eq!(unit.node_count(), 1);
    assert_eq!(copy.node_count(), 2);
}

#[test]
fn affinities_are_drawn_anew_for_each_unit() {
    let first = Subgraph::new().tornado_strength();
    assert!((0..200).any(|_| Subgraph::new().tornado_strength() != first));
}
