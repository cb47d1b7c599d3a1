use wingbeat::units::subgraph::AFFINITY_SCALE;
use wingbeat::{PromptProcessor, Subgraph, TornadoSwarm, Vec3};

#[test]
fn test_subgraph_creation() {
    let subgraph = Subgraph::new();
    assert!(subgraph.parent().is_none());
    assert!(subgraph.children().is_empty());
    assert!(subgraph.tornado_strength() < AFFINITY_SCALE);
}

#[test]
fn test_subgraph_splitting() {
    let mut parent = Subgraph::new();
    let parent_id = parent.id();

    let children = parent.split(3);

    assert_eq!(children.len(), 3);
    assert_eq!(parent.children().len(), 3);

    for child in &children {
        assert_eq!(child.parent(), Some(parent_id));
    }
}

#[test]
fn test_subgraph_connectivity() {
    // Similar strengths, 0.5 and 0.6: they connect.
    let sg1 = Subgraph::with_affinity(1, 500_000).unwrap();
    let sg2 = Subgraph::with_affinity(2, 600_000).unwrap();
    assert!(sg1.can_connect_with(&sg2));

    // Different strengths, 0.1 and 0.9: they do not.
    let sg1 = Subgraph::with_affinity(1, 100_000).unwrap();
    let sg2 = Subgraph::with_affinity(2, 900_000).unwrap();
    assert!(!sg1.can_connect_with(&sg2));
}

#[test]
fn test_tornado_creation() {
    let mut swarm = TornadoSwarm::new();
    assert!(swarm.tornadoes.is_empty());

    swarm.spawn_tornado(Vec3::new(0, 0, 0));
    assert_eq!(swarm.tornadoes.len(), 1);
}

#[test]
fn test_prompt_processing() {
    let swarm = TornadoSwarm::new();
    let mut processor = PromptProcessor::new(swarm);

    let prompt_id = processor.send_prompt("Test prompt");

    // Process a few steps
    for _ in 0..3 {
        processor.process_step(100);
    }

    let result = processor.collect_results(prompt_id);
    assert!(result.is_some());
    assert_eq!(result.unwrap(), "TEST PROMPT");
}

#[test]
fn test_vec3_distance() {
    // lengths count thousandths: from (0, 0, 0) to (3, 4, 0) it is 5
    let v1 = Vec3::new(0, 0, 0);
    let v2 = Vec3::new(3_000, 4_000, 0);

    assert_eq!(v1.distance(&v2), 5_000);
}
