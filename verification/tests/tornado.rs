use wingbeat::swarm::tornado::{magnitude_of, step_from, Tornado, TornadoSwarm, Vec3};
use wingbeat::units::subgraph::Subgraph;

fn unit(id: u128, affinity: u32) -> Subgraph {
    Subgraph::with_affinity(id, affinity).unwrap()
}

#[test]
fn a_new_tornado_is_empty_and_within_its_ranges() {
    for _ in 0..100 {
        let tornado = Tornado::new(Vec3::new(1_500, -2_000, 7));
        assert_eq!(tornado.eye(), Vec3 { x: 1_500, y: -2_000, z: 7 });
        assert_eq!(tornado.len(), 0);
        assert!(5_000 <= tornado.radius() && tornado.radius() < 20_000);
        assert!(500 <= tornado.angular_velocity() && tornado.angular_velocity() < 2_000);
        assert!(10_000 <= tornado.height() && tornado.height() < 50_000);
    }
}

#[test]
fn sweep_up_keys_by_identifier_and_overwrites() {
    let mut tornado = Tornado::new(Vec3::new(0, 0, 0));
    tornado.sweep_up(unit(1, 100));
    tornado.sweep_up(unit(2, 200));
    assert_eq!(tornado.len(), 2);
    assert_eq!(tornado.get(1).unwrap().tornado_strength(), 100);
    assert_eq!(tornado.get(2).unwrap().tornado_strength(), 200);
    assert!(tornado.get(3).is_none());

    tornado.sweep_up(unit(1, 300));
    assert_eq!(tornado.len(), 2);
    assert_eq!(tornado.get(1).unwrap().tornado_strength(), 300);
}

#[test]
fn connections_among_lists_pairs_by_position() {
    let mut tornado = Tornado::new(Vec3::new(0, 0, 0));
    tornado.sweep_up(unit(1, 100_000));
    tornado.sweep_up(unit(2, 350_000));
    tornado.sweep_up(unit(3, 600_000));
    tornado.sweep_up(unit(4, 900_000));
    // 1-2 are 0.25 apart, 2-3 are 0.25 apart, 3-4 are 0.3 apart, the rest further
    assert_eq!(tornado.connections_among(&vec![1, 2, 3, 4]), vec![(1, 2), (2, 3)]);
    assert_eq!(tornado.connections_among(&vec![4, 3, 2, 1]), vec![(3, 2), (2, 1)]);
    assert_eq!(tornado.connections_among(&vec![2, 1, 3]), vec![(2, 1), (2, 3)]);
    // a name that is not held connects with nothing
    assert_eq!(tornado.connections_among(&vec![1, 9, 2]), vec![(1, 2)]);
    assert!(tornado.connections_among(&vec![]).is_empty());
    assert!(tornado.connections_among(&vec![1]).is_empty());
}

#[test]
fn spin_reports_each_connecting_pair_once() {
    let mut tornado = Tornado::new(Vec3::new(0, 0, 0));
    tornado.sweep_up(unit(1, 100_000));
    tornado.sweep_up(unit(2, 350_000));
    tornado.sweep_up(unit(3, 600_000));
    tornado.sweep_up(unit(4, 900_000));
    let mut pairs: Vec<(u128, u128)> = tornado
        .spin()
        .into_iter()
        .map(|(a, b)| if a < b { (a, b) } else { (b, a) })
        .collect();
    pairs.sort();
    assert_eq!(pairs, vec![(1, 2), (2, 3)]);
    // nothing was merged or moved
    assert_eq!(tornado.len(), 4);
    assert_eq!(tornado.get(2).unwrap().tornado_strength(), 350_000);
}

#[test]
fn spin_with_fewer_than_two_units_reports_nothing() {
    let mut tornado = Tornado::new(Vec3::new(0, 0, 0));
    assert!(tornado.spin().is_empty());
    tornado.sweep_up(unit(1, 5));
    assert!(tornado.spin().is_empty());
}

#[test]
fn release_hands_out_the_smaller_of_count_and_held() {
    for (held, count) in [(5usize, 3usize), (5, 5), (5, 9), (0, 4), (3, 0)] {
        let mut tornado = Tornado::new(Vec3::new(0, 0, 0));
        for id in 0..held {
            tornado.sweep_up(unit(id as u128, (id as u32) * 10));
        }
        let released = tornado.release(count);
        let expected = count.min(held);
        assert_eq!(released.len(), expected);
        assert_eq!(tornado.len(), held - expected);
        assert_eq!(released.len() + tornado.len(), held);
        let mut ids: Vec<u128> = released.iter().map(|unit| unit.id()).collect();
        ids.sort();
        ids.dedup();
        assert_eq!(ids.len(), expected);
        for unit in &released {
            // what left is what was held, and it is held no more
            assert!(unit.id() < held as u128);
            assert_eq!(unit.tornado_strength(), (unit.id() as u32) * 10);
            assert!(tornado.get(unit.id()).is_none());
        }
        for id in 0..held as u128 {
            assert_eq!(tornado.get(id).is_some(), !ids.contains(&id));
        }
    }
}

#[test]
fn release_subgraphs_empties_the_tornado() {
    let mut tornado = Tornado::new(Vec3::new(3, 4, 5));
    let id = tornado.id();
    let radius = tornado.radius();
    for unit_id in 0..6u128 {
        tornado.sweep_up(unit(unit_id, 1));
    }
    let released = tornado.release_subgraphs();
    assert_eq!(released.len(), 6);
    assert_eq!(tornado.len(), 0);
    assert_eq!(tornado.id(), id);
    assert_eq!(tornado.radius(), radius);
    assert_eq!(tornado.eye(), Vec3::new(3, 4, 5));
}

#[test]
fn spawn_appends_at_the_end() {
    let mut swarm = TornadoSwarm::new();
    swarm.spawn_tornado(Vec3::new(1, 1, 1));
    let first = swarm.tornadoes[0].id();
    swarm.spawn_tornado(Vec3::new(2, 2, 2));
    swarm.spawn_tornado(Vec3::new(3, 3, 3));
    assert_eq!(swarm.tornadoes.len(), 3);
    assert_eq!(swarm.tornadoes[0].id(), first);
    assert_eq!(swarm.tornadoes[0].eye(), Vec3::new(1, 1, 1));
    assert_eq!(swarm.tornadoes[1].eye(), Vec3::new(2, 2, 2));
    assert_eq!(swarm.tornadoes[2].eye(), Vec3::new(3, 3, 3));
    assert_eq!(swarm.tornadoes[2].len(), 0);
}

#[test]
fn a_step_moves_each_eye_by_at_most_the_step() {
    let mut swarm = TornadoSwarm::new();
    swarm.spawn_tornado(Vec3::new(0, 0, 5_000));
    swarm.spawn_tornado(Vec3::new(15_000, 10_000, 5_000));
    swarm.tornadoes[1].sweep_up(unit(1, 100_000));
    swarm.tornadoes[1].sweep_up(unit(2, 200_000));
    let ids: Vec<u128> = swarm.tornadoes.iter().map(|t| t.id()).collect();
    for _ in 0..50 {
        let before: Vec<Vec3> = swarm.tornadoes.iter().map(|t| t.eye()).collect();
        let reports = swarm.simulate_step(100);
        assert_eq!(reports.len(), 2);
        assert!(reports[0].is_empty());
        assert_eq!(reports[1].len(), 1);
        for (index, tornado) in swarm.tornadoes.iter().enumerate() {
            assert!((tornado.eye().x - before[index].x).abs() <= 100);
            assert!((tornado.eye().y - before[index].y).abs() <= 100);
            assert!(tornado.eye().distance(&before[index]) <= 142);
            assert_eq!(tornado.eye().z, 5_000);
            assert_eq!(tornado.id(), ids[index]);
        }
        assert_eq!(swarm.tornadoes[1].len(), 2);
    }
}

#[test]
fn a_step_of_no_length_moves_nothing() {
    let mut swarm = TornadoSwarm::new();
    swarm.spawn_tornado(Vec3::new(7, -7, 0));
    let reports = swarm.simulate_step(0);
    assert_eq!(reports, vec![vec![]]);
    assert_eq!(swarm.tornadoes[0].eye(), Vec3::new(7, -7, 0));
}

#[test]
fn an_eye_at_the_edge_stays_inside_the_range() {
    let mut swarm = TornadoSwarm::new();
    swarm.spawn_tornado(Vec3::new(i32::MAX, i32::MIN, 0));
    for _ in 0..50 {
        let before = swarm.tornadoes[0].eye();
        swarm.simulate_step(1_000);
        let eye = swarm.tornadoes[0].eye();
        assert!(before.x as i64 - 1_000 <= eye.x as i64);
        assert!(eye.y as i64 <= before.y as i64 + 1_000);
        assert_eq!(eye.z, 0);
    }
}

#[test]
fn a_step_on_an_empty_pool_reports_nothing() {
    let mut swarm = TornadoSwarm::new();
    assert!(swarm.simulate_step(100).is_empty());
}

#[test]
fn a_draw_stands_for_a_share_of_the_step() {
    assert_eq!(magnitude_of(1_000, 100), 0);
    assert_eq!(magnitude_of(1_500, 100), 50);
    assert_eq!(magnitude_of(500, 100), 50);
    assert_eq!(magnitude_of(0, 100), 100);
    assert_eq!(magnitude_of(1_999, 1_000), 999);
    assert_eq!(magnitude_of(1_001, 999), 0);
    assert_eq!(magnitude_of(0, u32::MAX), u32::MAX as u64);
    assert_eq!(magnitude_of(1_234, 0), 0);
}

#[test]
fn a_step_stops_at_the_edge_of_the_range() {
    assert_eq!(step_from(10, 5, true), 15);
    assert_eq!(step_from(10, 5, false), 5);
    assert_eq!(step_from(-10, 25, true), 15);
    assert_eq!(step_from(10, 25, false), -15);
    assert_eq!(step_from(0, 0, true), 0);
    assert_eq!(step_from(i32::MAX, 1, true), i32::MAX);
    assert_eq!(step_from(i32::MAX - 3, 3, true), i32::MAX);
    assert_eq!(step_from(i32::MAX - 3, 2, true), i32::MAX - 1);
    assert_eq!(step_from(i32::MIN, 1, false), i32::MIN);
    assert_eq!(step_from(i32::MIN + 3, 3, false), i32::MIN);
    assert_eq!(step_from(i32::MIN, u64::MAX, true), i32::MAX);
    assert_eq!(step_from(i32::MAX, u64::MAX, false), i32::MIN);
    assert_eq!(step_from(-1, u64::MAX, true), i32::MAX);
    assert_eq!(step_from(i32::MIN, 0x8000_0000, true), 0);
    assert_eq!(step_from(0, 0x8000_0000, false), i32::MIN);
    assert_eq!(step_from(i32::MIN, 0xFFFF_FFFF, true), i32::MAX);
}

#[test]
fn drift_moves_the_eye_only() {
    let mut tornado = Tornado::new(Vec3::new(100, 200, 300));
    tornado.sweep_up(unit(1, 1));
    let (id, radius) = (tornado.id(), tornado.radius());
    tornado.drift(30, true, 50, false);
    assert_eq!(tornado.eye(), Vec3::new(130, 150, 300));
    assert_eq!(tornado.id(), id);
    assert_eq!(tornado.radius(), radius);
    assert_eq!(tornado.len(), 1);
}

#[test]
fn distances_are_rounded_down_to_a_thousandth() {
    let origin = Vec3::new(0, 0, 0);
    assert_eq!(origin.distance(&origin), 0);
    assert_eq!(origin.distance(&Vec3::new(1, 0, 0)), 1);
    assert_eq!(origin.distance(&Vec3::new(1, 1, 0)), 1);
    assert_eq!(origin.distance(&Vec3::new(1, 1, 1)), 1);
    assert_eq!(origin.distance(&Vec3::new(2, 2, 1)), 3);
    assert_eq!(origin.distance(&Vec3::new(1_000, 1_000, 0)), 1_414);
    assert_eq!(Vec3::new(-3_000, 0, 5).distance(&Vec3::new(0, -4_000, 5)), 5_000);
    assert_eq!(Vec3::new(1, 2, 3).distance(&Vec3::new(4, 6, 15)), 13);
    // the longest distance there is
    let low = Vec3::new(i32::MIN, i32::MIN, i32::MIN);
    let high = Vec3::new(i32::MAX, i32::MAX, i32::MAX);
    assert_eq!(low.distance(&high), 7_439_101_571);
    assert_eq!(high.distance(&low), 7_439_101_571);
    assert_eq!(Vec3::new(i32::MIN, 0, 0).distance(&Vec3::new(i32::MAX, 0, 0)), 4_294_967_295);
}
