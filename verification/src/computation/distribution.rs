use crate::swarm::tornado::{held_units_are_finite, Tornado, TornadoSwarm, TornadoView, Vec3};
use crate::units::subgraph::{Subgraph, SubgraphView};
use vstd::prelude::*;

verus! {

/// How many containers an empty pool is given before units are handed out.
pub const DEFAULT_WORKERS: usize = 3;

/// The units of a sequence as plain values.
pub open spec fn units_view(units: Seq<Subgraph>) -> Seq<SubgraphView> {
    Seq::new(units.len(), |i: int| units[i]@)
}

/// What a container holds after the first `upto` units of a batch were handed
/// out in turn: unit `i` goes to the container `i mod workers`, under its own
/// identifier, and replaces a unit that was held under it.
pub open spec fn swept(
    held: Map<u128, SubgraphView>,
    batch: Seq<SubgraphView>,
    worker: int,
    workers: int,
    upto: int,
) -> Map<u128, SubgraphView>
    decreases upto,
{
    if upto <= 0 {
        held
    } else {
        let earlier = swept(held, batch, worker, workers, upto - 1);
        if (upto - 1) % workers == worker {
            earlier.insert(batch[upto - 1].id, batch[upto - 1])
        } else {
            earlier
        }
    }
}

/// How many of the first `upto` units of a batch go to the container
/// `worker`.
pub open spec fn share(worker: int, workers: int, upto: int) -> nat
    decreases upto,
{
    if upto <= 0 {
        0
    } else {
        share(worker, workers, upto - 1) + if (upto - 1) % workers == worker {
            1nat
        } else {
            0nat
        }
    }
}

/// How many of `units` units go to the first `upto` containers together.
pub open spec fn shares_total(workers: int, units: int, upto: int) -> nat
    decreases upto,
{
    if upto <= 0 {
        0
    } else {
        shares_total(workers, units, upto - 1) + share(upto - 1, workers, units)
    }
}

/// Where the default container with the given index stands: ten units along
/// `x` and five along `y` for each step of the index.
pub open spec fn default_position(index: int) -> Vec3 {
    Vec3 { x: (index * 10_000) as i32, y: (index * 5_000) as i32, z: 0 }
}

/// Gives an empty pool its default containers, and leaves any other pool as
/// it is.
pub fn spawn_defaults_if_empty(swarm: &mut TornadoSwarm)
    ensures
        old(swarm).tornadoes@.len() > 0 ==> final(swarm).tornadoes == old(swarm).tornadoes,
        old(swarm).tornadoes@.len() == 0 ==> {
            &&& final(swarm).tornadoes@.len() == DEFAULT_WORKERS
            &&& forall|i: int|
                0 <= i < DEFAULT_WORKERS ==> {
                    &&& (#[trigger] final(swarm).tornadoes@[i])@.eye == default_position(i)
                    &&& final(swarm).tornadoes@[i]@.units == Map::<u128, SubgraphView>::empty()
                }
        },
{
    if swarm.tornadoes.len() == 0 {
        let mut i: usize = 0;
        while i < DEFAULT_WORKERS
            invariant
                i <= DEFAULT_WORKERS,
                swarm.tornadoes@.len() == i,
                forall|j: int|
                    0 <= j < i ==> {
                        &&& (#[trigger] swarm.tornadoes@[j])@.eye == default_position(j)
                        &&& swarm.tornadoes@[j]@.units == Map::<u128, SubgraphView>::empty()
                    },
            decreases DEFAULT_WORKERS - i,
        {
            let ghost before = swarm.tornadoes@;
            let step = i as i32;
            swarm.spawn_tornado(Vec3::new(step * 10_000, step * 5_000, 0));
            proof {
                assert(swarm.tornadoes@.drop_last() == before);
                assert(swarm.tornadoes@[i as int] == swarm.tornadoes@.last());
                assert forall|j: int| 0 <= j < i + 1 implies {
                    &&& (#[trigger] swarm.tornadoes@[j])@.eye == default_position(j)
                    &&& swarm.tornadoes@[j]@.units == Map::<u128, SubgraphView>::empty()
                } by {
                    if j < i {
                        assert(swarm.tornadoes@.drop_last()[j] == swarm.tornadoes@[j]);
                        assert(before[j]@.eye == default_position(j));
                    }
                }
            }
            i += 1;
        }
    }
}

/// Hands a batch of units to the containers of a pool in turn: unit `i` is
/// swept up by the container `i mod p`, where `p` is the number of
/// containers.
pub fn distribute_round_robin(swarm: &mut TornadoSwarm, units: Vec<Subgraph>)
    requires
        old(swarm).tornadoes@.len() > 0,
    ensures
        final(swarm).tornadoes@.len() == old(swarm).tornadoes@.len(),
        forall|w: int|
            0 <= w < old(swarm).tornadoes@.len() ==> (#[trigger] final(swarm).tornadoes@[w])@
                == (TornadoView {
                units: swept(
                    old(swarm).tornadoes@[w]@.units,
                    units_view(units@),
                    w,
                    old(swarm).tornadoes@.len() as int,
                    units@.len() as int,
                ),
                ..old(swarm).tornadoes@[w]@
            }),
{
    let workers = swarm.tornadoes.len();
    let ghost batch = units_view(units@);
    let count = units.len();
    let mut i: usize = 0;
    for unit in it: units
        invariant
            i == it.index(),
            it.seq() == units@,
            count == units@.len(),
            batch == units_view(units@),
            workers == old(swarm).tornadoes@.len(),
            workers > 0,
            swarm.tornadoes@.len() == workers,
            forall|w: int|
                0 <= w < workers ==> (#[trigger] swarm.tornadoes@[w])@ == (TornadoView {
                    units: swept(
                        old(swarm).tornadoes@[w]@.units,
                        batch,
                        w,
                        workers as int,
                        i as int,
                    ),
                    ..old(swarm).tornadoes@[w]@
                }),
    {
        let target = i % workers;
        swarm.tornadoes[target].sweep_up(unit);
        i += 1;
    }
}

/// Whether the pool `after` is the pool `before` with a batch handed out: to
/// the containers of `before` where there are any, else to the default
/// containers.
pub open spec fn distributed(
    before: Seq<Tornado>,
    after: Seq<Tornado>,
    batch: Seq<SubgraphView>,
) -> bool {
    if before.len() == 0 {
        &&& after.len() == DEFAULT_WORKERS
        &&& forall|w: int|
            0 <= w < DEFAULT_WORKERS ==> {
                &&& (#[trigger] after[w])@.eye == default_position(w)
                &&& after[w]@.units == swept(
                    Map::<u128, SubgraphView>::empty(),
                    batch,
                    w,
                    DEFAULT_WORKERS as int,
                    batch.len() as int,
                )
            }
    } else {
        &&& after.len() == before.len()
        &&& forall|w: int|
            0 <= w < before.len() ==> (#[trigger] after[w])@ == (TornadoView {
                units: swept(before[w]@.units, batch, w, before.len() as int, batch.len() as int),
                ..before[w]@
            })
    }
}

/// Hands a batch of units out in turn. An empty pool is first given its
/// default containers, so that the batch always finds a place.
pub fn distribute(swarm: &mut TornadoSwarm, units: Vec<Subgraph>)
    ensures
        distributed(old(swarm).tornadoes@, final(swarm).tornadoes@, units_view(units@)),
{
    spawn_defaults_if_empty(swarm);
    distribute_round_robin(swarm, units);
}

/// Whether no identifier is held by two containers of the pool at once.
pub open spec fn holds_each_unit_once(pool: Seq<Tornado>) -> bool {
    forall|a: int, b: int, id: u128|
        0 <= a < pool.len() && 0 <= b < pool.len() && a != b
            && #[trigger] pool[a]@.units.contains_key(id) ==> !(#[trigger] pool[b]@.units.contains_key(
            id,
        ))
}

/// Whether the units of a batch are new to a pool: no two of them share an
/// identifier, and no container of the pool holds one of their identifiers.
pub open spec fn is_new_to(batch: Seq<SubgraphView>, pool: Seq<Tornado>) -> bool {
    &&& forall|i: int, j: int|
        0 <= i < j < batch.len() ==> (#[trigger] batch[i]).id != (#[trigger] batch[j]).id
    &&& forall|i: int, w: int|
        0 <= i < batch.len() && 0 <= w < pool.len() ==> !(#[trigger] pool[w])@.units.contains_key(
            (#[trigger] batch[i]).id,
        )
}

proof fn lemma_swept_holds(
    held: Map<u128, SubgraphView>,
    batch: Seq<SubgraphView>,
    worker: int,
    workers: int,
    upto: int,
    id: u128,
)
    requires
        0 <= upto <= batch.len(),
    ensures
        swept(held, batch, worker, workers, upto).contains_key(id) <==> held.contains_key(id) || (
        exists|i: int| 0 <= i < upto && i % workers == worker && (#[trigger] batch[i]).id == id),
    decreases upto,
{
    if upto > 0 {
        lemma_swept_holds(held, batch, worker, workers, upto - 1, id);
        if (upto - 1) % workers == worker && batch[upto - 1].id == id {
            assert(swept(held, batch, worker, workers, upto).contains_key(id));
        }
    }
}

/// A pool in which every unit is held once stays so when a batch that is new
/// to it is handed out.
pub proof fn distribution_holds_each_unit_once(
    before: Seq<Tornado>,
    after: Seq<Tornado>,
    batch: Seq<SubgraphView>,
)
    requires
        holds_each_unit_once(before),
        is_new_to(batch, before),
        distributed(before, after, batch),
    ensures
        holds_each_unit_once(after),
{
    let workers = after.len() as int;
    let count = batch.len() as int;
    assert forall|a: int, b: int, id: u128|
        0 <= a < after.len() && 0 <= b < after.len() && a != b
            && #[trigger] after[a]@.units.contains_key(id) implies !(#[trigger] after[b]@.units.contains_key(
        id,
    )) by {
        let empty = Map::<u128, SubgraphView>::empty();
        let held_a = if before.len() == 0 {
            empty
        } else {
            before[a]@.units
        };
        let held_b = if before.len() == 0 {
            empty
        } else {
            before[b]@.units
        };
        assert(after[a]@.units == swept(held_a, batch, a, workers, count));
        assert(after[b]@.units == swept(held_b, batch, b, workers, count));
        lemma_swept_holds(held_a, batch, a, workers, count, id);
        lemma_swept_holds(held_b, batch, b, workers, count, id);
        if after[b]@.units.contains_key(id) {
            if held_a.contains_key(id) {
                assert(before[a]@.units.contains_key(id));
                if held_b.contains_key(id) {
                    assert(before[b]@.units.contains_key(id));
                } else {
                    let j = choose|j: int| 0 <= j < count && j % workers == b && (#[trigger] batch[j]).id == id;
                    assert(!before[a]@.units.contains_key(batch[j].id));
                }
            } else {
                let i = choose|i: int| 0 <= i < count && i % workers == a && (#[trigger] batch[i]).id == id;
                if held_b.contains_key(id) {
                    assert(before[b]@.units.contains_key(id));
                    assert(!before[b]@.units.contains_key(batch[i].id));
                } else {
                    let j = choose|j: int| 0 <= j < count && j % workers == b && (#[trigger] batch[j]).id == id;
                    assert(i != j);
                    if i < j {
                        assert(batch[i].id != batch[j].id);
                    } else {
                        assert(batch[j].id != batch[i].id);
                    }
                }
            }
        }
    }
}

/// What a container of the pool `before` holds when a batch is handed out:
/// its units, or nothing where the pool is empty and the batch goes to the
/// default containers.
pub open spec fn held_before(before: Seq<Tornado>, worker: int) -> Map<u128, SubgraphView> {
    if before.len() == 0 {
        Map::<u128, SubgraphView>::empty()
    } else {
        before[worker]@.units
    }
}

proof fn lemma_swept_grows_by_share(
    held: Map<u128, SubgraphView>,
    batch: Seq<SubgraphView>,
    worker: int,
    workers: int,
    upto: int,
)
    requires
        held.dom().finite(),
        0 <= upto <= batch.len(),
        forall|i: int, j: int|
            0 <= i < j < batch.len() ==> (#[trigger] batch[i]).id != (#[trigger] batch[j]).id,
        forall|i: int| 0 <= i < batch.len() ==> !held.contains_key((#[trigger] batch[i]).id),
    ensures
        swept(held, batch, worker, workers, upto).dom().finite(),
        swept(held, batch, worker, workers, upto).len() == held.len() + share(
            worker,
            workers,
            upto,
        ),
        forall|id: u128| #[trigger]
            held.contains_key(id) ==> swept(held, batch, worker, workers, upto).contains_key(id)
                && swept(held, batch, worker, workers, upto)[id] == held[id],
    decreases upto,
{
    if upto > 0 {
        lemma_swept_grows_by_share(held, batch, worker, workers, upto - 1);
        let earlier = swept(held, batch, worker, workers, upto - 1);
        let id = batch[upto - 1].id;
        lemma_swept_holds(held, batch, worker, workers, upto - 1, id);
        if earlier.contains_key(id) {
            let i = choose|i: int|
                0 <= i < upto - 1 && i % workers == worker && (#[trigger] batch[i]).id == id;
            assert(batch[i].id != batch[upto - 1].id);
        }
        assert(!earlier.contains_key(id));
    }
}

/// Handing out a batch that is new to the pool takes nothing away: every
/// container keeps each unit that it held, and holds as many more as its
/// share of the batch.
pub proof fn new_units_add_their_share(
    before: Seq<Tornado>,
    after: Seq<Tornado>,
    batch: Seq<SubgraphView>,
)
    requires
        is_new_to(batch, before),
        distributed(before, after, batch),
    ensures
        forall|w: int|
            0 <= w < after.len() ==> (#[trigger] after[w])@.units.len() == held_before(
                before,
                w,
            ).len() + share(w, after.len() as int, batch.len() as int),
        forall|w: int, id: u128|
            0 <= w < after.len() && #[trigger] held_before(before, w).contains_key(id)
                ==> after[w]@.units.contains_key(id) && after[w]@.units[id] == held_before(
                before,
                w,
            )[id],
{
    let workers = after.len() as int;
    let count = batch.len() as int;
    assert forall|w: int| 0 <= w < after.len() implies (#[trigger] after[w])@.units.len()
        == held_before(before, w).len() + share(w, workers, count) && (forall|id: u128| #[trigger]
        held_before(before, w).contains_key(id) ==> after[w]@.units.contains_key(id)
            && after[w]@.units[id] == held_before(before, w)[id]) by {
        let held = held_before(before, w);
        if before.len() > 0 {
            held_units_are_finite(before[w]);
            assert forall|i: int| 0 <= i < batch.len() implies !held.contains_key(
                (#[trigger] batch[i]).id,
            ) by {
                assert(!before[w]@.units.contains_key(batch[i].id));
            }
        }
        assert(after[w]@.units == swept(held, batch, w, workers, count));
        lemma_swept_grows_by_share(held, batch, w, workers, count);
    }
}

/// A pool in which every unit is held once stays so when its containers
/// only give units up: when a step is made, or when units are released.
pub proof fn giving_up_holds_each_unit_once(before: Seq<Tornado>, after: Seq<Tornado>)
    requires
        holds_each_unit_once(before),
        after.len() == before.len(),
        forall|w: int, id: u128|
            0 <= w < after.len() && #[trigger] after[w]@.units.contains_key(id)
                ==> before[w]@.units.contains_key(id),
    ensures
        holds_each_unit_once(after),
{
    assert forall|a: int, b: int, id: u128|
        0 <= a < after.len() && 0 <= b < after.len() && a != b
            && #[trigger] after[a]@.units.contains_key(id) implies !(#[trigger] after[b]@.units.contains_key(
        id,
    )) by {
        if after[b]@.units.contains_key(id) {
            assert(before[a]@.units.contains_key(id));
            assert(before[b]@.units.contains_key(id));
        }
    }
}

proof fn lemma_next_unit_adds_one(workers: int, units: int, upto: int)
    requires
        workers > 0,
        units >= 0,
        0 <= upto <= workers,
    ensures
        shares_total(workers, units + 1, upto) == shares_total(workers, units, upto) + if units
            % workers < upto {
            1nat
        } else {
            0nat
        },
    decreases upto,
{
    if upto > 0 {
        lemma_next_unit_adds_one(workers, units, upto - 1);
    }
}

proof fn lemma_nothing_to_share(workers: int, upto: int)
    ensures
        shares_total(workers, 0, upto) == 0,
    decreases upto,
{
    if upto > 0 {
        lemma_nothing_to_share(workers, upto - 1);
    }
}

/// Handing `units` units out in turn to `workers` containers gives every unit
/// to one container: the shares of the containers add up to `units`.
pub proof fn round_robin_shares_add_up(workers: int, units: int)
    requires
        workers > 0,
        units >= 0,
    ensures
        shares_total(workers, units, workers) == units,
    decreases units,
{
    if units == 0 {
        lemma_nothing_to_share(workers, workers);
    } else {
        round_robin_shares_add_up(workers, units - 1);
        lemma_next_unit_adds_one(workers, units - 1, workers);
    }
}

} // verus!
