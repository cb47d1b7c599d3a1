use crate::trusted::{fresh_id, random_in};
use crate::units::subgraph::{affinities_connect, Subgraph, SubgraphView};
use std::collections::HashMap;
use vstd::prelude::*;
use vstd::std_specs::hash::spec_keys_iter;
use vstd::std_specs::iter::IteratorSpec;

verus! {

broadcast use vstd::std_specs::hash::group_hash_axioms;

/// A point in space. Each coordinate counts thousandths of a unit of length.
#[derive(Debug, Clone, Copy, PartialEq, Eq, Structural)]
pub struct Vec3 {
    pub x: i32,
    pub y: i32,
    pub z: i32,
}

/// The square of the distance between two points.
pub open spec fn squared_distance(a: Vec3, b: Vec3) -> int {
    (a.x - b.x) * (a.x - b.x) + (a.y - b.y) * (a.y - b.y) + (a.z - b.z) * (a.z - b.z)
}

/// Whether `root` is the square root of `square`, rounded down.
pub open spec fn is_root_of(root: int, square: int) -> bool {
    &&& 0 <= root
    &&& root * root <= square
    &&& square < (root + 1) * (root + 1)
}

/// The square of the difference of two coordinates.
fn squared_difference(a: i32, b: i32) -> (square: u128)
    ensures
        square == (a - b) * (a - b),
        square <= 0x1_0000_0000_0000_0000,
{
    let difference: i128 = a as i128 - b as i128;
    assert(0 <= difference * difference <= 0x1_0000_0000_0000_0000) by (nonlinear_arith)
        requires
            -0x1_0000_0000 <= difference <= 0x1_0000_0000,
    ;
    (difference * difference) as u128
}

/// The square root of a number under two to the power of 68, rounded down.
fn root_of(square: u128) -> (root: u64)
    requires
        square < 0x10_0000_0000_0000_0000,
    ensures
        is_root_of(root as int, square as int),
{
    let mut low: u128 = 0;
    let mut high: u128 = 0x4_0000_0000;
    assert(0x4_0000_0000 * 0x4_0000_0000 == 0x10_0000_0000_0000_0000) by (nonlinear_arith);
    while high - low > 1
        invariant
            low < high <= 0x4_0000_0000,
            low * low <= square < high * high,
        decreases high - low,
    {
        let middle = low + (high - low) / 2;
        assert(middle * middle <= 0x4_0000_0000 * 0x4_0000_0000) by (nonlinear_arith)
            requires
                0 <= middle <= 0x4_0000_0000,
        ;
        if middle * middle <= square {
            low = middle;
        } else {
            high = middle;
        }
    }
    low as u64
}

impl Vec3 {
    pub fn new(x: i32, y: i32, z: i32) -> (v: Vec3)
        ensures
            v == (Vec3 { x, y, z }),
    {
        Vec3 { x, y, z }
    }

    /// The distance to another point in thousandths, rounded down to a whole
    /// thousandth.
    pub fn distance(&self, other: &Vec3) -> (distance: u64)
        ensures
            is_root_of(distance as int, squared_distance(*self, *other)),
    {
        let square = squared_difference(self.x, other.x) + squared_difference(self.y, other.y)
            + squared_difference(self.z, other.z);
        root_of(square)
    }
}

/// Whether `a` and `b` are both held in `units` and connect.
pub open spec fn units_connect(units: Map<u128, SubgraphView>, a: u128, b: u128) -> bool {
    &&& units.contains_key(a)
    &&& units.contains_key(b)
    &&& affinities_connect(units[a].affinity, units[b].affinity)
}

/// The connecting pairs `(ids[i], ids[j])` with `i < j < end`, by rising `j`.
pub open spec fn connecting_row(
    units: Map<u128, SubgraphView>,
    ids: Seq<u128>,
    i: int,
    end: int,
) -> Seq<(u128, u128)>
    decreases end - i,
{
    if end <= i + 1 {
        Seq::empty()
    } else {
        let earlier = connecting_row(units, ids, i, end - 1);
        if units_connect(units, ids[i], ids[end - 1]) {
            earlier.push((ids[i], ids[end - 1]))
        } else {
            earlier
        }
    }
}

/// The connecting pairs `(ids[i], ids[j])` with `i < j` and `i < rows`, by
/// rising `i` and then rising `j`.
pub open spec fn connecting_rows(
    units: Map<u128, SubgraphView>,
    ids: Seq<u128>,
    rows: int,
) -> Seq<(u128, u128)>
    decreases rows,
{
    if rows <= 0 {
        Seq::empty()
    } else {
        connecting_rows(units, ids, rows - 1) + connecting_row(
            units,
            ids,
            rows - 1,
            ids.len() as int,
        )
    }
}

/// Every pair of positions in `ids` whose units connect, each pair once, the
/// earlier position first.
pub open spec fn connecting_pairs(units: Map<u128, SubgraphView>, ids: Seq<u128>) -> Seq<
    (u128, u128),
> {
    connecting_rows(units, ids, ids.len() as int)
}

/// Whether `ids` lists the keys of `units`, each once.
pub open spec fn lists_keys(ids: Seq<u128>, units: Map<u128, SubgraphView>) -> bool {
    &&& ids.no_duplicates()
    &&& ids.to_set() == units.dom()
}

/// Whether `pairs` is what a scan of `units` may report: the connecting pairs
/// under some listing of the keys.
pub open spec fn is_scan_of(pairs: Seq<(u128, u128)>, units: Map<u128, SubgraphView>) -> bool {
    exists|ids: Seq<u128>| #[trigger]
        lists_keys(ids, units) && pairs == connecting_pairs(units, ids)
}

/// The share of a step of length `delta` that a draw from `[0, 2000)` stands
/// for: the draw's distance from the middle, in thousandths of `delta`.
pub open spec fn drift_magnitude(draw: u32, delta: u32) -> int {
    if draw >= 1_000 {
        (draw - 1_000) * delta / 1_000
    } else {
        (1_000 - draw) * delta / 1_000
    }
}

/// Whether `after` is `before` with its eye moved as the two draws say: along
/// `x` and along `y` by the draw's share of the step, forward for a draw in
/// the upper half and back for one in the lower half. Nothing else differs.
pub open spec fn drifted_by(
    before: TornadoView,
    after: TornadoView,
    delta: u32,
    x_draw: u32,
    y_draw: u32,
) -> bool {
    &&& x_draw < 2_000
    &&& y_draw < 2_000
    &&& after == (TornadoView {
        eye: Vec3 {
            x: moved(before.eye.x, drift_magnitude(x_draw, delta) as u64, x_draw >= 1_000),
            y: moved(before.eye.y, drift_magnitude(y_draw, delta) as u64, y_draw >= 1_000),
            z: before.eye.z,
        },
        ..before
    })
}

/// Whether `after` is `before` after a step of length `delta`: its eye moved
/// as some two draws say.
pub open spec fn drifted(before: TornadoView, after: TornadoView, delta: u32) -> bool {
    exists|x_draw: u32, y_draw: u32| #[trigger] drifted_by(before, after, delta, x_draw, y_draw)
}

/// Whether the measures of a container lie in their ranges, counted in
/// thousandths: the radius from 5 up to 20, the angular velocity from 0.5 up
/// to 2, the height from 10 up to 50.
pub open spec fn in_ranges(tornado: TornadoView) -> bool {
    &&& 5_000 <= tornado.radius < 20_000
    &&& 500 <= tornado.angular_velocity < 2_000
    &&& 10_000 <= tornado.height < 50_000
}

/// The identifiers of a sequence of units, in order.
pub open spec fn ids_of(units: Seq<Subgraph>) -> Seq<u128> {
    Seq::new(units.len(), |i: int| units[i]@.id)
}

/// The smaller of two counts.
pub open spec fn smaller(a: int, b: int) -> int {
    if a <= b {
        a
    } else {
        b
    }
}

/// The position that a step of `magnitude` in the given direction leads to,
/// held inside the range of a coordinate.
pub open spec fn moved(from: i32, magnitude: u64, forward: bool) -> i32 {
    if forward {
        if from + magnitude > i32::MAX {
            i32::MAX
        } else {
            (from + magnitude) as i32
        }
    } else {
        if from - magnitude < i32::MIN {
            i32::MIN
        } else {
            (from - magnitude) as i32
        }
    }
}

/// A container of units of work, keyed by their identifiers. Taking units in
/// or handing them out needs the container to itself; letting the units meet
/// only reads it, so it can go on beside other readers.
#[derive(Debug)]
pub struct Tornado {
    id: u128,
    eye: Vec3,
    radius: u32,
    angular_velocity: u32,
    height: u32,
    subgraphs: HashMap<u128, Subgraph>,
}

/// A [`Tornado`] as plain values. Lengths and the angular velocity count
/// thousandths.
pub struct TornadoView {
    pub id: u128,
    pub eye: Vec3,
    pub radius: u32,
    pub angular_velocity: u32,
    pub height: u32,
    pub units: Map<u128, SubgraphView>,
}

impl View for Tornado {
    type V = TornadoView;

    closed spec fn view(&self) -> TornadoView {
        TornadoView {
            id: self.id,
            eye: self.eye,
            radius: self.radius,
            angular_velocity: self.angular_velocity,
            height: self.height,
            units: self.subgraphs@.map_values(|unit: Subgraph| unit@),
        }
    }
}

impl Tornado {
    #[verifier::type_invariant]
    spec fn well_formed(self) -> bool {
        &&& in_ranges(self@)
        &&& forall|id: u128| #[trigger]
            self.subgraphs@.contains_key(id) ==> self.subgraphs@[id]@.id == id
    }

    /// An empty container at `position`, with a fresh random identifier. Its
    /// radius, angular velocity and height are drawn from their ranges.
    pub fn new(position: Vec3) -> (tornado: Tornado)
        ensures
            tornado@.eye == position,
            tornado@.units == Map::<u128, SubgraphView>::empty(),
            in_ranges(tornado@),
    {
        let t = Tornado {
            id: fresh_id(),
            eye: position,
            radius: random_in(5_000, 20_000),
            angular_velocity: random_in(500, 2_000),
            height: random_in(10_000, 50_000),
            subgraphs: HashMap::new(),
        };
        assert(t@.units =~= Map::<u128, SubgraphView>::empty());
        t
    }

    /// Takes a unit in, under its own identifier. A unit that was held under
    /// that identifier is replaced, so the container grows by one unit at
    /// most.
    pub fn sweep_up(&mut self, subgraph: Subgraph)
        ensures
            final(self)@ == (TornadoView {
                units: old(self)@.units.insert(subgraph@.id, subgraph@),
                ..old(self)@
            }),
            final(self)@.units.len() == old(self)@.units.len() + (if old(self)@.units.contains_key(
                subgraph@.id,
            ) {
                0int
            } else {
                1int
            }),
    {
        proof {
            use_type_invariant(&*self);
        }
        let mut held: HashMap<u128, Subgraph> = HashMap::new();
        std::mem::swap(&mut held, &mut self.subgraphs);
        let id = subgraph.id();
        held.insert(id, subgraph);
        self.subgraphs = held;
        proof {
            assert(self@.units =~= old(self)@.units.insert(subgraph@.id, subgraph@));
            assert(old(self)@.units.dom() =~= old(self).subgraphs@.dom());
        }
    }

    fn held_ids(&self) -> (ids: Vec<u128>)
        ensures
            ids@.no_duplicates(),
            ids@.to_set() == self@.units.dom(),
    {
        let mut ids: Vec<u128> = Vec::new();
        for id in it: self.subgraphs.keys()
            invariant
                ids@.len() == it.index(),
                forall|j: int| 0 <= j < ids@.len() ==> ids@[j] == *it.seq()[j],
                it.seq() == spec_keys_iter(&self.subgraphs).remaining(),
        {
            ids.push(*id);
        }
        proof {
            let all = spec_keys_iter(&self.subgraphs).remaining();
            assert(ids@ =~= all.unref());
            assert(self@.units.dom() =~= self.subgraphs@.dom());
        }
        ids
    }

    pub fn id(&self) -> (id: u128)
        ensures
            id == self@.id,
    {
        self.id
    }

    pub fn eye(&self) -> (eye: Vec3)
        ensures
            eye == self@.eye,
    {
        self.eye
    }

    /// The radius in thousandths: at least 5 and under 20 units.
    pub fn radius(&self) -> (radius: u32)
        ensures
            radius == self@.radius,
            5_000 <= radius < 20_000,
    {
        proof {
            use_type_invariant(self);
        }
        self.radius
    }

    /// The angular velocity in thousandths: at least 0.5 and under 2.
    pub fn angular_velocity(&self) -> (velocity: u32)
        ensures
            velocity == self@.angular_velocity,
            500 <= velocity < 2_000,
    {
        proof {
            use_type_invariant(self);
        }
        self.angular_velocity
    }

    /// The height in thousandths: at least 10 and under 50 units.
    pub fn height(&self) -> (height: u32)
        ensures
            height == self@.height,
            10_000 <= height < 50_000,
    {
        proof {
            use_type_invariant(self);
        }
        self.height
    }

    /// How many units are held.
    pub fn len(&self) -> (n: usize)
        ensures
            n == self@.units.len(),
    {
        proof {
            lemma_units_len(self.subgraphs@);
        }
        self.subgraphs.len()
    }

    /// The unit held under `id`, if there is one.
    pub fn get(&self, id: u128) -> (unit: Option<&Subgraph>)
        ensures
            unit is Some <==> self@.units.contains_key(id),
            unit is Some ==> unit->0@ == self@.units[id],
    {
        self.subgraphs.get(&id)
    }

    /// The connecting pairs among the units named by `ids`, by position in
    /// `ids`. A name that is not held connects with nothing.
    pub fn connections_among(&self, ids: &Vec<u128>) -> (pairs: Vec<(u128, u128)>)
        ensures
            pairs@ == connecting_pairs(self@.units, ids@),
    {
        let mut pairs: Vec<(u128, u128)> = Vec::new();
        let n = ids.len();
        let mut i: usize = 0;
        while i < n
            invariant
                i <= n,
                n == ids@.len(),
                pairs@ == connecting_rows(self@.units, ids@, i as int),
            decreases n - i,
        {
            let ghost before = pairs@;
            let mut j: usize = i + 1;
            while j < n
                invariant
                    i < n,
                    i + 1 <= j <= n,
                    n == ids@.len(),
                    pairs@ == before + connecting_row(self@.units, ids@, i as int, j as int),
                decreases n - j,
            {
                let first = self.subgraphs.get(&ids[i]);
                let second = self.subgraphs.get(&ids[j]);
                let connect = match (first, second) {
                    (Some(a), Some(b)) => a.can_connect_with(b),
                    _ => false,
                };
                assert(connect == units_connect(self@.units, ids@[i as int], ids@[j as int]));
                if connect {
                    pairs.push((ids[i], ids[j]));
                }
                assert(pairs@ =~= before + connecting_row(
                    self@.units,
                    ids@,
                    i as int,
                    j as int + 1,
                ));
                j += 1;
            }
            i += 1;
        }
        pairs
    }

    /// Lets the held units meet: every two of them are tried, and the pairs
    /// that connect are reported. Nothing is merged and nothing changes. The
    /// pairs come in the order in which the map hands its keys out, which is
    /// not fixed.
    pub fn spin(&self) -> (pairs: Vec<(u128, u128)>)
        ensures
            is_scan_of(pairs@, self@.units),
            self@.units.len() < 2 ==> pairs@.len() == 0,
    {
        if self.len() < 2 {
            let pairs: Vec<(u128, u128)> = Vec::new();
            let ids = self.held_ids();
            proof {
                ids@.unique_seq_to_set();
                lemma_short_list_has_no_pairs(self@.units, ids@, ids@.len() as int);
                assert(pairs@ =~= connecting_pairs(self@.units, ids@));
                assert(lists_keys(ids@, self@.units));
            }
            return pairs;
        }
        let ids = self.held_ids();
        let pairs = self.connections_among(&ids);
        assert(lists_keys(ids@, self@.units));
        pairs
    }

    /// Takes up to `count` units out and hands them to the caller. Which units
    /// leave is not fixed when fewer leave than are held.
    pub fn release(&mut self, count: usize) -> (released: Vec<Subgraph>)
        ensures
            released@.len() == smaller(count as int, old(self)@.units.len() as int),
            ids_of(released@).no_duplicates(),
            forall|i: int|
                0 <= i < released@.len() ==> {
                    &&& old(self)@.units.contains_key(#[trigger] ids_of(released@)[i])
                    &&& old(self)@.units[ids_of(released@)[i]] == released@[i]@
                },
            final(self)@ == (TornadoView {
                units: old(self)@.units.remove_keys(ids_of(released@).to_set()),
                ..old(self)@
            }),
            final(self)@.units.len() + released@.len() == old(self)@.units.len(),
    {
        proof {
            use_type_invariant(&*self);
        }
        let keys = self.held_ids();
        proof {
            keys@.unique_seq_to_set();
            lemma_units_len(self.subgraphs@);
        }
        let mut held: HashMap<u128, Subgraph> = HashMap::new();
        std::mem::swap(&mut held, &mut self.subgraphs);
        let ghost before = held@;
        let n = if count < keys.len() {
            count
        } else {
            keys.len()
        };
        let mut released: Vec<Subgraph> = Vec::new();
        let mut i: usize = 0;
        while i < n
            invariant
                i <= n <= keys@.len(),
                keys@.no_duplicates(),
                keys@.to_set() == before.dom(),
                forall|id: u128| #[trigger] before.contains_key(id) ==> before[id]@.id == id,
                released@.len() == i,
                forall|j: int| 0 <= j < i ==> (#[trigger] released@[j]) == before[keys@[j]],
                held@ == before.remove_keys(keys@.take(i as int).to_set()),
            decreases n - i,
        {
            proof {
                assert(keys@.to_set().contains(keys@[i as int]));
                assert(!keys@.take(i as int).to_set().contains(keys@[i as int])) by {
                    if keys@.take(i as int).to_set().contains(keys@[i as int]) {
                        let j = choose|j: int|
                            0 <= j < i && keys@.take(i as int)[j] == keys@[i as int];
                        assert(keys@[j] == keys@[i as int]);
                    }
                }
            }
            if let Some(unit) = held.remove(&keys[i]) {
                released.push(unit);
            }
            proof {
                assert(keys@.take(i + 1) =~= keys@.take(i as int).push(keys@[i as int]));
                keys@.take(i as int).lemma_push_to_set_commute(keys@[i as int]);
                assert(held@ =~= before.remove_keys(keys@.take(i + 1).to_set()));
            }
            i += 1;
        }
        self.subgraphs = held;
        proof {
            assert forall|j: int| 0 <= j < n implies ids_of(released@)[j] == keys@[j] by {
                assert(before.contains_key(keys@[j])) by {
                    assert(keys@.to_set().contains(keys@[j]));
                }
            }
            assert(ids_of(released@) =~= keys@.take(n as int));
            assert(self@.units =~= old(self)@.units.remove_keys(ids_of(released@).to_set()));
            lemma_units_len(self.subgraphs@);
            keys@.take(n as int).unique_seq_to_set();
            lemma_remove_keys_len(before, keys@.take(n as int).to_set());
        }
        released
    }

    /// Takes every unit out and hands them to the caller.
    pub fn release_subgraphs(&mut self) -> (released: Vec<Subgraph>)
        ensures
            released@.len() == old(self)@.units.len(),
            ids_of(released@).no_duplicates(),
            forall|i: int|
                0 <= i < released@.len() ==> {
                    &&& old(self)@.units.contains_key(#[trigger] ids_of(released@)[i])
                    &&& old(self)@.units[ids_of(released@)[i]] == released@[i]@
                },
            final(self)@ == (TornadoView {
                units: Map::<u128, SubgraphView>::empty(),
                ..old(self)@
            }),
    {
        let count = self.len();
        let released = self.release(count);
        proof {
            assert(self@.units.dom() =~= self.subgraphs@.dom());
            assert(self@.units.dom().finite());
            assert(self@.units.len() == 0);
            assert(self@.units.dom() =~= Set::<u128>::empty());
            assert(self@.units =~= Map::<u128, SubgraphView>::empty());
        }
        released
    }

    /// Moves the eye by the given magnitudes along `x` and `y`, forward or
    /// back, and leaves everything else as it was.
    pub fn drift(&mut self, x_step: u64, x_forward: bool, y_step: u64, y_forward: bool)
        ensures
            final(self)@ == (TornadoView {
                eye: Vec3 {
                    x: moved(old(self)@.eye.x, x_step, x_forward),
                    y: moved(old(self)@.eye.y, y_step, y_forward),
                    z: old(self)@.eye.z,
                },
                ..old(self)@
            }),
    {
        proof {
            use_type_invariant(&*self);
        }
        let x = step_from(self.eye.x, x_step, x_forward);
        let y = step_from(self.eye.y, y_step, y_forward);
        self.eye = Vec3 { x, y, z: self.eye.z };
    }
}

/// Computes [`moved`].
pub fn step_from(from: i32, magnitude: u64, forward: bool) -> (to: i32)
    ensures
        to == moved(from, magnitude, forward),
{
    let target: i128 = if forward {
        from as i128 + magnitude as i128
    } else {
        from as i128 - magnitude as i128
    };
    if target > i32::MAX as i128 {
        i32::MAX
    } else if target < i32::MIN as i128 {
        i32::MIN
    } else {
        target as i32
    }
}

proof fn lemma_units_len(held: Map<u128, Subgraph>)
    requires
        held.dom().finite(),
    ensures
        held.map_values(|unit: Subgraph| unit@).len() == held.len(),
{
    assert(held.map_values(|unit: Subgraph| unit@).dom() =~= held.dom());
}

proof fn lemma_remove_keys_len(held: Map<u128, Subgraph>, keys: Set<u128>)
    requires
        held.dom().finite(),
        keys.finite(),
        keys.subset_of(held.dom()),
    ensures
        held.remove_keys(keys).len() + keys.len() == held.len(),
{
    assert(held.remove_keys(keys).dom() =~= held.dom().difference(keys));
    vstd::set_lib::lemma_set_difference_len(held.dom(), keys);
    assert(held.dom().intersect(keys) =~= keys);
}

proof fn lemma_short_list_has_no_pairs(units: Map<u128, SubgraphView>, ids: Seq<u128>, rows: int)
    requires
        ids.len() < 2,
        rows <= ids.len(),
    ensures
        connecting_rows(units, ids, rows).len() == 0,
    decreases rows,
{
    if rows > 0 {
        lemma_short_list_has_no_pairs(units, ids, rows - 1);
        assert(connecting_row(units, ids, rows - 1, ids.len() as int).len() == 0);
    }
}

/// Computes [`drift_magnitude`], which never exceeds the step.
pub fn magnitude_of(draw: u32, delta: u32) -> (magnitude: u64)
    ensures
        magnitude == drift_magnitude(draw, delta),
        draw < 2_000 ==> magnitude <= delta,
{
    let away: u64 = if draw >= 1_000 {
        (draw - 1_000) as u64
    } else {
        (1_000 - draw) as u64
    };
    assert(away * delta <= 0xFFFF_FFFF * 0xFFFF_FFFF) by (nonlinear_arith)
        requires
            away <= 0xFFFF_FFFF,
            delta <= 0xFFFF_FFFF,
    ;
    if draw < 2_000 {
        assert(away * delta <= 1_000 * delta) by (nonlinear_arith)
            requires
                away <= 1_000,
        ;
    }
    away * (delta as u64) / 1_000
}

/// The pool of containers, in the order in which they were spawned.
#[derive(Debug)]
pub struct TornadoSwarm {
    pub tornadoes: Vec<Tornado>,
}

impl TornadoSwarm {
    /// An empty pool.
    pub fn new() -> (swarm: TornadoSwarm)
        ensures
            swarm.tornadoes@.len() == 0,
    {
        TornadoSwarm { tornadoes: Vec::new() }
    }

    /// Appends a new, empty container at `position`. Its index is the length
    /// that the pool had.
    pub fn spawn_tornado(&mut self, position: Vec3)
        ensures
            final(self).tornadoes@.len() == old(self).tornadoes@.len() + 1,
            final(self).tornadoes@.drop_last() == old(self).tornadoes@,
            final(self).tornadoes@.last()@.eye == position,
            final(self).tornadoes@.last()@.units == Map::<u128, SubgraphView>::empty(),
            in_ranges(final(self).tornadoes@.last()@),
    {
        let tornado = Tornado::new(position);
        self.tornadoes.push(tornado);
        assert(self.tornadoes@.drop_last() =~= old(self).tornadoes@);
    }

    /// Advances the pool by a time step of `delta_time` thousandths. Every
    /// container, by rising index, has its eye moved at random by at most the
    /// step along `x` and along `y`, and then lets its units meet. The reports
    /// of the containers are returned, by index.
    pub fn simulate_step(&mut self, delta_time: u32) -> (reports: Vec<Vec<(u128, u128)>>)
        ensures
            final(self).tornadoes@.len() == old(self).tornadoes@.len(),
            reports@.len() == old(self).tornadoes@.len(),
            forall|i: int|
                0 <= i < reports@.len() ==> {
                    &&& drifted(
                        old(self).tornadoes@[i]@,
                        (#[trigger] final(self).tornadoes@[i])@,
                        delta_time,
                    )
                    &&& is_scan_of(reports@[i]@, old(self).tornadoes@[i]@.units)
                },
    {
        let mut reports: Vec<Vec<(u128, u128)>> = Vec::new();
        let n = self.tornadoes.len();
        let mut i: usize = 0;
        while i < n
            invariant
                i <= n,
                n == old(self).tornadoes@.len(),
                self.tornadoes@.len() == n,
                reports@.len() == i,
                forall|j: int|
                    0 <= j < i ==> {
                        &&& drifted(
                            old(self).tornadoes@[j]@,
                            (#[trigger] self.tornadoes@[j])@,
                            delta_time,
                        )
                        &&& is_scan_of(reports@[j]@, old(self).tornadoes@[j]@.units)
                    },
                forall|j: int| i <= j < n ==> self.tornadoes@[j] == old(self).tornadoes@[j],
            decreases n - i,
        {
            let x_draw = random_in(0, 2_000);
            let y_draw = random_in(0, 2_000);
            let x_step = magnitude_of(x_draw, delta_time);
            let y_step = magnitude_of(y_draw, delta_time);
            self.tornadoes[i].drift(x_step, x_draw >= 1_000, y_step, y_draw >= 1_000);
            assert(drifted_by(
                old(self).tornadoes@[i as int]@,
                self.tornadoes@[i as int]@,
                delta_time,
                x_draw,
                y_draw,
            ));
            let pairs = self.tornadoes[i].spin();
            reports.push(pairs);
            i += 1;
        }
        reports
    }
}

/// A container holds finitely many units.
pub proof fn held_units_are_finite(tornado: Tornado)
    ensures
        tornado@.units.dom().finite(),
{
    assert(tornado@.units.dom() =~= tornado.subgraphs@.dom());
}

/// A step moves an eye by no more than its length along `x` and along `y`,
/// and not at all along `z`.
pub proof fn a_step_moves_within_its_length(before: TornadoView, after: TornadoView, delta: u32)
    requires
        drifted(before, after, delta),
    ensures
        -delta <= after.eye.x - before.eye.x <= delta,
        -delta <= after.eye.y - before.eye.y <= delta,
        after.eye.z == before.eye.z,
        after.units == before.units,
{
    let (x_draw, y_draw) = choose|x_draw: u32, y_draw: u32| #[trigger]
        drifted_by(before, after, delta, x_draw, y_draw);
    lemma_magnitude_within(x_draw, delta);
    lemma_magnitude_within(y_draw, delta);
}

proof fn lemma_magnitude_within(draw: u32, delta: u32)
    requires
        draw < 2_000,
    ensures
        0 <= drift_magnitude(draw, delta) <= delta,
{
    let away: int = if draw >= 1_000 {
        draw - 1_000
    } else {
        1_000 - draw
    };
    assert(0 <= away * delta <= 1_000 * delta) by (nonlinear_arith)
        requires
            0 <= away <= 1_000,
            0 <= delta,
    ;
}

} // verus!
