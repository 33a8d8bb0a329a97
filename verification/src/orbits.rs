//! A registry of orbiting objects: each entry pairs an orbit with its
//! apsidal rotation and time offset, under a stable identifier.
//!
//! Identifiers are handed out in insertion order and never change even
//! when a removal renumbers the dense storage internally (the removed
//! slot is filled by swapping the last entry in and re-aiming its index
//! entry). Removal of an identifier that was never issued, or already
//! removed, reports absence instead of failing.

use vstd::prelude::*;

verus! {

use vstd::map::*;
use crate::num::mag;
use crate::{Orbit, OrbitKind, PI, TAU};
use crate::kepler::MAX_MEAN_ANOMALY;

/// One degree in ticks, rounded down: a full turn over 360.
pub const DEG: i64 = 17_453_292;

/// One orbiting object: its trajectory, the rotation of that
/// trajectory's perihelion direction within the embedding frame, and
/// the time offset that replays its motion from the global clock.
#[derive(Clone, Copy, Debug, PartialEq, Eq, Structural)]
pub struct Object {
    /// Apsidal rotation, in ticks of angle.
    pub angle: i64,
    /// Time offset added to every query time, in ticks.
    pub t: i64,
    /// The trajectory itself.
    pub orbit: Orbit,
}

impl Object {
    /// Ranges within which the registry's queries are free of overflow.
    /// The apsidal rotation may be any value (it is implicitly a
    /// direction modulo one turn, and the registry never computes with
    /// it); only the time offset needs a bound, so that shifting a
    /// query time by it cannot overflow.
    pub open spec fn wf(self) -> bool {
        &&& self.orbit.valid()
        &&& 0 <= self.t <= MAX_MEAN_ANOMALY
    }
}

/// What one frame needs of one object: its identifier, its conic kind,
/// the shifted time to query its angle at, and the object itself.
pub struct DrawItem {
    pub id: usize,
    pub kind: OrbitKind,
    pub query_time: i64,
    pub object: Object,
}

/// The registry: a dense store of objects and an index table from
/// stable identifiers to dense slots.
pub struct Orbits {
    sparse: Vec<Option<usize>>,
    objects: Vec<(usize, Object)>,
}

impl Orbits {
    /// The index table and the dense store mirror one another: every
    /// stored entry is aimed at by exactly its own identifier's index
    /// entry, and every live index entry aims at an entry carrying its
    /// identifier.
    pub closed spec fn wf(self) -> bool {
        &&& forall|i: int|
            0 <= i < self.objects@.len() ==> (#[trigger] self.objects@[i]).0
                < self.sparse@.len() && self.sparse@[self.objects@[i].0 as int] == Some(i as usize)
        &&& forall|id: int|
            0 <= id < self.sparse@.len() && (#[trigger] self.sparse@[id]) is Some
                ==> self.sparse@[id].unwrap() < self.objects@.len()
                && self.objects@[self.sparse@[id].unwrap() as int].0 == id
        &&& forall|i: int| 0 <= i < self.objects@.len() ==> (#[trigger] self.objects@[i]).1.wf()
    }

    /// The registry as a map from live identifiers to objects.
    pub closed spec fn contents(self) -> Map<int, Object> {
        Map::new(
            |id: int| 0 <= id < self.sparse@.len() && self.sparse@[id] is Some,
            |id: int| self.objects@[self.sparse@[id].unwrap() as int].1,
        )
    }

    /// An empty registry.
    pub fn new() -> (reg: Orbits)
        ensures
            reg.wf(),
            reg.contents() == Map::<int, Object>::empty(),
            reg.spec_len() == 0,
            reg.next_id() == 0,
    {
        let reg = Orbits { sparse: Vec::new(), objects: Vec::new() };
        proof {
            assert_maps_equal!(reg.contents(), Map::<int, Object>::empty());
        }
        reg
    }

    /// How many objects are stored.
    pub closed spec fn spec_len(self) -> nat {
        self.objects@.len()
    }

    /// The identifier the next insertion will take.
    pub closed spec fn next_id(self) -> nat {
        self.sparse@.len()
    }

    /// The live identifiers in dense-storage order: the order `draw`
    /// reports objects in. Insertion appends to it; a removal moves the
    /// last identifier into the freed slot (see `remove`).
    pub closed spec fn order(self) -> Seq<int> {
        Seq::new(self.objects@.len(), |i: int| self.objects@[i].0 as int)
    }

    /// How many objects are stored.
    pub fn len(&self) -> (n: usize)
        ensures
            n == self.spec_len(),
    {
        self.objects.len()
    }

    /// Store an object and return its fresh identifier: one that is not
    /// live and that later lookups and removals address this object by.
    /// Constant-time.
    pub fn insert(&mut self, object: Object) -> (id: usize)
        requires
            old(self).wf(),
            object.wf(),
            old(self).next_id() < usize::MAX,
        ensures
            final(self).wf(),
            id == old(self).next_id(),
            !old(self).contents().dom().contains(id as int),
            final(self).contents() == old(self).contents().insert(id as int, object),
            final(self).spec_len() == old(self).spec_len() + 1,
            final(self).next_id() == old(self).next_id() + 1,
            final(self).order() == old(self).order().push(id as int),
    {
        let id = self.sparse.len();
        let slot = self.objects.len();
        self.sparse.push(Some(slot));
        self.objects.push((id, object));
        proof {
            assert_maps_equal!(self.contents(), old(self).contents().insert(id as int, object));
            assert(self.order() =~= old(self).order().push(id as int));
        }
        id
    }

    /// Remove the object under `id` and return it; report `None`, with
    /// the registry unchanged, when no object is live under `id`. The
    /// last entry is swapped into the freed slot, so other objects keep
    /// their identifiers but may be renumbered internally. Amortized
    /// constant-time.
    pub fn remove(&mut self, id: usize) -> (removed: Option<Object>)
        requires
            old(self).wf(),
        ensures
            final(self).wf(),
            match removed {
                Some(object) => old(self).contents().dom().contains(id as int) && object == old(
                    self).contents()[id as int] && final(self).contents() == old(
                    self).contents().remove(id as int) && final(self).spec_len() == old(
                    self).spec_len() - 1,
                None => !old(self).contents().dom().contains(id as int) && *final(self)
                    == *old(self),
            },
            final(self).next_id() == old(self).next_id(),
    {
        if id >= self.sparse.len() {
            return None;
        }
        let idx_opt = self.sparse[id];
        match idx_opt {
            None => None,
            Some(idx) => {
                self.sparse[id] = None;
                let removed = self.objects.swap_remove(idx);
                if idx < self.objects.len() {
                    let moved_id = self.objects[idx].0;
                    self.sparse[moved_id] = Some(idx);
                }
                proof {
                    assert_maps_equal!(self.contents(), old(self).contents().remove(id as int));
                }
                Some(removed.1)
            },
        }
    }

    /// One entry per stored object, in storage order: its identifier,
    /// its kind, and the time to query its angle at — the global time
    /// plus the object's own offset. The caller renders each object
    /// from these through `angle_at` and `r`.
    pub fn draw(&self, time: i64) -> (items: Vec<DrawItem>)
        requires
            self.wf(),
            0 <= time <= MAX_MEAN_ANOMALY,
        ensures
            items@.len() == self.spec_len(),
            items@.len() == self.order().len(),
            forall|i: int|
                0 <= i < items@.len() ==> {
                    let item = #[trigger] items@[i];
                    &&& self.contents().dom().contains(item.id as int)
                    &&& item.object == self.contents()[item.id as int]
                    &&& item.kind == item.object.orbit.kind_spec()
                    &&& item.query_time == time + item.object.t
                    &&& item.id as int == self.order()[i]
                },
            forall|i: int, j: int|
                0 <= i < j < items@.len() ==> (#[trigger] items@[i]).id != (#[trigger] items@[j]).id,
            forall|id: int|
                #[trigger] self.contents().dom().contains(id) ==> exists|i: int|
                    0 <= i < items@.len() && (#[trigger] items@[i]).id == id,
    {
        let mut items: Vec<DrawItem> = Vec::new();
        let mut i: usize = 0;
        while i < self.objects.len()
            invariant
                self.wf(),
                0 <= time <= MAX_MEAN_ANOMALY,
                i <= self.objects@.len(),
                items@.len() == i,
                forall|j: int|
                    0 <= j < i ==> {
                        let item = #[trigger] items@[j];
                        &&& self.contents().dom().contains(item.id as int)
                        &&& item.object == self.contents()[item.id as int]
                        &&& item.kind == item.object.orbit.kind_spec()
                        &&& item.query_time == time + item.object.t
                        &&& item.id == self.objects@[j].0
                    },
            decreases self.objects@.len() - i,
        {
            let (id, object) = self.objects[i];
            proof {
                assert(self.sparse@[id as int] == Some(i));
                assert(self.contents().dom().contains(id as int));
            }
            let kind = object.orbit.kind();
            items.push(DrawItem { id, kind, query_time: time + object.t, object });
            i = i + 1;
        }
        proof {
            assert forall|a: int, b: int| 0 <= a < b < items@.len() implies (#[trigger] items@[a]).id
                != (#[trigger] items@[b]).id by {
                if items@[a].id == items@[b].id {
                    assert(self.sparse@[self.objects@[a].0 as int] == Some(a as usize));
                    assert(self.sparse@[self.objects@[b].0 as int] == Some(b as usize));
                }
            }
            assert forall|id: int| #[trigger] self.contents().dom().contains(id) implies exists|
                k: int,
            | 0 <= k < items@.len() && (#[trigger] items@[k]).id == id by {
                let k = self.sparse@[id].unwrap() as int;
                assert(self.objects@[k].0 == id);
                assert(0 <= k < items@.len() && items@[k].id == id);
            }
        }
        items
    }
}

impl Default for Orbits {
    /// An empty registry.
    fn default() -> (reg: Orbits)
        ensures
            reg.wf(),
            reg.contents() == Map::<int, Object>::empty(),
            reg.spec_len() == 0,
    {
        Orbits::new()
    }
}

/// The uniform outline-sample angles for rendering one trajectory with
/// `segments` line segments: the full turn for a closed conic, and for
/// an open one the range between the asymptotic angles trimmed by one
/// degree at each end, so that no sample comes near the radius
/// singularity.
pub open spec fn spec_outline_start(kind: OrbitKind, angle_limit: int) -> int {
    match kind {
        OrbitKind::Circle | OrbitKind::Ellipse => 0,
        OrbitKind::Parabola | OrbitKind::Hyperbola => -angle_limit + DEG,
    }
}

/// The angular range the outline samples cover.
pub open spec fn spec_outline_range(kind: OrbitKind, angle_limit: int) -> int {
    match kind {
        OrbitKind::Circle | OrbitKind::Ellipse => TAU as int,
        OrbitKind::Parabola | OrbitKind::Hyperbola => 2 * angle_limit - 2 * DEG,
    }
}

/// The `i`-th outline sample angle.
pub open spec fn spec_outline_angle(kind: OrbitKind, angle_limit: int, segments: int, i: int) -> int {
    spec_outline_start(kind, angle_limit) + (spec_outline_range(kind, angle_limit) / segments) * (i
        + 1)
}

/// The outline-sample angles for one trajectory. For an open conic the
/// caller passes the asymptotic half-range `angle_limit` (the arc
/// cosine of `-1/epsilon`); every returned angle then keeps at least a
/// degree away from both asymptotes. For a closed conic `angle_limit`
/// is ignored.
pub fn outline_angles(kind: OrbitKind, angle_limit: i64, segments: u32) -> (angles: Vec<i64>)
    requires
        1 <= segments,
        (kind == OrbitKind::Parabola || kind == OrbitKind::Hyperbola) ==> DEG <= angle_limit <= PI,
    ensures
        angles@.len() == segments,
        forall|i: int|
            0 <= i < segments ==> (#[trigger] angles@[i]) as int == spec_outline_angle(kind,
                angle_limit as int, segments as int, i),
        (kind == OrbitKind::Parabola || kind == OrbitKind::Hyperbola) ==> forall|i: int|
            0 <= i < segments ==> -angle_limit + DEG <= #[trigger] angles@[i] <= angle_limit - DEG,
        (kind == OrbitKind::Circle || kind == OrbitKind::Ellipse) ==> forall|i: int|
            0 <= i < segments ==> 0 <= #[trigger] angles@[i] <= TAU,
{
    let closed = match kind {
        OrbitKind::Circle | OrbitKind::Ellipse => true,
        OrbitKind::Parabola | OrbitKind::Hyperbola => false,
    };
    let start: i64 = if closed {
        0
    } else {
        -angle_limit + DEG
    };
    let range: i64 = if closed {
        TAU
    } else {
        2 * angle_limit - 2 * DEG
    };
    let step: i64 = ((range as u64) / (segments as u64)) as i64;
    proof {
        vstd::arithmetic::div_mod::lemma_div_pos_is_pos(range as int, segments as int);
        vstd::arithmetic::div_mod::lemma_fundamental_div_mod(range as int, segments as int);
        vstd::arithmetic::div_mod::lemma_mod_bound(range as int, segments as int);
        assert(segments as int * (range as int / segments as int) == (range as int
            / segments as int) * segments as int) by (nonlinear_arith);
        vstd::arithmetic::div_mod::lemma_div_is_ordered_by_denominator(range as int, 1,
            segments as int);
    }
    let mut angles: Vec<i64> = Vec::new();
    let mut i: u32 = 0;
    while i < segments
        invariant
            1 <= segments,
            i <= segments,
            angles@.len() == i,
            0 <= step <= range,
            step == spec_outline_range(kind, angle_limit as int) / segments as int,
            start == spec_outline_start(kind, angle_limit as int),
            range == spec_outline_range(kind, angle_limit as int),
            0 <= range <= TAU,
            mag(start as int) <= TAU,
            step * segments <= range,
            forall|j: int|
                0 <= j < i ==> (#[trigger] angles@[j]) as int == spec_outline_angle(kind,
                    angle_limit as int, segments as int, j) && start <= angles@[j] <= start + range,
        decreases segments - i,
    {
        proof {
            vstd::arithmetic::mul::lemma_mul_inequality(i as int + 1, segments as int, step as int);
            vstd::arithmetic::mul::lemma_mul_nonnegative(step as int, i as int + 1);
            assert(step as int * (i as int + 1) == (i as int + 1) * step as int)
                by (nonlinear_arith);
            assert(step as int * segments as int == segments as int * step as int)
                by (nonlinear_arith);
        }
        let offset = step * ((i + 1) as i64);
        angles.push(start + offset);
        i = i + 1;
    }
    angles
}

} // verus!