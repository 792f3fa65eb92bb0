use vstd::prelude::*;
use crate::dice::{Dice, roll_chance};
use crate::hex::{HexCoord, lemma_neighbors_adjacent};
use crate::planet::{Archetype, Planet};
use crate::runner::{
    Field, FieldKind, Hostile, RiftRunner, credit, distinct_fields, distinct_hostiles, has_field,
    has_hostile, Progress, DISSOLVES_PER_CYCLE,
};

verus! {

/// Essence left after `damage`, never below zero (zero means dissolved).
pub open spec fn damaged(essence: int, damage: int) -> int {
    if essence > damage {
        essence - damage
    } else {
        0
    }
}

/// Essence left after `damage`, never below zero.
pub fn apply_damage(essence: i64, damage: i64) -> (e: i64)
    requires
        0 <= essence,
        0 <= damage,
    ensures
        e == damaged(essence as int, damage as int),
{
    if essence > damage {
        essence - damage
    } else {
        0
    }
}

/// How a tick left the run.
#[derive(Clone, Copy, Debug, PartialEq, Eq, Hash, Structural)]
pub enum Outcome {
    Ongoing,
    Victory,
    Loss,
}

/// A hostile that still has essence.
pub open spec fn alive() -> spec_fn(Hostile) -> bool {
    |h: Hostile| h.essence > 0
}

/// `d` increased by `k`, saturating at the largest representable count.
pub open spec fn tally(d: u64, k: int) -> u64 {
    if d + k > u64::MAX {
        u64::MAX
    } else {
        (d + k) as u64
    }
}

/// The best of `from` and its first `m` neighbours for a hostile heading to `core`:
/// a neighbour counts only if it is on `planet` and holds no field, and replaces the
/// current best only when strictly closer to `core`.
pub open spec fn step_upto(
    fields: Seq<Field>,
    planet: Planet,
    core: HexCoord,
    from: HexCoord,
    m: int,
) -> HexCoord
    decreases m,
{
    if m <= 0 {
        from
    } else {
        let prev = step_upto(fields, planet, core, from, m - 1);
        let n = from.neighbor_seq()[m - 1];
        if planet.holds(n) && !has_field(fields, n) && n.dist(core) < prev.dist(core) {
            n
        } else {
            prev
        }
    }
}

/// The hex a hostile on `from` steps to: the first neighbour, in direction order,
/// among the closest to the core of those on the planet without a field, provided it
/// is strictly closer than `from`; otherwise `from` itself.
pub open spec fn step_target(fields: Seq<Field>, planet: Planet, core: HexCoord, from: HexCoord) -> HexCoord {
    step_upto(fields, planet, core, from, 6)
}

/// Number of fields of `kind` in `fs`.
pub open spec fn count_kind(fs: Seq<Field>, kind: FieldKind) -> nat
    decreases fs.len(),
{
    if fs.len() == 0 {
        0
    } else {
        count_kind(fs.drop_last(), kind) + if fs.last().kind == kind {
            1nat
        } else {
            0nat
        }
    }
}

/// Some Pulse field of `fs` stands on `c` or next to it.
pub open spec fn pulse_near(fs: Seq<Field>, c: HexCoord) -> bool {
    exists|i: int| 0 <= i < fs.len() && fs[i].kind == FieldKind::Pulse && #[trigger] fs[i].at.dist(c) <= 1
}

/// `h` is what is left of a hostile of `before` on the same hex, with no more
/// essence, and with less if a Pulse field of `fields` stands next to it.
pub open spec fn pulsed_survivor(h: Hostile, before: Seq<Hostile>, fields: Seq<Field>) -> bool {
    exists|m: int|
        0 <= m < before.len() && #[trigger] before[m].at == h.at && h.essence <= before[m].essence
            && (pulse_near(fields, before[m].at) ==> h.essence < before[m].essence)
}

/// No field of `fs` is a Temporal field.
pub open spec fn no_temporal(fs: Seq<Field>) -> bool {
    forall|i: int| 0 <= i < fs.len() ==> (#[trigger] fs[i]).kind != FieldKind::Temporal
}

/// Sequences of fields with the same kinds, index by index, count the same per kind.
pub proof fn lemma_count_same_kinds(a: Seq<Field>, b: Seq<Field>, kind: FieldKind)
    requires
        a.len() == b.len(),
        forall|i: int| 0 <= i < a.len() ==> (#[trigger] a[i]).kind == b[i].kind,
    ensures
        count_kind(a, kind) == count_kind(b, kind),
    decreases a.len(),
{
    if a.len() > 0 {
        lemma_count_same_kinds(a.drop_last(), b.drop_last(), kind);
    }
}

/// Counting over a prefix one longer adds the next field.
pub proof fn lemma_count_prefix(fs: Seq<Field>, i: int, kind: FieldKind)
    requires
        0 <= i < fs.len(),
    ensures
        count_kind(fs.subrange(0, i + 1), kind) == count_kind(fs.subrange(0, i), kind) + if fs[i].kind
            == kind {
            1nat
        } else {
            0nat
        },
{
    assert(fs.subrange(0, i + 1).drop_last() =~= fs.subrange(0, i));
}

/// `hs` is what the hostiles of `mid` became after hostile actions: each kept its
/// essence and either stayed or took its step, and every step onto a hex without a
/// marker or a hostile was taken by someone.
pub open spec fn advanced_from(mid: RiftRunner, hs: Seq<Hostile>) -> bool {
    &&& mid.hostiles@.len() <= hs.len()
    &&& forall|j: int|
        0 <= j < mid.hostiles@.len() ==> (#[trigger] hs[j]).essence == mid.hostiles@[j].essence && (
        hs[j].at == mid.hostiles@[j].at || hs[j].at == mid.target_of(j))
    &&& forall|j: int|
        0 <= j < mid.hostiles@.len() && #[trigger] mid.advances(j)
            && !mid.stasis_markers@.contains(mid.target_of(j)) && !has_hostile(
            mid.hostiles@,
            mid.target_of(j),
        ) ==> has_hostile(hs, mid.target_of(j))
}

/// `mid` is the run between field resolution and hostile actions of a tick from
/// `before` to `after` on one planet: the fields, the planet and the core shard's
/// final hex are in place, the hostiles are the survivors of field resolution, and
/// the hostiles of `after` advanced from them.
pub open spec fn tick_midpoint(before: RiftRunner, mid: RiftRunner, after: RiftRunner) -> bool {
    &&& mid.wf()
    &&& mid.fields == before.fields
    &&& mid.planets == before.planets
    &&& mid.current_planet == before.current_planet
    &&& mid.core_shard == after.core_shard
    &&& mid.hostiles@.len() + (mid.dissolved_count - before.dissolved_count) == before.hostiles@.len()
    &&& mid.dissolved_count == after.dissolved_count
    &&& (no_temporal(before.fields@) ==> forall|k: int|
        0 <= k < mid.hostiles@.len() ==> pulsed_survivor(
            #[trigger] mid.hostiles@[k],
            before.hostiles@,
            before.fields@,
        ))
    &&& advanced_from(mid, after.hostiles@)
}

impl RiftRunner {
    /// `c` is the first hex of the current planet, in its fixed order, that holds a
    /// hostile.
    pub open spec fn first_occupied(&self, c: HexCoord) -> bool {
        exists|k: int|
            0 <= k < 7 && #[trigger] self.planet().hexes@[k] == c && has_hostile(self.hostiles@, c)
                && forall|m: int| 0 <= m < k ==> !has_hostile(self.hostiles@, #[trigger] self.planet().hexes@[m])
    }

    /// The hex a hostile on `from` steps to in this state.
    pub open spec fn step(&self, from: HexCoord) -> HexCoord {
        step_target(self.fields@, self.planet(), self.core_shard, from)
    }

    /// The hex the `i`-th hostile steps to.
    pub open spec fn target_of(&self, i: int) -> HexCoord {
        self.step(self.hostiles@[i].at)
    }

    /// The `i`-th hostile has a step to take.
    pub open spec fn advances(&self, i: int) -> bool {
        self.target_of(i) != self.hostiles@[i].at
    }

    /// Core shard movement: an unslowed core may hop to a free neighbouring hex of
    /// the planet; a slowed one stays put and may shake off the slow.
    pub fn move_core(&mut self, dice: &mut Dice)
        requires
            old(self).wf(),
        ensures
            final(self).wf(),
            *final(self) == (RiftRunner {
                core_shard: final(self).core_shard,
                core_slowed: final(self).core_slowed,
                ..*old(self)
            }),
            old(self).core_slowed ==> final(self).core_shard == old(self).core_shard,
            !old(self).core_slowed ==> !final(self).core_slowed,
            final(self).core_shard != old(self).core_shard ==> {
                &&& old(self).core_shard.dist(final(self).core_shard) == 1
                &&& old(self).on_planet(final(self).core_shard)
                &&& !has_field(old(self).fields@, final(self).core_shard)
                &&& !has_hostile(old(self).hostiles@, final(self).core_shard)
            },
            !old(self).core_slowed && old(dice).pending().len() > 0 && roll_chance(
                old(dice).pending()[0],
                3,
                10,
            ) && (exists|m: int|
                0 <= m < 6 && old(self).on_planet(#[trigger] old(self).core_shard.neighbor_seq()[m])
                    && !has_field(old(self).fields@, old(self).core_shard.neighbor_seq()[m])
                    && !has_hostile(old(self).hostiles@, old(self).core_shard.neighbor_seq()[m]))
                ==> final(self).core_shard != old(self).core_shard,
            old(self).core_slowed && old(dice).pending().len() > 0 ==> final(self).core_slowed
                == !roll_chance(old(dice).pending()[0], 1, 2),
    {
        if !self.core_slowed {
            if dice.chance(3, 10) {
                let core = self.core_shard;
                proof {
                    self.lemma_on_planet_interior(core);
                    lemma_neighbors_adjacent(core);
                }
                let ns = core.neighbors();
                let mut valid: Vec<HexCoord> = Vec::new();
                let mut m: usize = 0;
                while m < 6
                    invariant
                        m <= 6,
                        valid.len() <= m,
                        self.wf(),
                        *self == *old(self),
                        core == self.core_shard,
                        ns@ == core.neighbor_seq(),
                        forall|i: int| 0 <= i < 6 ==> #[trigger] core.dist(ns@[i]) == 1,
                        forall|k: int|
                            0 <= k < valid.len() ==> {
                                &&& core.dist(#[trigger] valid@[k]) == 1
                                &&& self.on_planet(valid@[k])
                                &&& !has_field(self.fields@, valid@[k])
                                &&& !has_hostile(self.hostiles@, valid@[k])
                            },
                        valid.len() == 0 ==> forall|i: int|
                            0 <= i < m ==> !(self.on_planet(#[trigger] ns@[i]) && !has_field(
                                self.fields@,
                                ns@[i],
                            ) && !has_hostile(self.hostiles@, ns@[i])),
                    decreases 6 - m,
                {
                    let n = ns[m];
                    assert(core.dist(ns@[m as int]) == 1);
                    if self.is_on_planet(&n) && self.field_index(&n).is_none()
                        && self.hostile_index(&n).is_none() {
                        valid.push(n);
                    }
                    m = m + 1;
                }
                if valid.len() > 0 {
                    let k = dice.range(0, valid.len() as i64 - 1);
                    self.core_shard = valid[k as usize];
                    assert(core.dist(valid@[k as int]) == 1);
                }
            }
        } else if dice.chance(1, 2) {
            self.core_slowed = false;
        }
    }

    /// A pulse field on `at` draws a radius of 1 or 2 and deals 1 to 4 damage to
    /// every hostile within it; adjacent hostiles are always hit.
    pub fn pulse_field(&mut self, at: HexCoord, dice: &mut Dice)
        requires
            old(self).wf_loose(),
        ensures
            final(self).wf_loose(),
            *final(self) == (RiftRunner { hostiles: final(self).hostiles, ..*old(self) }),
            final(self).hostiles@.len() == old(self).hostiles@.len(),
            forall|k: int|
                0 <= k < old(self).hostiles@.len() ==> {
                    &&& (#[trigger] final(self).hostiles@[k]).at == old(self).hostiles@[k].at
                    &&& final(self).hostiles@[k].essence <= old(self).hostiles@[k].essence
                    &&& (old(self).hostiles@[k].at.dist(at) <= 1 && old(self).hostiles@[k].essence
                        > 0 ==> final(self).hostiles@[k].essence < old(self).hostiles@[k].essence)
                    &&& (old(self).hostiles@[k].at.dist(at) > 2 ==> final(self).hostiles@[k]
                        == old(self).hostiles@[k])
                },
    {
        let radius = dice.range(1, 2);
        let mut j: usize = 0;
        while j < self.hostiles.len()
            invariant
                j <= self.hostiles.len(),
                1 <= radius <= 2,
                self.wf_loose(),
                *self == (RiftRunner { hostiles: self.hostiles, ..*old(self) }),
                self.hostiles@.len() == old(self).hostiles@.len(),
                forall|k: int|
                    0 <= k < old(self).hostiles@.len() ==> {
                        &&& (#[trigger] self.hostiles@[k]).at == old(self).hostiles@[k].at
                        &&& self.hostiles@[k].essence <= old(self).hostiles@[k].essence
                        &&& (k < j && old(self).hostiles@[k].at.dist(at) <= 1
                            && old(self).hostiles@[k].essence > 0 ==> self.hostiles@[k].essence
                            < old(self).hostiles@[k].essence)
                        &&& (k >= j || old(self).hostiles@[k].at.dist(at) > 2 ==> self.hostiles@[k]
                            == old(self).hostiles@[k])
                    },
            decreases old(self).hostiles@.len() - j,
        {
            let h = self.hostiles[j];
            if h.at.distance(&at) <= radius {
                let damage = dice.range(1, 4);
                let left = apply_damage(h.essence, damage);
                self.hostiles.set(j, Hostile { at: h.at, essence: left });
            }
            j = j + 1;
        }
    }

    /// The first hostile on the planet, in the planet's fixed hex order.
    pub fn first_hostile_on_planet(&self) -> (r: Option<usize>)
        requires
            self.wf_loose(),
        ensures
            r is None ==> self.hostiles@.len() == 0,
            r matches Some(j) ==> j < self.hostiles@.len() && self.first_occupied(
                self.hostiles@[j as int].at,
            ),
    {
        let cur = self.current_planet;
        proof {
            assert(self.planets@[cur as int].wf());
        }
        let mut i: usize = 0;
        while i < 7
            invariant
                i <= 7,
                cur == self.current_planet,
                self.wf_loose(),
                self.planets@[cur as int].hexes@.len() == 7,
                forall|m: int|
                    0 <= m < i ==> !has_hostile(self.hostiles@, #[trigger] self.planet().hexes@[m]),
            decreases 7 - i,
        {
            let hex = self.planets[cur].hexes[i];
            match self.hostile_index(&hex) {
                Some(j) => {
                    assert(self.planet().hexes@[i as int] == self.hostiles@[j as int].at);
                    return Some(j);
                },
                None => {},
            }
            i = i + 1;
        }
        proof {
            if self.hostiles@.len() > 0 {
                let h = self.hostiles@[0].at;
                assert(self.on_planet(h));
                crate::hex::lemma_cluster_is_ball(self.planet().center, h);
                let m = choose|m: int|
                    0 <= m < self.planet().hexes@.len() && self.planet().hexes@[m] == h;
                assert(has_hostile(self.hostiles@, self.planet().hexes@[m]));
            }
        }
        None
    }

    /// A weave field: with a chance of 0.4 it credits 10 to 25 energy, and then with
    /// a chance of 0.45 it may disrupt the first hostile on the planet for 1 damage.
    pub fn weave_field(&mut self, dice: &mut Dice)
        requires
            old(self).wf_loose(),
        ensures
            final(self).wf_loose(),
            *final(self) == (RiftRunner {
                hostiles: final(self).hostiles,
                rift_energy: final(self).rift_energy,
                ..*old(self)
            }),
            final(self).rift_energy == old(self).rift_energy || exists|k: int|
                10 <= k <= 25 && final(self).rift_energy == credit(old(self).rift_energy, k),
            final(self).hostiles@.len() == old(self).hostiles@.len(),
            forall|k: int|
                0 <= k < old(self).hostiles@.len() ==> {
                    &&& (#[trigger] final(self).hostiles@[k]).at == old(self).hostiles@[k].at
                    &&& final(self).hostiles@[k].essence <= old(self).hostiles@[k].essence
                    &&& (final(self).hostiles@[k].essence == old(self).hostiles@[k].essence || (
                    old(self).first_occupied(old(self).hostiles@[k].at)
                        && final(self).hostiles@[k].essence == damaged(
                        old(self).hostiles@[k].essence as int,
                        1,
                    )))
                },
    {
        if dice.chance(2, 5) {
            let energy = dice.range(10, 25);
            self.credit_energy(energy);
            if dice.chance(9, 20) {
                match self.first_hostile_on_planet() {
                    Some(j) => {
                        if dice.chance(3, 10) {
                            let h = self.hostiles[j];
                            let ghost before = self.hostiles@;
                            assert(before[j as int] == h);
                            let left = apply_damage(h.essence, 1);
                            self.hostiles.set(j, Hostile { at: h.at, essence: left });
                            proof {
                                assert forall|k: int| 0 <= k < before.len() implies (
                                #[trigger] self.hostiles@[k]).at == before[k].at && self.hostiles@[k].essence <= before[k].essence
                                    && (self.hostiles@[k].essence == before[k].essence || (
                                    old(self).first_occupied(before[k].at)
                                        && self.hostiles@[k].essence == damaged(before[k].essence as int, 1))) by {
                                    if k != j {
                                        assert(self.hostiles@[k] == before[k]);
                                    }
                                }
                            }
                        }
                    },
                    None => {},
                }
            }
        }
    }

    /// A temporal field on `at`: with a chance of 0.3 it shifts the first hostile
    /// within distance 2 that can be shifted to a random free neighbouring hex of the
    /// planet; if none moved, with a chance of 0.2 it puts a stasis marker on the
    /// first unmarked planet hex next to the field.
    pub fn temporal_field(&mut self, at: HexCoord, dice: &mut Dice)
        requires
            old(self).wf_loose(),
            old(self).on_planet(at),
        ensures
            final(self).wf_loose(),
            *final(self) == (RiftRunner {
                hostiles: final(self).hostiles,
                stasis_markers: final(self).stasis_markers,
                ..*old(self)
            }),
            final(self).hostiles@.len() == old(self).hostiles@.len(),
            forall|k: int|
                0 <= k < old(self).hostiles@.len() ==> (#[trigger] final(self).hostiles@[k]).essence
                    == old(self).hostiles@[k].essence,
            final(self).stasis_markers@.len() <= old(self).stasis_markers@.len() + 1,
    {
        if dice.chance(3, 10) {
            let mut moved = false;
            let mut j: usize = 0;
            while j < self.hostiles.len()
                invariant
                    j <= self.hostiles.len(),
                    self.wf_loose(),
                    *self == (RiftRunner { hostiles: self.hostiles, ..*old(self) }),
                    self.hostiles@.len() == old(self).hostiles@.len(),
                    forall|k: int|
                        0 <= k < old(self).hostiles@.len() ==> (#[trigger] self.hostiles@[k]).essence
                            == old(self).hostiles@[k].essence,
                decreases old(self).hostiles@.len() - j,
            {
                let h = self.hostiles[j];
                if !moved && h.at.distance(&at) <= 2 {
                    proof {
                        assert(self.on_planet(self.hostiles@[j as int].at));
                        self.lemma_on_planet_interior(h.at);
                    }
                    let ns = h.at.neighbors();
                    let k = dice.range(0, 5);
                    let dest = ns[k as usize];
                    if self.is_on_planet(&dest) && self.field_index(&dest).is_none()
                        && self.hostile_index(&dest).is_none() {
                        let ghost before = self.hostiles@;
                        self.hostiles.set(j, Hostile { at: dest, essence: h.essence });
                        proof {
                            crate::runner::lemma_hostiles_update(before, j as int, Hostile { at: dest, essence: h.essence });
                        }
                        moved = true;
                    }
                }
                j = j + 1;
            }
            if !moved && dice.chance(1, 5) {
                proof {
                    self.lemma_on_planet_interior(at);
                }
                let ns = at.neighbors();
                let mut m: usize = 0;
                let mut placed = false;
                while m < 6
                    invariant
                        m <= 6,
                        ns@.len() == 6,
                        self.wf_loose(),
                        *self == (RiftRunner {
                            hostiles: self.hostiles,
                            stasis_markers: self.stasis_markers,
                            ..*old(self)
                        }),
                        self.hostiles@.len() == old(self).hostiles@.len(),
                        forall|k: int|
                            0 <= k < old(self).hostiles@.len() ==> (
                            #[trigger] self.hostiles@[k]).essence == old(self).hostiles@[k].essence,
                        placed ==> self.stasis_markers@.len() == old(self).stasis_markers@.len() + 1,
                        !placed ==> self.stasis_markers@.len() == old(self).stasis_markers@.len(),
                    decreases 6 - m,
                {
                    let n = ns[m];
                    if !placed && self.is_on_planet(&n) && self.stasis_index(&n).is_none() {
                        let ghost before = self.stasis_markers@;
                        self.stasis_markers.push(n);
                        proof {
                            assert forall|a: int, b: int|
                                0 <= a < self.stasis_markers@.len() && 0 <= b
                                    < self.stasis_markers@.len() && a != b implies self.stasis_markers@[a]
                                != self.stasis_markers@[b] by {
                                if a < before.len() && b < before.len() {
                                    assert(self.stasis_markers@[a] == before[a]);
                                    assert(self.stasis_markers@[b] == before[b]);
                                } else if a < before.len() {
                                    assert(self.stasis_markers@[a] == before[a]);
                                    if before[a] == n {
                                        assert(before.contains(n));
                                    }
                                } else {
                                    assert(self.stasis_markers@[b] == before[b]);
                                    if before[b] == n {
                                        assert(before.contains(n));
                                    }
                                }
                            }
                            assert forall|a: int| 0 <= a < self.stasis_markers@.len() implies self.on_planet(
                                #[trigger] self.stasis_markers@[a],
                            ) by {
                                if a < before.len() {
                                    assert(self.stasis_markers@[a] == before[a]);
                                }
                            }
                        }
                        placed = true;
                    }
                    m = m + 1;
                }
            }
        }
    }
    /// Removes every hostile whose essence is gone, counting each as dissolved once.
    pub fn remove_dissolved(&mut self) -> (removed: u64)
        requires
            old(self).wf_loose(),
        ensures
            final(self).wf(),
            final(self).hostiles@ == old(self).hostiles@.filter(alive()),
            removed == old(self).hostiles@.len() - final(self).hostiles@.len(),
            final(self).dissolved_count == tally(old(self).dissolved_count, removed as int),
            *final(self) == (RiftRunner {
                hostiles: final(self).hostiles,
                dissolved_count: final(self).dissolved_count,
                ..*old(self)
            }),
            forall|k: int|
                0 <= k < final(self).hostiles@.len() ==> old(self).hostiles@.contains(
                    #[trigger] final(self).hostiles@[k],
                ),
            forall|m: int|
                0 <= m < old(self).hostiles@.len() && (#[trigger] old(self).hostiles@[m]).essence
                    <= 0 ==> removed > 0,
    {
        let mut kept: Vec<Hostile> = Vec::new();
        let mut i: usize = 0;
        while i < self.hostiles.len()
            invariant
                i <= self.hostiles.len(),
                *self == *old(self),
                self.wf_loose(),
                kept.len() <= i,
                kept@ == self.hostiles@.subrange(0, i as int).filter(alive()),
                distinct_hostiles(kept@),
                forall|k: int|
                    0 <= k < kept.len() ==> exists|m: int|
                        0 <= m < i && #[trigger] kept@[k] == self.hostiles@[m],
                forall|k: int| 0 <= k < kept.len() ==> (#[trigger] kept@[k]).essence > 0,
                forall|m: int|
                    0 <= m < i && (#[trigger] self.hostiles@[m]).essence <= 0 ==> kept.len() < i,
            decreases self.hostiles.len() - i,
        {
            let h = self.hostiles[i];
            proof {
                reveal(Seq::filter);
                assert(self.hostiles@.subrange(0, i + 1).drop_last() =~= self.hostiles@.subrange(
                    0,
                    i as int,
                ));
                assert(self.hostiles@.subrange(0, i + 1).last() == h);
            }
            if h.essence > 0 {
                let ghost before = kept@;
                kept.push(h);
                proof {
                    assert forall|k: int| 0 <= k < kept.len() implies exists|m: int|
                        0 <= m < i + 1 && #[trigger] kept@[k] == self.hostiles@[m] by {
                        if k < before.len() {
                            assert(kept@[k] == before[k]);
                        } else {
                            assert(kept@[k] == self.hostiles@[i as int]);
                        }
                    }
                    assert forall|a: int, b: int|
                        0 <= a < kept.len() && 0 <= b < kept.len() && a != b implies #[trigger] kept@[a].at
                        != #[trigger] kept@[b].at by {
                        if a < before.len() && b < before.len() {
                            assert(kept@[a] == before[a]);
                            assert(kept@[b] == before[b]);
                        } else if a < before.len() {
                            assert(kept@[a] == before[a]);
                            let m = choose|m: int| 0 <= m < i && #[trigger] before[a] == self.hostiles@[m];
                            assert(self.hostiles@[m].at != self.hostiles@[i as int].at);
                        } else {
                            assert(kept@[b] == before[b]);
                            let m = choose|m: int| 0 <= m < i && #[trigger] before[b] == self.hostiles@[m];
                            assert(self.hostiles@[m].at != self.hostiles@[i as int].at);
                        }
                    }
                }
            }
            i = i + 1;
        }
        proof {
            assert(self.hostiles@.subrange(0, i as int) =~= self.hostiles@);
            assert forall|k: int| 0 <= k < kept.len() implies {
                &&& self.on_planet((#[trigger] kept@[k]).at)
                &&& 0 <= kept@[k].essence
            } by {
                let m = choose|m: int| 0 <= m < i && #[trigger] kept@[k] == self.hostiles@[m];
                assert(self.hostiles@[m] == kept@[k]);
            }
        }
        proof {
            assert forall|k: int| 0 <= k < kept.len() implies old(self).hostiles@.contains(
                #[trigger] kept@[k],
            ) by {
                let m = choose|m: int| 0 <= m < i && #[trigger] kept@[k] == self.hostiles@[m];
                assert(old(self).hostiles@[m] == kept@[k]);
            }
        }
        let removed: u64 = (self.hostiles.len() - kept.len()) as u64;
        self.hostiles = kept;
        if self.dissolved_count > u64::MAX - removed {
            self.dissolved_count = u64::MAX;
        } else {
            self.dissolved_count = self.dissolved_count + removed;
        }
        removed
    }

    /// Field resolution: every field acts once, in deployment order, then the
    /// hostiles whose essence is gone are removed and counted as dissolved.
    pub fn resolve_fields(&mut self, dice: &mut Dice) -> (removed: u64)
        requires
            old(self).wf(),
        ensures
            final(self).wf(),
            *final(self) == (RiftRunner {
                hostiles: final(self).hostiles,
                stasis_markers: final(self).stasis_markers,
                rift_energy: final(self).rift_energy,
                dissolved_count: final(self).dissolved_count,
                ..*old(self)
            }),
            final(self).rift_energy >= old(self).rift_energy,
            final(self).rift_energy <= old(self).rift_energy + 25 * count_kind(
                old(self).fields@,
                FieldKind::Weave,
            ),
            removed + final(self).hostiles@.len() == old(self).hostiles@.len(),
            final(self).dissolved_count == tally(old(self).dissolved_count, removed as int),
            no_temporal(old(self).fields@) ==> forall|k: int|
                0 <= k < final(self).hostiles@.len() ==> pulsed_survivor(
                    #[trigger] final(self).hostiles@[k],
                    old(self).hostiles@,
                    old(self).fields@,
                ),
            no_temporal(old(self).fields@) ==> forall|m: int|
                0 <= m < old(self).hostiles@.len() && (#[trigger] old(self).hostiles@[m]).essence == 1
                    && pulse_near(old(self).fields@, old(self).hostiles@[m].at) ==> removed > 0
                    && !has_hostile(final(self).hostiles@, old(self).hostiles@[m].at),
    {
        let mut fi: usize = 0;
        while fi < self.fields.len()
            invariant
                fi <= self.fields.len(),
                self.wf_loose(),
                *self == (RiftRunner {
                    hostiles: self.hostiles,
                    stasis_markers: self.stasis_markers,
                    rift_energy: self.rift_energy,
                    ..*old(self)
                }),
                self.hostiles@.len() == old(self).hostiles@.len(),
                self.rift_energy >= old(self).rift_energy,
                self.rift_energy <= old(self).rift_energy + 25 * count_kind(
                    self.fields@.subrange(0, fi as int),
                    FieldKind::Weave,
                ),
                no_temporal(self.fields@) ==> forall|k: int|
                    0 <= k < old(self).hostiles@.len() ==> {
                        &&& (#[trigger] self.hostiles@[k]).at == old(self).hostiles@[k].at
                        &&& self.hostiles@[k].essence <= old(self).hostiles@[k].essence
                        &&& (pulse_near(self.fields@.subrange(0, fi as int), old(self).hostiles@[k].at)
                            && old(self).hostiles@[k].essence > 0 ==> self.hostiles@[k].essence
                            < old(self).hostiles@[k].essence)
                    },
            decreases self.fields.len() - fi,
        {
            let f = self.fields[fi];
            proof {
                assert(self.on_planet(self.fields@[fi as int].at));
                lemma_count_prefix(self.fields@, fi as int, FieldKind::Weave);
            }
            let ghost before = *self;
            match f.kind {
                FieldKind::Pulse => self.pulse_field(f.at, dice),
                FieldKind::Weave => self.weave_field(dice),
                FieldKind::Temporal => self.temporal_field(f.at, dice),
            }
            proof {
                let pre = self.fields@.subrange(0, fi as int);
                let post = self.fields@.subrange(0, fi + 1);
                assert(post[fi as int] == f);
                if no_temporal(self.fields@) {
                    assert(self.fields@[fi as int].kind != FieldKind::Temporal);
                    assert forall|k: int| 0 <= k < old(self).hostiles@.len() implies {
                        &&& (#[trigger] self.hostiles@[k]).at == old(self).hostiles@[k].at
                        &&& self.hostiles@[k].essence <= old(self).hostiles@[k].essence
                        &&& (pulse_near(post, old(self).hostiles@[k].at) && old(self).hostiles@[k].essence
                            > 0 ==> self.hostiles@[k].essence < old(self).hostiles@[k].essence)
                    } by {
                        assert(before.hostiles@[k].at == old(self).hostiles@[k].at);
                        if pulse_near(post, old(self).hostiles@[k].at) && old(self).hostiles@[k].essence > 0 {
                            let w = choose|w: int| 0 <= w < post.len() && post[w].kind == FieldKind::Pulse && #[trigger] post[w].at.dist(old(self).hostiles@[k].at) <= 1;
                            if w < fi {
                                assert(pre[w] == post[w]);
                                assert(pulse_near(pre, old(self).hostiles@[k].at));
                            } else {
                                assert(f.kind == FieldKind::Pulse);
                                assert(before.hostiles@[k].at.dist(f.at) <= 1) by {
                                    crate::hex::lemma_distance_symmetric(f.at, before.hostiles@[k].at);
                                }
                            }
                        }
                    }
                }
            }
            fi = fi + 1;
        }
        proof {
            assert(self.fields@.subrange(0, fi as int) =~= self.fields@);
        }
        let ghost pre = self.hostiles@;
        let removed = self.remove_dissolved();
        proof {
            if no_temporal(old(self).fields@) {
                assert forall|m: int|
                    0 <= m < old(self).hostiles@.len() && (#[trigger] old(self).hostiles@[m]).essence == 1
                        && pulse_near(old(self).fields@, old(self).hostiles@[m].at) implies removed > 0
                        && !has_hostile(self.hostiles@, old(self).hostiles@[m].at) by {
                    assert(pre[m].essence <= 0);
                    if has_hostile(self.hostiles@, old(self).hostiles@[m].at) {
                        let k = choose|k: int| 0 <= k < self.hostiles@.len() && #[trigger] self.hostiles@[k].at == old(self).hostiles@[m].at;
                        let m2 = choose|m2: int| 0 <= m2 < pre.len() && pre[m2] == #[trigger] self.hostiles@[k];
                        assert(pre[m2].at == pre[m].at);
                        assert(1 <= self.hostiles@[k].essence);
                    }
                }
                assert forall|k: int| 0 <= k < self.hostiles@.len() implies pulsed_survivor(
                    #[trigger] self.hostiles@[k],
                    old(self).hostiles@,
                    old(self).fields@,
                ) by {
                    let m2 = choose|m2: int| 0 <= m2 < pre.len() && pre[m2] == #[trigger] self.hostiles@[k];
                    assert(pre[m2] == self.hostiles@[k]);
                    assert(1 <= self.hostiles@[k].essence);
                    assert(pre[m2].at == old(self).hostiles@[m2].at);
                    assert(self.hostiles@[k].at == old(self).hostiles@[m2].at);
                    assert(self.hostiles@[k].essence <= old(self).hostiles@[m2].essence);
                    assert(1 <= old(self).hostiles@[m2].essence);
                    assert(pulse_near(old(self).fields@, old(self).hostiles@[m2].at)
                        ==> self.hostiles@[k].essence < old(self).hostiles@[m2].essence);
                }
            }
        }
        removed
    }

    /// Whether `c` is listed.
    fn listed(list: &Vec<HexCoord>, c: &HexCoord) -> (r: bool)
        ensures
            r == list@.contains(*c),
    {
        let mut i: usize = 0;
        while i < list.len()
            invariant
                i <= list.len(),
                forall|k: int| 0 <= k < i ==> list@[k] != *c,
            decreases list.len() - i,
        {
            if list[i] == *c {
                assert(list@[i as int] == *c);
                return true;
            }
            i = i + 1;
        }
        false
    }

    /// The neighbour of `from` a hostile steps to: among the planet's neighbouring
    /// hexes without a field, the first in direction order that is closest to the
    /// core shard and strictly closer than `from`; `from` itself if there is none.
    #[verifier::rlimit(40)]
    pub fn step_toward_core(&self, from: HexCoord) -> (next: HexCoord)
        requires
            self.wf_loose(),
            self.on_planet(from),
        ensures
            next == self.step(from),
            next == from || {
                &&& from.dist(next) == 1
                &&& self.on_planet(next)
                &&& !has_field(self.fields@, next)
                &&& next.dist(self.core_shard) < from.dist(self.core_shard)
            },
            forall|m: int|
                0 <= m < 6 && self.on_planet(#[trigger] from.neighbor_seq()[m]) && !has_field(
                    self.fields@,
                    from.neighbor_seq()[m],
                ) ==> next.dist(self.core_shard) <= from.neighbor_seq()[m].dist(self.core_shard),
    {
        proof {
            self.lemma_on_planet_interior(from);
            lemma_neighbors_adjacent(from);
        }
        let ns = from.neighbors();
        let mut next = from;
        let mut best = from.distance(&self.core_shard);
        let mut m: usize = 0;
        while m < 6
            invariant
                m <= 6,
                self.wf_loose(),
                ns@ == from.neighbor_seq(),
                forall|i: int| 0 <= i < 6 ==> #[trigger] from.dist(ns@[i]) == 1,
                best == next.dist(self.core_shard),
                next == step_upto(self.fields@, self.planet(), self.core_shard, from, m as int),
                next == from || {
                    &&& from.dist(next) == 1
                    &&& self.on_planet(next)
                    &&& !has_field(self.fields@, next)
                    &&& next.dist(self.core_shard) < from.dist(self.core_shard)
                },
                best <= from.dist(self.core_shard),
                forall|i: int|
                    0 <= i < m && self.on_planet(#[trigger] ns@[i]) && !has_field(self.fields@, ns@[i])
                        ==> best <= ns@[i].dist(self.core_shard),
            decreases 6 - m,
        {
            let n = ns[m];
            assert(from.dist(ns@[m as int]) == 1);
            let ghost prev = next;
            if self.is_on_planet(&n) && self.field_index(&n).is_none() {
                let d = n.distance(&self.core_shard);
                if d < best {
                    best = d;
                    next = n;
                }
            }
            assert(step_upto(self.fields@, self.planet(), self.core_shard, from, m + 1) == (if self.planet().holds(n) && !has_field(self.fields@, n) && n.dist(self.core_shard) < prev.dist(self.core_shard) { n } else { prev }));
            m = m + 1;
        }
        next
    }

    /// A hostile on `from` may spit acid: scanning its neighbours in direction order,
    /// the core shard is slowed, or a field may be queued for corrosion.
    fn hostile_attack(
        &mut self,
        from: HexCoord,
        archetype: Archetype,
        corrode: &mut Vec<HexCoord>,
        dice: &mut Dice,
    )
        requires
            old(self).wf(),
            old(self).on_planet(from),
        ensures
            final(self).wf(),
            *final(self) == (RiftRunner { core_slowed: final(self).core_slowed, ..*old(self) }),
            old(self).core_slowed ==> final(self).core_slowed,
            final(corrode)@.len() <= old(corrode)@.len() + 1,
    {
        let spits = if archetype == Archetype::Staregazers {
            if dice.chance(1, 2) {
                dice.chance(1, 4)
            } else {
                false
            }
        } else {
            dice.chance(1, 4)
        };
        if spits {
            proof {
                self.lemma_on_planet_interior(from);
            }
            let ns = from.neighbors();
            let mut done = false;
            let mut m: usize = 0;
            while m < 6
                invariant
                    m <= 6,
                    ns@.len() == 6,
                    self.wf(),
                    *self == (RiftRunner { core_slowed: self.core_slowed, ..*old(self) }),
                    old(self).core_slowed ==> self.core_slowed,
                    corrode@.len() <= old(corrode)@.len() + 1,
                    !done ==> corrode@.len() == old(corrode)@.len(),
                decreases 6 - m,
            {
                let n = ns[m];
                if !done {
                    if n == self.core_shard {
                        self.core_slowed = true;
                        done = true;
                    } else if self.field_index(&n).is_some() {
                        if dice.chance(3, 10) {
                            corrode.push(n);
                            done = true;
                        }
                    }
                }
                m = m + 1;
            }
        }
    }

    /// Removes the stasis marker at index `si`.
    fn remove_marker(&mut self, si: usize)
        requires
            old(self).wf(),
            si < old(self).stasis_markers@.len(),
        ensures
            final(self).wf(),
            *final(self) == (RiftRunner { stasis_markers: final(self).stasis_markers, ..*old(self) }),
            final(self).stasis_markers@ == old(self).stasis_markers@.remove(si as int),
            forall|c: HexCoord| #[trigger]
                final(self).stasis_markers@.contains(c) <==> (old(self).stasis_markers@.contains(c)
                    && c != old(self).stasis_markers@[si as int]),
    {
        let ghost before = self.stasis_markers@;
        self.stasis_markers.remove(si);
        proof {
            let after = self.stasis_markers@;
            assert forall|k: int| 0 <= k < after.len() implies after[k] == (if k < si {
                before[k]
            } else {
                before[k + 1]
            }) by {}
            assert forall|a: int| 0 <= a < after.len() implies self.on_planet(#[trigger] after[a]) by {
                if a < si {
                    assert(after[a] == before[a]);
                } else {
                    assert(after[a] == before[a + 1]);
                }
            }
            assert forall|a: int, b: int|
                0 <= a < after.len() && 0 <= b < after.len() && a != b implies after[a] != after[b] by {
                let oa = if a < si { a } else { a + 1 };
                let ob = if b < si { b } else { b + 1 };
                assert(after[a] == before[oa]);
                assert(after[b] == before[ob]);
            }
            assert forall|c: HexCoord| #[trigger] after.contains(c) <==> (before.contains(c) && c
                != before[si as int]) by {
                if after.contains(c) {
                    let a = choose|a: int| 0 <= a < after.len() && after[a] == c;
                    let oa = if a < si { a } else { a + 1 };
                    assert(after[a] == before[oa]);
                }
                if before.contains(c) && c != before[si as int] {
                    let b = choose|b: int| 0 <= b < before.len() && before[b] == c;
                    let nb = if b < si { b } else { b - 1 };
                    assert(after[nb] == c);
                }
            }
        }
    }

    /// Hostile actions: each hostile, in order, may spit acid and picks its step
    /// toward the core shard; a stasis marker on the step is consumed instead of
    /// moving. Queued steps onto hexes still free are then taken, and queued
    /// corrosions remove their fields.
    pub fn resolve_hostiles(&mut self, dice: &mut Dice)
        requires
            old(self).wf(),
        ensures
            final(self).wf(),
            *final(self) == (RiftRunner {
                hostiles: final(self).hostiles,
                fields: final(self).fields,
                stasis_markers: final(self).stasis_markers,
                core_slowed: final(self).core_slowed,
                ..*old(self)
            }),
            old(self).core_slowed ==> final(self).core_slowed,
            final(self).fields@.len() <= old(self).fields@.len(),
            forall|i: int|
                0 <= i < final(self).fields@.len() ==> old(self).fields@.contains(
                    #[trigger] final(self).fields@[i],
                ),
            forall|kind: FieldKind|
                #[trigger] count_kind(final(self).fields@, kind) <= count_kind(old(self).fields@, kind),
            final(self).stasis_markers@.len() <= old(self).stasis_markers@.len(),
            forall|c: HexCoord| #[trigger]
                final(self).stasis_markers@.contains(c) ==> old(self).stasis_markers@.contains(c),
            final(self).hostiles@.len() == old(self).hostiles@.len(),
            forall|j: int|
                0 <= j < old(self).hostiles@.len() ==> {
                    &&& (#[trigger] final(self).hostiles@[j]).essence == old(self).hostiles@[j].essence
                    &&& (final(self).hostiles@[j].at == old(self).hostiles@[j].at
                        || final(self).hostiles@[j].at == old(self).target_of(j))
                    &&& (final(self).hostiles@[j].at == old(self).hostiles@[j].at || {
                        &&& old(self).hostiles@[j].at.dist(final(self).hostiles@[j].at) == 1
                        &&& final(self).hostiles@[j].at.dist(old(self).core_shard) < old(self).hostiles@[j].at.dist(old(self).core_shard)
                    })
                },
            forall|j: int|
                0 <= j < old(self).hostiles@.len() && #[trigger] old(self).advances(j)
                    && !old(self).stasis_markers@.contains(old(self).target_of(j)) && !has_hostile(
                    old(self).hostiles@,
                    old(self).target_of(j),
                ) ==> has_hostile(final(self).hostiles@, old(self).target_of(j)),
            forall|j: int|
                0 <= j < old(self).hostiles@.len() && #[trigger] old(self).advances(j)
                    && old(self).stasis_markers@.contains(old(self).target_of(j))
                    ==> !final(self).stasis_markers@.contains(old(self).target_of(j)),
            forall|j: int|
                0 <= j < old(self).hostiles@.len() && #[trigger] old(self).advances(j)
                    && old(self).stasis_markers@.contains(old(self).target_of(j)) && (forall|i: int|
                    0 <= i < j ==> !(old(self).advances(i) && #[trigger] old(self).target_of(i)
                        == old(self).target_of(j))) ==> final(self).hostiles@[j].at == old(self).hostiles@[j].at,
    {
        let cur = self.current_planet;
        let archetype = self.planets[cur].archetype;
        let mut corrode: Vec<HexCoord> = Vec::new();
        let mut moves: Vec<(usize, HexCoord)> = Vec::new();
        let mut j: usize = 0;
        while j < self.hostiles.len()
            invariant
                j <= self.hostiles.len(),
                self.wf(),
                *self == (RiftRunner {
                    stasis_markers: self.stasis_markers,
                    core_slowed: self.core_slowed,
                    ..*old(self)
                }),
                old(self).core_slowed ==> self.core_slowed,
                self.stasis_markers@.len() <= old(self).stasis_markers@.len(),
                forall|k: int|
                    0 <= k < moves.len() ==> {
                        &&& (#[trigger] moves@[k]).0 < j
                        &&& moves@[k].1 == old(self).target_of(moves@[k].0 as int)
                        &&& old(self).advances(moves@[k].0 as int)
                        &&& !has_hostile(old(self).hostiles@, moves@[k].1)
                        &&& old(self).hostiles@[moves@[k].0 as int].at.dist(moves@[k].1) == 1
                        &&& self.on_planet(moves@[k].1)
                        &&& moves@[k].1.dist(old(self).core_shard) < old(self).hostiles@[moves@[k].0 as int].at.dist(
                            old(self).core_shard,
                        )
                    },
                forall|a: int, b: int|
                    0 <= a < b < moves.len() ==> (#[trigger] moves@[a]).0 < (#[trigger] moves@[b]).0,
                forall|c: HexCoord| #[trigger]
                    self.stasis_markers@.contains(c) ==> old(self).stasis_markers@.contains(c),
                forall|c: HexCoord|
                    #[trigger] old(self).stasis_markers@.contains(c) && !self.stasis_markers@.contains(c)
                        ==> exists|i: int|
                        0 <= i < j && old(self).advances(i) && #[trigger] old(self).target_of(i) == c,
                forall|i: int|
                    0 <= i < j && #[trigger] old(self).advances(i) && old(self).stasis_markers@.contains(
                        old(self).target_of(i),
                    ) ==> !self.stasis_markers@.contains(old(self).target_of(i)),
                forall|i: int|
                    0 <= i < j && #[trigger] old(self).advances(i) && !old(self).stasis_markers@.contains(
                        old(self).target_of(i),
                    ) && !has_hostile(old(self).hostiles@, old(self).target_of(i)) ==> exists|k: int|
                        0 <= k < moves.len() && (#[trigger] moves@[k]).0 == i,
                forall|k: int|
                    0 <= k < moves.len() && old(self).stasis_markers@.contains(
                        (#[trigger] moves@[k]).1,
                    ) ==> exists|i: int|
                        0 <= i < moves@[k].0 && old(self).advances(i) && #[trigger] old(self).target_of(i)
                            == moves@[k].1,
            decreases old(self).hostiles@.len() - j,
        {
            let h = self.hostiles[j];
            proof {
                assert(self.on_planet(self.hostiles@[j as int].at));
            }
            let ghost mid = *self;
            self.hostile_attack(h.at, archetype, &mut corrode, dice);
            let next = self.step_toward_core(h.at);
            assert(next == old(self).target_of(j as int));
            if next != h.at {
                match self.stasis_index(&next) {
                    Some(si) => {
                        self.remove_marker(si);
                    },
                    None => {
                        if self.hostile_index(&next).is_none() {
                            let ghost before = moves@;
                            moves.push((j, next));
                            proof {
                                assert forall|k: int| 0 <= k < moves.len() implies (#[trigger] moves@[k]).0 < j + 1 by {
                                    if k < before.len() {
                                        assert(moves@[k] == before[k]);
                                    }
                                }
                                assert(moves@[before.len() as int] == (j, next));
                                assert forall|k: int|
                                    0 <= k < moves.len() && old(self).stasis_markers@.contains(
                                        (#[trigger] moves@[k]).1,
                                    ) implies exists|i: int|
                                    0 <= i < moves@[k].0 && old(self).advances(i)
                                        && #[trigger] old(self).target_of(i) == moves@[k].1 by {
                                    if k < before.len() {
                                        assert(moves@[k] == before[k]);
                                    }
                                }
                                assert forall|i: int|
                                    0 <= i < j + 1 && #[trigger] old(self).advances(i)
                                        && !old(self).stasis_markers@.contains(old(self).target_of(i))
                                        && !has_hostile(old(self).hostiles@, old(self).target_of(i))
                                        implies exists|k: int|
                                    0 <= k < moves.len() && (#[trigger] moves@[k]).0 == i by {
                                    if i < j {
                                        let k0 = choose|k: int| 0 <= k < before.len() && (#[trigger] before[k]).0 == i;
                                        assert(moves@[k0] == before[k0]);
                                    } else {
                                        assert(moves@[before.len() as int].0 == i);
                                    }
                                }
                            }
                        }
                    },
                }
            }
            j = j + 1;
        }
        let ghost scanned = *self;
        let mut k: usize = 0;
        while k < moves.len()
            invariant
                k <= moves.len(),
                self.wf(),
                *self == (RiftRunner { hostiles: self.hostiles, ..scanned }),
                scanned.hostiles == old(self).hostiles,
                scanned.core_shard == old(self).core_shard,
                scanned.planets == old(self).planets,
                scanned.current_planet == old(self).current_planet,
                self.hostiles@.len() == old(self).hostiles@.len(),
                forall|m: int|
                    0 <= m < moves.len() ==> {
                        &&& (#[trigger] moves@[m]).0 < old(self).hostiles@.len()
                        &&& moves@[m].1 == old(self).target_of(moves@[m].0 as int)
                        &&& !has_hostile(old(self).hostiles@, moves@[m].1)
                        &&& old(self).hostiles@[moves@[m].0 as int].at.dist(moves@[m].1) == 1
                        &&& self.on_planet(moves@[m].1)
                        &&& moves@[m].1.dist(old(self).core_shard) < old(self).hostiles@[moves@[m].0 as int].at.dist(
                            old(self).core_shard,
                        )
                    },
                forall|a: int, b: int|
                    0 <= a < b < moves.len() ==> (#[trigger] moves@[a]).0 < (#[trigger] moves@[b]).0,
                forall|i: int|
                    0 <= i < old(self).hostiles@.len() ==> {
                        &&& (#[trigger] self.hostiles@[i]).essence == old(self).hostiles@[i].essence
                        &&& (self.hostiles@[i].at == old(self).hostiles@[i].at || exists|m: int|
                            0 <= m < k && (#[trigger] moves@[m]).0 == i && self.hostiles@[i].at
                                == moves@[m].1)
                    },
                forall|m: int| 0 <= m < k ==> has_hostile(self.hostiles@, (#[trigger] moves@[m]).1),
            decreases moves.len() - k,
        {
            let (j, to) = moves[k];
            assert(moves@[k as int] == (j, to));
            if self.hostile_index(&to).is_none() {
                let e = self.hostiles[j].essence;
                let ghost before = self.hostiles@;
                self.hostiles.set(j, Hostile { at: to, essence: e });
                proof {
                    crate::runner::lemma_hostiles_update(before, j as int, Hostile { at: to, essence: e });
                    assert forall|i: int| 0 <= i < self.hostiles@.len() implies {
                        &&& self.on_planet((#[trigger] self.hostiles@[i]).at)
                        &&& 0 <= self.hostiles@[i].essence
                        &&& 1 <= self.hostiles@[i].essence
                    } by {
                        if i != j {
                            assert(self.hostiles@[i] == before[i]);
                        }
                    }
                    assert forall|i: int| 0 <= i < old(self).hostiles@.len() implies {
                        &&& (#[trigger] self.hostiles@[i]).essence == old(self).hostiles@[i].essence
                        &&& (self.hostiles@[i].at == old(self).hostiles@[i].at || exists|m: int|
                            0 <= m < k + 1 && (#[trigger] moves@[m]).0 == i && self.hostiles@[i].at
                                == moves@[m].1)
                    } by {
                        if i != j {
                            assert(self.hostiles@[i] == before[i]);
                        } else {
                            assert(moves@[k as int].0 == i);
                        }
                    }
                    assert forall|m: int| 0 <= m < k + 1 implies has_hostile(self.hostiles@, (#[trigger] moves@[m]).1) by {
                        if m == k {
                            assert(self.hostiles@[j as int].at == to);
                        } else {
                            let w = choose|w: int| 0 <= w < before.len() && #[trigger] before[w].at == moves@[m].1;
                            if w == j {
                                if before[w].at != old(self).hostiles@[w].at {
                                    let m2 = choose|m2: int| 0 <= m2 < k && (#[trigger] moves@[m2]).0 == w && before[w].at == moves@[m2].1;
                                    assert(moves@[m2].0 < moves@[k as int].0);
                                }
                                assert(false);
                            }
                            assert(self.hostiles@[w] == before[w]);
                        }
                    }
                }
            }
            k = k + 1;
        }
        proof {
            assert forall|i: int| 0 <= i < old(self).hostiles@.len() implies (#[trigger] self.hostiles@[i]).at
                == old(self).hostiles@[i].at || self.hostiles@[i].at == old(self).target_of(i) by {
                if self.hostiles@[i].at != old(self).hostiles@[i].at {
                    let m = choose|m: int| 0 <= m < k && (#[trigger] moves@[m]).0 == i && self.hostiles@[i].at == moves@[m].1;
                }
            }
        }
        let ghost moved = *self;
        let mut kept: Vec<Field> = Vec::new();
        let mut i: usize = 0;
        while i < self.fields.len()
            invariant
                i <= self.fields.len(),
                *self == moved,
                self.wf(),
                kept.len() <= i,
                distinct_fields(kept@),
                forall|k: int|
                    0 <= k < kept.len() ==> exists|m: int|
                        0 <= m < i && #[trigger] kept@[k] == self.fields@[m],
                forall|kind: FieldKind|
                    #[trigger] count_kind(kept@, kind) <= count_kind(self.fields@.subrange(0, i as int), kind),
            decreases self.fields.len() - i,
        {
            let f = self.fields[i];
            proof {
                assert forall|kind: FieldKind| #[trigger] count_kind(self.fields@.subrange(0, i + 1), kind)
                    == count_kind(self.fields@.subrange(0, i as int), kind) + if f.kind == kind {
                    1nat
                } else {
                    0nat
                } by {
                    lemma_count_prefix(self.fields@, i as int, kind);
                }
            }
            if !RiftRunner::listed(&corrode, &f.at) {
                let ghost before = kept@;
                kept.push(f);
                proof {
                    assert(kept@.drop_last() =~= before);
                    assert forall|kind: FieldKind| #[trigger] count_kind(kept@, kind) <= count_kind(
                        self.fields@.subrange(0, i + 1),
                        kind,
                    ) by {
                        assert(count_kind(kept@, kind) == count_kind(before, kind) + if f.kind == kind {
                            1nat
                        } else {
                            0nat
                        });
                    }
                    assert forall|k: int| 0 <= k < kept.len() implies exists|m: int|
                        0 <= m < i + 1 && #[trigger] kept@[k] == self.fields@[m] by {
                        if k < before.len() {
                            assert(kept@[k] == before[k]);
                        } else {
                            assert(kept@[k] == self.fields@[i as int]);
                        }
                    }
                    assert forall|a: int, b: int|
                        0 <= a < kept.len() && 0 <= b < kept.len() && a != b implies #[trigger] kept@[a].at
                        != #[trigger] kept@[b].at by {
                        if a < before.len() && b < before.len() {
                            assert(kept@[a] == before[a]);
                            assert(kept@[b] == before[b]);
                        } else if a < before.len() {
                            assert(kept@[a] == before[a]);
                            let m = choose|m: int| 0 <= m < i && #[trigger] before[a] == self.fields@[m];
                            assert(self.fields@[m].at != self.fields@[i as int].at);
                        } else {
                            assert(kept@[b] == before[b]);
                            let m = choose|m: int| 0 <= m < i && #[trigger] before[b] == self.fields@[m];
                            assert(self.fields@[m].at != self.fields@[i as int].at);
                        }
                    }
                }
            }
            i = i + 1;
        }
        proof {
            assert(self.fields@.subrange(0, i as int) =~= self.fields@);
            assert forall|k: int| 0 <= k < kept.len() implies self.on_planet(
                (#[trigger] kept@[k]).at,
            ) && self.fields@.contains(kept@[k]) by {
                let m = choose|m: int| 0 <= m < i && #[trigger] kept@[k] == self.fields@[m];
                assert(self.fields@[m] == kept@[k]);
            }
        }
        self.fields = kept;
    }

    /// The Staregazers' shadows: the first field, in deployment order, whose randomly
    /// drawn neighbouring hex is on the planet and free of fields and hostiles moves
    /// there. Returns whether one moved.
    pub fn shift_field(&mut self, dice: &mut Dice) -> (moved: bool)
        requires
            old(self).wf(),
        ensures
            final(self).wf(),
            *final(self) == (RiftRunner { fields: final(self).fields, ..*old(self) }),
            final(self).fields@.len() == old(self).fields@.len(),
            forall|i: int|
                0 <= i < old(self).fields@.len() ==> (#[trigger] final(self).fields@[i]).kind == old(self).fields@[i].kind,
            !moved ==> final(self).fields@ == old(self).fields@,
    {
        let mut moved = false;
        let mut i: usize = 0;
        while i < self.fields.len()
            invariant
                i <= self.fields.len(),
                self.wf(),
                *self == (RiftRunner { fields: self.fields, ..*old(self) }),
                self.fields@.len() == old(self).fields@.len(),
                forall|a: int|
                    0 <= a < old(self).fields@.len() ==> (#[trigger] self.fields@[a]).kind == old(self).fields@[a].kind,
                !moved ==> self.fields@ == old(self).fields@,
            decreases self.fields.len() - i,
        {
            if !moved {
                let f = self.fields[i];
                proof {
                    assert(self.on_planet(self.fields@[i as int].at));
                    self.lemma_on_planet_interior(f.at);
                }
                let ns = f.at.neighbors();
                let k = dice.range(0, 5);
                let dest = ns[k as usize];
                if self.is_on_planet(&dest) && self.field_index(&dest).is_none()
                    && self.hostile_index(&dest).is_none() {
                    let ghost before = self.fields@;
                    self.fields.set(i, Field { at: dest, kind: f.kind });
                    proof {
                        crate::runner::lemma_fields_update(before, i as int, Field { at: dest, kind: f.kind });
                        assert forall|a: int| 0 <= a < self.fields@.len() implies self.on_planet(
                            (#[trigger] self.fields@[a]).at,
                        ) && self.fields@[a].kind == old(self).fields@[a].kind by {
                            if a != i {
                                assert(self.fields@[a] == before[a]);
                            }
                        }
                    }
                    moved = true;
                }
            }
            i = i + 1;
        }
        moved
    }

    /// The planet's passive effect: the Gloopers' acid pools may credit 10 to 20
    /// energy; the Staregazers' shadows may shift a field, or else force a spawn;
    /// the Eyekings may force a spawn.
    pub fn planet_effect(&mut self, dice: &mut Dice)
        requires
            old(self).wf(),
        ensures
            final(self).wf(),
            *final(self) == (RiftRunner {
                fields: final(self).fields,
                hostiles: final(self).hostiles,
                rift_energy: final(self).rift_energy,
                ..*old(self)
            }),
            final(self).rift_energy >= old(self).rift_energy,
            final(self).rift_energy <= old(self).rift_energy + 20,
            old(self).hostiles@.len() <= final(self).hostiles@.len() <= old(self).hostiles@.len() + 2,
            final(self).hostiles@.subrange(0, old(self).hostiles@.len() as int) == old(self).hostiles@,
            old(self).planet().archetype == Archetype::Gloopers ==> final(self).hostiles
                == old(self).hostiles,
            final(self).fields@.len() == old(self).fields@.len(),
            forall|i: int|
                0 <= i < old(self).fields@.len() ==> (#[trigger] final(self).fields@[i]).kind == old(self).fields@[i].kind,
    {
        let archetype = self.planets[self.current_planet].archetype;
        match archetype {
            Archetype::Gloopers => {
                if dice.chance(1, 5) {
                    let boost = dice.range(10, 20);
                    self.credit_energy(boost);
                }
            },
            Archetype::Staregazers => {
                if dice.chance(3, 20) {
                    if !self.shift_field(dice) {
                        self.spawn_ethereal(dice);
                    }
                }
            },
            Archetype::Eyekings => {
                if dice.chance(1, 4) {
                    self.spawn_ethereal(dice);
                }
            },
        }
    }

    /// Runs one tick: core movement, field resolution, hostile actions, the
    /// planet's passive effect, cycle progression, and the loss check. A run that is
    /// already won does not change.
    #[verifier::rlimit(60)]
    pub fn update(&mut self, dice: &mut Dice) -> (outcome: Outcome)
        requires
            old(self).wf(),
        ensures
            final(self).wf(),
            old(self).won() ==> *final(self) == *old(self) && outcome == Outcome::Victory,
            final(self).dissolved_count >= old(self).dissolved_count,
            final(self).dissolved_count <= old(self).dissolved_count + old(self).hostiles@.len(),
            !old(self).won() ==> (final(self).cycle == old(self).cycle + 1) == (
            final(self).dissolved_count >= DISSOLVES_PER_CYCLE * old(self).cycle),
            final(self).cycle == old(self).cycle || final(self).cycle == old(self).cycle + 1,
            (outcome == Outcome::Victory) == final(self).won(),
            outcome == Outcome::Victory && !old(self).won() ==> final(self).planets
                == old(self).planets,
            (outcome == Outcome::Loss) == (!final(self).won() && final(self).lost()),
            old(self).rift_energy <= final(self).rift_energy,
            final(self).rift_energy <= old(self).rift_energy + 25 * count_kind(
                old(self).fields@,
                FieldKind::Weave,
            ) + 20 + 100,
            final(self).fields@.len() <= old(self).fields@.len(),
            forall|kind: FieldKind|
                #[trigger] count_kind(final(self).fields@, kind) <= count_kind(old(self).fields@, kind),
            final(self).current_planet == old(self).current_planet ==> {
                &&& (old(self).core_slowed ==> final(self).core_shard == old(self).core_shard)
                &&& (final(self).core_shard == old(self).core_shard || {
                    &&& old(self).core_shard.dist(final(self).core_shard) == 1
                    &&& old(self).on_planet(final(self).core_shard)
                    &&& !has_field(old(self).fields@, final(self).core_shard)
                    &&& !has_hostile(old(self).hostiles@, final(self).core_shard)
                })
            },
            !old(self).won() && no_temporal(old(self).fields@) && old(self).dissolved_count
                < u64::MAX ==> forall|m: int|
                0 <= m < old(self).hostiles@.len() && (#[trigger] old(self).hostiles@[m]).essence == 1
                    && pulse_near(old(self).fields@, old(self).hostiles@[m].at) ==> final(self).dissolved_count > old(self).dissolved_count,
            !old(self).won() && final(self).current_planet == old(self).current_planet
                && old(self).dissolved_count + old(self).hostiles@.len() <= u64::MAX ==> {
                &&& old(self).hostiles@.len() - (final(self).dissolved_count - old(self).dissolved_count) <= final(self).hostiles@.len()
                &&& final(self).hostiles@.len() <= old(self).hostiles@.len() - (
                final(self).dissolved_count - old(self).dissolved_count) + if old(self).planet().archetype == Archetype::Gloopers {
                    0int
                } else {
                    2int
                }
                &&& exists|mid: RiftRunner| #[trigger]
                    tick_midpoint(*old(self), mid, *final(self))
            },
    {
        if self.is_victory() {
            return Outcome::Victory;
        }
        let ghost s0 = *self;
        self.move_core(dice);
        let ghost s1 = *self;
        let removed = self.resolve_fields(dice);
        let ghost s2 = *self;
        self.resolve_hostiles(dice);
        let ghost s3 = *self;
        self.planet_effect(dice);
        let ghost s4 = *self;
        proof {
            assert forall|kind: FieldKind| #[trigger] count_kind(s4.fields@, kind) == count_kind(
                s3.fields@,
                kind,
            ) by {
                lemma_count_same_kinds(s4.fields@, s3.fields@, kind);
            }
            assert forall|t: HexCoord| has_hostile(s3.hostiles@, t) implies #[trigger] has_hostile(
                s4.hostiles@,
                t,
            ) by {
                let w = choose|w: int| 0 <= w < s3.hostiles@.len() && #[trigger] s3.hostiles@[w].at == t;
                assert(s4.hostiles@.subrange(0, s3.hostiles@.len() as int)[w] == s4.hostiles@[w]);
            }
            assert forall|j: int| 0 <= j < s3.hostiles@.len() implies #[trigger] s4.hostiles@[j] == s3.hostiles@[j] by {
                assert(s4.hostiles@.subrange(0, s3.hostiles@.len() as int)[j] == s4.hostiles@[j]);
            }
        }
        let p = self.check_cycle_progression(dice);
        proof {
            if self.current_planet == s0.current_planet && s0.dissolved_count + s0.hostiles@.len()
                <= u64::MAX {
                assert(p != Progress::NextCycle);
                assert(self.hostiles == s4.hostiles);
                let hs = self.hostiles@;
                assert forall|j: int| 0 <= j < s2.hostiles@.len() implies (#[trigger] hs[j]).essence
                    == s2.hostiles@[j].essence && (hs[j].at == s2.hostiles@[j].at || hs[j].at
                    == s2.target_of(j)) by {
                    assert(s4.hostiles@[j] == s3.hostiles@[j]);
                }
                assert forall|j: int|
                    0 <= j < s2.hostiles@.len() && #[trigger] s2.advances(j)
                        && !s2.stasis_markers@.contains(s2.target_of(j)) && !has_hostile(
                        s2.hostiles@,
                        s2.target_of(j),
                    ) implies has_hostile(hs, s2.target_of(j)) by {
                    assert(has_hostile(s3.hostiles@, s2.target_of(j)));
                    assert(has_hostile(s4.hostiles@, s2.target_of(j)));
                }
                assert(advanced_from(s2, self.hostiles@));
                assert(s2.hostiles@.len() + (s2.dissolved_count - s0.dissolved_count) == s0.hostiles@.len());
                assert(s2.core_shard == self.core_shard);
                assert(no_temporal(s0.fields@) ==> forall|k: int|
                    0 <= k < s2.hostiles@.len() ==> pulsed_survivor(
                        #[trigger] s2.hostiles@[k],
                        s0.hostiles@,
                        s0.fields@,
                    ));
                assert(tick_midpoint(s0, s2, *self));
            }
            if p == Progress::NextCycle {
                assert(self.fields@.len() == 0);
                assert forall|kind: FieldKind| #[trigger] count_kind(self.fields@, kind) <= count_kind(s0.fields@, kind) by {
                    assert(count_kind(self.fields@, kind) == 0);
                }
            }
        }
        match p {
            Progress::Victory => {
                return Outcome::Victory;
            },
            _ => {},
        }
        if self.is_game_over() {
            Outcome::Loss
        } else {
            Outcome::Ongoing
        }
    }
}

} // verus!
