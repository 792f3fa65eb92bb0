use vstd::prelude::*;
use crate::dice::{Dice, roll_chance};
use crate::hex::HexCoord;
use crate::planet::{Archetype, Planet, FINAL_CYCLE, archetype_for};

verus! {

/// Rift energy at the start of a run.
pub const STARTING_ENERGY: i64 = 50;

/// Dissolved hostiles needed per cycle to advance.
pub const DISSOLVES_PER_CYCLE: u64 = 3;

/// The kinds of field a player can deploy.
#[derive(Clone, Copy, Debug, PartialEq, Eq, Hash, Structural)]
pub enum FieldKind {
    Pulse,
    Weave,
    Temporal,
}

/// A deployed field.
#[derive(Clone, Copy, Debug, PartialEq, Eq, Hash, Structural)]
pub struct Field {
    pub at: HexCoord,
    pub kind: FieldKind,
}

/// A hostile ethereal and its remaining essence.
#[derive(Clone, Copy, Debug, PartialEq, Eq, Hash, Structural)]
pub struct Hostile {
    pub at: HexCoord,
    pub essence: i64,
}

/// Why a deployment was rejected.
#[derive(Clone, Copy, Debug, PartialEq, Eq, Hash, Structural)]
pub enum DeployError {
    InsufficientEnergy,
    Occupied,
    OffPlanet,
}

/// What a progression check did.
#[derive(Clone, Copy, Debug, PartialEq, Eq, Hash, Structural)]
pub enum Progress {
    Unchanged,
    NextCycle,
    Victory,
}

/// Whether a field stands on `c`.
pub open spec fn has_field(fs: Seq<Field>, c: HexCoord) -> bool {
    exists|i: int| 0 <= i < fs.len() && #[trigger] fs[i].at == c
}

/// Whether a hostile stands on `c`.
pub open spec fn has_hostile(hs: Seq<Hostile>, c: HexCoord) -> bool {
    exists|i: int| 0 <= i < hs.len() && #[trigger] hs[i].at == c
}

/// No two fields share a hex.
pub open spec fn distinct_fields(fs: Seq<Field>) -> bool {
    forall|i: int, j: int|
        0 <= i < fs.len() && 0 <= j < fs.len() && i != j ==> #[trigger] fs[i].at != #[trigger] fs[j].at
}

/// No two hostiles share a hex.
pub open spec fn distinct_hostiles(hs: Seq<Hostile>) -> bool {
    forall|i: int, j: int|
        0 <= i < hs.len() && 0 <= j < hs.len() && i != j ==> #[trigger] hs[i].at != #[trigger] hs[j].at
}

/// Putting a hostile at index `j` on its own hex or on a hex no hostile holds keeps
/// the hostiles on distinct hexes.
pub proof fn lemma_hostiles_update(hs: Seq<Hostile>, j: int, h: Hostile)
    requires
        distinct_hostiles(hs),
        0 <= j < hs.len(),
        h.at == hs[j].at || !has_hostile(hs, h.at),
    ensures
        distinct_hostiles(hs.update(j, h)),
{
    let u = hs.update(j, h);
    assert forall|a: int, b: int| 0 <= a < u.len() && 0 <= b < u.len() && a != b implies #[trigger] u[a].at
        != #[trigger] u[b].at by {
        if a != j && b != j {
        } else if a == j {
            assert(u[b] == hs[b]);
        } else {
            assert(u[a] == hs[a]);
        }
    }
}

/// Appending a hostile on a hex no hostile holds keeps the hostiles on distinct hexes.
pub proof fn lemma_hostiles_push(hs: Seq<Hostile>, h: Hostile)
    requires
        distinct_hostiles(hs),
        !has_hostile(hs, h.at),
    ensures
        distinct_hostiles(hs.push(h)),
{
    let u = hs.push(h);
    assert forall|a: int, b: int| 0 <= a < u.len() && 0 <= b < u.len() && a != b implies #[trigger] u[a].at
        != #[trigger] u[b].at by {
        if a < hs.len() {
            assert(u[a] == hs[a]);
        }
        if b < hs.len() {
            assert(u[b] == hs[b]);
        }
    }
}

/// Putting a field at index `j` on its own hex or on a hex no field holds keeps the
/// fields on distinct hexes.
pub proof fn lemma_fields_update(fs: Seq<Field>, j: int, f: Field)
    requires
        distinct_fields(fs),
        0 <= j < fs.len(),
        f.at == fs[j].at || !has_field(fs, f.at),
    ensures
        distinct_fields(fs.update(j, f)),
{
    let u = fs.update(j, f);
    assert forall|a: int, b: int| 0 <= a < u.len() && 0 <= b < u.len() && a != b implies #[trigger] u[a].at
        != #[trigger] u[b].at by {
        if a != j && b != j {
        } else if a == j {
            assert(u[b] == fs[b]);
        } else {
            assert(u[a] == fs[a]);
        }
    }
}

/// Appending a field on a hex no field holds keeps the fields on distinct hexes.
pub proof fn lemma_fields_push(fs: Seq<Field>, f: Field)
    requires
        distinct_fields(fs),
        !has_field(fs, f.at),
    ensures
        distinct_fields(fs.push(f)),
{
    let u = fs.push(f);
    assert forall|a: int, b: int| 0 <= a < u.len() && 0 <= b < u.len() && a != b implies #[trigger] u[a].at
        != #[trigger] u[b].at by {
        if a < fs.len() {
            assert(u[a] == fs[a]);
        }
        if b < fs.len() {
            assert(u[b] == fs[b]);
        }
    }
}

/// Energy after crediting `a`, saturating at the largest representable amount.
pub open spec fn credit(e: i64, a: int) -> i64 {
    if e + a > i64::MAX {
        i64::MAX
    } else {
        (e + a) as i64
    }
}

/// Base cost of a field kind.
pub open spec fn cost_base(kind: FieldKind) -> int {
    match kind {
        FieldKind::Pulse => 15,
        FieldKind::Weave => 40,
        FieldKind::Temporal => 55,
    }
}

/// Cost added per cycle for a field kind.
pub open spec fn cost_scale(kind: FieldKind) -> int {
    match kind {
        FieldKind::Pulse => 2,
        FieldKind::Weave => 5,
        FieldKind::Temporal => 8,
    }
}

/// Largest jitter of a field kind's cost, either way.
pub open spec fn cost_jitter(kind: FieldKind) -> int {
    match kind {
        FieldKind::Pulse => 3,
        FieldKind::Weave => 4,
        FieldKind::Temporal => 5,
    }
}

/// Cost of a field kind in `cycle` with the given jitter.
pub open spec fn cost_formula(kind: FieldKind, cycle: int, jitter: int) -> int {
    cost_base(kind) + cost_scale(kind) * cycle + jitter
}

/// The verdict on a deployment, given the energy, the cost and the target hex.
pub open spec fn deploy_verdict(energy: int, cost: int, occupied: bool, on_planet: bool) -> Result<
    (),
    DeployError,
> {
    if energy < cost {
        Err(DeployError::InsufficientEnergy)
    } else if occupied {
        Err(DeployError::Occupied)
    } else if !on_planet {
        Err(DeployError::OffPlanet)
    } else {
        Ok(())
    }
}

/// The spawn chance `0.6 + cycle / 15`, in fifteenths and capped at certainty.
pub open spec fn spawn_chance(cycle: int) -> int {
    if 9 + cycle >= 15 {
        15
    } else {
        9 + cycle
    }
}

/// The spawn chance `0.6 + cycle / 15`, in fifteenths and capped at certainty.
pub fn spawn_odds(cycle: u64) -> (n: u32)
    ensures
        n as int == spawn_chance(cycle as int),
{
    if cycle >= 6 {
        15
    } else {
        (cycle + 9) as u32
    }
}

/// The whole state of a run.
#[derive(Debug)]
pub struct RiftRunner {
    pub fields: Vec<Field>,
    pub hostiles: Vec<Hostile>,
    pub stasis_markers: Vec<HexCoord>,
    pub planets: Vec<Planet>,
    pub current_planet: usize,
    pub core_shard: HexCoord,
    pub rift_energy: i64,
    pub cycle: u64,
    pub dissolved_count: u64,
    pub core_slowed: bool,
}

impl RiftRunner {
    /// The planet the run is on.
    pub open spec fn planet(&self) -> Planet {
        self.planets@[self.current_planet as int]
    }

    /// Whether `c` is a hex of the current planet.
    pub open spec fn on_planet(&self, c: HexCoord) -> bool {
        self.planet().holds(c)
    }

    /// The planet list is append-only, one planet per cycle reached, each within
    /// a few hexes per step of the origin, and the run stands on the last one.
    pub open spec fn planets_wf(&self) -> bool {
        &&& 1 <= self.cycle <= FINAL_CYCLE + 1
        &&& 1 <= self.planets.len() <= FINAL_CYCLE
        &&& self.planets.len() <= self.cycle
        &&& self.current_planet == self.planets.len() - 1
        &&& forall|i: int|
            0 <= i < self.planets.len() ==> {
                &&& (#[trigger] self.planets@[i]).wf()
                &&& -4 * i <= self.planets@[i].center.q <= 4 * i
                &&& -2 * i <= self.planets@[i].center.r <= 2 * i
            }
    }

    /// Everything stands on the current planet, at most one of a kind per hex,
    /// with essence never negative (it may drop to zero within a tick).
    pub open spec fn wf_loose(&self) -> bool {
        &&& self.planets_wf()
        &&& self.on_planet(self.core_shard)
        &&& forall|i: int| 0 <= i < self.fields.len() ==> self.on_planet((#[trigger] self.fields@[i]).at)
        &&& distinct_fields(self.fields@)
        &&& forall|i: int|
            0 <= i < self.hostiles.len() ==> {
                &&& self.on_planet((#[trigger] self.hostiles@[i]).at)
                &&& 0 <= self.hostiles@[i].essence
            }
        &&& distinct_hostiles(self.hostiles@)
        &&& forall|i: int|
            0 <= i < self.stasis_markers.len() ==> self.on_planet(#[trigger] self.stasis_markers@[i])
        &&& self.stasis_markers@.no_duplicates()
    }

    /// The state between ticks: as `wf_loose`, and every hostile has essence left.
    pub open spec fn wf(&self) -> bool {
        &&& self.wf_loose()
        &&& forall|i: int| 0 <= i < self.hostiles.len() ==> 1 <= #[trigger] self.hostiles@[i].essence
    }

    /// The run is won.
    pub open spec fn won(&self) -> bool {
        self.cycle > FINAL_CYCLE
    }

    /// A hostile holds the core shard's hex.
    pub open spec fn lost(&self) -> bool {
        has_hostile(self.hostiles@, self.core_shard)
    }

    /// Hexes of the current planet are interior coordinates.
    pub proof fn lemma_on_planet_interior(&self, c: HexCoord)
        requires
            self.planets_wf(),
            self.on_planet(c),
        ensures
            c.interior(),
            -70 <= c.q <= 70,
            -70 <= c.r <= 70,
    {
        let p = self.planet();
        assert(self.planets@[self.current_planet as int].wf());
        assert(-60 <= p.center.q <= 60);
        assert(-30 <= p.center.r <= 30);
    }

    /// Starts a run on a planet of the first cycle centred at the origin.
    pub fn new(dice: &mut Dice) -> (s: RiftRunner)
        ensures
            s.wf(),
            s.cycle == 1,
            s.rift_energy == STARTING_ENERGY,
            s.dissolved_count == 0,
            !s.core_slowed,
            s.core_shard == (HexCoord { q: 0, r: 0 }),
            s.fields@.len() == 0,
            s.hostiles@.len() == 0,
            s.stasis_markers@.len() == 0,
            s.planets@.len() == 1,
            s.planet().center == (HexCoord { q: 0, r: 0 }),
            s.planet().archetype == Archetype::Gloopers,
    {
        let origin = HexCoord::new(0, 0);
        let first = Planet::new(1, origin, dice);
        let mut planets: Vec<Planet> = Vec::new();
        planets.push(first);
        let s = RiftRunner {
            fields: Vec::new(),
            hostiles: Vec::new(),
            stasis_markers: Vec::new(),
            planets,
            current_planet: 0,
            core_shard: origin,
            rift_energy: STARTING_ENERGY,
            cycle: 1,
            dissolved_count: 0,
            core_slowed: false,
        };
        assert(s.planets@[0] == first);
        assert(s.stasis_markers@.no_duplicates());
        s
    }

    /// The planet the run is on.
    pub fn current(&self) -> (p: &Planet)
        requires
            self.planets_wf(),
        ensures
            *p == self.planet(),
    {
        &self.planets[self.current_planet]
    }

    /// Whether `coord` is a hex of the current planet.
    pub fn is_on_planet(&self, coord: &HexCoord) -> (r: bool)
        requires
            self.planets_wf(),
        ensures
            r == self.on_planet(*coord),
    {
        proof {
            assert(self.planets@[self.current_planet as int].wf());
        }
        self.planets[self.current_planet].contains(coord)
    }

    /// Index of the field on `c`, if any.
    pub fn field_index(&self, c: &HexCoord) -> (r: Option<usize>)
        ensures
            r is None <==> !has_field(self.fields@, *c),
            r matches Some(i) ==> i < self.fields.len() && self.fields@[i as int].at == *c,
    {
        let mut i: usize = 0;
        while i < self.fields.len()
            invariant
                i <= self.fields.len(),
                forall|k: int| 0 <= k < i ==> (#[trigger] self.fields@[k]).at != *c,
            decreases self.fields.len() - i,
        {
            if self.fields[i].at == *c {
                return Some(i);
            }
            i = i + 1;
        }
        None
    }

    /// Index of the hostile on `c`, if any.
    pub fn hostile_index(&self, c: &HexCoord) -> (r: Option<usize>)
        ensures
            r is None <==> !has_hostile(self.hostiles@, *c),
            r matches Some(i) ==> i < self.hostiles.len() && self.hostiles@[i as int].at == *c,
    {
        let mut i: usize = 0;
        while i < self.hostiles.len()
            invariant
                i <= self.hostiles.len(),
                forall|k: int| 0 <= k < i ==> (#[trigger] self.hostiles@[k]).at != *c,
            decreases self.hostiles.len() - i,
        {
            if self.hostiles[i].at == *c {
                return Some(i);
            }
            i = i + 1;
        }
        None
    }

    /// Index of the stasis marker on `c`, if any.
    pub fn stasis_index(&self, c: &HexCoord) -> (r: Option<usize>)
        ensures
            r is None <==> !self.stasis_markers@.contains(*c),
            r matches Some(i) ==> i < self.stasis_markers.len() && self.stasis_markers@[i as int]
                == *c,
    {
        let mut i: usize = 0;
        while i < self.stasis_markers.len()
            invariant
                i <= self.stasis_markers.len(),
                forall|k: int| 0 <= k < i ==> self.stasis_markers@[k] != *c,
            decreases self.stasis_markers.len() - i,
        {
            if self.stasis_markers[i] == *c {
                return Some(i);
            }
            i = i + 1;
        }
        None
    }

    /// Whether a hostile holds the core shard's hex: the run is lost.
    pub fn is_game_over(&self) -> (r: bool)
        ensures
            r == self.lost(),
    {
        self.hostile_index(&self.core_shard).is_some()
    }

    /// Whether the run is won.
    pub fn is_victory(&self) -> (r: bool)
        ensures
            r == self.won(),
    {
        self.cycle > FINAL_CYCLE
    }

    /// Credits `amount` of rift energy, saturating at the largest representable amount.
    pub(crate) fn credit_energy(&mut self, amount: i64)
        requires
            amount >= 0,
        ensures
            *final(self) == (RiftRunner { rift_energy: credit(old(self).rift_energy, amount as int), ..*old(self) }),
            old(self).wf_loose() ==> final(self).wf_loose(),
            old(self).wf() ==> final(self).wf(),
    {
        if self.rift_energy > i64::MAX - amount {
            self.rift_energy = i64::MAX;
        } else {
            self.rift_energy = self.rift_energy + amount;
        }
    }

    /// Credits `energy` unconditionally.
    pub fn add_rift_energy(&mut self, energy: u32)
        ensures
            *final(self) == (RiftRunner { rift_energy: credit(old(self).rift_energy, energy as int), ..*old(self) }),
    {
        self.credit_energy(energy as i64);
    }
    /// Cost of a field kind in `cycle` with the given jitter.
    pub fn field_cost_with(kind: FieldKind, cycle: u64, jitter: i64) -> (c: i64)
        requires
            cycle <= FINAL_CYCLE + 1,
            -cost_jitter(kind) <= jitter <= cost_jitter(kind),
        ensures
            c == cost_formula(kind, cycle as int, jitter as int),
            c > 0,
    {
        let cyc = cycle as i64;
        match kind {
            FieldKind::Pulse => 15 + cyc * 2 + jitter,
            FieldKind::Weave => 40 + cyc * 5 + jitter,
            FieldKind::Temporal => 55 + cyc * 8 + jitter,
        }
    }

    /// Quotes the cost of a field kind, with a fresh jitter.
    pub fn get_field_cost(&self, kind: FieldKind, dice: &mut Dice) -> (c: i64)
        requires
            self.planets_wf(),
        ensures
            exists|j: int|
                -cost_jitter(kind) <= j <= cost_jitter(kind) && c == cost_formula(
                    kind,
                    self.cycle as int,
                    j,
                ),
    {
        let spread: i64 = match kind {
            FieldKind::Pulse => 3,
            FieldKind::Weave => 4,
            FieldKind::Temporal => 5,
        };
        let jitter = dice.range(-spread, spread);
        RiftRunner::field_cost_with(kind, self.cycle, jitter)
    }

    /// Deploys a field of `kind` on `(q, r)` for `cost`: it needs the energy, a hex
    /// without a field, and a hex of the current planet.
    pub fn deploy_field_at_cost(&mut self, q: i32, r: i32, kind: FieldKind, cost: i64) -> (res:
        Result<(), DeployError>)
        requires
            old(self).wf(),
            cost >= 0,
        ensures
            final(self).wf(),
            res == deploy_verdict(
                old(self).rift_energy as int,
                cost as int,
                has_field(old(self).fields@, HexCoord { q, r }),
                old(self).on_planet(HexCoord { q, r }),
            ),
            res is Ok ==> *final(self) == (RiftRunner {
                fields: final(self).fields,
                rift_energy: (old(self).rift_energy - cost) as i64,
                ..*old(self)
            }) && final(self).fields@ == old(self).fields@.push(Field { at: HexCoord { q, r }, kind }),
            res is Err ==> *final(self) == *old(self),
    {
        let coord = HexCoord::new(q, r);
        if self.rift_energy < cost {
            return Err(DeployError::InsufficientEnergy);
        }
        if self.field_index(&coord).is_some() {
            return Err(DeployError::Occupied);
        }
        if !self.is_on_planet(&coord) {
            return Err(DeployError::OffPlanet);
        }
        self.fields.push(Field { at: coord, kind });
        self.rift_energy = self.rift_energy - cost;
        proof {
            assert(self.fields@.last() == Field { at: coord, kind });
            assert forall|i: int| 0 <= i < self.fields.len() implies self.on_planet(
                (#[trigger] self.fields@[i]).at,
            ) by {
                if i < old(self).fields.len() {
                    assert(self.fields@[i] == old(self).fields@[i]);
                }
            }
            lemma_fields_push(old(self).fields@, Field { at: coord, kind });
        }
        Ok(())
    }

    /// Deploys a field of `kind` on `(q, r)` at a freshly quoted cost, which it returns.
    /// A rejected deployment changes nothing.
    pub fn deploy_field(&mut self, q: i32, r: i32, kind: FieldKind, dice: &mut Dice) -> (res:
        Result<i64, DeployError>)
        requires
            old(self).wf(),
        ensures
            final(self).wf(),
            match res {
                Ok(cost) => {
                    &&& cost_formula(kind, old(self).cycle as int, -cost_jitter(kind)) <= cost
                    &&& cost <= cost_formula(kind, old(self).cycle as int, cost_jitter(kind))
                    &&& old(self).rift_energy >= cost
                    &&& !has_field(old(self).fields@, HexCoord { q, r })
                    &&& old(self).on_planet(HexCoord { q, r })
                    &&& final(self).rift_energy == old(self).rift_energy - cost
                    &&& final(self).fields@ == old(self).fields@.push(Field { at: HexCoord { q, r }, kind })
                    &&& *final(self) == (RiftRunner {
                        fields: final(self).fields,
                        rift_energy: final(self).rift_energy,
                        ..*old(self)
                    })
                },
                Err(e) => {
                    &&& *final(self) == *old(self)
                    &&& (e == DeployError::InsufficientEnergy ==> old(self).rift_energy
                        < cost_formula(kind, old(self).cycle as int, cost_jitter(kind)))
                    &&& (e == DeployError::Occupied ==> has_field(old(self).fields@, HexCoord { q, r }))
                    &&& (e == DeployError::OffPlanet ==> !old(self).on_planet(HexCoord { q, r }))
                },
            },
            has_field(old(self).fields@, HexCoord { q, r }) ==> res is Err,
            !old(self).on_planet(HexCoord { q, r }) ==> res is Err,
            old(self).rift_energy >= cost_formula(kind, old(self).cycle as int, cost_jitter(kind))
                && !has_field(old(self).fields@, HexCoord { q, r }) && old(self).on_planet(
                HexCoord { q, r },
            ) ==> res is Ok,
    {
        let cost = self.get_field_cost(kind, dice);
        match self.deploy_field_at_cost(q, r, kind, cost) {
            Ok(()) => Ok(cost),
            Err(e) => Err(e),
        }
    }

    /// A hex that holds no field, no hostile and not the core shard.
    pub open spec fn free(&self, c: HexCoord) -> bool {
        !has_field(self.fields@, c) && !has_hostile(self.hostiles@, c) && c != self.core_shard
    }

    /// Whether `c` holds no field, no hostile and not the core shard.
    pub fn is_free(&self, c: &HexCoord) -> (r: bool)
        ensures
            r == self.free(*c),
    {
        self.field_index(c).is_none() && self.hostile_index(c).is_none() && *c != self.core_shard
    }

    /// The first hex of the current planet, in its fixed order, that is free.
    pub fn first_free_hex(&self) -> (r: Option<HexCoord>)
        requires
            self.planets_wf(),
        ensures
            r is None ==> forall|k: int|
                0 <= k < 7 ==> !self.free(#[trigger] self.planet().hexes@[k]),
            r matches Some(c) ==> exists|k: int|
                0 <= k < 7 && self.planet().hexes@[k] == c && self.free(c) && forall|m: int|
                    0 <= m < k ==> !self.free(#[trigger] self.planet().hexes@[m]),
    {
        let cur = self.current_planet;
        proof {
            assert(self.planets@[cur as int].wf());
        }
        let mut i: usize = 0;
        while i < 7
            invariant
                i <= 7,
                cur == self.current_planet,
                self.planets_wf(),
                self.planets@[cur as int].hexes@.len() == 7,
                forall|m: int| 0 <= m < i ==> !self.free(#[trigger] self.planet().hexes@[m]),
            decreases 7 - i,
        {
            let hex = self.planets[cur].hexes[i];
            if self.is_free(&hex) {
                return Some(hex);
            }
            i = i + 1;
        }
        None
    }

    /// Puts a hostile with `essence` on the free planet hex `c`.
    fn spawn_at(&mut self, c: HexCoord, essence: i64)
        requires
            old(self).wf(),
            old(self).on_planet(c),
            old(self).free(c),
            1 <= essence,
        ensures
            final(self).wf(),
            *final(self) == (RiftRunner { hostiles: final(self).hostiles, ..*old(self) }),
            final(self).hostiles@ == old(self).hostiles@.push(Hostile { at: c, essence }),
    {
        self.hostiles.push(Hostile { at: c, essence });
        proof {
            assert forall|i: int| 0 <= i < self.hostiles.len() implies {
                &&& self.on_planet((#[trigger] self.hostiles@[i]).at)
                &&& 1 <= self.hostiles@[i].essence
            } by {
                if i < old(self).hostiles.len() {
                    assert(self.hostiles@[i] == old(self).hostiles@[i]);
                }
            }
            lemma_hostiles_push(old(self).hostiles@, Hostile { at: c, essence });
        }
    }

    /// Places a hostile with `essence` on `(q, r)` if that hex is on the current
    /// planet and free; returns whether it did.
    pub fn place_hostile(&mut self, q: i32, r: i32, essence: i64) -> (placed: bool)
        requires
            old(self).wf(),
            1 <= essence,
        ensures
            final(self).wf(),
            placed == (old(self).on_planet(HexCoord { q, r }) && old(self).free(HexCoord { q, r })),
            placed ==> final(self).hostiles@ == old(self).hostiles@.push(
                Hostile { at: HexCoord { q, r }, essence },
            ),
            *final(self) == (RiftRunner { hostiles: final(self).hostiles, ..*old(self) }),
            !placed ==> final(self).hostiles@ == old(self).hostiles@,
    {
        let c = HexCoord::new(q, r);
        if self.is_on_planet(&c) && self.is_free(&c) {
            self.spawn_at(c, essence);
            true
        } else {
            false
        }
    }

    /// `c` is the first hex of the current planet, in its fixed order, that is free.
    pub open spec fn first_free(&self, c: HexCoord) -> bool {
        exists|k: int|
            0 <= k < 7 && #[trigger] self.planet().hexes@[k] == c && self.free(c) && forall|m: int|
                0 <= m < k ==> !self.free(#[trigger] self.planet().hexes@[m])
    }

    /// Some hex of the current planet is free.
    pub open spec fn has_free_hex(&self) -> bool {
        exists|k: int| 0 <= k < 7 && self.free(#[trigger] self.planet().hexes@[k])
    }

    /// `h` is a hostile of the regular spawn wave: on the first free hex, with the
    /// planet's strength plus `0..cycle` essence.
    pub open spec fn wave_spawn(&self, h: Hostile) -> bool {
        &&& self.first_free(h.at)
        &&& self.planet().base_strength <= h.essence <= self.planet().base_strength + self.cycle - 1
    }

    /// `h` is an ambush hostile: off the Gloopers' planet, on a free hex of the planet,
    /// with the planet's strength plus 1 to 3 essence.
    pub open spec fn ambush_spawn(&self, h: Hostile) -> bool {
        &&& self.planet().archetype != Archetype::Gloopers
        &&& self.on_planet(h.at)
        &&& self.planet().base_strength + 1 <= h.essence <= self.planet().base_strength + 3
    }

    /// The spawn event: with a chance of `0.6 + cycle / 15` a hostile appears on the
    /// first free hex of the planet, and on planets other than the Gloopers' an ambush
    /// may put one on a random free hex.
    pub fn spawn_ethereal(&mut self, dice: &mut Dice)
        requires
            old(self).wf(),
        ensures
            final(self).wf(),
            *final(self) == (RiftRunner { hostiles: final(self).hostiles, ..*old(self) }),
            old(self).hostiles@.len() <= final(self).hostiles@.len() <= old(self).hostiles@.len()
                + 2,
            old(self).planet().archetype == Archetype::Gloopers ==> final(self).hostiles@.len()
                <= old(self).hostiles@.len() + 1,
            final(self).hostiles@.subrange(0, old(self).hostiles@.len() as int)
                == old(self).hostiles@,
            forall|i: int|
                old(self).hostiles@.len() <= i < final(self).hostiles@.len() ==> {
                    &&& old(self).free(#[trigger] final(self).hostiles@[i].at)
                    &&& (old(self).wave_spawn(final(self).hostiles@[i]) || old(self).ambush_spawn(
                        final(self).hostiles@[i],
                    ))
                },
            old(self).has_free_hex() && (old(self).cycle >= 6 || (old(dice).pending().len() > 0
                && roll_chance(old(dice).pending()[0], spawn_chance(old(self).cycle as int), 15)))
                ==> final(self).hostiles@.len() > old(self).hostiles@.len() && old(self).wave_spawn(
                final(self).hostiles@[old(self).hostiles@.len() as int],
            ),
    {
        let ghost start = *self;
        let cur = self.current_planet;
        proof {
            assert(self.planets@[cur as int].wf());
        }
        let base = self.planets[cur].base_strength;
        let archetype = self.planets[cur].archetype;
        let num = spawn_odds(self.cycle);
        if dice.chance(num, 15) {
            match self.first_free_hex() {
                Some(hex) => {
                    proof {
                        assert(self.planet().hexes@ == self.planet().center.cluster_seq());
                        crate::hex::lemma_cluster_is_ball(self.planet().center, hex);
                        let k = choose|k: int|
                            0 <= k < 7 && self.planet().hexes@[k] == hex && self.free(hex) && forall|m: int|
                                0 <= m < k ==> !self.free(#[trigger] self.planet().hexes@[m]);
                        assert(start.first_free(hex));
                    }
                    let extra = dice.range(0, self.cycle as i64 - 1);
                    self.spawn_at(hex, base + extra);
                    assert(self.hostiles@[start.hostiles@.len() as int] == Hostile { at: hex, essence: (base + extra) as i64 });
                    assert(start.wave_spawn(self.hostiles@[start.hostiles@.len() as int]));
                },
                None => {},
            }
        }
        let ghost mid = self.hostiles@;
        assert(self.hostiles@.subrange(0, start.hostiles@.len() as int) =~= start.hostiles@);
        if archetype != Archetype::Gloopers && dice.chance(1, 5) {
            let k = dice.range(0, 6);
            let hex = self.planets[cur].hexes[k as usize];
            proof {
                assert(self.planet().hexes@ == self.planet().center.cluster_seq());
                crate::hex::lemma_cluster_is_ball(self.planet().center, hex);
                assert(self.planet().center.cluster_seq().contains(hex));
            }
            if self.is_free(&hex) {
                let extra = dice.range(1, 3);
                self.spawn_at(hex, base + extra);
                assert(start.ambush_spawn(self.hostiles@[mid.len() as int]));
                assert forall|i: int| start.hostiles@.len() <= i < mid.len() implies #[trigger] self.hostiles@[i] == mid[i] by {}
            }
        }
        assert(self.hostiles@.subrange(0, start.hostiles@.len() as int) =~= start.hostiles@);
    }

    /// Moves the run to a new planet for the current cycle, a few hexes on from the
    /// last one, and clears everything that stood on the old one.
    pub fn jump_to_next_planet(&mut self, dice: &mut Dice)
        requires
            old(self).wf(),
            old(self).cycle <= FINAL_CYCLE,
            old(self).planets@.len() < old(self).cycle,
        ensures
            final(self).wf(),
            final(self).planets@.len() == old(self).planets@.len() + 1,
            final(self).planets@.subrange(0, old(self).planets@.len() as int)
                == old(self).planets@,
            final(self).current_planet == old(self).current_planet + 1,
            final(self).planet().archetype == archetype_for(old(self).cycle as int),
            2 <= final(self).planet().center.q - old(self).planet().center.q <= 4,
            -2 <= final(self).planet().center.r - old(self).planet().center.r <= 2,
            final(self).core_shard == final(self).planet().center,
            final(self).fields@.len() == 0,
            final(self).hostiles@.len() == 0,
            final(self).stasis_markers@.len() == 0,
            !final(self).core_slowed,
            final(self).rift_energy == old(self).rift_energy,
            final(self).cycle == old(self).cycle,
            final(self).dissolved_count == old(self).dissolved_count,
    {
        let last = self.planets.len() - 1;
        proof {
            assert(self.planets@[last as int].wf());
        }
        let last_center = self.planets[last].center;
        let dq = dice.range(2, 4);
        let dr = dice.range(-2, 2);
        let center = HexCoord::new(last_center.q + dq as i32, last_center.r + dr as i32);
        let planet = Planet::new(self.cycle, center, dice);
        self.planets.push(planet);
        self.current_planet = self.current_planet + 1;
        self.core_shard = center;
        self.fields.clear();
        self.hostiles.clear();
        self.stasis_markers.clear();
        self.core_slowed = false;
        proof {
            assert(self.planets@.subrange(0, old(self).planets@.len() as int) =~= old(
                self,
            ).planets@);
            assert(self.planets@[self.current_planet as int] == planet);
            assert forall|i: int| 0 <= i < self.planets.len() implies {
                &&& (#[trigger] self.planets@[i]).wf()
                &&& -4 * i <= self.planets@[i].center.q <= 4 * i
                &&& -2 * i <= self.planets@[i].center.r <= 2 * i
            } by {
                if i < old(self).planets.len() {
                    assert(self.planets@[i] == old(self).planets@[i]);
                }
            }
            assert(self.stasis_markers@.no_duplicates());
        }
    }

    /// Advances the cycle once enough hostiles are dissolved: past the last cycle the
    /// run is won and nothing else changes; otherwise the run moves to a new planet
    /// and is credited 50 to 100 energy.
    pub fn check_cycle_progression(&mut self, dice: &mut Dice) -> (p: Progress)
        requires
            old(self).wf(),
            !old(self).won(),
        ensures
            final(self).wf(),
            final(self).dissolved_count == old(self).dissolved_count,
            (final(self).cycle == old(self).cycle + 1) == (old(self).dissolved_count
                >= DISSOLVES_PER_CYCLE * old(self).cycle),
            final(self).cycle == old(self).cycle || final(self).cycle == old(self).cycle + 1,
            (p == Progress::Unchanged) == (old(self).dissolved_count < DISSOLVES_PER_CYCLE
                * old(self).cycle),
            p == Progress::Unchanged ==> *final(self) == *old(self),
            (p == Progress::Victory) == (final(self).cycle > FINAL_CYCLE),
            p == Progress::Victory ==> *final(self) == (RiftRunner {
                cycle: (old(self).cycle + 1) as u64,
                ..*old(self)
            }),
            p == Progress::NextCycle ==> {
                &&& final(self).planets@.len() == old(self).planets@.len() + 1
                &&& final(self).planets@.subrange(0, old(self).planets@.len() as int)
                    == old(self).planets@
                &&& final(self).current_planet == old(self).current_planet + 1
                &&& final(self).planet().archetype == archetype_for(final(self).cycle as int)
                &&& 2 <= final(self).planet().center.q - old(self).planet().center.q <= 4
                &&& -2 <= final(self).planet().center.r - old(self).planet().center.r <= 2
                &&& final(self).core_shard == final(self).planet().center
                &&& final(self).fields@.len() == 0
                &&& final(self).hostiles@.len() == 0
                &&& final(self).stasis_markers@.len() == 0
                &&& !final(self).core_slowed
                &&& exists|k: int|
                    50 <= k <= 100 && final(self).rift_energy == credit(old(self).rift_energy, k)
            },
    {
        if self.dissolved_count >= DISSOLVES_PER_CYCLE * self.cycle {
            self.cycle = self.cycle + 1;
            if self.cycle > FINAL_CYCLE {
                return Progress::Victory;
            }
            self.jump_to_next_planet(dice);
            let bonus = dice.range(50, 100);
            let ghost before = self.rift_energy;
            self.credit_energy(bonus);
            assert(self.rift_energy == credit(before, bonus as int));
            Progress::NextCycle
        } else {
            Progress::Unchanged
        }
    }

}

} // verus!
