use vstd::prelude::*;
use crate::dice::Dice;
use crate::hex::{HexCoord, lemma_cluster_is_ball};

verus! {

/// The last cycle of a run: a cycle beyond it is a victory.
pub const FINAL_CYCLE: u64 = 15;

/// The hostile archetype that inhabits a planet.
#[derive(Clone, Copy, Debug, PartialEq, Eq, Hash, Structural)]
pub enum Archetype {
    Gloopers,
    Staregazers,
    Eyekings,
}

/// The passive effect of a planet.
#[derive(Clone, Copy, Debug, PartialEq, Eq, Hash, Structural)]
pub enum PassiveEffect {
    AcidPools,
    JumpscareShadows,
    TripleThreat,
}

/// Archetype of the planet created for `cycle`.
pub open spec fn archetype_for(cycle: int) -> Archetype {
    if cycle <= 5 {
        Archetype::Gloopers
    } else if cycle <= 10 {
        Archetype::Staregazers
    } else {
        Archetype::Eyekings
    }
}

/// Passive effect of the planet created for `cycle`.
pub open spec fn effect_for(cycle: int) -> PassiveEffect {
    if cycle <= 5 {
        PassiveEffect::AcidPools
    } else if cycle <= 10 {
        PassiveEffect::JumpscareShadows
    } else {
        PassiveEffect::TripleThreat
    }
}

/// A themed seven-hex region: a center and its six neighbours.
#[derive(Debug)]
pub struct Planet {
    pub center: HexCoord,
    pub hexes: Vec<HexCoord>,
    pub archetype: Archetype,
    pub base_strength: i64,
    pub effect: PassiveEffect,
}

impl Planet {
    /// The planet's hexes are the cluster around its center, and its strength is
    /// that of a cycle of the run.
    pub open spec fn wf(&self) -> bool {
        &&& self.center.interior()
        &&& self.hexes@ == self.center.cluster_seq()
        &&& 1 <= self.base_strength <= 3 * FINAL_CYCLE
    }

    /// Whether `c` is one of the planet's hexes.
    pub open spec fn holds(&self, c: HexCoord) -> bool {
        self.center.dist(c) <= 1
    }

    /// Creates the planet of `cycle` around `center`, drawing its strength multiplier.
    pub fn new(cycle: u64, center: HexCoord, dice: &mut Dice) -> (p: Planet)
        requires
            1 <= cycle <= FINAL_CYCLE,
            center.interior(),
        ensures
            p.wf(),
            p.center == center,
            p.archetype == archetype_for(cycle as int),
            p.effect == effect_for(cycle as int),
            p.base_strength == cycle || p.base_strength == 2 * cycle || p.base_strength == 3
                * cycle,
    {
        let (archetype, effect) = if cycle <= 5 {
            (Archetype::Gloopers, PassiveEffect::AcidPools)
        } else if cycle <= 10 {
            (Archetype::Staregazers, PassiveEffect::JumpscareShadows)
        } else {
            (Archetype::Eyekings, PassiveEffect::TripleThreat)
        };
        let mut hexes = center.neighbors();
        hexes.insert(0, center);
        assert(hexes@ =~= center.cluster_seq());
        let multiplier = dice.range(1, 3);
        Planet { center, hexes, archetype, base_strength: cycle as i64 * multiplier, effect }
    }

    /// Whether `coord` is one of the planet's seven hexes.
    pub fn contains(&self, coord: &HexCoord) -> (r: bool)
        requires
            self.wf(),
        ensures
            r == self.holds(*coord),
    {
        proof {
            lemma_cluster_is_ball(self.center, *coord);
        }
        let mut i: usize = 0;
        while i < self.hexes.len()
            invariant
                i <= self.hexes.len(),
                self.wf(),
                self.center.cluster_seq().contains(*coord) <==> self.holds(*coord),
                forall|k: int| 0 <= k < i ==> self.hexes@[k] != *coord,
            decreases self.hexes.len() - i,
        {
            if self.hexes[i] == *coord {
                assert(self.hexes@[i as int] == *coord);
                return true;
            }
            i = i + 1;
        }
        assert(!self.center.cluster_seq().contains(*coord));
        false
    }

    /// Display name of the planet.
    pub fn name(&self) -> (s: &'static str)
        ensures
            self.archetype == Archetype::Gloopers ==> s@ == "Slime Pits"@,
            self.archetype == Archetype::Staregazers ==> s@ == "Triad Moons"@,
            self.archetype == Archetype::Eyekings ==> s@ == "Green Abyss"@,
    {
        match self.archetype {
            Archetype::Gloopers => "Slime Pits",
            Archetype::Staregazers => "Triad Moons",
            Archetype::Eyekings => "Green Abyss",
        }
    }

    /// Display label of the planet's passive effect.
    pub fn effect_label(&self) -> (s: &'static str)
        ensures
            self.effect == PassiveEffect::AcidPools ==> s@ == "Acid Pools: Foes spit acid"@,
            self.effect == PassiveEffect::JumpscareShadows ==> s@
                == "Jumpscare Shadows: Sudden spawns"@,
            self.effect == PassiveEffect::TripleThreat ==> s@ == "Triple Threat: Acid + Jumpscares"@,
    {
        match self.effect {
            PassiveEffect::AcidPools => "Acid Pools: Foes spit acid",
            PassiveEffect::JumpscareShadows => "Jumpscare Shadows: Sudden spawns",
            PassiveEffect::TripleThreat => "Triple Threat: Acid + Jumpscares",
        }
    }
}

} // verus!
