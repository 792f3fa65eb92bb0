use vstd::prelude::*;
use crate::dice::Dice;

verus! {

/// Number of slots of the entropy core.
pub const SLOTS: usize = 5;

/// The category tag of a slot; `Spent` marks a slot already matched.
#[derive(Clone, Copy, Debug, PartialEq, Eq, Hash, Structural)]
pub enum Quantum {
    Alpha,
    Beta,
    Gamma,
    Delta,
    Omega,
    Spent,
}

/// Two slots holding the same live tag.
pub open spec fn entangles(a: Quantum, b: Quantum) -> bool {
    a == b && a != Quantum::Spent
}

/// A selection is two distinct slot indices whose tags entangle.
pub open spec fn is_match(quanta: Seq<Quantum>, selection: Option<(usize, usize)>) -> bool {
    match selection {
        Some((i, j)) => i < SLOTS && j < SLOTS && i != j && entangles(quanta[i as int], quanta[j as int]),
        None => false,
    }
}

/// The tag numbered `k`, in the order alpha, beta, gamma, delta, omega.
pub open spec fn tag(k: int) -> Quantum {
    if k == 0 {
        Quantum::Alpha
    } else if k == 1 {
        Quantum::Beta
    } else if k == 2 {
        Quantum::Gamma
    } else if k == 3 {
        Quantum::Delta
    } else {
        Quantum::Omega
    }
}

/// The tag numbered `k`, in the order alpha, beta, gamma, delta, omega.
pub fn quantum_of(k: i64) -> (t: Quantum)
    requires
        0 <= k < 5,
    ensures
        t == tag(k as int),
        t != Quantum::Spent,
{
    match k {
        0 => Quantum::Alpha,
        1 => Quantum::Beta,
        2 => Quantum::Gamma,
        3 => Quantum::Delta,
        _ => Quantum::Omega,
    }
}

/// The bonus minigame: five tagged slots, of which a matching pair pays energy.
pub struct EntropyCore {
    pub quanta: [Quantum; SLOTS],
}

impl EntropyCore {
    /// Five slots, each with a tag drawn uniformly.
    pub fn new(dice: &mut Dice) -> (c: EntropyCore)
        ensures
            forall|i: int| 0 <= i < SLOTS ==> c.quanta@[i] != Quantum::Spent,
    {
        let mut quanta = [Quantum::Spent; SLOTS];
        let mut i: usize = 0;
        while i < SLOTS
            invariant
                i <= SLOTS,
                quanta@.len() == SLOTS,
                forall|k: int| 0 <= k < i ==> quanta@[k] != Quantum::Spent,
            decreases SLOTS - i,
        {
            let k = dice.range(0, 4);
            quanta[i] = quantum_of(k);
            i = i + 1;
        }
        EntropyCore { quanta }
    }

    /// A core with the given slots.
    pub fn with_slots(quanta: [Quantum; SLOTS]) -> (c: EntropyCore)
        ensures
            c.quanta == quanta,
    {
        EntropyCore { quanta }
    }

    /// Plays a selection (`None` skips): a matching pair marks both slots spent and
    /// pays 3 to 7 energy plus, with a chance of 0.25, a bonus of 1 to 4; anything
    /// else pays nothing and changes nothing.
    pub fn play(&mut self, selection: Option<(usize, usize)>, dice: &mut Dice) -> (energy: u32)
        ensures
            is_match(old(self).quanta@, selection) ==> {
                &&& 3 <= energy <= 11
                &&& final(self).quanta@ == old(self).quanta@.update(
                    selection.unwrap().0 as int,
                    Quantum::Spent,
                ).update(selection.unwrap().1 as int, Quantum::Spent)
            },
            !is_match(old(self).quanta@, selection) ==> energy == 0 && final(self).quanta
                == old(self).quanta,
    {
        match selection {
            Some((i, j)) => {
                if i < SLOTS && j < SLOTS && i != j && self.quanta[i] == self.quanta[j]
                    && self.quanta[i] != Quantum::Spent {
                    self.quanta[i] = Quantum::Spent;
                    self.quanta[j] = Quantum::Spent;
                    let base = dice.range(3, 7);
                    let bonus = if dice.chance(1, 4) {
                        dice.range(1, 4)
                    } else {
                        0
                    };
                    (base + bonus) as u32
                } else {
                    0
                }
            },
            None => 0,
        }
    }

    /// Display label of slot `i`.
    pub fn label(&self, i: usize) -> (s: &'static str)
        requires
            i < SLOTS,
        ensures
            self.quanta@[i as int] == Quantum::Alpha ==> s@ == "alpha"@,
            self.quanta@[i as int] == Quantum::Beta ==> s@ == "beta"@,
            self.quanta@[i as int] == Quantum::Gamma ==> s@ == "gamma"@,
            self.quanta@[i as int] == Quantum::Delta ==> s@ == "delta"@,
            self.quanta@[i as int] == Quantum::Omega ==> s@ == "omega"@,
            self.quanta@[i as int] == Quantum::Spent ==> s@ == "XX"@,
    {
        match self.quanta[i] {
            Quantum::Alpha => "alpha",
            Quantum::Beta => "beta",
            Quantum::Gamma => "gamma",
            Quantum::Delta => "delta",
            Quantum::Omega => "omega",
            Quantum::Spent => "XX",
        }
    }
}

} // verus!
