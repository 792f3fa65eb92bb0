use rift_runner::{Dice, EntropyCore, Quantum};

#[test]
fn matched_pair_pays_and_is_spent() {
    let mut core = EntropyCore::with_slots([
        Quantum::Alpha,
        Quantum::Beta,
        Quantum::Alpha,
        Quantum::Gamma,
        Quantum::Delta,
    ]);
    let mut dice = Dice::live();
    let energy = core.play(Some((0, 2)), &mut dice);
    assert!(energy >= 3 && energy <= 11);
    assert_eq!(core.quanta[0], Quantum::Spent);
    assert_eq!(core.quanta[2], Quantum::Spent);
    assert_eq!(core.quanta[1], Quantum::Beta);
    assert_eq!(core.play(Some((0, 2)), &mut dice), 0);
    assert_eq!(core.play(Some((2, 0)), &mut dice), 0);
}

#[test]
fn scripted_reward_with_bonus() {
    let mut core = EntropyCore::with_slots([
        Quantum::Omega,
        Quantum::Beta,
        Quantum::Gamma,
        Quantum::Omega,
        Quantum::Delta,
    ]);
    // base 3 + 4 = 7, bonus fires (0 % 4 < 1), bonus 1 + 3 = 4
    let mut dice = Dice::scripted(vec![4, 0, 3]);
    assert_eq!(core.play(Some((3, 0)), &mut dice), 11);
    // base 3, bonus does not fire
    let mut core = EntropyCore::with_slots([
        Quantum::Beta,
        Quantum::Beta,
        Quantum::Gamma,
        Quantum::Omega,
        Quantum::Delta,
    ]);
    let mut dice = Dice::scripted(vec![0, 1]);
    assert_eq!(core.play(Some((0, 1)), &mut dice), 3);
}

#[test]
fn non_match_and_invalid_pay_nothing() {
    let slots = [
        Quantum::Alpha,
        Quantum::Beta,
        Quantum::Alpha,
        Quantum::Gamma,
        Quantum::Delta,
    ];
    let mut core = EntropyCore::with_slots(slots);
    let mut dice = Dice::live();
    assert_eq!(core.play(Some((0, 1)), &mut dice), 0);
    assert_eq!(core.play(Some((0, 0)), &mut dice), 0);
    assert_eq!(core.play(Some((0, 5)), &mut dice), 0);
    assert_eq!(core.play(Some((7, 2)), &mut dice), 0);
    assert_eq!(core.play(None, &mut dice), 0);
    assert_eq!(core.quanta, slots);
}

#[test]
fn spent_slots_never_match() {
    let mut core = EntropyCore::with_slots([
        Quantum::Spent,
        Quantum::Spent,
        Quantum::Alpha,
        Quantum::Gamma,
        Quantum::Delta,
    ]);
    let mut dice = Dice::live();
    assert_eq!(core.play(Some((0, 1)), &mut dice), 0);
}

#[test]
fn new_core_has_live_tags() {
    let mut dice = Dice::scripted(vec![0, 1, 2, 3, 4]);
    let core = EntropyCore::new(&mut dice);
    assert_eq!(
        core.quanta,
        [
            Quantum::Alpha,
            Quantum::Beta,
            Quantum::Gamma,
            Quantum::Delta,
            Quantum::Omega
        ]
    );
    assert_eq!(core.label(0), "alpha");
    let mut live = Dice::live();
    let core = EntropyCore::new(&mut live);
    for q in core.quanta.iter() {
        assert_ne!(*q, Quantum::Spent);
    }
}
