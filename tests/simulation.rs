use rift_runner::{
    Archetype, DeployError, Dice, Field, FieldKind, HexCoord, Hostile, Outcome, Planet, Progress,
    RiftRunner,
};

/// A run whose first planet has strength 1.
fn fresh() -> RiftRunner {
    RiftRunner::new(&mut Dice::scripted(vec![0]))
}

#[test]
fn start_state() {
    let s = fresh();
    assert_eq!(s.cycle, 1);
    assert_eq!(s.rift_energy, 50);
    assert_eq!(s.dissolved_count, 0);
    assert_eq!(s.core_shard, HexCoord::new(0, 0));
    assert!(s.fields.is_empty());
    assert!(s.hostiles.is_empty());
    assert!(s.stasis_markers.is_empty());
    assert!(!s.core_slowed);
    assert_eq!(s.planets.len(), 1);
    assert_eq!(s.current().center, HexCoord::new(0, 0));
    assert_eq!(s.current().archetype, Archetype::Gloopers);
    assert_eq!(s.current().base_strength, 1);
    assert!(!s.is_game_over());
    assert!(!s.is_victory());
}

#[test]
fn cost_formula_values() {
    assert_eq!(RiftRunner::field_cost_with(FieldKind::Pulse, 1, 0), 17);
    assert_eq!(RiftRunner::field_cost_with(FieldKind::Pulse, 1, -3), 14);
    assert_eq!(RiftRunner::field_cost_with(FieldKind::Weave, 2, 4), 54);
    assert_eq!(RiftRunner::field_cost_with(FieldKind::Temporal, 3, -5), 74);
    let s = fresh();
    // jitter -4 + 6 % 9 = 2
    assert_eq!(s.get_field_cost(FieldKind::Weave, &mut Dice::scripted(vec![6])), 47);
    let mut live = Dice::live();
    for _ in 0..50 {
        let c = s.get_field_cost(FieldKind::Temporal, &mut live);
        assert!((58..=68).contains(&c));
    }
}

#[test]
fn deploy_pulse_from_start() {
    let mut s = fresh();
    let mut dice = Dice::live();
    let cost = s.deploy_field(1, 0, FieldKind::Pulse, &mut dice).unwrap();
    assert!((14..=20).contains(&cost));
    assert_eq!(s.rift_energy, 50 - cost);
    assert_eq!(s.fields, vec![Field { at: HexCoord::new(1, 0), kind: FieldKind::Pulse }]);
}

#[test]
fn deploy_pulse_scripted_cost() {
    let mut s = fresh();
    // jitter -3 + 3 % 7 = 0
    let cost = s.deploy_field(1, 0, FieldKind::Pulse, &mut Dice::scripted(vec![3]));
    assert_eq!(cost, Ok(17));
    assert_eq!(s.rift_energy, 33);
    assert_eq!(s.fields[0].at, HexCoord::new(1, 0));
    assert_eq!(s.fields[0].kind, FieldKind::Pulse);
}

#[test]
fn deploy_rejects_insufficient_energy() {
    let mut s = fresh();
    let r = s.deploy_field(0, 1, FieldKind::Temporal, &mut Dice::live());
    assert_eq!(r, Err(DeployError::InsufficientEnergy));
    assert_eq!(s.rift_energy, 50);
    assert!(s.fields.is_empty());
    assert_eq!(
        s.deploy_field_at_cost(0, 1, FieldKind::Pulse, 51),
        Err(DeployError::InsufficientEnergy)
    );
}

#[test]
fn deploy_rejects_occupied_hex() {
    let mut s = fresh();
    let mut dice = Dice::live();
    s.deploy_field(1, 0, FieldKind::Pulse, &mut dice).unwrap();
    let energy = s.rift_energy;
    let fields = s.fields.clone();
    let r = s.deploy_field(1, 0, FieldKind::Pulse, &mut dice);
    assert_eq!(r, Err(DeployError::Occupied));
    assert_eq!(s.rift_energy, energy);
    assert_eq!(s.fields, fields);
}

#[test]
fn deploy_rejects_off_planet() {
    let mut s = fresh();
    let r = s.deploy_field(5, 5, FieldKind::Pulse, &mut Dice::live());
    assert_eq!(r, Err(DeployError::OffPlanet));
    assert_eq!(s.rift_energy, 50);
    assert!(s.fields.is_empty());
    assert_eq!(s.deploy_field_at_cost(2, 0, FieldKind::Pulse, 10), Err(DeployError::OffPlanet));
}

#[test]
fn deploy_at_cost_exact() {
    let mut s = fresh();
    assert_eq!(s.deploy_field_at_cost(-1, 1, FieldKind::Weave, 45), Ok(()));
    assert_eq!(s.rift_energy, 5);
    assert_eq!(s.fields, vec![Field { at: HexCoord::new(-1, 1), kind: FieldKind::Weave }]);
}

#[test]
fn place_hostile_checks_hex() {
    let mut s = fresh();
    assert!(!s.place_hostile(0, 0, 3));
    assert!(!s.place_hostile(3, 0, 3));
    assert!(s.place_hostile(0, 1, 3));
    assert!(!s.place_hostile(0, 1, 2));
    assert_eq!(s.hostiles, vec![Hostile { at: HexCoord::new(0, 1), essence: 3 }]);
}

#[test]
fn pulse_dissolves_weak_hostile_in_range() {
    let mut s = fresh();
    s.deploy_field(1, 0, FieldKind::Pulse, &mut Dice::scripted(vec![3])).unwrap();
    assert!(s.place_hostile(-1, 0, 1));
    assert_eq!(HexCoord::new(-1, 0).distance(&HexCoord::new(1, 0)), 2);
    // radius 1 + 1 % 2 = 2, damage 1
    let removed = s.resolve_fields(&mut Dice::scripted(vec![1, 0]));
    assert_eq!(removed, 1);
    assert!(s.hostiles.is_empty());
    assert_eq!(s.dissolved_count, 1);
}

#[test]
fn pulse_always_hits_adjacent_hostile() {
    let mut s = fresh();
    s.deploy_field(1, 0, FieldKind::Pulse, &mut Dice::scripted(vec![3])).unwrap();
    assert!(s.place_hostile(0, 1, 1));
    let removed = s.resolve_fields(&mut Dice::live());
    assert_eq!(removed, 1);
    assert_eq!(s.dissolved_count, 1);
}

#[test]
fn pulse_damage_is_counted_once() {
    let mut s = fresh();
    s.rift_energy = 100;
    s.deploy_field(1, 0, FieldKind::Pulse, &mut Dice::scripted(vec![3])).unwrap();
    s.deploy_field(0, 1, FieldKind::Pulse, &mut Dice::scripted(vec![3])).unwrap();
    assert!(s.place_hostile(1, -1, 2));
    // first pulse: radius 1, damage 1; second pulse: radius 2, damage 4
    let removed = s.resolve_fields(&mut Dice::scripted(vec![0, 0, 1, 3]));
    assert_eq!(removed, 1);
    assert_eq!(s.dissolved_count, 1);
    assert!(s.hostiles.is_empty());
}

#[test]
fn weave_credits_energy() {
    let mut s = fresh();
    // jitter -4 + 4 % 9 = 0, cost 45
    s.deploy_field(0, -1, FieldKind::Weave, &mut Dice::scripted(vec![4])).unwrap();
    assert_eq!(s.rift_energy, 5);
    // trigger fires, energy 10 + 5 = 15, disruption does not fire
    let removed = s.resolve_fields(&mut Dice::scripted(vec![0, 5, 19]));
    assert_eq!(removed, 0);
    assert_eq!(s.rift_energy, 20);
}

#[test]
fn weave_disrupts_first_hostile() {
    let mut s = fresh();
    s.deploy_field(0, -1, FieldKind::Weave, &mut Dice::scripted(vec![4])).unwrap();
    assert!(s.place_hostile(-1, 1, 1));
    // trigger, energy 10, disruption, hit
    let removed = s.resolve_fields(&mut Dice::scripted(vec![0, 0, 0, 0]));
    assert_eq!(removed, 1);
    assert_eq!(s.dissolved_count, 1);
    assert_eq!(s.rift_energy, 15);
}

#[test]
fn temporal_places_stasis_when_nothing_moves() {
    let mut s = fresh();
    s.rift_energy = 100;
    s.deploy_field(1, 0, FieldKind::Temporal, &mut Dice::scripted(vec![5])).unwrap();
    assert_eq!(s.rift_energy, 100 - 63);
    let removed = s.resolve_fields(&mut Dice::scripted(vec![0, 0]));
    assert_eq!(removed, 0);
    assert_eq!(s.stasis_markers, vec![HexCoord::new(0, 0)]);
}

#[test]
fn temporal_shifts_hostile_in_range() {
    let mut s = fresh();
    s.rift_energy = 100;
    s.deploy_field(1, 0, FieldKind::Temporal, &mut Dice::scripted(vec![5])).unwrap();
    assert!(s.place_hostile(0, -1, 4));
    // trigger, then direction 5: (0, -1) -> (-1, 0), on the planet and free
    let removed = s.resolve_fields(&mut Dice::scripted(vec![0, 5]));
    assert_eq!(removed, 0);
    assert_eq!(s.hostiles, vec![Hostile { at: HexCoord::new(-1, 0), essence: 4 }]);
    assert!(s.stasis_markers.is_empty());
}

#[test]
fn core_moves_to_first_free_neighbour() {
    let mut s = fresh();
    s.move_core(&mut Dice::scripted(vec![0, 0]));
    assert_eq!(s.core_shard, HexCoord::new(1, 0));
    assert!(!s.core_slowed);
}

#[test]
fn slowed_core_recovers_without_moving() {
    let mut s = fresh();
    s.core_slowed = true;
    s.move_core(&mut Dice::scripted(vec![0]));
    assert!(!s.core_slowed);
    assert_eq!(s.core_shard, HexCoord::new(0, 0));
    s.core_slowed = true;
    s.move_core(&mut Dice::scripted(vec![1]));
    assert!(s.core_slowed);
    assert_eq!(s.core_shard, HexCoord::new(0, 0));
}

#[test]
fn hostile_steps_onto_core_and_run_is_lost() {
    let mut s = fresh();
    assert!(s.place_hostile(1, 0, 5));
    // no acid spit (3 % 4 >= 1)
    s.resolve_hostiles(&mut Dice::scripted(vec![3]));
    assert_eq!(s.hostiles, vec![Hostile { at: HexCoord::new(0, 0), essence: 5 }]);
    assert!(s.is_game_over());
}

#[test]
fn stasis_blocks_one_step() {
    let mut s = fresh();
    assert!(s.place_hostile(1, 0, 5));
    s.stasis_markers.push(HexCoord::new(0, 0));
    s.resolve_hostiles(&mut Dice::scripted(vec![3]));
    assert_eq!(s.hostiles[0].at, HexCoord::new(1, 0));
    assert!(s.stasis_markers.is_empty());
    assert!(!s.is_game_over());
}

#[test]
fn acid_spit_slows_adjacent_core() {
    let mut s = fresh();
    s.deploy_field(0, -1, FieldKind::Pulse, &mut Dice::scripted(vec![3])).unwrap();
    assert!(s.place_hostile(1, -1, 5));
    // spit fires; the field at (0, -1) comes before the core in direction order and
    // the corrosion draw misses (5 % 10 >= 3), then the core at (0, 0) is slowed
    s.resolve_hostiles(&mut Dice::scripted(vec![0, 5]));
    assert!(s.core_slowed);
    assert_eq!(s.fields.len(), 1);
}

#[test]
fn acid_spit_corrodes_field() {
    let mut s = fresh();
    s.deploy_field(0, -1, FieldKind::Pulse, &mut Dice::scripted(vec![3])).unwrap();
    assert!(s.place_hostile(1, -1, 5));
    s.resolve_hostiles(&mut Dice::scripted(vec![0, 0]));
    assert!(s.fields.is_empty());
    assert!(!s.core_slowed);
}

#[test]
fn spawn_uses_first_free_hex() {
    let mut s = fresh();
    s.spawn_ethereal(&mut Dice::scripted(vec![0, 0]));
    assert_eq!(s.hostiles, vec![Hostile { at: HexCoord::new(1, 0), essence: 1 }]);
}

#[test]
fn spawn_ambush_on_staregazer_planet() {
    let mut s = fresh();
    s.cycle = 6;
    s.planets[0] = Planet::new(6, HexCoord::new(0, 0), &mut Dice::scripted(vec![0]));
    // wave, extra 0, ambush fires on hex 2 = (-1, 0), extra 1 + 1 = 2
    s.spawn_ethereal(&mut Dice::scripted(vec![0, 0, 0, 2, 1]));
    assert_eq!(
        s.hostiles,
        vec![
            Hostile { at: HexCoord::new(1, 0), essence: 6 },
            Hostile { at: HexCoord::new(-1, 0), essence: 8 }
        ]
    );
}

#[test]
fn progression_unchanged_below_threshold() {
    let mut s = fresh();
    s.dissolved_count = 2;
    assert_eq!(s.check_cycle_progression(&mut Dice::live()), Progress::Unchanged);
    assert_eq!(s.cycle, 1);
    assert_eq!(s.planets.len(), 1);
    assert_eq!(s.rift_energy, 50);
}

#[test]
fn progression_advances_and_resets_planet() {
    let mut s = fresh();
    s.deploy_field(1, 0, FieldKind::Pulse, &mut Dice::scripted(vec![3])).unwrap();
    assert!(s.place_hostile(0, 1, 2));
    s.stasis_markers.push(HexCoord::new(-1, 0));
    s.core_slowed = true;
    s.dissolved_count = 3;
    // offset (2, 0), strength 2, bonus 50
    let p = s.check_cycle_progression(&mut Dice::scripted(vec![0, 2, 0, 0]));
    assert_eq!(p, Progress::NextCycle);
    assert_eq!(s.cycle, 2);
    assert_eq!(s.planets.len(), 2);
    assert_eq!(s.current_planet, 1);
    assert_eq!(s.current().center, HexCoord::new(2, 0));
    assert_eq!(s.core_shard, HexCoord::new(2, 0));
    assert!(s.fields.is_empty());
    assert!(s.hostiles.is_empty());
    assert!(s.stasis_markers.is_empty());
    assert!(!s.core_slowed);
    assert_eq!(s.rift_energy, 33 + 50);
    assert_eq!(s.dissolved_count, 3);
}

#[test]
fn progression_live_offsets_in_range() {
    let mut s = fresh();
    s.dissolved_count = 3;
    let p = s.check_cycle_progression(&mut Dice::live());
    assert_eq!(p, Progress::NextCycle);
    let c = s.current().center;
    assert!((2..=4).contains(&c.q));
    assert!((-2..=2).contains(&c.r));
    assert!((100..=150).contains(&s.rift_energy));
}

#[test]
fn victory_after_last_cycle() {
    let mut s = fresh();
    s.cycle = 15;
    s.dissolved_count = 45;
    let p = s.check_cycle_progression(&mut Dice::live());
    assert_eq!(p, Progress::Victory);
    assert_eq!(s.cycle, 16);
    assert!(s.is_victory());
    assert_eq!(s.planets.len(), 1);
    assert_eq!(s.rift_energy, 50);
    assert_eq!(s.update(&mut Dice::live()), Outcome::Victory);
    assert_eq!(s.cycle, 16);
    assert_eq!(s.rift_energy, 50);
}

#[test]
fn add_rift_energy_credits() {
    let mut s = fresh();
    s.add_rift_energy(7);
    assert_eq!(s.rift_energy, 57);
    s.add_rift_energy(0);
    assert_eq!(s.rift_energy, 57);
    s.rift_energy = i64::MAX - 1;
    s.add_rift_energy(5);
    assert_eq!(s.rift_energy, i64::MAX);
}

#[test]
fn game_over_when_hostile_on_core() {
    let mut s = fresh();
    s.hostiles.push(Hostile { at: HexCoord::new(0, 0), essence: 1 });
    assert!(s.is_game_over());
}

#[test]
fn ticks_keep_counters_monotone() {
    let mut dice = Dice::live();
    for _ in 0..20 {
        let mut s = RiftRunner::new(&mut dice);
        for t in 0..300 {
            if t % 3 == 0 {
                let q = (t % 3) as i32 - 1;
                let r = ((t / 3) % 3) as i32 - 1;
                let center = s.current().center;
                let _ = s.deploy_field(center.q + q, center.r + r, FieldKind::Pulse, &mut dice);
            }
            s.spawn_ethereal(&mut dice);
            let before_dissolved = s.dissolved_count;
            let before_cycle = s.cycle;
            let outcome = s.update(&mut dice);
            assert!(s.dissolved_count >= before_dissolved);
            assert!(s.cycle == before_cycle || s.cycle == before_cycle + 1);
            assert_eq!(s.cycle == before_cycle + 1, s.dissolved_count >= 3 * before_cycle);
            match outcome {
                Outcome::Loss => {
                    assert!(s.is_game_over());
                    break;
                }
                Outcome::Victory => {
                    assert!(s.is_victory());
                    break;
                }
                Outcome::Ongoing => assert!(!s.is_game_over()),
            }
        }
    }
}

#[test]
fn spawn_odds_values() {
    assert_eq!(rift_runner::runner::spawn_odds(1), 10);
    assert_eq!(rift_runner::runner::spawn_odds(5), 14);
    assert_eq!(rift_runner::runner::spawn_odds(6), 15);
    assert_eq!(rift_runner::runner::spawn_odds(15), 15);
}

#[test]
fn weave_targets_first_hex_in_planet_order() {
    let mut s = fresh();
    s.deploy_field(0, -1, FieldKind::Weave, &mut Dice::scripted(vec![4])).unwrap();
    assert!(s.place_hostile(-1, 0, 1));
    assert!(s.place_hostile(1, 0, 1));
    // (1, 0) comes before (-1, 0) in the planet's hex order
    let removed = s.resolve_fields(&mut Dice::scripted(vec![0, 0, 0, 0]));
    assert_eq!(removed, 1);
    assert_eq!(s.hostiles, vec![Hostile { at: HexCoord::new(-1, 0), essence: 1 }]);
}

#[test]
fn step_breaks_ties_by_direction_order() {
    let mut s = fresh();
    s.core_shard = HexCoord::new(1, 0);
    assert!(s.place_hostile(-1, 1, 3));
    // (0, 1) and (0, 0) are both one hex from the core; (0, 1) comes first
    assert_eq!(s.step_toward_core(HexCoord::new(-1, 1)), HexCoord::new(0, 1));
    s.resolve_hostiles(&mut Dice::scripted(vec![3]));
    assert_eq!(s.hostiles[0].at, HexCoord::new(0, 1));
}

#[test]
fn tick_keeps_energy_and_fields_in_bounds() {
    let mut dice = Dice::live();
    for _ in 0..50 {
        let mut s = RiftRunner::new(&mut dice);
        s.rift_energy = 500;
        let _ = s.deploy_field(1, 0, FieldKind::Weave, &mut dice);
        let _ = s.deploy_field(0, 1, FieldKind::Pulse, &mut dice);
        for _ in 0..30 {
            s.spawn_ethereal(&mut dice);
            let energy = s.rift_energy;
            let weaves = s.fields.iter().filter(|f| f.kind == FieldKind::Weave).count() as i64;
            let fields = s.fields.len();
            let outcome = s.update(&mut dice);
            assert!(s.rift_energy >= energy);
            assert!(s.rift_energy <= energy + 25 * weaves + 120);
            assert!(s.fields.len() <= fields);
            if outcome != Outcome::Ongoing {
                break;
            }
        }
    }
}
