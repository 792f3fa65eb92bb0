use rift_runner::{Archetype, Dice, HexCoord, PassiveEffect, Planet};

#[test]
fn distance_examples() {
    let o = HexCoord::new(0, 0);
    assert_eq!(o.distance(&HexCoord::new(2, -1)), 2);
    assert_eq!(o.distance(&HexCoord::new(3, 0)), 3);
    assert_eq!(o.distance(&HexCoord::new(-2, -2)), 4);
    assert_eq!(HexCoord::new(1, 0).distance(&HexCoord::new(-1, 0)), 2);
}

#[test]
fn distance_symmetric_and_zero_on_self() {
    let pts = [
        HexCoord::new(0, 0),
        HexCoord::new(5, -3),
        HexCoord::new(-7, 2),
        HexCoord::new(100, 100),
        HexCoord::new(i32::MAX, i32::MIN),
    ];
    for a in pts.iter() {
        assert_eq!(a.distance(a), 0);
        for b in pts.iter() {
            assert_eq!(a.distance(b), b.distance(a));
            assert!(a.distance(b) >= 0);
        }
    }
}

#[test]
fn neighbors_in_fixed_order() {
    let c = HexCoord::new(3, -2);
    let ns = c.neighbors();
    assert_eq!(
        ns,
        vec![
            HexCoord::new(4, -2),
            HexCoord::new(2, -2),
            HexCoord::new(3, -1),
            HexCoord::new(3, -3),
            HexCoord::new(4, -3),
            HexCoord::new(2, -1),
        ]
    );
}

#[test]
fn neighbors_adjacent_and_distinct() {
    let c = HexCoord::new(-4, 9);
    let ns = c.neighbors();
    assert_eq!(ns.len(), 6);
    for (i, a) in ns.iter().enumerate() {
        assert_eq!(c.distance(a), 1);
        for b in ns.iter().skip(i + 1) {
            assert_ne!(a, b);
        }
    }
}

#[test]
fn planet_archetype_by_cycle() {
    let mut dice = Dice::live();
    let o = HexCoord::new(0, 0);
    let p = Planet::new(1, o, &mut dice);
    assert_eq!(p.archetype, Archetype::Gloopers);
    assert_eq!(p.effect, PassiveEffect::AcidPools);
    assert_eq!(p.name(), "Slime Pits");
    let p = Planet::new(5, o, &mut dice);
    assert_eq!(p.archetype, Archetype::Gloopers);
    let p = Planet::new(6, o, &mut dice);
    assert_eq!(p.archetype, Archetype::Staregazers);
    assert_eq!(p.effect, PassiveEffect::JumpscareShadows);
    assert_eq!(p.name(), "Triad Moons");
    let p = Planet::new(10, o, &mut dice);
    assert_eq!(p.archetype, Archetype::Staregazers);
    let p = Planet::new(11, o, &mut dice);
    assert_eq!(p.archetype, Archetype::Eyekings);
    assert_eq!(p.effect, PassiveEffect::TripleThreat);
    assert_eq!(p.name(), "Green Abyss");
    let p = Planet::new(15, o, &mut dice);
    assert_eq!(p.archetype, Archetype::Eyekings);
}

#[test]
fn planet_strength_is_cycle_multiple() {
    let mut dice = Dice::live();
    for cycle in 1..=15u64 {
        let p = Planet::new(cycle, HexCoord::new(4, -1), &mut dice);
        let s = p.base_strength;
        let c = cycle as i64;
        assert!(s == c || s == 2 * c || s == 3 * c);
    }
    let mut scripted = Dice::scripted(vec![2]);
    let p = Planet::new(4, HexCoord::new(0, 0), &mut scripted);
    assert_eq!(p.base_strength, 12);
}

#[test]
fn planet_contains_its_cluster() {
    let mut dice = Dice::live();
    let center = HexCoord::new(6, -2);
    let p = Planet::new(3, center, &mut dice);
    assert_eq!(p.hexes.len(), 7);
    assert_eq!(p.hexes[0], center);
    assert!(p.contains(&center));
    for n in center.neighbors() {
        assert!(p.contains(&n));
    }
    assert!(!p.contains(&HexCoord::new(8, -2)));
    assert!(!p.contains(&HexCoord::new(0, 0)));
    assert!(p.contains(&HexCoord::new(5, -1)));
}
