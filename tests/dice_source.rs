use rift_runner::Dice;

#[test]
fn scripted_range_replays_rolls() {
    let mut d = Dice::scripted(vec![7, 0, 12]);
    assert_eq!(d.range(10, 12), 11);
    assert_eq!(d.range(-3, 3), -3);
    assert_eq!(d.range(1, 4), 1);
}

#[test]
fn scripted_chance_replays_rolls() {
    let mut d = Dice::scripted(vec![2, 3, 12, 0, 9]);
    assert!(d.chance(3, 10));
    assert!(!d.chance(3, 10));
    assert!(d.chance(3, 10));
    assert!(!d.chance(0, 4));
    assert!(d.chance(10, 10));
}

#[test]
fn exhausted_script_stays_in_range() {
    let mut d = Dice::scripted(vec![1]);
    assert_eq!(d.range(5, 9), 6);
    for _ in 0..100 {
        let v = d.range(5, 9);
        assert!((5..=9).contains(&v));
    }
}

#[test]
fn live_range_varies_and_stays_in_range() {
    let mut d = Dice::live();
    let mut seen = std::collections::HashSet::new();
    for _ in 0..300 {
        let v = d.range(0, 1000);
        assert!((0..=1000).contains(&v));
        seen.insert(v);
    }
    assert!(seen.len() > 1);
    assert_eq!(d.range(7, 7), 7);
}

#[test]
fn live_chance_gives_both_outcomes() {
    let mut d = Dice::live();
    let mut yes = 0;
    let mut no = 0;
    for _ in 0..300 {
        if d.chance(1, 2) {
            yes += 1;
        } else {
            no += 1;
        }
    }
    assert!(yes > 0 && no > 0);
    for _ in 0..50 {
        assert!(!d.chance(0, 5));
        assert!(d.chance(5, 5));
    }
}
