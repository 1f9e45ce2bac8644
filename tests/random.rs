use dice_roller::rng::{RngSource, RngState};

fn d20s(rng: &mut RngSource, n: usize) -> Vec<u16> {
    (0..n).map(|_| rng.roll(1, 20)).collect()
}

#[test]
fn same_seed_same_sequence() {
    let mut a = RngSource::seed_from("abc");
    let mut b = RngSource::seed_from("abc");
    let bounds: Vec<(u16, u16)> = vec![(1, 6), (1, 100), (5, 9), (1, 20), (1, 3), (0, 65535)];
    assert_eq!(a.roll_many(&bounds), b.roll_many(&bounds));
    assert_eq!(a.export_state(), b.export_state());
}

#[test]
fn empty_seed_is_accepted_and_repeatable() {
    let mut a = RngSource::seed_from("");
    let mut b = RngSource::seed_from("");
    assert_eq!(d20s(&mut a, 10), d20s(&mut b, 10));
}

#[test]
fn different_seeds_different_states() {
    let a = RngSource::seed_from("abc");
    let b = RngSource::seed_from("abd");
    assert_ne!(a.export_state(), b.export_state());
}

#[test]
fn restore_after_draws_continues() {
    let mut first = RngSource::seed_from("xyzzy");
    d20s(&mut first, 7);
    let saved = first.export_state();
    let mut restored = RngSource::restore_state(saved).unwrap();
    assert_eq!(d20s(&mut restored, 12), d20s(&mut first, 12));
}

#[test]
fn export_then_restore_is_no_op() {
    let mut first = RngSource::seed_from("abc");
    let mut restored = RngSource::restore_state(first.export_state()).unwrap();
    assert_eq!(restored.export_state(), first.export_state());
    assert_eq!(d20s(&mut restored, 5), d20s(&mut first, 5));
}

#[test]
fn roll_advances_the_state() {
    let mut rng = RngSource::seed_from("abc");
    let before = rng.export_state();
    rng.roll(1, 6);
    let after = rng.export_state();
    assert_ne!(before.state, after.state);
    assert_eq!(before.increment, after.increment);
}

#[test]
fn d6_stays_in_range_over_ten_thousand_draws() {
    let mut rng = RngSource::seed_from("abc");
    let mut seen = [false; 7];
    for _ in 0..10_000 {
        let v = rng.roll(1, 6);
        assert!((1..=6).contains(&v));
        seen[v as usize] = true;
    }
    assert!(seen[1..].iter().all(|s| *s));
}

#[test]
fn single_value_range() {
    let mut rng = RngSource::restore_state(RngState { state: 12345, increment: 67891 }).unwrap();
    assert_eq!(rng.roll(9, 9), 9);
}

#[test]
fn even_increment_is_refused() {
    assert!(RngSource::restore_state(RngState { state: 1431655765, increment: 228451646534695877054590590357362812780 }).is_none());
    assert!(RngSource::restore_state(RngState { state: 7, increment: 0 }).is_none());
}

#[test]
fn exported_increment_is_odd_and_kept() {
    let mut rng = RngSource::seed_from("abc");
    let inc = rng.export_state().increment;
    assert_eq!(inc % 2, 1);
    for _ in 0..20 {
        rng.roll(1, 3);
        assert_eq!(rng.export_state().increment, inc);
    }
}
