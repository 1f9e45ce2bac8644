use dice_roller::app::App;
use dice_roller::dice::{Dice, DiceError};
use dice_roller::rng::RngSource;
use dice_roller::stateful_list::StatefulList;

#[test]
fn upper_bounds_follow_the_faces() {
    let want: Vec<u16> = vec![3, 4, 6, 8, 10, 12, 20, 100];
    let got: Vec<u16> = Dice::all().iter().map(|d| d.get_upper_bound()).collect();
    assert_eq!(got, want);
    assert_eq!(Dice::get_upper_bound_of_dice(&Dice::D100), 100);
}

#[test]
fn labels_in_declaration_order() {
    let got: Vec<String> = Dice::all().iter().map(|d| d.label()).collect();
    assert_eq!(got, vec!["D3", "D4", "D6", "D8", "D10", "D12", "D20", "D100"]);
}

#[test]
fn parse_ignores_ascii_case() {
    assert_eq!(Dice::from_label("D20"), Ok(Dice::D20));
    assert_eq!(Dice::from_label("d20"), Ok(Dice::D20));
    assert_eq!(Dice::from_label("d100"), Ok(Dice::D100));
    assert_eq!(Dice::from_label("D10"), Ok(Dice::D10));
}

#[test]
fn parse_rejects_unknown_names() {
    assert_eq!(Dice::from_label("d7"), Err(DiceError::UnknownDieKind));
    assert_eq!(Dice::from_label(""), Err(DiceError::UnknownDieKind));
    assert_eq!(Dice::from_label("D1000"), Err(DiceError::UnknownDieKind));
    assert_eq!(Dice::from_label(" d6"), Err(DiceError::UnknownDieKind));
}

#[test]
fn roll_die_unknown_name_leaves_source() {
    let mut rng = RngSource::seed_from("abc");
    let before = rng.export_state();
    assert_eq!(Dice::roll_die(&mut rng, "d5"), Err(DiceError::UnknownDieKind));
    assert_eq!(rng.export_state(), before);
}

#[test]
fn roll_die_stays_on_the_die() {
    let mut rng = RngSource::seed_from("abc");
    for _ in 0..500 {
        let v = Dice::roll_die(&mut rng, "d12").unwrap();
        assert!((1..=12).contains(&v));
    }
}

#[test]
fn list_next_from_unset_and_wrap() {
    let mut l = StatefulList::with_items(vec![10, 20, 30]);
    assert_eq!(l.selected(), None);
    l.next();
    assert_eq!(l.selected(), Some(0));
    l.next();
    l.next();
    assert_eq!(l.selected(), Some(2));
    l.next();
    assert_eq!(l.selected(), Some(0));
}

#[test]
fn list_previous_wraps_to_last() {
    let mut l = StatefulList::with_items(vec!['a', 'b', 'c', 'd']);
    l.previous();
    assert_eq!(l.selected(), Some(0));
    l.previous();
    assert_eq!(l.selected(), Some(3));
    l.previous();
    assert_eq!(l.selected(), Some(2));
}

#[test]
fn list_empty_never_selects() {
    let mut l: StatefulList<u8> = StatefulList::with_items(vec![]);
    l.next();
    assert_eq!(l.selected(), None);
    l.previous();
    assert_eq!(l.selected(), None);
}

#[test]
fn list_full_round_returns_to_first_index() {
    for len in 1..8usize {
        let mut l = StatefulList::with_items((0..len).collect::<Vec<usize>>());
        l.next();
        let first = l.selected();
        for _ in 0..len {
            l.next();
        }
        assert_eq!(l.selected(), first);
    }
}

#[test]
fn list_previous_undoes_next() {
    let mut l = StatefulList::with_items(vec![1, 2, 3, 4, 5]);
    l.next();
    for _ in 0..7 {
        let here = l.selected();
        l.next();
        l.previous();
        assert_eq!(l.selected(), here);
        l.previous();
        l.next();
        assert_eq!(l.selected(), here);
        l.next();
    }
}

#[test]
fn app_starts_with_catalog_and_empty_log() {
    let app = App::new();
    assert_eq!(app.items.items(), &vec!["D3", "D4", "D6", "D8", "D10", "D12", "D20", "D100"]);
    assert_eq!(app.items.selected(), None);
    assert!(app.events.is_empty());
}

#[test]
fn app_roll_without_selection_is_silent() {
    let mut app = App::new();
    let mut rng = RngSource::seed_from("abc");
    let before = rng.export_state();
    assert_eq!(app.roll_die(&mut rng), None);
    assert!(app.events.is_empty());
    assert_eq!(rng.export_state(), before);
}

#[test]
fn app_roll_logs_the_value() {
    let mut app = App::new();
    let mut rng = RngSource::seed_from("abc");
    let mut twin = RngSource::seed_from("abc");
    app.items.next();
    app.items.next();
    app.items.next();
    let v = app.roll_die(&mut rng).unwrap();
    assert_eq!(v, twin.roll(1, 6));
    assert!((1..=6).contains(&v));
    assert_eq!(app.events, vec![v]);
    let w = app.roll_die(&mut rng).unwrap();
    assert_eq!(app.events, vec![v, w]);
}
