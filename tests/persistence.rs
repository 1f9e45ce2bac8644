use dice_roller::rng::{RngSource, RngState};
use dice_roller::save::{
    get_rng, get_save_file_from_seed, last_line_of, parse_state_line, rebuild_rng,
    state_line_string, SaveMode, SaveRecord, StateError,
};

fn chars(s: &str) -> Vec<char> {
    s.chars().collect()
}

fn apply(text: &mut String, rec: Option<SaveRecord>) {
    if let Some(r) = rec {
        if r.append {
            text.push_str(&r.line);
        } else {
            *text = r.line;
        }
    }
}

#[test]
fn state_line_format() {
    let st = RngState { state: 340282366920938463463374607431768211455, increment: 7 };
    assert_eq!(state_line_string(20, st), "20 - (340282366920938463463374607431768211455, 7)");
    assert_eq!(state_line_string(0, RngState { state: 0, increment: 1 }), "0 - (0, 1)");
}

#[test]
fn parse_state_line_reads_both_numbers() {
    let got = parse_state_line(&chars("17 - (123456789012345678901234567890, 99)"));
    assert_eq!(got, Some(RngState { state: 123456789012345678901234567890, increment: 99 }));
}

#[test]
fn parse_state_line_rejects_malformed() {
    assert_eq!(parse_state_line(&chars("17")), None);
    assert_eq!(parse_state_line(&chars("17 - (1, 3")), None);
    assert_eq!(parse_state_line(&chars("17 - (1,3)")), None);
    assert_eq!(parse_state_line(&chars(" - (1, 3)")), None);
    assert_eq!(parse_state_line(&chars("")), None);
    assert_eq!(
        parse_state_line(&chars("1 - (340282366920938463463374607431768211456, 3)")),
        None
    );
}

#[test]
fn parse_state_line_finds_first_match_anywhere() {
    let want = Some(RngState { state: 1, increment: 3 });
    assert_eq!(parse_state_line(&chars("17 - (1, 3) ")), want);
    assert_eq!(parse_state_line(&chars("x7 - (1, 3)")), want);
    assert_eq!(parse_state_line(&chars("roll: 12 - (1, 3) done")), want);
    assert_eq!(parse_state_line(&chars("1 - (1, 3) 2 - (5, 7)")), want);
    assert_eq!(parse_state_line(&chars("1 - (x, 3) 2 - (1, 3)")), want);
}

#[test]
fn parse_state_line_rejects_even_increment() {
    assert_eq!(parse_state_line(&chars("17 - (1, 2)")), None);
    assert_eq!(
        get_rng("abc", Some("1 - (1431655765, 228451646534695877054590590357362812780)\n")).err(),
        Some(StateError::CorruptPersistedState)
    );
}

#[test]
fn last_line_handles_breaks() {
    assert_eq!(last_line_of(&chars("")), None);
    assert_eq!(last_line_of(&chars("a\nb\n")), Some(chars("b")));
    assert_eq!(last_line_of(&chars("a\nb")), Some(chars("b")));
    assert_eq!(last_line_of(&chars("a\r\nbc\r\n")), Some(chars("bc")));
    assert_eq!(last_line_of(&chars("a\n\n")), Some(chars("")));
}

#[test]
fn rebuild_reads_the_last_line() {
    let text = "3 - (1, 3)\n5 - (42, 43)\n";
    let rng = rebuild_rng(text).unwrap();
    assert_eq!(rng.export_state(), RngState { state: 42, increment: 43 });
    assert!(rebuild_rng("3 - (1, 3)\nrubbish\n").is_none());
    assert!(rebuild_rng("").is_none());
}

#[test]
fn get_rng_seeds_without_file() {
    let a = get_rng("abc", None).unwrap();
    assert_eq!(a.export_state(), RngSource::seed_from("abc").export_state());
}

#[test]
fn get_rng_restores_from_file() {
    let a = get_rng("abc", Some("4 - (10, 11)\n")).unwrap();
    assert_eq!(a.export_state(), RngState { state: 10, increment: 11 });
}

#[test]
fn get_rng_corrupt_file_is_an_error() {
    assert_eq!(get_rng("abc", Some("4\n")).err(), Some(StateError::CorruptPersistedState));
    assert_eq!(get_rng("abc", Some("")).err(), Some(StateError::CorruptPersistedState));
}

#[test]
fn save_file_name() {
    assert_eq!(get_save_file_from_seed("abc"), "abc.seed.state");
    assert_eq!(get_save_file_from_seed(""), ".seed.state");
}

#[test]
fn records_per_mode() {
    let st = RngState { state: 5, increment: 9 };
    assert!(SaveMode::NONE.record(4, st).is_none());
    let last = SaveMode::LAST.record(4, st).unwrap();
    assert_eq!((last.line.as_str(), last.append), ("4 - (5, 9)\n", false));
    let rolls = SaveMode::ROLLS.record(4, st).unwrap();
    assert_eq!((rolls.line.as_str(), rolls.append), ("4\n", true));
    let full = SaveMode::FULL.record(4, st).unwrap();
    assert_eq!((full.line.as_str(), full.append), ("4 - (5, 9)\n", true));
}

#[test]
fn full_mode_five_d20_rolls_resume() {
    let mut rng = RngSource::seed_from("abc");
    let mut file = String::new();
    for _ in 0..5 {
        let v = rng.roll(1, 20);
        apply(&mut file, SaveMode::FULL.record(v, rng.export_state()));
    }
    let lines: Vec<&str> = file.lines().collect();
    assert_eq!(lines.len(), 5);
    for l in &lines {
        assert!(parse_state_line(&chars(l)).is_some());
    }
    let mut restored = get_rng("abc", Some(&file)).unwrap();
    assert_eq!(restored.roll(1, 20), rng.roll(1, 20));
}

#[test]
fn last_mode_keeps_one_line() {
    let mut rng = RngSource::seed_from("abc");
    let mut file = String::new();
    let mut line = String::new();
    for _ in 0..3 {
        let v = rng.roll(1, 20);
        let rec = SaveMode::LAST.record(v, rng.export_state());
        line = rec.as_ref().unwrap().line.clone();
        apply(&mut file, rec);
    }
    assert_eq!(file.lines().count(), 1);
    assert_eq!(file, line);
    let mut restored = rebuild_rng(&file).unwrap();
    assert_eq!(restored.roll(1, 20), rng.roll(1, 20));
}

#[test]
fn rolls_mode_appends_values_only() {
    let mut rng = RngSource::seed_from("abc");
    let mut file = String::new();
    let mut values = Vec::new();
    for _ in 0..3 {
        let v = rng.roll(1, 100);
        values.push(v.to_string());
        apply(&mut file, SaveMode::ROLLS.record(v, rng.export_state()));
    }
    assert_eq!(file.lines().collect::<Vec<_>>(), values);
}
