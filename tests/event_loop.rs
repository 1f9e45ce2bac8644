use dice_roller::app::App;
use dice_roller::rng::RngSource;
use dice_roller::ui::{
    action_for, handle_event, poll_timeout_ms, visible_events, visible_start, worker_step, Action,
    Event, Key, Outcome, TICK_RATE_MS,
};

#[test]
fn window_of_ten_in_four_rows() {
    let log: Vec<u16> = (1..=10).collect();
    assert_eq!(visible_start(10, 4, 1), 6);
    assert_eq!(visible_events(&log, 4, 1), log[6..10].to_vec());
}

#[test]
fn window_of_ten_in_twenty_rows() {
    let log: Vec<u16> = (1..=10).collect();
    assert_eq!(visible_start(10, 20, 1), 0);
    assert_eq!(visible_events(&log, 20, 1), log);
}

#[test]
fn window_edges() {
    let empty: Vec<u16> = vec![];
    assert!(visible_events(&empty, 4, 1).is_empty());
    let log: Vec<u16> = (1..=5).collect();
    assert!(visible_events(&log, 0, 1).is_empty());
    assert_eq!(visible_events(&log, 5, 2), vec![4, 5]);
    assert_eq!(visible_events(&log, 5, 1), log);
}

#[test]
fn keys_map_to_actions() {
    assert_eq!(action_for(&Event::Input(Key::Char('q'))), Action::Quit);
    assert_eq!(action_for(&Event::Input(Key::Char('x'))), Action::Redraw);
    assert_eq!(action_for(&Event::Input(Key::Enter)), Action::Roll);
    assert_eq!(action_for(&Event::Input(Key::Left)), Action::Previous);
    assert_eq!(action_for(&Event::Input(Key::Up)), Action::Previous);
    assert_eq!(action_for(&Event::Input(Key::Right)), Action::Next);
    assert_eq!(action_for(&Event::Input(Key::Down)), Action::Next);
    assert_eq!(action_for(&Event::Tick), Action::Redraw);
}

#[test]
fn events_drive_the_app() {
    let mut app = App::new();
    let mut rng = RngSource::seed_from("abc");
    assert_eq!(handle_event(&mut app, &mut rng, &Event::Tick), Outcome::Redraw);
    assert_eq!(handle_event(&mut app, &mut rng, &Event::Input(Key::Enter)), Outcome::Redraw);
    assert!(app.events.is_empty());
    handle_event(&mut app, &mut rng, &Event::Input(Key::Down));
    assert_eq!(app.items.selected(), Some(0));
    handle_event(&mut app, &mut rng, &Event::Input(Key::Up));
    assert_eq!(app.items.selected(), Some(7));
    match handle_event(&mut app, &mut rng, &Event::Input(Key::Enter)) {
        Outcome::Rolled(v) => {
            assert!((1..=100).contains(&v));
            assert_eq!(app.events, vec![v]);
        }
        other => panic!("expected a roll, got {:?}", other),
    }
    assert_eq!(handle_event(&mut app, &mut rng, &Event::Input(Key::Char('q'))), Outcome::Quit);
    assert_eq!(app.events.len(), 1);
}

#[test]
fn worker_sends_key_then_tick() {
    let (sent, reset) = worker_step(Some('k'), 300, TICK_RATE_MS);
    assert!(reset);
    assert_eq!(sent.len(), 2);
    assert!(matches!(sent[0], Event::Input('k')));
    assert!(matches!(sent[1], Event::Tick));
    let (sent, reset) = worker_step::<char>(None, 100, TICK_RATE_MS);
    assert!(!reset);
    assert!(sent.is_empty());
    let (sent, reset) = worker_step::<char>(None, 250, TICK_RATE_MS);
    assert!(reset);
    assert_eq!(sent.len(), 1);
}

#[test]
fn poll_timeout_is_what_is_left() {
    assert_eq!(poll_timeout_ms(250, 100), 150);
    assert_eq!(poll_timeout_ms(250, 250), 0);
    assert_eq!(poll_timeout_ms(250, 400), 0);
}
