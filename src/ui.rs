//! The decisions of the terminal loop: what each event does to the state,
//! what the input worker sends, and which slice of the log is shown.
use vstd::prelude::*;
use crate::app::{App, roll_outcome, selected_die};
use crate::dice::upper_bound_of;
use crate::rng::RngSource;
use crate::stateful_list::{next_cursor, previous_cursor};

verus! {

/// What the input worker sends to the main loop.
pub enum Event<I> {
    Input(I),
    Tick,
}

/// The keys the loop tells apart.
#[derive(Debug, Clone, Copy, PartialEq, Eq, Structural)]
pub enum Key {
    Char(char),
    Enter,
    Left,
    Right,
    Up,
    Down,
    Other,
}

/// What the main loop does on an event.
#[derive(Debug, Clone, Copy, PartialEq, Eq, Structural)]
pub enum Action {
    Quit,
    Previous,
    Next,
    Roll,
    Redraw,
}

/// `q` quits; left and up step back; right and down step forward; enter
/// rolls; anything else, and a tick, only redraws.
pub open spec fn action_of(event: Event<Key>) -> Action {
    match event {
        Event::Input(k) => match k {
            Key::Char(c) => if c == 'q' { Action::Quit } else { Action::Redraw },
            Key::Enter => Action::Roll,
            Key::Left => Action::Previous,
            Key::Up => Action::Previous,
            Key::Right => Action::Next,
            Key::Down => Action::Next,
            Key::Other => Action::Redraw,
        },
        Event::Tick => Action::Redraw,
    }
}

/// The action an event asks for.
pub fn action_for(event: &Event<Key>) -> (r: Action)
    ensures
        r == action_of(*event),
{
    match event {
        Event::Input(k) => match k {
            Key::Char(c) => if *c == 'q' { Action::Quit } else { Action::Redraw },
            Key::Enter => Action::Roll,
            Key::Left => Action::Previous,
            Key::Up => Action::Previous,
            Key::Right => Action::Next,
            Key::Down => Action::Next,
            Key::Other => Action::Redraw,
        },
        Event::Tick => Action::Redraw,
    }
}

/// What became of an event.
#[derive(Debug, Clone, Copy, PartialEq, Eq, Structural)]
pub enum Outcome {
    /// The loop ends.
    Quit,
    /// A die was rolled and showed this value.
    Rolled(u16),
    /// Only a redraw is due.
    Redraw,
}

/// Handles one event: moves the cursor, rolls the highlighted die, or asks
/// to quit. Only a roll touches the log and the source.
pub fn handle_event(app: &mut App, rng: &mut RngSource, event: &Event<Key>) -> (r: Outcome)
    ensures
        final(app).items.items_view() == old(app).items.items_view(),
        match action_of(*event) {
            Action::Quit => r == Outcome::Quit && *final(app) == *old(app) && final(rng)@ == old(rng)@,
            Action::Redraw => r == Outcome::Redraw && *final(app) == *old(app) && final(rng)@ == old(rng)@,
            Action::Previous => {
                &&& r == Outcome::Redraw
                &&& final(app).items.cursor() == previous_cursor(
                    old(app).items.items_view().len(),
                    old(app).items.cursor(),
                )
                &&& final(app).events == old(app).events
                &&& final(rng)@ == old(rng)@
            },
            Action::Next => {
                &&& r == Outcome::Redraw
                &&& final(app).items.cursor() == next_cursor(
                    old(app).items.items_view().len(),
                    old(app).items.cursor(),
                )
                &&& final(app).events == old(app).events
                &&& final(rng)@ == old(rng)@
            },
            Action::Roll => final(app).items == old(app).items && match roll_outcome(*old(app), old(rng)@) {
                Some((v, next)) => {
                    &&& r == Outcome::Rolled(v)
                    &&& 1 <= v <= upper_bound_of(selected_die(*old(app))->Some_0)
                    &&& final(rng)@ == next
                    &&& final(app).events@ == old(app).events@.push(v)
                },
                None => r == Outcome::Redraw && final(app).events@ == old(app).events@ && final(rng)@ == old(rng)@,
            },
        },
{
    match action_for(event) {
        Action::Quit => Outcome::Quit,
        Action::Redraw => Outcome::Redraw,
        Action::Previous => {
            app.items.previous();
            Outcome::Redraw
        },
        Action::Next => {
            app.items.next();
            Outcome::Redraw
        },
        Action::Roll => match app.roll_die(rng) {
            Some(v) => Outcome::Rolled(v),
            None => Outcome::Redraw,
        },
    }
}

/// Where the shown slice of a log of `len` entries starts, in a panel of
/// `rows` rows with entries `entry_height` rows high: the newest entries
/// that fit, or the whole log when it fits.
pub open spec fn window_start(len: nat, rows: nat, entry_height: nat) -> nat {
    let fit = rows / entry_height;
    if fit < len {
        (len - fit) as nat
    } else {
        0
    }
}

/// The index of the first log entry shown.
pub fn visible_start(len: usize, rows: usize, entry_height: usize) -> (r: usize)
    requires
        entry_height > 0,
    ensures
        r == window_start(len as nat, rows as nat, entry_height as nat),
{
    let fit = rows / entry_height;
    if fit < len {
        len - fit
    } else {
        0
    }
}

/// The log entries shown, oldest first: the newest that fit the panel.
pub fn visible_events(events: &Vec<u16>, rows: usize, entry_height: usize) -> (r: Vec<u16>)
    requires
        entry_height > 0,
    ensures
        r@ == events@.subrange(
            window_start(events@.len(), rows as nat, entry_height as nat) as int,
            events@.len() as int,
        ),
{
    let start = visible_start(events.len(), rows, entry_height);
    let mut out: Vec<u16> = Vec::new();
    let mut i: usize = start;
    while i < events.len()
        invariant
            start <= i <= events@.len(),
            out@ == events@.subrange(start as int, i as int),
        decreases events@.len() - i,
    {
        out.push(events[i]);
        i = i + 1;
        assert(out@ =~= events@.subrange(start as int, i as int));
    }
    out
}

/// The time between two ticks, in milliseconds.
pub const TICK_RATE_MS: u64 = 250;

/// How long the worker waits for a key: what is left of the tick interval,
/// or nothing once it has passed.
pub fn poll_timeout_ms(tick_rate_ms: u64, elapsed_ms: u64) -> (r: u64)
    ensures
        r == if elapsed_ms < tick_rate_ms { tick_rate_ms - elapsed_ms } else { 0 },
{
    if elapsed_ms < tick_rate_ms {
        tick_rate_ms - elapsed_ms
    } else {
        0
    }
}

/// What the worker sends after a poll, in order, and whether its clock
/// starts over: the key read, if any, then a tick once the interval has
/// passed.
pub fn worker_step<I>(key: Option<I>, elapsed_ms: u64, tick_rate_ms: u64) -> (r: (Vec<Event<I>>, bool))
    ensures
        r.1 == (elapsed_ms >= tick_rate_ms),
        r.0@.len() == (if key is Some { 1int } else { 0int }) + (if r.1 { 1int } else { 0int }),
        key is Some ==> r.0@[0] == Event::Input(key->Some_0),
        r.1 ==> r.0@.last() == Event::<I>::Tick,
{
    let mut out: Vec<Event<I>> = Vec::new();
    match key {
        Some(k) => out.push(Event::Input(k)),
        None => {},
    }
    let due = elapsed_ms >= tick_rate_ms;
    if due {
        out.push(Event::Tick);
    }
    (out, due)
}

} // verus!
