//! The application state: the die list and the log of rolled values.
use vstd::prelude::*;
use crate::dice::{Dice, all_dice, label_of, parse_label, upper_bound_of};
use crate::rng::{RngSource, RngState, roll_spec};
use crate::stateful_list::StatefulList;

verus! {

/// The names of the catalog's dice, in declaration order.
pub open spec fn catalog_labels() -> Seq<Seq<char>> {
    all_dice().map_values(|d: Dice| label_of(d))
}

/// The names in a list of strings.
pub open spec fn labels_of(items: Seq<String>) -> Seq<Seq<char>> {
    items.map_values(|s: String| s@)
}

/// The highlighted die; none with no die highlighted, or a name of no die.
pub open spec fn selected_die(app: App) -> Option<Dice> {
    match app.items.cursor() {
        Some(i) => parse_label(app.items.items_view()[i as int]@),
        None => None,
    }
}

/// What rolling the highlighted die gives from state `st`: the value and
/// the next state; none with no die highlighted, or a name of no die.
pub open spec fn roll_outcome(app: App, st: RngState) -> Option<(u16, RngState)> {
    match selected_die(app) {
        Some(d) => Some(roll_spec(st, 1, upper_bound_of(d))),
        None => None,
    }
}

/// The die list, with its cursor, and the values rolled so far, oldest first.
pub struct App {
    pub items: StatefulList<String>,
    pub events: Vec<u16>,
}

impl App {
    /// The list of every die's name with no die highlighted, and an empty log.
    pub fn new() -> (r: App)
        ensures
            labels_of(r.items.items_view()) == catalog_labels(),
            r.items.cursor() is None,
            r.events@ == Seq::<u16>::empty(),
    {
        let all = Dice::all();
        let mut names: Vec<String> = Vec::new();
        let mut i: usize = 0;
        while i < all.len()
            invariant
                all@ == all_dice(),
                i <= all@.len(),
                names@.len() == i,
                labels_of(names@) == all_dice().subrange(0, i as int).map_values(|d: Dice| label_of(d)),
            decreases all@.len() - i,
        {
            let name = all[i].label();
            let ghost before = names@;
            names.push(name);
            proof {
                let want = all_dice().subrange(0, i + 1).map_values(|d: Dice| label_of(d));
                assert forall|j: int| 0 <= j < i + 1 implies #[trigger] labels_of(names@)[j] == want[j] by {
                    if j < i {
                        assert(names@[j] == before[j]);
                        assert(labels_of(before)[j] == all_dice().subrange(0, i as int).map_values(|d: Dice| label_of(d))[j]);
                    }
                }
                assert(labels_of(names@) =~= want);
            }
            i = i + 1;
        }
        assert(all_dice().subrange(0, all@.len() as int) =~= all_dice());
        App { items: StatefulList::with_items(names), events: Vec::new() }
    }

    /// Rolls the highlighted die and logs the value, which it returns. With
    /// no die highlighted, or a name of no die, nothing changes and `None`
    /// comes back.
    pub fn roll_die(&mut self, rng: &mut RngSource) -> (r: Option<u16>)
        ensures
            final(self).items == old(self).items,
            match roll_outcome(*old(self), old(rng)@) {
                Some((v, next)) => {
                    &&& r == Some(v)
                    &&& final(rng)@ == next
                    &&& final(rng)@.state != old(rng)@.state
                    &&& final(self).events@ == old(self).events@.push(v)
                    &&& 1 <= v <= upper_bound_of(selected_die(*old(self))->Some_0)
                },
                None => r is None && final(self).events@ == old(self).events@ && final(rng)@ == old(rng)@,
            },
    {
        match self.items.selected() {
            Some(i) => {
                let name = &self.items.items()[i];
                match Dice::roll_die(rng, name.as_str()) {
                    Ok(v) => {
                        self.events.push(v);
                        Some(v)
                    },
                    Err(_) => None,
                }
            },
            None => None,
        }
    }
}

} // verus!
