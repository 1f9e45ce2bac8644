//! The die catalog: each kind of die and the largest value it shows.
use vstd::prelude::*;
use vstd::string::*;
use crate::rng::{RngSource, roll_spec};
use crate::text::{chars_of, chars_eq_ignore_ascii_case, eq_ignore_ascii_case, fold_case};

verus! {

/// A kind of die, named by its number of faces.
#[derive(Debug, Clone, Copy, PartialEq, Eq, Structural)]
pub enum Dice {
    D3,
    D4,
    D6,
    D8,
    D10,
    D12,
    D20,
    D100,
}

/// A label that names no die of the catalog.
#[derive(Debug, Clone, Copy, PartialEq, Eq, Structural)]
pub enum DiceError {
    UnknownDieKind,
}

/// Every die of the catalog, in declaration order.
pub open spec fn all_dice() -> Seq<Dice> {
    seq![Dice::D3, Dice::D4, Dice::D6, Dice::D8, Dice::D10, Dice::D12, Dice::D20, Dice::D100]
}

/// The largest value a die shows; the smallest is always 1.
pub open spec fn upper_bound_of(d: Dice) -> u16 {
    match d {
        Dice::D3 => 3,
        Dice::D4 => 4,
        Dice::D6 => 6,
        Dice::D8 => 8,
        Dice::D10 => 10,
        Dice::D12 => 12,
        Dice::D20 => 20,
        Dice::D100 => 100,
    }
}

/// The display name of a die.
pub open spec fn label_of(d: Dice) -> Seq<char> {
    match d {
        Dice::D3 => seq!['D', '3'],
        Dice::D4 => seq!['D', '4'],
        Dice::D6 => seq!['D', '6'],
        Dice::D8 => seq!['D', '8'],
        Dice::D10 => seq!['D', '1', '0'],
        Dice::D12 => seq!['D', '1', '2'],
        Dice::D20 => seq!['D', '2', '0'],
        Dice::D100 => seq!['D', '1', '0', '0'],
    }
}

/// The die whose name equals `s` up to ASCII case, if any.
pub open spec fn parse_label(s: Seq<char>) -> Option<Dice> {
    if exists|d: Dice| eq_ignore_ascii_case(s, #[trigger] label_of(d)) {
        Some(choose|d: Dice| eq_ignore_ascii_case(s, #[trigger] label_of(d)))
    } else {
        None
    }
}

impl Dice {
    /// Every die of the catalog, in declaration order.
    pub fn all() -> (r: Vec<Dice>)
        ensures
            r@ == all_dice(),
    {
        let mut v: Vec<Dice> = Vec::new();
        v.push(Dice::D3);
        v.push(Dice::D4);
        v.push(Dice::D6);
        v.push(Dice::D8);
        v.push(Dice::D10);
        v.push(Dice::D12);
        v.push(Dice::D20);
        v.push(Dice::D100);
        assert(v@ =~= all_dice());
        v
    }

    /// The largest value this die shows.
    pub fn get_upper_bound(&self) -> (r: u16)
        ensures
            r == upper_bound_of(*self),
    {
        Dice::get_upper_bound_of_dice(self)
    }

    /// The largest value die `d` shows.
    pub fn get_upper_bound_of_dice(d: &Dice) -> (r: u16)
        ensures
            r == upper_bound_of(*d),
    {
        match d {
            Dice::D3 => 3,
            Dice::D4 => 4,
            Dice::D6 => 6,
            Dice::D8 => 8,
            Dice::D10 => 10,
            Dice::D12 => 12,
            Dice::D20 => 20,
            Dice::D100 => 100,
        }
    }

    /// The display name of this die, as characters.
    pub fn label_chars(&self) -> (r: Vec<char>)
        ensures
            r@ == label_of(*self),
    {
        let mut v: Vec<char> = Vec::new();
        v.push('D');
        match self {
            Dice::D3 => { v.push('3'); },
            Dice::D4 => { v.push('4'); },
            Dice::D6 => { v.push('6'); },
            Dice::D8 => { v.push('8'); },
            Dice::D10 => { v.push('1'); v.push('0'); },
            Dice::D12 => { v.push('1'); v.push('2'); },
            Dice::D20 => { v.push('2'); v.push('0'); },
            Dice::D100 => { v.push('1'); v.push('0'); v.push('0'); },
        }
        assert(v@ =~= label_of(*self));
        v
    }

    /// The display name of this die: `D` and its number of faces.
    pub fn label(&self) -> (r: String)
        ensures
            r@ == label_of(*self),
    {
        match self {
            Dice::D3 => { proof { reveal_strlit("D3"); } String::from_str("D3") },
            Dice::D4 => { proof { reveal_strlit("D4"); } String::from_str("D4") },
            Dice::D6 => { proof { reveal_strlit("D6"); } String::from_str("D6") },
            Dice::D8 => { proof { reveal_strlit("D8"); } String::from_str("D8") },
            Dice::D10 => { proof { reveal_strlit("D10"); } String::from_str("D10") },
            Dice::D12 => { proof { reveal_strlit("D12"); } String::from_str("D12") },
            Dice::D20 => { proof { reveal_strlit("D20"); } String::from_str("D20") },
            Dice::D100 => { proof { reveal_strlit("D100"); } String::from_str("D100") },
        }
    }

    /// Rolls the die named `dice_string` (ASCII case ignored): a value from 1
    /// to its largest face. A name of no die leaves the source untouched.
    pub fn roll_die(rng: &mut RngSource, dice_string: &str) -> (r: Result<u16, DiceError>)
        ensures
            match parse_label(dice_string@) {
                Some(d) => r is Ok && (r->Ok_0, final(rng)@) == roll_spec(old(rng)@, 1, upper_bound_of(d))
                    && 1 <= r->Ok_0 <= upper_bound_of(d)
                    && final(rng)@.state != old(rng)@.state
                    && final(rng)@.increment == old(rng)@.increment,
                None => r == Err::<u16, DiceError>(DiceError::UnknownDieKind) && final(rng)@ == old(rng)@,
            },
    {
        match Dice::from_label(dice_string) {
            Ok(d) => Ok(rng.roll(1, d.get_upper_bound())),
            Err(e) => Err(e),
        }
    }

    /// Reads a die from its name, ignoring ASCII case.
    pub fn from_label(s: &str) -> (r: Result<Dice, DiceError>)
        ensures
            r == match parse_label(s@) {
                Some(d) => Ok::<Dice, DiceError>(d),
                None => Err(DiceError::UnknownDieKind),
            },
    {
        let cs = chars_of(s);
        let all = Dice::all();
        let mut i: usize = 0;
        while i < all.len()
            invariant
                all@ == all_dice(),
                cs@ == s@,
                i <= all@.len(),
                forall|j: int| 0 <= j < i ==> !eq_ignore_ascii_case(s@, #[trigger] label_of(all@[j])),
            decreases all@.len() - i,
        {
            let d = all[i];
            let l = d.label_chars();
            if chars_eq_ignore_ascii_case(&cs, &l) {
                proof { lemma_labels_apart(s@, d); }
                return Ok(d);
            }
            i = i + 1;
        }
        proof {
            assert forall|d: Dice| !eq_ignore_ascii_case(s@, #[trigger] label_of(d)) by {
                assert(all_dice().contains(d)) by {
                    match d {
                        Dice::D3 => assert(all_dice()[0] == d),
                        Dice::D4 => assert(all_dice()[1] == d),
                        Dice::D6 => assert(all_dice()[2] == d),
                        Dice::D8 => assert(all_dice()[3] == d),
                        Dice::D10 => assert(all_dice()[4] == d),
                        Dice::D12 => assert(all_dice()[5] == d),
                        Dice::D20 => assert(all_dice()[6] == d),
                        Dice::D100 => assert(all_dice()[7] == d),
                    }
                }
            }
        }
        Err(DiceError::UnknownDieKind)
    }
}

/// No text names two dice: the names differ even up to ASCII case.
pub proof fn lemma_labels_apart(s: Seq<char>, d: Dice)
    requires
        eq_ignore_ascii_case(s, label_of(d)),
    ensures
        parse_label(s) == Some(d),
{
    assert forall|e: Dice| eq_ignore_ascii_case(s, #[trigger] label_of(e)) implies e == d by {
        let a = label_of(d);
        let b = label_of(e);
        assert(a.len() == b.len());
        assert(fold_case(a[1]) == fold_case(s[1]) && fold_case(b[1]) == fold_case(s[1]));
        if a.len() > 2 {
            assert(fold_case(a[2]) == fold_case(s[2]) && fold_case(b[2]) == fold_case(s[2]));
        }
        if a.len() > 3 {
            assert(fold_case(a[3]) == fold_case(s[3]) && fold_case(b[3]) == fold_case(s[3]));
        }
    }
}

} // verus!
