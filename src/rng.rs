//! A deterministic random source whose whole state can be saved and restored.
//!
//! The generator is PCG-XSL-RR 128/64 (`rand_pcg::Pcg64`). Its state is held
//! here as the plain pair (state, increment); the generator itself is built
//! from that pair for each draw and taken apart again afterwards.
use vstd::prelude::*;
use rand::Rng;
use rand_pcg::Pcg64;
use rand_seeder::Seeder;

verus! {

/// The exact internal state of the generator.
#[derive(Debug, Clone, Copy, PartialEq, Eq, Structural)]
pub struct RngState {
    pub state: u128,
    pub increment: u128,
}

/// The (state, increment) pair of the generator that `rand_seeder` derives
/// from a text.
pub uninterp spec fn seeded_pair(seed: Seq<char>) -> (u128, u128);

/// What one `gen_range(lower..=upper)` on a generator in the given state
/// yields: the value drawn, then the new state and increment.
pub uninterp spec fn range_draw(state: u128, increment: u128, lower: u16, upper: u16) -> (u16, u128, u128);

/// Relies on `rand_seeder::Seeder::from(seed).make_rng::<Pcg64>()`: SipHash of
/// the text, the same on every machine, so the state depends on the text
/// alone. `bincode` only reads the two fields of the generator, in their
/// declared order. `from_seed` sets the lowest bit of the increment.
#[verifier::external_body]
fn seeded_state(seed: &str) -> (r: RngState)
    ensures
        (r.state, r.increment) == seeded_pair(seed@),
        r.increment % 2 == 1,
{
    let g: Pcg64 = Seeder::from(seed).make_rng();
    let (state, increment): (u128, u128) = bincode::deserialize(&bincode::serialize(&g).unwrap()).unwrap();
    RngState { state, increment }
}

/// Relies on `rand::Rng::gen_range(lower..=upper)` on a `Pcg64`: a value of
/// the closed range, computed from the generator's state alone; it panics
/// only on an empty range. Each draw steps the generator,
/// `state * M + increment`, which keeps the increment; with an odd increment
/// the generator has full period, so the rejection loop ends and the state
/// moves. `bincode` only moves the two fields of the generator in and out,
/// in their declared order.
#[verifier::external_body]
fn draw_in_range(st: RngState, lower: u16, upper: u16) -> (r: (u16, RngState))
    requires
        lower <= upper,
        st.increment % 2 == 1,
    ensures
        (r.0, r.1.state, r.1.increment) == range_draw(st.state, st.increment, lower, upper),
        lower <= r.0 <= upper,
        r.1.increment == st.increment,
        r.1.state != st.state,
{
    let mut g: Pcg64 = bincode::deserialize(&bincode::serialize(&(st.state, st.increment)).unwrap()).unwrap();
    let v: u16 = g.gen_range(lower..=upper);
    let (state, increment): (u128, u128) = bincode::deserialize(&bincode::serialize(&g).unwrap()).unwrap();
    (v, RngState { state, increment })
}

/// The state a text seeds.
pub open spec fn seeded(seed: Seq<char>) -> RngState {
    RngState { state: seeded_pair(seed).0, increment: seeded_pair(seed).1 }
}

/// One draw in `[lower, upper]` from state `st`: the value and the next state.
pub open spec fn roll_spec(st: RngState, lower: u16, upper: u16) -> (u16, RngState) {
    let t = range_draw(st.state, st.increment, lower, upper);
    (t.0, RngState { state: t.1, increment: t.2 })
}

/// The values that draws with the given bounds yield, one after the other,
/// from state `st`.
pub open spec fn rolls_from(st: RngState, bounds: Seq<(u16, u16)>) -> Seq<u16>
    decreases bounds.len(),
{
    if bounds.len() == 0 {
        Seq::empty()
    } else {
        let (v, next) = roll_spec(st, bounds[0].0, bounds[0].1);
        seq![v] + rolls_from(next, bounds.drop_first())
    }
}

/// The state after draws with the given bounds, from state `st`.
pub open spec fn state_after(st: RngState, bounds: Seq<(u16, u16)>) -> RngState
    decreases bounds.len(),
{
    if bounds.len() == 0 {
        st
    } else {
        state_after(roll_spec(st, bounds[0].0, bounds[0].1).1, bounds.drop_first())
    }
}

/// Every pair of bounds is a non-empty range.
pub open spec fn bounds_ordered(bounds: Seq<(u16, u16)>) -> bool {
    forall|i: int| 0 <= i < bounds.len() ==> (#[trigger] bounds[i]).0 <= bounds[i].1
}

/// A state that the generator can be in: its increment is odd, as every
/// generator that `rand_pcg` builds has it.
pub open spec fn valid_state(st: RngState) -> bool {
    st.increment % 2 == 1
}

/// A seeded random source.
pub struct RngSource {
    current: RngState,
}

impl View for RngSource {
    type V = RngState;

    closed spec fn view(&self) -> RngState {
        self.current
    }
}

impl RngSource {
    #[verifier::type_invariant]
    spec fn increment_odd(&self) -> bool {
        valid_state(self.current)
    }

    /// A source seeded from `seed`; equal texts give equal sources.
    pub fn seed_from(seed: &str) -> (r: RngSource)
        ensures
            r@ == seeded(seed@),
            valid_state(r@),
    {
        RngSource { current: seeded_state(seed) }
    }

    /// A source in exactly the state `saved`; none when `saved` has an even
    /// increment, which no generator has.
    pub fn restore_state(saved: RngState) -> (r: Option<RngSource>)
        ensures
            valid_state(saved) ==> r is Some && r->Some_0@ == saved,
            !valid_state(saved) ==> r is None,
    {
        if saved.increment % 2 == 1 {
            Some(RngSource { current: saved })
        } else {
            None
        }
    }

    /// The current state, to be saved; the source is left as it was.
    pub fn export_state(&self) -> (r: RngState)
        ensures
            r == self@,
            valid_state(r),
    {
        proof { use_type_invariant(self); }
        self.current
    }

    /// Draws a value of `[lower, upper]` and advances the source: the state
    /// moves, the increment stays.
    pub fn roll(&mut self, lower: u16, upper: u16) -> (r: u16)
        requires
            lower <= upper,
        ensures
            (r, final(self)@) == roll_spec(old(self)@, lower, upper),
            lower <= r <= upper,
            final(self)@.increment == old(self)@.increment,
            final(self)@.state != old(self)@.state,
            valid_state(final(self)@),
    {
        proof { use_type_invariant(&*self); }
        let (v, next) = draw_in_range(self.current, lower, upper);
        self.current = next;
        v
    }

    /// Draws one value for each pair of bounds, in order.
    pub fn roll_many(&mut self, bounds: &Vec<(u16, u16)>) -> (r: Vec<u16>)
        requires
            bounds_ordered(bounds@),
        ensures
            r@ == rolls_from(old(self)@, bounds@),
            final(self)@ == state_after(old(self)@, bounds@),
            forall|i: int| 0 <= i < r@.len() ==> bounds@[i].0 <= #[trigger] r@[i] <= bounds@[i].1,
    {
        let ghost start = self@;
        let mut out: Vec<u16> = Vec::new();
        let mut i: usize = 0;
        assert(bounds@.subrange(0, bounds@.len() as int) =~= bounds@);
        assert(out@ + rolls_from(self@, bounds@) =~= rolls_from(self@, bounds@));
        while i < bounds.len()
            invariant
                i <= bounds@.len(),
                bounds_ordered(bounds@),
                out@.len() == i,
                rolls_from(start, bounds@) == out@ + rolls_from(self@, bounds@.subrange(i as int, bounds@.len() as int)),
                state_after(start, bounds@) == state_after(self@, bounds@.subrange(i as int, bounds@.len() as int)),
                forall|j: int| 0 <= j < i ==> bounds@[j].0 <= #[trigger] out@[j] <= bounds@[j].1,
            decreases bounds@.len() - i,
        {
            let (lo, hi) = bounds[i];
            assert(bounds@[i as int].0 <= bounds@[i as int].1);
            let ghost before = self@;
            let ghost rest = bounds@.subrange(i as int, bounds@.len() as int);
            let v = self.roll(lo, hi);
            assert(rest.drop_first() =~= bounds@.subrange(i + 1, bounds@.len() as int));
            assert(rolls_from(before, rest) == seq![v] + rolls_from(self@, rest.drop_first()));
            out.push(v);
            assert(out@ + rolls_from(self@, rest.drop_first()) =~= (out@.drop_last() + seq![v]) + rolls_from(self@, rest.drop_first()));
            i = i + 1;
        }
        assert(bounds@.subrange(i as int, bounds@.len() as int) =~= Seq::<(u16, u16)>::empty());
        assert(out@ + Seq::<u16>::empty() =~= out@);
        out
    }
}

/// Draws split in two runs give what one run gives: the values of the first
/// run, then those drawn from the state it reached.
proof fn lemma_rolls_split(st: RngState, first: Seq<(u16, u16)>, rest: Seq<(u16, u16)>)
    ensures
        rolls_from(st, first + rest) == rolls_from(st, first) + rolls_from(state_after(st, first), rest),
        state_after(st, first + rest) == state_after(state_after(st, first), rest),
    decreases first.len(),
{
    if first.len() == 0 {
        assert(first + rest =~= rest);
        assert(Seq::<u16>::empty() + rolls_from(st, rest) =~= rolls_from(st, rest));
    } else {
        let next = roll_spec(st, first[0].0, first[0].1).1;
        lemma_rolls_split(next, first.drop_first(), rest);
        assert((first + rest).drop_first() =~= first.drop_first() + rest);
        assert((first + rest)[0] == first[0]);
        let v = roll_spec(st, first[0].0, first[0].1).0;
        assert(seq![v] + (rolls_from(next, first.drop_first()) + rolls_from(state_after(next, first.drop_first()), rest))
            =~= (seq![v] + rolls_from(next, first.drop_first())) + rolls_from(state_after(next, first.drop_first()), rest));
    }
}

/// Sources seeded from the same text draw the same values for the same
/// bounds: what they yield depends on the text and the bounds alone.
pub proof fn lemma_same_seed_same_rolls(a: Seq<char>, b: Seq<char>, bounds: Seq<(u16, u16)>)
    requires
        a == b,
    ensures
        rolls_from(seeded(a), bounds) == rolls_from(seeded(b), bounds),
        state_after(seeded(a), bounds) == state_after(seeded(b), bounds),
{
}

/// A state `saved` exported after some draws, once restored, continues with
/// exactly the values that the source it came from would have drawn next.
pub proof fn lemma_restore_continues(
    st: RngState,
    done: Seq<(u16, u16)>,
    saved: RngState,
    further: Seq<(u16, u16)>,
)
    requires
        saved == state_after(st, done),
    ensures
        rolls_from(st, done + further) == rolls_from(st, done) + rolls_from(saved, further),
        state_after(st, done + further) == state_after(saved, further),
{
    lemma_rolls_split(st, done, further);
}

/// Exporting a state and restoring from it changes nothing that is drawn
/// afterwards: a source in the exported state draws what the exporting one
/// draws.
pub proof fn lemma_export_restore(exporting: RngSource, restored: RngSource, further: Seq<(u16, u16)>)
    requires
        restored@ == exporting@,
    ensures
        rolls_from(restored@, further) == rolls_from(exporting@, further),
        state_after(restored@, further) == state_after(exporting@, further),
{
}

} // verus!
