//! An ordered list with a cursor that wraps around at both ends.
use vstd::prelude::*;

verus! {

/// Where the cursor goes on a step forward, in a list of `len` items.
pub open spec fn next_cursor(len: nat, c: Option<nat>) -> Option<nat> {
    if len == 0 {
        c
    } else {
        match c {
            None => Some(0),
            Some(i) => if i + 1 >= len { Some(0) } else { Some((i + 1) as nat) },
        }
    }
}

/// Where the cursor goes on a step backward, in a list of `len` items.
pub open spec fn previous_cursor(len: nat, c: Option<nat>) -> Option<nat> {
    if len == 0 {
        c
    } else {
        match c {
            None => Some(0),
            Some(i) => if i == 0 { Some((len - 1) as nat) } else { Some((i - 1) as nat) },
        }
    }
}

/// The cursor after `k` steps forward.
pub open spec fn next_cursor_n(len: nat, c: Option<nat>, k: nat) -> Option<nat>
    decreases k,
{
    if k == 0 {
        c
    } else {
        next_cursor(len, next_cursor_n(len, c, (k - 1) as nat))
    }
}

/// Items in display order, and a cursor that is unset or on one of them.
pub struct StatefulList<T> {
    items: Vec<T>,
    selected: Option<usize>,
}

impl<T> StatefulList<T> {
    #[verifier::type_invariant]
    spec fn cursor_in_range(&self) -> bool {
        match self.selected {
            Some(i) => i < self.items.len(),
            None => true,
        }
    }

    /// The items, in display order.
    pub closed spec fn items_view(&self) -> Seq<T> {
        self.items@
    }

    /// The cursor: unset, or the index of the highlighted item.
    pub closed spec fn cursor(&self) -> Option<nat> {
        match self.selected {
            Some(i) => Some(i as nat),
            None => None,
        }
    }

    /// A list of `items` with the cursor unset.
    pub fn with_items(items: Vec<T>) -> (r: StatefulList<T>)
        ensures
            r.items_view() == items@,
            r.cursor() is None,
    {
        StatefulList { items, selected: None }
    }

    /// The items, in display order.
    pub fn items(&self) -> (r: &Vec<T>)
        ensures
            r@ == self.items_view(),
    {
        &self.items
    }

    /// The highlighted index, or `None` when the cursor is unset.
    pub fn selected(&self) -> (r: Option<usize>)
        ensures
            r matches Some(i) ==> i < self.items_view().len(),
            r is Some <==> self.cursor() is Some,
            r matches Some(i) ==> self.cursor() == Some(i as nat),
    {
        proof { use_type_invariant(self); }
        self.selected
    }

    /// Moves the cursor one item forward, from the last back to the first;
    /// an unset cursor goes to the first item. Nothing moves in an empty list.
    pub fn next(&mut self)
        ensures
            final(self).items_view() == old(self).items_view(),
            final(self).cursor() == next_cursor(old(self).items_view().len(), old(self).cursor()),
    {
        proof { use_type_invariant(&*self); }
        let len = self.items.len();
        if len == 0 {
            return;
        }
        let i: usize = match self.selected {
            Some(i) => if i + 1 >= len { 0 } else { i + 1 },
            None => 0,
        };
        self.selected = Some(i);
    }

    /// Moves the cursor one item backward, from the first round to the last;
    /// an unset cursor goes to the first item. Nothing moves in an empty list.
    pub fn previous(&mut self)
        ensures
            final(self).items_view() == old(self).items_view(),
            final(self).cursor() == previous_cursor(old(self).items_view().len(), old(self).cursor()),
    {
        proof { use_type_invariant(&*self); }
        let len = self.items.len();
        if len == 0 {
            return;
        }
        let i: usize = match self.selected {
            Some(i) => if i == 0 { len - 1 } else { i - 1 },
            None => 0,
        };
        self.selected = Some(i);
    }
}

/// From an index on a non-empty list, `k` steps forward land on that index
/// moved forward by `k`, modulo the length.
pub proof fn lemma_next_steps(len: nat, i: nat, k: nat)
    requires
        len > 0,
        i < len,
    ensures
        next_cursor_n(len, Some(i), k) == Some(((i + k) as int % (len as int)) as nat),
    decreases k,
{
    if k > 0 {
        lemma_next_steps(len, i, (k - 1) as nat);
        let j = (i + k - 1) as int % (len as int);
        assert(0 <= j < len) by (nonlinear_arith) requires len > 0, j == (i + k - 1) as int % (len as int);
        assert(((i + k) as int % (len as int)) == if j + 1 >= len { 0 } else { j + 1 }) by (nonlinear_arith)
            requires len > 0, j == (i + k - 1) as int % (len as int), 0 <= j < len, i + k >= 1;
    } else {
        assert(i as int % (len as int) == i) by (nonlinear_arith) requires i < len;
    }
}

/// On a non-empty list, as many steps forward as there are items bring the
/// cursor back where it was; in particular, starting from an unset cursor,
/// the first step and the step after a full round land on the same index.
pub proof fn lemma_next_full_round(len: nat, c: Option<nat>)
    requires
        len > 0,
        c matches Some(i) ==> i < len,
    ensures
        c is Some ==> next_cursor_n(len, c, len) == c,
        c is None ==> next_cursor_n(len, next_cursor(len, c), len) == next_cursor(len, c),
{
    match c {
        Some(i) => {
            lemma_next_steps(len, i, len);
            assert((i + len) as int % (len as int) == i) by (nonlinear_arith) requires i < len;
        },
        None => {
            lemma_next_steps(len, 0, len);
            assert((0 + len) as int % (len as int) == 0) by (nonlinear_arith) requires len > 0;
        },
    }
}

/// On a non-empty list with the cursor set, a step back undoes a step
/// forward, and a step forward undoes a step back.
pub proof fn lemma_previous_undoes_next(len: nat, i: nat)
    requires
        len > 0,
        i < len,
    ensures
        previous_cursor(len, next_cursor(len, Some(i))) == Some(i),
        next_cursor(len, previous_cursor(len, Some(i))) == Some(i),
{
}

} // verus!
