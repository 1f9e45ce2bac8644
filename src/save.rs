//! The save file: one line per saved roll, `<value> - (<state>, <increment>)`,
//! and the save modes that decide what is written after each roll.
use vstd::prelude::*;
use vstd::string::*;
use crate::rng::{RngSource, RngState, seeded, valid_state};
use crate::text::chars_of;

verus! {

// ---------------------------------------------------------------- decimals

/// An ASCII decimal digit.
pub open spec fn is_digit(c: char) -> bool {
    '0' <= c && c <= '9'
}

/// The value of a decimal digit.
pub open spec fn digit_value(c: char) -> nat {
    ((c as u32) - 48) as nat
}

/// The digit that stands for `d`, for `d` below ten.
pub open spec fn digit_char(d: nat) -> char {
    if d == 0 { '0' }
    else if d == 1 { '1' }
    else if d == 2 { '2' }
    else if d == 3 { '3' }
    else if d == 4 { '4' }
    else if d == 5 { '5' }
    else if d == 6 { '6' }
    else if d == 7 { '7' }
    else if d == 8 { '8' }
    else { '9' }
}

/// `n` written in decimal, without leading zeros.
pub open spec fn decimal(n: nat) -> Seq<char>
    decreases n,
{
    if n < 10 {
        seq![digit_char(n)]
    } else {
        decimal(n / 10).push(digit_char(n % 10))
    }
}

/// The number that a run of decimal digits stands for.
pub open spec fn digits_value(s: Seq<char>) -> nat
    decreases s.len(),
{
    if s.len() == 0 {
        0
    } else {
        digits_value(s.drop_last()) * 10 + digit_value(s.last())
    }
}

/// Every character is a decimal digit.
pub open spec fn all_digits(s: Seq<char>) -> bool {
    forall|i: int| 0 <= i < s.len() ==> is_digit(#[trigger] s[i])
}

/// How many decimal digits follow one another from index `start` on.
pub open spec fn digit_run(s: Seq<char>, start: int) -> nat
    decreases s.len() - start,
{
    if 0 <= start < s.len() && is_digit(s[start]) {
        1 + digit_run(s, start + 1)
    } else {
        0
    }
}

// ---------------------------------------------------------------- lines

/// What stands between the value and the state.
pub open spec fn open_sep() -> Seq<char> {
    seq![' ', '-', ' ', '(']
}

/// What stands between the state and the increment.
pub open spec fn mid_sep() -> Seq<char> {
    seq![',', ' ']
}

/// The saved line of a roll of `value` that left the generator in `st`.
pub open spec fn state_line(value: u16, st: RngState) -> Seq<char> {
    decimal(value as nat) + open_sep() + decimal(st.state as nat) + mid_sep() + decimal(
        st.increment as nat,
    ) + seq![')']
}

/// The two numbers of a match of `D - (D, D)` that starts at index `p`,
/// where each `D` is a run of ASCII digits taken whole; what follows the
/// closing parenthesis is not looked at.
pub open spec fn match_at(s: Seq<char>, p: int) -> Option<(Seq<char>, Seq<char>)> {
    let a = digit_run(s, p) as int;
    let b0 = p + a + 4;
    let b = digit_run(s, b0) as int;
    let c0 = b0 + b + 2;
    let c = digit_run(s, c0) as int;
    if 0 <= p && a > 0 && b0 <= s.len() && s.subrange(p + a, b0) == open_sep() && b > 0 && c0
        <= s.len() && s.subrange(b0 + b, c0) == mid_sep() && c > 0 && c0 + c < s.len() && s[c0
        + c] == ')' {
        Some((s.subrange(b0, b0 + b), s.subrange(c0, c0 + c)))
    } else {
        None
    }
}

/// The first match in `s` that starts at index `p` or later.
pub open spec fn first_match_from(s: Seq<char>, p: int) -> Option<(Seq<char>, Seq<char>)>
    decreases s.len() - p,
{
    if p < 0 || p >= s.len() {
        None
    } else if match_at(s, p) is Some {
        match_at(s, p)
    } else {
        first_match_from(s, p + 1)
    }
}

/// The state that a saved line holds: the two numbers of the first match of
/// `D - (D, D)` in the line, when both fit in 128 bits and the increment is
/// odd.
pub open spec fn state_of_line(s: Seq<char>) -> Option<RngState> {
    match first_match_from(s, 0) {
        Some((x, y)) => if digits_value(x) <= u128::MAX && digits_value(y) <= u128::MAX
            && digits_value(y) % 2 == 1 {
            Some(RngState { state: digits_value(x) as u128, increment: digits_value(y) as u128 })
        } else {
            None
        },
        None => None,
    }
}

/// Where the line that ends at index `end` starts: after the last line
/// break before `end`, or at 0.
pub open spec fn line_start(s: Seq<char>, end: int) -> int
    decreases end,
{
    if end <= 0 {
        0
    } else if s[end - 1] == '\n' {
        end
    } else {
        line_start(s, end - 1)
    }
}

/// The text without the line break (`\n` or `\r\n`) that ends it, if any.
pub open spec fn line_body(text: Seq<char>) -> Seq<char> {
    if text.len() > 0 && text.last() == '\n' {
        let t = text.drop_last();
        if t.len() > 0 && t.last() == '\r' {
            t.drop_last()
        } else {
            t
        }
    } else {
        text
    }
}

/// The last line of a text, without its line break; none in an empty text.
pub open spec fn last_line(text: Seq<char>) -> Option<Seq<char>> {
    if text.len() == 0 {
        None
    } else {
        let b = line_body(text);
        Some(b.subrange(line_start(b, b.len() as int), b.len() as int))
    }
}

/// The state that a save file holds: the one on its last line.
pub open spec fn saved_state(text: Seq<char>) -> Option<RngState> {
    match last_line(text) {
        Some(l) => state_of_line(l),
        None => None,
    }
}

/// The number of line breaks in a text.
pub open spec fn count_newlines(s: Seq<char>) -> nat
    decreases s.len(),
{
    if s.len() == 0 {
        0
    } else {
        count_newlines(s.drop_last()) + if s.last() == '\n' { 1nat } else { 0nat }
    }
}

/// A text made of whole lines: empty, or ending with a line break.
pub open spec fn whole_lines(s: Seq<char>) -> bool {
    s.len() == 0 || s.last() == '\n'
}


// ---------------------------------------------------------------- writing

fn digit_str(d: u128) -> (r: &'static str)
    requires
        d < 10,
    ensures
        r@ == seq![digit_char(d as nat)],
{
    if d == 0 { proof { reveal_strlit("0"); } "0" }
    else if d == 1 { proof { reveal_strlit("1"); } "1" }
    else if d == 2 { proof { reveal_strlit("2"); } "2" }
    else if d == 3 { proof { reveal_strlit("3"); } "3" }
    else if d == 4 { proof { reveal_strlit("4"); } "4" }
    else if d == 5 { proof { reveal_strlit("5"); } "5" }
    else if d == 6 { proof { reveal_strlit("6"); } "6" }
    else if d == 7 { proof { reveal_strlit("7"); } "7" }
    else if d == 8 { proof { reveal_strlit("8"); } "8" }
    else { proof { reveal_strlit("9"); } "9" }
}

/// Appends `n` in decimal to `out`.
pub fn push_decimal(out: &mut String, n: u128)
    ensures
        final(out)@ == old(out)@ + decimal(n as nat),
    decreases n,
{
    if n >= 10 {
        push_decimal(out, n / 10);
    }
    out.append(digit_str(n % 10));
    assert(out@ =~= old(out)@ + decimal(n as nat));
}

/// The saved line of a roll of `value` that left the generator in `st`,
/// without a line break.
pub fn state_line_string(value: u16, st: RngState) -> (r: String)
    ensures
        r@ == state_line(value, st),
{
    let mut out = String::new();
    push_decimal(&mut out, value as u128);
    proof { reveal_strlit(" - ("); }
    out.append(" - (");
    push_decimal(&mut out, st.state);
    proof { reveal_strlit(", "); }
    out.append(", ");
    push_decimal(&mut out, st.increment);
    proof { reveal_strlit(")"); }
    out.append(")");
    assert(out@ =~= state_line(value, st));
    out
}

// ---------------------------------------------------------------- reading

fn is_digit_char(c: char) -> (r: bool)
    ensures
        r == is_digit(c),
{
    '0' <= c && c <= '9'
}

/// Every character from `k` on, as far as the run of digits goes, is a digit.
proof fn lemma_digit_run_digits(s: Seq<char>, k: int)
    requires
        0 <= k <= s.len(),
    ensures
        k + digit_run(s, k) <= s.len(),
        all_digits(s.subrange(k, k + digit_run(s, k))),
    decreases s.len() - k,
{
    if k < s.len() && is_digit(s[k]) {
        lemma_digit_run_digits(s, k + 1);
        let m = digit_run(s, k);
        assert forall|i: int| 0 <= i < m implies is_digit(#[trigger] s.subrange(k, k + m)[i]) by {
            if i > 0 {
                assert(s.subrange(k, k + m)[i] == s.subrange(k + 1, k + 1 + digit_run(s, k + 1))[i - 1]);
            }
        }
    }
}

/// A prefix of a run of digits stands for no larger number.
proof fn lemma_digits_value_prefix(t: Seq<char>, k: int)
    requires
        0 <= k <= t.len(),
    ensures
        digits_value(t.subrange(0, k)) <= digits_value(t),
    decreases t.len(),
{
    if k == t.len() {
        assert(t.subrange(0, k) =~= t);
    } else {
        lemma_digits_value_prefix(t.drop_last(), k);
        assert(t.drop_last().subrange(0, k) =~= t.subrange(0, k));
    }
}

fn digit_run_at(s: &Vec<char>, start: usize) -> (r: usize)
    requires
        start <= s@.len(),
    ensures
        r as nat == digit_run(s@, start as int),
        start + r <= s@.len(),
{
    let mut i: usize = start;
    while i < s.len() && is_digit_char(s[i])
        invariant
            start <= i <= s@.len(),
            digit_run(s@, start as int) == (i - start) + digit_run(s@, i as int),
        decreases s@.len() - i,
    {
        i = i + 1;
    }
    i - start
}

fn digits_value_in(s: &Vec<char>, from: usize, to: usize) -> (r: Option<u128>)
    requires
        from <= to <= s@.len(),
        all_digits(s@.subrange(from as int, to as int)),
    ensures
        match r {
            Some(v) => v as nat == digits_value(s@.subrange(from as int, to as int)),
            None => digits_value(s@.subrange(from as int, to as int)) > u128::MAX,
        },
{
    let mut acc: u128 = 0;
    let mut i: usize = from;
    assert(s@.subrange(from as int, from as int) =~= Seq::<char>::empty());
    while i < to
        invariant
            from <= i <= to <= s@.len(),
            all_digits(s@.subrange(from as int, to as int)),
            acc as nat == digits_value(s@.subrange(from as int, i as int)),
        decreases to - i,
    {
        let c = s[i];
        assert(is_digit(c)) by {
            assert(s@.subrange(from as int, to as int)[i - from] == c);
        }
        let d: u128 = (c as u32 - 48) as u128;
        assert(s@.subrange(from as int, i + 1).drop_last() =~= s@.subrange(from as int, i as int));
        assert(s@.subrange(from as int, i + 1).last() == c);
        assert(digits_value(s@.subrange(from as int, i + 1)) == acc * 10 + d);
        if acc > (u128::MAX - d) / 10 {
            proof {
                assert(acc * 10 + d > u128::MAX) by (nonlinear_arith)
                    requires acc > (u128::MAX - d) / 10, d < 10;
                let t = s@.subrange(from as int, to as int);
                lemma_digits_value_prefix(t, i + 1 - from);
                assert(t.subrange(0, i + 1 - from) =~= s@.subrange(from as int, i + 1));
            }
            return None;
        }
        assert(acc * 10 + d <= u128::MAX) by (nonlinear_arith)
            requires acc <= (u128::MAX - d) / 10, d < 10;
        acc = acc * 10 + d;
        i = i + 1;
    }
    Some(acc)
}

/// Where the match that starts at `p` lies, if one does: the start and
/// end of each of its two numbers.
fn match_at_exec(s: &Vec<char>, p: usize) -> (r: Option<(usize, usize, usize, usize)>)
    requires
        p <= s@.len(),
    ensures
        match match_at(s@, p as int) {
            Some((x, y)) => r matches Some((b0, b1, c0, c1)) && b0 <= b1 <= c0 <= c1 <= s@.len()
                && x == s@.subrange(b0 as int, b1 as int) && y == s@.subrange(c0 as int, c1 as int)
                && all_digits(x) && all_digits(y),
            None => r is None,
        },
{
    let ghost v = s@;
    proof {
        lemma_digit_run_digits(v, p as int);
    }
    let a = digit_run_at(s, p);
    if a == 0 || s.len() - (p + a) < 4 {
        return None;
    }
    let q = p + a;
    if !(s[q] == ' ' && s[q + 1] == '-' && s[q + 2] == ' ' && s[q + 3] == '(') {
        proof {
            if v.subrange(q as int, q + 4) == open_sep() {
                assert(v.subrange(q as int, q + 4)[0] == v[q as int]);
                assert(v.subrange(q as int, q + 4)[1] == v[q + 1]);
                assert(v.subrange(q as int, q + 4)[2] == v[q + 2]);
                assert(v.subrange(q as int, q + 4)[3] == v[q + 3]);
            }
        }
        return None;
    }
    assert(v.subrange(q as int, q + 4) =~= open_sep());
    let b0 = q + 4;
    proof {
        lemma_digit_run_digits(v, b0 as int);
    }
    let b = digit_run_at(s, b0);
    if b == 0 || s.len() - (b0 + b) < 2 {
        return None;
    }
    let m = b0 + b;
    if !(s[m] == ',' && s[m + 1] == ' ') {
        proof {
            if v.subrange(m as int, m + 2) == mid_sep() {
                assert(v.subrange(m as int, m + 2)[0] == v[m as int]);
                assert(v.subrange(m as int, m + 2)[1] == v[m + 1]);
            }
        }
        return None;
    }
    assert(v.subrange(m as int, m + 2) =~= mid_sep());
    let c0 = m + 2;
    proof {
        lemma_digit_run_digits(v, c0 as int);
    }
    let c = digit_run_at(s, c0);
    if c == 0 || s.len() - (c0 + c) < 1 || s[c0 + c] != ')' {
        return None;
    }
    Some((b0, m, c0, c0 + c))
}

/// Reads the state from a saved line (without its line break): the first
/// match of `D - (D, D)` in it.
pub fn parse_state_line(line: &Vec<char>) -> (r: Option<RngState>)
    ensures
        r == state_of_line(line@),
        r matches Some(st) ==> valid_state(st),
{
    let mut p: usize = 0;
    while p < line.len()
        invariant
            p <= line@.len(),
            first_match_from(line@, 0) == first_match_from(line@, p as int),
        decreases line@.len() - p,
    {
        match match_at_exec(line, p) {
            Some((b0, b1, c0, c1)) => {
                let state = digits_value_in(line, b0, b1);
                let increment = digits_value_in(line, c0, c1);
                return match (state, increment) {
                    (Some(st), Some(inc)) => if inc % 2 == 1 {
                        Some(RngState { state: st, increment: inc })
                    } else {
                        None
                    },
                    _ => None,
                };
            },
            None => {},
        }
        p = p + 1;
    }
    None
}

fn copy_range(v: &Vec<char>, from: usize, to: usize) -> (r: Vec<char>)
    requires
        from <= to <= v@.len(),
    ensures
        r@ == v@.subrange(from as int, to as int),
{
    let mut out: Vec<char> = Vec::new();
    let mut i: usize = from;
    while i < to
        invariant
            from <= i <= to <= v@.len(),
            out@ == v@.subrange(from as int, i as int),
        decreases to - i,
    {
        out.push(v[i]);
        i = i + 1;
        assert(out@ =~= v@.subrange(from as int, i as int));
    }
    out
}

/// The last line of a text, without its line break; none in an empty text.
pub fn last_line_of(text: &Vec<char>) -> (r: Option<Vec<char>>)
    ensures
        match last_line(text@) {
            Some(l) => r is Some && r->Some_0@ == l,
            None => r is None,
        },
{
    let n = text.len();
    if n == 0 {
        return None;
    }
    let mut end: usize = n;
    if text[n - 1] == '\n' {
        end = n - 1;
        if end > 0 && text[end - 1] == '\r' {
            end = end - 1;
        }
    }
    let ghost body = text@.subrange(0, end as int);
    assert(line_body(text@) =~= body);
    let mut start: usize = end;
    while start > 0 && text[start - 1] != '\n'
        invariant
            start <= end <= n == text@.len(),
            body == text@.subrange(0, end as int),
            line_start(body, end as int) == line_start(body, start as int),
        decreases start,
    {
        assert(body[start - 1] == text@[start - 1]);
        start = start - 1;
    }
    assert(line_start(body, start as int) == start) by {
        if start > 0 {
            assert(body[start - 1] == text@[start - 1]);
        }
    }
    let line = copy_range(text, start, end);
    assert(line@ =~= body.subrange(start as int, end as int));
    Some(line)
}

/// A state in a save file that cannot be read back.
#[derive(Debug, Clone, Copy, PartialEq, Eq, Structural)]
pub enum StateError {
    CorruptPersistedState,
}

/// The source that a save file's text holds on its last line; none when
/// that line is not a saved state, or the text is empty.
pub fn rebuild_rng(text: &str) -> (r: Option<RngSource>)
    ensures
        match saved_state(text@) {
            Some(st) => r is Some && r->Some_0@ == st,
            None => r is None,
        },
{
    let cs = chars_of(text);
    match last_line_of(&cs) {
        None => None,
        Some(l) => match parse_state_line(&l) {
            Some(st) => RngSource::restore_state(st),
            None => None,
        },
    }
}

/// The source to start with: seeded from `seed` when there is no save file
/// to load (`saved` is `None`), else the one the file's text holds. A file
/// whose last line holds no state is an error, never a fresh seed.
pub fn get_rng(seed: &str, saved: Option<&str>) -> (r: Result<RngSource, StateError>)
    ensures
        match saved {
            None => r is Ok && r->Ok_0@ == seeded(seed@),
            Some(t) => match saved_state(t@) {
                Some(st) => r is Ok && r->Ok_0@ == st,
                None => r is Err && r->Err_0 == StateError::CorruptPersistedState,
            },
        },
{
    match saved {
        None => Ok(RngSource::seed_from(seed)),
        Some(t) => match rebuild_rng(t) {
            Some(g) => Ok(g),
            None => Err(StateError::CorruptPersistedState),
        },
    }
}

/// The name of the save file that belongs to a seed: the seed, then
/// `.seed.state`.
pub fn get_save_file_from_seed(seed: &str) -> (r: String)
    ensures
        r@ == seed@ + ".seed.state"@,
{
    let mut name = String::from_str(seed);
    name.append(".seed.state");
    name
}

// ---------------------------------------------------------------- save modes

/// What is written to the save file after each roll.
#[allow(non_camel_case_types)]
#[derive(Debug, Clone, Copy, PartialEq, Eq, Structural)]
pub enum SaveMode {
    /// Nothing is saved.
    NONE,
    /// Only the latest roll and state, in place of what was there.
    LAST,
    /// Every rolled value, without the state.
    ROLLS,
    /// Every rolled value with the state it left.
    FULL,
}

/// One write to the save file: a line, appended or in place of the file.
pub struct SaveRecord {
    pub line: String,
    pub append: bool,
}

/// The line a save mode writes after a roll of `value` that left `st`, and
/// whether it is appended (else it replaces the file).
pub open spec fn record_of(mode: SaveMode, value: u16, st: RngState) -> Option<(Seq<char>, bool)> {
    match mode {
        SaveMode::NONE => None,
        SaveMode::LAST => Some((state_line(value, st).push('\n'), false)),
        SaveMode::ROLLS => Some((decimal(value as nat).push('\n'), true)),
        SaveMode::FULL => Some((state_line(value, st).push('\n'), true)),
    }
}

/// The file's text after a write.
pub open spec fn file_after(text: Seq<char>, rec: Option<(Seq<char>, bool)>) -> Seq<char> {
    match rec {
        None => text,
        Some((line, append)) => if append { text + line } else { line },
    }
}

impl SaveMode {
    /// What to write after a roll of `value` that left the generator in `st`.
    pub fn record(&self, value: u16, st: RngState) -> (r: Option<SaveRecord>)
        ensures
            match record_of(*self, value, st) {
                None => r is None,
                Some((line, append)) => r is Some && r->Some_0.line@ == line
                    && r->Some_0.append == append,
            },
    {
        proof { reveal_strlit("\n"); }
        match self {
            SaveMode::NONE => None,
            SaveMode::LAST => {
                let mut line = state_line_string(value, st);
                line.append("\n");
                Some(SaveRecord { line, append: false })
            },
            SaveMode::ROLLS => {
                let mut line = String::new();
                push_decimal(&mut line, value as u128);
                line.append("\n");
                assert(line@ =~= decimal(value as nat).push('\n'));
                Some(SaveRecord { line, append: true })
            },
            SaveMode::FULL => {
                let mut line = state_line_string(value, st);
                line.append("\n");
                Some(SaveRecord { line, append: true })
            },
        }
    }
}

// ---------------------------------------------------------------- laws

proof fn lemma_digit_char(d: nat)
    requires
        d < 10,
    ensures
        is_digit(digit_char(d)),
        digit_value(digit_char(d)) == d,
{
}

/// A number written in decimal is a non-empty run of digits that reads back
/// as the number.
pub proof fn lemma_decimal(n: nat)
    ensures
        decimal(n).len() > 0,
        all_digits(decimal(n)),
        digits_value(decimal(n)) == n,
    decreases n,
{
    if n < 10 {
        lemma_digit_char(n);
        assert(decimal(n).drop_last() =~= Seq::<char>::empty());
        assert(digits_value(Seq::<char>::empty()) == 0);
    } else {
        lemma_decimal(n / 10);
        lemma_digit_char(n % 10);
        assert(decimal(n).drop_last() =~= decimal(n / 10));
        assert(decimal(n).last() == digit_char(n % 10));
        assert(digits_value(decimal(n)) == digits_value(decimal(n / 10)) * 10 + digit_value(digit_char(n % 10)));
        assert(n == (n / 10) * 10 + n % 10);
        assert forall|i: int| 0 <= i < decimal(n).len() implies is_digit(#[trigger] decimal(n)[i]) by {
            if i < decimal(n / 10).len() {
                assert(decimal(n)[i] == decimal(n / 10)[i]);
            }
        }
    }
}

/// A run of `m` digits from `k` that ends at the end or before a non-digit
/// is the whole run.
proof fn lemma_digit_run_exact(s: Seq<char>, k: int, m: int)
    requires
        0 <= k,
        0 <= m,
        k + m <= s.len(),
        forall|i: int| k <= i < k + m ==> is_digit(#[trigger] s[i]),
        k + m == s.len() || !is_digit(s[k + m]),
    ensures
        digit_run(s, k) == m,
    decreases m,
{
    if m > 0 {
        lemma_digit_run_exact(s, k + 1, m - 1);
    }
}

/// Reading back a saved line gives the state it was written from.
pub proof fn lemma_state_line_round_trip(value: u16, st: RngState)
    requires
        valid_state(st),
    ensures
        state_of_line(state_line(value, st)) == Some(st),
{
    let dv = decimal(value as nat);
    let ds = decimal(st.state as nat);
    let di = decimal(st.increment as nat);
    lemma_decimal(value as nat);
    lemma_decimal(st.state as nat);
    lemma_decimal(st.increment as nat);
    let s = state_line(value, st);
    let a = dv.len() as int;
    let b0 = a + 4;
    let b = ds.len() as int;
    let c0 = b0 + b + 2;
    let c = di.len() as int;
    assert(s.len() == c0 + c + 1);
    assert forall|i: int| 0 <= i < a implies s[i] == dv[i] by {}
    assert forall|i: int| 0 <= i < 4 implies s[a + i] == open_sep()[i] by {}
    assert forall|i: int| 0 <= i < b implies s[b0 + i] == ds[i] by {}
    assert forall|i: int| 0 <= i < 2 implies s[b0 + b + i] == mid_sep()[i] by {}
    assert forall|i: int| 0 <= i < c implies s[c0 + i] == di[i] by {}
    assert(s[c0 + c] == ')');
    assert forall|i: int| 0 <= i < a implies is_digit(#[trigger] s[i]) by {
        assert(s[i] == dv[i]);
    }
    lemma_digit_run_exact(s, 0, a);
    assert forall|i: int| b0 <= i < b0 + b implies is_digit(#[trigger] s[i]) by {
        assert(s[b0 + (i - b0)] == ds[i - b0]);
    }
    lemma_digit_run_exact(s, b0, b);
    assert forall|i: int| c0 <= i < c0 + c implies is_digit(#[trigger] s[i]) by {
        assert(s[c0 + (i - c0)] == di[i - c0]);
    }
    lemma_digit_run_exact(s, c0, c);
    assert(s.subrange(a, b0) =~= open_sep());
    assert(s.subrange(b0, b0 + b) =~= ds);
    assert(s.subrange(b0 + b, c0) =~= mid_sep());
    assert(s.subrange(c0, c0 + c) =~= di);
    assert(match_at(s, 0) == Some((ds, di)));
    assert(first_match_from(s, 0) == Some((ds, di)));
}

/// Line breaks in two texts put together add up.
proof fn lemma_count_newlines_concat(x: Seq<char>, y: Seq<char>)
    ensures
        count_newlines(x + y) == count_newlines(x) + count_newlines(y),
    decreases y.len(),
{
    if y.len() == 0 {
        assert(x + y =~= x);
    } else {
        lemma_count_newlines_concat(x, y.drop_last());
        assert((x + y).drop_last() =~= x + y.drop_last());
    }
}

/// A text with no line break counts none.
proof fn lemma_no_newlines(s: Seq<char>)
    requires
        forall|i: int| 0 <= i < s.len() ==> s[i] != '\n',
    ensures
        count_newlines(s) == 0,
    decreases s.len(),
{
    if s.len() > 0 {
        lemma_no_newlines(s.drop_last());
    }
}

/// A saved line holds no line break and does not end in `\r`.
proof fn lemma_state_line_one_line(value: u16, st: RngState)
    ensures
        forall|i: int| 0 <= i < state_line(value, st).len() ==> state_line(value, st)[i] != '\n',
        state_line(value, st).last() == ')',
        count_newlines(state_line(value, st)) == 0,
{
    let dv = decimal(value as nat);
    let ds = decimal(st.state as nat);
    let di = decimal(st.increment as nat);
    lemma_decimal(value as nat);
    lemma_decimal(st.state as nat);
    lemma_decimal(st.increment as nat);
    let s = state_line(value, st);
    assert forall|i: int| 0 <= i < s.len() implies s[i] != '\n' by {
        let a = dv.len() as int;
        let b0 = a + 4;
        let b = ds.len() as int;
        let c0 = b0 + b + 2;
        if i < a {
            assert(is_digit(dv[i]));
        } else if b0 <= i < b0 + b {
            assert(is_digit(ds[i - b0]));
        } else if c0 <= i < c0 + di.len() {
            assert(is_digit(di[i - c0]));
        }
    }
    lemma_no_newlines(s);
}

/// The line that ends at `end` starts at `k` when no line break lies in
/// between and `k` is the start of the text or follows a line break.
proof fn lemma_line_start_at(s: Seq<char>, k: int, end: int)
    requires
        0 <= k <= end <= s.len(),
        forall|i: int| k <= i < end ==> s[i] != '\n',
        k == 0 || s[k - 1] == '\n',
    ensures
        line_start(s, end) == k,
    decreases end - k,
{
    if end > k {
        lemma_line_start_at(s, k, end - 1);
    }
}

/// After a saved line and its line break are appended to a text of whole
/// lines, the text's last line is that saved line.
proof fn lemma_last_line_appended(text: Seq<char>, line: Seq<char>)
    requires
        whole_lines(text),
        line.len() > 0,
        forall|i: int| 0 <= i < line.len() ==> line[i] != '\n',
        line.last() != '\r',
    ensures
        last_line(text + line.push('\n')) == Some(line),
{
    let t = text + line.push('\n');
    assert(t.drop_last() =~= text + line);
    let body = text + line;
    assert(line_body(t) == body);
    assert forall|i: int| text.len() <= i < body.len() implies body[i] != '\n' by {
        assert(body[i] == line[i - text.len()]);
    }
    lemma_line_start_at(body, text.len() as int, body.len() as int);
    assert(body.subrange(text.len() as int, body.len() as int) =~= line);
}

/// With every roll saved in full, the save file gains one line per roll,
/// stays made of whole lines, and reading it back gives the state that the
/// latest roll left; a source restored from it then draws what the
/// unsaved source would have drawn next.
pub proof fn lemma_full_save_resumes(text: Seq<char>, value: u16, st: RngState, further: Seq<(u16, u16)>)
    requires
        whole_lines(text),
        valid_state(st),
    ensures
        whole_lines(file_after(text, record_of(SaveMode::FULL, value, st))),
        count_newlines(file_after(text, record_of(SaveMode::FULL, value, st))) == count_newlines(text) + 1,
        saved_state(file_after(text, record_of(SaveMode::FULL, value, st))) == Some(st),
        crate::rng::rolls_from(saved_state(file_after(text, record_of(SaveMode::FULL, value, st)))->Some_0, further)
            == crate::rng::rolls_from(st, further),
{
    let line = state_line(value, st);
    let after = text + line.push('\n');
    assert(file_after(text, record_of(SaveMode::FULL, value, st)) == after);
    lemma_state_line_one_line(value, st);
    lemma_state_line_round_trip(value, st);
    lemma_last_line_appended(text, line);
    assert(saved_state(after) == Some(st));
    lemma_newline_appended(text, line);
}

/// Appending a line with no line break, and a line break, adds one to the
/// count of line breaks.
proof fn lemma_newline_appended(text: Seq<char>, line: Seq<char>)
    requires
        count_newlines(line) == 0,
    ensures
        count_newlines(text + line.push('\n')) == count_newlines(text) + 1,
{
    assert(text + line.push('\n') =~= (text + line) + seq!['\n']);
    lemma_count_newlines_concat(text + line, seq!['\n']);
    lemma_count_newlines_concat(text, line);
    assert(seq!['\n'].drop_last() =~= Seq::<char>::empty());
    assert(count_newlines(Seq::<char>::empty()) == 0);
    assert(count_newlines(seq!['\n']) == 1);
}

/// Saving only the latest roll leaves one line in the file, whatever it
/// held and however many rolls were saved: the line of the latest roll.
pub proof fn lemma_last_save_keeps_one_line(
    text: Seq<char>,
    rolls: Seq<(u16, RngState)>,
)
    requires
        rolls.len() > 0,
        valid_rolls(rolls),
    ensures
        ({
            let after = saved_all(text, SaveMode::LAST, rolls);
            &&& after == state_line(rolls.last().0, rolls.last().1).push('\n')
            &&& count_newlines(after) == 1
            &&& saved_state(after) == Some(rolls.last().1)
        }),
    decreases rolls.len(),
{
    let (v, st) = rolls.last();
    assert(rolls.last() == rolls[rolls.len() - 1]);
    if rolls.len() > 1 {
        lemma_valid_rolls_prefix(rolls, rolls.len() - 1);
        assert(rolls.subrange(0, rolls.len() - 1) =~= rolls.drop_last());
        lemma_last_save_keeps_one_line(text, rolls.drop_last());
    }
    let line = state_line(v, st);
    let after = saved_all(text, SaveMode::LAST, rolls);
    assert(after == line.push('\n'));
    lemma_state_line_one_line(v, st);
    lemma_state_line_round_trip(v, st);
    lemma_last_line_appended(Seq::empty(), line);
    assert(Seq::<char>::empty() + line.push('\n') =~= line.push('\n'));
    assert(saved_state(after) == Some(st));
    lemma_newline_appended(Seq::empty(), line);
    assert(count_newlines(Seq::<char>::empty()) == 0);
}

/// The file's text after one roll after another is saved in a mode.
pub open spec fn saved_all(text: Seq<char>, mode: SaveMode, rolls: Seq<(u16, RngState)>) -> Seq<char>
    decreases rolls.len(),
{
    if rolls.len() == 0 {
        text
    } else {
        let (v, st) = rolls.last();
        file_after(saved_all(text, mode, rolls.drop_last()), record_of(mode, v, st))
    }
}

/// With every roll saved in full, a save file that starts with whole lines
/// gains one line per roll, and reading it back gives the state that the
/// latest roll left.
pub proof fn lemma_full_save_rolls(text: Seq<char>, rolls: Seq<(u16, RngState)>)
    requires
        whole_lines(text),
        valid_rolls(rolls),
    ensures
        whole_lines(saved_all(text, SaveMode::FULL, rolls)),
        count_newlines(saved_all(text, SaveMode::FULL, rolls)) == count_newlines(text) + rolls.len(),
        rolls.len() > 0 ==> saved_state(saved_all(text, SaveMode::FULL, rolls)) == Some(rolls.last().1),
    decreases rolls.len(),
{
    if rolls.len() > 0 {
        lemma_valid_rolls_prefix(rolls, rolls.len() - 1);
        assert(rolls.subrange(0, rolls.len() - 1) =~= rolls.drop_last());
        lemma_full_save_rolls(text, rolls.drop_last());
        let (v, st) = rolls.last();
        assert(rolls.last() == rolls[rolls.len() - 1]);
        lemma_full_save_resumes(saved_all(text, SaveMode::FULL, rolls.drop_last()), v, st, Seq::empty());
    }
}

/// Every roll left a state the generator can be in.
pub open spec fn valid_rolls(rolls: Seq<(u16, RngState)>) -> bool {
    forall|i: int| 0 <= i < rolls.len() ==> valid_state(#[trigger] rolls[i].1)
}

proof fn lemma_valid_rolls_prefix(rolls: Seq<(u16, RngState)>, j: int)
    requires
        valid_rolls(rolls),
        0 <= j <= rolls.len(),
    ensures
        valid_rolls(rolls.subrange(0, j)),
{
    assert forall|i: int| 0 <= i < j implies valid_state(#[trigger] rolls.subrange(0, j)[i].1) by {
        assert(rolls.subrange(0, j)[i] == rolls[i]);
    }
}

/// Saving in full only appends: the file after the first `j` rolls begins
/// the file after all of them.
proof fn lemma_full_save_prefix(text: Seq<char>, rolls: Seq<(u16, RngState)>, j: int)
    requires
        0 <= j <= rolls.len(),
    ensures
        saved_all(text, SaveMode::FULL, rolls.subrange(0, j)).len() <= saved_all(text, SaveMode::FULL, rolls).len(),
        saved_all(text, SaveMode::FULL, rolls.subrange(0, j)) == saved_all(text, SaveMode::FULL, rolls).subrange(
            0,
            saved_all(text, SaveMode::FULL, rolls.subrange(0, j)).len() as int,
        ),
    decreases rolls.len(),
{
    if j == rolls.len() {
        assert(rolls.subrange(0, j) =~= rolls);
        let all = saved_all(text, SaveMode::FULL, rolls);
        assert(all.subrange(0, all.len() as int) =~= all);
    } else {
        lemma_full_save_prefix(text, rolls.drop_last(), j);
        assert(rolls.drop_last().subrange(0, j) =~= rolls.subrange(0, j));
        let (v, st) = rolls.last();
        let x = saved_all(text, SaveMode::FULL, rolls.drop_last());
        let y = state_line(v, st).push('\n');
        assert(saved_all(text, SaveMode::FULL, rolls) == x + y);
        let p = saved_all(text, SaveMode::FULL, rolls.subrange(0, j));
        assert(p =~= (x + y).subrange(0, p.len() as int));
    }
}

/// With every roll saved in full, every roll's line stands in the file: the
/// file as it was after roll `k` begins the final file and ends with the
/// line of roll `k`, and that line reads back as the state roll `k` left.
pub proof fn lemma_full_save_every_line(text: Seq<char>, rolls: Seq<(u16, RngState)>, k: int)
    requires
        whole_lines(text),
        valid_rolls(rolls),
        0 <= k < rolls.len(),
    ensures
        ({
            let upto = saved_all(text, SaveMode::FULL, rolls.subrange(0, k + 1));
            let all = saved_all(text, SaveMode::FULL, rolls);
            &&& upto == all.subrange(0, upto.len() as int)
            &&& last_line(upto) == Some(state_line(rolls[k].0, rolls[k].1))
            &&& state_of_line(state_line(rolls[k].0, rolls[k].1)) == Some(rolls[k].1)
        }),
{
    lemma_full_save_prefix(text, rolls, k + 1);
    let pre = rolls.subrange(0, k + 1);
    assert(pre.drop_last() =~= rolls.subrange(0, k));
    assert(pre.last() == rolls[k]);
    lemma_valid_rolls_prefix(rolls, k);
    lemma_full_save_rolls(text, rolls.subrange(0, k));
    let (v, st) = rolls[k];
    assert(valid_state(rolls[k].1));
    lemma_state_line_one_line(v, st);
    lemma_state_line_round_trip(v, st);
    lemma_last_line_appended(saved_all(text, SaveMode::FULL, rolls.subrange(0, k)), state_line(v, st));
}
} // verus!
