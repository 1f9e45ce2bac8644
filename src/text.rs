//! Small verified helpers on characters and strings.
use vstd::prelude::*;
use vstd::string::*;

verus! {

/// The characters of `s`, one by one.
pub fn chars_of(s: &str) -> (r: Vec<char>)
    ensures
        r@ == s@,
{
    let n = s.unicode_len();
    let mut v: Vec<char> = Vec::new();
    let mut i: usize = 0;
    while i < n
        invariant
            n == s@.len(),
            i <= n,
            v@ == s@.subrange(0, i as int),
        decreases n - i,
    {
        v.push(s.get_char(i));
        i = i + 1;
    }
    assert(v@ =~= s@);
    v
}

/// ASCII case folding of one character, as a code point.
pub open spec fn fold_case(c: char) -> u32 {
    let n = c as u32;
    if 65 <= n && n <= 90 {
        (n + 32) as u32
    } else {
        n
    }
}

/// Two character sequences are equal up to ASCII case.
pub open spec fn eq_ignore_ascii_case(a: Seq<char>, b: Seq<char>) -> bool {
    &&& a.len() == b.len()
    &&& forall|i: int| 0 <= i < a.len() ==> fold_case(#[trigger] a[i]) == fold_case(b[i])
}

fn fold_case_exec(c: char) -> (r: u32)
    ensures
        r == fold_case(c),
{
    let n = c as u32;
    if 65 <= n && n <= 90 {
        n + 32
    } else {
        n
    }
}

/// Compares `a` with `b` up to ASCII case.
pub fn chars_eq_ignore_ascii_case(a: &Vec<char>, b: &Vec<char>) -> (r: bool)
    ensures
        r == eq_ignore_ascii_case(a@, b@),
{
    if a.len() != b.len() {
        return false;
    }
    let mut i: usize = 0;
    while i < a.len()
        invariant
            a@.len() == b@.len(),
            i <= a@.len(),
            forall|j: int| 0 <= j < i ==> fold_case(#[trigger] a@[j]) == fold_case(b@[j]),
        decreases a@.len() - i,
    {
        if fold_case_exec(a[i]) != fold_case_exec(b[i]) {
            return false;
        }
        i = i + 1;
    }
    true
}

} // verus!
