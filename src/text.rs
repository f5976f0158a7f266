//! Character searches over string slices, stated over their `Seq<char>` views.
use vstd::prelude::*;

verus! {

/// Whether `c` occurs anywhere in `s`.
pub open spec fn has_char(s: Seq<char>, c: char) -> bool {
    exists|i: int| 0 <= i < s.len() && s[i] == c
}

/// The index of the first `c` in `s` at or after `start`, if any.
pub fn first_index_of(s: &str, c: char, start: usize) -> (r: Option<usize>)
    ensures
        match r {
            Some(i) => start <= i < s@.len() && s@[i as int] == c && forall|t: int|
                start <= t < i ==> s@[t] != c,
            None => forall|t: int| start <= t < s@.len() ==> s@[t] != c,
        },
{
    let n = s.unicode_len();
    let mut i: usize = start;
    while i < n
        invariant
            n == s@.len(),
            start <= i || n <= i,
            forall|t: int| start <= t < i && t < n ==> s@[t] != c,
        decreases n - i,
    {
        if s.get_char(i) == c {
            return Some(i);
        }
        i = i + 1;
    }
    None
}

/// Whether `c` occurs anywhere in `s`.
pub fn contains_char(s: &str, c: char) -> (r: bool)
    ensures
        r == has_char(s@, c),
{
    match first_index_of(s, c, 0) {
        Some(_) => true,
        None => false,
    }
}

} // verus!
