//! Conversions between text and character vectors.
use vstd::prelude::*;

verus! {

/// Relies on `String::from_iter`: the string holds the characters in order.
#[verifier::external_body]
pub(crate) fn string_from_chars(cs: Vec<char>) -> (r: String)
    ensures
        r@ == cs@,
{
    String::from_iter(cs)
}

/// The characters of `s`, in order.
pub fn chars_of(s: &str) -> (r: Vec<char>)
    ensures
        r@ == s@,
{
    let mut out: Vec<char> = Vec::new();
    for c in it: s.chars()
        invariant
            out@ == it.seq().take(it.index() as int),
    {
        out.push(c);
    }
    out
}

/// Whether every character of `s` is ASCII.
pub fn all_ascii(s: &str) -> (r: bool)
    ensures
        r == forall|i: int| 0 <= i < s@.len() ==> (s@[i] as u32) < 128,
{
    let cs = chars_of(s);
    let mut i: usize = 0;
    while i < cs.len()
        invariant
            cs@ == s@,
            i <= cs.len(),
            forall|k: int| 0 <= k < i ==> (s@[k] as u32) < 128,
        decreases cs.len() - i,
    {
        if cs[i] as u32 >= 128 {
            return false;
        }
        i += 1;
    }
    true
}

} // verus!
