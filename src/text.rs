//! Characters as the matchers see them: ASCII case folding and character
//! classes, and turning a string into an indexable sequence of characters.
use vstd::prelude::*;

verus! {

/// Whether `c` is an ASCII capital letter.
pub open spec fn is_upper(c: char) -> bool {
    'A' <= c && c <= 'Z'
}

/// Whether `c` is an ASCII small letter.
pub open spec fn is_lower(c: char) -> bool {
    'a' <= c && c <= 'z'
}

/// `c` with an ASCII capital letter turned into its small letter; any other
/// character is left as it is.
pub open spec fn fold(c: char) -> char {
    if is_upper(c) {
        ((c as u32) + 32) as char
    } else {
        c
    }
}

/// Whether two characters are equal once ASCII case is ignored.
pub open spec fn same_folded(a: char, b: char) -> bool {
    fold(a) == fold(b)
}

/// Compares two characters ignoring ASCII case.
pub fn eq_ignore_case(a: char, b: char) -> (r: bool)
    ensures
        r == same_folded(a, b),
{
    let fa: u32 = if 'A' <= a && a <= 'Z' { a as u32 + 32 } else { a as u32 };
    let fb: u32 = if 'A' <= b && b <= 'Z' { b as u32 + 32 } else { b as u32 };
    fa == fb
}

/// The characters of `s`, in order, in a vector.
pub fn chars_of(s: &str) -> (r: Vec<char>)
    ensures
        r@ == s@,
{
    let mut r: Vec<char> = Vec::new();
    proof {
        broadcast use vstd::string::axiom_spec_iter;
    }
    for c in it: s.chars()
        invariant
            r@ == it.seq().take(it.index() as int),
    {
        r.push(c);
    }
    r
}

} // verus!
