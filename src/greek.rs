//! Shifting Greek text one letter back through the alphabet.
use vstd::prelude::*;
use vstd::std_specs::iter::IteratorSpec;

verus! {

/// The code point one place before code point `u`: the Greek letters step
/// back one code point, with alpha wrapping round to omega and sigma stepping
/// over the final sigma; code points below the Greek block are left alone.
pub open spec fn greek_left(u: u32) -> u32 {
    if u == 0x03C3 {
        0x03C1
    } else if u == 0x0391 {
        0x03A9
    } else if u == 0x03B1 {
        0x03C9
    } else if u >= 0x0370 {
        (u - 1) as u32
    } else {
        u
    }
}

/// Relies on `char::from_u32`: `Some` exactly for the Unicode scalar values,
/// holding the character with that code point.
#[verifier::external_body]
fn char_from_code(u: u32) -> (r: Option<char>)
    ensures
        r is Some ==> r.unwrap() as u32 == u,
        u < 0xD800 || (0xE000 <= u && u <= 0x10FFFF) ==> r is Some,
{
    char::from_u32(u)
}

/// The characters of `s` in order.
fn chars_of(s: &str) -> (r: Vec<char>)
    ensures
        r@ == s@,
{
    let mut it = s.chars();
    let mut out: Vec<char> = Vec::new();
    loop
        invariant
            out@ + it.remaining() == s@,
            it.obeys_prophetic_iter_laws(),
            it.decrease() is Some,
        ensures
            out@ == s@,
        decreases it.decrease()->0,
    {
        match it.next() {
            Some(c) => {
                out.push(c);
            },
            None => {
                assert(out@ + seq![] =~= out@);
                break;
            },
        }
    }
    out
}

/// Relies on `String::from_iter`: the string of the characters of `v` in
/// order.
#[verifier::external_body]
fn string_of(v: &Vec<char>) -> (r: String)
    ensures
        r@ == v@,
{
    String::from_iter(v.iter())
}

/// One character shifted one place back.
pub fn rotate_greek_char(c: char) -> (r: char)
    requires
        c != '\u{E000}',
    ensures
        r as u32 == greek_left(c as u32),
{
    if c == 'σ' {
        'ρ'
    } else if c == 'Α' {
        'Ω'
    } else if c == 'α' {
        'ω'
    } else if c as u32 >= 0x0370 {
        let u = c as u32;
        assert(u <= 0x10FFFF);
        match char_from_code(u - 1) {
            Some(d) => d,
            None => c,
        }
    } else {
        c
    }
}

/// Shifts every character of `str` one place back: Greek letters step back
/// through the alphabet, everything below the Greek block is kept.
pub fn rotate_greek_left(str: &str) -> (r: String)
    requires
        forall|i: int| 0 <= i < str@.len() ==> str@[i] != '\u{E000}',
    ensures
        r@.len() == str@.len(),
        forall|i: int| 0 <= i < str@.len() ==> #[trigger] r@[i] as u32 == greek_left(str@[i] as u32),
{
    let cs = chars_of(str);
    let mut out: Vec<char> = Vec::new();
    let mut i: usize = 0;
    while i < cs.len()
        invariant
            i <= cs.len(),
            cs@ == str@,
            forall|k: int| 0 <= k < str@.len() ==> str@[k] != '\u{E000}',
            out@.len() == i,
            forall|k: int| 0 <= k < i ==> #[trigger] out@[k] as u32 == greek_left(str@[k] as u32),
        decreases cs.len() - i,
    {
        let d = rotate_greek_char(cs[i]);
        out.push(d);
        i += 1;
    }
    string_of(&out)
}

} // verus!
