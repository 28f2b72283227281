//! Numbers and texts that chance makes.

use vstd::prelude::*;

verus! {

/// `rand::Rng::gen_range` over the numbers below a bound, with the generator of
/// the thread. Which of them comes is left to chance.
#[verifier::external_body]
pub(crate) fn below(bound: usize) -> (r: usize)
    requires
        bound > 0,
    ensures
        r < bound,
{
    rand::Rng::gen_range(&mut rand::thread_rng(), 0..bound)
}

/// A small letter or a digit.
pub open spec fn in_alphabet(c: char) -> bool {
    0x61 <= c as u32 <= 0x7a || 0x30 <= c as u32 <= 0x39
}

/// The letter or digit with a number.
fn letter(i: usize) -> (r: char)
    requires
        i < 36,
    ensures
        in_alphabet(r),
{
    if i < 26 {
        (0x61 + i as u8) as char
    } else {
        (0x30 + (i - 26) as u8) as char
    }
}

/// So many small letters and digits, picked by chance.
pub fn rand_suffix(n: usize) -> (r: String)
    ensures
        r@.len() == n,
        forall|i: int| 0 <= i < n ==> in_alphabet(#[trigger] r@[i]),
{
    let mut s = String::new();
    let mut i: usize = 0;
    while i < n
        invariant
            i <= n,
            s@.len() == i,
            forall|k: int| 0 <= k < i ==> in_alphabet(#[trigger] s@[k]),
        decreases n - i,
    {
        s.push(letter(below(36)));
        i += 1;
    }
    s
}

/// The letters and digits that a key is made of.
pub proof fn keys_are_of_letters_and_digits(c: char)
    ensures
        in_alphabet(c) <==> 'a' <= c <= 'z' || '0' <= c <= '9',
{
}

} // verus!
