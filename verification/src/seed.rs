//! The bytes of a seed object.

use vstd::prelude::*;

verus! {

/// Byte `i` of the seed: the letters `a` to `z` over and over.
pub open spec fn alphabet_byte(i: int) -> u8 {
    (97 + i % 26) as u8
}

/// The first `len` bytes of the letters `a` to `z` over and over.
pub open spec fn alphabet(len: nat) -> Seq<u8> {
    Seq::new(len, |i: int| alphabet_byte(i))
}

/// A seed of `len` bytes: the letters `a` to `z` over and over.
pub fn alphabet_cycle(len: usize) -> (bytes: Vec<u8>)
    ensures
        bytes@ == alphabet(len as nat),
{
    let mut bytes: Vec<u8> = Vec::new();
    let mut letter: u8 = 0;
    let mut i: usize = 0;
    while i < len
        invariant
            i <= len,
            letter == i % 26,
            bytes@ =~= alphabet(i as nat),
        decreases len - i,
    {
        bytes.push(97 + letter);
        letter = if letter == 25 {
            0
        } else {
            letter + 1
        };
        i = i + 1;
    }
    bytes
}

} // verus!
