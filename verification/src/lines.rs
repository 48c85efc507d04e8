//! Counting lines in what was read from an object.

use vstd::prelude::*;

verus! {

/// The number of line feeds among the given bytes.
pub open spec fn newlines(bytes: Seq<u8>) -> nat
    decreases bytes.len(),
{
    if bytes.len() == 0 {
        0
    } else {
        newlines(bytes.drop_last()) + (if bytes.last() == 10u8 {
            1nat
        } else {
            0nat
        })
    }
}

/// The line feeds of two runs of bytes add up.
pub proof fn lemma_newlines_add(first: Seq<u8>, second: Seq<u8>)
    ensures
        newlines(first + second) == newlines(first) + newlines(second),
    decreases second.len(),
{
    if second.len() > 0 {
        lemma_newlines_add(first, second.drop_last());
        assert((first + second).drop_last() =~= first + second.drop_last());
        assert((first + second).last() == second.last());
    } else {
        assert(first + second =~= first);
    }
}

/// Counts the line feeds in one buffer of an object's bytes.
pub fn count_newlines(buffer: &[u8]) -> (count: usize)
    ensures
        count == newlines(buffer@),
{
    let len = buffer.len();
    let mut count: usize = 0;
    let mut i: usize = 0;
    while i < len
        invariant
            len == buffer@.len(),
            i <= len,
            count == newlines(buffer@.take(i as int)),
            count <= i,
        decreases len - i,
    {
        assert(buffer@.take(i + 1).drop_last() =~= buffer@.take(i as int));
        if buffer[i] == 10u8 {
            count = count + 1;
        }
        i = i + 1;
    }
    assert(buffer@.take(len as int) =~= buffer@);
    count
}

} // verus!
