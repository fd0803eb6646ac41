//! Buffer wiping: overwrites every byte of a sensitive buffer with zero.
//! It cannot be reversed.

use vstd::prelude::*;

verus! {

/// Wipes a buffer, overwriting its whole content with zeroes; the length is
/// kept.
pub fn wipe_buffer(buffer: &mut Vec<u8>)
    ensures
        final(buffer)@.len() == old(buffer)@.len(),
        forall|i: int| 0 <= i < final(buffer)@.len() ==> final(buffer)@[i] == 0,
{
    let mut i: usize = 0;
    while i < buffer.len()
        invariant
            i <= buffer@.len(),
            buffer@.len() == old(buffer)@.len(),
            forall|j: int| 0 <= j < i ==> buffer@[j] == 0,
        decreases buffer@.len() - i,
    {
        buffer.set(i, 0);
        i = i + 1;
    }
}

} // verus!
