//! The laws of the codec, stated once over every lawful participant: round
//! trip, probe soundness, probe completeness on truncation, ceiling
//! enforcement, and the independence of element encodings from the length
//! prefix width. Lawfulness ([`lawful`](crate::tampon::lawful)) is proved
//! for `bool` and the integers beside their implementations, for `String` by
//! [`lemma_string_lawful`](crate::text::lemma_string_lawful), for sequences
//! of lawful elements by [`lemma_seq_lawful`](crate::seqs::lemma_seq_lawful),
//! and for pairs of lawful participants by
//! [`lemma_pair_lawful`](crate::pairs::lemma_pair_lawful); together these
//! close the laws over every composition of items.

use vstd::prelude::*;
use crate::error::TamponError;
use crate::seqs::{elems_wire, seq_wire};
use crate::tampon::{lawful, Tampon};
use crate::wire::le_bytes;

verus! {

/// Round trip: decoding an encoding yields the encoded value back (its
/// model), and consumes exactly the encoded size, whatever bytes follow.
/// With the contracts of `serialize` and `deserialize` this gives
/// `deserialize(serialize(v)) == v` with bytes written == bytes read ==
/// `bytes_size(v)`.
pub proof fn lemma_round_trip<T: Tampon>(v: &T, rest: Seq<u8>)
    requires
        lawful::<T>(),
        v.valid(),
    ensures
        T::parses(v.wire().add(rest)) == Some((v.model(), v.wire().len() as int)),
{
}

/// Probe soundness: probing an encoding under no ceiling, or under any
/// ceiling at least the encoded size, reports exactly `bytes_size(v)`.
pub proof fn lemma_probe_sound<T: Tampon>(v: &T, rest: Seq<u8>, max: nat)
    requires
        lawful::<T>(),
        v.valid(),
        max == 0 || v.wire().len() <= max,
    ensures
        T::probes(v.wire().add(rest), max) == Ok::<int, TamponError>(v.wire().len() as int),
{
}

/// Probe completeness on truncation: any strict prefix of an encoding
/// probes as an incomplete buffer.
pub proof fn lemma_probe_truncated<T: Tampon>(v: &T, k: int)
    requires
        lawful::<T>(),
        v.valid(),
        0 <= k < v.wire().len(),
    ensures
        T::probes(v.wire().subrange(0, k), 0) == Err::<int, TamponError>(
            TamponError::DeserializeSizeBufferIncomplete,
        ),
{
}

/// Ceiling enforcement: a positive ceiling strictly below the encoded size
/// makes the probe of an encoding fail with the ceiling error.
pub proof fn lemma_probe_ceiling<T: Tampon>(v: &T, rest: Seq<u8>, max: nat)
    requires
        lawful::<T>(),
        v.valid(),
        0 < max < v.wire().len(),
    ensures
        T::probes(v.wire().add(rest), max) == Err::<int, TamponError>(
            TamponError::DeserializeSizeGreaterThanMax,
        ),
{
}

/// Length-prefix width: encoding a sequence under one prefix width instead
/// of another changes only the prefix bytes; the encodings of the elements
/// that follow it are identical.
#[verifier::rlimit(50)]
pub proof fn lemma_prefix_width<T: Tampon>(elems: Seq<T>, w1: nat, w2: nat)
    ensures
        seq_wire(elems, w1).subrange(0, w1 as int) == le_bytes(elems.len(), w1),
        seq_wire(elems, w2).subrange(0, w2 as int) == le_bytes(elems.len(), w2),
        seq_wire(elems, w1).skip(w1 as int) == seq_wire(elems, w2).skip(w2 as int),
{
    assert(seq_wire(elems, w1).subrange(0, w1 as int) =~= le_bytes(elems.len(), w1));
    assert(seq_wire(elems, w2).subrange(0, w2 as int) =~= le_bytes(elems.len(), w2));
    assert(seq_wire(elems, w1).skip(w1 as int) =~= elems_wire(elems));
    assert(seq_wire(elems, w2).skip(w2 as int) =~= elems_wire(elems));
}

} // verus!
