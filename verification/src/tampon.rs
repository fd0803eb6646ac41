//! The composable record contract: any type that exposes the four codec
//! operations (size, serialize, deserialize, size probe) over the shared
//! binary layout, together with the laws that tie them to one another.

use vstd::prelude::*;
use crate::error::TamponError;
use crate::wire::spliced;

verus! {

/// Trait implemented by every type that can be carried by the codec:
/// scalars, text, sequences, and user composites built from them.
///
/// The four executable operations all walk the same layout: `bytes_size`
/// measures a value, `serialize` writes it at a cursor, `deserialize` reads it
/// back, and `deserialize_size` measures an untrusted buffer without
/// materializing anything, under an optional ceiling (`0` = unbounded).
///
/// The specification members have defaults that claim nothing, so an outside
/// implementation only supplies the executable operations (and any model type
/// for `V`). Every implementation this crate provides overrides the
/// specification members, carries the stated contracts, and is proved
/// [`lawful`]; what the codec guarantees about a composite of outside
/// implementations rests on those implementations meeting the same contracts.
pub trait Tampon: Sized {
    /// The mathematical content of a value of this type: the value itself for
    /// scalars, a sequence of code points for text, a sequence of element
    /// models for sequences.
    type V;

    /// The model of this value. Implementations that carry contracts
    /// define it; the default leaves it unspecified.
    open spec fn model(&self) -> Self::V {
        vstd::pervasive::arbitrary()
    }

    /// Whether this value can be encoded (every sequence length fits its
    /// length prefix). The default admits nothing; implementations that
    /// carry contracts override it.
    open spec fn valid(&self) -> bool {
        false
    }

    /// The exact bytes this value encodes to.
    open spec fn wire(&self) -> Seq<u8> {
        vstd::pervasive::arbitrary()
    }

    /// The model of the value a decode of `bytes` would produce together with
    /// the count of bytes it consumes, or `None` where a decode would fail.
    open spec fn parses(bytes: Seq<u8>) -> Option<(Self::V, int)> {
        None
    }

    /// The outcome of a size probe of `bytes` under ceiling `max`
    /// (`0` = unbounded): the consumed length, or the failure kind.
    open spec fn probes(bytes: Seq<u8>, max: nat) -> Result<int, TamponError> {
        Err(TamponError::DeserializeSizeBufferIncomplete)
    }

    /// The encoded size of this value in bytes.
    fn bytes_size(&self) -> (n: usize)
        requires
            self.valid(),
            self.wire().len() <= usize::MAX,
        ensures
            n == self.wire().len(),
    ;

    /// Writes this value into `buffer` starting at `at`; returns the count of
    /// bytes written. The buffer must already be large enough.
    fn serialize(&self, buffer: &mut Vec<u8>, at: usize) -> (n: usize)
        requires
            self.valid(),
            at + self.wire().len() <= old(buffer).len(),
        ensures
            n == self.wire().len(),
            final(buffer)@ == spliced(old(buffer)@, at as int, self.wire()),
    ;

    /// Reads one value out of `buffer` starting at `at`; returns it with the
    /// count of bytes consumed. The buffer must hold a complete encoding.
    fn deserialize(buffer: &Vec<u8>, at: usize) -> (r: (Self, usize))
        requires
            at <= buffer.len(),
            Self::parses(buffer@.skip(at as int)).is_some(),
        ensures
            Self::parses(buffer@.skip(at as int)) == Some((r.0.model(), r.1 as int)),
            r.0.valid(),
    ;

    /// Measures the bytes a decode at `at` would consume, without
    /// materializing any value; `max_size` of `0` means no ceiling.
    fn deserialize_size(buffer: &Vec<u8>, at: usize, max_size: usize) -> (r: Result<
        usize,
        TamponError,
    >)
        requires
            at <= buffer.len(),
        ensures
            Self::probes(buffer@.skip(at as int), max_size as nat) == (match r {
                Ok(n) => Ok::<int, TamponError>(n as int),
                Err(e) => Err::<int, TamponError>(e),
            }),
    ;

}

/// The laws a lawful codec participant obeys, quantified over its values:
/// round trip (decoding an encoding yields the value's model and consumes
/// exactly its encoded size), probe soundness (probing an encoding under an
/// admitting ceiling reports exactly its encoded size), probe completeness
/// on truncation (a strict prefix of an encoding probes as incomplete), and
/// ceiling enforcement (a positive ceiling below the encoded size makes the
/// probe fail with the ceiling error). Every implementation this crate
/// provides is proved lawful; see the lemmas beside each implementation.
pub open spec fn lawful<T: Tampon>() -> bool {
    (forall|v: T, rest: Seq<u8>|
        v.valid() ==> #[trigger] T::parses(v.wire().add(rest)) == Some(
            (v.model(), v.wire().len() as int),
        )) && (forall|v: T, rest: Seq<u8>, max: nat|
        v.valid() && (max == 0 || v.wire().len() <= max) ==> #[trigger] T::probes(
            v.wire().add(rest),
            max,
        ) == Ok::<int, TamponError>(v.wire().len() as int)) && (forall|v: T, k: int|
        v.valid() && 0 <= k < v.wire().len() ==> #[trigger] T::probes(
            v.wire().subrange(0, k),
            0,
        ) == Err::<int, TamponError>(TamponError::DeserializeSizeBufferIncomplete)) && (forall|
        v: T,
        rest: Seq<u8>,
        max: nat,
    |
        v.valid() && 0 < max < v.wire().len() ==> #[trigger] T::probes(v.wire().add(rest), max)
            == Err::<int, TamponError>(TamponError::DeserializeSizeGreaterThanMax))
}

/// The encoded size of one value. For several items, sum the calls in
/// declaration order.
pub fn bytes_size<T: Tampon>(v: &T) -> (n: usize)
    requires
        v.valid(),
        v.wire().len() <= usize::MAX,
    ensures
        n == v.wire().len(),
{
    v.bytes_size()
}

/// Writes one value into `buffer` at `at`; returns the count of bytes
/// written. For several items, chain the calls, each at the cursor the
/// previous one returned.
pub fn serialize<T: Tampon>(v: &T, buffer: &mut Vec<u8>, at: usize) -> (n: usize)
    requires
        v.valid(),
        at + v.wire().len() <= old(buffer).len(),
    ensures
        n == v.wire().len(),
        final(buffer)@ == spliced(old(buffer)@, at as int, v.wire()),
{
    v.serialize(buffer, at)
}

/// Reads one value out of `buffer` at `at`; returns it with the count of
/// bytes consumed.
pub fn deserialize<T: Tampon>(buffer: &Vec<u8>, at: usize) -> (r: (T, usize))
    requires
        at <= buffer.len(),
        T::parses(buffer@.skip(at as int)).is_some(),
    ensures
        T::parses(buffer@.skip(at as int)) == Some((r.0.model(), r.1 as int)),
        r.0.valid(),
{
    T::deserialize(buffer, at)
}

/// Measures the bytes a decode of one value at `at` would consume, without
/// materializing it, under the ceiling `max_size` (`0` = unbounded).
pub fn deserialize_size<T: Tampon>(buffer: &Vec<u8>, at: usize, max_size: usize) -> (r: Result<
    usize,
    TamponError,
>)
    requires
        at <= buffer.len(),
    ensures
        T::probes(buffer@.skip(at as int), max_size as nat) == (match r {
            Ok(n) => Ok::<int, TamponError>(n as int),
            Err(e) => Err::<int, TamponError>(e),
        }),
{
    T::deserialize_size(buffer, at, max_size)
}

/// Allocates a buffer of exactly the encoded size of `v` and serializes `v`
/// into it.
pub fn buffer<T: Tampon>(v: &T) -> (r: Vec<u8>)
    requires
        v.valid(),
        v.wire().len() <= usize::MAX,
    ensures
        r@ == v.wire(),
{
    let n = v.bytes_size();
    let mut buf: Vec<u8> = Vec::new();
    let mut i: usize = 0;
    while i < n
        invariant
            i <= n,
            buf@.len() == i,
        decreases n - i,
    {
        buf.push(0);
        i = i + 1;
    }
    v.serialize(&mut buf, 0);
    proof {
        assert(buf@ =~= v.wire());
    }
    buf
}

} // verus!
