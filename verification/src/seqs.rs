//! Sequence codec: a little-endian length prefix of selectable width (one of
//! 1, 2, 4, 8 or 16 bytes, 4 by default) followed by the encodings of the
//! elements in declaration order. The element may be any codec participant,
//! so sequences of scalars, of text and of user composites all share this
//! code, and the probe propagates the remaining ceiling into every element.

use vstd::prelude::*;
use crate::error::TamponError;
use crate::tampon::{lawful, Tampon};
use crate::wire::{le_bytes, le_val, lemma_le_val_le_bytes, lemma_pow256_values, pow256, read_le,
    spliced, write_le};

verus! {

/// Width of the length prefix of an encoded sequence.
#[derive(Clone, Copy, Debug, PartialEq, Eq, Structural)]
pub enum LenType {
    U8,
    U16,
    U32,
    U64,
    U128,
}

impl LenType {
    /// The prefix width in bytes.
    pub open spec fn width_spec(self) -> nat {
        match self {
            LenType::U8 => 1,
            LenType::U16 => 2,
            LenType::U32 => 4,
            LenType::U64 => 8,
            LenType::U128 => 16,
        }
    }

    /// The prefix width in bytes.
    pub fn width(self) -> (w: usize)
        ensures
            w == self.width_spec(),
            1 <= w <= 16,
    {
        match self {
            LenType::U8 => 1,
            LenType::U16 => 2,
            LenType::U32 => 4,
            LenType::U64 => 8,
            LenType::U128 => 16,
        }
    }
}

/// Every element can be encoded.
pub open spec fn all_valid<T: Tampon>(elems: Seq<T>) -> bool {
    forall|i: int| 0 <= i < elems.len() ==> (#[trigger] elems[i]).valid()
}

/// The concatenated encodings of the elements.
pub open spec fn elems_wire<T: Tampon>(elems: Seq<T>) -> Seq<u8>
    decreases elems.len(),
{
    if elems.len() == 0 {
        Seq::empty()
    } else {
        elems[0].wire().add(elems_wire(elems.drop_first()))
    }
}

/// The models of the elements.
pub open spec fn elems_model<T: Tampon>(elems: Seq<T>) -> Seq<T::V> {
    Seq::new(elems.len(), |i: int| elems[i].model())
}

/// The full encoding of a sequence under prefix width `w`.
pub open spec fn seq_wire<T: Tampon>(elems: Seq<T>, w: nat) -> Seq<u8> {
    le_bytes(elems.len(), w).add(elems_wire(elems))
}

/// The models parsed for `count` elements of `bytes` starting at offset
/// `from`, together with the offset after them.
pub open spec fn elems_parse<T: Tampon>(bytes: Seq<u8>, count: nat, from: int) -> Option<
    (Seq<T::V>, int),
>
    decreases count,
{
    if count == 0 {
        Some((Seq::empty(), from))
    } else {
        match T::parses(bytes.skip(from)) {
            None => None,
            Some((m, n)) => if 0 <= n <= bytes.len() - from {
                match elems_parse::<T>(bytes, (count - 1) as nat, from + n) {
                    None => None,
                    Some((ms, end)) => Some((seq![m].add(ms), end)),
                }
            } else {
                None
            },
        }
    }
}

/// The decode outcome for a whole sequence under prefix width `w`: the
/// element models and the bytes consumed, prefix included.
pub open spec fn seq_parse<T: Tampon>(bytes: Seq<u8>, w: nat) -> Option<(Seq<T::V>, int)> {
    if bytes.len() < w {
        None
    } else {
        let count = le_val(bytes.subrange(0, w as int));
        elems_parse::<T>(bytes, count, w as int)
    }
}

/// The probe outcome for `count` elements starting at offset `consumed`,
/// under ceiling `max` (`0` = unbounded). Each element is probed with the
/// budget that remains, and the ceiling is re-checked as its width is added.
pub open spec fn elems_probe<T: Tampon>(
    bytes: Seq<u8>,
    count: nat,
    consumed: int,
    max: nat,
) -> Result<int, TamponError>
    decreases count,
{
    if count == 0 {
        Ok(consumed)
    } else {
        let budget: nat = if max == 0 || max <= consumed {
            0
        } else {
            (max - consumed) as nat
        };
        match T::probes(bytes.skip(consumed), budget) {
            Err(e) => Err(e),
            Ok(n) => if !(0 <= n <= bytes.len() - consumed) {
                // no probe of this crate reports past its bytes
                Err(TamponError::DeserializeSizeBufferIncomplete)
            } else if max > 0 && consumed + n > max {
                Err(TamponError::DeserializeSizeGreaterThanMax)
            } else {
                elems_probe::<T>(bytes, (count - 1) as nat, consumed + n, max)
            },
        }
    }
}

/// The probe outcome for a whole sequence under prefix width `w` and ceiling
/// `max`: incomplete when the prefix itself cannot be read, then the declared
/// count of elements is walked with the running total held to the ceiling.
pub open spec fn seq_probe<T: Tampon>(bytes: Seq<u8>, w: nat, max: nat) -> Result<
    int,
    TamponError,
> {
    if bytes.len() < w {
        Err(TamponError::DeserializeSizeBufferIncomplete)
    } else {
        let count = le_val(bytes.subrange(0, w as int));
        if max > 0 && w > max {
            Err(TamponError::DeserializeSizeGreaterThanMax)
        } else {
            elems_probe::<T>(bytes, count, w as int, max)
        }
    }
}

/// Appending one element appends its encoding.
pub proof fn lemma_elems_wire_snoc<T: Tampon>(elems: Seq<T>, x: T)
    ensures
        elems_wire(elems.push(x)) == elems_wire(elems).add(x.wire()),
    decreases elems.len(),
{
    assert(elems.push(x)[0] == if elems.len() == 0 {
        x
    } else {
        elems[0]
    });
    assert(elems_wire(elems.push(x)) == elems.push(x)[0].wire().add(
        elems_wire(elems.push(x).drop_first()),
    ));
    if elems.len() == 0 {
        assert(elems.push(x).drop_first() =~= Seq::<T>::empty());
        assert(elems_wire(Seq::<T>::empty()) == Seq::<u8>::empty());
        assert(elems_wire(elems.push(x)) =~= elems_wire(elems).add(x.wire()));
    } else {
        assert(elems.push(x).drop_first() =~= elems.drop_first().push(x));
        lemma_elems_wire_snoc(elems.drop_first(), x);
        assert(elems_wire(elems.push(x)) =~= elems_wire(elems).add(x.wire()));
    }
}

/// The encodings of the first `i` elements stand before those of the rest.
pub proof fn lemma_elems_wire_split<T: Tampon>(elems: Seq<T>, i: int)
    requires
        0 <= i <= elems.len(),
    ensures
        elems_wire(elems) == elems_wire(elems.take(i)).add(elems_wire(elems.skip(i))),
    decreases i,
{
    if i == 0 {
        assert(elems.take(0) =~= Seq::<T>::empty());
        assert(elems.skip(0) =~= elems);
        assert(elems_wire(elems) =~= elems_wire(elems.take(0)).add(elems_wire(elems.skip(0))));
    } else {
        lemma_elems_wire_split(elems, i - 1);
        assert(elems.take(i) =~= elems.take(i - 1).push(elems[i - 1]));
        lemma_elems_wire_snoc(elems.take(i - 1), elems[i - 1]);
        assert(elems.skip(i - 1)[0] == elems[i - 1]);
        assert(elems.skip(i - 1).drop_first() =~= elems.skip(i));
        assert(elems_wire(elems.skip(i - 1)) == elems[i - 1].wire().add(elems_wire(elems.skip(i))));
        assert(elems_wire(elems) =~= elems_wire(elems.take(i)).add(elems_wire(elems.skip(i))));
    }
}

/// The encoded size of a sequence under the given prefix width: the prefix
/// plus the sum of every element's encoded size, also when the sequence is
/// empty.
pub fn bytes_size_seq<T: Tampon>(elems: &Vec<T>, len_type: LenType) -> (n: usize)
    requires
        all_valid(elems@),
        seq_wire(elems@, len_type.width_spec()).len() <= usize::MAX,
    ensures
        n == seq_wire(elems@, len_type.width_spec()).len(),
{
    let ghost w_g = len_type.width_spec();
    let w = len_type.width();
    let mut total: usize = w;
    let mut i: usize = 0;
    while i < elems.len()
        invariant
            i <= elems@.len(),
            all_valid(elems@),
            seq_wire(elems@, w_g).len() <= usize::MAX,
            w == w_g,
            total == w_g + elems_wire(elems@.take(i as int)).len(),
        decreases elems@.len() - i,
    {
        proof {
            lemma_elems_wire_split(elems@, i as int);
            assert(elems@.skip(i as int)[0] == elems@[i as int]);
            assert(elems@.skip(i as int).drop_first() =~= elems@.skip(i + 1));
            assert(elems_wire(elems@.skip(i as int)) == elems@[i as int].wire().add(
                elems_wire(elems@.skip(i + 1)),
            ));
            assert(elems@[i as int].valid());
        }
        let e: &T = &elems[i];
        let esz = e.bytes_size();
        total = total + esz;
        proof {
            assert(elems@.take(i + 1) =~= elems@.take(i as int).push(elems@[i as int]));
            lemma_elems_wire_snoc(elems@.take(i as int), elems@[i as int]);
        }
        i = i + 1;
    }
    proof {
        assert(elems@.take(elems@.len() as int) =~= elems@);
    }
    total
}

/// Writes the length prefix and then every element in order; returns the
/// count of bytes written.
pub fn serialize_seq<T: Tampon>(
    elems: &Vec<T>,
    buffer: &mut Vec<u8>,
    at: usize,
    len_type: LenType,
) -> (n: usize)
    requires
        all_valid(elems@),
        elems@.len() < pow256(len_type.width_spec()),
        at + seq_wire(elems@, len_type.width_spec()).len() <= old(buffer).len(),
    ensures
        n == seq_wire(elems@, len_type.width_spec()).len(),
        final(buffer)@ == spliced(
            old(buffer)@,
            at as int,
            seq_wire(elems@, len_type.width_spec()),
        ),
{
    let ghost w_g = len_type.width_spec();
    let ghost full = seq_wire(elems@, w_g);
    let w = len_type.width();
    write_le(buffer, at, elems.len() as u128, w);
    proof {
        crate::wire::lemma_spliced_index(old(buffer)@, at as int, le_bytes(elems@.len(), w_g));
    }
    let mut cursor: usize = at + w;
    let mut i: usize = 0;
    while i < elems.len()
        invariant
            i <= elems@.len(),
            all_valid(elems@),
            w == w_g,
            full == seq_wire(elems@, w_g),
            cursor == at + w_g + elems_wire(elems@.take(i as int)).len(),
            at + full.len() <= buffer.len(),
            buffer@.len() == old(buffer)@.len(),
            forall|j: int| 0 <= j < cursor - at ==> #[trigger] buffer@[at + j] == full[j],
            forall|j: int|
                0 <= j < buffer@.len() && !(at <= j < cursor) ==> #[trigger] buffer@[j] == old(
                    buffer,
                )@[j],
        decreases elems@.len() - i,
    {
        proof {
            lemma_elems_wire_split(elems@, i as int);
            assert(elems@.skip(i as int)[0] == elems@[i as int]);
            assert(elems@.skip(i as int).drop_first() =~= elems@.skip(i + 1));
            assert(elems_wire(elems@.skip(i as int)) == elems@[i as int].wire().add(
                elems_wire(elems@.skip(i + 1)),
            ));
            assert(elems@[i as int].valid());
        }
        let e: &T = &elems[i];
        let ghost before = buffer@;
        let n_i = e.serialize(buffer, cursor);
        proof {
            crate::wire::lemma_spliced_index(before, cursor as int, e.wire());
            assert(elems@.take(i + 1) =~= elems@.take(i as int).push(elems@[i as int]));
            lemma_elems_wire_snoc(elems@.take(i as int), elems@[i as int]);
            assert forall|j: int| 0 <= j < cursor + n_i - at implies #[trigger] buffer@[at + j]
                == full[j] by {
                if j < cursor - at {
                    assert(buffer@[at + j] == before[at + j]);
                } else {
                    assert(buffer@[at + j] == e.wire()[at + j - cursor]);
                    assert(full[j] == elems_wire(elems@)[j - w_g]);
                    assert(elems_wire(elems@)[j - w_g] == elems_wire(elems@.skip(i as int))[j - w_g
                        - elems_wire(elems@.take(i as int)).len()]);
                }
            }
        }
        cursor = cursor + n_i;
        i = i + 1;
    }
    proof {
        assert(elems@.take(elems@.len() as int) =~= elems@);
        assert(cursor - at == full.len());
        crate::wire::lemma_spliced_index(old(buffer)@, at as int, full);
        assert forall|j: int| 0 <= j < buffer@.len() implies buffer@[j] == spliced(
            old(buffer)@,
            at as int,
            full,
        )[j] by {
            if at <= j < cursor {
                assert(buffer@[at + (j - at)] == full[j - at]);
            }
        }
        assert(buffer@ =~= spliced(old(buffer)@, at as int, full));
    }
    cursor - at
}

/// Reads the length prefix and then decodes that many elements in order;
/// returns them with the count of bytes consumed.
pub fn deserialize_seq<T: Tampon>(buffer: &Vec<u8>, at: usize, len_type: LenType) -> (r: (
    Vec<T>,
    usize,
))
    requires
        at <= buffer.len(),
        seq_parse::<T>(buffer@.skip(at as int), len_type.width_spec()).is_some(),
    ensures
        seq_parse::<T>(buffer@.skip(at as int), len_type.width_spec()) == Some(
            (elems_model(r.0@), r.1 as int),
        ),
        all_valid(r.0@),
        at + r.1 <= buffer.len(),
{
    let ghost bytesk = buffer@.skip(at as int);
    let ghost w_g = len_type.width_spec();
    let ghost count: nat = le_val(bytesk.subrange(0, w_g as int));
    let w = len_type.width();
    let count128 = read_le(buffer, at, w);
    proof {
        assert(buffer@.subrange(at as int, at + w) =~= bytesk.subrange(0, w_g as int));
        lemma_elems_parse_bound::<T>(bytesk, count, w_g as int);
    }
    let mut acc: Vec<T> = Vec::new();
    let mut cursor: usize = at + w;
    let mut i: u128 = 0;
    while i < count128
        invariant
            at + w_g <= cursor <= buffer.len(),
            i <= count128,
            count128 as nat == count,
            w == w_g,
            bytesk == buffer@.skip(at as int),
            acc@.len() == i,
            all_valid(acc@),
            match (elems_parse::<T>(bytesk, count, w_g as int), elems_parse::<T>(
                bytesk,
                (count - i) as nat,
                cursor - at,
            )) {
                (Some((fm, fe)), Some((sm, se))) => fm == elems_model(acc@).add(sm) && fe == se,
                _ => false,
            },
        decreases count128 - i,
    {
        proof {
            assert(bytesk.skip(cursor - at) =~= buffer@.skip(cursor as int));
        }
        let (v, n) = T::deserialize(buffer, cursor);
        proof {
            let sub = elems_parse::<T>(bytesk, (count - i) as nat, cursor - at);
            assert(0 <= n <= bytesk.len() - (cursor - at));
            let tail = elems_parse::<T>(bytesk, (count - i - 1) as nat, cursor - at + n);
            assert(sub == match tail {
                None => None,
                Some((ms, end)) => Some((seq![v.model()].add(ms), end)),
            });
            assert(elems_model(acc@.push(v)) =~= elems_model(acc@).push(v.model()));
            let tm = (tail->0).0;
            assert(elems_model(acc@).add(seq![v.model()].add(tm)) =~= elems_model(acc@).push(
                v.model(),
            ).add(tm));
        }
        acc.push(v);
        cursor = cursor + n;
        i = i + 1;
    }
    proof {
        assert(elems_model(acc@).add(Seq::<T::V>::empty()) =~= elems_model(acc@));
    }
    (acc, cursor - at)
}

/// Measures the bytes a sequence decode would consume: the prefix, then each
/// declared element probed against the budget that remains under `max_size`
/// (`0` = unbounded), stopping at the first failure.
pub fn deserialize_size_seq<T: Tampon>(
    buffer: &Vec<u8>,
    at: usize,
    max_size: usize,
    len_type: LenType,
) -> (r: Result<usize, TamponError>)
    requires
        at <= buffer.len(),
    ensures
        seq_probe::<T>(buffer@.skip(at as int), len_type.width_spec(), max_size as nat) == (match r {
            Ok(n) => Ok::<int, TamponError>(n as int),
            Err(e) => Err::<int, TamponError>(e),
        }),
        r matches Ok(n) ==> at + n <= buffer.len(),
{
    let ghost bytesk = buffer@.skip(at as int);
    let ghost w_g = len_type.width_spec();
    let ghost max_g = max_size as nat;
    let w = len_type.width();
    if buffer.len() - at < w {
        return Err(TamponError::DeserializeSizeBufferIncomplete);
    }
    let count128 = read_le(buffer, at, w);
    proof {
        assert(buffer@.subrange(at as int, at + w) =~= bytesk.subrange(0, w_g as int));
    }
    let ghost count: nat = le_val(bytesk.subrange(0, w_g as int));
    if max_size > 0 && w > max_size {
        return Err(TamponError::DeserializeSizeGreaterThanMax);
    }
    let mut consumed: usize = w;
    let mut i: u128 = 0;
    while i < count128
        invariant
            w_g <= consumed,
            at + consumed <= buffer.len(),
            i <= count128,
            count128 as nat == count,
            w == w_g,
            w_g == len_type.width_spec(),
            bytesk == buffer@.skip(at as int),
            bytesk.len() >= w_g,
            count == le_val(bytesk.subrange(0, w_g as int)),
            !(max_g > 0 && w_g > max_g),
            max_g == max_size as nat,
            elems_probe::<T>(bytesk, count, w_g as int, max_g) == elems_probe::<T>(
                bytesk,
                (count - i) as nat,
                consumed as int,
                max_g,
            ),
        decreases count128 - i,
    {
        let budget: usize = if max_size == 0 {
            0
        } else if consumed < max_size {
            max_size - consumed
        } else {
            0
        };
        proof {
            assert(bytesk.skip(consumed as int) =~= buffer@.skip((at + consumed) as int));
        }
        let step = T::deserialize_size(buffer, at + consumed, budget);
        proof {
            assert(budget as nat == (if max_g == 0 || max_g <= consumed {
                0nat
            } else {
                (max_g - consumed) as nat
            }));
            assert((count - i) as nat > 0);
        }
        match step {
            Err(e) => {
                proof {
                    assert(elems_probe::<T>(bytesk, (count - i) as nat, consumed as int, max_g)
                        == Err::<int, TamponError>(e));
                    assert(elems_probe::<T>(bytesk, count, w_g as int, max_g) == Err::<
                        int,
                        TamponError,
                    >(e));
                    assert(seq_probe::<T>(bytesk, w_g, max_g) == Err::<int, TamponError>(e));
                }
                return Err(e);
            },
            Ok(n) => {
                if n > buffer.len() - (at + consumed) {
                    proof {
                        assert(elems_probe::<T>(bytesk, (count - i) as nat, consumed as int, max_g)
                            == Err::<int, TamponError>(
                            TamponError::DeserializeSizeBufferIncomplete,
                        ));
                    }
                    return Err(TamponError::DeserializeSizeBufferIncomplete);
                }
                let newc = consumed + n;
                if max_size > 0 && newc > max_size {
                    proof {
                        assert(elems_probe::<T>(bytesk, (count - i) as nat, consumed as int, max_g)
                            == Err::<int, TamponError>(
                            TamponError::DeserializeSizeGreaterThanMax,
                        ));
                    }
                    return Err(TamponError::DeserializeSizeGreaterThanMax);
                }
                proof {
                    assert(elems_probe::<T>(bytesk, (count - i) as nat, consumed as int, max_g)
                        == elems_probe::<T>(
                        bytesk,
                        (count - i - 1) as nat,
                        consumed + n,
                        max_g,
                    ));
                }
                consumed = newc;
                i = i + 1;
            },
        }
    }
    Ok(consumed)
}

/// Splitting a byte string after a known prefix.
proof fn lemma_skip_split(bytes: Seq<u8>, from: int, mid: Seq<u8>)
    requires
        0 <= from,
        from + mid.len() <= bytes.len(),
        bytes.skip(from).subrange(0, mid.len() as int) == mid,
    ensures
        bytes.skip(from) == mid.add(bytes.skip(from + mid.len())),
{
    assert forall|j: int| 0 <= j < bytes.len() - from implies bytes.skip(from)[j] == mid.add(
        bytes.skip(from + mid.len()),
    )[j] by {
        if j < mid.len() {
            assert(bytes.skip(from).subrange(0, mid.len() as int)[j] == bytes.skip(from)[j]);
        }
    }
    assert(bytes.skip(from) =~= mid.add(bytes.skip(from + mid.len())));
}

/// The facts one induction step over the elements needs: the head encoding
/// stands first, the bytes split after it, and the tail keeps the hypotheses.
proof fn lemma_elems_step<T: Tampon>(elems: Seq<T>, bytes: Seq<u8>, from: int)
    requires
        all_valid(elems),
        elems.len() > 0,
        0 <= from,
        from + elems[0].wire().len() <= bytes.len(),
        bytes.skip(from).subrange(0, elems[0].wire().len() as int) == elems[0].wire(),
    ensures
        elems_wire(elems).len() == elems[0].wire().len() + elems_wire(elems.drop_first()).len(),
        bytes.skip(from) == elems[0].wire().add(bytes.skip(from + elems[0].wire().len())),
        all_valid(elems.drop_first()),
{
    let e0 = elems[0];
    lemma_skip_split(bytes, from, e0.wire());
    let tail = elems.drop_first();
    assert forall|i: int| 0 <= i < tail.len() implies (#[trigger] tail[i]).valid() by {
        assert(elems[i + 1].valid());
    }
}

/// Under the full-prefix hypothesis, the head's bytes match its encoding and
/// the tail's bytes match the tail's encodings.
proof fn lemma_elems_prefix_head<T: Tampon>(elems: Seq<T>, bytes: Seq<u8>, from: int)
    requires
        elems.len() > 0,
        0 <= from,
        from + elems_wire(elems).len() <= bytes.len(),
        bytes.skip(from).subrange(0, elems_wire(elems).len() as int) == elems_wire(elems),
    ensures
        elems_wire(elems).len() == elems[0].wire().len() + elems_wire(elems.drop_first()).len(),
        bytes.skip(from).subrange(0, elems[0].wire().len() as int) == elems[0].wire(),
        bytes.skip(from + elems[0].wire().len()).subrange(
            0,
            elems_wire(elems.drop_first()).len() as int,
        ) == elems_wire(elems.drop_first()),
{
    let e0 = elems[0];
    let l0 = e0.wire().len() as int;
    let tail = elems_wire(elems.drop_first());
    assert(elems_wire(elems) == e0.wire().add(tail));
    assert forall|j: int| 0 <= j < l0 implies bytes.skip(from).subrange(0, l0)[j] == e0.wire()[j]
        by {
        assert(bytes.skip(from).subrange(0, elems_wire(elems).len() as int)[j] == elems_wire(
            elems,
        )[j]);
    }
    assert(bytes.skip(from).subrange(0, l0) =~= e0.wire());
    assert forall|j: int| 0 <= j < tail.len() implies bytes.skip(from + l0).subrange(
        0,
        tail.len() as int,
    )[j] == tail[j] by {
        assert(bytes.skip(from + l0)[j] == bytes.skip(from)[j + l0]);
        assert(bytes.skip(from).subrange(0, elems_wire(elems).len() as int)[j + l0] == elems_wire(
            elems,
        )[j + l0]);
        assert(elems_wire(elems)[j + l0] == tail[j]);
    }
    assert(bytes.skip(from + l0).subrange(0, tail.len() as int) =~= tail);
}

/// A parse of `count` elements never runs past the bytes, and yields one
/// model per element.
pub proof fn lemma_elems_parse_bound<T: Tampon>(bytes: Seq<u8>, count: nat, from: int)
    requires
        0 <= from <= bytes.len(),
    ensures
        match elems_parse::<T>(bytes, count, from) {
            Some((ms, end)) => from <= end <= bytes.len() && ms.len() == count,
            None => true,
        },
    decreases count,
{
    if count > 0 {
        match T::parses(bytes.skip(from)) {
            None => {},
            Some((m, n)) => {
                if 0 <= n <= bytes.len() - from {
                    lemma_elems_parse_bound::<T>(bytes, (count - 1) as nat, from + n);
                }
            },
        }
    }
}

/// A probe of `count` elements never reports past the bytes.
pub proof fn lemma_elems_probe_bound<T: Tampon>(bytes: Seq<u8>, count: nat, consumed: int, max: nat)
    requires
        0 <= consumed <= bytes.len(),
    ensures
        match elems_probe::<T>(bytes, count, consumed, max) {
            Ok(n) => consumed <= n <= bytes.len(),
            Err(_) => true,
        },
    decreases count,
{
    if count > 0 {
        let budget: nat = if max == 0 || max <= consumed {
            0
        } else {
            (max - consumed) as nat
        };
        match T::probes(bytes.skip(consumed), budget) {
            Err(_) => {},
            Ok(n) => {
                if 0 <= n <= bytes.len() - consumed && !(max > 0 && consumed + n > max) {
                    lemma_elems_probe_bound::<T>(bytes, (count - 1) as nat, consumed + n, max);
                }
            },
        }
    }
}

/// Round trip across the elements: parsing as many elements as were encoded
/// yields their models and ends right after their encodings.
pub proof fn lemma_elems_parse_wire<T: Tampon>(elems: Seq<T>, bytes: Seq<u8>, from: int)
    requires
        lawful::<T>(),
        all_valid(elems),
        0 <= from,
        from + elems_wire(elems).len() <= bytes.len(),
        bytes.skip(from).subrange(0, elems_wire(elems).len() as int) == elems_wire(elems),
    ensures
        elems_parse::<T>(bytes, elems.len(), from) == Some(
            (elems_model(elems), from + elems_wire(elems).len()),
        ),
    decreases elems.len(),
{
    if elems.len() == 0 {
        assert(elems_model(elems) =~= Seq::<T::V>::empty());
    } else {
        let e0 = elems[0];
        let l0 = e0.wire().len() as int;
        lemma_elems_prefix_head(elems, bytes, from);
        lemma_elems_step(elems, bytes, from);
        assert(T::parses(e0.wire().add(bytes.skip(from + l0))) == Some(
            (e0.model(), e0.wire().len() as int),
        ));
        lemma_elems_parse_wire::<T>(elems.drop_first(), bytes, from + l0);
        assert(seq![e0.model()].add(elems_model(elems.drop_first())) =~= elems_model(elems));
    }
}

/// Probe soundness across the elements: under no ceiling, or a ceiling that
/// admits all of them, the probe ends right after their encodings.
pub proof fn lemma_elems_probe_ok<T: Tampon>(elems: Seq<T>, bytes: Seq<u8>, from: int, max: nat)
    requires
        lawful::<T>(),
        all_valid(elems),
        0 <= from,
        from + elems_wire(elems).len() <= bytes.len(),
        bytes.skip(from).subrange(0, elems_wire(elems).len() as int) == elems_wire(elems),
        max == 0 || from + elems_wire(elems).len() <= max,
    ensures
        elems_probe::<T>(bytes, elems.len(), from, max) == Ok::<int, TamponError>(
            from + elems_wire(elems).len(),
        ),
    decreases elems.len(),
{
    if elems.len() > 0 {
        let e0 = elems[0];
        let l0 = e0.wire().len() as int;
        lemma_elems_prefix_head(elems, bytes, from);
        lemma_elems_step(elems, bytes, from);
        let budget: nat = if max == 0 || max <= from {
            0
        } else {
            (max - from) as nat
        };
        assert(T::probes(e0.wire().add(bytes.skip(from + l0)), budget) == Ok::<int, TamponError>(
            e0.wire().len() as int,
        ));
        lemma_elems_probe_ok::<T>(elems.drop_first(), bytes, from + l0, max);
    }
}

/// Probe completeness across the elements: when the bytes end strictly
/// inside the encodings, the unbounded probe reports an incomplete buffer.
pub proof fn lemma_elems_probe_truncated<T: Tampon>(elems: Seq<T>, bytes: Seq<u8>, from: int)
    requires
        lawful::<T>(),
        all_valid(elems),
        0 <= from <= bytes.len(),
        bytes.len() - from < elems_wire(elems).len(),
        bytes.skip(from) == elems_wire(elems).subrange(0, bytes.len() - from),
    ensures
        elems_probe::<T>(bytes, elems.len(), from, 0) == Err::<int, TamponError>(
            TamponError::DeserializeSizeBufferIncomplete,
        ),
    decreases elems.len(),
{
    let k = bytes.len() - from;
    let e0 = elems[0];
    let l0 = e0.wire().len() as int;
    let tail = elems_wire(elems.drop_first());
    assert(elems_wire(elems) == e0.wire().add(tail));
    if l0 <= k {
        assert forall|j: int| 0 <= j < l0 implies bytes.skip(from).subrange(0, l0)[j]
            == e0.wire()[j] by {
            assert(bytes.skip(from)[j] == elems_wire(elems).subrange(0, k)[j]);
        }
        assert(bytes.skip(from).subrange(0, l0) =~= e0.wire());
        lemma_elems_step(elems, bytes, from);
        assert(T::probes(e0.wire().add(bytes.skip(from + l0)), 0) == Ok::<int, TamponError>(
            e0.wire().len() as int,
        ));
        assert forall|j: int| 0 <= j < k - l0 implies #[trigger] bytes.skip(from + l0)[j]
            == tail.subrange(0, k - l0)[j] by {
            assert(bytes.skip(from + l0)[j] == bytes.skip(from)[j + l0]);
            assert(bytes.skip(from)[j + l0] == elems_wire(elems).subrange(0, k)[j + l0]);
            assert(elems_wire(elems)[j + l0] == tail[j]);
        }
        assert(bytes.skip(from + l0) =~= tail.subrange(0, k - l0));
        lemma_elems_probe_truncated::<T>(elems.drop_first(), bytes, from + l0);
    } else {
        assert forall|j: int| 0 <= j < k implies bytes.skip(from)[j] == e0.wire().subrange(0, k)[j]
            by {
            assert(bytes.skip(from)[j] == elems_wire(elems).subrange(0, k)[j]);
        }
        assert(bytes.skip(from) =~= e0.wire().subrange(0, k));
        assert(T::probes(e0.wire().subrange(0, k), 0) == Err::<int, TamponError>(
            TamponError::DeserializeSizeBufferIncomplete,
        ));
    }
}

/// Ceiling enforcement across the elements: a positive ceiling that falls
/// strictly inside the encodings makes the probe fail with the ceiling error.
pub proof fn lemma_elems_probe_ceiling<T: Tampon>(elems: Seq<T>, bytes: Seq<u8>, from: int, max: nat)
    requires
        lawful::<T>(),
        all_valid(elems),
        0 <= from,
        from + elems_wire(elems).len() <= bytes.len(),
        bytes.skip(from).subrange(0, elems_wire(elems).len() as int) == elems_wire(elems),
        0 < max,
        from <= max,
        max < from + elems_wire(elems).len(),
    ensures
        elems_probe::<T>(bytes, elems.len(), from, max) == Err::<int, TamponError>(
            TamponError::DeserializeSizeGreaterThanMax,
        ),
    decreases elems.len(),
{
    let e0 = elems[0];
    let l0 = e0.wire().len() as int;
    lemma_elems_prefix_head(elems, bytes, from);
    lemma_elems_step(elems, bytes, from);
    let budget: nat = if max <= from {
        0
    } else {
        (max - from) as nat
    };
    if from + l0 > max {
        if budget == 0 {
            assert(T::probes(e0.wire().add(bytes.skip(from + l0)), 0) == Ok::<int, TamponError>(
                e0.wire().len() as int,
            ));
        } else {
            assert(T::probes(e0.wire().add(bytes.skip(from + l0)), budget) == Err::<
                int,
                TamponError,
            >(TamponError::DeserializeSizeGreaterThanMax));
        }
    } else {
        assert(T::probes(e0.wire().add(bytes.skip(from + l0)), budget) == Ok::<int, TamponError>(
            e0.wire().len() as int,
        ));
        lemma_elems_probe_ceiling::<T>(elems.drop_first(), bytes, from + l0, max);
    }
}

impl<T: Tampon> Tampon for Vec<T> {
    type V = Seq<T::V>;

    open spec fn model(&self) -> Seq<T::V> {
        elems_model(self@)
    }

    open spec fn valid(&self) -> bool {
        self@.len() < pow256(4) && all_valid(self@)
    }

    open spec fn wire(&self) -> Seq<u8> {
        seq_wire(self@, 4)
    }

    open spec fn parses(bytes: Seq<u8>) -> Option<(Seq<T::V>, int)> {
        seq_parse::<T>(bytes, 4)
    }

    open spec fn probes(bytes: Seq<u8>, max: nat) -> Result<int, TamponError> {
        seq_probe::<T>(bytes, 4, max)
    }

    fn bytes_size(&self) -> (n: usize) {
        bytes_size_seq(self, LenType::U32)
    }

    fn serialize(&self, buffer: &mut Vec<u8>, at: usize) -> (n: usize) {
        serialize_seq(self, buffer, at, LenType::U32)
    }

    fn deserialize(buffer: &Vec<u8>, at: usize) -> (r: (Vec<T>, usize)) {
        let r = deserialize_seq::<T>(buffer, at, LenType::U32);
        proof {
            let bytesk = buffer@.skip(at as int);
            let count = le_val(bytesk.subrange(0, 4));
            crate::wire::lemma_le_val_bound(bytesk.subrange(0, 4));
            lemma_elems_parse_bound::<T>(bytesk, count, 4);
            assert(r.0@.len() == elems_model(r.0@).len());
        }
        r
    }

    fn deserialize_size(buffer: &Vec<u8>, at: usize, max_size: usize) -> (r: Result<
        usize,
        TamponError,
    >) {
        deserialize_size_seq::<T>(buffer, at, max_size, LenType::U32)
    }

}

/// A sequence of lawful elements obeys the codec laws.
pub proof fn lemma_seq_lawful<T: Tampon>()
    requires
        lawful::<T>(),
    ensures
        lawful::<Vec<T>>(),
{
    assert forall|v: Vec<T>, rest: Seq<u8>| v.valid() implies #[trigger] <Vec<T> as Tampon>::parses(
        v.wire().add(rest),
    ) == Some((v.model(), v.wire().len() as int)) by {
        let w = v.wire().add(rest);
        let ew = elems_wire(v@);
        lemma_pow256_values();
        assert(w.subrange(0, 4) =~= le_bytes(v@.len(), 4));
        lemma_le_val_le_bytes(v@.len(), 4);
        assert forall|j: int| 0 <= j < ew.len() implies #[trigger] w.skip(4).subrange(
            0,
            ew.len() as int,
        )[j] == ew[j] by {
            assert(w[4 + j] == v.wire()[4 + j]);
        }
        assert(w.skip(4).subrange(0, ew.len() as int) =~= ew);
        lemma_elems_parse_wire(v@, w, 4);
    }
    assert forall|v: Vec<T>, rest: Seq<u8>, max: nat|
        v.valid() && (max == 0 || v.wire().len() <= max) implies #[trigger] <Vec<T> as Tampon>::probes(
        v.wire().add(rest),
        max,
    ) == Ok::<int, TamponError>(v.wire().len() as int) by {
        let w = v.wire().add(rest);
        let ew = elems_wire(v@);
        lemma_pow256_values();
        assert(w.subrange(0, 4) =~= le_bytes(v@.len(), 4));
        lemma_le_val_le_bytes(v@.len(), 4);
        assert forall|j: int| 0 <= j < ew.len() implies #[trigger] w.skip(4).subrange(
            0,
            ew.len() as int,
        )[j] == ew[j] by {
            assert(w[4 + j] == v.wire()[4 + j]);
        }
        assert(w.skip(4).subrange(0, ew.len() as int) =~= ew);
        lemma_elems_probe_ok(v@, w, 4, max);
    }
    assert forall|v: Vec<T>, k: int| v.valid() && 0 <= k < v.wire().len() implies #[trigger] <Vec<T> as Tampon>::probes(
        v.wire().subrange(0, k),
        0,
    ) == Err::<int, TamponError>(
        TamponError::DeserializeSizeBufferIncomplete,
    ) by {
        let w = v.wire().subrange(0, k);
        let ew = elems_wire(v@);
        if k >= 4 {
            lemma_pow256_values();
            assert(w.subrange(0, 4) =~= le_bytes(v@.len(), 4));
            lemma_le_val_le_bytes(v@.len(), 4);
            assert forall|j: int| 0 <= j < k - 4 implies #[trigger] w.skip(4)[j] == ew.subrange(
                0,
                k - 4,
            )[j] by {
                assert(w[4 + j] == v.wire()[4 + j]);
            }
            assert(w.skip(4) =~= ew.subrange(0, k - 4));
            lemma_elems_probe_truncated(v@, w, 4);
        }
    }
    assert forall|v: Vec<T>, rest: Seq<u8>, max: nat|
        v.valid() && 0 < max < v.wire().len() implies #[trigger] <Vec<T> as Tampon>::probes(
        v.wire().add(rest),
        max,
    ) == Err::<int, TamponError>(TamponError::DeserializeSizeGreaterThanMax) by {
        let w = v.wire().add(rest);
        let ew = elems_wire(v@);
        lemma_pow256_values();
        assert(w.subrange(0, 4) =~= le_bytes(v@.len(), 4));
        lemma_le_val_le_bytes(v@.len(), 4);
        if max >= 4 {
            assert forall|j: int| 0 <= j < ew.len() implies #[trigger] w.skip(4).subrange(
                0,
                ew.len() as int,
            )[j] == ew[j] by {
                assert(w[4 + j] == v.wire()[4 + j]);
            }
            assert(w.skip(4).subrange(0, ew.len() as int) =~= ew);
            lemma_elems_probe_ceiling(v@, w, 4, max);
        }
    }
}

} // verus!
