//! The smallest composite record: a pair of codec participants. Its two
//! fields thread the cursor in declaration order, which is the recursion
//! base every composite follows, and the probe hands the second field the
//! budget that remains after the first. A pair of lawful participants is
//! itself lawful, so the codec laws extend to any composition of items.

use vstd::prelude::*;
use crate::error::TamponError;
use crate::tampon::{lawful, Tampon};
use crate::wire::{lemma_spliced_index, spliced};

verus! {

impl<A: Tampon, B: Tampon> Tampon for (A, B) {
    type V = (A::V, B::V);

    open spec fn model(&self) -> (A::V, B::V) {
        (self.0.model(), self.1.model())
    }

    open spec fn valid(&self) -> bool {
        self.0.valid() && self.1.valid()
    }

    open spec fn wire(&self) -> Seq<u8> {
        self.0.wire().add(self.1.wire())
    }

    open spec fn parses(bytes: Seq<u8>) -> Option<((A::V, B::V), int)> {
        match A::parses(bytes) {
            None => None,
            Some((ma, na)) => if 0 <= na <= bytes.len() {
                match B::parses(bytes.skip(na)) {
                    None => None,
                    Some((mb, nb)) => if 0 <= nb <= bytes.len() - na {
                        Some(((ma, mb), na + nb))
                    } else {
                        None
                    },
                }
            } else {
                None
            },
        }
    }

    open spec fn probes(bytes: Seq<u8>, max: nat) -> Result<int, TamponError> {
        match A::probes(bytes, max) {
            Err(e) => Err(e),
            Ok(na) => if !(0 <= na <= bytes.len()) {
                // no probe of this crate reports past its bytes
                Err(TamponError::DeserializeSizeBufferIncomplete)
            } else {
                let budget: nat = if max == 0 || max <= na {
                    0
                } else {
                    (max - na) as nat
                };
                match B::probes(bytes.skip(na), budget) {
                    Err(e) => Err(e),
                    Ok(nb) => if !(0 <= nb <= bytes.len() - na) {
                        // no probe of this crate reports past its bytes
                        Err(TamponError::DeserializeSizeBufferIncomplete)
                    } else if max > 0 && na + nb > max {
                        Err(TamponError::DeserializeSizeGreaterThanMax)
                    } else {
                        Ok(na + nb)
                    },
                }
            },
        }
    }

    fn bytes_size(&self) -> (n: usize) {
        self.0.bytes_size() + self.1.bytes_size()
    }

    fn serialize(&self, buffer: &mut Vec<u8>, at: usize) -> (n: usize) {
        let na = self.0.serialize(buffer, at);
        let ghost mid = buffer@;
        let nb = self.1.serialize(buffer, at + na);
        proof {
            lemma_spliced_index(old(buffer)@, at as int, self.0.wire());
            lemma_spliced_index(mid, at + na, self.1.wire());
            lemma_spliced_index(old(buffer)@, at as int, self.wire());
            assert forall|j: int| 0 <= j < buffer@.len() implies buffer@[j] == spliced(
                old(buffer)@,
                at as int,
                self.wire(),
            )[j] by {
                if at <= j < at + na {
                    assert(buffer@[j] == mid[j]);
                    assert(self.wire()[j - at] == self.0.wire()[j - at]);
                } else if at + na <= j < at + na + nb {
                    assert(self.wire()[j - at] == self.1.wire()[j - at - na]);
                } else {
                    assert(buffer@[j] == mid[j]);
                }
            }
            assert(buffer@ =~= spliced(old(buffer)@, at as int, self.wire()));
        }
        na + nb
    }

    fn deserialize(buffer: &Vec<u8>, at: usize) -> (r: ((A, B), usize)) {
        let (a, na) = A::deserialize(buffer, at);
        proof {
            assert(buffer@.skip(at as int).skip(na as int) =~= buffer@.skip(at + na));
        }
        let (b, nb) = B::deserialize(buffer, at + na);
        ((a, b), na + nb)
    }

    fn deserialize_size(buffer: &Vec<u8>, at: usize, max_size: usize) -> (r: Result<
        usize,
        TamponError,
    >) {
        let na = match A::deserialize_size(buffer, at, max_size) {
            Err(e) => {
                return Err(e);
            },
            Ok(n) => n,
        };
        if na > buffer.len() - at {
            return Err(TamponError::DeserializeSizeBufferIncomplete);
        }
        let budget: usize = if max_size == 0 {
            0
        } else if na < max_size {
            max_size - na
        } else {
            0
        };
        proof {
            assert(buffer@.skip(at as int).skip(na as int) =~= buffer@.skip(at + na));
        }
        let nb = match B::deserialize_size(buffer, at + na, budget) {
            Err(e) => {
                return Err(e);
            },
            Ok(n) => n,
        };
        if nb > buffer.len() - (at + na) {
            return Err(TamponError::DeserializeSizeBufferIncomplete);
        }
        if max_size > 0 && na + nb > max_size {
            return Err(TamponError::DeserializeSizeGreaterThanMax);
        }
        Ok(na + nb)
    }
}

/// A pair of lawful participants obeys the codec laws.
pub proof fn lemma_pair_lawful<A: Tampon, B: Tampon>()
    requires
        lawful::<A>(),
        lawful::<B>(),
    ensures
        lawful::<(A, B)>(),
{
    assert forall|v: (A, B), rest: Seq<u8>| v.valid() implies #[trigger] <(A, B) as Tampon>::parses(
        v.wire().add(rest),
    ) == Some((v.model(), v.wire().len() as int)) by {
        let wa = v.0.wire();
        let wb = v.1.wire();
        let w = v.wire().add(rest);
        assert(w =~= wa.add(wb.add(rest)));
        assert(A::parses(wa.add(wb.add(rest))) == Some((v.0.model(), wa.len() as int)));
        assert(w.skip(wa.len() as int) =~= wb.add(rest));
        assert(B::parses(wb.add(rest)) == Some((v.1.model(), wb.len() as int)));
    }
    assert forall|v: (A, B), rest: Seq<u8>, max: nat|
        v.valid() && (max == 0 || v.wire().len() <= max) implies #[trigger] <(A, B) as Tampon>::probes(
        v.wire().add(rest),
        max,
    ) == Ok::<int, TamponError>(v.wire().len() as int) by {
        let wa = v.0.wire();
        let wb = v.1.wire();
        let w = v.wire().add(rest);
        assert(w =~= wa.add(wb.add(rest)));
        assert(A::probes(wa.add(wb.add(rest)), max) == Ok::<int, TamponError>(wa.len() as int));
        assert(w.skip(wa.len() as int) =~= wb.add(rest));
        let budget: nat = if max == 0 || max <= wa.len() {
            0
        } else {
            (max - wa.len()) as nat
        };
        assert(B::probes(wb.add(rest), budget) == Ok::<int, TamponError>(wb.len() as int));
    }
    assert forall|v: (A, B), k: int| v.valid() && 0 <= k < v.wire().len() implies #[trigger] <(
        A,
        B,
    ) as Tampon>::probes(v.wire().subrange(0, k), 0) == Err::<int, TamponError>(
        TamponError::DeserializeSizeBufferIncomplete,
    ) by {
        let wa = v.0.wire();
        let wb = v.1.wire();
        let w = v.wire().subrange(0, k);
        if k < wa.len() {
            assert(w =~= wa.subrange(0, k));
            assert(A::probes(wa.subrange(0, k), 0) == Err::<int, TamponError>(
                TamponError::DeserializeSizeBufferIncomplete,
            ));
        } else {
            assert(w =~= wa.add(wb.subrange(0, k - wa.len())));
            assert(A::probes(wa.add(wb.subrange(0, k - wa.len())), 0) == Ok::<int, TamponError>(
                wa.len() as int,
            ));
            assert(w.skip(wa.len() as int) =~= wb.subrange(0, k - wa.len()));
            assert(B::probes(wb.subrange(0, k - wa.len()), 0) == Err::<int, TamponError>(
                TamponError::DeserializeSizeBufferIncomplete,
            ));
        }
    }
    assert forall|v: (A, B), rest: Seq<u8>, max: nat|
        v.valid() && 0 < max < v.wire().len() implies #[trigger] <(A, B) as Tampon>::probes(
        v.wire().add(rest),
        max,
    ) == Err::<int, TamponError>(TamponError::DeserializeSizeGreaterThanMax) by {
        let wa = v.0.wire();
        let wb = v.1.wire();
        let w = v.wire().add(rest);
        assert(w =~= wa.add(wb.add(rest)));
        if max < wa.len() {
            assert(A::probes(wa.add(wb.add(rest)), max) == Err::<int, TamponError>(
                TamponError::DeserializeSizeGreaterThanMax,
            ));
        } else {
            assert(A::probes(wa.add(wb.add(rest)), max) == Ok::<int, TamponError>(
                wa.len() as int,
            ));
            assert(w.skip(wa.len() as int) =~= wb.add(rest));
            let budget: nat = if max <= wa.len() {
                0
            } else {
                (max - wa.len()) as nat
            };
            if budget == 0 {
                assert(B::probes(wb.add(rest), 0) == Ok::<int, TamponError>(wb.len() as int));
            } else {
                assert(B::probes(wb.add(rest), budget) == Err::<int, TamponError>(
                    TamponError::DeserializeSizeGreaterThanMax,
                ));
            }
        }
    }
}

} // verus!
