//! Codec implementation for text: a 4-byte little-endian length prefix
//! followed by the UTF-8 bytes of the string. The probe only checks the
//! structure (prefix present, payload present); decoding also validates the
//! payload as UTF-8, and a buffer that fails that validation does not decode.

use vstd::prelude::*;
use vstd::string::StringSliceAdditionalSpecFns;
use vstd::utf8::{decode_utf8, encode_utf8, encode_utf8_decode_utf8, encode_utf8_valid_utf8,
    valid_utf8};
use crate::error::TamponError;
use crate::tampon::{lawful, Tampon};
use crate::wire::{le_bytes, le_val, lemma_le_val_le_bytes, lemma_pow256_values, pow256, read_le,
    spliced, write_le};

verus! {

/// Relies on String::from_utf8: the bytes of the vector are valid UTF-8 by
/// the caller's obligation, and std documents the result as exactly the
/// string those bytes spell.
#[verifier::external_body]
fn string_from_utf8(bytes: Vec<u8>) -> (r: String)
    requires
        valid_utf8(bytes@),
    ensures
        r@ == decode_utf8(bytes@),
{
    String::from_utf8(bytes).expect("text bytes are valid UTF-8")
}

impl Tampon for String {
    type V = Seq<char>;

    open spec fn model(&self) -> Seq<char> {
        self@
    }

    open spec fn valid(&self) -> bool {
        encode_utf8(self@).len() < pow256(4)
    }

    open spec fn wire(&self) -> Seq<u8> {
        le_bytes(encode_utf8(self@).len(), 4).add(encode_utf8(self@))
    }

    open spec fn parses(bytes: Seq<u8>) -> Option<(Seq<char>, int)> {
        if bytes.len() < 4 {
            None
        } else {
            let l = le_val(bytes.subrange(0, 4)) as int;
            if bytes.len() < 4 + l {
                None
            } else {
                let payload = bytes.subrange(4, 4 + l);
                if valid_utf8(payload) {
                    Some((decode_utf8(payload), 4 + l))
                } else {
                    None
                }
            }
        }
    }

    open spec fn probes(bytes: Seq<u8>, max: nat) -> Result<int, TamponError> {
        if bytes.len() < 4 {
            Err(TamponError::DeserializeSizeBufferIncomplete)
        } else {
            let l = le_val(bytes.subrange(0, 4)) as int;
            if bytes.len() < 4 + l {
                Err(TamponError::DeserializeSizeBufferIncomplete)
            } else if max > 0 && 4 + l > max {
                Err(TamponError::DeserializeSizeGreaterThanMax)
            } else {
                Ok(4 + l)
            }
        }
    }

    fn bytes_size(&self) -> (n: usize) {
        4 + self.as_str().len()
    }

    fn serialize(&self, buffer: &mut Vec<u8>, at: usize) -> (n: usize) {
        let bs: &str = self.as_str();
        let bl: usize = bs.len();
        proof {
            lemma_pow256_values();
        }
        write_le(buffer, at, bl as u128, 4);
        let bytes: &[u8] = bs.as_bytes();
        let ghost mid = buffer@;
        proof {
            assert forall|j: int| 0 <= j < mid.len() implies mid[j] == (if at <= j < at + 4 {
                le_bytes(bl as nat, 4)[j - at]
            } else {
                old(buffer)@[j]
            }) by {
                assert(mid == spliced(old(buffer)@, at as int, le_bytes(bl as nat, 4)));
            }
        }
        let mut i: usize = 0;
        while i < bl
            invariant
                i <= bl,
                bl == encode_utf8(self@).len(),
                bytes@ == encode_utf8(self@),
                at + 4 + bl <= buffer.len(),
                buffer@.len() == mid.len(),
                forall|j: int| 0 <= j < i ==> buffer@[at + 4 + j] == encode_utf8(self@)[j],
                forall|j: int|
                    0 <= j < mid.len() && !(at + 4 <= j < at + 4 + i) ==> buffer@[j] == mid[j],
            decreases bl - i,
        {
            let b: u8 = bytes[i];
            buffer.set(at + 4 + i, b);
            i = i + 1;
        }
        proof {
            assert forall|j: int| 0 <= j < buffer@.len() implies buffer@[j] == spliced(
                old(buffer)@,
                at as int,
                self.wire(),
            )[j] by {
                if at <= j < at + 4 {
                    assert(buffer@[j] == mid[j]);
                    assert(self.wire()[j - at] == le_bytes(bl as nat, 4)[j - at]);
                } else if at + 4 <= j < at + 4 + bl {
                    assert(self.wire()[j - at] == encode_utf8(self@)[j - at - 4]);
                } else {
                    assert(buffer@[j] == mid[j]);
                }
            }
            assert(buffer@ =~= spliced(old(buffer)@, at as int, self.wire()));
        }
        4 + bl
    }

    fn deserialize(buffer: &Vec<u8>, at: usize) -> (r: (String, usize)) {
        let l128 = read_le(buffer, at, 4);
        proof {
            lemma_pow256_values();
            assert(buffer@.subrange(at as int, at + 4) =~= buffer@.skip(at as int).subrange(0, 4));
        }
        let l: usize = l128 as usize;
        proof {
            assert(at + 4 + l <= buffer.len());
        }
        let mut payload: Vec<u8> = Vec::new();
        let mut j: usize = 0;
        while j < l
            invariant
                j <= l,
                at + 4 + l <= buffer.len(),
                payload@ == buffer@.subrange(at + 4, at + 4 + j),
            decreases l - j,
        {
            let b: u8 = buffer[at + 4 + j];
            payload.push(b);
            proof {
                assert(payload@ =~= buffer@.subrange(at + 4, at + 4 + (j + 1)));
            }
            j = j + 1;
        }
        proof {
            assert(payload@ =~= buffer@.skip(at as int).subrange(4, 4 + l));
        }
        let ghost pl = payload@;
        let s = string_from_utf8(payload);
        proof {
            vstd::utf8::decode_utf8_encode_utf8(pl);
            lemma_pow256_values();
        }
        (s, 4 + l)
    }

    fn deserialize_size(buffer: &Vec<u8>, at: usize, max_size: usize) -> (r: Result<
        usize,
        TamponError,
    >) {
        if buffer.len() - at < 4 {
            return Err(TamponError::DeserializeSizeBufferIncomplete);
        }
        let l128 = read_le(buffer, at, 4);
        proof {
            lemma_pow256_values();
            assert(buffer@.subrange(at as int, at + 4) =~= buffer@.skip(at as int).subrange(0, 4));
        }
        let rem: usize = buffer.len() - at - 4;
        if (rem as u128) < l128 {
            return Err(TamponError::DeserializeSizeBufferIncomplete);
        }
        let consumed: usize = 4 + (l128 as usize);
        if max_size > 0 && consumed > max_size {
            Err(TamponError::DeserializeSizeGreaterThanMax)
        } else {
            Ok(consumed)
        }
    }

}

/// `String` obeys the codec laws.
pub proof fn lemma_string_lawful()
    ensures
        lawful::<String>(),
{
    assert forall|v: String, rest: Seq<u8>| v.valid() implies #[trigger] <String as Tampon>::parses(
        v.wire().add(rest),
    ) == Some((v.model(), v.wire().len() as int)) by {
        let w = v.wire().add(rest);
        let payload = encode_utf8(v@);
        lemma_pow256_values();
        assert(w.subrange(0, 4) =~= le_bytes(payload.len(), 4));
        lemma_le_val_le_bytes(payload.len(), 4);
        assert(w.subrange(4, 4 + payload.len() as int) =~= payload);
        encode_utf8_valid_utf8(v@);
        encode_utf8_decode_utf8(v@);
    }
    assert forall|v: String, rest: Seq<u8>, max: nat|
        v.valid() && (max == 0 || v.wire().len() <= max) implies #[trigger] <String as Tampon>::probes(
        v.wire().add(rest),
        max,
    ) == Ok::<int, TamponError>(v.wire().len() as int) by {
        let w = v.wire().add(rest);
        let payload = encode_utf8(v@);
        lemma_pow256_values();
        assert(w.subrange(0, 4) =~= le_bytes(payload.len(), 4));
        lemma_le_val_le_bytes(payload.len(), 4);
    }
    assert forall|v: String, k: int| v.valid() && 0 <= k < v.wire().len() implies #[trigger] <String as Tampon>::probes(
        v.wire().subrange(0, k),
        0,
    ) == Err::<int, TamponError>(
        TamponError::DeserializeSizeBufferIncomplete,
    ) by {
        let w = v.wire().subrange(0, k);
        let payload = encode_utf8(v@);
        if k >= 4 {
            lemma_pow256_values();
            assert(w.subrange(0, 4) =~= le_bytes(payload.len(), 4));
            lemma_le_val_le_bytes(payload.len(), 4);
        }
    }
    assert forall|v: String, rest: Seq<u8>, max: nat|
        v.valid() && 0 < max < v.wire().len() implies #[trigger] <String as Tampon>::probes(
        v.wire().add(rest),
        max,
    ) == Err::<int, TamponError>(TamponError::DeserializeSizeGreaterThanMax) by {
        let w = v.wire().add(rest);
        let payload = encode_utf8(v@);
        lemma_pow256_values();
        assert(w.subrange(0, 4) =~= le_bytes(payload.len(), 4));
        lemma_le_val_le_bytes(payload.len(), 4);
    }
}

} // verus!
