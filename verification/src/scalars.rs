//! Codec implementations for the fixed-width scalar types: `bool` and the
//! unsigned and signed integers. Multi-byte values travel little-endian;
//! a boolean encodes to one byte, `1` for true and `0` for false, and any
//! non-zero byte decodes to true.

use vstd::prelude::*;
use crate::error::TamponError;
use crate::tampon::{lawful, Tampon};
use crate::wire::{
    i_of_u, le_bytes, le_val, lemma_i_of_u_of_i, lemma_le_val_le_bytes, lemma_pow256_values,
    pow256, read_le, u_of_i, write_le,
};

verus! {

/// Probe outcome for a field of fixed width `w`: incomplete when the bytes run
/// short, over the ceiling when `w` alone exceeds a positive `max`.
pub open spec fn fixed_probe(bytes: Seq<u8>, w: nat, max: nat) -> Result<int, TamponError> {
    if bytes.len() < w {
        Err(TamponError::DeserializeSizeBufferIncomplete)
    } else if max > 0 && w > max {
        Err(TamponError::DeserializeSizeGreaterThanMax)
    } else {
        Ok(w as int)
    }
}

/// Shared probe step for fixed-width fields.
pub(crate) fn probe_fixed(buffer: &Vec<u8>, at: usize, width: usize, max_size: usize) -> (r:
    Result<usize, TamponError>)
    requires
        at <= buffer.len(),
    ensures
        fixed_probe(buffer@.skip(at as int), width as nat, max_size as nat) == (match r {
            Ok(n) => Ok::<int, TamponError>(n as int),
            Err(e) => Err::<int, TamponError>(e),
        }),
{
    if buffer.len() - at < width {
        Err(TamponError::DeserializeSizeBufferIncomplete)
    } else if max_size > 0 && width > max_size {
        Err(TamponError::DeserializeSizeGreaterThanMax)
    } else {
        Ok(width)
    }
}

impl Tampon for bool {
    type V = bool;

    open spec fn model(&self) -> bool {
        *self
    }
    open spec fn valid(&self) -> bool {
        true
    }

    open spec fn wire(&self) -> Seq<u8> {
        seq![if *self { 1u8 } else { 0u8 }]
    }

    open spec fn parses(bytes: Seq<u8>) -> Option<(bool, int)> {
        if bytes.len() >= 1 {
            Some((bytes[0] != 0, 1))
        } else {
            None
        }
    }

    open spec fn probes(bytes: Seq<u8>, max: nat) -> Result<int, TamponError> {
        fixed_probe(bytes, 1, max)
    }

    fn bytes_size(&self) -> (n: usize) {
        1
    }

    fn serialize(&self, buffer: &mut Vec<u8>, at: usize) -> (n: usize) {
        let b: u8 = if *self {
            1
        } else {
            0
        };
        buffer.set(at, b);
        proof {
            assert(buffer@ =~= crate::wire::spliced(old(buffer)@, at as int, self.wire()));
        }
        1
    }

    fn deserialize(buffer: &Vec<u8>, at: usize) -> (r: (bool, usize)) {
        let b: u8 = buffer[at];
        proof {
            assert(buffer@.skip(at as int)[0] == buffer@[at as int]);
        }
        (b != 0, 1)
    }

    fn deserialize_size(buffer: &Vec<u8>, at: usize, max_size: usize) -> (r: Result<
        usize,
        TamponError,
    >) {
        probe_fixed(buffer, at, 1, max_size)
    }

}

impl Tampon for u8 {
    type V = u8;

    open spec fn model(&self) -> u8 {
        *self
    }
    open spec fn valid(&self) -> bool {
        true
    }

    open spec fn wire(&self) -> Seq<u8> {
        le_bytes(*self as nat, 1)
    }

    open spec fn parses(bytes: Seq<u8>) -> Option<(u8, int)> {
        if bytes.len() >= 1 {
            Some((le_val(bytes.subrange(0, 1)) as u8, 1))
        } else {
            None
        }
    }

    open spec fn probes(bytes: Seq<u8>, max: nat) -> Result<int, TamponError> {
        fixed_probe(bytes, 1, max)
    }

    fn bytes_size(&self) -> (n: usize) {
        1
    }

    fn serialize(&self, buffer: &mut Vec<u8>, at: usize) -> (n: usize) {
        proof {
            lemma_pow256_values();
        }
        write_le(buffer, at, *self as u128, 1)
    }

    fn deserialize(buffer: &Vec<u8>, at: usize) -> (r: (u8, usize)) {
        let x = read_le(buffer, at, 1);
        proof {
            lemma_pow256_values();
            assert(buffer@.subrange(at as int, at + 1) =~= buffer@.skip(at as int).subrange(0, 1));
        }
        ((x as u8), 1)
    }

    fn deserialize_size(buffer: &Vec<u8>, at: usize, max_size: usize) -> (r: Result<
        usize,
        TamponError,
    >) {
        probe_fixed(buffer, at, 1, max_size)
    }

}

impl Tampon for u16 {
    type V = u16;

    open spec fn model(&self) -> u16 {
        *self
    }
    open spec fn valid(&self) -> bool {
        true
    }

    open spec fn wire(&self) -> Seq<u8> {
        le_bytes(*self as nat, 2)
    }

    open spec fn parses(bytes: Seq<u8>) -> Option<(u16, int)> {
        if bytes.len() >= 2 {
            Some((le_val(bytes.subrange(0, 2)) as u16, 2))
        } else {
            None
        }
    }

    open spec fn probes(bytes: Seq<u8>, max: nat) -> Result<int, TamponError> {
        fixed_probe(bytes, 2, max)
    }

    fn bytes_size(&self) -> (n: usize) {
        2
    }

    fn serialize(&self, buffer: &mut Vec<u8>, at: usize) -> (n: usize) {
        proof {
            lemma_pow256_values();
        }
        write_le(buffer, at, *self as u128, 2)
    }

    fn deserialize(buffer: &Vec<u8>, at: usize) -> (r: (u16, usize)) {
        let x = read_le(buffer, at, 2);
        proof {
            lemma_pow256_values();
            assert(buffer@.subrange(at as int, at + 2) =~= buffer@.skip(at as int).subrange(0, 2));
        }
        ((x as u16), 2)
    }

    fn deserialize_size(buffer: &Vec<u8>, at: usize, max_size: usize) -> (r: Result<
        usize,
        TamponError,
    >) {
        probe_fixed(buffer, at, 2, max_size)
    }

}

impl Tampon for u32 {
    type V = u32;

    open spec fn model(&self) -> u32 {
        *self
    }
    open spec fn valid(&self) -> bool {
        true
    }

    open spec fn wire(&self) -> Seq<u8> {
        le_bytes(*self as nat, 4)
    }

    open spec fn parses(bytes: Seq<u8>) -> Option<(u32, int)> {
        if bytes.len() >= 4 {
            Some((le_val(bytes.subrange(0, 4)) as u32, 4))
        } else {
            None
        }
    }

    open spec fn probes(bytes: Seq<u8>, max: nat) -> Result<int, TamponError> {
        fixed_probe(bytes, 4, max)
    }

    fn bytes_size(&self) -> (n: usize) {
        4
    }

    fn serialize(&self, buffer: &mut Vec<u8>, at: usize) -> (n: usize) {
        proof {
            lemma_pow256_values();
        }
        write_le(buffer, at, *self as u128, 4)
    }

    fn deserialize(buffer: &Vec<u8>, at: usize) -> (r: (u32, usize)) {
        let x = read_le(buffer, at, 4);
        proof {
            lemma_pow256_values();
            assert(buffer@.subrange(at as int, at + 4) =~= buffer@.skip(at as int).subrange(0, 4));
        }
        ((x as u32), 4)
    }

    fn deserialize_size(buffer: &Vec<u8>, at: usize, max_size: usize) -> (r: Result<
        usize,
        TamponError,
    >) {
        probe_fixed(buffer, at, 4, max_size)
    }

}

impl Tampon for u64 {
    type V = u64;

    open spec fn model(&self) -> u64 {
        *self
    }
    open spec fn valid(&self) -> bool {
        true
    }

    open spec fn wire(&self) -> Seq<u8> {
        le_bytes(*self as nat, 8)
    }

    open spec fn parses(bytes: Seq<u8>) -> Option<(u64, int)> {
        if bytes.len() >= 8 {
            Some((le_val(bytes.subrange(0, 8)) as u64, 8))
        } else {
            None
        }
    }

    open spec fn probes(bytes: Seq<u8>, max: nat) -> Result<int, TamponError> {
        fixed_probe(bytes, 8, max)
    }

    fn bytes_size(&self) -> (n: usize) {
        8
    }

    fn serialize(&self, buffer: &mut Vec<u8>, at: usize) -> (n: usize) {
        proof {
            lemma_pow256_values();
        }
        write_le(buffer, at, *self as u128, 8)
    }

    fn deserialize(buffer: &Vec<u8>, at: usize) -> (r: (u64, usize)) {
        let x = read_le(buffer, at, 8);
        proof {
            lemma_pow256_values();
            assert(buffer@.subrange(at as int, at + 8) =~= buffer@.skip(at as int).subrange(0, 8));
        }
        ((x as u64), 8)
    }

    fn deserialize_size(buffer: &Vec<u8>, at: usize, max_size: usize) -> (r: Result<
        usize,
        TamponError,
    >) {
        probe_fixed(buffer, at, 8, max_size)
    }

}

impl Tampon for u128 {
    type V = u128;

    open spec fn model(&self) -> u128 {
        *self
    }
    open spec fn valid(&self) -> bool {
        true
    }

    open spec fn wire(&self) -> Seq<u8> {
        le_bytes(*self as nat, 16)
    }

    open spec fn parses(bytes: Seq<u8>) -> Option<(u128, int)> {
        if bytes.len() >= 16 {
            Some((le_val(bytes.subrange(0, 16)) as u128, 16))
        } else {
            None
        }
    }

    open spec fn probes(bytes: Seq<u8>, max: nat) -> Result<int, TamponError> {
        fixed_probe(bytes, 16, max)
    }

    fn bytes_size(&self) -> (n: usize) {
        16
    }

    fn serialize(&self, buffer: &mut Vec<u8>, at: usize) -> (n: usize) {
        proof {
            lemma_pow256_values();
        }
        write_le(buffer, at, *self, 16)
    }

    fn deserialize(buffer: &Vec<u8>, at: usize) -> (r: (u128, usize)) {
        let x = read_le(buffer, at, 16);
        proof {
            lemma_pow256_values();
            assert(buffer@.subrange(at as int, at + 16) =~= buffer@.skip(at as int).subrange(
                0,
                16,
            ));
        }
        (x, 16)
    }

    fn deserialize_size(buffer: &Vec<u8>, at: usize, max_size: usize) -> (r: Result<
        usize,
        TamponError,
    >) {
        probe_fixed(buffer, at, 16, max_size)
    }

}

impl Tampon for i8 {
    type V = i8;

    open spec fn model(&self) -> i8 {
        *self
    }
    open spec fn valid(&self) -> bool {
        true
    }

    open spec fn wire(&self) -> Seq<u8> {
        le_bytes(u_of_i(*self as int, 1), 1)
    }

    open spec fn parses(bytes: Seq<u8>) -> Option<(i8, int)> {
        if bytes.len() >= 1 {
            Some((i_of_u(le_val(bytes.subrange(0, 1)), 1) as i8, 1))
        } else {
            None
        }
    }

    open spec fn probes(bytes: Seq<u8>, max: nat) -> Result<int, TamponError> {
        fixed_probe(bytes, 1, max)
    }

    fn bytes_size(&self) -> (n: usize) {
        1
    }

    fn serialize(&self, buffer: &mut Vec<u8>, at: usize) -> (n: usize) {
        let u: u8 = if *self >= 0 {
            *self as u8
        } else {
            ((*self as i16) + 0x100) as u8
        };
        proof {
            lemma_pow256_values();
            assert(u as nat == u_of_i(*self as int, 1));
        }
        write_le(buffer, at, u as u128, 1)
    }

    fn deserialize(buffer: &Vec<u8>, at: usize) -> (r: (i8, usize)) {
        let x = read_le(buffer, at, 1);
        proof {
            lemma_pow256_values();
            assert(buffer@.subrange(at as int, at + 1) =~= buffer@.skip(at as int).subrange(0, 1));
        }
        if x < 0x80 {
            (x as i8, 1)
        } else {
            (((x as i16) - 0x100) as i8, 1)
        }
    }

    fn deserialize_size(buffer: &Vec<u8>, at: usize, max_size: usize) -> (r: Result<
        usize,
        TamponError,
    >) {
        probe_fixed(buffer, at, 1, max_size)
    }

}

impl Tampon for i16 {
    type V = i16;

    open spec fn model(&self) -> i16 {
        *self
    }
    open spec fn valid(&self) -> bool {
        true
    }

    open spec fn wire(&self) -> Seq<u8> {
        le_bytes(u_of_i(*self as int, 2), 2)
    }

    open spec fn parses(bytes: Seq<u8>) -> Option<(i16, int)> {
        if bytes.len() >= 2 {
            Some((i_of_u(le_val(bytes.subrange(0, 2)), 2) as i16, 2))
        } else {
            None
        }
    }

    open spec fn probes(bytes: Seq<u8>, max: nat) -> Result<int, TamponError> {
        fixed_probe(bytes, 2, max)
    }

    fn bytes_size(&self) -> (n: usize) {
        2
    }

    fn serialize(&self, buffer: &mut Vec<u8>, at: usize) -> (n: usize) {
        let u: u16 = if *self >= 0 {
            *self as u16
        } else {
            ((*self as i32) + 0x1_0000) as u16
        };
        proof {
            lemma_pow256_values();
            assert(u as nat == u_of_i(*self as int, 2));
        }
        write_le(buffer, at, u as u128, 2)
    }

    fn deserialize(buffer: &Vec<u8>, at: usize) -> (r: (i16, usize)) {
        let x = read_le(buffer, at, 2);
        proof {
            lemma_pow256_values();
            assert(buffer@.subrange(at as int, at + 2) =~= buffer@.skip(at as int).subrange(0, 2));
        }
        if x < 0x8000 {
            (x as i16, 2)
        } else {
            (((x as i32) - 0x1_0000) as i16, 2)
        }
    }

    fn deserialize_size(buffer: &Vec<u8>, at: usize, max_size: usize) -> (r: Result<
        usize,
        TamponError,
    >) {
        probe_fixed(buffer, at, 2, max_size)
    }

}

impl Tampon for i32 {
    type V = i32;

    open spec fn model(&self) -> i32 {
        *self
    }
    open spec fn valid(&self) -> bool {
        true
    }

    open spec fn wire(&self) -> Seq<u8> {
        le_bytes(u_of_i(*self as int, 4), 4)
    }

    open spec fn parses(bytes: Seq<u8>) -> Option<(i32, int)> {
        if bytes.len() >= 4 {
            Some((i_of_u(le_val(bytes.subrange(0, 4)), 4) as i32, 4))
        } else {
            None
        }
    }

    open spec fn probes(bytes: Seq<u8>, max: nat) -> Result<int, TamponError> {
        fixed_probe(bytes, 4, max)
    }

    fn bytes_size(&self) -> (n: usize) {
        4
    }

    fn serialize(&self, buffer: &mut Vec<u8>, at: usize) -> (n: usize) {
        let u: u32 = if *self >= 0 {
            *self as u32
        } else {
            ((*self as i64) + 0x1_0000_0000) as u32
        };
        proof {
            lemma_pow256_values();
            assert(u as nat == u_of_i(*self as int, 4));
        }
        write_le(buffer, at, u as u128, 4)
    }

    fn deserialize(buffer: &Vec<u8>, at: usize) -> (r: (i32, usize)) {
        let x = read_le(buffer, at, 4);
        proof {
            lemma_pow256_values();
            assert(buffer@.subrange(at as int, at + 4) =~= buffer@.skip(at as int).subrange(0, 4));
        }
        if x < 0x8000_0000 {
            (x as i32, 4)
        } else {
            (((x as i64) - 0x1_0000_0000) as i32, 4)
        }
    }

    fn deserialize_size(buffer: &Vec<u8>, at: usize, max_size: usize) -> (r: Result<
        usize,
        TamponError,
    >) {
        probe_fixed(buffer, at, 4, max_size)
    }

}

impl Tampon for i64 {
    type V = i64;

    open spec fn model(&self) -> i64 {
        *self
    }
    open spec fn valid(&self) -> bool {
        true
    }

    open spec fn wire(&self) -> Seq<u8> {
        le_bytes(u_of_i(*self as int, 8), 8)
    }

    open spec fn parses(bytes: Seq<u8>) -> Option<(i64, int)> {
        if bytes.len() >= 8 {
            Some((i_of_u(le_val(bytes.subrange(0, 8)), 8) as i64, 8))
        } else {
            None
        }
    }

    open spec fn probes(bytes: Seq<u8>, max: nat) -> Result<int, TamponError> {
        fixed_probe(bytes, 8, max)
    }

    fn bytes_size(&self) -> (n: usize) {
        8
    }

    fn serialize(&self, buffer: &mut Vec<u8>, at: usize) -> (n: usize) {
        let u: u64 = if *self >= 0 {
            *self as u64
        } else {
            ((*self as i128) + 0x1_0000_0000_0000_0000) as u64
        };
        proof {
            lemma_pow256_values();
            assert(u as nat == u_of_i(*self as int, 8));
        }
        write_le(buffer, at, u as u128, 8)
    }

    fn deserialize(buffer: &Vec<u8>, at: usize) -> (r: (i64, usize)) {
        let x = read_le(buffer, at, 8);
        proof {
            lemma_pow256_values();
            assert(buffer@.subrange(at as int, at + 8) =~= buffer@.skip(at as int).subrange(0, 8));
        }
        if x < 0x8000_0000_0000_0000 {
            (x as i64, 8)
        } else {
            (((x as i128) - 0x1_0000_0000_0000_0000) as i64, 8)
        }
    }

    fn deserialize_size(buffer: &Vec<u8>, at: usize, max_size: usize) -> (r: Result<
        usize,
        TamponError,
    >) {
        probe_fixed(buffer, at, 8, max_size)
    }

}

impl Tampon for i128 {
    type V = i128;

    open spec fn model(&self) -> i128 {
        *self
    }
    open spec fn valid(&self) -> bool {
        true
    }

    open spec fn wire(&self) -> Seq<u8> {
        le_bytes(u_of_i(*self as int, 16), 16)
    }

    open spec fn parses(bytes: Seq<u8>) -> Option<(i128, int)> {
        if bytes.len() >= 16 {
            Some((i_of_u(le_val(bytes.subrange(0, 16)), 16) as i128, 16))
        } else {
            None
        }
    }

    open spec fn probes(bytes: Seq<u8>, max: nat) -> Result<int, TamponError> {
        fixed_probe(bytes, 16, max)
    }

    fn bytes_size(&self) -> (n: usize) {
        16
    }

    fn serialize(&self, buffer: &mut Vec<u8>, at: usize) -> (n: usize) {
        let u: u128 = if *self >= 0 {
            *self as u128
        } else {
            u128::MAX - ((-1 - *self) as u128)
        };
        proof {
            lemma_pow256_values();
            assert(u as nat == u_of_i(*self as int, 16));
        }
        write_le(buffer, at, u, 16)
    }

    fn deserialize(buffer: &Vec<u8>, at: usize) -> (r: (i128, usize)) {
        let x = read_le(buffer, at, 16);
        proof {
            lemma_pow256_values();
            assert(buffer@.subrange(at as int, at + 16) =~= buffer@.skip(at as int).subrange(
                0,
                16,
            ));
        }
        if x < 0x8000_0000_0000_0000_0000_0000_0000_0000 {
            (x as i128, 16)
        } else {
            (-((u128::MAX - x) as i128) - 1, 16)
        }
    }

    fn deserialize_size(buffer: &Vec<u8>, at: usize, max_size: usize) -> (r: Result<
        usize,
        TamponError,
    >) {
        probe_fixed(buffer, at, 16, max_size)
    }

}

/// `bool` obeys the codec laws.
pub proof fn lemma_bool_lawful()
    ensures
        lawful::<bool>(),
{
    assert forall|v: bool, rest: Seq<u8>| v.valid() implies #[trigger] <bool as Tampon>::parses(
        v.wire().add(rest),
    ) == Some((v.model(), v.wire().len() as int)) by {
        assert(v.wire().add(rest)[0] == v.wire()[0]);
    }
}

/// `u8` obeys the codec laws.
pub proof fn lemma_u8_lawful()
    ensures
        lawful::<u8>(),
{
    assert forall|v: u8, rest: Seq<u8>| v.valid() implies #[trigger] <u8 as Tampon>::parses(
        v.wire().add(rest),
    ) == Some((v.model(), v.wire().len() as int)) by {
        assert(v.wire().add(rest).subrange(0, 1) =~= v.wire());
        lemma_pow256_values();
        lemma_le_val_le_bytes(v as nat, 1);
    }
}

/// `u16` obeys the codec laws.
pub proof fn lemma_u16_lawful()
    ensures
        lawful::<u16>(),
{
    assert forall|v: u16, rest: Seq<u8>| v.valid() implies #[trigger] <u16 as Tampon>::parses(
        v.wire().add(rest),
    ) == Some((v.model(), v.wire().len() as int)) by {
        assert(v.wire().add(rest).subrange(0, 2) =~= v.wire());
        lemma_pow256_values();
        lemma_le_val_le_bytes(v as nat, 2);
    }
}

/// `u32` obeys the codec laws.
pub proof fn lemma_u32_lawful()
    ensures
        lawful::<u32>(),
{
    assert forall|v: u32, rest: Seq<u8>| v.valid() implies #[trigger] <u32 as Tampon>::parses(
        v.wire().add(rest),
    ) == Some((v.model(), v.wire().len() as int)) by {
        assert(v.wire().add(rest).subrange(0, 4) =~= v.wire());
        lemma_pow256_values();
        lemma_le_val_le_bytes(v as nat, 4);
    }
}

/// `u64` obeys the codec laws.
pub proof fn lemma_u64_lawful()
    ensures
        lawful::<u64>(),
{
    assert forall|v: u64, rest: Seq<u8>| v.valid() implies #[trigger] <u64 as Tampon>::parses(
        v.wire().add(rest),
    ) == Some((v.model(), v.wire().len() as int)) by {
        assert(v.wire().add(rest).subrange(0, 8) =~= v.wire());
        lemma_pow256_values();
        lemma_le_val_le_bytes(v as nat, 8);
    }
}

/// `u128` obeys the codec laws.
pub proof fn lemma_u128_lawful()
    ensures
        lawful::<u128>(),
{
    assert forall|v: u128, rest: Seq<u8>| v.valid() implies #[trigger] <u128 as Tampon>::parses(
        v.wire().add(rest),
    ) == Some((v.model(), v.wire().len() as int)) by {
        assert(v.wire().add(rest).subrange(0, 16) =~= v.wire());
        lemma_pow256_values();
        lemma_le_val_le_bytes(v as nat, 16);
    }
}

/// `i8` obeys the codec laws.
pub proof fn lemma_i8_lawful()
    ensures
        lawful::<i8>(),
{
    assert forall|v: i8, rest: Seq<u8>| v.valid() implies #[trigger] <i8 as Tampon>::parses(
        v.wire().add(rest),
    ) == Some((v.model(), v.wire().len() as int)) by {
        assert(v.wire().add(rest).subrange(0, 1) =~= v.wire());
        lemma_pow256_values();
        lemma_i_of_u_of_i(v as int, 1);
        lemma_le_val_le_bytes(u_of_i(v as int, 1), 1);
    }
}

/// `i16` obeys the codec laws.
pub proof fn lemma_i16_lawful()
    ensures
        lawful::<i16>(),
{
    assert forall|v: i16, rest: Seq<u8>| v.valid() implies #[trigger] <i16 as Tampon>::parses(
        v.wire().add(rest),
    ) == Some((v.model(), v.wire().len() as int)) by {
        assert(v.wire().add(rest).subrange(0, 2) =~= v.wire());
        lemma_pow256_values();
        lemma_i_of_u_of_i(v as int, 2);
        lemma_le_val_le_bytes(u_of_i(v as int, 2), 2);
    }
}

/// `i32` obeys the codec laws.
pub proof fn lemma_i32_lawful()
    ensures
        lawful::<i32>(),
{
    assert forall|v: i32, rest: Seq<u8>| v.valid() implies #[trigger] <i32 as Tampon>::parses(
        v.wire().add(rest),
    ) == Some((v.model(), v.wire().len() as int)) by {
        assert(v.wire().add(rest).subrange(0, 4) =~= v.wire());
        lemma_pow256_values();
        lemma_i_of_u_of_i(v as int, 4);
        lemma_le_val_le_bytes(u_of_i(v as int, 4), 4);
    }
}

/// `i64` obeys the codec laws.
pub proof fn lemma_i64_lawful()
    ensures
        lawful::<i64>(),
{
    assert forall|v: i64, rest: Seq<u8>| v.valid() implies #[trigger] <i64 as Tampon>::parses(
        v.wire().add(rest),
    ) == Some((v.model(), v.wire().len() as int)) by {
        assert(v.wire().add(rest).subrange(0, 8) =~= v.wire());
        lemma_pow256_values();
        lemma_i_of_u_of_i(v as int, 8);
        lemma_le_val_le_bytes(u_of_i(v as int, 8), 8);
    }
}

/// `i128` obeys the codec laws.
pub proof fn lemma_i128_lawful()
    ensures
        lawful::<i128>(),
{
    assert forall|v: i128, rest: Seq<u8>| v.valid() implies #[trigger] <i128 as Tampon>::parses(
        v.wire().add(rest),
    ) == Some((v.model(), v.wire().len() as int)) by {
        assert(v.wire().add(rest).subrange(0, 16) =~= v.wire());
        lemma_pow256_values();
        lemma_i_of_u_of_i(v as int, 16);
        lemma_le_val_le_bytes(u_of_i(v as int, 16), 16);
    }
}

} // verus!
