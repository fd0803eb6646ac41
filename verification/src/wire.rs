//! Mathematical model of the binary layout: little-endian byte strings for
//! fixed-width integers, and the mapping between signed values and their
//! unsigned bit patterns.

use vstd::prelude::*;
use vstd::arithmetic::div_mod::{lemma_div_denominator, lemma_fundamental_div_mod};

verus! {

/// 256 to the power `w`: the number of distinct values of a `w`-byte field.
pub open spec fn pow256(w: nat) -> nat
    decreases w,
{
    if w == 0 {
        1
    } else {
        256 * pow256((w - 1) as nat)
    }
}

/// The `w` little-endian bytes that encode the value `v`.
pub open spec fn le_bytes(v: nat, w: nat) -> Seq<u8> {
    Seq::new(w, |i: int| ((v / pow256(i as nat)) % 256) as u8)
}

/// The value that the bytes of `s` spell in little-endian order.
pub open spec fn le_val(s: Seq<u8>) -> nat
    decreases s.len(),
{
    if s.len() == 0 {
        0
    } else {
        (s[0] + 256 * le_val(s.skip(1))) as nat
    }
}

/// The unsigned `w`-byte bit pattern of the signed value `v`.
pub open spec fn u_of_i(v: int, w: nat) -> nat {
    if v >= 0 {
        v as nat
    } else {
        (v + pow256(w)) as nat
    }
}

/// The signed value whose `w`-byte bit pattern is `u`.
pub open spec fn i_of_u(u: nat, w: nat) -> int {
    if 2 * u < pow256(w) {
        u as int
    } else {
        u - pow256(w)
    }
}

pub proof fn lemma_pow256_pos(w: nat)
    ensures
        pow256(w) >= 1,
    decreases w,
{
    if w > 0 {
        lemma_pow256_pos((w - 1) as nat);
    }
}

pub proof fn lemma_pow256_increases(w1: nat, w2: nat)
    requires
        w1 <= w2,
    ensures
        pow256(w1) <= pow256(w2),
    decreases w2,
{
    if w1 < w2 {
        lemma_pow256_increases(w1, (w2 - 1) as nat);
        lemma_pow256_pos((w2 - 1) as nat);
    }
}

/// Dropping the first byte of an encoding encodes the quotient by 256.
pub proof fn lemma_le_bytes_skip(v: nat, w: nat)
    requires
        w >= 1,
    ensures
        le_bytes(v, w).skip(1) =~= le_bytes(v / 256, (w - 1) as nat),
{
    assert forall|i: int| 0 <= i < w - 1 implies le_bytes(v, w).skip(1)[i] == le_bytes(
        v / 256,
        (w - 1) as nat,
    )[i] by {
        lemma_pow256_pos(i as nat);
        lemma_div_denominator(v as int, 256, pow256(i as nat) as int);
        assert(pow256((i + 1) as nat) == 256 * pow256(i as nat));
    }
}

/// A value below `pow256(w)` is recovered from its `w`-byte encoding.
pub proof fn lemma_le_val_le_bytes(v: nat, w: nat)
    requires
        v < pow256(w),
    ensures
        le_val(le_bytes(v, w)) == v,
    decreases w,
{
    if w == 0 {
        assert(le_bytes(v, 0).len() == 0);
    } else {
        let s = le_bytes(v, w);
        assert(pow256(0) == 1);
        assert(s[0] == (v / 1) % 256);
        lemma_le_bytes_skip(v, w);
        assert(v / 256 < pow256((w - 1) as nat)) by {
            lemma_pow256_pos((w - 1) as nat);
            lemma_fundamental_div_mod(v as int, 256);
        }
        lemma_le_val_le_bytes(v / 256, (w - 1) as nat);
        assert(le_val(s) == v % 256 + 256 * (v / 256));
        lemma_fundamental_div_mod(v as int, 256);
    }
}

/// The value spelled by `s` fits in `s.len()` bytes.
pub proof fn lemma_le_val_bound(s: Seq<u8>)
    ensures
        le_val(s) < pow256(s.len()),
    decreases s.len(),
{
    if s.len() > 0 {
        lemma_le_val_bound(s.skip(1));
    }
}

/// Every byte string is the encoding of the value it spells.
pub proof fn lemma_le_bytes_le_val(s: Seq<u8>)
    ensures
        le_bytes(le_val(s), s.len()) =~= s,
    decreases s.len(),
{
    if s.len() > 0 {
        let v = le_val(s);
        lemma_le_bytes_le_val(s.skip(1));
        assert(v % 256 == s[0] && v / 256 == le_val(s.skip(1))) by {
            lemma_fundamental_div_mod(v as int, 256);
            assert(v == s[0] + 256 * le_val(s.skip(1)));
        }
        lemma_le_bytes_skip(v, s.len());
        assert(le_bytes(v, s.len()).skip(1) =~= s.skip(1));
        assert(pow256(0) == 1);
        assert(le_bytes(v, s.len())[0] == (v / 1) % 256);
        assert forall|i: int| 0 <= i < s.len() implies le_bytes(v, s.len())[i] == s[i] by {
            if i > 0 {
                assert(le_bytes(v, s.len()).skip(1)[i - 1] == s.skip(1)[i - 1]);
            }
        }
    }
}

/// The signed/unsigned bit-pattern maps invert each other.
pub proof fn lemma_i_of_u_of_i(v: int, w: nat)
    requires
        2 * v < pow256(w),
        2 * v >= -(pow256(w) as int),
    ensures
        u_of_i(v, w) < pow256(w),
        i_of_u(u_of_i(v, w), w) == v,
{
}

/// The widths this layout uses, as concrete powers.
pub proof fn lemma_pow256_values()
    ensures
        pow256(0) == 1,
        pow256(1) == 0x100,
        pow256(2) == 0x1_0000,
        pow256(4) == 0x1_0000_0000,
        pow256(8) == 0x1_0000_0000_0000_0000,
        pow256(16) == 0x1_0000_0000_0000_0000_0000_0000_0000_0000,
{
    reveal_with_fuel(pow256, 17);
}

/// `orig` with the bytes of `mid` laid over it starting at `at`.
pub open spec fn spliced(orig: Seq<u8>, at: int, mid: Seq<u8>) -> Seq<u8> {
    orig.subrange(0, at).add(mid).add(orig.subrange(at + mid.len(), orig.len() as int))
}

/// What each position of a spliced byte string holds.
pub proof fn lemma_spliced_index(orig: Seq<u8>, at: int, mid: Seq<u8>)
    requires
        0 <= at,
        at + mid.len() <= orig.len(),
    ensures
        spliced(orig, at, mid).len() == orig.len(),
        forall|j: int| 0 <= j < at ==> #[trigger] spliced(orig, at, mid)[j] == orig[j],
        forall|j: int|
            at <= j < at + mid.len() ==> #[trigger] spliced(orig, at, mid)[j] == mid[j - at],
        forall|j: int|
            at + mid.len() <= j < orig.len() ==> #[trigger] spliced(orig, at, mid)[j] == orig[j],
{
}

/// Writes the `width`-byte little-endian encoding of `v` into `buffer` at `at`.
pub fn write_le(buffer: &mut Vec<u8>, at: usize, v: u128, width: usize) -> (n: usize)
    requires
        v < pow256(width as nat),
        at + width <= old(buffer).len(),
    ensures
        n == width,
        final(buffer)@ == spliced(old(buffer)@, at as int, le_bytes(v as nat, width as nat)),
{
    let ghost orig = buffer@;
    let mut x: u128 = v;
    let mut i: usize = 0;
    proof {
        assert(pow256(0) == 1);
    }
    while i < width
        invariant
            i <= width,
            at + width <= buffer.len(),
            buffer@.len() == orig.len(),
            x as nat == v as nat / pow256(i as nat),
            forall|j: int| 0 <= j < i ==> buffer@[at + j] == le_bytes(v as nat, width as nat)[j],
            forall|j: int|
                0 <= j < orig.len() && !(at <= j < at + i) ==> buffer@[j] == orig[j],
        decreases width - i,
    {
        let b: u8 = (x % 256) as u8;
        proof {
            assert(le_bytes(v as nat, width as nat)[i as int] == (v as nat / pow256(
                i as nat,
            )) % 256);
        }
        buffer.set(at + i, b);
        proof {
            lemma_pow256_pos(i as nat);
            lemma_div_denominator(v as int, pow256(i as nat) as int, 256);
            assert(pow256((i + 1) as nat) == 256 * pow256(i as nat));
            assert(pow256(i as nat) * 256 == 256 * pow256(i as nat));
        }
        x = x / 256;
        i = i + 1;
    }
    proof {
        assert(buffer@ =~= spliced(orig, at as int, le_bytes(v as nat, width as nat)));
    }
    width
}

/// Reads the `width`-byte little-endian value stored in `buffer` at `at`.
pub fn read_le(buffer: &Vec<u8>, at: usize, width: usize) -> (r: u128)
    requires
        at + width <= buffer.len(),
        width <= 16,
    ensures
        r as nat == le_val(buffer@.subrange(at as int, at + width)),
        r < pow256(width as nat),
{
    let ghost s = buffer@.subrange(at as int, at + width);
    let mut acc: u128 = 0;
    let mut i: usize = width;
    proof {
        assert(s.subrange(i as int, width as int).len() == 0);
    }
    while i > 0
        invariant
            i <= width,
            width <= 16,
            at + width <= buffer.len(),
            s == buffer@.subrange(at as int, at + width),
            acc as nat == le_val(s.subrange(i as int, width as int)),
        decreases i,
    {
        i = i - 1;
        let ghost t = s.subrange(i as int, width as int);
        proof {
            assert(t[0] == s[i as int]);
            assert(t.skip(1) =~= s.subrange(i + 1, width as int));
            lemma_le_val_bound(t);
            lemma_pow256_increases((width - i) as nat, 16);
            lemma_pow256_values();
        }
        let b: u8 = buffer[at + i];
        proof {
            assert(s[i as int] == buffer@[at + i]);
            assert(le_val(t) == t[0] + 256 * le_val(t.skip(1)));
            assert(acc * 256 + b < pow256(16)) by {
                assert(le_val(t) < pow256((width - i) as nat));
                assert(acc as nat == le_val(t.skip(1)));
            }
        }
        acc = acc * 256 + (b as u128);
    }
    proof {
        assert(s.subrange(0, width as int) =~= s);
        lemma_le_val_bound(s);
    }
    acc
}

} // verus!
