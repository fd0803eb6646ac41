//! Random buffer generation: fills a buffer of the requested size with bytes
//! sampled from the character set a caller selects by flags.

use vstd::prelude::*;
use crate::buffer_generator_charset;

verus! {

/// The consecutive byte values `lo..=hi`.
pub open spec fn byte_range(lo: u8, hi: u8) -> Seq<u8> {
    Seq::new((hi - lo + 1) as nat, |i: int| (lo + i) as u8)
}

/// The sample of byte values a charset selects, in the order the generator
/// lays them out.
pub open spec fn charset_seq(charset: u8) -> Seq<u8> {
    if charset == 31 {
        byte_range(0, 255)
    } else {
        (if charset & 1 != 0 {
            byte_range(48, 57)
        } else {
            Seq::empty()
        }).add(
            if charset & 2 != 0 {
                byte_range(97, 122)
            } else {
                Seq::empty()
            },
        ).add(
            if charset & 4 != 0 {
                byte_range(65, 90)
            } else {
                Seq::empty()
            },
        ).add(
            if charset & 8 != 0 {
                byte_range(33, 47).add(byte_range(58, 64)).add(byte_range(91, 96)).add(
                    byte_range(123, 126),
                )
            } else {
                Seq::empty()
            },
        ).add(
            if charset & 16 != 0 {
                byte_range(0, 32).add(byte_range(127, 255))
            } else {
                Seq::empty()
            },
        )
    }
}

/// Appends the byte values `lo..=hi` to `out`.
fn push_range(out: &mut Vec<u8>, lo: u8, hi: u8)
    requires
        lo <= hi,
    ensures
        final(out)@ == old(out)@.add(byte_range(lo, hi)),
{
    let ghost orig = out@;
    let mut v: usize = lo as usize;
    while v <= hi as usize
        invariant
            lo <= v <= hi + 1,
            out@ == orig.add(byte_range(lo, hi).take(v - lo)),
        decreases hi + 1 - v,
    {
        out.push(v as u8);
        proof {
            assert(byte_range(lo, hi)[v - lo] == (lo + (v - lo)) as u8);
            assert(orig.add(byte_range(lo, hi).take(v + 1 - lo)) =~= orig.add(
                byte_range(lo, hi).take(v - lo),
            ).push(v as u8));
        }
        v = v + 1;
    }
    proof {
        assert(byte_range(lo, hi).take(hi + 1 - lo) =~= byte_range(lo, hi));
    }
}

/// The sample of byte values the charset selects, as a vector.
pub fn generate_charset_range(charset: u8) -> (r: Vec<u8>)
    ensures
        r@ == charset_seq(charset),
{
    let mut charset_range: Vec<u8> = Vec::new();
    if charset == buffer_generator_charset::ALL {
        push_range(&mut charset_range, 0, 255);
    } else {
        if charset & buffer_generator_charset::NUMBER > 0 {
            push_range(&mut charset_range, 48, 57);
        }
        if charset & buffer_generator_charset::LOWER_CASE > 0 {
            push_range(&mut charset_range, 97, 122);
        }
        if charset & buffer_generator_charset::UPPER_CASE > 0 {
            push_range(&mut charset_range, 65, 90);
        }
        if charset & buffer_generator_charset::SYMBOL > 0 {
            push_range(&mut charset_range, 33, 47);
            push_range(&mut charset_range, 58, 64);
            push_range(&mut charset_range, 91, 96);
            push_range(&mut charset_range, 123, 126);
        }
        if charset & buffer_generator_charset::UNREADABLE > 0 {
            push_range(&mut charset_range, 0, 32);
            push_range(&mut charset_range, 127, 255);
        }
        proof {
            assert(charset_range@ =~= charset_seq(charset));
        }
    }
    charset_range
}

/// Relies on rand::Rng::random_range: a draw from `0..bound`, so the result
/// is below the bound. Which index comes back is up to the generator.
#[verifier::external_body]
fn draw_index<R: rand::Rng>(rng: &mut R, bound: usize) -> (r: usize)
    requires
        bound > 0,
    ensures
        r < bound,
{
    rng.random_range(0..bound)
}

/// Fills a buffer of length `size` with bytes drawn from the charset's
/// sample by the supplied random number generator.
pub fn generate_buffer<R: rand::Rng>(rng: &mut R, size: usize, charset: u8) -> (r: Vec<u8>)
    requires
        size > 0,
        charset & buffer_generator_charset::ALL != 0,
    ensures
        r@.len() == size,
        forall|i: int| 0 <= i < size ==> charset_seq(charset).contains(#[trigger] r@[i]),
{
    let charset_range = generate_charset_range(charset);
    proof {
        assert(charset & 31 != 0 ==> charset & 1 != 0 || charset & 2 != 0 || charset & 4 != 0
            || charset & 8 != 0 || charset & 16 != 0) by (bit_vector);
    }
    let mut buffer: Vec<u8> = Vec::new();
    let mut i: usize = 0;
    while i < size
        invariant
            i <= size,
            charset_range@ == charset_seq(charset),
            charset_range@.len() > 0,
            buffer@.len() == i,
            forall|j: int| 0 <= j < i ==> charset_seq(charset).contains(#[trigger] buffer@[j]),
        decreases size - i,
    {
        let idx = draw_index(rng, charset_range.len());
        let b: u8 = charset_range[idx];
        proof {
            assert(charset_seq(charset)[idx as int] == b);
        }
        buffer.push(b);
        i = i + 1;
    }
    buffer
}

/// Whether a byte belongs to the charset's accepted characters. A charset
/// holding every flag accepts every byte.
pub open spec fn in_charset(b: u8, charset: u8) -> bool {
    if charset >= 31 {
        true
    } else {
        (charset & 1 != 0 && 48 <= b <= 57) || (charset & 2 != 0 && 97 <= b <= 122) || (charset & 4
            != 0 && 65 <= b <= 90) || (charset & 8 != 0 && (33 <= b <= 47 || 58 <= b <= 64 || 91
            <= b <= 96 || 123 <= b <= 126)) || (charset & 16 != 0 && (b <= 32 || 127 <= b))
    }
}

/// Marks the byte values `lo..=hi` as accepted in a 256-entry table.
fn mark_range(table: &mut Vec<bool>, lo: u8, hi: u8)
    requires
        lo <= hi,
        old(table).len() == 256,
    ensures
        final(table)@.len() == 256,
        forall|t: int|
            0 <= t < 256 ==> final(table)@[t] == (old(table)@[t] || lo <= t <= hi),
{
    let mut v: usize = lo as usize;
    while v <= hi as usize
        invariant
            lo <= v <= hi + 1,
            table@.len() == 256,
            forall|t: int| 0 <= t < 256 ==> table@[t] == (old(table)@[t] || lo <= t < v),
        decreases hi + 1 - v,
    {
        table.set(v, true);
        v = v + 1;
    }
}

/// Whether every byte of the buffer belongs to the charset's accepted
/// characters.
pub fn buffer_charset_valid(buffer: &Vec<u8>, charset: u8) -> (r: bool)
    ensures
        r == forall|i: int| 0 <= i < buffer@.len() ==> in_charset(#[trigger] buffer@[i], charset),
{
    let mut result = true;
    let mut vec_char: Vec<bool> = Vec::new();
    let mut k: usize = 0;
    while k < 256
        invariant
            k <= 256,
            vec_char@.len() == k,
            forall|t: int| 0 <= t < k ==> !vec_char@[t],
        decreases 256 - k,
    {
        vec_char.push(false);
        k = k + 1;
    }
    if charset >= 31 {
        mark_range(&mut vec_char, 0, 255);
    } else {
        if charset & buffer_generator_charset::NUMBER > 0 {
            mark_range(&mut vec_char, 48, 57);
        }
        if charset & buffer_generator_charset::LOWER_CASE > 0 {
            mark_range(&mut vec_char, 97, 122);
        }
        if charset & buffer_generator_charset::UPPER_CASE > 0 {
            mark_range(&mut vec_char, 65, 90);
        }
        if charset & buffer_generator_charset::SYMBOL > 0 {
            mark_range(&mut vec_char, 33, 47);
            mark_range(&mut vec_char, 58, 64);
            mark_range(&mut vec_char, 91, 96);
            mark_range(&mut vec_char, 123, 126);
        }
        if charset & buffer_generator_charset::UNREADABLE > 0 {
            mark_range(&mut vec_char, 0, 32);
            mark_range(&mut vec_char, 127, 255);
        }
    }
    proof {
        assert forall|t: int| 0 <= t < 256 implies vec_char@[t] == in_charset(t as u8, charset) by {
        }
    }
    let mut i: usize = 0;
    while i < buffer.len()
        invariant
            i <= buffer@.len(),
            vec_char@.len() == 256,
            forall|t: int| 0 <= t < 256 ==> vec_char@[t] == in_charset(t as u8, charset),
            result == forall|j: int|
                0 <= j < i ==> in_charset(#[trigger] buffer@[j], charset),
        decreases buffer@.len() - i,
    {
        let b: u8 = buffer[i];
        result = result && vec_char[b as usize];
        i = i + 1;
    }
    result
}

} // verus!
