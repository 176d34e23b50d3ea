//! Decoding between raw little-endian bytes and 32-bit words.
//!
//! The readback protocol copies a device buffer into a host-visible staging
//! buffer and maps it, which yields raw bytes; GPU buffer data is stored
//! little-endian, so the typed host values are recovered by assembling each
//! group of four bytes, least significant first.

use vstd::prelude::*;
use vstd::arithmetic::div_mod::{
    lemma_fundamental_div_mod, lemma_fundamental_div_mod_converse, lemma_div_denominator,
    lemma_mod_division_less_than_divisor, lemma_div_pos_is_pos,
};

verus! {

/// Byte `j` (least significant first) of the word `x`.
pub open spec fn word_byte(x: int, j: int) -> u8 {
    if j == 0 {
        (x % 256) as u8
    } else if j == 1 {
        ((x / 256) % 256) as u8
    } else if j == 2 {
        ((x / 65536) % 256) as u8
    } else {
        ((x / 16777216) % 256) as u8
    }
}

/// The little-endian bytes of a word sequence.
pub open spec fn bytes_of_words(w: Seq<u32>) -> Seq<u8> {
    Seq::new(w.len() * 4, |i: int| word_byte(w[i / 4] as int, i % 4))
}

/// The word assembled from four bytes, least significant first.
pub open spec fn word_of_bytes4(b0: u8, b1: u8, b2: u8, b3: u8) -> u32 {
    (b0 + 256 * (b1 as int) + 65536 * (b2 as int) + 16777216 * (b3 as int)) as u32
}

/// The words encoded by a little-endian byte sequence (whole groups of four).
pub open spec fn words_of_bytes(b: Seq<u8>) -> Seq<u32> {
    Seq::new(
        (b.len() as int / 4) as nat,
        |i: int| word_of_bytes4(b[4 * i], b[4 * i + 1], b[4 * i + 2], b[4 * i + 3]),
    )
}

/// Splitting a word into its four bytes and reassembling them gives the word
/// back.
pub proof fn lemma_word_bytes_roundtrip(x: int)
    requires
        0 <= x <= u32::MAX as int,
    ensures
        word_of_bytes4(word_byte(x, 0), word_byte(x, 1), word_byte(x, 2), word_byte(x, 3))
            == x,
{
    lemma_fundamental_div_mod(x, 256);
    lemma_div_pos_is_pos(x, 256);
    lemma_fundamental_div_mod(x / 256, 256);
    lemma_div_denominator(x, 256, 256);
    lemma_div_pos_is_pos(x / 256, 256);
    lemma_fundamental_div_mod(x / 65536, 256);
    lemma_div_denominator(x, 65536, 256);
    lemma_div_pos_is_pos(x / 65536, 256);
    lemma_mod_division_less_than_divisor(x, 256);
    lemma_mod_division_less_than_divisor(x / 256, 256);
    lemma_mod_division_less_than_divisor(x / 65536, 256);
    assert(x / 16777216 < 256) by {
        lemma_div_denominator(x, 16777216, 256);
        lemma_div_pos_is_pos(x / 16777216, 256);
        lemma_mod_division_less_than_divisor(x / 16777216, 256);
        if x / 16777216 >= 256 {
            assert((x / 16777216) / 256 >= 1) by {
                vstd::arithmetic::div_mod::lemma_div_is_ordered(256, x / 16777216, 256);
            }
        }
    }
    vstd::arithmetic::div_mod::lemma_small_mod((x / 16777216) as nat, 256);
}

/// Decoding the little-endian bytes of a word sequence gives the words back.
pub proof fn lemma_words_bytes_roundtrip(w: Seq<u32>)
    ensures
        words_of_bytes(bytes_of_words(w)) =~= w,
{
    let b = bytes_of_words(w);
    assert(b.len() == w.len() * 4);
    assert(b.len() as int / 4 == w.len()) by {
        lemma_fundamental_div_mod_converse(w.len() as int * 4, 4, w.len() as int, 0);
    }
    assert forall|i: int| 0 <= i < w.len() implies words_of_bytes(b)[i] == w[i] by {
        assert forall|j: int| 0 <= j < 4 implies b[4 * i + j] == word_byte(w[i] as int, j) by {
            lemma_fundamental_div_mod_converse(4 * i + j, 4, i, j);
        }
        lemma_word_bytes_roundtrip(w[i] as int);
    }
}

/// Encode 32-bit words as raw little-endian bytes, four bytes per word,
/// least significant byte first: the layout in which words sit in a device
/// buffer.
pub fn encode_words(words: &Vec<u32>) -> (r: Vec<u8>)
    requires
        4 * words@.len() <= usize::MAX,
    ensures
        r@ == bytes_of_words(words@),
{
    let n = words.len();
    let mut out: Vec<u8> = Vec::new();
    let mut i: usize = 0;
    while i < n
        invariant
            i <= n,
            n == words@.len(),
            4 * n <= usize::MAX,
            out@.len() == 4 * i,
            forall|j: int| 0 <= j < 4 * i ==> #[trigger] out@[j] == bytes_of_words(words@)[j],
        decreases n - i,
    {
        let w = words[i];
        let b0 = (w % 256) as u8;
        let b1 = ((w / 256) % 256) as u8;
        let b2 = ((w / 65536) % 256) as u8;
        let b3 = ((w / 16777216) % 256) as u8;
        proof {
            lemma_mod_division_less_than_divisor(w as int, 256);
            lemma_div_pos_is_pos(w as int, 256);
            lemma_mod_division_less_than_divisor(w as int / 256, 256);
            lemma_div_pos_is_pos(w as int / 65536, 256);
            lemma_mod_division_less_than_divisor(w as int / 65536, 256);
            lemma_div_pos_is_pos(w as int / 16777216, 256);
            lemma_mod_division_less_than_divisor(w as int / 16777216, 256);
            assert forall|j: int| 0 <= j < 4 implies bytes_of_words(words@)[4 * i + j]
                == word_byte(words@[i as int] as int, j) by {
                vstd::arithmetic::div_mod::lemma_fundamental_div_mod_converse(
                    4 * (i as int) + j,
                    4,
                    i as int,
                    j,
                );
            }
        }
        out.push(b0);
        out.push(b1);
        out.push(b2);
        out.push(b3);
        i = i + 1;
    }
    proof {
        assert(out@ =~= bytes_of_words(words@));
    }
    out
}

/// Reinterpret signed 32-bit values as raw buffer words (two's complement
/// bit patterns), the form in which a stride vector is uploaded.
pub fn i32s_to_words(v: &Vec<i32>) -> (r: Vec<u32>)
    ensures
        r@.len() == v@.len(),
        forall|k: int| 0 <= k < v@.len() ==> #[trigger] r@[k] == v@[k] as u32,
{
    let mut out: Vec<u32> = Vec::new();
    let mut i: usize = 0;
    let n = v.len();
    while i < n
        invariant
            i <= n,
            n == v@.len(),
            out@.len() == i,
            forall|k: int| 0 <= k < i ==> #[trigger] out@[k] == v@[k] as u32,
        decreases n - i,
    {
        out.push(#[verifier::truncate] (v[i] as u32));
        i = i + 1;
    }
    out
}

/// Decode raw little-endian bytes into 32-bit words, four bytes per word,
/// least significant byte first.
pub fn decode_words(bytes: &Vec<u8>) -> (r: Vec<u32>)
    requires
        bytes@.len() % 4 == 0,
    ensures
        r@ == words_of_bytes(bytes@),
{
    let total = bytes.len();
    let n = total / 4;
    let mut out: Vec<u32> = Vec::new();
    let mut i: usize = 0;
    proof {
        lemma_fundamental_div_mod(total as int, 4);
    }
    while i < n
        invariant
            i <= n,
            n == bytes@.len() as int / 4,
            4 * n <= bytes@.len(),
            bytes@.len() <= usize::MAX,
            out@.len() == i,
            forall|j: int| 0 <= j < i ==> #[trigger] out@[j] == words_of_bytes(bytes@)[j],
        decreases n - i,
    {
        let b0 = bytes[4 * i];
        let b1 = bytes[4 * i + 1];
        let b2 = bytes[4 * i + 2];
        let b3 = bytes[4 * i + 3];
        let word: u32 = (b0 as u32) + 256 * (b1 as u32) + 65536 * (b2 as u32) + 16777216 * (
        b3 as u32);
        proof {
            assert(word == word_of_bytes4(b0, b1, b2, b3));
        }
        out.push(word);
        i = i + 1;
    }
    proof {
        assert(out@ =~= words_of_bytes(bytes@));
    }
    out
}

} // verus!
