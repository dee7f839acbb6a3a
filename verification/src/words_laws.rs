//! What the encodings of numbers mean, byte by byte.
use crate::bignum::is_bit_length;
use crate::bignum::BigNumber;
use crate::montgomery::is_m_prime;
use crate::words::be_value;
use crate::words::bytes_words;
use crate::words::le_value;
use crate::words::lemma_bytes_words_value;
use crate::words::lemma_nat_words_value;
use crate::words::lemma_word_round_trip;
use crate::words::lemma_words_bytes_value;
use crate::words::nat_words;
use crate::words::u64_bytes;
use crate::words::word_at;
use crate::words::word_bytes;
use crate::words::words_bytes;
use crate::words::words_value;
use crate::words::zeros;
use vstd::arithmetic::power2::lemma_pow2_pos;
use vstd::arithmetic::power2::pow2;
use vstd::prelude::*;

verus! {

/// Little-endian: no bytes are zero, and a byte in front counts one while those behind it count
/// 256 times as much.
pub proof fn law_le_value_of_bytes(first: u8, rest: Seq<u8>)
    ensures
        le_value(Seq::<u8>::empty()) == 0,
        le_value(seq![first] + rest) == first + 256 * le_value(rest),
{
    assert((seq![first] + rest).skip(1) =~= rest);
}

/// Big-endian: no bytes are zero, and a byte at the end counts one while those before it count
/// 256 times as much.
pub proof fn law_be_value_of_bytes(rest: Seq<u8>, last: u8)
    ensures
        be_value(Seq::<u8>::empty()) == 0,
        be_value(rest.push(last)) == 256 * be_value(rest) + last,
{
    assert(Seq::<u8>::empty().reverse() =~= Seq::<u8>::empty());
    assert(rest.push(last).reverse() =~= seq![last] + rest.reverse());
    law_le_value_of_bytes(last, rest.reverse());
}

/// Words, least significant first: no words are zero, and a word in front counts one while those
/// behind it count 2^32 times as much.
pub proof fn law_words_value_of_words(first: u32, rest: Seq<u32>)
    ensures
        words_value(Seq::<u32>::empty()) == 0,
        words_value(seq![first] + rest) == first + 0x1_0000_0000 * words_value(rest),
{
    assert((seq![first] + rest).skip(1) =~= rest);
}

/// A word that is read has the bytes that stand there, least significant first; a word that is
/// written has four bytes, and is read back.
pub proof fn law_word_is_little_endian(bytes: Seq<u8>, at: int, word: u32)
    ensures
        word_at(bytes, at) == bytes[at] + 0x100 * bytes[at + 1] + 0x1_0000 * bytes[at + 2]
            + 0x100_0000 * bytes[at + 3],
        word_bytes(word).len() == 4,
        word == word_bytes(word)[0] + 0x100 * word_bytes(word)[1] + 0x1_0000 * word_bytes(word)[2]
            + 0x100_0000 * word_bytes(word)[3],
{
    lemma_word_round_trip(word);
    let sum = bytes[at] + 0x100 * bytes[at + 1] + 0x1_0000 * bytes[at + 2] + 0x100_0000 * bytes[at
        + 3];
    assert(0 <= sum <= u32::MAX);
    let b = word_bytes(word);
    let back = b[0] + 0x100 * b[1] + 0x1_0000 * b[2] + 0x100_0000 * b[3];
    assert(0 <= back <= u32::MAX);
}

/// Words and their bytes: four bytes for each word, in the order of the words, and the same
/// number either way.
pub proof fn law_words_and_bytes(words: Seq<u32>, bytes: Seq<u8>, i: int)
    ensures
        words_bytes(words).len() == 4 * words.len(),
        le_value(words_bytes(words)) == words_value(words),
        0 <= i < words.len() ==> words[i] == words_bytes(words)[4 * i] + 0x100 * words_bytes(
            words,
        )[4 * i + 1] + 0x1_0000 * words_bytes(words)[4 * i + 2] + 0x100_0000 * words_bytes(
            words,
        )[4 * i + 3],
        bytes_words(bytes).len() == bytes.len() / 4,
        bytes.len() % 4 == 0 ==> words_value(bytes_words(bytes)) == le_value(bytes),
        0 <= i < bytes.len() / 4 ==> bytes_words(bytes)[i] == bytes[4 * i] + 0x100 * bytes[4 * i
            + 1] + 0x1_0000 * bytes[4 * i + 2] + 0x100_0000 * bytes[4 * i + 3],
{
    lemma_words_bytes_value(words);
    if bytes.len() % 4 == 0 {
        lemma_bytes_words_value(bytes);
    }
    if 0 <= i < words.len() {
        let b = words_bytes(words);
        assert(b[4 * i] == word_bytes(words[i])[0]);
        assert(b[4 * i + 1] == word_bytes(words[i])[1]);
        assert(b[4 * i + 2] == word_bytes(words[i])[2]);
        assert(b[4 * i + 3] == word_bytes(words[i])[3]);
        law_word_is_little_endian(b, 4 * i, words[i]);
    }
    if 0 <= i < bytes.len() / 4 {
        law_word_is_little_endian(bytes, 4 * i, 0);
    }
}

/// The bytes of a word, as a number, are the word.
pub proof fn law_word_value(word: u32)
    ensures
        word_bytes(word).len() == 4,
        le_value(word_bytes(word)) == word,
{
    let words = seq![word];
    law_words_value_of_words(word, Seq::empty());
    assert(words =~= words + Seq::<u32>::empty());
    assert(words_bytes(words) =~= word_bytes(word));
    law_words_and_bytes(words, Seq::empty(), 0);
}

/// A number cut off to `len` words has `len` words, and is the number modulo 2^(32 * len).
pub proof fn law_number_cut_to_words(value: nat, len: nat)
    ensures
        nat_words(value, len).len() == len,
        words_value(nat_words(value, len)) == value % pow2(32 * len),
{
    lemma_nat_words_value(value, len);
}

/// Zero bytes are as many as asked for, and zero.
pub proof fn law_zeros_are_zero(len: nat, i: int)
    ensures
        zeros(len).len() == len,
        0 <= i < len ==> zeros(len)[i] == 0,
{
}

/// A 64-bit number has eight bytes, least significant first.
pub proof fn law_u64_is_little_endian(value: u64)
    ensures
        u64_bytes(value).len() == 8,
        le_value(u64_bytes(value)) == value,
{
    let low = (value % 0x1_0000_0000) as u32;
    let high = (value / 0x1_0000_0000) as u32;
    let words = seq![low, high];
    assert(u64_bytes(value) =~= words_bytes(words));
    lemma_words_bytes_value(words);
    let none = Seq::<u32>::empty();
    law_words_value_of_words(high, none);
    law_words_value_of_words(low, seq![high] + none);
    assert(words =~= seq![low] + (seq![high] + none));
}

/// A length in bits is that of the number in binary.
pub proof fn law_bit_length_bounds_number(value: nat, bits: nat)
    ensures
        is_bit_length(value, bits) <==> value < pow2(bits) && (value == 0 ==> bits == 0) && (value
            > 0 ==> bits > 0 && pow2((bits - 1) as nat) <= value),
{
    lemma_pow2_pos(bits);
}

/// A Montgomery constant is what makes the product with the modulus one less than a multiple of
/// 2^32.
pub proof fn law_m_prime_of_modulus(m_prime: u32, n: nat)
    ensures
        is_m_prime(m_prime, n) <==> (m_prime * n) % 0x1_0000_0000 == 0xffff_ffff,
{
}

/// A big number is that of its bytes, least significant first.
pub proof fn law_big_number_is_its_bytes(num: BigNumber)
    ensures
        num@ == le_value(num.bytes@),
{
}

} // verus!
