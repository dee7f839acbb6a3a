//! Little-endian numbers: byte strings, 32-bit word strings and their values.
use vstd::arithmetic::div_mod::lemma_basic_div;
use vstd::arithmetic::div_mod::lemma_div_denominator;
use vstd::arithmetic::div_mod::lemma_mod_breakdown;
use vstd::arithmetic::power2::lemma2_to64;
use vstd::arithmetic::power2::lemma_pow2_adds;
use vstd::arithmetic::power2::lemma_pow2_pos;
use vstd::arithmetic::power2::pow2;
use vstd::prelude::*;

verus! {

/// The number whose little-endian base-256 digits are `bytes`.
pub open spec fn le_value(bytes: Seq<u8>) -> nat
    decreases bytes.len(),
{
    if bytes.len() == 0 {
        0
    } else {
        bytes[0] as nat + 256 * le_value(bytes.skip(1))
    }
}

/// The number whose big-endian base-256 digits are `bytes`.
pub open spec fn be_value(bytes: Seq<u8>) -> nat {
    le_value(bytes.reverse())
}

/// The number whose little-endian base-2^32 digits are `words`.
pub open spec fn words_value(words: Seq<u32>) -> nat
    decreases words.len(),
{
    if words.len() == 0 {
        0
    } else {
        words[0] as nat + 0x1_0000_0000 * words_value(words.skip(1))
    }
}

/// The `len` low base-2^32 digits of `value`, least significant first.
pub open spec fn nat_words(value: nat, len: nat) -> Seq<u32> {
    Seq::new(len, |i: int| ((value / pow2((32 * i) as nat)) % 0x1_0000_0000) as u32)
}

/// The four bytes of a word, least significant first.
pub open spec fn word_bytes(word: u32) -> Seq<u8> {
    seq![
        (word % 256) as u8,
        ((word / 256) % 256) as u8,
        ((word / 65536) % 256) as u8,
        (word / 16777216) as u8,
    ]
}

/// The bytes of each word in turn, least significant byte first.
pub open spec fn words_bytes(words: Seq<u32>) -> Seq<u8> {
    Seq::new(4 * words.len(), |i: int| word_bytes(words[i / 4])[i % 4])
}

/// The word whose bytes, least significant first, start at `at`.
pub open spec fn word_at(bytes: Seq<u8>, at: int) -> u32 {
    (bytes[at] + 256 * bytes[at + 1] + 65536 * bytes[at + 2] + 16777216 * bytes[at + 3]) as u32
}

/// The bytes taken four at a time as little-endian words.
pub open spec fn bytes_words(bytes: Seq<u8>) -> Seq<u32> {
    Seq::new(bytes.len() / 4, |i: int| word_at(bytes, 4 * i))
}

/// `len` zero bytes.
pub open spec fn zeros(len: nat) -> Seq<u8> {
    Seq::new(len, |i: int| 0u8)
}

/// The bytes of a 64-bit number, least significant first.
pub open spec fn u64_bytes(value: u64) -> Seq<u8> {
    word_bytes((value % 0x1_0000_0000) as u32) + word_bytes((value / 0x1_0000_0000) as u32)
}

/// A word is recovered from its bytes.
pub proof fn lemma_word_round_trip(word: u32)
    ensures
        word_bytes(word).len() == 4,
        word_at(word_bytes(word), 0) == word,
{
}

/// The bytes of a word are the bytes it was read from.
pub proof fn lemma_word_at_bytes(bytes: Seq<u8>, at: int)
    requires
        0 <= at,
        at + 4 <= bytes.len(),
    ensures
        word_bytes(word_at(bytes, at)) == bytes.subrange(at, at + 4),
{
    let b1 = bytes[at + 1] as int;
    let b2 = bytes[at + 2] as int;
    let b3 = bytes[at + 3] as int;
    let word = word_at(bytes, at) as int;
    assert(word == bytes[at] + 256 * (b1 + 256 * (b2 + 256 * b3)));
    assert(word / 256 == b1 + 256 * (b2 + 256 * b3));
    assert(word / 65536 == b2 + 256 * b3);
    assert(word / 16777216 == b3);
    assert(word_bytes(word_at(bytes, at)) =~= bytes.subrange(at, at + 4));
}

/// Splitting words into bytes loses nothing.
pub proof fn lemma_words_round_trip(words: Seq<u32>)
    ensures
        bytes_words(words_bytes(words)) == words,
{
    let bytes = words_bytes(words);
    assert forall|i: int| 0 <= i < words.len() implies bytes_words(bytes)[i] == words[i] by {
        lemma_word_round_trip(words[i]);
        assert(bytes[4 * i] == word_bytes(words[i])[0]);
        assert(bytes[4 * i + 1] == word_bytes(words[i])[1]);
        assert(bytes[4 * i + 2] == word_bytes(words[i])[2]);
        assert(bytes[4 * i + 3] == word_bytes(words[i])[3]);
    }
    assert(bytes_words(bytes) =~= words);
}

/// Grouping whole words' worth of bytes loses nothing.
pub proof fn lemma_bytes_round_trip(bytes: Seq<u8>)
    requires
        bytes.len() % 4 == 0,
    ensures
        words_bytes(bytes_words(bytes)) == bytes,
{
    let words = bytes_words(bytes);
    assert forall|i: int| 0 <= i < bytes.len() implies words_bytes(words)[i] == bytes[i] by {
        lemma_word_at_bytes(bytes, 4 * (i / 4));
        assert(bytes.subrange(4 * (i / 4), 4 * (i / 4) + 4)[i % 4] == bytes[i]);
    }
    assert(words_bytes(words) =~= bytes);
}

/// The first word of a number, and what is left of it.
proof fn lemma_le_value_word(bytes: Seq<u8>)
    requires
        bytes.len() >= 4,
    ensures
        le_value(bytes) == word_at(bytes, 0) + 0x1_0000_0000 * le_value(bytes.skip(4)),
{
    assert(bytes.skip(1).skip(1) =~= bytes.skip(2));
    assert(bytes.skip(2).skip(1) =~= bytes.skip(3));
    assert(bytes.skip(3).skip(1) =~= bytes.skip(4));
    assert(le_value(bytes) == bytes[0] + 256 * le_value(bytes.skip(1)));
    assert(le_value(bytes.skip(1)) == bytes[1] + 256 * le_value(bytes.skip(2)));
    assert(le_value(bytes.skip(2)) == bytes[2] + 256 * le_value(bytes.skip(3)));
    assert(le_value(bytes.skip(3)) == bytes[3] + 256 * le_value(bytes.skip(4)));
}

/// Words and their bytes denote the same number.
pub proof fn lemma_words_bytes_value(words: Seq<u32>)
    ensures
        le_value(words_bytes(words)) == words_value(words),
    decreases words.len(),
{
    let bytes = words_bytes(words);
    if words.len() > 0 {
        let tail = words.skip(1);
        lemma_words_bytes_value(tail);
        assert forall|i: int| 0 <= i < 4 * tail.len() implies bytes.skip(4)[i] == words_bytes(
            tail,
        )[i] by {
            assert((i + 4) / 4 == i / 4 + 1);
            assert((i + 4) % 4 == i % 4);
        }
        assert(bytes.skip(4) =~= words_bytes(tail));
        lemma_le_value_word(bytes);
        lemma_words_round_trip(words);
        assert(bytes_words(bytes)[0] == word_at(bytes, 0));
    }
}

/// Whole words' worth of bytes and their words denote the same number.
pub proof fn lemma_bytes_words_value(bytes: Seq<u8>)
    requires
        bytes.len() % 4 == 0,
    ensures
        words_value(bytes_words(bytes)) == le_value(bytes),
{
    lemma_bytes_round_trip(bytes);
    lemma_words_bytes_value(bytes_words(bytes));
}

/// Zero bytes at the significant end do not change the number.
pub proof fn lemma_le_value_zeros(bytes: Seq<u8>, count: nat)
    ensures
        le_value(bytes + zeros(count)) == le_value(bytes),
    decreases bytes.len() + count,
{
    let padded = bytes + zeros(count);
    if bytes.len() > 0 {
        lemma_le_value_zeros(bytes.skip(1), count);
        assert(padded.skip(1) =~= bytes.skip(1) + zeros(count));
    } else if count > 0 {
        lemma_le_value_zeros(bytes, (count - 1) as nat);
        assert(padded.skip(1) =~= bytes + zeros((count - 1) as nat));
    }
}

/// The most significant byte counts 256 to the power of its place.
pub proof fn lemma_le_value_push(bytes: Seq<u8>, top: u8)
    ensures
        le_value(bytes.push(top)) == le_value(bytes) + top * pow2(8 * bytes.len()),
    decreases bytes.len(),
{
    lemma2_to64();
    let all = bytes.push(top);
    if bytes.len() == 0 {
        assert(all.skip(1) =~= Seq::<u8>::empty());
        assert(le_value(all) == all[0] + 256 * le_value(all.skip(1)));
        assert(le_value(Seq::<u8>::empty()) == 0);
        assert(top * pow2(0) == top) by (nonlinear_arith)
            requires
                pow2(0) == 1,
        ;
    } else {
        let tail = bytes.skip(1);
        lemma_le_value_push(tail, top);
        assert(all.skip(1) =~= tail.push(top));
        assert(8 * bytes.len() == 8 + 8 * tail.len());
        lemma_pow2_adds(8, 8 * tail.len());
        assert(le_value(bytes) == bytes[0] + 256 * le_value(tail));
        assert(le_value(all) == bytes[0] + 256 * le_value(tail.push(top)));
        let p = pow2(8 * tail.len()) as int;
        assert(256 * (top * p) == top * (pow2(8) * p)) by (nonlinear_arith)
            requires
                pow2(8) == 256,
        ;
        assert(le_value(all) == le_value(bytes) + top * pow2(8 * bytes.len()));
    }
}

/// A number of `n` bytes is less than 256 to the power of `n`.
pub proof fn lemma_le_value_bound(bytes: Seq<u8>)
    ensures
        le_value(bytes) < pow2(8 * bytes.len()),
    decreases bytes.len(),
{
    lemma2_to64();
    if bytes.len() > 0 {
        lemma_le_value_bound(bytes.skip(1));
        lemma_pow2_adds(8, (8 * (bytes.len() - 1)) as nat);
    }
}

/// The digits of a number that is given by its words are those words, then zeros.
pub proof fn lemma_words_digit(words: Seq<u32>, i: nat)
    ensures
        (words_value(words) / pow2(32 * i)) % 0x1_0000_0000 == if i < words.len() {
            words[i as int] as nat
        } else {
            0
        },
    decreases i,
{
    lemma2_to64();
    lemma_pow2_pos(32 * i);
    let value = words_value(words);
    if words.len() == 0 {
        assert(0nat / pow2(32 * i) == 0) by {
            lemma_basic_div(0, pow2(32 * i) as int);
        }
    } else if i == 0 {
        assert(value / 1 == value);
    } else {
        let tail = words.skip(1);
        let j = (i - 1) as nat;
        lemma_words_digit(tail, j);
        lemma_pow2_adds(32, 32 * j);
        lemma_pow2_pos(32 * j);
        lemma_div_denominator(value as int, 0x1_0000_0000, pow2(32 * j) as int);
        assert(value / 0x1_0000_0000 == words_value(tail));
        if i < words.len() {
            assert(tail[j as int] == words[i as int]);
        }
    }
}

/// Words cut off or zero-filled to `len` are the `len` low digits of their number.
pub proof fn lemma_fixed_words(words: Seq<u32>, fixed: Seq<u32>)
    requires
        forall|i: int|
            0 <= i < fixed.len() ==> fixed[i] == if i < words.len() {
                words[i]
            } else {
                0
            },
    ensures
        fixed == nat_words(words_value(words), fixed.len()),
{
    let digits = nat_words(words_value(words), fixed.len());
    assert forall|i: int| 0 <= i < fixed.len() implies fixed[i] == digits[i] by {
        lemma_words_digit(words, i as nat);
    }
    assert(fixed =~= digits);
}

/// The `len` low digits of a number denote the number modulo 2^(32 * len).
pub proof fn lemma_nat_words_value(value: nat, len: nat)
    ensures
        words_value(nat_words(value, len)) == value % pow2(32 * len),
    decreases len,
{
    lemma2_to64();
    let words = nat_words(value, len);
    if len == 0 {
        assert(value % 1 == 0);
    } else {
        let upper = value / 0x1_0000_0000;
        let rest = (len - 1) as nat;
        lemma_nat_words_value(upper, rest);
        assert forall|i: int| 0 <= i < rest implies words.skip(1)[i] == nat_words(
            upper,
            rest,
        )[i] by {
            lemma_pow2_adds(32, (32 * i) as nat);
            lemma_pow2_pos((32 * i) as nat);
            lemma_div_denominator(value as int, 0x1_0000_0000, pow2((32 * i) as nat) as int);
            assert(32 * (i + 1) == 32 + 32 * i);
        }
        assert(words.skip(1) =~= nat_words(upper, rest));
        assert(words[0] == value % 0x1_0000_0000) by {
            assert(value / 1 == value);
        }
        lemma_pow2_adds(32, 32 * rest);
        lemma_pow2_pos(32 * rest);
        lemma_mod_breakdown(value as int, 0x1_0000_0000, pow2(32 * rest) as int);
    }
}

/// Splits a word into its bytes, least significant first.
pub fn word_to_bytes(word: u32) -> (bytes: [u8; 4])
    ensures
        bytes@ == word_bytes(word),
{
    let bytes = [
        (word % 256) as u8,
        ((word / 256) % 256) as u8,
        ((word / 65536) % 256) as u8,
        (word / 16777216) as u8,
    ];
    assert(bytes@ =~= word_bytes(word));
    bytes
}

/// Reads the little-endian word whose first byte is `bytes[at]`.
pub fn read_word(bytes: &[u8], at: usize) -> (word: u32)
    requires
        at + 4 <= bytes@.len(),
    ensures
        word == word_at(bytes@, at as int),
{
    bytes[at] as u32 + 256 * (bytes[at + 1] as u32) + 65536 * (bytes[at + 2] as u32) + 16777216 * (
    bytes[at + 3] as u32)
}

/// Groups bytes into little-endian words; up to three bytes left over are not used.
pub fn bytes_to_words(bytes: &[u8]) -> (words: Vec<u32>)
    ensures
        words@ == bytes_words(bytes@),
{
    let mut words: Vec<u32> = Vec::new();
    let count: usize = bytes.len() / 4;
    for i in 0..count
        invariant
            count == bytes@.len() / 4,
            bytes@.len() <= usize::MAX,
            words@.len() == i,
            forall|j: int| 0 <= j < i ==> words@[j] == word_at(bytes@, 4 * j),
    {
        words.push(read_word(bytes, 4 * i));
    }
    assert(words@ =~= bytes_words(bytes@));
    words
}

/// The bytes of `bytes` as an array.
pub fn to_array<const N: usize>(bytes: &[u8]) -> (array: [u8; N])
    requires
        bytes@.len() == N,
    ensures
        array@ == bytes@,
{
    let mut array = vstd::array::array_fill_for_copy_types::<u8, N>(0);
    for i in 0..N
        invariant
            bytes@.len() == N,
            forall|j: int| 0 <= j < i ==> array@[j] == bytes@[j],
    {
        array[i] = bytes[i];
    }
    assert(array@ =~= bytes@);
    array
}

/// Appends zero bytes up to a length of `len`.
pub fn pad_to(bytes: Vec<u8>, len: usize) -> (padded: Vec<u8>)
    requires
        bytes@.len() <= len,
    ensures
        padded@ == bytes@ + zeros((len - bytes@.len()) as nat),
{
    let mut padded = bytes;
    while padded.len() < len
        invariant
            bytes@.len() <= padded@.len() <= len,
            padded@ == bytes@ + zeros((padded@.len() - bytes@.len()) as nat),
        decreases len - padded@.len(),
    {
        padded.push(0);
        assert(padded@ =~= bytes@ + zeros((padded@.len() - bytes@.len()) as nat));
    }
    padded
}

} // verus!
