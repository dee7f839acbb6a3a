//! Natural numbers of any size, and what the provisioning computes with them.
use crate::words::bytes_words;
use crate::words::le_value;
use crate::words::lemma_bytes_words_value;
use crate::words::lemma_le_value_bound;
use crate::words::lemma_le_value_push;
use crate::words::lemma_le_value_zeros;
use crate::words::word_at;
use crate::words::words_value;
use crate::words::zeros;
use num_traits::One;
use rsa::BigUint;
use vstd::arithmetic::power2::lemma2_to64;
use vstd::arithmetic::power2::lemma_pow2_adds;
use vstd::arithmetic::power2::lemma_pow2_pos;
use vstd::arithmetic::power2::lemma_pow2_strictly_increases;
use vstd::arithmetic::power2::pow2;
use vstd::prelude::*;

verus! {

/// A natural number, by its bytes, least significant first. Zero bytes at the end are allowed.
#[derive(Debug)]
pub struct BigNumber {
    pub bytes: Vec<u8>,
}

impl View for BigNumber {
    type V = nat;

    open spec fn view(&self) -> nat {
        le_value(self.bytes@)
    }
}

/// `bits` is the length of `value` in binary.
pub open spec fn is_bit_length(value: nat, bits: nat) -> bool {
    if value == 0 {
        bits == 0
    } else {
        bits > 0 && pow2((bits - 1) as nat) <= value < pow2(bits)
    }
}

/// A number has one length.
pub proof fn lemma_bit_length_unique(value: nat, bits1: nat, bits2: nat)
    requires
        is_bit_length(value, bits1),
        is_bit_length(value, bits2),
    ensures
        bits1 == bits2,
{
    if value > 0 {
        if bits1 < bits2 {
            lemma_pow2_ordered(bits1, (bits2 - 1) as nat);
        }
        if bits2 < bits1 {
            lemma_pow2_ordered(bits2, (bits1 - 1) as nat);
        }
    }
}

proof fn lemma_pow2_ordered(low: nat, high: nat)
    requires
        low <= high,
    ensures
        pow2(low) <= pow2(high),
{
    if low < high {
        lemma_pow2_strictly_increases(low, high);
    }
}

/// `<BigUint as Shl<usize>>::shl` of num-bigint-dig, applied to `BigUint::one()` of num-traits:
/// the result, given by its little-endian bytes, is the power of two. The length in bits of the
/// result, rounded up to whole digits, has to fit into a `usize`.
#[verifier::external_body]
fn one_shifted_left(bits: usize) -> (bytes: Vec<u8>)
    requires
        bits <= usize::MAX - 128,
    ensures
        le_value(bytes@) == pow2(bits as nat),
{
    (BigUint::one() << bits).to_bytes_le()
}

/// `<BigUint as Rem>::rem` of num-bigint-dig, on numbers given by their little-endian bytes:
/// the result is the remainder of the division. Division by zero panics.
#[verifier::external_body]
fn remainder(value: &[u8], modulus: &[u8]) -> (bytes: Vec<u8>)
    requires
        le_value(modulus@) != 0,
    ensures
        le_value(bytes@) == le_value(value@) % le_value(modulus@),
{
    (BigUint::from_bytes_le(value) % BigUint::from_bytes_le(modulus)).to_bytes_le()
}

impl BigNumber {
    /// The power of two with this exponent.
    pub fn power_of_two(bits: usize) -> (num: BigNumber)
        requires
            bits <= usize::MAX - 128,
        ensures
            num@ == pow2(bits as nat),
    {
        BigNumber { bytes: one_shifted_left(bits) }
    }

    /// The remainder of the division by `modulus`.
    pub fn modulo(&self, modulus: &BigNumber) -> (num: BigNumber)
        requires
            modulus@ != 0,
        ensures
            num@ == self@ % modulus@,
    {
        BigNumber { bytes: remainder(self.bytes.as_slice(), modulus.bytes.as_slice()) }
    }

    /// The number of bytes up to the last one that is not zero.
    fn significant_bytes(&self) -> (len: usize)
        ensures
            len <= self.bytes@.len(),
            len > 0 ==> self.bytes@[len - 1] != 0,
            le_value(self.bytes@.take(len as int)) == self@,
    {
        let mut len: usize = self.bytes.len();
        while len > 0 && self.bytes[len - 1] == 0
            invariant
                len <= self.bytes@.len(),
                forall|i: int| len <= i < self.bytes@.len() ==> self.bytes@[i] == 0,
            decreases len,
        {
            len = len - 1;
        }
        proof {
            let head = self.bytes@.take(len as int);
            let rest = (self.bytes@.len() - len) as nat;
            assert(self.bytes@ =~= head + zeros(rest));
            lemma_le_value_zeros(head, rest);
        }
        len
    }

    /// Returns the length of the number in bits.
    pub fn bits(&self) -> (bits: u128)
        ensures
            is_bit_length(self@, bits as nat),
    {
        let len: usize = self.significant_bytes();
        if len == 0 {
            assert(self.bytes@.take(0) =~= Seq::<u8>::empty());
            return 0;
        }
        let top: u8 = self.bytes[len - 1];
        let mut top_bits: u32 = 0;
        let mut left: u8 = top;
        proof {
            lemma2_to64();
        }
        while left > 0
            invariant
                top > 0,
                left == 0 ==> top_bits > 0 && pow2((top_bits - 1) as nat) <= top < pow2(
                    top_bits as nat,
                ),
                left > 0 ==> left * pow2(top_bits as nat) <= top < (left + 1) * pow2(
                    top_bits as nat,
                ),
                top_bits + left <= 255,
            decreases left,
        {
            proof {
                lemma_pow2_adds(1, top_bits as nat);
                lemma2_to64();
                let p = pow2(top_bits as nat) as int;
                let half = left / 2;
                assert(pow2(1) * p == 2 * p) by (nonlinear_arith)
                    requires
                        pow2(1) == 2,
                ;
                assert(half * (2 * p) <= left * p) by (nonlinear_arith)
                    requires
                        2 * half <= left,
                        p >= 0,
                ;
                assert((left + 1) * p <= (half + 1) * (2 * p)) by (nonlinear_arith)
                    requires
                        left + 1 <= 2 * (half + 1),
                        p >= 0,
                ;
                assert(left == 1 ==> left * p == p && (left + 1) * p == 2 * p) by (nonlinear_arith);
            }
            left = left / 2;
            top_bits = top_bits + 1;
        }
        let bits: u128 = 8 * ((len - 1) as u128) + top_bits as u128;
        proof {
            let low = self.bytes@.take(len - 1);
            let unit = pow2(8 * low.len()) as int;
            assert(self.bytes@.take(len as int) =~= low.push(top));
            lemma_le_value_push(low, top);
            lemma_le_value_bound(low);
            lemma_pow2_adds(8 * low.len(), (top_bits - 1) as nat);
            lemma_pow2_adds(8 * low.len(), top_bits as nat);
            lemma_pow2_pos(8 * low.len());
            lemma_pow2_pos((top_bits - 1) as nat);
            let lower = pow2((top_bits - 1) as nat) as int;
            let upper = pow2(top_bits as nat) as int;
            assert(unit * lower <= top * unit) by (nonlinear_arith)
                requires
                    lower <= top,
                    unit > 0,
            ;
            assert((top + 1) * unit <= unit * upper) by (nonlinear_arith)
                requires
                    top + 1 <= upper,
                    unit > 0,
            ;
            assert((top + 1) * unit == top * unit + unit) by (nonlinear_arith);
            assert(unit * lower > 0) by (nonlinear_arith)
                requires
                    unit > 0,
                    lower > 0,
            ;
        }
        bits
    }
}

/// The byte at `base + k`, or zero past the end.
fn byte_or_zero(bytes: &[u8], base: usize, k: usize) -> (byte: u8)
    requires
        base <= bytes@.len(),
    ensures
        byte == if base + k < bytes@.len() {
            bytes@[base + k]
        } else {
            0
        },
{
    if k < bytes.len() - base {
        bytes[base + k]
    } else {
        0
    }
}

/// Splits a number into 32-bit words, least significant first; the most significant one is not
/// zero, but for the number zero, which has the one word zero.
pub fn big_number_to_words(num: &BigNumber) -> (words: Vec<u32>)
    ensures
        words_value(words@) == num@,
        words@.len() >= 1,
        words@.len() > 1 ==> words@.last() != 0,
{
    let len: usize = num.significant_bytes();
    let bytes = &num.bytes.as_slice()[0..len];
    let count: usize = if len == 0 {
        1
    } else {
        (len - 1) / 4 + 1
    };
    let ghost padded = bytes@ + zeros((4 * count - len) as nat);
    let mut words: Vec<u32> = Vec::new();
    for i in 0..count
        invariant
            bytes@.len() == len,
            len <= usize::MAX,
            count == if len == 0 {
                1int
            } else {
                (len - 1) / 4 + 1
            },
            padded == bytes@ + zeros((4 * count - len) as nat),
            words@.len() == i,
            forall|j: int| 0 <= j < i ==> words@[j] == word_at(padded, 4 * j),
    {
        let base: usize = 4 * i;
        let b0 = byte_or_zero(bytes, base, 0);
        let b1 = byte_or_zero(bytes, base, 1);
        let b2 = byte_or_zero(bytes, base, 2);
        let b3 = byte_or_zero(bytes, base, 3);
        assert(word_at(padded, 4 * i) == b0 + 256 * b1 + 65536 * b2 + 16777216 * b3);
        words.push(
            b0 as u32 + 256 * (b1 as u32) + 65536 * (b2 as u32) + 16777216 * (b3 as u32),
        );
    }
    proof {
        assert(bytes@ =~= num.bytes@.take(len as int));
        assert(words@ =~= bytes_words(padded));
        lemma_padded_words(bytes@, (4 * count - len) as nat);
    }
    words
}

/// A word one of whose bytes is not zero is not zero.
proof fn lemma_word_with_nonzero_byte(bytes: Seq<u8>, at: int, place: int)
    requires
        0 <= at <= place < at + 4 <= bytes.len(),
        bytes[place] != 0,
    ensures
        word_at(bytes, at) != 0,
{
    let sum = bytes[at] + 256 * bytes[at + 1] + 65536 * bytes[at + 2] + 16777216 * bytes[at + 3];
    assert(place == at || place == at + 1 || place == at + 2 || place == at + 3);
    assert(0 < sum <= u32::MAX);
}

/// Zero-filled to whole words, a number whose most significant byte is not zero is given by
/// its words, the most significant one of which is not zero if the fill is less than a word.
proof fn lemma_padded_words(bytes: Seq<u8>, fill: nat)
    requires
        (bytes.len() + fill) % 4 == 0,
    ensures
        words_value(bytes_words(bytes + zeros(fill))) == le_value(bytes),
        fill < 4 && bytes.len() > 0 && bytes.last() != 0 ==> bytes_words(
            bytes + zeros(fill),
        ).last() != 0,
{
    let padded = bytes + zeros(fill);
    let words = bytes_words(padded);
    lemma_le_value_zeros(bytes, fill);
    lemma_bytes_words_value(padded);
    if fill < 4 && bytes.len() > 0 && bytes.last() != 0 {
        let at = padded.len() - 4;
        assert(padded[bytes.len() - 1] != 0);
        assert(at <= bytes.len() - 1 < at + 4);
        assert(words.last() == word_at(padded, at));
        lemma_word_with_nonzero_byte(padded, at, bytes.len() - 1);
    }
}

} // verus!
