//! The private key material of the DS peripheral: its plaintext and its encryption.
use crate::bignum::big_number_to_words;
use crate::bignum::BigNumber;
use crate::crypto::aes256_cbc;
use crate::crypto::aes256_cbc_of;
use crate::crypto::hmac_sha256;
use crate::crypto::hmac_sha256_of;
use crate::crypto::sha256;
use crate::crypto::sha256_of;
use crate::key::RsaPrivateKey;
use crate::montgomery::is_m_prime;
use crate::montgomery::lemma_m_prime_unique;
use crate::montgomery::m_prime_of;
use crate::montgomery::montgomery_constant;
use crate::provisioning_laws::law_plaintext_tells_params;
use crate::words::lemma_fixed_words;
use crate::words::nat_words;
use crate::words::pad_to;
use crate::words::word_bytes;
use crate::words::word_to_bytes;
use crate::words::words_bytes;
use crate::words::words_value;
use crate::words::zeros;
use vstd::arithmetic::power2::pow2;
use vstd::prelude::*;

verus! {

/// Size of the keys that are provisioned, in bits.
pub const DS_KEY_SIZE_BITS: usize = 3072;

/// Size of the keys that are provisioned, in bytes.
pub const DS_KEY_SIZE_BYTES: usize = 384;

/// Size of the keys that are provisioned, in words.
pub const DS_NUM_WORDS: usize = 96;

/// Why key material cannot be prepared.
#[derive(Debug, Clone, Copy, PartialEq, Eq, Structural)]
pub enum ParamsError {
    /// The modulus is even, so it has no inverse modulo 2^32 and no M'.
    NoModularInverse,
    /// The plaintext is not made of whole cipher blocks.
    Encryption,
}

impl ParamsError {
    /// What the user is told.
    pub open spec fn text(self) -> Seq<char> {
        match self {
            ParamsError::NoModularInverse => "Failed to compute modular inverse for m_prime"@,
            ParamsError::Encryption => "Encryption error: PadError"@,
        }
    }

    /// Returns what the user is told.
    pub fn message(&self) -> (text: String)
        ensures
            text@ == self.text(),
    {
        match self {
            ParamsError::NoModularInverse => {
                "Failed to compute modular inverse for m_prime".to_owned()
            },
            ParamsError::Encryption => "Encryption error: PadError".to_owned(),
        }
    }
}

/// The plaintext parameters of the DS peripheral for one key.
#[derive(Debug)]
pub struct EspDsPData {
    /// Private exponent, little-endian words
    pub y: [u32; 96],
    /// Modulus, little-endian words
    pub m: [u32; 96],
    /// Montgomery parameter 2^6144 mod M, little-endian words
    pub rb: [u32; 96],
    /// Montgomery constant -M^-1 mod 2^32
    pub m_prime: u32,
    /// Key size in words, less one
    pub length: u32,
}

/// What [`EspDsPData`] holds.
#[verifier::ext_equal]
pub struct PlainParams {
    pub y: Seq<u32>,
    pub m: Seq<u32>,
    pub rb: Seq<u32>,
    pub m_prime: u32,
    pub length: u32,
}

impl View for EspDsPData {
    type V = PlainParams;

    open spec fn view(&self) -> PlainParams {
        PlainParams {
            y: self.y@,
            m: self.m@,
            rb: self.rb@,
            m_prime: self.m_prime,
            length: self.length,
        }
    }
}

/// The plaintext parameters of the key with modulus `n` and private exponent `d`, numbers being
/// cut off to 3072 bits.
pub open spec fn plain_params_of(n: nat, d: nat) -> PlainParams {
    PlainParams {
        y: nat_words(d, 96),
        m: nat_words(n, 96),
        rb: nat_words(pow2(6144) % n, 96),
        m_prime: m_prime_of(n),
        length: 95,
    }
}

/// Copies words into an array of fixed size, cutting off or zero-filling.
pub fn vec_to_fixed(vec: &[u32], fixed_len: usize) -> (arr: [u32; 96])
    requires
        vec@.len() <= 96 || fixed_len <= 96,
    ensures
        forall|i: int|
            0 <= i < 96 ==> arr@[i] == if i < vec@.len() && i < fixed_len {
                vec@[i]
            } else {
                0
            },
{
    let mut arr = [0u32;96];
    let count: usize = if vec.len() < fixed_len {
        vec.len()
    } else {
        fixed_len
    };
    for i in 0..count
        invariant
            count <= vec@.len(),
            count <= 96,
            forall|j: int|
                0 <= j < 96 ==> arr@[j] == if j < i {
                    vec@[j]
                } else {
                    0
                },
    {
        arr[i] = vec[i];
    }
    arr
}

/// The 96 low words of a number.
fn fixed_words(num: &BigNumber) -> (arr: [u32; 96])
    ensures
        arr@ == nat_words(num@, 96),
{
    let words = big_number_to_words(num);
    let arr = vec_to_fixed(words.as_slice(), DS_NUM_WORDS);
    proof {
        lemma_fixed_words(words@, arr@);
    }
    arr
}

impl EspDsPData {
    /// Prepares the parameters of a key, which fails if and only if its modulus is even.
    pub fn new(rsa_private: &RsaPrivateKey) -> (res: Result<EspDsPData, ParamsError>)
        ensures
            match res {
                Ok(data) => {
                    &&& rsa_private.n@ % 2 == 1
                    &&& data@ == plain_params_of(rsa_private.n@, rsa_private.d@)
                    &&& is_m_prime(data.m_prime, rsa_private.n@)
                },
                Err(e) => rsa_private.n@ % 2 == 0 && e == ParamsError::NoModularInverse,
            },
    {
        let y = fixed_words(&rsa_private.d);
        let m_vec = big_number_to_words(&rsa_private.n);
        let m = vec_to_fixed(m_vec.as_slice(), DS_NUM_WORDS);
        proof {
            lemma_fixed_words(m_vec@, m@);
        }
        let length: u32 = 95;
        let n0: u32 = m_vec[0];
        assert(rsa_private.n@ == n0 + 0x1_0000_0000 * words_value(m_vec@.skip(1)));
        let m_prime: u32 = match montgomery_constant(n0) {
            Some(m_prime) => m_prime,
            None => return Err(ParamsError::NoModularInverse),
        };
        proof {
            assert(is_m_prime(m_prime, rsa_private.n@));
            lemma_m_prime_unique(m_prime, m_prime_of(rsa_private.n@), rsa_private.n@);
        }
        let rr = BigNumber::power_of_two(DS_KEY_SIZE_BITS * 2);
        let rb = fixed_words(&rr.modulo(&rsa_private.n));
        let data = EspDsPData { y, m, rb, m_prime, length };
        assert(data@ =~= plain_params_of(rsa_private.n@, rsa_private.d@));
        Ok(data)
    }
}

/// The bytes of the first `max_size / 4` words, zero-filled to `max_size` bytes.
pub open spec fn number_bytes(words: Seq<u32>, max_size: nat) -> Seq<u8> {
    let count = if max_size / 4 < words.len() {
        max_size / 4
    } else {
        words.len()
    };
    words_bytes(words.take(count as int)) + zeros((max_size - 4 * count) as nat)
}

/// Writes words out as `max_size` bytes, little-endian, cutting off or zero-filling.
pub fn number_as_bytes(words: &[u32; 96], max_size: usize) -> (bytes: Vec<u8>)
    requires
        max_size <= isize::MAX,
    ensures
        bytes@ == number_bytes(words@, max_size as nat),
{
    let mut bytes: Vec<u8> = Vec::with_capacity(max_size);
    let count: usize = if max_size / 4 < 96 {
        max_size / 4
    } else {
        96
    };
    for i in 0..count
        invariant
            count <= 96,
            bytes@ == words_bytes(words@.take(i as int)),
    {
        let word = word_to_bytes(words[i]);
        bytes.extend_from_slice(word.as_slice());
        assert(bytes@ =~= words_bytes(words@.take(i + 1)));
    }
    pad_to(bytes, max_size)
}

/// The three numbers of the plaintext: Y, M and Rb.
pub open spec fn number_part(p: PlainParams) -> Seq<u8> {
    words_bytes(p.y) + words_bytes(p.m) + words_bytes(p.rb)
}

/// M' and the length, as they stand in the plaintext.
pub open spec fn tail_part(p: PlainParams) -> Seq<u8> {
    word_bytes(p.m_prime) + word_bytes(p.length)
}

/// What the digest in the plaintext is taken of: `Y || M || Rb || M' || length`, without the
/// initialization vector.
pub open spec fn digest_input(p: PlainParams) -> Seq<u8> {
    number_part(p) + tail_part(p)
}

/// The plaintext `Y || M || Rb || MD || M' || length || 0x08 * 8` with the digest `md`.
pub open spec fn plaintext_with(p: PlainParams, md: Seq<u8>) -> Seq<u8> {
    number_part(p) + md + tail_part(p) + Seq::new(8, |i: int| 0x08u8)
}

/// The plaintext of parameters.
pub open spec fn plaintext(p: PlainParams) -> Seq<u8> {
    plaintext_with(p, sha256_of(digest_input(p)))
}

/// The initialization vector, then the encrypted plaintext.
pub open spec fn sealed(p: PlainParams, aes_key: Seq<u8>, iv: Seq<u8>) -> Seq<u8> {
    iv + aes256_cbc_of(aes_key, iv, plaintext(p))
}

/// Writes out Y, M and Rb.
fn push_numbers(bytes: &mut Vec<u8>, ds_data: &EspDsPData)
    ensures
        final(bytes)@ == old(bytes)@ + number_part(ds_data@),
{
    let ghost start = bytes@;
    let max_key_size: usize = DS_KEY_SIZE_BYTES;
    let y_bytes = number_as_bytes(&ds_data.y, max_key_size);
    let m_bytes = number_as_bytes(&ds_data.m, max_key_size);
    let rb_bytes = number_as_bytes(&ds_data.rb, max_key_size);
    proof {
        lemma_full_number(ds_data.y@);
        lemma_full_number(ds_data.m@);
        lemma_full_number(ds_data.rb@);
    }
    bytes.extend_from_slice(y_bytes.as_slice());
    bytes.extend_from_slice(m_bytes.as_slice());
    bytes.extend_from_slice(rb_bytes.as_slice());
    assert(bytes@ =~= start + number_part(ds_data@));
}

/// Writes out M' and the length.
fn push_tail(bytes: &mut Vec<u8>, ds_data: &EspDsPData)
    ensures
        final(bytes)@ == old(bytes)@ + tail_part(ds_data@),
{
    let ghost start = bytes@;
    bytes.extend_from_slice(word_to_bytes(ds_data.m_prime).as_slice());
    bytes.extend_from_slice(word_to_bytes(ds_data.length).as_slice());
    assert(bytes@ =~= start + tail_part(ds_data@));
}

/// Assembles what the digest in the plaintext is taken of.
pub fn assemble_digest_input(ds_data: &EspDsPData) -> (md_in: Vec<u8>)
    ensures
        md_in@ == digest_input(ds_data@),
{
    let mut md_in: Vec<u8> = Vec::new();
    push_numbers(&mut md_in, ds_data);
    push_tail(&mut md_in, ds_data);
    assert(md_in@ =~= digest_input(ds_data@));
    md_in
}

/// Assembles the plaintext of 1200 bytes with the digest `md`.
pub fn assemble_plaintext(ds_data: &EspDsPData, md: &[u8; 32]) -> (p: Vec<u8>)
    ensures
        p@ == plaintext_with(ds_data@, md@),
        p@.len() == 1200,
{
    let mut p: Vec<u8> = Vec::new();
    push_numbers(&mut p, ds_data);
    p.extend_from_slice(md.as_slice());
    push_tail(&mut p, ds_data);
    let padding = [0x08u8;8];
    p.extend_from_slice(padding.as_slice());
    assert(p@ =~= plaintext_with(ds_data@, md@));
    p
}

/// The numbers have the width of the peripheral.
pub open spec fn is_whole(p: PlainParams) -> bool {
    p.y.len() == 96 && p.m.len() == 96 && p.rb.len() == 96
}

/// What encrypted parameters start with: the initialization vector and the encrypted Y and M,
/// which depend on nothing that follows them in the plaintext.
pub open spec fn sealed_start(y: Seq<u32>, m: Seq<u32>, aes_key: Seq<u8>, iv: Seq<u8>) -> Seq<
    u8,
> {
    iv + aes256_cbc_of(aes_key, iv, words_bytes(y) + words_bytes(m))
}

/// Encrypts the parameters under an AES key of 32 bytes and an initialization vector of 16.
///
/// The result tells the parameters: no others are encrypted to it.
pub fn encrypt_private_key_material(ds_data: &EspDsPData, aes_key: &[u8], iv: &[u8]) -> (res:
    Result<Vec<u8>, ParamsError>)
    requires
        aes_key@.len() == 32,
        iv@.len() == 16,
    ensures
        res matches Ok(iv_and_ct) && {
            &&& iv_and_ct@ == sealed(ds_data@, aes_key@, iv@)
            &&& iv_and_ct@.len() == 1216
            &&& plaintext(ds_data@).len() == 1200
            &&& iv_and_ct@.take(784) == sealed_start(ds_data@.y, ds_data@.m, aes_key@, iv@)
            &&& forall|other: PlainParams|
                is_whole(other) && plaintext(other).len() == 1200 && #[trigger] sealed(
                    other,
                    aes_key@,
                    iv@,
                ) == iv_and_ct@ ==> other == ds_data@
        },
{
    let md_in = assemble_digest_input(ds_data);
    let md = sha256(md_in.as_slice());
    let p = assemble_plaintext(ds_data, &md);
    let ct = match aes256_cbc(aes_key, iv, p.as_slice()) {
        Ok(ct) => ct,
        Err(_) => return Err(ParamsError::Encryption),
    };
    let mut iv_and_ct: Vec<u8> = Vec::new();
    iv_and_ct.extend_from_slice(iv);
    iv_and_ct.extend_from_slice(ct.as_slice());
    proof {
        let plain = ds_data@;
        assert(iv_and_ct@ =~= sealed(plain, aes_key@, iv@));
        assert(p@.take(768) =~= words_bytes(plain.y) + words_bytes(plain.m));
        assert(iv_and_ct@.take(784) =~= iv@ + ct@.take(768));
        assert forall|other: PlainParams|
            is_whole(other) && plaintext(other).len() == 1200 && #[trigger] sealed(
                other,
                aes_key@,
                iv@,
            ) == iv_and_ct@ implies other == plain by {
            let other_ct = aes256_cbc_of(aes_key@, iv@, plaintext(other));
            assert(sealed(other, aes_key@, iv@).skip(16) =~= other_ct);
            assert(iv_and_ct@.skip(16) =~= ct@);
            law_plaintext_tells_params(
                other,
                sha256_of(digest_input(other)),
                plain,
                sha256_of(digest_input(plain)),
            );
        }
    }
    Ok(iv_and_ct)
}

/// All words of a number take all of its bytes.
proof fn lemma_full_number(words: Seq<u32>)
    requires
        words.len() == 96,
    ensures
        number_bytes(words, 384) == words_bytes(words),
{
    assert(words.take(96) =~= words);
    assert(number_bytes(words, 384) =~= words_bytes(words));
}

/// The initialization vector of the encrypted parameters.
pub open spec fn ds_iv() -> Seq<u8> {
    seq![
        0xb8u8, 0xb4, 0x69, 0x18, 0x28, 0xa3, 0x91, 0xd9, 0xd6, 0x62, 0x85, 0x8c, 0xc9, 0x79, 0x48,
        0x86,
    ]
}

/// The message whose HMAC is the AES key.
pub open spec fn key_message() -> Seq<u8> {
    Seq::new(32, |i: int| 0xffu8)
}

/// The ciphertext of the parameters of a key under an HMAC key.
pub open spec fn ds_ciphertext_of(n: nat, d: nat, hmac_key: Seq<u8>) -> Seq<u8> {
    aes256_cbc_of(
        hmac_sha256_of(hmac_key, key_message()),
        ds_iv(),
        plaintext(plain_params_of(n, d)),
    )
}

/// The encrypted parameters of a key under an HMAC key.
pub open spec fn ds_params_of(n: nat, d: nat, hmac_key: Seq<u8>) -> Seq<u8> {
    ds_iv() + ds_ciphertext_of(n, d, hmac_key)
}

/// Prepares the parameters of a key and encrypts them under the AES key that the HMAC key
/// gives.
pub fn encrypt_ds_params(rsa_private: &RsaPrivateKey, hmac_key: &[u8; 32]) -> (res: Result<
    Vec<u8>,
    ParamsError,
>)
    ensures
        match res {
            Ok(params) => {
                &&& rsa_private.n@ % 2 == 1
                &&& params@ == ds_params_of(rsa_private.n@, rsa_private.d@, hmac_key@)
                &&& params@.len() == 1216
            },
            Err(e) => rsa_private.n@ % 2 == 0 && e == ParamsError::NoModularInverse,
        },
{
    let message = [0xffu8;32];
    assert(message@ =~= key_message());
    let aes_key = hmac_sha256(hmac_key.as_slice(), message.as_slice());
    let iv: [u8; 16] = [
        0xb8, 0xb4, 0x69, 0x18, 0x28, 0xa3, 0x91, 0xd9, 0xd6, 0x62, 0x85, 0x8c, 0xc9, 0x79, 0x48,
        0x86,
    ];
    assert(iv@ =~= ds_iv());
    let plaintext_data = match EspDsPData::new(rsa_private) {
        Ok(data) => data,
        Err(e) => return Err(e),
    };
    encrypt_private_key_material(&plaintext_data, aes_key.as_slice(), iv.as_slice())
}

} // verus!
