//! The cryptographic primitives, as the RustCrypto crates provide them.
use aes::cipher::block_padding::NoPadding;
use aes::cipher::BlockEncryptMut;
use aes::cipher::KeyIvInit;
use aes::Aes256;
use cbc::Encryptor;
use hmac::Hmac;
use hmac::Mac;
use rand::Rng;
use sha2::Digest;
use sha2::Sha256;
use vstd::prelude::*;

verus! {

/// The SHA-256 digest of some data.
pub uninterp spec fn sha256_of(data: Seq<u8>) -> Seq<u8>;

/// The HMAC-SHA256 of a message under a key.
pub uninterp spec fn hmac_sha256_of(key: Seq<u8>, message: Seq<u8>) -> Seq<u8>;

/// The AES-256-CBC ciphertext of a plaintext of whole blocks, under a key and an
/// initialization vector.
pub uninterp spec fn aes256_cbc_of(key: Seq<u8>, iv: Seq<u8>, plaintext: Seq<u8>) -> Seq<u8>;

/// The error of the cipher crate for a plaintext that does not fit its padding.
#[verifier::external_type_specification]
#[verifier::external_body]
pub struct ExPadError(aes::cipher::inout::PadError);

/// `Digest::digest` of `sha2::Sha256`: the digest, named [`sha256_of`], depends on the data
/// alone.
#[verifier::external_body]
pub(crate) fn sha256(data: &[u8]) -> (digest: [u8; 32])
    ensures
        digest@ == sha256_of(data@),
{
    Sha256::digest(data).into()
}

/// `new_from_slice`, `update` and `finalize` of `hmac::Hmac<sha2::Sha256>`: the code, named
/// [`hmac_sha256_of`], depends on the key and the message alone. A key of any length is taken.
#[verifier::external_body]
pub(crate) fn hmac_sha256(key: &[u8], message: &[u8]) -> (code: [u8; 32])
    ensures
        code@ == hmac_sha256_of(key@, message@),
{
    let mut mac = <Hmac<Sha256> as Mac>::new_from_slice(key).expect("any key length is taken");
    mac.update(message);
    mac.finalize().into_bytes().into()
}

/// `encrypt_padded_b2b_mut` of `cbc::Encryptor<aes::Aes256>` without padding: it succeeds if
/// and only if the plaintext is made of whole blocks, and then the ciphertext, named
/// [`aes256_cbc_of`], is as long as the plaintext. Blocks are encrypted one after the other, each
/// chained to the one before it, so the first blocks of the ciphertext are the ciphertext of the
/// first blocks of the plaintext. Decryption gives the plaintext back, so no other plaintext of
/// that length has the same ciphertext. A key or an initialization vector of another length than
/// these panics.
#[verifier::external_body]
pub(crate) fn aes256_cbc(key: &[u8], iv: &[u8], plaintext: &[u8]) -> (res: Result<
    Vec<u8>,
    aes::cipher::inout::PadError,
>)
    requires
        key@.len() == 32,
        iv@.len() == 16,
    ensures
        match res {
            Ok(ct) => {
                &&& plaintext@.len() % 16 == 0
                &&& ct@ == aes256_cbc_of(key@, iv@, plaintext@)
                &&& ct@.len() == plaintext@.len()
                &&& forall|len: int|
                    0 <= len <= plaintext@.len() && len % 16 == 0 ==> ct@.take(len)
                        == #[trigger] aes256_cbc_of(key@, iv@, plaintext@.take(len))
                &&& forall|other: Seq<u8>|
                    other.len() == plaintext@.len() && #[trigger] aes256_cbc_of(key@, iv@, other)
                        == ct@ ==> other == plaintext@
            },
            Err(_) => plaintext@.len() % 16 != 0,
        },
{
    let mut out = vec![0u8; plaintext.len()];
    let ct = Encryptor::<Aes256>::new(key.into(), iv.into()).encrypt_padded_b2b_mut::<NoPadding>(
        plaintext,
        &mut out,
    )?;
    Ok(ct.to_vec())
}

/// `Rng::fill` of `rand::thread_rng()`: 32 bytes by chance, of which nothing is known.
#[verifier::external_body]
pub(crate) fn random_key() -> (key: [u8; 32])
{
    let mut key = [0u8;32];
    rand::thread_rng().fill(&mut key);
    key
}

} // verus!
