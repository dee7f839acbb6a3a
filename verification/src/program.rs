//! What a signing operation writes to the DS peripheral, and what it makes of the words that
//! the peripheral hands back.
use crate::ds::Error;
use crate::ds::KeySize;
use crate::ds::OperandWidth;
use crate::ds::Signature;
use crate::ds::BOX_CIPHER_LEN;
use crate::ds::ENCRYPTED_PARAMS_PREFIX_LEN;
use crate::ds::IV_LEN;
use crate::words::bytes_to_words;
use crate::words::bytes_words;
use crate::words::pad_to;
use crate::words::read_word;
use crate::words::to_array;
use crate::words::word_at;
use crate::words::word_to_bytes;
use crate::words::words_bytes;
use crate::words::zeros;
use vstd::prelude::*;

verus! {

/// The operand memories of the peripheral.
#[derive(Debug, Clone, Copy, PartialEq, Eq, Structural)]
pub enum Memory {
    /// Initialization vector
    Iv,
    /// Message (challenge)
    X,
    /// Encrypted private exponent
    Y,
    /// Encrypted modulus
    M,
    /// Encrypted Montgomery parameter
    Rb,
    /// Encrypted box: digest, M', length and padding
    BoxParams,
}

/// One word written to an operand memory.
#[derive(Debug, Clone, Copy, PartialEq, Eq, Structural)]
pub struct RegisterWrite {
    pub memory: Memory,
    pub index: usize,
    pub value: u32,
}

/// Bytes of an encrypted payload: initialization vector, three operands and the box.
pub open spec fn payload_len(key_bytes: nat) -> nat {
    16 + 3 * key_bytes + 48
}

/// Encrypted parameters `[u32 payload_len][iv(16) || ciphertext]` have the length of the key
/// size, and say so in their length field.
pub open spec fn params_fit(params: Seq<u8>, key_bytes: nat) -> bool {
    &&& params.len() == 4 + payload_len(key_bytes)
    &&& word_at(params, 0) == payload_len(key_bytes)
}

/// The initialization vector of encrypted parameters.
pub open spec fn params_iv(params: Seq<u8>) -> Seq<u8> {
    params.subrange(4, 20)
}

/// Operand `i` of the ciphertext: Y, M and Rb in that order.
pub open spec fn params_operand(params: Seq<u8>, key_bytes: nat, i: nat) -> Seq<u8> {
    params.subrange((20 + i * key_bytes) as int, (20 + i * key_bytes + key_bytes) as int)
}

/// The box at the end of the ciphertext.
pub open spec fn params_box(params: Seq<u8>, key_bytes: nat) -> Seq<u8> {
    params.subrange((20 + 3 * key_bytes) as int, (20 + 3 * key_bytes + 48) as int)
}

/// Writes of `words` to consecutive places of a memory, from the first on.
pub open spec fn memory_writes(memory: Memory, words: Seq<u32>) -> Seq<RegisterWrite> {
    Seq::new(
        words.len(),
        |i: int| RegisterWrite { memory, index: i as usize, value: words[i] },
    )
}

/// Writes of `bytes`, as little-endian words, to a memory.
pub open spec fn byte_writes(memory: Memory, bytes: Seq<u8>) -> Seq<RegisterWrite> {
    memory_writes(memory, bytes_words(bytes))
}

/// The bytes of the X memory: the padded message at the front of the challenge block, least
/// significant byte first.
pub open spec fn x_bytes(challenge: Seq<u8>, key_bytes: nat) -> Seq<u8> {
    challenge.take(key_bytes as int).reverse()
}

/// Everything that is written between the start of the peripheral and the start of the
/// computation, in order. Y, M and Rb are zero-filled to the operand width.
pub open spec fn load_program(
    params: Seq<u8>,
    challenge: Seq<u8>,
    key_bytes: nat,
    max_bytes: nat,
) -> Seq<RegisterWrite> {
    let fill = zeros((max_bytes - key_bytes) as nat);
    byte_writes(Memory::Iv, params_iv(params)) + byte_writes(
        Memory::X,
        x_bytes(challenge, key_bytes),
    ) + byte_writes(Memory::Y, params_operand(params, key_bytes, 0) + fill) + byte_writes(
        Memory::M,
        params_operand(params, key_bytes, 1) + fill,
    ) + byte_writes(Memory::Rb, params_operand(params, key_bytes, 2) + fill) + byte_writes(
        Memory::BoxParams,
        params_box(params, key_bytes),
    )
}

/// Appends the writes of `bytes` to a memory.
fn push_writes(program: &mut Vec<RegisterWrite>, memory: Memory, bytes: &[u8])
    ensures
        final(program)@ == old(program)@ + byte_writes(memory, bytes@),
{
    let words = bytes_to_words(bytes);
    let ghost start = program@;
    let ghost all = memory_writes(memory, words@);
    assert(start + all.take(0) =~= start);
    for i in 0..words.len()
        invariant
            all == memory_writes(memory, words@),
            program@ == start + all.take(i as int),
    {
        assert(all.take(i + 1) =~= all.take(i as int).push(all[i as int]));
        program.push(RegisterWrite { memory, index: i, value: words[i] });
        assert(program@ =~= start + all.take(i + 1));
    }
    assert(all.take(words@.len() as int) =~= all);
}

/// Appends the writes of `bytes`, zero-filled to `max_bytes`, to a memory.
fn push_padded_writes(
    program: &mut Vec<RegisterWrite>,
    memory: Memory,
    bytes: &[u8],
    max_bytes: usize,
)
    requires
        bytes@.len() <= max_bytes,
    ensures
        final(program)@ == old(program)@ + byte_writes(
            memory,
            bytes@ + zeros((max_bytes - bytes@.len()) as nat),
        ),
{
    let mut copied: Vec<u8> = Vec::new();
    copied.extend_from_slice(bytes);
    assert(copied@ =~= bytes@);
    let padded = pad_to(copied, max_bytes);
    push_writes(program, memory, padded.as_slice());
}

/// The bytes of `bytes` in reverse order.
fn reversed(bytes: &[u8]) -> (rev: Vec<u8>)
    ensures
        rev@ == bytes@.reverse(),
{
    let mut rev: Vec<u8> = Vec::new();
    let len: usize = bytes.len();
    for i in 0..len
        invariant
            len == bytes@.len(),
            rev@.len() == i,
            forall|j: int| 0 <= j < i ==> rev@[j] == bytes@[len - 1 - j],
    {
        rev.push(bytes[len - 1 - i]);
    }
    assert(rev@ =~= bytes@.reverse());
    rev
}

/// Checks the encrypted parameters against the key size and lays out the words to load.
///
/// The challenge is a block of the operand width; the X memory holds as many bytes of its front
/// as the key has.
pub fn load_operands(
    encrypted_params: &[u8],
    challenge: &[u8],
    key_size: KeySize,
    width: OperandWidth,
) -> (res: Result<Vec<RegisterWrite>, Error>)
    requires
        challenge@.len() == width.spec_bytes(),
        key_size.spec_bytes() <= width.spec_bytes(),
    ensures
        match res {
            Ok(program) => {
                &&& params_fit(encrypted_params@, key_size.spec_bytes())
                &&& program@ == load_program(
                    encrypted_params@,
                    challenge@,
                    key_size.spec_bytes(),
                    width.spec_bytes(),
                )
            },
            Err(e) => {
                &&& !params_fit(encrypted_params@, key_size.spec_bytes())
                &&& e == Error::IncorrectCipherLength
            },
        },
{
    let key_bytes: usize = key_size.bytes();
    let max_bytes: usize = width.bytes();
    let expected_payload_len: usize = IV_LEN + key_bytes * 3 + BOX_CIPHER_LEN;
    let expected_total_len: usize = 4 + expected_payload_len;
    if encrypted_params.len() != expected_total_len {
        return Err(Error::IncorrectCipherLength);
    }
    let stated_len: u32 = read_word(encrypted_params, 0);
    if stated_len as usize != expected_payload_len {
        return Err(Error::IncorrectCipherLength);
    }
    let x = reversed(&challenge[0..key_bytes]);
    let iv = &encrypted_params[4..ENCRYPTED_PARAMS_PREFIX_LEN];
    let ciph = &encrypted_params[ENCRYPTED_PARAMS_PREFIX_LEN..expected_total_len];
    let y_ciph = &ciph[0..key_bytes];
    let m_ciph = &ciph[key_bytes..key_bytes * 2];
    let rb_ciph = &ciph[key_bytes * 2..key_bytes * 3];
    let box_ciph = &ciph[key_bytes * 3..key_bytes * 3 + BOX_CIPHER_LEN];
    proof {
        let params = encrypted_params@;
        let k = key_bytes as nat;
        assert(iv@ =~= params_iv(params));
        assert(y_ciph@ =~= params_operand(params, k, 0));
        assert(m_ciph@ =~= params_operand(params, k, 1));
        assert(rb_ciph@ =~= params_operand(params, k, 2));
        assert(box_ciph@ =~= params_box(params, k));
        assert(x@ =~= x_bytes(challenge@, k));
    }
    let mut program: Vec<RegisterWrite> = Vec::new();
    push_writes(&mut program, Memory::Iv, iv);
    push_writes(&mut program, Memory::X, x.as_slice());
    push_padded_writes(&mut program, Memory::Y, y_ciph, max_bytes);
    push_padded_writes(&mut program, Memory::M, m_ciph, max_bytes);
    push_padded_writes(&mut program, Memory::Rb, rb_ciph, max_bytes);
    push_writes(&mut program, Memory::BoxParams, box_ciph);
    assert(program@ =~= load_program(
        encrypted_params@,
        challenge@,
        key_bytes as nat,
        max_bytes as nat,
    ));
    Ok(program)
}

/// The bytes of a signature whose words, least significant first, are `words`: big-endian.
pub open spec fn signature_bytes(words: Seq<u32>) -> Seq<u8> {
    words_bytes(words).reverse()
}

/// Assembles the signature from the words of the Z memory.
pub fn assemble_signature(words: &[u32], key_size: KeySize) -> (sig: Signature)
    requires
        words@.len() == key_size.spec_sig_words(),
    ensures
        sig.key_size() == key_size,
        sig@ == signature_bytes(words@),
{
    let mut result: Vec<u8> = Vec::new();
    let len: usize = words.len();
    for i in 0..len
        invariant
            len == words@.len(),
            result@.len() == 4 * i,
            forall|j: int| 0 <= j < 4 * i ==> result@[j] == signature_bytes(words@)[j],
    {
        let bytes = word_to_bytes(words[len - 1 - i]);
        result.push(bytes[3]);
        result.push(bytes[2]);
        result.push(bytes[1]);
        result.push(bytes[0]);
    }
    assert(result@ =~= signature_bytes(words@));
    match key_size {
        KeySize::Rsa2048 => Signature::Rsa2048(to_array(result.as_slice())),
        KeySize::Rsa3072 => Signature::Rsa3072(to_array(result.as_slice())),
        KeySize::Rsa4096 => Signature::Rsa4096(to_array(result.as_slice())),
    }
}

/// `res` is what a signing operation returns when the peripheral's check register reads
/// `check` and the signature is one of `key_size` with these bytes.
pub open spec fn concludes(
    res: Result<Signature, Error>,
    check: u32,
    key_size: KeySize,
    bytes: Seq<u8>,
) -> bool {
    match res {
        Ok(sig) => check == 0 && sig.key_size() == key_size && sig@ == bytes,
        Err(Error::InvalidDigest(sig)) => check == 1 && sig.key_size() == key_size && sig@
            == bytes,
        Err(Error::InvalidPadding(sig)) => check == 2 && sig.key_size() == key_size && sig@
            == bytes,
        Err(Error::InvalidDigestAndPadding(sig)) => check == 3 && sig.key_size() == key_size
            && sig@ == bytes,
        Err(Error::SigningFailed) => check > 3,
        _ => false,
    }
}

/// Judges a signature by the check register.
pub fn conclude(check: u32, signature: Signature) -> (res: Result<Signature, Error>)
    ensures
        concludes(res, check, signature.key_size(), signature@),
{
    match check {
        0 => Ok(signature),
        1 => Err(Error::InvalidDigest(signature)),
        2 => Err(Error::InvalidPadding(signature)),
        3 => Err(Error::InvalidDigestAndPadding(signature)),
        _ => Err(Error::SigningFailed),
    }
}

} // verus!
