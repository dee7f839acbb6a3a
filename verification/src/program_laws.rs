//! What the padding, the register writes and the signature are, byte by byte.
use crate::ds::pkcs1_block;
use crate::ds::Error;
use crate::ds::KeySize;
use crate::ds::OperandWidth;
use crate::ds::Signature;
use crate::program::byte_writes;
use crate::program::concludes;
use crate::program::load_program;
use crate::program::params_box;
use crate::program::params_fit;
use crate::program::params_iv;
use crate::program::params_operand;
use crate::program::signature_bytes;
use crate::program::x_bytes;
use crate::program::Memory;
use crate::program::RegisterWrite;
use crate::signing::challenge_block;
use crate::signing::Signing;
use crate::words::le_value;
use crate::words::word_at;
use crate::words::zeros;
use crate::words_laws::law_le_value_of_bytes;
use crate::words_laws::law_word_is_little_endian;
use crate::words_laws::law_words_and_bytes;
use vstd::prelude::*;

verus! {

/// Key sizes and operand widths, in bits, bytes and words.
pub proof fn law_sizes(key_size: KeySize, width: OperandWidth)
    ensures
        key_size.spec_bits() == match key_size {
            KeySize::Rsa2048 => 2048nat,
            KeySize::Rsa3072 => 3072,
            KeySize::Rsa4096 => 4096,
        },
        8 * key_size.spec_bytes() == key_size.spec_bits(),
        32 * key_size.spec_sig_words() == key_size.spec_bits(),
        8 * width.spec_bytes() == match width {
            OperandWidth::Bits3072 => 3072nat,
            OperandWidth::Bits4096 => 4096,
        },
{
}

/// A padded digest is, byte by byte, `00 01`, then `ff` up to the separator `00`, then the
/// `DigestInfo` header of SHA-256, then the digest, which ends the block.
pub proof fn law_padded_block_bytes(digest: Seq<u8>, key_bytes: nat)
    requires
        digest.len() + 22 <= key_bytes,
    ensures
        ({
            let b = pkcs1_block(digest, key_bytes);
            let head = key_bytes - digest.len() - 19;
            &&& b.len() == key_bytes
            &&& b[0] == 0x00
            &&& b[1] == 0x01
            &&& forall|i: int| 2 <= i < head - 1 ==> b[i] == 0xff
            &&& b[head - 1] == 0x00
            &&& b[head + 0] == 0x30 && b[head + 1] == 0x31 && b[head + 2] == 0x30
            &&& b[head + 3] == 0x0d && b[head + 4] == 0x06 && b[head + 5] == 0x09
            &&& b[head + 6] == 0x60 && b[head + 7] == 0x86 && b[head + 8] == 0x48
            &&& b[head + 9] == 0x01 && b[head + 10] == 0x65 && b[head + 11] == 0x03
            &&& b[head + 12] == 0x04 && b[head + 13] == 0x02 && b[head + 14] == 0x01
            &&& b[head + 15] == 0x05 && b[head + 16] == 0x00 && b[head + 17] == 0x04
            &&& b[head + 18] == 0x20
            &&& forall|i: int| 0 <= i < digest.len() ==> b[head + 19 + i] == #[trigger] digest[i]
        }),
{
    let b = pkcs1_block(digest, key_bytes);
    let head = key_bytes - digest.len() - 19;
    assert forall|i: int| 0 <= i < digest.len() implies b[head + 19 + i]
        == #[trigger] digest[i] by {
        assert(b.skip(head + 19)[i] == b[head + 19 + i]);
        assert(b.skip(head + 19) =~= digest);
    }
}

/// The challenge is as wide as the operands: the padded digest, then zero bytes.
pub proof fn law_challenge_is_padded_digest(
    digest: Seq<u8>,
    key_size: KeySize,
    width: OperandWidth,
    i: int,
)
    requires
        digest.len() == 32,
        key_size.spec_bytes() <= width.spec_bytes(),
    ensures
        challenge_block(digest, key_size, width).len() == width.spec_bytes(),
        0 <= i < key_size.spec_bytes() ==> challenge_block(digest, key_size, width)[i]
            == pkcs1_block(digest, key_size.spec_bytes())[i],
        key_size.spec_bytes() <= i < width.spec_bytes() ==> challenge_block(
            digest,
            key_size,
            width,
        )[i] == 0,
{
    law_padded_block_bytes(digest, key_size.spec_bytes());
}

/// Parameters fit a key if and only if they are three numbers of its size, an initialization
/// vector of 16 bytes, a box of 48 bytes and a length field of four, which states the length of
/// all but itself.
pub proof fn law_params_fit(params: Seq<u8>, key_bytes: nat)
    ensures
        params_fit(params, key_bytes) <==> params.len() == 3 * key_bytes + 68 && le_value(
            params.take(4),
        ) == 3 * key_bytes + 64,
{
    if params.len() >= 4 {
        let p = params.take(4);
        let none = Seq::<u8>::empty();
        law_word_is_little_endian(params, 0, 0);
        law_le_value_of_bytes(p[3], none);
        assert(p =~= seq![p[0]] + (seq![p[1]] + (seq![p[2]] + (seq![p[3]] + none))));
        law_le_value_of_bytes(p[2], seq![p[3]] + none);
        law_le_value_of_bytes(p[1], seq![p[2]] + (seq![p[3]] + none));
        law_le_value_of_bytes(p[0], seq![p[1]] + (seq![p[2]] + (seq![p[3]] + none)));
    }
}

/// Writes of bytes to a memory: one for each word, in order.
proof fn lemma_byte_writes(memory: Memory, bytes: Seq<u8>)
    ensures
        byte_writes(memory, bytes).len() == bytes.len() / 4,
        forall|i: int|
            0 <= i < bytes.len() / 4 ==> #[trigger] byte_writes(memory, bytes)[i] == (
            RegisterWrite { memory, index: i as usize, value: word_at(bytes, 4 * i) }),
{
}

/// Writes of an operand that is zero-filled.
proof fn lemma_operand_writes(
    memory: Memory,
    params: Seq<u8>,
    offset: int,
    key_bytes: nat,
    max_bytes: nat,
)
    requires
        key_bytes % 4 == 0,
        max_bytes % 4 == 0,
        key_bytes <= max_bytes,
        0 <= offset,
        offset + key_bytes <= params.len(),
    ensures
        ({
            let bytes = params.subrange(offset, offset + key_bytes) + zeros(
                (max_bytes - key_bytes) as nat,
            );
            &&& byte_writes(memory, bytes).len() == max_bytes / 4
            &&& forall|i: int|
                0 <= i < max_bytes / 4 ==> {
                    let write = #[trigger] byte_writes(memory, bytes)[i];
                    &&& write.memory == memory
                    &&& write.index == i as usize
                    &&& 4 * i < key_bytes ==> write.value == word_at(params, offset + 4 * i)
                    &&& 4 * i >= key_bytes ==> write.value == 0
                }
        }),
{
    let bytes = params.subrange(offset, offset + key_bytes) + zeros(
        (max_bytes - key_bytes) as nat,
    );
    lemma_byte_writes(memory, bytes);
    assert forall|i: int| 0 <= i < max_bytes / 4 implies {
        let write = #[trigger] byte_writes(memory, bytes)[i];
        &&& 4 * i < key_bytes ==> write.value == word_at(params, offset + 4 * i)
        &&& 4 * i >= key_bytes ==> write.value == 0
    } by {
        law_word_is_little_endian(bytes, 4 * i, 0);
        if 4 * i < key_bytes {
            assert(bytes[4 * i] == params[offset + 4 * i]);
            assert(bytes[4 * i + 1] == params[offset + 4 * i + 1]);
            assert(bytes[4 * i + 2] == params[offset + 4 * i + 2]);
            assert(bytes[4 * i + 3] == params[offset + 4 * i + 3]);
        } else {
            assert(bytes[4 * i] == 0);
            assert(bytes[4 * i + 1] == 0);
            assert(bytes[4 * i + 2] == 0);
            assert(bytes[4 * i + 3] == 0);
        }
    }
}

/// What is loaded, write by write: four words of the initialization vector, the message with its
/// last byte first, Y, M and Rb from their places in the parameters, each filled with zeros to
/// the width of the operands, and twelve words of the box; nothing else.
pub proof fn law_loaded_words(
    params: Seq<u8>,
    challenge: Seq<u8>,
    key_bytes: nat,
    max_bytes: nat,
    i: int,
)
    requires
        params.len() == 3 * key_bytes + 68,
        challenge.len() == max_bytes,
        key_bytes <= max_bytes,
        key_bytes % 4 == 0,
        max_bytes % 4 == 0,
    ensures
        ({
            let k = key_bytes as int;
            let program = load_program(params, challenge, key_bytes, max_bytes);
            let write = program[i];
            let x: int = 4;
            let y = x + k / 4;
            let m = y + max_bytes / 4;
            let rb = m + max_bytes / 4;
            let bx = rb + max_bytes / 4;
            &&& program.len() == bx + 12
            &&& 0 <= i < 4 ==> write == (RegisterWrite {
                memory: Memory::Iv,
                index: i as usize,
                value: word_at(params, 4 + 4 * i),
            })
            &&& x <= i < y ==> {
                let end = k - 4 * (i - x);
                &&& write.memory == Memory::X
                &&& write.index == (i - x) as usize
                &&& write.value == challenge[end - 1] + 0x100 * challenge[end - 2] + 0x1_0000
                    * challenge[end - 3] + 0x100_0000 * challenge[end - 4]
            }
            &&& y <= i < m ==> {
                &&& write.memory == Memory::Y
                &&& write.index == (i - y) as usize
                &&& 4 * (i - y) < k ==> write.value == word_at(params, 20 + 4 * (i - y))
                &&& 4 * (i - y) >= k ==> write.value == 0
            }
            &&& m <= i < rb ==> {
                &&& write.memory == Memory::M
                &&& write.index == (i - m) as usize
                &&& 4 * (i - m) < k ==> write.value == word_at(params, 20 + k + 4 * (i - m))
                &&& 4 * (i - m) >= k ==> write.value == 0
            }
            &&& rb <= i < bx ==> {
                &&& write.memory == Memory::Rb
                &&& write.index == (i - rb) as usize
                &&& 4 * (i - rb) < k ==> write.value == word_at(
                    params,
                    20 + 2 * k + 4 * (i - rb),
                )
                &&& 4 * (i - rb) >= k ==> write.value == 0
            }
            &&& bx <= i < bx + 12 ==> write == (RegisterWrite {
                memory: Memory::BoxParams,
                index: (i - bx) as usize,
                value: word_at(params, 20 + 3 * k + 4 * (i - bx)),
            })
        }),
{
    let k = key_bytes as int;
    let fill = zeros((max_bytes - key_bytes) as nat);
    let xb = x_bytes(challenge, key_bytes);
    let w_iv = byte_writes(Memory::Iv, params_iv(params));
    let w_x = byte_writes(Memory::X, xb);
    let w_y = byte_writes(Memory::Y, params_operand(params, key_bytes, 0) + fill);
    let w_m = byte_writes(Memory::M, params_operand(params, key_bytes, 1) + fill);
    let w_rb = byte_writes(Memory::Rb, params_operand(params, key_bytes, 2) + fill);
    let w_box = byte_writes(Memory::BoxParams, params_box(params, key_bytes));
    lemma_operand_writes(Memory::Iv, params, 4, 16, 16);
    lemma_byte_writes(Memory::X, xb);
    lemma_operand_writes(Memory::Y, params, 20, key_bytes, max_bytes);
    lemma_operand_writes(Memory::M, params, 20 + k, key_bytes, max_bytes);
    lemma_operand_writes(Memory::Rb, params, 20 + 2 * k, key_bytes, max_bytes);
    lemma_operand_writes(Memory::BoxParams, params, 20 + 3 * k, 48, 48);
    assert(params_iv(params) =~= params.subrange(4, 20) + zeros(0));
    assert(params_operand(params, key_bytes, 0) =~= params.subrange(20, 20 + k));
    assert(params_operand(params, key_bytes, 1) =~= params.subrange(20 + k, 20 + k + k));
    assert(params_operand(params, key_bytes, 2) =~= params.subrange(20 + 2 * k, 20 + 2 * k + k));
    assert(params_box(params, key_bytes) =~= params.subrange(20 + 3 * k, 20 + 3 * k + 48) + zeros(
        0,
    ));
    let program = load_program(params, challenge, key_bytes, max_bytes);
    assert(program =~= w_iv + w_x + w_y + w_m + w_rb + w_box);
    let y = 4 + k / 4;
    let m = y + max_bytes / 4;
    let rb = m + max_bytes / 4;
    let bx = rb + max_bytes / 4;
    if 0 <= i < 4 {
        assert(program[i] == w_iv[i]);
    } else if 4 <= i < y {
        let j = i - 4;
        let end = k - 4 * j;
        assert(program[i] == w_x[j]);
        law_word_is_little_endian(xb, 4 * j, 0);
        assert(xb[4 * j] == challenge[end - 1]);
        assert(xb[4 * j + 1] == challenge[end - 2]);
        assert(xb[4 * j + 2] == challenge[end - 3]);
        assert(xb[4 * j + 3] == challenge[end - 4]);
    } else if y <= i < m {
        assert(program[i] == w_y[i - y]);
    } else if m <= i < rb {
        assert(program[i] == w_m[i - m]);
    } else if rb <= i < bx {
        assert(program[i] == w_rb[i - rb]);
    } else if bx <= i < bx + 12 {
        assert(program[i] == w_box[i - bx]);
    }
}

/// A signing operation loads its own parameters and the padded digest, at the width of its
/// peripheral: a challenge that is the padded digest and then zeros.
pub proof fn law_operation_loads_padded_digest<'a>(
    state: Signing<'a>,
    digest: Seq<u8>,
    challenge: Seq<u8>,
)
    requires
        state.wf(),
        digest.len() == 32,
        challenge.len() == state.width.spec_bytes(),
        challenge.take(state.key_size.spec_bytes() as int) == pkcs1_block(
            digest,
            state.key_size.spec_bytes(),
        ),
        forall|i: int|
            state.key_size.spec_bytes() <= i < challenge.len() ==> #[trigger] challenge[i] == 0,
    ensures
        state.program_for(digest) == load_program(
            state.encrypted_params@,
            challenge,
            state.key_size.spec_bytes(),
            state.width.spec_bytes(),
        ),
{
    let block = pkcs1_block(digest, state.key_size.spec_bytes());
    law_padded_block_bytes(digest, state.key_size.spec_bytes());
    let own = challenge_block(digest, state.key_size, state.width);
    assert(forall|i: int| 0 <= i < block.len() ==> challenge[i] == #[trigger] block[i]) by {
        assert(forall|i: int|
            0 <= i < block.len() ==> challenge.take(block.len() as int)[i] == challenge[i]);
    }
    assert(own =~= challenge);
}

/// A signature has four bytes for each word, the last byte being the least significant one of
/// the first word.
pub proof fn law_signature_bytes(words: Seq<u32>, i: int)
    ensures
        signature_bytes(words).len() == 4 * words.len(),
        0 <= i < words.len() ==> {
            let sig = signature_bytes(words);
            let end = 4 * (words.len() - i);
            words[i] == sig[end - 1] + 0x100 * sig[end - 2] + 0x1_0000 * sig[end - 3] + 0x100_0000
                * sig[end - 4]
        },
{
    law_words_and_bytes(words, Seq::empty(), i);
}

/// A signature is what it was made of, of the size that it says, and an error carries the
/// signature that it was made with.
pub proof fn law_signatures_hold_their_bytes(
    s2048: [u8; 256],
    s3072: [u8; 384],
    s4096: [u8; 512],
    sig: Signature,
)
    ensures
        Signature::Rsa2048(s2048)@ == s2048@,
        Signature::Rsa2048(s2048).key_size() == KeySize::Rsa2048,
        Signature::Rsa3072(s3072)@ == s3072@,
        Signature::Rsa3072(s3072).key_size() == KeySize::Rsa3072,
        Signature::Rsa4096(s4096)@ == s4096@,
        Signature::Rsa4096(s4096).key_size() == KeySize::Rsa4096,
        Error::InvalidDigest(sig).spec_signature() == Some(sig),
        Error::InvalidPadding(sig).spec_signature() == Some(sig),
        Error::InvalidDigestAndPadding(sig).spec_signature() == Some(sig),
        Error::InitFailed.spec_signature() is None,
        Error::IncorrectCipherLength.spec_signature() is None,
        Error::KeyReadError.spec_signature() is None,
        Error::SigningFailed.spec_signature() is None,
        Error::UnsupportedKeySize.spec_signature() is None,
{
}

/// The check register alone decides what is returned, and unless it reads more than three, the
/// signature is handed on with it.
pub proof fn law_check_register_decides(
    res: Result<Signature, Error>,
    check: u32,
    key_size: KeySize,
    bytes: Seq<u8>,
)
    requires
        concludes(res, check, key_size, bytes),
    ensures
        check == 0 <==> res is Ok,
        check == 1 <==> res matches Err(Error::InvalidDigest(_)),
        check == 2 <==> res matches Err(Error::InvalidPadding(_)),
        check == 3 <==> res matches Err(Error::InvalidDigestAndPadding(_)),
        check > 3 <==> res == Err::<Signature, _>(Error::SigningFailed),
        res matches Ok(sig) ==> sig@ == bytes && sig.key_size() == key_size,
        res matches Err(Error::InvalidDigest(sig)) ==> sig@ == bytes && sig.key_size() == key_size,
        res matches Err(Error::InvalidPadding(sig)) ==> sig@ == bytes && sig.key_size()
            == key_size,
        res matches Err(Error::InvalidDigestAndPadding(sig)) ==> sig@ == bytes && sig.key_size()
            == key_size,
{
}

} // verus!
