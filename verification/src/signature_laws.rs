//! What holds of the signatures that a provisioned device makes.
use crate::bignum::is_bit_length;
use crate::ds::pkcs1_block;
use crate::ds::Error;
use crate::ds::KeySize;
use crate::ds::OperandWidth;
use crate::ds::Signature;
use crate::params::plain_params_of;
use crate::program::params_fit;
use crate::program::signature_bytes;
use crate::program::x_bytes;
use crate::provisioning_laws::law_params_hold_key;
use crate::signing::challenge_block;
use crate::signing::Reply;
use crate::signing::Signing;
use crate::signing_laws::digest_in;
use crate::signing_laws::is_run;
use crate::signing_laws::key_refused;
use crate::signing_laws::law_completed_run;
use crate::signing_laws::law_padding_is_injective;
use crate::signing_laws::law_signature_is_z;
use crate::signing_laws::law_x_memory_holds_padded_digest;
use crate::signing_laws::outcome_in;
use crate::words::be_value;
use crate::words::bytes_words;
use crate::words::lemma_le_value_bound;
use crate::words::lemma_le_value_zeros;
use crate::words::words_value;
use crate::words::zeros;
use vstd::arithmetic::power::lemma_pow_mod_noop;
use vstd::arithmetic::power::lemma_pow_multiplies;
use vstd::arithmetic::power::pow;
use vstd::arithmetic::power2::lemma_pow2_strictly_increases;
use vstd::arithmetic::power2::pow2;
use vstd::prelude::*;

verus! {

/// What the peripheral computes of the bytes in its X memory, an exponent and a modulus:
/// X^Y mod M.
pub open spec fn exponentiation(x: Seq<u8>, y: nat, m: nat) -> int {
    pow(words_value(bytes_words(x)) as int, y) % (m as int)
}

/// The public exponent `e` undoes the private exponent `d`, which makes them an RSA key.
pub open spec fn is_rsa_pair(n: nat, d: nat, e: nat) -> bool {
    forall|a: nat| a < n ==> #[trigger] pow(a as int, d * e) % (n as int) == a
}

/// The padded digest, as a number, for a key of this size.
pub open spec fn padded_number(digest: Seq<u8>, key_size: KeySize) -> nat {
    be_value(pkcs1_block(digest, key_size.spec_bytes()))
}

/// What the X memory holds for a message with this digest.
pub open spec fn loaded_x(digest: Seq<u8>, key_size: KeySize, width: OperandWidth) -> Seq<u8> {
    x_bytes(challenge_block(digest, key_size, width), key_size.spec_bytes())
}

/// A number whose most significant byte is zero fits into the other bytes.
proof fn lemma_zero_front_bound(block: Seq<u8>)
    requires
        block.len() > 0,
        block[0] == 0,
    ensures
        be_value(block) < pow2((8 * (block.len() - 1)) as nat),
{
    let low = block.skip(1).reverse();
    assert(block.reverse() =~= low + zeros(1));
    lemma_le_value_zeros(low, 1);
    lemma_le_value_bound(low);
}

/// A padded digest is less than each modulus of the size of the key.
proof fn lemma_padded_number_bound(digest: Seq<u8>, key_size: KeySize, n: nat)
    requires
        digest.len() == 32,
        is_bit_length(n, key_size.spec_bits()),
    ensures
        padded_number(digest, key_size) < n,
{
    let key_bytes = key_size.spec_bytes();
    let bits = key_size.spec_bits();
    let block = pkcs1_block(digest, key_bytes);
    assert(block.len() == key_bytes && block[0] == 0) by {
        law_padding_is_injective(digest, digest, key_bytes);
    }
    lemma_zero_front_bound(block);
    assert(8 * (key_bytes - 1) == bits - 8);
    lemma_pow2_strictly_increases((bits - 8) as nat, (bits - 1) as nat);
}

/// Whatever the key size, if the words read are those of X^d mod n, the number of the signature
/// is the padded digest to the power of the private exponent, modulo the modulus; and for a
/// modulus of that size, to the power of the public exponent it is the padded digest again.
pub proof fn law_signature_verifies(
    n: nat,
    d: nat,
    e: nat,
    digest: Seq<u8>,
    key_size: KeySize,
    width: OperandWidth,
    z: Seq<u32>,
)
    requires
        digest.len() == 32,
        key_size.spec_bytes() <= width.spec_bytes(),
        words_value(z) == exponentiation(loaded_x(digest, key_size, width), d, n),
    ensures
        be_value(signature_bytes(z)) == pow(padded_number(digest, key_size) as int, d) % (
        n as int),
        is_bit_length(n, key_size.spec_bits()) && is_rsa_pair(n, d, e) ==> pow(
            be_value(signature_bytes(z)) as int,
            e,
        ) % (n as int) == padded_number(digest, key_size),
{
    let em = padded_number(digest, key_size);
    law_x_memory_holds_padded_digest(digest, key_size, width);
    law_signature_is_z(z);
    if is_bit_length(n, key_size.spec_bits()) && is_rsa_pair(n, d, e) {
        lemma_padded_number_bound(digest, key_size, n);
        lemma_pow_mod_noop(pow(em as int, d), e, n as int);
        lemma_pow_multiplies(em as int, d, e);
        assert(pow(em as int, d * e) % (n as int) == em);
    }
}

/// A digest that the hash engine gave has 32 bytes.
proof fn lemma_digest_len(replies: Seq<Reply>)
    requires
        digest_in(replies) is Some,
    ensures
        digest_in(replies)->0.len() == 32,
    decreases replies.len(),
{
    match replies.last() {
        Reply::Digest(digest) => {},
        _ => lemma_digest_len(replies.drop_last()),
    }
}

/// `outcome` is the RSA signature, PKCS#1 v1.5, of a digest under a key of this size.
pub open spec fn is_rsa_signature(
    outcome: Result<Signature, Error>,
    digest: Seq<u8>,
    key_size: KeySize,
    n: nat,
    d: nat,
    e: nat,
) -> bool {
    let em = padded_number(digest, key_size);
    &&& outcome matches Ok(sig)
    &&& sig.key_size() == key_size
    &&& be_value(sig@) == pow(em as int, d) % (n as int)
    &&& is_bit_length(n, key_size.spec_bits()) && is_rsa_pair(n, d, e) ==> pow(
        be_value(sig@) as int,
        e,
    ) % (n as int) == em
}

/// Whatever the key size and the operand width: an operation that got a digest of its message,
/// whose key was found right, that read a check register of zero and the words of X^d mod n,
/// returns the RSA signature, PKCS#1 v1.5, of that digest.
pub proof fn law_operation_gives_rsa_signature<'a>(
    states: Seq<Signing<'a>>,
    replies: Seq<Reply>,
    n: nat,
    d: nat,
    e: nat,
)
    requires
        is_run(states, replies),
        states.last().phase is Complete,
        states[0].wf(),
        params_fit(states[0].encrypted_params@, states[0].key_size.spec_bytes()),
        !key_refused(replies),
        outcome_in(replies) matches Some(read) && read.0 == 0 && words_value(read.1)
            == exponentiation(
            loaded_x(digest_in(replies)->0, states[0].key_size, states[0].width),
            d,
            n,
        ),
    ensures
        is_rsa_signature(
            states.last().phase->Complete_outcome,
            digest_in(replies)->0,
            states[0].key_size,
            n,
            d,
            e,
        ),
{
    law_completed_run(states, replies);
    lemma_digest_len(replies);
    let read = outcome_in(replies)->0;
    law_signature_verifies(
        n,
        d,
        e,
        digest_in(replies)->0,
        states[0].key_size,
        states[0].width,
        read.1,
    );
}

/// A device that was provisioned with an RSA-3072 key signs with it: if its peripheral computes
/// X^Y mod M with the Y and M of the parameters of the key, a completed operation whose key was
/// found right and whose check register read zero returns the RSA signature of the digest.
pub proof fn law_provisioned_device_signs<'a>(
    states: Seq<Signing<'a>>,
    replies: Seq<Reply>,
    n: nat,
    d: nat,
    e: nat,
)
    requires
        is_run(states, replies),
        states.last().phase is Complete,
        states[0].wf(),
        states[0].key_size == KeySize::Rsa3072,
        params_fit(states[0].encrypted_params@, 384),
        !key_refused(replies),
        is_bit_length(n, 3072),
        n % 2 == 1,
        d < pow2(3072),
        outcome_in(replies) matches Some(read) && read.0 == 0 && words_value(read.1)
            == exponentiation(
            loaded_x(digest_in(replies)->0, states[0].key_size, states[0].width),
            words_value(plain_params_of(n, d).y),
            words_value(plain_params_of(n, d).m),
        ),
    ensures
        is_rsa_signature(
            states.last().phase->Complete_outcome,
            digest_in(replies)->0,
            KeySize::Rsa3072,
            n,
            d,
            e,
        ),
{
    law_params_hold_key(n, d);
    law_operation_gives_rsa_signature(states, replies, n, d, e);
}

} // verus!
