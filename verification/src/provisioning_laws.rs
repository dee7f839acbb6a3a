//! What holds between the key of a device, its factory data and what its driver loads.
use crate::bignum::is_bit_length;
use crate::bignum::lemma_bit_length_unique;
use crate::crypto::aes256_cbc_of;
use crate::crypto::hmac_sha256_of;
use crate::crypto::sha256_of;
use crate::ds::KeySize;
use crate::factory::driver_params;
use crate::factory::encoded_fields;
use crate::factory::factory_data_of;
use crate::factory::factory_image;
use crate::factory::image_fits;
use crate::factory::is_cert_label;
use crate::factory::stated_len;
use crate::factory::u64_at;
use crate::factory::with_length;
use crate::factory::FactoryData;
use crate::factory::FactoryView;
use crate::key::block_views;
use crate::key::is_first_key_block;
use crate::key::is_key_tag;
use crate::key::is_loaded;
use crate::key::pkcs8_key_of;
use crate::key::KeyError;
use crate::key::PemBlock;
use crate::key::RsaPrivateKey;
use crate::montgomery::is_m_prime;
use crate::montgomery::lemma_m_prime_exists;
use crate::params::ds_ciphertext_of;
use crate::params::ds_iv;
use crate::params::ds_params_of;
use crate::params::is_whole;
use crate::params::key_message;
use crate::params::number_bytes;
use crate::params::plain_params_of;
use crate::params::plaintext;
use crate::params::plaintext_with;
use crate::params::sealed;
use crate::params::EspDsPData;
use crate::params::PlainParams;
use crate::program::params_box;
use crate::program::params_fit;
use crate::program::params_iv;
use crate::program::params_operand;
use crate::words::bytes_words;
use crate::words::le_value;
use crate::words::lemma_nat_words_value;
use crate::words::lemma_word_round_trip;
use crate::words::lemma_words_round_trip;
use crate::words::u64_bytes;
use crate::words::word_at;
use crate::words::word_bytes;
use crate::words::words_bytes;
use crate::words::words_value;
use crate::words_laws::law_bit_length_bounds_number;
use crate::words_laws::law_m_prime_of_modulus;
use crate::words_laws::law_number_cut_to_words;
use crate::words_laws::law_u64_is_little_endian;
use crate::words_laws::law_word_is_little_endian;
use crate::words_laws::law_word_value;
use crate::words_laws::law_words_and_bytes;
use crate::words_laws::law_words_value_of_words;
use vstd::arithmetic::div_mod::lemma_mod_bound;
use vstd::arithmetic::div_mod::lemma_small_mod;
use vstd::arithmetic::power2::lemma_pow2_adds;
use vstd::arithmetic::power2::lemma_pow2_pos;
use vstd::arithmetic::power2::pow2;
use vstd::prelude::*;

verus! {

/// A key that was loaded has an odd modulus of 3072 bits, so that its parameters and its image
/// can always be made.
pub proof fn law_loaded_key_has_params(
    key: RsaPrivateKey,
    blocks: Seq<(Seq<char>, Seq<u8>)>,
)
    requires
        is_loaded(Ok::<_, KeyError>(key), blocks),
    ensures
        key.n@ % 2 == 1,
        is_bit_length(key.n@, 3072),
{
}

/// Two results of loading a key are the same key, or the same error with the same text.
pub open spec fn same_outcome(
    res1: Result<RsaPrivateKey, KeyError>,
    res2: Result<RsaPrivateKey, KeyError>,
) -> bool {
    match (res1, res2) {
        (Ok(key1), Ok(key2)) => key1.n@ == key2.n@ && key1.d@ == key2.d@,
        (
            Err(KeyError::KeySize { bits: bits1 }),
            Err(KeyError::KeySize { bits: bits2 }),
        ) => bits1 == bits2,
        (
            Err(KeyError::Decode { text: text1 }),
            Err(KeyError::Decode { text: text2 }),
        ) => text1@ == text2@,
        (Err(KeyError::NotFound), Err(KeyError::NotFound)) => true,
        _ => false,
    }
}

/// The first block with the tag of a private key decides: whatever blocks follow, the outcome
/// stays the same, so that a later key never makes up for one that cannot be used.
pub proof fn law_first_key_block_decides(
    res1: Result<RsaPrivateKey, KeyError>,
    blocks: Seq<(Seq<char>, Seq<u8>)>,
    res2: Result<RsaPrivateKey, KeyError>,
    more: Seq<(Seq<char>, Seq<u8>)>,
)
    requires
        is_loaded(res1, blocks),
        is_loaded(res2, blocks + more),
        exists|i: int| 0 <= i < blocks.len() && is_key_tag(#[trigger] blocks[i].0),
    ensures
        same_outcome(res1, res2),
        !(res1 matches Err(KeyError::NotFound)),
{
    let all = blocks + more;
    let i = choose|i: int| 0 <= i < blocks.len() && is_key_tag(#[trigger] blocks[i].0);
    assert(all[i].0 == blocks[i].0);
    let at = choose|at: int| #![trigger blocks[at]] is_first_key_block(blocks, at);
    assert(is_first_key_block(blocks, at));
    assert(all[at] == blocks[at]);
    assert forall|other: int| #![trigger all[other]] is_first_key_block(all, other) implies other
        == at by {
        if other < at {
            assert(all[other].0 == blocks[other].0);
        }
        if at < other {
            assert(!is_key_tag(all[at].0));
        }
    }
    assert forall|other: int| #![trigger blocks[other]] is_first_key_block(blocks, other) implies
        other == at by {
        if at < other {
            assert(!is_key_tag(blocks[at].0));
        }
        if other < at {
            assert(!is_key_tag(blocks[other].0));
        }
    }
    match (res1, res2) {
        (
            Err(KeyError::KeySize { bits: bits1 }),
            Err(KeyError::KeySize { bits: bits2 }),
        ) => {
            let key = pkcs8_key_of(blocks[at].1)->Ok_0;
            lemma_bit_length_unique(key.0, bits1 as nat, bits2 as nat);
        },
        (Err(KeyError::KeySize { bits }), Ok(key)) | (
            Ok(key),
            Err(KeyError::KeySize { bits }),
        ) => {
            lemma_bit_length_unique(key.n@, bits as nat, 3072);
        },
        _ => {},
    }
}

/// The parameters of an odd modulus of 3072 bits and a private exponent of at most as many hold
/// the private exponent, the modulus, R^2 mod M for R = 2^3072, and -M^-1 mod 2^32: nothing is
/// cut off.
pub proof fn law_params_hold_key(n: nat, d: nat)
    requires
        is_bit_length(n, 3072),
        n % 2 == 1,
        d < pow2(3072),
    ensures
        words_value(plain_params_of(n, d).y) == d,
        words_value(plain_params_of(n, d).m) == n,
        words_value(plain_params_of(n, d).rb) == (pow2(3072) * pow2(3072)) % n,
        is_m_prime(plain_params_of(n, d).m_prime, n),
        plain_params_of(n, d).length == 3072int / 32 - 1,
{
    let rb = pow2(6144) % n;
    lemma_pow2_adds(3072, 3072);
    lemma_mod_bound(pow2(6144) as int, n as int);
    lemma_nat_words_value(d, 96);
    lemma_nat_words_value(n, 96);
    lemma_nat_words_value(rb, 96);
    lemma_small_mod(d, pow2(3072));
    lemma_small_mod(n, pow2(3072));
    lemma_small_mod(rb, pow2(3072));
    lemma_m_prime_exists(n);
}

/// The plaintext is made of whole cipher blocks, and has its fields at fixed places, those of
/// the operands and the box that the driver takes from the ciphertext.
pub proof fn law_plaintext_layout(p: PlainParams, md: Seq<u8>)
    requires
        is_whole(p),
        md.len() == 32,
    ensures
        plaintext_with(p, md).len() == 1200,
        plaintext_with(p, md).subrange(0, 384) == words_bytes(p.y),
        plaintext_with(p, md).subrange(384, 768) == words_bytes(p.m),
        plaintext_with(p, md).subrange(768, 1152) == words_bytes(p.rb),
        plaintext_with(p, md).subrange(1152, 1200) == md + word_bytes(p.m_prime) + word_bytes(
            p.length,
        ) + Seq::new(8, |i: int| 0x08u8),
{
    let text = plaintext_with(p, md);
    assert(text.subrange(0, 384) =~= words_bytes(p.y));
    assert(text.subrange(384, 768) =~= words_bytes(p.m));
    assert(text.subrange(768, 1152) =~= words_bytes(p.rb));
    assert(text.subrange(1152, 1200) =~= md + word_bytes(p.m_prime) + word_bytes(p.length)
        + Seq::new(8, |i: int| 0x08u8));
}

/// The plaintext up to the end of M depends on Y and M alone.
pub proof fn law_plaintext_starts_with_y_and_m(
    p1: PlainParams,
    md1: Seq<u8>,
    p2: PlainParams,
    md2: Seq<u8>,
)
    requires
        is_whole(p1),
        is_whole(p2),
        p1.y == p2.y,
        p1.m == p2.m,
    ensures
        plaintext_with(p1, md1).take(768) == plaintext_with(p2, md2).take(768),
{
    let start = words_bytes(p1.y) + words_bytes(p1.m);
    assert(plaintext_with(p1, md1).take(768) =~= start);
    assert(plaintext_with(p2, md2).take(768) =~= start);
}

/// Parameters, and the digest, can be told by the plaintext.
pub proof fn law_plaintext_tells_params(
    p1: PlainParams,
    md1: Seq<u8>,
    p2: PlainParams,
    md2: Seq<u8>,
)
    requires
        is_whole(p1),
        is_whole(p2),
        md1.len() == 32,
        md2.len() == 32,
        plaintext_with(p1, md1) == plaintext_with(p2, md2),
    ensures
        p1 == p2,
        md1 == md2,
{
    law_plaintext_layout(p1, md1);
    law_plaintext_layout(p2, md2);
    lemma_words_round_trip(p1.y);
    lemma_words_round_trip(p2.y);
    lemma_words_round_trip(p1.m);
    lemma_words_round_trip(p2.m);
    lemma_words_round_trip(p1.rb);
    lemma_words_round_trip(p2.rb);
    let pad = Seq::new(8, |i: int| 0x08u8);
    let box1 = md1 + word_bytes(p1.m_prime) + word_bytes(p1.length) + pad;
    let box2 = md2 + word_bytes(p2.m_prime) + word_bytes(p2.length) + pad;
    assert(box1.subrange(0, 32) =~= md1);
    assert(box2.subrange(0, 32) =~= md2);
    assert(box1.subrange(32, 36) =~= word_bytes(p1.m_prime));
    assert(box2.subrange(32, 36) =~= word_bytes(p2.m_prime));
    assert(box1.subrange(36, 40) =~= word_bytes(p1.length));
    assert(box2.subrange(36, 40) =~= word_bytes(p2.length));
    lemma_word_round_trip(p1.m_prime);
    lemma_word_round_trip(p2.m_prime);
    lemma_word_round_trip(p1.length);
    lemma_word_round_trip(p2.length);
}

/// A 64-bit number is recovered from its bytes.
proof fn lemma_u64_round_trip(value: u64)
    ensures
        u64_bytes(value).len() == 8,
        u64_at(u64_bytes(value), 0) == value,
{
    let low = (value % 0x1_0000_0000) as u32;
    let high = (value / 0x1_0000_0000) as u32;
    let bytes = u64_bytes(value);
    lemma_word_round_trip(low);
    lemma_word_round_trip(high);
    assert(word_at(bytes, 0) == word_at(word_bytes(low), 0));
    assert(word_at(bytes, 4) == word_at(word_bytes(high), 0));
}

/// The length of the first field, and what follows it.
proof fn lemma_first_field(field: Seq<u8>, rest: Seq<u8>)
    requires
        field.len() <= u64::MAX,
    ensures
        ({
            let bytes = with_length(field) + rest;
            &&& u64_at(bytes, 0) == field.len()
            &&& bytes.len() >= 8 + field.len()
            &&& bytes.subrange(8, 8 + field.len() as int) == field
            &&& bytes.skip(8 + field.len() as int) == rest
        }),
{
    let bytes = with_length(field) + rest;
    let head = u64_bytes(field.len() as u64);
    lemma_u64_round_trip(field.len() as u64);
    assert(word_at(bytes, 0) == word_at(head, 0));
    assert(word_at(bytes, 4) == word_at(head, 4));
    assert(bytes.subrange(8, 8 + field.len() as int) =~= field);
    assert(bytes.skip(8 + field.len() as int) =~= rest);
}

/// Two byte strings with their lengths in front, followed by anything, are the same only if the
/// byte strings are, and what follows them.
proof fn lemma_fields_separate(f1: Seq<u8>, r1: Seq<u8>, f2: Seq<u8>, r2: Seq<u8>)
    requires
        f1.len() <= u64::MAX,
        f2.len() <= u64::MAX,
        with_length(f1) + r1 == with_length(f2) + r2,
    ensures
        f1 == f2,
        r1 == r2,
{
    lemma_first_field(f1, r1);
    lemma_first_field(f2, r2);
}

/// Factory data can be told by its image.
pub proof fn law_image_tells_data(data1: FactoryView, data2: FactoryView)
    requires
        image_fits(data1),
        image_fits(data2),
        factory_image(data1) == factory_image(data2),
    ensures
        data1 == data2,
{
    let p1 = data1.ds_encrypted_params;
    let p2 = data2.ds_encrypted_params;
    let c1 = with_length(data1.ca_cert) + with_length(data1.device_cert);
    let c2 = with_length(data2.ca_cert) + with_length(data2.device_cert);
    let none = Seq::<u8>::empty();
    assert(factory_image(data1).skip(1) =~= encoded_fields(data1));
    assert(factory_image(data2).skip(1) =~= encoded_fields(data2));
    assert(encoded_fields(data1) =~= with_length(p1) + c1);
    assert(encoded_fields(data2) =~= with_length(p2) + c2);
    lemma_fields_separate(p1, c1, p2, c2);
    lemma_fields_separate(
        data1.ca_cert,
        with_length(data1.device_cert),
        data2.ca_cert,
        with_length(data2.device_cert),
    );
    assert(with_length(data1.device_cert) + none =~= with_length(data1.device_cert));
    assert(with_length(data2.device_cert) + none =~= with_length(data2.device_cert));
    lemma_fields_separate(data1.device_cert, none, data2.device_cert, none);
}

/// From a partition that an image was flashed to, whatever lies behind the image, a device
/// takes the encrypted parameters of the image.
pub proof fn law_device_reads_params(data: FactoryView, behind: Seq<u8>)
    requires
        image_fits(data),
        data.ds_encrypted_params.len() == 1216,
    ensures
        ({
            let partition = factory_image(data) + behind;
            &&& partition[0] == 0
            &&& partition.len() >= 1225
            &&& stated_len(partition) == 1216
            &&& partition.subrange(9, 1225) == data.ds_encrypted_params
        }),
{
    let partition = factory_image(data) + behind;
    let rest = with_length(data.ca_cert) + with_length(data.device_cert) + behind;
    let fields = with_length(data.ds_encrypted_params) + rest;
    lemma_first_field(data.ds_encrypted_params, rest);
    assert(partition.skip(1) =~= fields);
    assert(word_at(partition, 1) == word_at(fields, 0)) by {
        assert(forall|i: int| 0 <= i < 4 ==> partition[1 + i] == #[trigger] fields[i]);
    }
    assert(word_at(partition, 5) == word_at(fields, 4)) by {
        assert(forall|i: int| 4 <= i < 8 ==> partition[1 + i] == #[trigger] fields[i]);
    }
    assert(partition.subrange(9, 1225) =~= fields.subrange(8, 1224));
}

/// The driver accepts these parameters for an RSA-3072 key, and finds in them this initialization
/// vector, and each operand and the box at the place in this ciphertext that it has in the
/// plaintext.
pub open spec fn driver_finds(params: Seq<u8>, iv: Seq<u8>, ct: Seq<u8>) -> bool {
    &&& params_fit(params, KeySize::Rsa3072.spec_bytes())
    &&& params_iv(params) == iv
    &&& params_operand(params, 384, 0) == ct.subrange(0, 384)
    &&& params_operand(params, 384, 1) == ct.subrange(384, 768)
    &&& params_operand(params, 384, 2) == ct.subrange(768, 1152)
    &&& params_box(params, 384) == ct.subrange(1152, 1200)
}

/// The driver accepts the encrypted parameters that a device takes from its partition for an
/// RSA-3072 key, and finds in them the initialization vector and the ciphertext.
pub proof fn law_driver_accepts_params(iv: Seq<u8>, ct: Seq<u8>)
    requires
        iv.len() == 16,
        ct.len() == 1200,
    ensures
        driver_finds(driver_params(iv + ct), iv, ct),
{
    let params = driver_params(iv + ct);
    lemma_word_round_trip(1216);
    assert(word_at(params, 0) == word_at(word_bytes(1216), 0));
    assert(params_iv(params) =~= iv);
    assert(params_operand(params, 384, 0) =~= ct.subrange(0, 384));
    assert(params_operand(params, 384, 1) =~= ct.subrange(384, 768));
    assert(params_operand(params, 384, 2) =~= ct.subrange(768, 1152));
    assert(params_box(params, 384) =~= ct.subrange(1152, 1200));
}

/// From a partition with the image of `data`, a device takes parameters in which the driver
/// finds this initialization vector and this ciphertext.
pub open spec fn reaches_driver(
    data: FactoryView,
    behind: Seq<u8>,
    iv: Seq<u8>,
    ct: Seq<u8>,
) -> bool {
    let partition = factory_image(data) + behind;
    stated_len(partition) == 1216 && driver_finds(
        driver_params(partition.subrange(9, 1225)),
        iv,
        ct,
    )
}

/// Parameters of an initialization vector and a ciphertext get from an image to the driver.
proof fn lemma_image_reaches_driver(
    data: FactoryView,
    behind: Seq<u8>,
    iv: Seq<u8>,
    ct: Seq<u8>,
)
    requires
        image_fits(data),
        data.ds_encrypted_params == iv + ct,
        iv.len() == 16,
        ct.len() == 1200,
    ensures
        reaches_driver(data, behind, iv, ct),
{
    law_device_reads_params(data, behind);
    law_driver_accepts_params(iv, ct);
}

/// What is provisioned reaches the driver: the initialization vector and the ciphertext of a
/// key get from its image to the driver, whatever lies behind the image in the partition. The
/// premise is what making the image promises.
pub proof fn law_provisioned_key_reaches_driver(
    n: nat,
    d: nat,
    hmac_key: Seq<u8>,
    ca_cert: Seq<u8>,
    device_cert: Seq<u8>,
    behind: Seq<u8>,
)
    requires
        1241 + ca_cert.len() + device_cert.len() <= isize::MAX,
    ensures
        ds_params_of(n, d, hmac_key).len() == 1216 ==> reaches_driver(
            factory_data_of(n, d, hmac_key, ca_cert, device_cert),
            behind,
            ds_iv(),
            ds_ciphertext_of(n, d, hmac_key),
        ),
{
    let ct = ds_ciphertext_of(n, d, hmac_key);
    let data = factory_data_of(n, d, hmac_key, ca_cert, device_cert);
    assert(ds_iv().len() == 16);
    if ds_params_of(n, d, hmac_key).len() == 1216 {
        assert(ct.len() == 1200);
        lemma_image_reaches_driver(data, behind, ds_iv(), ct);
    }
}

/// What [`EspDsPData`] holds is what its fields hold.
pub proof fn law_params_view(data: EspDsPData)
    ensures
        data@.y == data.y@,
        data@.m == data.m@,
        data@.rb == data.rb@,
        data@.m_prime == data.m_prime,
        data@.length == data.length,
{
}

/// A number is written out as `max_size` bytes, least significant first: as many whole words as
/// there are and as fit, then zeros.
pub proof fn law_number_bytes(words: Seq<u32>, max_size: nat, i: int)
    ensures
        number_bytes(words, max_size).len() == max_size,
        0 <= i < max_size && i / 4 < words.len() && i / 4 < max_size / 4 ==> number_bytes(
            words,
            max_size,
        )[i] == word_bytes(words[i / 4])[i % 4],
        0 <= i < max_size && (i / 4 >= words.len() || i / 4 >= max_size / 4) ==> number_bytes(
            words,
            max_size,
        )[i] == 0,
{
}

/// Encrypted material is the initialization vector and, under the key and that vector, the
/// ciphertext of a plaintext that is made of numbers, digest, M', length and padding: the numbers
/// are Y, M and Rb in 384 bytes each, and the digest is that of everything but the padding.
pub proof fn law_sealed_material(p: PlainParams, aes_key: Seq<u8>, iv: Seq<u8>)
    requires
        is_whole(p),
    ensures
        sealed(p, aes_key, iv) == iv + aes256_cbc_of(aes_key, iv, plaintext(p)),
        ({
            let text = plaintext(p);
            let len = text.len();
            let numbers = text.take(1152);
            let tail = text.subrange(len - 16, len - 8);
            &&& len >= 1168
            &&& text == numbers + sha256_of(numbers + tail) + tail + Seq::new(8, |i: int| 0x08u8)
            &&& le_value(text.subrange(0, 384)) == words_value(p.y)
            &&& le_value(text.subrange(384, 768)) == words_value(p.m)
            &&& le_value(text.subrange(768, 1152)) == words_value(p.rb)
            &&& le_value(text.subrange(len - 16, len - 12)) == p.m_prime
            &&& le_value(text.subrange(len - 12, len - 8)) == p.length
        }),
{
    let text = plaintext(p);
    let len = text.len();
    let numbers = text.take(1152);
    let tail = text.subrange(len - 16, len - 8);
    let md = sha256_of(words_bytes(p.y) + words_bytes(p.m) + words_bytes(p.rb) + (word_bytes(
        p.m_prime,
    ) + word_bytes(p.length)));
    law_words_and_bytes(p.y, Seq::empty(), 0);
    law_words_and_bytes(p.m, Seq::empty(), 0);
    law_words_and_bytes(p.rb, Seq::empty(), 0);
    law_word_value(p.m_prime);
    law_word_value(p.length);
    assert(text.len() == 1168 + md.len());
    assert(numbers =~= words_bytes(p.y) + words_bytes(p.m) + words_bytes(p.rb));
    assert(tail =~= word_bytes(p.m_prime) + word_bytes(p.length));
    assert(text =~= numbers + md + tail + Seq::new(8, |i: int| 0x08u8));
    assert(text.subrange(0, 384) =~= words_bytes(p.y));
    assert(text.subrange(384, 768) =~= words_bytes(p.m));
    assert(text.subrange(768, 1152) =~= words_bytes(p.rb));
    assert(text.subrange(len - 16, len - 12) =~= word_bytes(p.m_prime));
    assert(text.subrange(len - 12, len - 8) =~= word_bytes(p.length));
}

/// The encrypted parameters of a key are a fixed initialization vector and the ciphertext of the
/// key's plaintext under the HMAC of 32 bytes `ff`: the AES key depends on the HMAC key alone.
/// The plaintext holds the private exponent, the modulus and 2^6144 mod M, of each the 3072 low
/// bits, the digest, the constant that makes its product with the modulus -1 modulo 2^32, the
/// length 95 and eight bytes `08`.
pub proof fn law_encrypted_params_of_key(n: nat, d: nat, hmac_key: Seq<u8>)
    requires
        n % 2 == 1,
    ensures
        ({
            let iv = seq![
                0xb8u8, 0xb4, 0x69, 0x18, 0x28, 0xa3, 0x91, 0xd9, 0xd6, 0x62, 0x85, 0x8c, 0xc9,
                0x79, 0x48, 0x86,
            ];
            let aes_key = hmac_sha256_of(hmac_key, Seq::new(32, |i: int| 0xffu8));
            let text = plaintext(plain_params_of(n, d));
            let len = text.len();
            let numbers = text.take(1152);
            let tail = text.subrange(len - 16, len - 8);
            &&& ds_params_of(n, d, hmac_key) == iv + aes256_cbc_of(aes_key, iv, text)
            &&& ds_params_of(n, d, hmac_key).skip(16) == aes256_cbc_of(aes_key, iv, text)
            &&& ds_iv() == iv
            &&& ds_ciphertext_of(n, d, hmac_key) == aes256_cbc_of(aes_key, iv, text)
            &&& len >= 1168
            &&& text == numbers + sha256_of(numbers + tail) + tail + Seq::new(8, |i: int| 0x08u8)
            &&& le_value(text.subrange(0, 384)) == d % pow2(3072)
            &&& le_value(text.subrange(384, 768)) == n % pow2(3072)
            &&& le_value(text.subrange(768, 1152)) == (pow2(6144) % n) % pow2(3072)
            &&& (le_value(text.subrange(len - 16, len - 12)) * n) % 0x1_0000_0000 == 0xffff_ffff
            &&& le_value(text.subrange(len - 12, len - 8)) == 95
        }),
{
    let p = plain_params_of(n, d);
    let iv = seq![
        0xb8u8, 0xb4, 0x69, 0x18, 0x28, 0xa3, 0x91, 0xd9, 0xd6, 0x62, 0x85, 0x8c, 0xc9, 0x79, 0x48,
        0x86,
    ];
    let message = Seq::new(32, |i: int| 0xffu8);
    let ct = aes256_cbc_of(hmac_sha256_of(hmac_key, message), iv, plaintext(p));
    assert(ds_iv() =~= iv);
    assert(key_message() =~= message);
    assert(ds_params_of(n, d, hmac_key) =~= iv + ct);
    assert((iv + ct).skip(16) =~= ct);
    law_sealed_material(p, Seq::empty(), iv);
    law_number_cut_to_words(d, 96);
    law_number_cut_to_words(n, 96);
    law_number_cut_to_words(pow2(6144) % n, 96);
    lemma_m_prime_exists(n);
    law_m_prime_of_modulus(p.m_prime, n);
}

/// Two keys under one HMAC key have their parameters encrypted under one AES key, and what
/// one HMAC key gives does not depend on the key that is encrypted.
pub proof fn law_aes_key_depends_on_hmac_key_alone(
    n1: nat,
    d1: nat,
    n2: nat,
    d2: nat,
    hmac_key: Seq<u8>,
)
    requires
        n1 % 2 == 1,
        n2 % 2 == 1,
    ensures
        exists|aes_key: Seq<u8>|
            #![trigger aes256_cbc_of(aes_key, ds_iv(), plaintext(plain_params_of(n1, d1)))]
            ds_params_of(n1, d1, hmac_key) == ds_iv() + aes256_cbc_of(
                aes_key,
                ds_iv(),
                plaintext(plain_params_of(n1, d1)),
            ) && ds_params_of(n2, d2, hmac_key) == ds_iv() + aes256_cbc_of(
                aes_key,
                ds_iv(),
                plaintext(plain_params_of(n2, d2)),
            ),
{
    law_encrypted_params_of_key(n1, d1, hmac_key);
    law_encrypted_params_of_key(n2, d2, hmac_key);
    let aes_key = hmac_sha256_of(hmac_key, Seq::new(32, |i: int| 0xffu8));
    assert(ds_params_of(n1, d1, hmac_key) == ds_iv() + aes256_cbc_of(
        aes_key,
        ds_iv(),
        plaintext(plain_params_of(n1, d1)),
    ));
}

/// The 64-bit number that is read at a place is that of the eight bytes there.
proof fn lemma_u64_at_value(bytes: Seq<u8>, at: int)
    requires
        0 <= at,
        at + 8 <= bytes.len(),
    ensures
        u64_at(bytes, at) == le_value(bytes.subrange(at, at + 8)),
{
    let part = bytes.subrange(at, at + 8);
    law_word_is_little_endian(bytes, at, 0);
    law_word_is_little_endian(bytes, at + 4, 0);
    law_words_and_bytes(Seq::empty(), part, 0);
    law_words_and_bytes(Seq::empty(), part, 1);
    let words = bytes_words(part);
    let none = Seq::<u32>::empty();
    assert(words =~= seq![words[0]] + (seq![words[1]] + none));
    law_words_value_of_words(words[1], none);
    law_words_value_of_words(words[0], seq![words[1]] + none);
}

/// A byte string with its length in front, followed by anything, is read back: the length in
/// eight bytes, least significant first, then the bytes.
proof fn lemma_field_at(bytes: Seq<u8>, at: int, field: Seq<u8>, rest: Seq<u8>)
    requires
        0 <= at <= bytes.len(),
        field.len() <= u64::MAX,
        bytes.skip(at) == with_length(field) + rest,
    ensures
        at + 8 + field.len() <= bytes.len(),
        le_value(bytes.subrange(at, at + 8)) == field.len(),
        bytes.subrange(at + 8, at + 8 + field.len()) == field,
        bytes.skip(at + 8 + field.len()) == rest,
{
    let head = u64_bytes(field.len() as u64);
    let whole = with_length(field) + rest;
    law_u64_is_little_endian(field.len() as u64);
    assert(whole =~= head + field + rest);
    assert(whole.len() == bytes.len() - at);
    assert(bytes.subrange(at, at + 8) =~= whole.subrange(0, 8));
    assert(whole.subrange(0, 8) =~= head);
    assert(bytes.subrange(at + 8, at + 8 + field.len()) =~= whole.subrange(
        8,
        8 + field.len() as int,
    ));
    assert(whole.subrange(8, 8 + field.len() as int) =~= field);
    assert(bytes.skip(at + 8 + field.len()) =~= whole.skip(8 + field.len() as int));
    assert(whole.skip(8 + field.len() as int) =~= rest);
}

/// An image is read back field by field: the version zero, then the encrypted parameters, the
/// certificate of the CA and the certificate of the device, in this order, each behind its length
/// in eight bytes, least significant first; and there the image ends.
pub proof fn law_image_fields(data: FactoryView)
    requires
        25 + data.ds_encrypted_params.len() + data.ca_cert.len() + data.device_cert.len()
            <= isize::MAX,
    ensures
        ({
            let image = factory_image(data);
            let params_at: int = 9;
            let ca_at = params_at + data.ds_encrypted_params.len() + 8;
            let device_at = ca_at + data.ca_cert.len() + 8;
            let end = device_at + data.device_cert.len();
            &&& image.len() == end
            &&& image[0] == 0
            &&& le_value(image.subrange(1, 9)) == data.ds_encrypted_params.len()
            &&& image.subrange(params_at, ca_at - 8) == data.ds_encrypted_params
            &&& le_value(image.subrange(ca_at - 8, ca_at)) == data.ca_cert.len()
            &&& image.subrange(ca_at, device_at - 8) == data.ca_cert
            &&& le_value(image.subrange(device_at - 8, device_at)) == data.device_cert.len()
            &&& image.subrange(device_at, end) == data.device_cert
        }),
{
    let image = factory_image(data);
    let params = data.ds_encrypted_params;
    let ca = data.ca_cert;
    let device = data.device_cert;
    let rest = with_length(ca) + with_length(device);
    assert(image.skip(1) =~= with_length(params) + rest);
    assert(image.len() >= 1 && image[0] == 0);
    lemma_field_at(image, 1, params, rest);
    let ca_at = 17 + params.len() as int;
    lemma_last_fields(image, ca_at - 8, ca, device);
}

/// Two byte strings with their lengths in front, at the end of others, are read back.
proof fn lemma_last_fields(bytes: Seq<u8>, at: int, field: Seq<u8>, last: Seq<u8>)
    requires
        0 <= at <= bytes.len(),
        field.len() <= u64::MAX,
        last.len() <= u64::MAX,
        bytes.skip(at) == with_length(field) + with_length(last),
    ensures
        bytes.len() == at + 16 + field.len() + last.len(),
        le_value(bytes.subrange(at, at + 8)) == field.len(),
        bytes.subrange(at + 8, at + 8 + field.len()) == field,
        le_value(bytes.subrange(at + 8 + field.len(), at + 16 + field.len())) == last.len(),
        bytes.subrange(at + 16 + field.len(), at + 16 + field.len() + last.len()) == last,
{
    let none = Seq::<u8>::empty();
    let next = at + 8 + field.len();
    lemma_field_at(bytes, at, field, with_length(last));
    assert(with_length(last) + none =~= with_length(last));
    lemma_field_at(bytes, next, last, none);
    assert(bytes.skip(next + 8 + last.len()).len() == 0);
}

/// What [`FactoryData`] holds is what its fields hold, the data of a key have the parts that they
/// are made of, and an image fits unless memory could not hold it.
pub proof fn law_factory_data_view(
    data: FactoryData,
    n: nat,
    d: nat,
    hmac_key: Seq<u8>,
    ca_cert: Seq<u8>,
    device_cert: Seq<u8>,
)
    ensures
        data@.ds_encrypted_params == data.ds_encrypted_params@,
        data@.ca_cert == data.certificate.ca_cert@,
        data@.device_cert == data.certificate.device_cert@,
        image_fits(data@) <==> 25 + data.ds_encrypted_params@.len()
            + data.certificate.ca_cert@.len() + data.certificate.device_cert@.len() <= isize::MAX,
        factory_data_of(n, d, hmac_key, ca_cert, device_cert).ds_encrypted_params == ds_params_of(
            n,
            d,
            hmac_key,
        ),
        factory_data_of(n, d, hmac_key, ca_cert, device_cert).ca_cert == ca_cert,
        factory_data_of(n, d, hmac_key, ca_cert, device_cert).device_cert == device_cert,
{
}

/// The length that a partition states is the number in the eight bytes behind the version, and
/// what the driver gets is 1216 in four bytes and then the payload.
pub proof fn law_device_repacks(partition: Seq<u8>, payload: Seq<u8>)
    requires
        partition.len() >= 9,
    ensures
        le_value(partition.subrange(1, 9)) <= u64::MAX,
        stated_len(partition) == (le_value(partition.subrange(1, 9)) as u64) as usize,
        le_value(driver_params(payload).take(4)) == 1216,
        driver_params(payload).skip(4) == payload,
{
    lemma_u64_at_value(partition, 1);
    law_word_value(1216);
    assert(driver_params(payload).take(4) =~= word_bytes(1216));
    assert(driver_params(payload).skip(4) =~= payload);
}

/// The label of the secure certificate partition, and no other, is looked for.
pub proof fn law_cert_label(label: Option<String>)
    ensures
        is_cert_label(label) <==> label is Some && label->0@ == "esp_secure_cert"@,
{
}

/// Loading a key: if `at` is the first block with one of the two tags of a private key, that block
/// decides; the key in it is returned if its modulus has 3072 bits, else its length in bits is
/// reported, and the decoder's own text if there is no key in it.
pub proof fn law_loading_takes_first_key_block(
    res: Result<RsaPrivateKey, KeyError>,
    blocks: Seq<(Seq<char>, Seq<u8>)>,
    at: int,
)
    requires
        is_loaded(res, blocks),
        0 <= at < blocks.len(),
        blocks[at].0 == "RSA PRIVATE KEY"@ || blocks[at].0 == "PRIVATE KEY"@,
        forall|i: int|
            0 <= i < at ==> (#[trigger] blocks[i]).0 != "RSA PRIVATE KEY"@ && blocks[i].0
                != "PRIVATE KEY"@,
    ensures
        match pkcs8_key_of(blocks[at].1) {
            Err(told) => res matches Err(KeyError::Decode { text }) && text@ == told,
            Ok(key) => if pow2(3071) <= key.0 < pow2(3072) {
                res matches Ok(found) && found.n@ == key.0 && found.d@ == key.1
            } else {
                res matches Err(KeyError::KeySize { bits }) && key.0 < pow2(bits as nat) && (bits
                    > 0 ==> pow2((bits - 1) as nat) <= key.0)
            },
        },
{
    assert(is_key_tag(blocks[at].0));
    assert forall|i: int| 0 <= i < at implies !is_key_tag(#[trigger] blocks[i].0) by {
        assert(blocks[i].0 != "RSA PRIVATE KEY"@);
    }
    assert(is_first_key_block(blocks, at));
    assert forall|other: int| #![trigger blocks[other]] is_first_key_block(blocks, other) implies
        other == at by {
        if at < other {
            assert(!is_key_tag(blocks[at].0));
        }
        if other < at {
            assert(!is_key_tag(blocks[other].0));
        }
    }
    lemma_pow2_pos(0);
    match res {
        Err(KeyError::KeySize { bits }) => {
            let key = pkcs8_key_of(blocks[at].1)->Ok_0;
            law_bit_length_bounds_number(key.0, bits as nat);
            law_bit_length_bounds_number(key.0, 3072);
            lemma_pow2_pos(3071);
            if pow2(3071) <= key.0 < pow2(3072) {
                lemma_bit_length_unique(key.0, bits as nat, 3072);
            }
        },
        Ok(found) => {
            law_bit_length_bounds_number(found.n@, 3072);
            lemma_pow2_pos(3071);
        },
        _ => {},
    }
}

/// Loading a key reports that there is none if and only if no block has a tag of a private key,
/// and blocks are seen by their tags and contents.
pub proof fn law_loading_without_key_block(
    res: Result<RsaPrivateKey, KeyError>,
    blocks: Seq<PemBlock>,
    i: int,
)
    requires
        is_loaded(res, block_views(blocks)),
    ensures
        block_views(blocks).len() == blocks.len(),
        0 <= i < blocks.len() ==> block_views(blocks)[i] == (
            blocks[i].tag@,
            blocks[i].contents@,
        ),
        (forall|j: int|
            0 <= j < blocks.len() ==> (#[trigger] blocks[j]).tag@ != "RSA PRIVATE KEY"@
                && blocks[j].tag@ != "PRIVATE KEY"@) <==> res matches Err(KeyError::NotFound),
{
    let views = block_views(blocks);
    if res matches Err(KeyError::NotFound) {
        assert forall|j: int| 0 <= j < blocks.len() implies (#[trigger] blocks[j]).tag@
            != "RSA PRIVATE KEY"@ && blocks[j].tag@ != "PRIVATE KEY"@ by {
            assert(!is_key_tag(views[j].0));
        }
    } else {
        let at = choose|at: int| #![trigger views[at]] is_first_key_block(views, at);
        assert(is_first_key_block(views, at));
        assert(is_key_tag(views[at].0));
        assert(blocks[at].tag@ == views[at].0);
    }
}

} // verus!
