use aes::cipher::block_padding::NoPadding;
use aes::cipher::BlockDecryptMut;
use aes::cipher::KeyIvInit;
use aes::Aes256;
use cbc::Decryptor;
use esp_ds::bignum::BigNumber;
use esp_ds::ds::pad_message_for_rsa;
use esp_ds::ds::KeySize;
use esp_ds::ds::OperandWidth;
use esp_ds::factory::encode_factory_data;
use esp_ds::factory::find_cert_partition;
use esp_ds::factory::make_image;
use esp_ds::factory::make_image_with_new_key;
use esp_ds::factory::partition_payload_len;
use esp_ds::factory::partition_version;
use esp_ds::factory::read_encrypted_params;
use esp_ds::factory::Certificate;
use esp_ds::factory::FactoryData;
use esp_ds::factory::ImageError;
use esp_ds::factory::UnexpectedLength;
use esp_ds::key::check_key_size;
use esp_ds::key::find_key_block;
use esp_ds::key::load_from_blocks;
use esp_ds::key::load_rsa_private_key;
use esp_ds::key::KeyError;
use esp_ds::key::PemBlock;
use esp_ds::key::RsaPrivateKey;
use esp_ds::params::assemble_digest_input;
use esp_ds::params::assemble_plaintext;
use esp_ds::params::encrypt_ds_params;
use esp_ds::params::encrypt_private_key_material;
use esp_ds::params::EspDsPData;
use esp_ds::params::ParamsError;
use esp_ds::program::assemble_signature;
use esp_ds::program::conclude;
use esp_ds::program::load_operands;
use esp_ds::program::Memory;
use hmac::Hmac;
use hmac::Mac;
use rsa::pkcs8::DecodePrivateKey;
use rsa::pkcs8::EncodePrivateKey;
use rsa::traits::PrivateKeyParts;
use rsa::traits::PublicKeyParts;
use rsa::BigUint;
use sha2::Digest;
use sha2::Sha256;

const IV: [u8; 16] = [
    0xb8, 0xb4, 0x69, 0x18, 0x28, 0xa3, 0x91, 0xd9, 0xd6, 0x62, 0x85, 0x8c, 0xc9, 0x79, 0x48, 0x86,
];

/// A key whose factors are 2^half - 1 and 2^half - 3.
fn key_of(half: usize) -> rsa::RsaPrivateKey {
    let top = BigUint::from(1u8) << half;
    rsa::RsaPrivateKey::from_p_q(&top - 1u8, &top - 3u8, BigUint::from(65537u32)).unwrap()
}

/// A key whose factors are prime.
fn prime_key() -> rsa::RsaPrivateKey {
    let top = BigUint::from(1u8) << 1536usize;
    rsa::RsaPrivateKey::from_p_q(&top - 3453u32, &top - 4977u32, BigUint::from(65537u32)).unwrap()
}

fn der_of(key: &rsa::RsaPrivateKey) -> Vec<u8> {
    key.to_pkcs8_der().unwrap().as_bytes().to_vec()
}

fn pem_of(blocks: &[(&str, Vec<u8>)]) -> Vec<u8> {
    let pems: Vec<pem::Pem> = blocks
        .iter()
        .map(|(tag, contents)| pem::Pem::new(*tag, contents.clone()))
        .collect();
    pem::encode_many(&pems).into_bytes()
}

fn library_key(key: &rsa::RsaPrivateKey) -> RsaPrivateKey {
    RsaPrivateKey {
        n: BigNumber {
            bytes: key.n().to_bytes_le(),
        },
        d: BigNumber {
            bytes: key.d().to_bytes_le(),
        },
    }
}

fn padded(num: &BigUint) -> Vec<u8> {
    let mut bytes = num.to_bytes_le();
    bytes.resize(384, 0);
    bytes
}

fn derived_key(hmac_key: &[u8]) -> [u8; 32] {
    let mut mac = <Hmac<Sha256> as Mac>::new_from_slice(hmac_key).unwrap();
    mac.update(&[0xffu8; 32]);
    mac.finalize().into_bytes().into()
}

fn decrypt(aes_key: &[u8; 32], iv: &[u8], ct: &[u8]) -> Vec<u8> {
    let mut plain = vec![0u8; ct.len()];
    Decryptor::<Aes256>::new(aes_key.into(), iv.into())
        .decrypt_padded_b2b_mut::<NoPadding>(ct, &mut plain)
        .unwrap();
    plain
}

fn certificate() -> Certificate {
    Certificate {
        ca_cert: b"ca certificate".to_vec(),
        device_cert: b"device".to_vec(),
    }
}

#[test]
fn key_is_loaded_from_pem() {
    let key = key_of(1536);
    for tag in ["PRIVATE KEY", "RSA PRIVATE KEY"] {
        let loaded = load_rsa_private_key(&pem_of(&[(tag, der_of(&key))])).unwrap();
        assert_eq!(BigUint::from_bytes_le(&loaded.n.bytes), *key.n());
        assert_eq!(BigUint::from_bytes_le(&loaded.d.bytes), *key.d());
        assert!(EspDsPData::new(&loaded).is_ok());
    }
}

#[test]
fn first_private_key_decides() {
    let good = der_of(&key_of(1536));
    let other = der_of(&key_of(512));
    let after_certificate = pem_of(&[("CERTIFICATE", vec![1, 2, 3]), ("PRIVATE KEY", good.clone())]);
    assert!(load_rsa_private_key(&after_certificate).is_ok());
    let small_first = pem_of(&[("PRIVATE KEY", other.clone()), ("PRIVATE KEY", good.clone())]);
    assert!(matches!(
        load_rsa_private_key(&small_first),
        Err(KeyError::KeySize { bits: 1024 })
    ));
    let junk_first = pem_of(&[("RSA PRIVATE KEY", vec![1, 2, 3]), ("PRIVATE KEY", good.clone())]);
    assert!(matches!(
        load_rsa_private_key(&junk_first),
        Err(KeyError::Decode { .. })
    ));
    let good_first = pem_of(&[("PRIVATE KEY", good), ("PRIVATE KEY", other)]);
    assert!(load_rsa_private_key(&good_first).is_ok());
}

#[test]
fn missing_and_malformed_keys() {
    assert!(matches!(
        load_rsa_private_key(b"no pem here"),
        Err(KeyError::NotFound)
    ));
    let public = pem_of(&[("PUBLIC KEY", vec![1]), ("private key", vec![2])]);
    assert!(matches!(load_rsa_private_key(&public), Err(KeyError::NotFound)));
    assert!(matches!(
        load_rsa_private_key(b"-----BEGIN A-----\nAQID\n-----END B-----\n"),
        Err(KeyError::Pem { .. })
    ));
}

#[test]
fn key_blocks() {
    let block = |tag: &str| PemBlock {
        tag: tag.to_string(),
        contents: vec![0],
    };
    assert_eq!(find_key_block(&[]), None);
    assert_eq!(find_key_block(&[block("EC PRIVATE KEY")]), None);
    assert_eq!(
        find_key_block(&[block("CERTIFICATE"), block("RSA PRIVATE KEY"), block("PRIVATE KEY")]),
        Some(1)
    );
    assert!(matches!(
        load_from_blocks(&[block("CERTIFICATE")]),
        Err(KeyError::NotFound)
    ));
    assert!(matches!(
        load_from_blocks(&[block("PRIVATE KEY")]),
        Err(KeyError::Decode { .. })
    ));
}

#[test]
fn key_sizes_are_checked() {
    let of_bits = |bits: usize| RsaPrivateKey {
        n: BigNumber::power_of_two(bits - 1),
        d: BigNumber { bytes: vec![3] },
    };
    assert!(check_key_size(of_bits(3072)).is_ok());
    assert!(matches!(
        check_key_size(of_bits(3071)),
        Err(KeyError::KeySize { bits: 3071 })
    ));
    assert!(matches!(
        check_key_size(of_bits(3073)),
        Err(KeyError::KeySize { bits: 3073 })
    ));
}

#[test]
fn parameters_hold_the_key() {
    let key = key_of(1536);
    let data = EspDsPData::new(&library_key(&key)).unwrap();
    let bytes = |words: &[u32; 96]| -> Vec<u8> {
        words.iter().flat_map(|w| w.to_le_bytes()).collect()
    };
    assert_eq!(bytes(&data.y), padded(key.d()));
    assert_eq!(bytes(&data.m), padded(key.n()));
    let rb = (BigUint::from(1u8) << 6144usize) % key.n();
    assert_eq!(bytes(&data.rb), padded(&rb));
    assert_eq!(data.m[0], 3);
    assert_eq!(data.m_prime, 0x5555_5555);
    assert_eq!(data.length, 95);
}

#[test]
fn numbers_of_more_than_3072_bits_are_cut_off() {
    let key = RsaPrivateKey {
        n: BigNumber { bytes: vec![9] },
        d: BigNumber::power_of_two(3072),
    };
    let data = EspDsPData::new(&key).unwrap();
    assert_eq!(data.y, [0u32; 96]);
    assert_eq!(data.rb[0], 1);
}

#[test]
fn even_modulus_has_no_parameters() {
    let key = RsaPrivateKey {
        n: BigNumber { bytes: vec![10] },
        d: BigNumber { bytes: vec![3] },
    };
    assert_eq!(
        EspDsPData::new(&key).err(),
        Some(ParamsError::NoModularInverse)
    );
    assert_eq!(
        encrypt_ds_params(&key, &[0u8; 32]),
        Err(ParamsError::NoModularInverse)
    );
    assert!(matches!(
        make_image(&key, &[0u8; 32], certificate()),
        Err(ImageError::Params(ParamsError::NoModularInverse))
    ));
    assert!(matches!(
        make_image_with_new_key(&key, certificate()),
        Err(ImageError::Params(ParamsError::NoModularInverse))
    ));
}

#[test]
fn encrypted_material_decrypts_to_its_fields() {
    let mut data = EspDsPData::new(&library_key(&key_of(1536))).unwrap();
    data.m_prime = 0x0102_0304;
    let aes_key = [0x42u8; 32];
    let iv = [0x24u8; 16];
    let sealed = encrypt_private_key_material(&data, &aes_key, &iv).unwrap();
    assert_eq!(sealed.len(), 1216);
    assert_eq!(sealed[..16], iv);
    let plain = decrypt(&aes_key, &iv, &sealed[16..]);
    let mut hashed = plain[..1152].to_vec();
    hashed.extend_from_slice(&[4, 3, 2, 1, 95, 0, 0, 0]);
    let md: [u8; 32] = Sha256::digest(&hashed).into();
    assert_eq!(plain[1152..1184], md);
    assert_eq!(plain[1184..1192], [4, 3, 2, 1, 95, 0, 0, 0]);
    assert_eq!(plain[1192..], [8u8; 8]);
}

#[test]
fn plaintext_has_its_fields_at_fixed_places() {
    let data = EspDsPData {
        y: [0x0403_0201; 96],
        m: [0x1413_1211; 96],
        rb: [0x2423_2221; 96],
        m_prime: 0x3433_3231,
        length: 95,
    };
    let plain = assemble_plaintext(&data, &[0x55; 32]);
    assert_eq!(plain.len(), 1200);
    assert_eq!(plain[..8], [1, 2, 3, 4, 1, 2, 3, 4]);
    assert_eq!(plain[380..388], [1, 2, 3, 4, 0x11, 0x12, 0x13, 0x14]);
    assert_eq!(plain[764..772], [0x11, 0x12, 0x13, 0x14, 0x21, 0x22, 0x23, 0x24]);
    assert_eq!(plain[1152..1184], [0x55; 32]);
    assert_eq!(
        plain[1184..],
        [0x31, 0x32, 0x33, 0x34, 95, 0, 0, 0, 8, 8, 8, 8, 8, 8, 8, 8]
    );
    let hashed = assemble_digest_input(&data);
    assert_eq!(hashed[..1152], plain[..1152]);
    assert_eq!(hashed[1152..], [0x31, 0x32, 0x33, 0x34, 95, 0, 0, 0]);
}

#[test]
fn parameters_are_encrypted_under_the_derived_key() {
    let key = key_of(1536);
    let hmac_key = [7u8; 32];
    let params = encrypt_ds_params(&library_key(&key), &hmac_key).unwrap();
    assert_eq!(params.len(), 1216);
    assert_eq!(params[..16], IV);
    let plain = decrypt(&derived_key(&hmac_key), &IV, &params[16..]);
    assert_eq!(plain[..384], padded(key.d())[..]);
    assert_eq!(plain[384..768], padded(key.n())[..]);
    assert_eq!(plain[1184..1192], [0x55, 0x55, 0x55, 0x55, 95, 0, 0, 0]);
    let other = encrypt_ds_params(&library_key(&key), &[8u8; 32]).unwrap();
    assert_ne!(params, other);
}

#[test]
fn factory_data_is_encoded_with_lengths() {
    let data = FactoryData {
        ds_encrypted_params: vec![1, 2, 3],
        certificate: Certificate {
            ca_cert: vec![4],
            device_cert: Vec::new(),
        },
    };
    assert_eq!(
        encode_factory_data(&data).unwrap(),
        vec![
            0, 3, 0, 0, 0, 0, 0, 0, 0, 1, 2, 3, 1, 0, 0, 0, 0, 0, 0, 0, 4, 0, 0, 0, 0, 0, 0, 0, 0
        ]
    );
}

#[test]
fn images_tell_their_fields_apart() {
    let image = |ca: &[u8], device: &[u8]| {
        encode_factory_data(&FactoryData {
            ds_encrypted_params: vec![9; 4],
            certificate: Certificate {
                ca_cert: ca.to_vec(),
                device_cert: device.to_vec(),
            },
        })
        .unwrap()
    };
    assert_ne!(image(b"ab", b"c"), image(b"a", b"bc"));
    assert_ne!(image(b"", b"abc"), image(b"abc", b""));
}

#[test]
fn provisioned_device_loads_its_parameters() {
    let key = key_of(1536);
    let hmac_key = [0x11u8; 32];
    let mut partition = make_image(&library_key(&key), &hmac_key, certificate()).unwrap();
    assert_eq!(partition.len(), 1225 + 8 + 14 + 8 + 6);
    partition.resize(0x2000, 0xff);
    assert_eq!(partition_version(&partition), 0);
    let params = read_encrypted_params(&partition).unwrap();
    assert_eq!(params.len(), 1220);
    assert_eq!(params[..4], 1216u32.to_le_bytes());
    assert_eq!(
        params[4..],
        encrypt_ds_params(&library_key(&key), &hmac_key).unwrap()[..]
    );
    let challenge = vec![0u8; 384];
    let program =
        load_operands(&params, &challenge, KeySize::Rsa3072, OperandWidth::Bits3072).unwrap();
    assert_eq!(program[0].memory, Memory::Iv);
    assert_eq!(program[0].value, 0x1869_b4b8);
}

#[test]
fn new_hmac_keys_open_their_image() {
    let key = key_of(1536);
    let (hmac_key, image) = make_image_with_new_key(&library_key(&key), certificate()).unwrap();
    let plain = decrypt(&derived_key(&hmac_key), &IV, &image[25..1225]);
    assert_eq!(plain[384..768], padded(key.n())[..]);
    let (other, _) = make_image_with_new_key(&library_key(&key), certificate()).unwrap();
    assert_ne!(hmac_key, other);
}

#[test]
fn device_makes_rsa_signatures() {
    let key = prime_key();
    let params = encrypt_ds_params(&library_key(&key), &[3u8; 32]).unwrap();
    let plain = decrypt(&derived_key(&[3u8; 32]), &params[..16], &params[16..]);
    let y = BigUint::from_bytes_le(&plain[..384]);
    let m = BigUint::from_bytes_le(&plain[384..768]);
    let digest: [u8; 32] = Sha256::digest(b"Hello, World!").into();
    let block = pad_message_for_rsa(&digest, 384, OperandWidth::Bits3072).unwrap();
    let mut packed = 1216u32.to_le_bytes().to_vec();
    packed.extend_from_slice(&params);
    let program =
        load_operands(&packed, &block, KeySize::Rsa3072, OperandWidth::Bits3072).unwrap();
    let x_bytes: Vec<u8> = program
        .iter()
        .filter(|w| w.memory == Memory::X)
        .flat_map(|w| w.value.to_le_bytes())
        .collect();
    let z = BigUint::from_bytes_le(&x_bytes).modpow(&y, &m);
    let z_words: Vec<u32> = padded(&z)
        .chunks(4)
        .map(|c| u32::from_le_bytes([c[0], c[1], c[2], c[3]]))
        .collect();
    let signature = conclude(0, assemble_signature(&z_words, KeySize::Rsa3072)).unwrap();
    let opened = BigUint::from_bytes_be(signature.as_bytes()).modpow(key.e(), key.n());
    assert_eq!(opened, BigUint::from_bytes_be(&block));
}

#[test]
fn encrypted_start_depends_on_y_and_m_alone() {
    let aes_key = [1u8; 32];
    let iv = [2u8; 16];
    let first = EspDsPData::new(&library_key(&key_of(1536))).unwrap();
    let mut second = EspDsPData::new(&library_key(&key_of(1536))).unwrap();
    second.rb[0] ^= 1;
    second.length = 7;
    let a = encrypt_private_key_material(&first, &aes_key, &iv).unwrap();
    let b = encrypt_private_key_material(&second, &aes_key, &iv).unwrap();
    assert_eq!(a[..784], b[..784]);
    assert_ne!(a[784..800], b[784..800]);
}

#[test]
fn errors_tell_the_user() {
    assert_eq!(
        KeyError::KeySize { bits: 1024 }.message(),
        "RSA key size must be 3072 bits, got 1024 bits"
    );
    assert_eq!(
        KeyError::NotFound.message(),
        "No RSA private key found in PEM data"
    );
    let pem_text = b"-----BEGIN A-----\nAQID\n-----END B-----\n";
    let outside = pem::parse_many(pem_text).unwrap_err().to_string();
    assert_eq!(load_rsa_private_key(pem_text).unwrap_err().message(), outside);
    let junk = pem_of(&[("PRIVATE KEY", vec![1])]);
    let outside = rsa::RsaPrivateKey::from_pkcs8_der(&[1]).unwrap_err().to_string();
    assert_eq!(load_rsa_private_key(&junk).unwrap_err().message(), outside);
    let rescued = pem_of(&[("PRIVATE KEY", vec![1]), ("PRIVATE KEY", der_of(&key_of(1536)))]);
    assert_eq!(load_rsa_private_key(&rescued).unwrap_err().message(), outside);
    assert_eq!(
        ParamsError::NoModularInverse.message(),
        "Failed to compute modular inverse for m_prime"
    );
    assert_eq!(ParamsError::Encryption.message(), "Encryption error: PadError");
    assert_eq!(
        ImageError::Params(ParamsError::NoModularInverse).message(),
        "Failed to compute modular inverse for m_prime"
    );
}

#[test]
fn partitions_are_found_by_label() {
    let label = |text: &str| Some(text.to_string());
    assert_eq!(find_cert_partition(&[]), None);
    assert_eq!(find_cert_partition(&[label("nvs"), None]), None);
    assert_eq!(
        find_cert_partition(&[
            label("nvs"),
            None,
            label("esp_secure_cert"),
            label("esp_secure_cert")
        ]),
        Some(2)
    );
    assert_eq!(
        partition_payload_len(&[0, 0xc0, 0x04, 0, 0, 0, 0, 0, 0]),
        1216
    );
}

#[test]
fn signatures_of_every_key_size_are_the_number_in_z() {
    for (key_size, width, half) in [
        (KeySize::Rsa2048, OperandWidth::Bits3072, 1024usize),
        (KeySize::Rsa3072, OperandWidth::Bits4096, 1536),
        (KeySize::Rsa4096, OperandWidth::Bits4096, 2048),
    ] {
        let key = key_of(half);
        let exponent = BigUint::from(5u8);
        let key_bytes = key_size.bytes();
        let digest: [u8; 32] = Sha256::digest(b"message").into();
        let block = pad_message_for_rsa(&digest, key_bytes, width).unwrap();
        let mut params = ((16 + 3 * key_bytes + 48) as u32).to_le_bytes().to_vec();
        params.resize(4 + 16 + 3 * key_bytes + 48, 0);
        let program = load_operands(&params, &block, key_size, width).unwrap();
        let x: Vec<u8> = program
            .iter()
            .filter(|w| w.memory == Memory::X)
            .flat_map(|w| w.value.to_le_bytes())
            .collect();
        let mut z = BigUint::from_bytes_le(&x).modpow(&exponent, key.n()).to_bytes_le();
        z.resize(key_bytes, 0);
        let words: Vec<u32> = z
            .chunks(4)
            .map(|c| u32::from_le_bytes([c[0], c[1], c[2], c[3]]))
            .collect();
        let signature = conclude(0, assemble_signature(&words, key_size)).unwrap();
        assert_eq!(
            BigUint::from_bytes_be(signature.as_bytes()),
            BigUint::from_bytes_be(&block[..key_bytes]).modpow(&exponent, key.n())
        );
    }
}

#[test]
fn partition_with_another_length_is_refused() {
    let data = FactoryData {
        ds_encrypted_params: vec![0; 1215],
        certificate: certificate(),
    };
    let partition = encode_factory_data(&data).unwrap();
    assert_eq!(
        read_encrypted_params(&partition),
        Err(UnexpectedLength { stated: 1215 })
    );
    assert_eq!(
        read_encrypted_params(&[0xff; 9]),
        Err(UnexpectedLength {
            stated: usize::MAX
        })
    );
}
