//! The factory data of a device: the image of its secure certificate partition, and how the
//! device takes the encrypted parameters out of it again.
use crate::crypto::random_key;
use crate::key::RsaPrivateKey;
use crate::params::ds_params_of;
use crate::params::encrypt_ds_params;
use crate::params::ParamsError;
use crate::words::read_word;
use crate::words::u64_bytes;
use crate::words::word_at;
use crate::words::word_bytes;
use crate::words::word_to_bytes;
use vstd::prelude::*;
use vstd::string::to_string_from_display_ensures;

verus! {

/// Length of the encrypted parameters of an RSA-3072 key.
pub const ENCRYPTED_PAYLOAD_LEN: usize = 1216;

/// Length of the encrypted parameters with the length field that the driver expects.
pub const ENCRYPTED_PARAMS_LEN: usize = 1220;

/// The certificates of a device, in PEM format.
#[derive(Debug, Clone, PartialEq)]
pub struct Certificate {
    pub ca_cert: Vec<u8>,
    pub device_cert: Vec<u8>,
}

/// What is flashed to the secure certificate partition.
#[derive(Debug, Clone, PartialEq)]
pub struct FactoryData {
    pub ds_encrypted_params: Vec<u8>,
    pub certificate: Certificate,
}

/// What [`FactoryData`] holds.
#[verifier::ext_equal]
pub struct FactoryView {
    pub ds_encrypted_params: Seq<u8>,
    pub ca_cert: Seq<u8>,
    pub device_cert: Seq<u8>,
}

impl View for FactoryData {
    type V = FactoryView;

    open spec fn view(&self) -> FactoryView {
        FactoryView {
            ds_encrypted_params: self.ds_encrypted_params@,
            ca_cert: self.certificate.ca_cert@,
            device_cert: self.certificate.device_cert@,
        }
    }
}

/// The error of the bincode crate.
#[verifier::external_type_specification]
#[verifier::external_body]
pub struct ExEncodeError(bincode::error::EncodeError);

/// Why no image could be made.
#[derive(Debug)]
pub enum ImageError {
    /// The key material could not be prepared.
    Params(ParamsError),
    /// The factory data could not be encoded.
    Encode(bincode::error::EncodeError),
}

impl ImageError {
    /// Returns what the user is told; of an error of an outside crate, that is its own text.
    pub fn message(&self) -> (text: String)
        ensures
            match self {
                ImageError::Params(e) => text@ == e.text(),
                ImageError::Encode(e) => to_string_from_display_ensures::<
                    bincode::error::EncodeError,
                >(e, text),
            },
    {
        match self {
            ImageError::Params(e) => e.message(),
            ImageError::Encode(e) => e.to_string(),
        }
    }
}

/// The length of some bytes, as a 64-bit number, then the bytes.
pub open spec fn with_length(bytes: Seq<u8>) -> Seq<u8> {
    u64_bytes(bytes.len() as u64) + bytes
}

/// Factory data without its version: each field with its length, in order.
pub open spec fn encoded_fields(data: FactoryView) -> Seq<u8> {
    with_length(data.ds_encrypted_params) + with_length(data.ca_cert) + with_length(
        data.device_cert,
    )
}

/// The image of factory data: the version byte zero, then the fields.
pub open spec fn factory_image(data: FactoryView) -> Seq<u8> {
    seq![0u8] + encoded_fields(data)
}

/// The image of factory data fits into memory.
pub open spec fn image_fits(data: FactoryView) -> bool {
    25 + data.ds_encrypted_params.len() + data.ca_cert.len() + data.device_cert.len()
        <= isize::MAX
}

/// `bincode::encode_to_vec`, with integers of fixed size, of a byte string and a pair of byte
/// strings: it always succeeds, and gives each byte string in turn, preceded by its length as
/// a little-endian 64-bit number. A result larger than memory can hold panics.
#[verifier::external_body]
fn encode_fields(first: &[u8], second: &[u8], third: &[u8]) -> (res: Result<
    Vec<u8>,
    bincode::error::EncodeError,
>)
    requires
        24 + first@.len() + second@.len() + third@.len() <= isize::MAX,
    ensures
        match res {
            Ok(bytes) => bytes@ == with_length(first@) + with_length(second@) + with_length(
                third@,
            ),
            Err(_) => false,
        },
{
    let config = bincode::config::standard().with_fixed_int_encoding();
    bincode::encode_to_vec((first, (second, third)), config)
}

/// Encodes factory data, with its version byte in front.
pub fn encode_factory_data(data: &FactoryData) -> (res: Result<
    Vec<u8>,
    bincode::error::EncodeError,
>)
    requires
        image_fits(data@),
    ensures
        res matches Ok(image) && image@ == factory_image(data@),
{
    let mut encoded: Vec<u8> = Vec::new();
    encoded.push(0);
    let fields = encode_fields(
        data.ds_encrypted_params.as_slice(),
        data.certificate.ca_cert.as_slice(),
        data.certificate.device_cert.as_slice(),
    );
    match fields {
        Ok(fields) => {
            encoded.extend_from_slice(fields.as_slice());
            assert(encoded@ =~= factory_image(data@));
            Ok(encoded)
        },
        Err(e) => Err(e),
    }
}

/// The factory data of a device with this key, HMAC key and certificates.
pub open spec fn factory_data_of(
    n: nat,
    d: nat,
    hmac_key: Seq<u8>,
    ca_cert: Seq<u8>,
    device_cert: Seq<u8>,
) -> FactoryView {
    FactoryView { ds_encrypted_params: ds_params_of(n, d, hmac_key), ca_cert, device_cert }
}

/// Encrypts the parameters of a key and makes the image that holds them and the certificates.
///
/// It fails if and only if the modulus of the key is even.
pub fn make_image(
    rsa_private: &RsaPrivateKey,
    hmac_key: &[u8; 32],
    certificate: Certificate,
) -> (res: Result<Vec<u8>, ImageError>)
    requires
        1241 + certificate.ca_cert@.len() + certificate.device_cert@.len() <= isize::MAX,
    ensures
        match res {
            Ok(image) => {
                &&& rsa_private.n@ % 2 == 1
                &&& ds_params_of(rsa_private.n@, rsa_private.d@, hmac_key@).len() == 1216
                &&& image@ == factory_image(
                    factory_data_of(
                        rsa_private.n@,
                        rsa_private.d@,
                        hmac_key@,
                        certificate.ca_cert@,
                        certificate.device_cert@,
                    ),
                )
            },
            Err(ImageError::Params(e)) => rsa_private.n@ % 2 == 0 && e
                == ParamsError::NoModularInverse,
            Err(ImageError::Encode(_)) => false,
        },
{
    let ds_encrypted_params = match encrypt_ds_params(rsa_private, hmac_key) {
        Ok(params) => params,
        Err(e) => return Err(ImageError::Params(e)),
    };
    let data = FactoryData { ds_encrypted_params, certificate };
    match encode_factory_data(&data) {
        Ok(image) => Ok(image),
        Err(e) => Err(ImageError::Encode(e)),
    }
}

/// Makes the image that holds the encrypted parameters of a key and the certificates under a
/// new HMAC key, which comes by chance, and returns both.
///
/// It fails if and only if the modulus of the key is even.
pub fn make_image_with_new_key(rsa_private: &RsaPrivateKey, certificate: Certificate) -> (res:
    Result<([u8; 32], Vec<u8>), ImageError>)
    requires
        1241 + certificate.ca_cert@.len() + certificate.device_cert@.len() <= isize::MAX,
    ensures
        match res {
            Ok((hmac_key, image)) => {
                &&& rsa_private.n@ % 2 == 1
                &&& ds_params_of(rsa_private.n@, rsa_private.d@, hmac_key@).len() == 1216
                &&& image@ == factory_image(
                    factory_data_of(
                        rsa_private.n@,
                        rsa_private.d@,
                        hmac_key@,
                        certificate.ca_cert@,
                        certificate.device_cert@,
                    ),
                )
            },
            Err(ImageError::Params(e)) => rsa_private.n@ % 2 == 0 && e
                == ParamsError::NoModularInverse,
            Err(ImageError::Encode(_)) => false,
        },
{
    let hmac_key = random_key();
    match make_image(rsa_private, &hmac_key, certificate) {
        Ok(image) => Ok((hmac_key, image)),
        Err(e) => Err(e),
    }
}

/// The 64-bit number whose bytes, least significant first, start at `at`.
pub open spec fn u64_at(bytes: Seq<u8>, at: int) -> u64 {
    (word_at(bytes, at) + 0x1_0000_0000 * word_at(bytes, at + 4)) as u64
}

/// The length of the encrypted parameters, as the partition states it.
pub open spec fn stated_len(partition: Seq<u8>) -> usize {
    u64_at(partition, 1) as usize
}

/// The encrypted parameters with the length field that the driver expects.
pub open spec fn driver_params(payload: Seq<u8>) -> Seq<u8> {
    word_bytes(1216) + payload
}

/// The partition states another length of the encrypted parameters than that of an RSA-3072
/// key.
#[derive(Debug, Clone, Copy, PartialEq, Eq, Structural)]
pub struct UnexpectedLength {
    pub stated: usize,
}

/// Returns the version of the secure certificate partition.
pub fn partition_version(partition: &[u8]) -> (version: u8)
    requires
        partition@.len() >= 1,
    ensures
        version == partition@[0],
{
    partition[0]
}

/// Returns the length of the encrypted parameters, as the partition states it.
pub fn partition_payload_len(partition: &[u8]) -> (stated: usize)
    requires
        partition@.len() >= 9,
    ensures
        stated == stated_len(partition@),
{
    let low: u32 = read_word(partition, 1);
    let high: u32 = read_word(partition, 5);
    (low as u64 + 0x1_0000_0000 * (high as u64)) as usize
}

/// The label of a partition is that of the secure certificate partition.
pub open spec fn is_cert_label(label: Option<String>) -> bool {
    label matches Some(text) && text@ == "esp_secure_cert"@
}

/// Finds the first partition with the label of the secure certificate partition, among
/// partitions of which some cannot be read and so have no label.
pub fn find_cert_partition(labels: &[Option<String>]) -> (at: Option<usize>)
    ensures
        match at {
            Some(at) => {
                &&& at < labels@.len()
                &&& is_cert_label(labels@[at as int])
                &&& forall|i: int| 0 <= i < at ==> !is_cert_label(#[trigger] labels@[i])
            },
            None => forall|i: int|
                0 <= i < labels@.len() ==> !is_cert_label(#[trigger] labels@[i]),
        },
{
    let wanted = "esp_secure_cert".to_owned();
    for i in 0..labels.len()
        invariant
            wanted@ == "esp_secure_cert"@,
            forall|j: int| 0 <= j < i ==> !is_cert_label(#[trigger] labels@[j]),
    {
        match &labels[i] {
            Some(label) => {
                if *label == wanted {
                    return Some(i);
                }
            },
            None => {},
        }
    }
    None
}

/// Takes the encrypted parameters of an RSA-3072 key out of the secure certificate partition
/// `[version: u8][vec_len: u64 le][encrypted_payload: vec_len bytes]`, and packs them for the
/// driver: `[u32 len][encrypted_payload]`.
pub fn read_encrypted_params(partition: &[u8]) -> (res: Result<Vec<u8>, UnexpectedLength>)
    requires
        partition@.len() >= 9,
        stated_len(partition@) == 1216 ==> partition@.len() >= 1225,
    ensures
        match res {
            Ok(params) => stated_len(partition@) == 1216 && params@ == driver_params(
                partition@.subrange(9, 1225),
            ),
            Err(e) => stated_len(partition@) != 1216 && e.stated == stated_len(partition@),
        },
{
    let stated: usize = partition_payload_len(partition);
    if stated != ENCRYPTED_PAYLOAD_LEN {
        return Err(UnexpectedLength { stated });
    }
    let payload = &partition[9..9 + ENCRYPTED_PAYLOAD_LEN];
    let mut params: Vec<u8> = Vec::with_capacity(ENCRYPTED_PARAMS_LEN);
    params.extend_from_slice(word_to_bytes(ENCRYPTED_PAYLOAD_LEN as u32).as_slice());
    params.extend_from_slice(payload);
    assert(params@ =~= driver_params(partition@.subrange(9, 1225)));
    Ok(params)
}

} // verus!
