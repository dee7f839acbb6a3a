//! The RSA private key of a device, and how it is read from a PEM file.
use crate::bignum::is_bit_length;
use crate::bignum::lemma_bit_length_unique;
use crate::bignum::BigNumber;
use crate::params::DS_KEY_SIZE_BITS;
use crate::text::decimal_of;
use crate::text::push_decimal;
use crate::text::push_text;
use rsa::pkcs8::DecodePrivateKey;
use rsa::pkcs8::Error as Pkcs8Error;
use rsa::traits::PrivateKeyParts;
use rsa::traits::PublicKeyParts;
use vstd::prelude::*;
use vstd::string::to_string_from_display_ensures;

verus! {

/// An RSA private key, as far as the DS peripheral needs it.
#[derive(Debug)]
pub struct RsaPrivateKey {
    /// Modulus
    pub n: BigNumber,
    /// Private exponent
    pub d: BigNumber,
}

/// A block of a PEM file.
#[derive(Debug)]
pub struct PemBlock {
    /// What stands after `BEGIN`
    pub tag: String,
    /// The decoded bytes
    pub contents: Vec<u8>,
}

/// Why no private key could be loaded.
#[derive(Debug)]
pub enum KeyError {
    /// The file is not in PEM format, as the text says.
    Pem { text: String },
    /// The first private key of the file is not an RSA key in PKCS#8 format, as the text says.
    Decode { text: String },
    /// The RSA key size must be 3072 bits; it is this many.
    KeySize { bits: u128 },
    /// No RSA private key is in the file.
    NotFound,
}

impl KeyError {
    /// Returns what the user is told.
    pub fn message(&self) -> (message: String)
        ensures
            match self {
                KeyError::Pem { text } => message@ == text@,
                KeyError::Decode { text } => message@ == text@,
                KeyError::KeySize { bits } => message@ == "RSA key size must be 3072 bits, got "@
                    + decimal_of(*bits as nat) + " bits"@,
                KeyError::NotFound => message@ == "No RSA private key found in PEM data"@,
            },
    {
        match self {
            KeyError::Pem { text } => text.as_str().to_owned(),
            KeyError::Decode { text } => text.as_str().to_owned(),
            KeyError::KeySize { bits } => {
                let mut message = "RSA key size must be 3072 bits, got ".to_owned();
                push_decimal(&mut message, *bits);
                push_text(&mut message, " bits");
                message
            },
            KeyError::NotFound => "No RSA private key found in PEM data".to_owned(),
        }
    }
}

/// The error of the pem crate.
#[verifier::external_type_specification]
#[verifier::external_body]
pub struct ExPemError(pem::PemError);

/// The error of the pkcs8 crate.
#[verifier::external_type_specification]
#[verifier::external_body]
pub struct ExPkcs8Error(Pkcs8Error);

/// The blocks of a PEM file, each by its tag and contents, or, if the file is malformed, the
/// text of the error.
pub uninterp spec fn pem_blocks_of(data: Seq<u8>) -> Result<
    Seq<(Seq<char>, Seq<u8>)>,
    Seq<char>,
>;

/// The modulus and the private exponent of an RSA key in PKCS#8 format, or, if the bytes are not
/// such a key, the text of the error.
pub uninterp spec fn pkcs8_key_of(der: Seq<u8>) -> Result<(nat, nat), Seq<char>>;

/// The text of an error of the pem crate.
pub open spec fn pem_error_reads(e: pem::PemError, text: Seq<char>) -> bool {
    forall|s: String| #[trigger]
        to_string_from_display_ensures::<pem::PemError>(&e, s) ==> s@ == text
}

/// The text of an error of the pkcs8 crate.
pub open spec fn pkcs8_error_reads(e: Pkcs8Error, text: Seq<char>) -> bool {
    forall|s: String| #[trigger]
        to_string_from_display_ensures::<Pkcs8Error>(&e, s) ==> s@ == text
}

/// The tags and contents of blocks.
pub open spec fn block_views(blocks: Seq<PemBlock>) -> Seq<(Seq<char>, Seq<u8>)> {
    Seq::new(blocks.len(), |i: int| (blocks[i].tag@, blocks[i].contents@))
}

/// `pem::parse_many`: the blocks, or the text in which the error is displayed, depend on the
/// data alone; they are named [`pem_blocks_of`].
#[verifier::external_body]
fn parse_pem(data: &[u8]) -> (res: Result<Vec<PemBlock>, pem::PemError>)
    ensures
        match res {
            Ok(blocks) => pem_blocks_of(data@) == Ok::<_, Seq<char>>(block_views(blocks@)),
            Err(e) => pem_blocks_of(data@) matches Err(text) && pem_error_reads(e, text),
        },
{
    let pems = pem::parse_many(data)?;
    Ok(
        pems.iter().map(
            |p| PemBlock { tag: p.tag().to_string(), contents: p.contents().to_vec() },
        ).collect(),
    )
}

/// `from_pkcs8_der` of `rsa::RsaPrivateKey`: the key, or the text in which the error is
/// displayed, depends on the bytes alone; it is named [`pkcs8_key_of`]. A key with an even
/// modulus is refused.
#[verifier::external_body]
fn decode_pkcs8(der: &[u8]) -> (res: Result<RsaPrivateKey, Pkcs8Error>)
    ensures
        match res {
            Ok(key) => pkcs8_key_of(der@) == Ok::<_, Seq<char>>((key.n@, key.d@)) && key.n@ % 2
                == 1,
            Err(e) => pkcs8_key_of(der@) matches Err(text) && pkcs8_error_reads(e, text),
        },
{
    let key = rsa::RsaPrivateKey::from_pkcs8_der(der)?;
    Ok(
        RsaPrivateKey {
            n: BigNumber { bytes: key.n().to_bytes_le() },
            d: BigNumber { bytes: key.d().to_bytes_le() },
        },
    )
}

/// The tag of a block that may hold an RSA private key.
pub open spec fn is_key_tag(tag: Seq<char>) -> bool {
    tag == "RSA PRIVATE KEY"@ || tag == "PRIVATE KEY"@
}

/// `at` is the place of the first block whose tag is that of a private key.
pub open spec fn is_first_key_block(blocks: Seq<(Seq<char>, Seq<u8>)>, at: int) -> bool {
    &&& 0 <= at < blocks.len()
    &&& is_key_tag(blocks[at].0)
    &&& forall|i: int| 0 <= i < at ==> !is_key_tag(#[trigger] blocks[i].0)
}

/// Finds the first block whose tag is that of a private key.
pub fn find_key_block(blocks: &[PemBlock]) -> (at: Option<usize>)
    ensures
        match at {
            Some(at) => is_first_key_block(block_views(blocks@), at as int),
            None => forall|i: int|
                0 <= i < blocks@.len() ==> !is_key_tag(#[trigger] block_views(blocks@)[i].0),
        },
{
    let pkcs1_tag = "RSA PRIVATE KEY".to_owned();
    let pkcs8_tag = "PRIVATE KEY".to_owned();
    for i in 0..blocks.len()
        invariant
            pkcs1_tag@ == "RSA PRIVATE KEY"@,
            pkcs8_tag@ == "PRIVATE KEY"@,
            forall|j: int| 0 <= j < i ==> !is_key_tag(#[trigger] block_views(blocks@)[j].0),
    {
        if blocks[i].tag == pkcs1_tag || blocks[i].tag == pkcs8_tag {
            return Some(i);
        }
    }
    None
}

/// Passes a key on if its modulus has 3072 bits.
pub fn check_key_size(key: RsaPrivateKey) -> (res: Result<RsaPrivateKey, KeyError>)
    ensures
        if is_bit_length(key.n@, 3072) {
            res == Ok::<_, KeyError>(key)
        } else {
            res matches Err(KeyError::KeySize { bits }) && is_bit_length(key.n@, bits as nat)
        },
{
    let bits: u128 = key.n.bits();
    if bits == DS_KEY_SIZE_BITS as u128 {
        Ok(key)
    } else {
        proof {
            if is_bit_length(key.n@, 3072) {
                lemma_bit_length_unique(key.n@, bits as nat, 3072);
            }
        }
        Err(KeyError::KeySize { bits })
    }
}

/// `res` is what comes of loading a private key from `blocks`: the first block with the tag of
/// a private key decides.
pub open spec fn is_loaded(
    res: Result<RsaPrivateKey, KeyError>,
    blocks: Seq<(Seq<char>, Seq<u8>)>,
) -> bool {
    match res {
        Ok(key) => exists|at: int|
            #![trigger blocks[at]]
            is_first_key_block(blocks, at) && pkcs8_key_of(blocks[at].1) == Ok::<_, Seq<char>>(
                (key.n@, key.d@),
            ) && is_bit_length(key.n@, 3072) && key.n@ % 2 == 1,
        Err(KeyError::KeySize { bits }) => bits != 3072 && exists|at: int|
            #![trigger blocks[at]]
            is_first_key_block(blocks, at) && (pkcs8_key_of(blocks[at].1) matches Ok(key)
                && is_bit_length(key.0, bits as nat)),
        Err(KeyError::Decode { text }) => exists|at: int|
            #![trigger blocks[at]]
            is_first_key_block(blocks, at) && pkcs8_key_of(blocks[at].1) == Err::<(nat, nat), _>(
                text@,
            ),
        Err(KeyError::NotFound) => forall|i: int|
            0 <= i < blocks.len() ==> !is_key_tag(#[trigger] blocks[i].0),
        Err(KeyError::Pem { .. }) => false,
    }
}

/// Loads the private key from the blocks of a PEM file.
pub fn load_from_blocks(blocks: &[PemBlock]) -> (res: Result<RsaPrivateKey, KeyError>)
    ensures
        is_loaded(res, block_views(blocks@)),
{
    let at: usize = match find_key_block(blocks) {
        Some(at) => at,
        None => return Err(KeyError::NotFound),
    };
    let ghost views = block_views(blocks@);
    assert(views[at as int].1 == blocks@[at as int].contents@);
    match decode_pkcs8(blocks[at].contents.as_slice()) {
        Ok(key) => {
            check_key_size(key)
        },
        Err(e) => Err(KeyError::Decode { text: e.to_string() }),
    }
}

/// Loads the private key from the data of a PEM file.
pub fn load_rsa_private_key(pem_data: &[u8]) -> (res: Result<RsaPrivateKey, KeyError>)
    ensures
        match pem_blocks_of(pem_data@) {
            Ok(blocks) => is_loaded(res, blocks),
            Err(pem_text) => res matches Err(KeyError::Pem { text }) && text@ == pem_text,
        },
{
    match parse_pem(pem_data) {
        Ok(blocks) => load_from_blocks(blocks.as_slice()),
        Err(e) => Err(KeyError::Pem { text: e.to_string() }),
    }
}

} // verus!
