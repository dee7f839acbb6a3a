//! The values of the Digital Signature (DS) accelerator: key sizes, operand widths, errors and
//! signatures, and the padding of what is signed.
use crate::words::pad_to;
use crate::words::zeros;
use vstd::prelude::*;

verus! {

/// Length of the initialization vector that precedes the ciphertext.
pub const IV_LEN: usize = 16;

/// Length of the encrypted box that follows the three encrypted operands.
pub const BOX_CIPHER_LEN: usize = 48;

/// Bytes before the ciphertext: the payload length and the initialization vector.
pub const ENCRYPTED_PARAMS_PREFIX_LEN: usize = 20;

/// RSA key size for the DS peripheral.
#[derive(Debug, Clone, Copy, PartialEq, Eq, Structural)]
pub enum KeySize {
    /// 2048-bit RSA key
    Rsa2048,
    /// 3072-bit RSA key
    Rsa3072,
    /// 4096-bit RSA key (needs a peripheral with 4096-bit operands)
    Rsa4096,
}

impl KeySize {
    /// Key size in bits.
    pub open spec fn spec_bits(self) -> nat {
        match self {
            KeySize::Rsa2048 => 2048,
            KeySize::Rsa3072 => 3072,
            KeySize::Rsa4096 => 4096,
        }
    }

    /// Key size in bytes.
    pub open spec fn spec_bytes(self) -> nat {
        self.spec_bits() / 8
    }

    /// Words of a signature.
    pub open spec fn spec_sig_words(self) -> nat {
        self.spec_bits() / 32
    }

    /// Returns key size in bits
    pub fn bits(&self) -> (bits: usize)
        ensures
            bits == self.spec_bits(),
    {
        match self {
            KeySize::Rsa2048 => 2048,
            KeySize::Rsa3072 => 3072,
            KeySize::Rsa4096 => 4096,
        }
    }

    /// Returns key size in bytes
    pub fn bytes(&self) -> (bytes: usize)
        ensures
            bytes == self.spec_bytes(),
    {
        self.bits() / 8
    }

    /// Returns signature word count (key_bits / 32)
    pub fn sig_words(&self) -> (words: usize)
        ensures
            words == self.spec_sig_words(),
    {
        self.bits() / 32
    }
}

/// Width of the operand memories of a DS peripheral: 4096 bits on the ESP32-S3, 3072 bits on
/// the other chips.
#[derive(Debug, Clone, Copy, PartialEq, Eq, Structural)]
pub enum OperandWidth {
    /// 96 words
    Bits3072,
    /// 128 words
    Bits4096,
}

impl OperandWidth {
    /// Operand width in bytes.
    pub open spec fn spec_bytes(self) -> nat {
        match self {
            OperandWidth::Bits3072 => 384,
            OperandWidth::Bits4096 => 512,
        }
    }

    /// Returns the operand width in bytes.
    pub fn bytes(&self) -> (bytes: usize)
        ensures
            bytes == self.spec_bytes(),
    {
        match self {
            OperandWidth::Bits3072 => 384,
            OperandWidth::Bits4096 => 512,
        }
    }
}

/// Error type for DS operations.
#[derive(Debug, Clone, PartialEq)]
pub enum Error {
    /// The DS peripheral failed to initialize
    InitFailed,
    /// The encrypted params have incorrect length
    IncorrectCipherLength,
    /// Failed to read key from eFuse
    KeyReadError,
    /// DS signing operation did not complete
    SigningFailed,
    /// The signature padding check passed but MD check failed (signature included for debugging)
    InvalidDigest(Signature),
    /// The signature MD check passed but padding check failed (signature included for debugging)
    InvalidPadding(Signature),
    /// Both MD check and padding check failed (signature included for debugging)
    InvalidDigestAndPadding(Signature),
    /// The key size is not supported
    UnsupportedKeySize,
}

impl Error {
    /// The signature that the error carries, if it carries one.
    pub open spec fn spec_signature(self) -> Option<Signature> {
        match self {
            Error::InvalidDigest(sig) => Some(sig),
            Error::InvalidPadding(sig) => Some(sig),
            Error::InvalidDigestAndPadding(sig) => Some(sig),
            _ => None,
        }
    }

    /// Returns the signature if one is associated with this error (for debugging)
    pub fn signature(&self) -> (sig: Option<&Signature>)
        ensures
            match sig {
                Some(s) => self.spec_signature() == Some(*s),
                None => self.spec_signature() is None,
            },
    {
        match self {
            Error::InvalidDigest(sig) => Some(sig),
            Error::InvalidPadding(sig) => Some(sig),
            Error::InvalidDigestAndPadding(sig) => Some(sig),
            _ => None,
        }
    }
}

/// Signature output - size depends on key size.
#[derive(Debug, Clone, PartialEq)]
pub enum Signature {
    /// 2048-bit RSA signature (256 bytes)
    Rsa2048([u8; 256]),
    /// 3072-bit RSA signature (384 bytes)
    Rsa3072([u8; 384]),
    /// 4096-bit RSA signature (512 bytes)
    Rsa4096([u8; 512]),
}

impl View for Signature {
    type V = Seq<u8>;

    open spec fn view(&self) -> Seq<u8> {
        match self {
            Signature::Rsa2048(s) => s@,
            Signature::Rsa3072(s) => s@,
            Signature::Rsa4096(s) => s@,
        }
    }
}

impl Signature {
    /// The size of the key that makes signatures of this kind.
    pub open spec fn key_size(self) -> KeySize {
        match self {
            Signature::Rsa2048(_) => KeySize::Rsa2048,
            Signature::Rsa3072(_) => KeySize::Rsa3072,
            Signature::Rsa4096(_) => KeySize::Rsa4096,
        }
    }

    /// Returns the signature as a byte slice
    pub fn as_bytes(&self) -> (bytes: &[u8])
        ensures
            bytes@ == self@,
    {
        match self {
            Signature::Rsa2048(s) => s.as_slice(),
            Signature::Rsa3072(s) => s.as_slice(),
            Signature::Rsa4096(s) => s.as_slice(),
        }
    }

    /// Returns the signature length in bytes
    pub fn len(&self) -> (len: usize)
        ensures
            len == self@.len(),
            len == self.key_size().spec_bytes(),
    {
        match self {
            Signature::Rsa2048(_) => 256,
            Signature::Rsa3072(_) => 384,
            Signature::Rsa4096(_) => 512,
        }
    }

    /// Returns true if signature length is zero.
    pub fn is_empty(&self) -> (empty: bool)
        ensures
            empty == (self@.len() == 0),
            !empty,
    {
        false
    }
}

/// The ASN.1 `DigestInfo` header of a SHA-256 digest.
pub open spec fn sha256_asn1_prefix() -> Seq<u8> {
    seq![
        0x30u8, 0x31, 0x30, 0x0d, 0x06, 0x09, 0x60, 0x86, 0x48, 0x01, 0x65, 0x03, 0x04, 0x02, 0x01,
        0x05, 0x00, 0x04, 0x20,
    ]
}

/// The PKCS#1 v1.5 signature block `0x00 || 0x01 || 0xff.. || 0x00 || DigestInfo` of
/// `key_bytes` bytes.
pub open spec fn pkcs1_block(digest: Seq<u8>, key_bytes: nat) -> Seq<u8> {
    seq![0x00u8, 0x01] + Seq::new((key_bytes - 22 - digest.len()) as nat, |i: int| 0xffu8) + seq![
        0x00u8,
    ] + sha256_asn1_prefix() + digest
}

/// Pads a SHA-256 digest for an RSA key of `key_bytes` bytes, PKCS#1 v1.5 format.
///
/// The block stands at the front of the result, which is zero-filled to the operand width.
pub fn pad_message_for_rsa(message_digest: &[u8], key_bytes: usize, width: OperandWidth) -> (res:
    Result<Vec<u8>, Error>)
    requires
        message_digest@.len() + 22 <= key_bytes ==> key_bytes <= width.spec_bytes(),
    ensures
        match res {
            Ok(block) => {
                &&& message_digest@.len() + 22 <= key_bytes
                &&& block@ == pkcs1_block(message_digest@, key_bytes as nat) + zeros(
                    (width.spec_bytes() - key_bytes) as nat,
                )
            },
            Err(e) => key_bytes < message_digest@.len() + 22 && e == Error::UnsupportedKeySize,
        },
{
    let prefix: [u8; 19] = [
        0x30, 0x31, 0x30, 0x0d, 0x06, 0x09, 0x60, 0x86, 0x48, 0x01, 0x65, 0x03, 0x04, 0x02, 0x01,
        0x05, 0x00, 0x04, 0x20,
    ];
    assert(prefix@ =~= sha256_asn1_prefix());
    if key_bytes < 22 || key_bytes - 22 < message_digest.len() {
        return Err(Error::UnsupportedKeySize);
    }
    let padding_len: usize = key_bytes - 22 - message_digest.len();
    let max_bytes: usize = width.bytes();
    let mut block: Vec<u8> = Vec::new();
    block.push(0x00);
    block.push(0x01);
    let ghost filler = Seq::new(padding_len as nat, |i: int| 0xffu8);
    for i in 0..padding_len
        invariant
            filler == Seq::new(padding_len as nat, |i: int| 0xffu8),
            block@ == seq![0x00u8, 0x01] + filler.take(i as int),
    {
        assert(filler.take(i + 1) =~= filler.take(i as int).push(0xff));
        block.push(0xff);
    }
    assert(filler.take(padding_len as int) =~= filler);
    block.push(0x00);
    block.extend_from_slice(prefix.as_slice());
    block.extend_from_slice(message_digest);
    assert(block@ =~= pkcs1_block(message_digest@, key_bytes as nat));
    let padded = pad_to(block, max_bytes);
    Ok(padded)
}

} // verus!
