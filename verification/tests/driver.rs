use esp_ds::ds::pad_message_for_rsa;
use esp_ds::ds::Error;
use esp_ds::ds::KeySize;
use esp_ds::ds::OperandWidth;
use esp_ds::ds::Signature;
use esp_ds::program::assemble_signature;
use esp_ds::program::conclude;
use esp_ds::program::load_operands;
use esp_ds::program::Memory;
use esp_ds::program::RegisterWrite;
use esp_ds::signing::Ds;
use esp_ds::signing::Reply;
use esp_ds::signing::Request;
use esp_ds::signing::Signing;
use sha2::Digest;
use sha2::Sha256;

const PREFIX: [u8; 19] = [
    0x30, 0x31, 0x30, 0x0d, 0x06, 0x09, 0x60, 0x86, 0x48, 0x01, 0x65, 0x03, 0x04, 0x02, 0x01, 0x05,
    0x00, 0x04, 0x20,
];

/// Encrypted parameters of the right shape, each byte telling its place.
fn params_for(key_bytes: usize) -> Vec<u8> {
    let payload_len = 16 + 3 * key_bytes + 48;
    let mut params = (payload_len as u32).to_le_bytes().to_vec();
    for i in 0..payload_len {
        params.push((i % 251) as u8);
    }
    params
}

fn le_words(bytes: &[u8]) -> Vec<u32> {
    bytes
        .chunks(4)
        .map(|c| u32::from_le_bytes([c[0], c[1], c[2], c[3]]))
        .collect()
}

fn values(program: &[RegisterWrite], memory: Memory) -> Vec<u32> {
    let writes: Vec<&RegisterWrite> = program.iter().filter(|w| w.memory == memory).collect();
    for (i, write) in writes.iter().enumerate() {
        assert_eq!(write.index, i);
    }
    writes.iter().map(|w| w.value).collect()
}

#[derive(Debug, PartialEq)]
enum Event {
    Start,
    Write(RegisterWrite),
    Continue,
    Finish,
}

/// A peripheral that plays back what its registers hold.
struct FakeHardware {
    chunk: usize,
    hasher: Sha256,
    busy: Vec<bool>,
    key_wrong: Vec<u32>,
    check: u32,
    z: Vec<u32>,
    events: Vec<Event>,
    key_polls: usize,
    busy_polls: usize,
}

impl FakeHardware {
    fn new(check: u32, z: Vec<u32>) -> Self {
        FakeHardware {
            chunk: 5,
            hasher: Sha256::new(),
            busy: Vec::new(),
            key_wrong: Vec::new(),
            check,
            z,
            events: Vec::new(),
            key_polls: 0,
            busy_polls: 0,
        }
    }

    fn perform(&mut self, request: &Request<'_>) -> Option<Reply> {
        match request {
            Request::HashUpdate(data) => {
                let taken = self.chunk.min(data.len());
                self.hasher.update(&data[..taken]);
                Some(Reply::Remaining(data.len() - taken))
            }
            Request::HashFinish => {
                let digest: [u8; 32] = self.hasher.finalize_reset().into();
                Some(Reply::Digest(digest))
            }
            Request::SetStart => {
                self.events.push(Event::Start);
                Some(Reply::Done)
            }
            Request::ReadKeyWrong => {
                self.key_polls += 1;
                Some(Reply::KeyWrong(if self.key_wrong.is_empty() {
                    0
                } else {
                    self.key_wrong.remove(0)
                }))
            }
            Request::ReadBusy => {
                self.busy_polls += 1;
                Some(Reply::Busy(if self.busy.is_empty() {
                    false
                } else {
                    self.busy.remove(0)
                }))
            }
            Request::Load(writes) => {
                for write in writes.iter() {
                    self.events.push(Event::Write(*write));
                }
                Some(Reply::Done)
            }
            Request::SetContinue => {
                self.events.push(Event::Continue);
                Some(Reply::Done)
            }
            Request::ReadResult { sig_words } => Some(Reply::Outcome {
                check: self.check,
                words: self.z[..*sig_words].to_vec(),
            }),
            Request::SetFinish => {
                self.events.push(Event::Finish);
                Some(Reply::Done)
            }
            Request::Return(_) => None,
        }
    }
}

fn drive(mut signing: Signing<'_>, hardware: &mut FakeHardware) -> Result<Signature, Error> {
    loop {
        let reply = hardware.perform(&signing.request());
        match reply {
            Some(reply) => signing = signing.step(reply),
            None => match signing.request() {
                Request::Return(outcome) => return outcome.clone(),
                _ => unreachable!(),
            },
        }
    }
}

fn z_words(count: usize) -> Vec<u32> {
    (0..count as u32).map(|i| 0x0102_0304 + i).collect()
}

#[test]
fn key_sizes() {
    assert_eq!(KeySize::Rsa2048.bits(), 2048);
    assert_eq!(KeySize::Rsa2048.bytes(), 256);
    assert_eq!(KeySize::Rsa2048.sig_words(), 64);
    assert_eq!(KeySize::Rsa3072.bits(), 3072);
    assert_eq!(KeySize::Rsa3072.bytes(), 384);
    assert_eq!(KeySize::Rsa3072.sig_words(), 96);
    assert_eq!(KeySize::Rsa4096.bits(), 4096);
    assert_eq!(KeySize::Rsa4096.bytes(), 512);
    assert_eq!(KeySize::Rsa4096.sig_words(), 128);
    assert_eq!(OperandWidth::Bits3072.bytes(), 384);
    assert_eq!(OperandWidth::Bits4096.bytes(), 512);
}

#[test]
fn padding_is_pkcs1() {
    let digest = [0xa5u8; 32];
    let block = pad_message_for_rsa(&digest, 384, OperandWidth::Bits3072).unwrap();
    assert_eq!(block.len(), 384);
    assert_eq!(block[..2], [0x00, 0x01]);
    assert!(block[2..332].iter().all(|&b| b == 0xff));
    assert_eq!(block[332], 0x00);
    assert_eq!(block[333..352], PREFIX);
    assert_eq!(block[352..], digest);
}

#[test]
fn padding_of_a_short_key_stands_in_front() {
    let digest = [0x5au8; 32];
    let block = pad_message_for_rsa(&digest, 256, OperandWidth::Bits3072).unwrap();
    assert_eq!(block.len(), 384);
    assert_eq!(block[204], 0x00);
    assert_eq!(block[224..256], digest);
    assert!(block[256..].iter().all(|&b| b == 0));
}

#[test]
fn padding_needs_room_for_the_digest() {
    let digest = [1u8; 32];
    let smallest = pad_message_for_rsa(&digest, 54, OperandWidth::Bits3072).unwrap();
    assert_eq!(smallest[..3], [0x00, 0x01, 0x00]);
    assert_eq!(smallest[3..22], PREFIX);
    assert_eq!(smallest[22..54], digest);
    for key_bytes in [0usize, 21, 22, 53] {
        assert_eq!(
            pad_message_for_rsa(&digest, key_bytes, OperandWidth::Bits3072),
            Err(Error::UnsupportedKeySize)
        );
    }
}

#[test]
fn different_digests_pad_differently() {
    let a = pad_message_for_rsa(&[1u8; 32], 384, OperandWidth::Bits3072).unwrap();
    let b = pad_message_for_rsa(&[2u8; 32], 384, OperandWidth::Bits3072).unwrap();
    assert_ne!(a, b);
    assert_eq!(a[..352], b[..352]);
}

#[test]
fn operands_of_a_full_width_key() {
    let params = params_for(384);
    let challenge: Vec<u8> = (0..384usize).map(|i| (i % 256) as u8).collect();
    let program =
        load_operands(&params, &challenge, KeySize::Rsa3072, OperandWidth::Bits3072).unwrap();
    let order: Vec<Memory> = program.iter().map(|w| w.memory).collect();
    let mut expected = vec![Memory::Iv; 4];
    expected.extend(vec![Memory::X; 96]);
    expected.extend(vec![Memory::Y; 96]);
    expected.extend(vec![Memory::M; 96]);
    expected.extend(vec![Memory::Rb; 96]);
    expected.extend(vec![Memory::BoxParams; 12]);
    assert_eq!(order, expected);
    assert_eq!(values(&program, Memory::Iv), le_words(&params[4..20]));
    assert_eq!(values(&program, Memory::Y), le_words(&params[20..404]));
    assert_eq!(values(&program, Memory::M), le_words(&params[404..788]));
    assert_eq!(values(&program, Memory::Rb), le_words(&params[788..1172]));
    assert_eq!(
        values(&program, Memory::BoxParams),
        le_words(&params[1172..1220])
    );
    let mut reversed = challenge.clone();
    reversed.reverse();
    assert_eq!(values(&program, Memory::X), le_words(&reversed));
    assert_eq!(program[4].value, 0x7c7d_7e7f);
}

#[test]
fn operands_of_a_short_key_are_zero_filled() {
    let params = params_for(256);
    let challenge: Vec<u8> = (0..384usize).map(|i| (i / 2) as u8).collect();
    let program =
        load_operands(&params, &challenge, KeySize::Rsa2048, OperandWidth::Bits3072).unwrap();
    let mut reversed = challenge[..256].to_vec();
    reversed.reverse();
    assert_eq!(values(&program, Memory::X), le_words(&reversed));
    let y = values(&program, Memory::Y);
    assert_eq!(y.len(), 96);
    assert_eq!(y[..64], le_words(&params[20..276])[..]);
    assert!(y[64..].iter().all(|&w| w == 0));
    assert_eq!(
        values(&program, Memory::M)[..64],
        le_words(&params[276..532])[..]
    );
    assert_eq!(
        values(&program, Memory::Rb)[..64],
        le_words(&params[532..788])[..]
    );
    assert_eq!(
        values(&program, Memory::BoxParams),
        le_words(&params[788..836])
    );
}

#[test]
fn x_memory_holds_the_padded_digest_of_every_key_size() {
    let digest: [u8; 32] = Sha256::digest(b"message").into();
    for (key_size, width) in [
        (KeySize::Rsa2048, OperandWidth::Bits3072),
        (KeySize::Rsa3072, OperandWidth::Bits3072),
        (KeySize::Rsa2048, OperandWidth::Bits4096),
        (KeySize::Rsa3072, OperandWidth::Bits4096),
        (KeySize::Rsa4096, OperandWidth::Bits4096),
    ] {
        let key_bytes = key_size.bytes();
        let block = pad_message_for_rsa(&digest, key_bytes, width).unwrap();
        let program = load_operands(&params_for(key_bytes), &block, key_size, width).unwrap();
        let mut padded = block[..key_bytes].to_vec();
        padded.reverse();
        let x = values(&program, Memory::X);
        assert_eq!(x, le_words(&padded));
        assert_eq!(x[0], u32::from_be_bytes([digest[28], digest[29], digest[30], digest[31]]));
        assert_eq!(x[x.len() - 1], 0x0001_ffff);
    }
}

#[test]
fn parameters_of_another_length_are_refused() {
    let challenge = vec![0u8; 384];
    let mut long = params_for(384);
    long.push(0);
    let mut stated = params_for(384);
    stated[0] = stated[0].wrapping_add(1);
    let mut high = params_for(384);
    high[3] = 1;
    for params in [Vec::new(), vec![0u8; 3], params_for(256), long, stated, high] {
        assert_eq!(
            load_operands(&params, &challenge, KeySize::Rsa3072, OperandWidth::Bits3072),
            Err(Error::IncorrectCipherLength)
        );
    }
}

#[test]
fn signature_is_the_z_memory_in_big_endian() {
    let words = z_words(64);
    let sig = assemble_signature(&words, KeySize::Rsa2048);
    assert_eq!(sig.len(), 256);
    assert!(!sig.is_empty());
    assert_eq!(sig.as_bytes().len(), 256);
    assert_eq!(sig.as_bytes()[..4], (0x0102_0304u32 + 63).to_be_bytes());
    assert_eq!(sig.as_bytes()[252..], [1, 2, 3, 4]);
    assert!(matches!(sig, Signature::Rsa2048(_)));
    assert_eq!(assemble_signature(&z_words(96), KeySize::Rsa3072).len(), 384);
    assert_eq!(assemble_signature(&z_words(128), KeySize::Rsa4096).len(), 512);
}

#[test]
fn check_register_decides() {
    let sig = assemble_signature(&z_words(96), KeySize::Rsa3072);
    assert_eq!(conclude(0, sig.clone()), Ok(sig.clone()));
    assert_eq!(conclude(1, sig.clone()), Err(Error::InvalidDigest(sig.clone())));
    assert_eq!(conclude(2, sig.clone()), Err(Error::InvalidPadding(sig.clone())));
    assert_eq!(
        conclude(3, sig.clone()),
        Err(Error::InvalidDigestAndPadding(sig.clone()))
    );
    assert_eq!(conclude(4, sig.clone()), Err(Error::SigningFailed));
    assert_eq!(conclude(u32::MAX, sig), Err(Error::SigningFailed));
}

#[test]
fn errors_carry_their_signature() {
    let sig = assemble_signature(&z_words(96), KeySize::Rsa3072);
    assert_eq!(Error::InvalidDigest(sig.clone()).signature(), Some(&sig));
    assert_eq!(Error::InvalidPadding(sig.clone()).signature(), Some(&sig));
    assert_eq!(
        Error::InvalidDigestAndPadding(sig.clone()).signature(),
        Some(&sig)
    );
    for error in [
        Error::InitFailed,
        Error::IncorrectCipherLength,
        Error::KeyReadError,
        Error::SigningFailed,
        Error::UnsupportedKeySize,
    ] {
        assert_eq!(error.signature(), None);
    }
}

#[test]
fn driver_keeps_its_handle() {
    let ds = Ds::new(17u32, OperandWidth::Bits3072);
    assert_eq!(*ds.regs(), 17);
}

#[test]
fn signing_runs_to_the_signature() {
    let message = b"Hello, World!";
    let params = params_for(384);
    let mut ds = Ds::new((), OperandWidth::Bits3072);
    let mut hardware = FakeHardware::new(0, z_words(96));
    hardware.busy = vec![true, true, false, true, false, true, false];
    let outcome = drive(ds.sign(message, KeySize::Rsa3072, &params), &mut hardware);
    assert_eq!(
        outcome,
        Ok(assemble_signature(&z_words(96), KeySize::Rsa3072))
    );
    assert_eq!(hardware.key_polls, 3);
    assert_eq!(hardware.busy_polls, 7);
    let digest: [u8; 32] = Sha256::digest(message).into();
    let block = pad_message_for_rsa(&digest, 384, OperandWidth::Bits3072).unwrap();
    let program = load_operands(&params, &block, KeySize::Rsa3072, OperandWidth::Bits3072).unwrap();
    let mut expected = vec![Event::Start];
    expected.extend(program.into_iter().map(Event::Write));
    expected.push(Event::Continue);
    expected.push(Event::Finish);
    assert_eq!(hardware.events, expected);
}

#[test]
fn empty_message_is_signed() {
    let params = params_for(512);
    let mut ds = Ds::new((), OperandWidth::Bits4096);
    let mut hardware = FakeHardware::new(2, z_words(128));
    let outcome = drive(ds.sign(b"", KeySize::Rsa4096, &params), &mut hardware);
    assert_eq!(
        outcome,
        Err(Error::InvalidPadding(assemble_signature(
            &z_words(128),
            KeySize::Rsa4096
        )))
    );
    let digest: [u8; 32] = Sha256::digest(b"").into();
    let last = u32::from_be_bytes([digest[28], digest[29], digest[30], digest[31]]);
    let first_x = RegisterWrite {
        memory: Memory::X,
        index: 0,
        value: last,
    };
    assert!(hardware.events.contains(&Event::Write(first_x)));
}

#[test]
fn wrong_parameters_leave_the_peripheral_alone() {
    let params = params_for(256);
    let mut ds = Ds::new((), OperandWidth::Bits3072);
    let mut hardware = FakeHardware::new(0, z_words(96));
    let outcome = drive(ds.sign(b"message", KeySize::Rsa3072, &params), &mut hardware);
    assert_eq!(outcome, Err(Error::IncorrectCipherLength));
    assert!(hardware.events.is_empty());
}

#[test]
fn failed_key_derivation_is_reported() {
    let params = params_for(384);
    let mut ds = Ds::new((), OperandWidth::Bits3072);
    let mut hardware = FakeHardware::new(0, z_words(96));
    hardware.busy = vec![true];
    hardware.key_wrong = vec![0, 5];
    let outcome = drive(ds.sign(b"message", KeySize::Rsa3072, &params), &mut hardware);
    assert_eq!(outcome, Err(Error::KeyReadError));
    assert_eq!(hardware.events, vec![Event::Start]);
}
