//! The signing operation of the DS driver as a state machine.
//!
//! A [`Signing`] says what the hardware has to do next ([`Signing::request`]) and moves on with
//! what the hardware answered ([`Signing::step`]).
use crate::ds::pad_message_for_rsa;
use crate::ds::pkcs1_block;
use crate::ds::Error;
use crate::ds::KeySize;
use crate::ds::OperandWidth;
use crate::ds::Signature;
use crate::program::assemble_signature;
use crate::program::conclude;
use crate::program::concludes;
use crate::program::load_operands;
use crate::program::load_program;
use crate::program::params_fit;
use crate::program::signature_bytes;
use crate::program::RegisterWrite;
use crate::words::zeros;
use vstd::prelude::*;

verus! {

/// DS driver instance, on a peripheral handle whose clock is enabled.
pub struct Ds<D> {
    ds: D,
    width: OperandWidth,
}

impl<D> Ds<D> {
    /// The peripheral handle.
    pub closed spec fn handle(self) -> D {
        self.ds
    }

    /// The operand width of the peripheral.
    pub closed spec fn operand_width(self) -> OperandWidth {
        self.width
    }

    /// Creates a new instance of the DS peripheral.
    pub fn new(ds: D, width: OperandWidth) -> (driver: Self)
        ensures
            driver.handle() == ds,
            driver.operand_width() == width,
    {
        Ds { ds, width }
    }

    /// Returns a reference to the peripheral.
    pub fn regs(&self) -> (ds: &D)
        ensures
            *ds == self.handle(),
    {
        &self.ds
    }

    /// Starts signing a message.
    ///
    /// The message is hashed with SHA-256 and then padded with PKCS#1 v1.5
    /// format before being signed by the DS peripheral.
    pub fn sign<'a>(
        &mut self,
        message: &'a [u8],
        key_size: KeySize,
        encrypted_params: &'a [u8],
    ) -> (signing: Signing<'a>)
        requires
            key_size.spec_bytes() <= old(self).operand_width().spec_bytes(),
        ensures
            *final(self) == *old(self),
            signing.message@ == message@,
            signing.encrypted_params@ == encrypted_params@,
            signing.key_size == key_size,
            signing.width == old(self).operand_width(),
            signing.is_initial(),
            signing.wf(),
    {
        let phase = if message.len() == 0 {
            Phase::HashFinish
        } else {
            Phase::HashUpdate { from: 0 }
        };
        Signing { message, encrypted_params, key_size, width: self.width, phase }
    }
}

/// How far a signing operation has come.
#[derive(Debug)]
pub enum Phase {
    /// The hash engine takes `message[from..]`.
    HashUpdate { from: usize },
    /// The hash engine gives the digest.
    HashFinish,
    /// The peripheral is started, which makes it derive the key.
    Start { program: Vec<RegisterWrite> },
    /// Has the key derivation failed?
    PollKey { program: Vec<RegisterWrite> },
    /// Is the peripheral still busy with the key derivation?
    PollReady { program: Vec<RegisterWrite> },
    /// The operands are written.
    Load { program: Vec<RegisterWrite> },
    /// The computation is started.
    Continue,
    /// Is the peripheral still busy with the computation?
    PollDone,
    /// The check register and the signature are read.
    ReadResult,
    /// The peripheral is told that the result was read.
    Finish { outcome: Result<Signature, Error> },
    /// Is the peripheral still busy with finishing?
    PollFinished { outcome: Result<Signature, Error> },
    /// There is nothing left to do.
    Complete { outcome: Result<Signature, Error> },
}

/// What the hardware has to do next.
#[derive(Debug)]
pub enum Request<'b> {
    /// Feed these bytes to the hash engine; the answer is how many of them it has not taken.
    HashUpdate(&'b [u8]),
    /// Finish the hash; the answer is the digest.
    HashFinish,
    /// Set the start bit.
    SetStart,
    /// Read the key-wrong field.
    ReadKeyWrong,
    /// Read the busy bit.
    ReadBusy,
    /// Write these words in order.
    Load(&'b [RegisterWrite]),
    /// Set the continue bit.
    SetContinue,
    /// Read the check register, then this many words of the Z memory from the first on.
    ReadResult { sig_words: usize },
    /// Set the finish bit.
    SetFinish,
    /// Nothing: the operation returns this.
    Return(&'b Result<Signature, Error>),
}

/// What the hardware answered.
#[derive(Debug)]
pub enum Reply {
    /// This many bytes at the end of the data were not taken by the hash engine.
    Remaining(usize),
    /// The digest.
    Digest([u8; 32]),
    /// The registers are written.
    Done,
    /// The key-wrong field.
    KeyWrong(u32),
    /// The busy bit.
    Busy(bool),
    /// The check register and the words of the Z memory.
    Outcome { check: u32, words: Vec<u32> },
}

/// A signing operation in progress.
#[derive(Debug)]
pub struct Signing<'a> {
    pub message: &'a [u8],
    pub encrypted_params: &'a [u8],
    pub key_size: KeySize,
    pub width: OperandWidth,
    pub phase: Phase,
}

/// The padded digest of a message, zero-filled to the operand width.
pub open spec fn challenge_block(digest: Seq<u8>, key_size: KeySize, width: OperandWidth) -> Seq<
    u8,
> {
    pkcs1_block(digest, key_size.spec_bytes()) + zeros(
        (width.spec_bytes() - key_size.spec_bytes()) as nat,
    )
}

impl<'a> Signing<'a> {
    /// The key fits the operands, and a hash update has bytes to take.
    pub open spec fn wf(self) -> bool {
        &&& self.key_size.spec_bytes() <= self.width.spec_bytes()
        &&& self.phase matches Phase::HashUpdate { from } ==> from < self.message@.len()
    }

    /// Nothing has been done yet: the whole message is still to be hashed.
    pub open spec fn is_initial(self) -> bool {
        match self.phase {
            Phase::HashUpdate { from } => from == 0 && self.message@.len() > 0,
            Phase::HashFinish => self.message@.len() == 0,
            _ => false,
        }
    }

    /// The words to load for a message with this digest.
    pub open spec fn program_for(self, digest: Seq<u8>) -> Seq<RegisterWrite> {
        load_program(
            self.encrypted_params@,
            challenge_block(digest, self.key_size, self.width),
            self.key_size.spec_bytes(),
            self.width.spec_bytes(),
        )
    }

    /// `reply` answers what this phase asks for.
    pub open spec fn accepts(self, reply: Reply) -> bool {
        match self.phase {
            Phase::HashUpdate { from } => reply matches Reply::Remaining(left) && left
                <= self.message@.len() - from,
            Phase::HashFinish => reply is Digest,
            Phase::Start { .. } => reply is Done,
            Phase::PollKey { .. } => reply is KeyWrong,
            Phase::PollReady { .. } => reply is Busy,
            Phase::Load { .. } => reply is Done,
            Phase::Continue => reply is Done,
            Phase::PollDone => reply is Busy,
            Phase::ReadResult => reply matches Reply::Outcome { words, .. } && words@.len()
                == self.key_size.spec_sig_words(),
            Phase::Finish { .. } => reply is Done,
            Phase::PollFinished { .. } => reply is Busy,
            Phase::Complete { .. } => false,
        }
    }

    /// `next` is the operation after `reply`.
    pub open spec fn steps_to(self, reply: Reply, next: Signing<'a>) -> bool {
        &&& next.message@ == self.message@
        &&& next.encrypted_params@ == self.encrypted_params@
        &&& next.key_size == self.key_size
        &&& next.width == self.width
        &&& match (self.phase, reply) {
            (Phase::HashUpdate { .. }, Reply::Remaining(left)) => if left == 0 {
                next.phase is HashFinish
            } else {
                next.phase matches Phase::HashUpdate { from } && from == self.message@.len() - left
            },
            (Phase::HashFinish, Reply::Digest(digest)) => if params_fit(
                self.encrypted_params@,
                self.key_size.spec_bytes(),
            ) {
                next.phase matches Phase::Start { program } && program@ == self.program_for(
                    digest@,
                )
            } else {
                next.phase matches Phase::Complete { outcome } && outcome == Err::<Signature, _>(
                    Error::IncorrectCipherLength,
                )
            },
            (Phase::Start { program }, _) => next.phase == (Phase::PollKey { program }),
            (Phase::PollKey { program }, Reply::KeyWrong(wrong)) => if wrong != 0 {
                next.phase matches Phase::Complete { outcome } && outcome == Err::<Signature, _>(
                    Error::KeyReadError,
                )
            } else {
                next.phase == (Phase::PollReady { program })
            },
            (Phase::PollReady { program }, Reply::Busy(busy)) => if busy {
                next.phase == (Phase::PollKey { program })
            } else {
                next.phase == (Phase::Load { program })
            },
            (Phase::Load { .. }, _) => next.phase is Continue,
            (Phase::Continue, _) => next.phase is PollDone,
            (Phase::PollDone, Reply::Busy(busy)) => if busy {
                next.phase is PollDone
            } else {
                next.phase is ReadResult
            },
            (Phase::ReadResult, Reply::Outcome { check, words }) => {
                next.phase matches Phase::Finish { outcome } && concludes(
                    outcome,
                    check,
                    self.key_size,
                    signature_bytes(words@),
                )
            },
            (Phase::Finish { outcome }, _) => next.phase == (Phase::PollFinished { outcome }),
            (Phase::PollFinished { outcome }, Reply::Busy(busy)) => if busy {
                next.phase == (Phase::PollFinished { outcome })
            } else {
                next.phase == (Phase::Complete { outcome })
            },
            _ => false,
        }
    }

    /// Returns what the hardware has to do next.
    pub fn request(&self) -> (request: Request<'_>)
        requires
            self.wf(),
        ensures
            match self.phase {
                Phase::HashUpdate { from } => request matches Request::HashUpdate(data) && data@
                    == self.message@.skip(from as int),
                Phase::HashFinish => request is HashFinish,
                Phase::Start { .. } => request is SetStart,
                Phase::PollKey { .. } => request is ReadKeyWrong,
                Phase::PollReady { .. } => request is ReadBusy,
                Phase::Load { program } => request matches Request::Load(writes) && writes@
                    == program@,
                Phase::Continue => request is SetContinue,
                Phase::PollDone => request is ReadBusy,
                Phase::ReadResult => request matches Request::ReadResult { sig_words } && sig_words
                    == self.key_size.spec_sig_words(),
                Phase::Finish { .. } => request is SetFinish,
                Phase::PollFinished { .. } => request is ReadBusy,
                Phase::Complete { outcome } => request matches Request::Return(res) && *res
                    == outcome,
            },
    {
        match &self.phase {
            Phase::HashUpdate { from } => {
                let data = &self.message[*from..self.message.len()];
                assert(data@ =~= self.message@.skip(*from as int));
                Request::HashUpdate(data)
            },
            Phase::HashFinish => Request::HashFinish,
            Phase::Start { .. } => Request::SetStart,
            Phase::PollKey { .. } => Request::ReadKeyWrong,
            Phase::PollReady { .. } => Request::ReadBusy,
            Phase::Load { program } => Request::Load(program.as_slice()),
            Phase::Continue => Request::SetContinue,
            Phase::PollDone => Request::ReadBusy,
            Phase::ReadResult => Request::ReadResult { sig_words: self.key_size.sig_words() },
            Phase::Finish { .. } => Request::SetFinish,
            Phase::PollFinished { .. } => Request::ReadBusy,
            Phase::Complete { outcome } => Request::Return(outcome),
        }
    }

    /// Moves on with what the hardware answered.
    pub fn step(self, reply: Reply) -> (next: Signing<'a>)
        requires
            self.wf(),
            self.accepts(reply),
        ensures
            next.wf(),
            self.steps_to(reply, next),
    {
        let Signing { message, encrypted_params, key_size, width, phase } = self;
        let phase = match (phase, reply) {
            (Phase::HashUpdate { .. }, Reply::Remaining(left)) => if left == 0 {
                Phase::HashFinish
            } else {
                Phase::HashUpdate { from: message.len() - left }
            },
            (Phase::HashFinish, Reply::Digest(digest)) => start_with_digest(
                digest,
                encrypted_params,
                key_size,
                width,
            ),
            (Phase::Start { program }, _) => Phase::PollKey { program },
            (Phase::PollKey { program }, Reply::KeyWrong(wrong)) => if wrong != 0 {
                Phase::Complete { outcome: Err(Error::KeyReadError) }
            } else {
                Phase::PollReady { program }
            },
            (Phase::PollReady { program }, Reply::Busy(busy)) => if busy {
                Phase::PollKey { program }
            } else {
                Phase::Load { program }
            },
            (Phase::Load { .. }, _) => Phase::Continue,
            (Phase::Continue, _) => Phase::PollDone,
            (Phase::PollDone, Reply::Busy(busy)) => if busy {
                Phase::PollDone
            } else {
                Phase::ReadResult
            },
            (Phase::ReadResult, Reply::Outcome { check, words }) => {
                let signature = assemble_signature(words.as_slice(), key_size);
                Phase::Finish { outcome: conclude(check, signature) }
            },
            (Phase::Finish { outcome }, _) => Phase::PollFinished { outcome },
            (Phase::PollFinished { outcome }, Reply::Busy(busy)) => if busy {
                Phase::PollFinished { outcome }
            } else {
                Phase::Complete { outcome }
            },
            (phase, _) => phase,
        };
        Signing { message, encrypted_params, key_size, width, phase }
    }
}

/// Pads the digest and lays out the words to load, before the peripheral is touched.
fn start_with_digest(
    digest: [u8; 32],
    encrypted_params: &[u8],
    key_size: KeySize,
    width: OperandWidth,
) -> (phase: Phase)
    requires
        key_size.spec_bytes() <= width.spec_bytes(),
    ensures
        if params_fit(encrypted_params@, key_size.spec_bytes()) {
            phase matches Phase::Start { program } && program@ == load_program(
                encrypted_params@,
                challenge_block(digest@, key_size, width),
                key_size.spec_bytes(),
                width.spec_bytes(),
            )
        } else {
            phase matches Phase::Complete { outcome } && outcome == Err::<Signature, _>(
                Error::IncorrectCipherLength,
            )
        },
{
    let challenge = match pad_message_for_rsa(digest.as_slice(), key_size.bytes(), width) {
        Ok(block) => block,
        Err(e) => return Phase::Complete { outcome: Err(e) },
    };
    match load_operands(encrypted_params, challenge.as_slice(), key_size, width) {
        Ok(program) => Phase::Start { program },
        Err(e) => Phase::Complete { outcome: Err(e) },
    }
}

} // verus!
