//! What holds of whole signing operations, whatever the hardware answers.
use crate::ds::pkcs1_block;
use crate::ds::Error;
use crate::ds::KeySize;
use crate::ds::OperandWidth;
use crate::ds::Signature;
use crate::program::concludes;
use crate::program::params_fit;
use crate::program::signature_bytes;
use crate::program::x_bytes;
use crate::program::RegisterWrite;
use crate::signing::challenge_block;
use crate::signing::Phase;
use crate::signing::Reply;
use crate::signing::Signing;
use crate::words::be_value;
use crate::words::bytes_words;
use crate::words::lemma_bytes_words_value;
use crate::words::lemma_words_bytes_value;
use crate::words::words_bytes;
use crate::words::words_value;
use vstd::prelude::*;

verus! {

/// One change of the peripheral's registers.
pub enum Command {
    SetStart,
    Write(RegisterWrite),
    SetContinue,
    SetFinish,
}

/// `states` is an operation from its beginning on, which got the answers `replies`.
pub open spec fn is_run<'a>(states: Seq<Signing<'a>>, replies: Seq<Reply>) -> bool {
    &&& states.len() == replies.len() + 1
    &&& states[0].is_initial()
    &&& forall|i: int|
        #![trigger replies[i]]
        0 <= i < replies.len() ==> states[i].accepts(replies[i]) && states[i].steps_to(
            replies[i],
            states[i + 1],
        )
}

/// The register changes that a state asks for.
pub open spec fn commands_of<'a>(state: Signing<'a>) -> Seq<Command> {
    match state.phase {
        Phase::Start { .. } => seq![Command::SetStart],
        Phase::Load { program } => program@.map_values(|w: RegisterWrite| Command::Write(w)),
        Phase::Continue => seq![Command::SetContinue],
        Phase::Finish { .. } => seq![Command::SetFinish],
        _ => seq![],
    }
}

/// The register changes that the states ask for, one after the other.
pub open spec fn performed<'a>(states: Seq<Signing<'a>>) -> Seq<Command>
    decreases states.len(),
{
    if states.len() == 0 {
        seq![]
    } else {
        performed(states.drop_last()) + commands_of(states.last())
    }
}

/// The bytes that the hash engine has taken.
pub open spec fn hashed<'a>(states: Seq<Signing<'a>>, replies: Seq<Reply>) -> Seq<u8>
    decreases replies.len(),
{
    if replies.len() == 0 {
        seq![]
    } else {
        let before = hashed(states, replies.drop_last());
        let state = states[replies.len() - 1];
        match (state.phase, replies.last()) {
            (Phase::HashUpdate { from }, Reply::Remaining(left)) => before
                + state.message@.subrange(from as int, state.message@.len() - left),
            _ => before,
        }
    }
}

/// The digest that the hash engine gave, if it gave one.
pub open spec fn digest_in(replies: Seq<Reply>) -> Option<Seq<u8>>
    decreases replies.len(),
{
    if replies.len() == 0 {
        None
    } else {
        match replies.last() {
            Reply::Digest(digest) => Some(digest@),
            _ => digest_in(replies.drop_last()),
        }
    }
}

/// The check register and the words that were read, if they were read.
pub open spec fn outcome_in(replies: Seq<Reply>) -> Option<(u32, Seq<u32>)>
    decreases replies.len(),
{
    if replies.len() == 0 {
        None
    } else {
        match replies.last() {
            Reply::Outcome { check, words } => Some((check, words@)),
            _ => outcome_in(replies.drop_last()),
        }
    }
}

/// The key-wrong field was found set.
pub open spec fn key_refused(replies: Seq<Reply>) -> bool
    decreases replies.len(),
{
    replies.len() > 0 && ((replies.last() matches Reply::KeyWrong(wrong) && wrong != 0)
        || key_refused(replies.drop_last()))
}

/// The register changes that load the operands of a message with this digest.
pub open spec fn load_commands<'a>(state: Signing<'a>, digest: Seq<u8>) -> Seq<Command> {
    state.program_for(digest).map_values(|w: RegisterWrite| Command::Write(w))
}

/// `outcome` is the one that follows from what was read.
pub open spec fn follows<'a>(
    state: Signing<'a>,
    outcome: Result<Signature, Error>,
    replies: Seq<Reply>,
) -> bool {
    outcome_in(replies) matches Some(read) && concludes(
        outcome,
        read.0,
        state.key_size,
        signature_bytes(read.1),
    )
}

/// What is known of an operation that has reached `state`.
spec fn progress<'a>(
    state: Signing<'a>,
    done: Seq<Command>,
    taken: Seq<u8>,
    replies: Seq<Reply>,
) -> bool {
    let fit = params_fit(state.encrypted_params@, state.key_size.spec_bytes());
    let digest = digest_in(replies);
    let started = seq![Command::SetStart];
    let loaded = started + load_commands(state, digest->0);
    &&& !(state.phase is Complete) ==> !key_refused(replies)
    &&& match state.phase {
        Phase::HashUpdate { from } => {
            &&& from < state.message@.len()
            &&& taken == state.message@.take(from as int)
            &&& done == Seq::<Command>::empty()
        },
        Phase::HashFinish => taken == state.message@ && done == Seq::<Command>::empty(),
        _ => {
            &&& taken == state.message@
            &&& digest is Some
            &&& match state.phase {
                Phase::Start { program } => fit && program@ == state.program_for(digest->0) && done
                    == Seq::<Command>::empty(),
                Phase::PollKey { program } | Phase::PollReady { program } | Phase::Load {
                    program,
                } => fit && program@ == state.program_for(digest->0) && done == started,
                Phase::Continue => fit && done == loaded,
                Phase::PollDone | Phase::ReadResult => fit && done == loaded.push(
                    Command::SetContinue,
                ),
                Phase::Finish { outcome } => fit && follows(state, outcome, replies) && done
                    == loaded.push(Command::SetContinue),
                Phase::PollFinished { outcome } => fit && follows(state, outcome, replies) && done
                    == loaded.push(Command::SetContinue).push(Command::SetFinish),
                Phase::Complete { outcome } => {
                    ||| !fit && outcome == Err::<Signature, _>(Error::IncorrectCipherLength)
                        && done == Seq::<Command>::empty()
                    ||| fit && outcome == Err::<Signature, _>(Error::KeyReadError) && done
                        == started && key_refused(replies)
                    ||| fit && !key_refused(replies) && follows(state, outcome, replies) && done
                        == loaded.push(Command::SetContinue).push(Command::SetFinish)
                },
                _ => false,
            }
        },
    }
}

proof fn lemma_progress<'a>(states: Seq<Signing<'a>>, replies: Seq<Reply>)
    requires
        is_run(states, replies),
    ensures
        progress(
            states.last(),
            performed(states.drop_last()),
            hashed(states, replies),
            replies,
        ),
        states.last().message@ == states[0].message@,
        states.last().encrypted_params@ == states[0].encrypted_params@,
        states.last().key_size == states[0].key_size,
        states.last().width == states[0].width,
    decreases replies.len(),
{
    if replies.len() == 0 {
        assert(states.drop_last() =~= Seq::<Signing<'a>>::empty());
        assert(states[0].message@.take(0) =~= Seq::<u8>::empty());
        if states[0].phase is HashFinish {
            assert(states[0].message@ =~= Seq::<u8>::empty());
        }
    } else {
        let n = replies.len() as int;
        let states0 = states.drop_last();
        let replies0 = replies.drop_last();
        let pre = states[n - 1];
        let post = states[n];
        assert(is_run(states0, replies0)) by {
            assert forall|i: int|
                #![trigger replies0[i]]
                0 <= i < replies0.len() implies states0[i].accepts(replies0[i])
                && states0[i].steps_to(replies0[i], states0[i + 1]) by {
                assert(replies[i] == replies0[i]);
            }
        }
        lemma_progress(states0, replies0);
        lemma_hashed_prefix(states0, states, replies0);
        let reply = replies[n - 1];
        assert(pre.accepts(reply) && pre.steps_to(reply, post));
        assert(states0.last() == pre);
        assert(performed(states0) == performed(states0.drop_last()) + commands_of(pre));
        let done0 = performed(states0.drop_last());
        assert(done0 + Seq::<Command>::empty() =~= done0);
        assert(done0 + seq![Command::SetContinue] =~= done0.push(Command::SetContinue));
        assert(done0 + seq![Command::SetFinish] =~= done0.push(Command::SetFinish));
        assert(Seq::<Command>::empty() + seq![Command::SetStart] =~= seq![Command::SetStart]);
        match (pre.phase, reply) {
            (Phase::HashUpdate { from }, Reply::Remaining(left)) => {
                let m = pre.message@;
                let end = m.len() - left;
                assert(m.take(from as int) + m.subrange(from as int, end) =~= m.take(end));
                assert(m.take(m.len() as int) =~= m);
            },
            _ => {},
        }
    }
}

proof fn lemma_hashed_prefix<'a>(
    states0: Seq<Signing<'a>>,
    states: Seq<Signing<'a>>,
    replies: Seq<Reply>,
)
    requires
        replies.len() <= states0.len() <= states.len(),
        forall|i: int| 0 <= i < states0.len() ==> states0[i] == states[i],
    ensures
        hashed(states0, replies) == hashed(states, replies),
    decreases replies.len(),
{
    if replies.len() > 0 {
        lemma_hashed_prefix(states0, states, replies.drop_last());
    }
}

/// A completed operation has hashed exactly the message, and:
/// with parameters of the wrong length it reports them and changes no register;
/// with the key-wrong field found set it reports that, and has only set the start bit;
/// else it has set the start bit, loaded the operands of the padded digest, set the continue
/// bit and, after the result was read, the finish bit, and returns what the check register
/// and the words that were read say.
pub proof fn law_completed_run<'a>(states: Seq<Signing<'a>>, replies: Seq<Reply>)
    requires
        is_run(states, replies),
        states.last().phase is Complete,
    ensures
        hashed(states, replies) == states[0].message@,
        digest_in(replies) is Some,
        ({
            let s = states[0];
            let outcome = states.last().phase->Complete_outcome;
            let done = performed(states);
            let load = load_commands(s, digest_in(replies)->0);
            if !params_fit(s.encrypted_params@, s.key_size.spec_bytes()) {
                outcome == Err::<Signature, _>(Error::IncorrectCipherLength) && done == Seq::<
                    Command,
                >::empty()
            } else if key_refused(replies) {
                outcome == Err::<Signature, _>(Error::KeyReadError) && done == seq![
                    Command::SetStart,
                ]
            } else {
                follows(s, outcome, replies) && done == seq![Command::SetStart] + load + seq![
                    Command::SetContinue,
                    Command::SetFinish,
                ]
            }
        }),
{
    lemma_progress(states, replies);
    let s = states[0];
    let last = states.last();
    let load = load_commands(s, digest_in(replies)->0);
    assert(performed(states) == performed(states.drop_last()) + commands_of(last));
    assert(performed(states) =~= performed(states.drop_last()));
    assert(seq![Command::SetStart] + load + seq![Command::SetContinue, Command::SetFinish]
        =~= (seq![Command::SetStart] + load).push(Command::SetContinue).push(Command::SetFinish));
}

/// Operands are loaded only once the key was found right and the peripheral then not busy.
pub proof fn law_load_only_when_ready<'a>(states: Seq<Signing<'a>>, replies: Seq<Reply>, i: int)
    requires
        is_run(states, replies),
        0 <= i < states.len(),
        states[i].phase is Load,
    ensures
        i >= 2,
        replies[i - 2] == Reply::KeyWrong(0),
        replies[i - 1] == Reply::Busy(false),
{
    assert(i >= 1);
    assert(states[i - 1].steps_to(replies[i - 1], states[i]));
    assert(states[i - 1].phase is PollReady);
    assert(i >= 2);
    assert(states[i - 2].steps_to(replies[i - 2], states[i - 1]));
    assert(states[i - 2].accepts(replies[i - 2]));
}

/// The result is read only once the peripheral, told to compute, was found not busy.
pub proof fn law_result_only_when_idle<'a>(states: Seq<Signing<'a>>, replies: Seq<Reply>, i: int)
    requires
        is_run(states, replies),
        0 <= i < states.len(),
        states[i].phase is ReadResult,
    ensures
        i >= 1,
        states[i - 1].phase is PollDone,
        replies[i - 1] == Reply::Busy(false),
{
    assert(i >= 1);
    assert(states[i - 1].accepts(replies[i - 1]));
    assert(states[i - 1].steps_to(replies[i - 1], states[i]));
}

/// An operation that was started is complete only once the peripheral, told that the result was
/// read, was found not busy, unless its key was found wrong.
pub proof fn law_complete_only_when_idle<'a>(states: Seq<Signing<'a>>, replies: Seq<Reply>, i: int)
    requires
        is_run(states, replies),
        0 < i < states.len(),
        states[i].phase is Complete,
        !(states[i - 1].phase is HashFinish),
    ensures
        replies[i - 1] == Reply::Busy(false) && states[i - 1].phase is PollFinished || (
        states[i - 1].phase is PollKey && replies[i - 1] is KeyWrong && replies[i - 1]
            != Reply::KeyWrong(0)),
{
    assert(states[i - 1].accepts(replies[i - 1]));
    assert(states[i - 1].steps_to(replies[i - 1], states[i]));
}

/// Every operation that is not complete takes the answer to what it asked for, whatever its
/// value; of the hash engine, that it has left at most what it was given, and of the result, as
/// many words as the key has.
pub proof fn law_answers_are_accepted<'a>(
    state: Signing<'a>,
    left: usize,
    digest: [u8; 32],
    wrong: u32,
    busy: bool,
    check: u32,
    words: Vec<u32>,
)
    ensures
        match state.phase {
            Phase::HashUpdate { from } => left + from <= state.message@.len() ==> state.accepts(
                Reply::Remaining(left),
            ),
            Phase::HashFinish => state.accepts(Reply::Digest(digest)),
            Phase::PollKey { .. } => state.accepts(Reply::KeyWrong(wrong)),
            Phase::PollReady { .. } => state.accepts(Reply::Busy(busy)),
            Phase::PollDone => state.accepts(Reply::Busy(busy)),
            Phase::PollFinished { .. } => state.accepts(Reply::Busy(busy)),
            Phase::ReadResult => words@.len() == state.key_size.spec_sig_words() ==> state.accepts(
                Reply::Outcome { check, words },
            ),
            Phase::Complete { .. } => true,
            _ => state.accepts(Reply::Done),
        },
{
}

/// How many answers an operation still needs, at most, from hardware that does not keep it
/// waiting.
pub open spec fn answers_left<'a>(state: Signing<'a>) -> int {
    match state.phase {
        Phase::HashUpdate { from } => 10 + state.message@.len() - from,
        Phase::HashFinish => 10,
        Phase::Start { .. } => 9,
        Phase::PollKey { .. } => 8,
        Phase::PollReady { .. } => 7,
        Phase::Load { .. } => 6,
        Phase::Continue => 5,
        Phase::PollDone => 4,
        Phase::ReadResult => 3,
        Phase::Finish { .. } => 2,
        Phase::PollFinished { .. } => 1,
        Phase::Complete { .. } => 0,
    }
}

/// Hardware that does not keep an operation waiting brings it to its end: each answer but that of
/// a busy peripheral, or of a hash engine that takes nothing, leaves fewer answers to give, and
/// an operation that needs none is complete.
pub proof fn law_operation_comes_to_its_end<'a>(
    state: Signing<'a>,
    reply: Reply,
    next: Signing<'a>,
)
    requires
        state.wf(),
        state.accepts(reply),
        state.steps_to(reply, next),
        reply != Reply::Busy(true),
        state.phase matches Phase::HashUpdate { from } ==> reply != Reply::Remaining(
            (state.message@.len() - from) as usize,
        ),
    ensures
        0 <= answers_left(next) < answers_left(state),
        answers_left(state) == 0 <==> state.phase is Complete,
        answers_left(next) == 0 <==> next.phase is Complete,
{
}

/// A padded block is as long as the key, and two digests of one length that pad to the same
/// block are the same.
pub proof fn law_padding_is_injective(d1: Seq<u8>, d2: Seq<u8>, key_bytes: nat)
    requires
        d1.len() == d2.len(),
        d1.len() + 22 <= key_bytes,
    ensures
        pkcs1_block(d1, key_bytes).len() == key_bytes,
        pkcs1_block(d1, key_bytes) == pkcs1_block(d2, key_bytes) ==> d1 == d2,
{
    let start = key_bytes - d1.len();
    assert(pkcs1_block(d1, key_bytes).skip(start) =~= d1);
    assert(pkcs1_block(d2, key_bytes).skip(start) =~= d2);
}

/// Whatever the key size, the X memory holds the padded digest, last byte first: read as a
/// number, the big-endian number of the padded digest.
pub proof fn law_x_memory_holds_padded_digest(
    digest: Seq<u8>,
    key_size: KeySize,
    width: OperandWidth,
)
    requires
        digest.len() == 32,
        key_size.spec_bytes() <= width.spec_bytes(),
    ensures
        x_bytes(challenge_block(digest, key_size, width), key_size.spec_bytes()) == pkcs1_block(
            digest,
            key_size.spec_bytes(),
        ).reverse(),
        words_value(
            bytes_words(x_bytes(challenge_block(digest, key_size, width), key_size.spec_bytes())),
        ) == be_value(pkcs1_block(digest, key_size.spec_bytes())),
{
    let block = pkcs1_block(digest, key_size.spec_bytes());
    let bytes = x_bytes(challenge_block(digest, key_size, width), key_size.spec_bytes());
    law_padding_is_injective(digest, digest, key_size.spec_bytes());
    assert(challenge_block(digest, key_size, width).take(block.len() as int) =~= block);
    lemma_bytes_words_value(bytes);
}

/// A signature, read as a big-endian number, is the number in the Z memory.
pub proof fn law_signature_is_z(words: Seq<u32>)
    ensures
        be_value(signature_bytes(words)) == words_value(words),
{
    assert(words_bytes(words).reverse().reverse() =~= words_bytes(words));
    lemma_words_bytes_value(words);
}

} // verus!
