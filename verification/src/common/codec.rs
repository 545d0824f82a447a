//! How codec failures are met: retries at lower bitrates, and resets.
//!
//! The codec itself belongs to the caller, which carries out the actions decided
//! here and reports how they went.

use vstd::prelude::*;
use vstd::string::*;

use crate::common::error::VoiceError;
use crate::common::protocol::MAX_OPUS_WIRE_PAYLOAD;

verus! {

/// Bitrate of the first retry, in bits per second.
pub const FIRST_RETRY_BITRATE: i32 = 16_000;

/// Bitrate of the second retry, in bits per second.
pub const SECOND_RETRY_BITRATE: i32 = 12_000;

/// Failures in a row after which a codec is replaced.
pub const CODEC_RESET_THRESHOLD: u8 = 3;

/// How many bytes of an output buffer an encoder may fill: what fits a datagram.
pub fn usable_len(output_len: usize) -> (r: Result<usize, VoiceError>)
    ensures
        match r {
            Ok(len) => output_len > 0 && len == (if output_len <= MAX_OPUS_WIRE_PAYLOAD {
                output_len
            } else {
                MAX_OPUS_WIRE_PAYLOAD
            }),
            Err(VoiceError::Protocol(text)) => output_len == 0 && text@
                == "opus encode output buffer has zero usable length"@,
            Err(_) => false,
        },
{
    if output_len == 0 {
        return Err(
            VoiceError::Protocol("opus encode output buffer has zero usable length".to_owned()),
        );
    }
    if output_len <= MAX_OPUS_WIRE_PAYLOAD {
        Ok(output_len)
    } else {
        Ok(MAX_OPUS_WIRE_PAYLOAD)
    }
}

/// How one attempt to encode a frame went.
#[derive(Debug, Clone, Copy, PartialEq, Eq, Structural)]
pub enum EncodeOutcome {
    /// So many bytes were written.
    Encoded { len: usize },
    /// The buffer was too small for the frame.
    BufferTooSmall,
    Failed,
}

/// What to do after an attempt.
#[derive(Debug, Clone, Copy, PartialEq, Eq, Structural)]
pub enum EncodeAction {
    /// Set this bitrate and encode the frame again.
    Retry { bitrate: i32 },
    /// Done: so many bytes. `restore` tells to set the first bitrate again.
    Done { len: usize, restore: bool },
    /// Give up, and set the first bitrate again.
    GiveUp,
}

/// The attempts at one frame.
pub struct EncodeAttempts {
    attempt: u8,
}

/// What follows on an outcome when `attempt` retries came before.
pub open spec fn encode_action(attempt: nat, outcome: EncodeOutcome) -> EncodeAction {
    match outcome {
        EncodeOutcome::Encoded { len } => EncodeAction::Done { len, restore: attempt > 0 },
        EncodeOutcome::BufferTooSmall => if attempt == 0 {
            EncodeAction::Retry { bitrate: FIRST_RETRY_BITRATE }
        } else if attempt == 1 {
            EncodeAction::Retry { bitrate: SECOND_RETRY_BITRATE }
        } else {
            EncodeAction::GiveUp
        },
        EncodeOutcome::Failed => EncodeAction::GiveUp,
    }
}

impl EncodeAttempts {
    /// The retries so far.
    pub closed spec fn retries(self) -> nat {
        self.attempt as nat
    }

    pub fn new() -> (r: Self)
        ensures
            r.retries() == 0,
    {
        EncodeAttempts { attempt: 0 }
    }

    /// Decides what follows on an attempt.
    pub fn next(&mut self, outcome: EncodeOutcome) -> (r: EncodeAction)
        ensures
            r == encode_action(old(self).retries(), outcome),
            final(self).retries() == (if r is Retry {
                old(self).retries() + 1
            } else {
                old(self).retries()
            }),
    {
        match outcome {
            EncodeOutcome::Encoded { len } => EncodeAction::Done { len, restore: self.attempt > 0 },
            EncodeOutcome::BufferTooSmall => {
                if self.attempt < 2 {
                    let bitrate: i32 = if self.attempt == 0 {
                        FIRST_RETRY_BITRATE
                    } else {
                        SECOND_RETRY_BITRATE
                    };
                    self.attempt = self.attempt + 1;
                    EncodeAction::Retry { bitrate }
                } else {
                    EncodeAction::GiveUp
                }
            },
            EncodeOutcome::Failed => EncodeAction::GiveUp,
        }
    }
}

/// The bitrate that an encoder is left with when the attempts at a frame went as
/// `outcomes` says, from `attempt` retries on with bitrate `current`; nothing if
/// they are not over.
pub open spec fn bitrate_after(
    saved: int,
    current: int,
    attempt: nat,
    outcomes: Seq<EncodeOutcome>,
) -> Option<int>
    decreases outcomes.len(),
{
    if outcomes.len() == 0 {
        None
    } else {
        match encode_action(attempt, outcomes[0]) {
            EncodeAction::Retry { bitrate } => bitrate_after(
                saved,
                bitrate as int,
                attempt + 1,
                outcomes.skip(1),
            ),
            EncodeAction::Done { len, restore } => Some(
                if restore {
                    saved
                } else {
                    current
                },
            ),
            EncodeAction::GiveUp => Some(saved),
        }
    }
}

proof fn lemma_bitrate_from(
    saved: int,
    current: int,
    attempt: nat,
    outcomes: Seq<EncodeOutcome>,
)
    requires
        attempt == 0 ==> current == saved,
        outcomes.len() + attempt >= 3,
        attempt <= 2,
    ensures
        bitrate_after(saved, current, attempt, outcomes) == Some(saved),
    decreases outcomes.len(),
{
    match encode_action(attempt, outcomes[0]) {
        EncodeAction::Retry { bitrate } => {
            lemma_bitrate_from(saved, bitrate as int, attempt + 1, outcomes.skip(1));
        },
        _ => {},
    }
}

/// A frame is over after three attempts at most, and whichever way it ended the
/// encoder is back at the bitrate it had.
pub proof fn lemma_bitrate_is_restored(saved: int, outcomes: Seq<EncodeOutcome>)
    requires
        outcomes.len() >= 3,
    ensures
        bitrate_after(saved, saved, 0, outcomes) == Some(saved),
{
    lemma_bitrate_from(saved, saved, 0, outcomes);
}

/// Failures of a codec since it last worked.
pub struct FailStreak {
    count: u8,
}

/// The streak after one more failure; it stops counting at 255.
pub open spec fn streak_after(count: nat) -> nat {
    if count < 255 {
        count + 1
    } else {
        count
    }
}

impl FailStreak {
    pub closed spec fn failures(self) -> nat {
        self.count as nat
    }

    pub fn new() -> (r: Self)
        ensures
            r.failures() == 0,
    {
        FailStreak { count: 0 }
    }

    /// The codec worked, or was replaced.
    pub fn clear(&mut self)
        ensures
            final(self).failures() == 0,
    {
        self.count = 0;
    }

    /// The codec failed. Tells whether to replace it.
    pub fn fail(&mut self) -> (r: bool)
        ensures
            final(self).failures() == streak_after(old(self).failures()),
            r == (final(self).failures() >= CODEC_RESET_THRESHOLD),
    {
        self.count = self.count.saturating_add(1);
        self.count >= CODEC_RESET_THRESHOLD
    }
}

/// A frame is tried again only where the buffer was too small, first at 16000 and
/// then at 12000 bits per second; a third time is given up. A frame that was
/// encoded is done, and the bitrate is restored exactly if it was lowered.
pub proof fn lemma_retries(attempts: &mut EncodeAttempts, outcome: EncodeOutcome, r: EncodeAction)
    requires
        call_ensures(EncodeAttempts::next, (attempts, outcome), r),
    ensures
        match outcome {
            EncodeOutcome::Encoded { len } => {
                &&& r is Done
                &&& r->len == len
                &&& r->restore <==> old(attempts).retries() > 0
            },
            EncodeOutcome::BufferTooSmall => {
                &&& old(attempts).retries() == 0 ==> r == (EncodeAction::Retry { bitrate: 16_000 })
                &&& old(attempts).retries() == 1 ==> r == (EncodeAction::Retry { bitrate: 12_000 })
                &&& old(attempts).retries() >= 2 ==> r is GiveUp
            },
            EncodeOutcome::Failed => r is GiveUp,
        },
        final(attempts).retries() == old(attempts).retries() + (if r is Retry {
            1int
        } else {
            0int
        }),
{
}

/// An encoder may fill what fits a datagram: 96 bytes, or the buffer if it is
/// smaller; an empty buffer is refused.
pub proof fn lemma_usable_room(output_len: usize, r: Result<usize, VoiceError>)
    requires
        call_ensures(usable_len, (output_len,), r),
    ensures
        r is Ok <==> output_len > 0,
        r is Ok ==> r->Ok_0 <= output_len && r->Ok_0 <= 96 && (r->Ok_0 == output_len || r->Ok_0
            == 96),
{
}

/// A codec is replaced from its third failure in a row on.
pub proof fn lemma_third_failure_replaces(
    streak: &mut FailStreak,
    second: &mut FailStreak,
    third: &mut FailStreak,
    a: bool,
    b: bool,
    c: bool,
)
    requires
        call_ensures(FailStreak::fail, (streak,), a),
        call_ensures(FailStreak::fail, (second,), b),
        call_ensures(FailStreak::fail, (third,), c),
        old(second).failures() == final(streak).failures(),
        old(third).failures() == final(second).failures(),
    ensures
        old(streak).failures() == 0 ==> !a && !b,
        c,
        final(streak).failures() > 0,
{
}

/// A codec that worked, or was replaced, starts anew.
pub proof fn lemma_success_starts_anew(streak: &mut FailStreak)
    requires
        call_ensures(FailStreak::clear, (streak,), ()),
    ensures
        final(streak).failures() == 0,
{
}

/// Both counts start at nothing.
pub proof fn lemma_counts_start_at_nothing(attempts: EncodeAttempts, streak: FailStreak)
    requires
        call_ensures(EncodeAttempts::new, (), attempts),
        call_ensures(FailStreak::new, (), streak),
    ensures
        attempts.retries() == 0,
        streak.failures() == 0,
{
}

/// Each failure counts one, up to 255, and the codec is replaced exactly if two or
/// more came before it.
pub proof fn lemma_failures_are_counted(streak: &mut FailStreak, r: bool)
    requires
        call_ensures(FailStreak::fail, (streak,), r),
    ensures
        r <==> old(streak).failures() >= 2,
        old(streak).failures() < 255 ==> final(streak).failures() == old(streak).failures() + 1,
        old(streak).failures() == 255 ==> final(streak).failures() == 255,
{
}

} // verus!
