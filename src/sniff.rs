//! The protocol that guesses a format from a live source: note the
//! position, read the first bytes, seek back. The I/O is done by the caller,
//! who performs each action and reports what came of it as an event.

use vstd::prelude::*;

use crate::format::{guess_format_from_bytes, guessed_format, ImageFormat};
use crate::reader::{format_after_guess, lemma_guess_idempotent};

verus! {

/// Most bytes that a guess reads.
pub const SNIFF_LEN: usize = 16;

/// Where the protocol stands.
#[derive(Clone, Copy, Debug, PartialEq, Eq, Structural)]
pub enum SniffState {
    /// Nothing has been done.
    Start,
    /// The source reported position `at`; its first bytes are being read.
    Reading { at: u64 },
    /// A guess was made; the source is being put back at `at`.
    Restoring { at: u64, guess: Option<ImageFormat> },
    /// The source is back at its starting position; the guess is final.
    Done { guess: Option<ImageFormat> },
    /// The source failed or misbehaved. Its position is unreliable and it
    /// must not be used for more I/O.
    Poisoned,
}

/// What the source did when asked.
pub enum SniffEvent {
    /// It reported its current position.
    Position(u64),
    /// It delivered these bytes, fewer than asked only at its end.
    Bytes(Vec<u8>),
    /// It moved to this position.
    Seeked(u64),
    /// The operation failed.
    Failed,
}

/// What the caller is to do next.
#[derive(Clone, Copy, Debug, PartialEq, Eq, Structural)]
pub enum SniffAction {
    /// Ask the source for its current position.
    ReportPosition,
    /// Read at most this many bytes.
    ReadUpTo(usize),
    /// Seek to this absolute position.
    SeekTo(u64),
    /// Stop; the guess is final and the position restored.
    Finish(Option<ImageFormat>),
    /// Stop with a source error; the position is unreliable.
    Abort,
}

/// One transition of the protocol.
pub open spec fn sniff_transition(state: SniffState, event: SniffEvent) -> (SniffState, SniffAction) {
    match (state, event) {
        (SniffState::Start, SniffEvent::Position(p)) => (
            SniffState::Reading { at: p },
            SniffAction::ReadUpTo(SNIFF_LEN),
        ),
        (SniffState::Reading { at }, SniffEvent::Bytes(b)) => if b@.len() <= SNIFF_LEN {
            (
                SniffState::Restoring { at, guess: guessed_format(b@) },
                SniffAction::SeekTo(at),
            )
        } else {
            (SniffState::Poisoned, SniffAction::Abort)
        },
        (SniffState::Restoring { at, guess }, SniffEvent::Seeked(p)) => if p == at {
            (SniffState::Done { guess }, SniffAction::Finish(guess))
        } else {
            (SniffState::Poisoned, SniffAction::Abort)
        },
        (SniffState::Done { guess }, _) => (SniffState::Done { guess }, SniffAction::Finish(guess)),
        _ => (SniffState::Poisoned, SniffAction::Abort),
    }
}

/// The state after a run of events from the start.
pub open spec fn sniff_run(events: Seq<SniffEvent>) -> SniffState
    decreases events.len(),
{
    if events.len() == 0 {
        SniffState::Start
    } else {
        sniff_transition(sniff_run(events.drop_last()), events.last()).0
    }
}

/// The first action of the protocol.
pub fn sniff_begin() -> (r: (SniffState, SniffAction))
    ensures
        r == (SniffState::Start, SniffAction::ReportPosition),
{
    (SniffState::Start, SniffAction::ReportPosition)
}

/// Decides the next state and action from the current state and what the
/// source did. The protocol finishes only once the source confirms a seek
/// back to the position it reported, with the guess taken from at most
/// `SNIFF_LEN` bytes; every failure of the source poisons it.
pub fn sniff_step(state: SniffState, event: SniffEvent) -> (r: (SniffState, SniffAction))
    ensures
        r == sniff_transition(state, event),
        state is Start ==> (event matches SniffEvent::Position(p) ==> r == (
            SniffState::Reading { at: p },
            SniffAction::ReadUpTo(SNIFF_LEN),
        )),
        r.1 matches SniffAction::SeekTo(q) ==> (state matches SniffState::Reading { at } && (q == at && (
        event matches SniffEvent::Bytes(b) && (b@.len() <= SNIFF_LEN && r.0 == (SniffState::Restoring {
            at,
            guess: guessed_format(b@),
        }))))),
        !(state is Done) ==> (r.1 matches SniffAction::Finish(g) ==> (state matches SniffState::Restoring {
            at,
            guess,
        } && (g == guess && r.0 == (SniffState::Done { guess }) && (event matches SniffEvent::Seeked(p)
            && p == at)))),
        event is Failed && !(state is Done) ==> r == (SniffState::Poisoned, SniffAction::Abort),
{
    match (state, event) {
        (SniffState::Start, SniffEvent::Position(p)) => (
            SniffState::Reading { at: p },
            SniffAction::ReadUpTo(SNIFF_LEN),
        ),
        (SniffState::Reading { at }, SniffEvent::Bytes(b)) => {
            if b.len() <= SNIFF_LEN {
                let guess = guess_format_from_bytes(b.as_slice());
                (SniffState::Restoring { at, guess }, SniffAction::SeekTo(at))
            } else {
                (SniffState::Poisoned, SniffAction::Abort)
            }
        },
        (SniffState::Restoring { at, guess }, SniffEvent::Seeked(p)) => {
            if p == at {
                (SniffState::Done { guess }, SniffAction::Finish(guess))
            } else {
                (SniffState::Poisoned, SniffAction::Abort)
            }
        },
        (SniffState::Done { guess }, _) => (SniffState::Done { guess }, SniffAction::Finish(guess)),
        _ => (SniffState::Poisoned, SniffAction::Abort),
    }
}

/// A run that has finished went through exactly one report of a position,
/// one read of at most `SNIFF_LEN` bytes whose guess it keeps, and one seek
/// that the source confirmed ended at the reported position.
pub proof fn lemma_done_restores_position(events: Seq<SniffEvent>)
    requires
        sniff_run(events) is Done,
    ensures
        events.len() >= 3,
        events[0] matches SniffEvent::Position(p) && events[2] matches SniffEvent::Seeked(q) && p == q,
        events[1] matches SniffEvent::Bytes(b) && b@.len() <= SNIFF_LEN && sniff_run(events)
            == (SniffState::Done { guess: guessed_format(b@) }),
    decreases events.len(),
{
    let prev = events.drop_last();
    let s = sniff_run(prev);
    if s is Done {
        lemma_done_restores_position(prev);
    } else {
        assert(s is Restoring);
        let p1 = prev.drop_last();
        assert(sniff_run(p1) is Reading);
        let p0 = p1.drop_last();
        assert(sniff_run(p0) is Start);
        if p0.len() > 0 {
            lemma_start_only_empty(p0);
        }
        assert(p0.len() == 0);
        assert(events.len() == 3);
        assert(events[0] == p1[0]);
        assert(events[1] == prev[1]);
    }
}

/// Sniffing twice from the same position of an unchanged source: both runs
/// seek back to that position and finish with the same guess, and the
/// reader's format after the second guess is the one after the first.
pub proof fn lemma_sniff_twice(first: Seq<SniffEvent>, second: Seq<SniffEvent>, current: Option<ImageFormat>)
    requires
        sniff_run(first) is Done,
        sniff_run(second) is Done,
        first[0] == second[0],
        first[1] matches SniffEvent::Bytes(b1) && second[1] matches SniffEvent::Bytes(b2) && b1@ == b2@,
    ensures
        first[0] matches SniffEvent::Position(p) && first[2] matches SniffEvent::Seeked(q1)
            && second[2] matches SniffEvent::Seeked(q2) && q1 == p && q2 == p,
        sniff_run(first) == sniff_run(second),
        first[1] matches SniffEvent::Bytes(b) && format_after_guess(format_after_guess(current, b@), b@)
            == format_after_guess(current, b@),
{
    lemma_done_restores_position(first);
    lemma_done_restores_position(second);
    if let SniffEvent::Bytes(b) = first[1] {
        lemma_guess_idempotent(current, b@);
    }
}

/// Only the empty run is at the start.
proof fn lemma_start_only_empty(events: Seq<SniffEvent>)
    requires
        sniff_run(events) is Start,
    ensures
        events.len() == 0,
{
    if events.len() > 0 {
        assert(!(sniff_transition(sniff_run(events.drop_last()), events.last()).0 is Start));
    }
}

} // verus!
