//! The bench checks' decisions: what a round trip through a store writes,
//! when it must refuse to, whether what came back is what went in, and how
//! a transmit burst is driven and reported.

use vstd::prelude::*;

use crate::mqtt::bytes_equal;

verus! {

/// Why a bench check stopped.
#[derive(Clone, Copy, Debug, PartialEq, Eq, Structural)]
pub enum CheckError {
    /// Nothing readable for the check's address, and damaged slots present:
    /// an empty read may be lost data rather than a fresh region, so nothing
    /// is seeded over it.
    Unreadable { damaged: usize, slots: usize },
    /// What was read back is not what was written.
    NotDurable,
}

/// The code the store check commits: one past the stored code, wrapping; the
/// seed where the region is blank; and a refusal where it may be damaged.
pub fn next_check_code(loaded: Option<u32>, damaged: usize, slots: usize, seed: u32) -> (next: Result<u32, CheckError>)
    ensures
        next == (match loaded {
            Some(code) => Ok::<u32, CheckError>(if code == u32::MAX { 0 } else { (code + 1) as u32 }),
            None => if damaged > 0 {
                Err(CheckError::Unreadable { damaged, slots })
            } else {
                Ok(seed)
            },
        }),
{
    match loaded {
        Some(code) => Ok(code.wrapping_add(1)),
        None => if damaged > 0 {
            Err(CheckError::Unreadable { damaged, slots })
        } else {
            Ok(seed)
        },
    }
}

/// Whether the code read back after a commit is the code committed.
pub fn code_durable(reloaded: Option<u32>, committed: u32) -> (verdict: Result<(), CheckError>)
    ensures
        verdict is Ok <==> reloaded == Some(committed),
        verdict matches Err(error) ==> error == CheckError::NotDurable,
{
    match reloaded {
        Some(code) => if code == committed { Ok(()) } else { Err(CheckError::NotDurable) },
        None => Err(CheckError::NotDurable),
    }
}

/// Whether the network name read back after a write is the one written.
pub fn name_durable(reloaded: Option<&[u8]>, written: &[u8]) -> (verdict: Result<(), CheckError>)
    ensures
        verdict is Ok <==> (reloaded matches Some(name) && name@ == written@),
        verdict matches Err(error) ==> error == CheckError::NotDurable,
{
    match reloaded {
        Some(name) => if bytes_equal(name, written) { Ok(()) } else { Err(CheckError::NotDurable) },
        None => Err(CheckError::NotDurable),
    }
}

/// Which of a burst's frames is being sent.
#[derive(Clone, Copy, Debug, PartialEq, Eq, Structural)]
pub enum FrameKind {
    First,
    Repeat,
}

/// A burst of one frame and `repeats` repeats.
pub fn burst(repeats: u32) -> (kinds: Vec<FrameKind>)
    requires
        repeats < u32::MAX,
    ensures
        kinds@.len() == repeats + 1,
        kinds@[0] == FrameKind::First,
        forall|i: int| 1 <= i <= repeats ==> #[trigger] kinds@[i] == FrameKind::Repeat,
{
    let mut kinds: Vec<FrameKind> = Vec::new();
    kinds.push(FrameKind::First);
    let mut sent: u32 = 0;
    while sent < repeats
        invariant
            sent <= repeats,
            kinds@.len() == sent + 1,
            kinds@[0] == FrameKind::First,
            forall|i: int| 1 <= i <= sent ==> #[trigger] kinds@[i] == FrameKind::Repeat,
        decreases repeats - sent,
    {
        kinds.push(FrameKind::Repeat);
        sent += 1;
    }
    kinds
}

/// What a transmit check does next.
#[derive(Clone, Copy, Debug, PartialEq, Eq, Structural)]
pub enum BurstStep {
    /// Send one more frame, of this kind.
    Send(FrameKind),
    /// Take the radio out of transmit.
    Park,
}

/// The next step of a burst of one frame and `repeats` repeats, after `sent`
/// frames have gone out; `failed` says whether the last of them failed. The
/// burst stops at the first failed frame, and the radio is parked whether a
/// frame failed or the burst completed.
pub fn burst_step(sent: u32, repeats: u32, failed: bool) -> (step: BurstStep)
    ensures
        step == (if failed || sent > repeats {
            BurstStep::Park
        } else if sent == 0 {
            BurstStep::Send(FrameKind::First)
        } else {
            BurstStep::Send(FrameKind::Repeat)
        }),
{
    if failed || sent > repeats {
        BurstStep::Park
    } else if sent == 0 {
        BurstStep::Send(FrameKind::First)
    } else {
        BurstStep::Send(FrameKind::Repeat)
    }
}

/// A transmit check's result: a transmit failure outranks a failure to park
/// the radio, since it is the one that explains why nothing moved.
pub fn bring_up_result<E>(tx: Result<(), E>, parked: Result<(), E>) -> (result: Result<(), E>)
    ensures
        result == (match tx {
            Ok(_) => parked,
            Err(error) => Err::<(), E>(error),
        }),
{
    match tx {
        Ok(()) => parked,
        Err(error) => Err(error),
    }
}

} // verus!
