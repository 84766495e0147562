//! The few domain values the firmware passes around: a shade's id, whether it
//! owns a pairing button, its direction of travel and the commands it takes.

use vstd::prelude::*;

verus! {

/// Registry slots: the most shades one controller drives.
pub const MAX_SHADES: usize = 32;

/// Longest shade name, in bytes.
pub const MAX_NAME_LEN: usize = 32;

/// A shade's registry slot.
#[derive(Clone, Copy, Debug, PartialEq, Eq, Structural)]
pub struct ShadeId(pub u8);

/// Whether a shade owns a pairing button: only a shade whose address this
/// controller allocated does.
#[derive(Clone, Copy, Debug, PartialEq, Eq, Structural)]
pub enum Pairing {
    Offered,
    Withheld,
}

/// Which way a shade is moving, if at all.
#[derive(Clone, Copy, Debug, PartialEq, Eq, Structural)]
pub enum Direction {
    Up,
    Down,
    Idle,
}

/// What a shade can be told to do.
#[derive(Clone, Copy, Debug, PartialEq, Eq, Structural)]
pub enum ShadeCommand {
    Up,
    Down,
    My,
    Vent,
    /// Go to a position, in percent closed, exactly as the broker sent it.
    GoTo(u8),
    Pair,
}

/// A command addressed to a shade.
#[derive(Clone, Copy, Debug, PartialEq, Eq, Structural)]
pub enum ControlCommand {
    Shade { id: ShadeId, command: ShadeCommand },
}

} // verus!
