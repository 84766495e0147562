//! The three messages a runtime change to the shade table travels on.
//!
//! The registry belongs to the state task, so a change makes a round trip:
//! someone asks for it ([`ShadeEdit`]), the state task says what it did
//! ([`ShadeEvent`]), and the broker session says the entities are on or off
//! the broker ([`ShadeAck`]). The acknowledgement of a removal is what lets the
//! state task clear the persisted `announced` bit, and it may only be sent once
//! the tombstones have landed.

use vstd::prelude::*;

use crate::shade::ShadeId;

verus! {

/// A change to the shade table, as asked for.
pub enum ShadeEdit {
    /// Add a shade, allocating it an address from this controller's own space.
    Add { name: heapless::String<32> },
    /// Remove a shade, and everything the broker holds for it.
    Remove { id: ShadeId },
    /// Register a wall remote whose presses drive this shade's position
    /// estimate; `address` is the remote's 24-bit address.
    Link { id: ShadeId, address: u32 },
    /// Forget a wall remote.
    Unlink { id: ShadeId, address: u32 },
}

/// What the state task did, for the broker session to reflect.
pub enum ShadeEvent {
    /// A shade now exists and has no entities yet. `pairable` says whether
    /// this controller allocated its address, and so whether it is offered a
    /// pairing button.
    Added { id: ShadeId, name: heapless::String<32>, pairable: bool },
    /// A shade no longer exists and its entities must go.
    Removed { id: ShadeId },
}

/// What the broker session did, for the state task to persist.
#[derive(Clone, Copy, Debug, PartialEq, Eq, Structural)]
pub enum ShadeAck {
    /// The entities are on the broker.
    Announced { id: ShadeId },
    /// The entities have been cleared from the broker, and the persisted
    /// `announced` bit may now be cleared with them.
    Retired { id: ShadeId },
}

/// What a broker session publishes for an event.
#[derive(Clone, Copy, Debug, PartialEq, Eq, Structural)]
pub enum EventPlan {
    /// The shade's entities, announced.
    Announce(ShadeId),
    /// The shade's entities, cleared.
    Retire(ShadeId),
}

/// The plan an event calls for.
pub open spec fn plan_for(event: ShadeEvent) -> EventPlan {
    match event {
        ShadeEvent::Added { id, .. } => EventPlan::Announce(id),
        ShadeEvent::Removed { id } => EventPlan::Retire(id),
    }
}

/// The acknowledgement an event is answered with once its entities have
/// settled on the broker.
pub open spec fn ack_for(event: ShadeEvent) -> ShadeAck {
    match event {
        ShadeEvent::Added { id, .. } => ShadeAck::Announced { id },
        ShadeEvent::Removed { id } => ShadeAck::Retired { id },
    }
}

} // verus!
