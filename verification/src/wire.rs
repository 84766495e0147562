//! How a broker session treats the wire: which steps of a plan are published
//! and which are skipped, which publish failures end the session and which
//! are reported and skipped, and whether a subscription
//! lets the broker replay what it holds retained, and when a shade's name
//! is published.
//!
//! A failure that reconnecting cannot fix must not end the session: a broker
//! that advertises a maximum packet size below one discovery config would
//! otherwise refuse that config identically on every reconnect, and the device
//! would loop at the backoff ceiling publishing nothing at all.

use vstd::prelude::*;
use vstd::string::StringSliceAdditionalSpecFns;

use crate::shade::MAX_NAME_LEN;

verus! {

/// Why a publish did not go out, as the MQTT client reported it.
#[derive(Clone, Copy, Debug, PartialEq, Eq, Structural)]
pub enum PublishFailure {
    /// The payload overran the transmit scratch space.
    Payload,
    /// The packet is larger than the maximum the broker advertised.
    PacketTooLarge,
    /// The header or the topic overran the transmit buffer.
    BufferTooSmall,
    /// Every in-flight slot was taken.
    InflightExhausted,
    /// Some other local limit the client names.
    OtherLocal,
    /// The session itself failed: the transport, the protocol or the broker.
    Session,
}

/// The limit a packet did not fit, named in the line that reports it.
#[derive(Clone, Copy, Debug, PartialEq, Eq, Structural)]
pub enum Limit {
    TransmitBuffer,
    BrokerMaximum,
    InflightSlots,
    LocalLimit,
}

/// The limit each failure names, or `None` where the failure is the session's.
pub open spec fn limit_of(failure: PublishFailure) -> Option<Limit> {
    match failure {
        PublishFailure::Payload => Some(Limit::TransmitBuffer),
        PublishFailure::PacketTooLarge => Some(Limit::BrokerMaximum),
        PublishFailure::BufferTooSmall => Some(Limit::TransmitBuffer),
        PublishFailure::InflightExhausted => Some(Limit::InflightSlots),
        PublishFailure::OtherLocal => Some(Limit::LocalLimit),
        PublishFailure::Session => None,
    }
}

/// What a failed publish leads to: `Some(limit)` keeps the session and reports
/// the packet as too large for `limit`; `None` ends the session, because a
/// fresh one is the remedy.
pub fn publish_verdict(failure: PublishFailure) -> (kept: Option<Limit>)
    ensures
        kept == limit_of(failure),
        kept.is_none() <==> failure == PublishFailure::Session,
{
    match failure {
        PublishFailure::Payload => Some(Limit::TransmitBuffer),
        PublishFailure::PacketTooLarge => Some(Limit::BrokerMaximum),
        PublishFailure::BufferTooSmall => Some(Limit::TransmitBuffer),
        PublishFailure::InflightExhausted => Some(Limit::InflightSlots),
        PublishFailure::OtherLocal => Some(Limit::LocalLimit),
        PublishFailure::Session => None,
    }
}

/// The limit as the report line names it.
pub fn phrase(limit: Limit) -> (text: &'static str)
    ensures
        text@ == match limit {
            Limit::TransmitBuffer => "the transmit buffer"@,
            Limit::BrokerMaximum => "the maximum packet size this broker advertised"@,
            Limit::InflightSlots => "the in-flight slots"@,
            Limit::LocalLimit => "a local limit"@,
        },
{
    match limit {
        Limit::TransmitBuffer => "the transmit buffer",
        Limit::BrokerMaximum => "the maximum packet size this broker advertised",
        Limit::InflightSlots => "the in-flight slots",
        Limit::LocalLimit => "a local limit",
    }
}

/// What came of turning one step of a plan into bytes for the wire.
#[derive(Clone, Copy, Debug, PartialEq, Eq, Structural)]
pub enum Prepared {
    /// The bytes are ready to publish.
    Ready,
    /// The step names a shade the inventory does not hold.
    NotInInventory,
    /// The step's kind of entity has no renderer.
    NoRenderer,
    /// The rendered payload does not fit its buffer.
    DoesNotFit,
}

/// What the session does with one step.
#[derive(Clone, Copy, Debug, PartialEq, Eq, Structural)]
pub enum StepAction {
    /// Put it on the wire.
    Publish,
    /// Publish nothing, report it, and carry on with the session: the same
    /// step would fail identically after a reconnect.
    Skip,
}

/// Only a step whose bytes are ready is published; every other step is
/// reported and skipped, never half-sent.
pub fn step_action(prepared: Prepared) -> (action: StepAction)
    ensures
        action == (if prepared == Prepared::Ready { StepAction::Publish } else { StepAction::Skip }),
{
    match prepared {
        Prepared::Ready => StepAction::Publish,
        _ => StepAction::Skip,
    }
}

/// Whether one step ends the session: `failure` is how its publish failed,
/// if it was published and failed. A step that was skipped never ends the
/// session, and a published one ends it only when the session itself failed.
pub fn step_ends_session(prepared: Prepared, failure: Option<PublishFailure>) -> (ends: bool)
    ensures
        ends == (prepared == Prepared::Ready && failure == Some(PublishFailure::Session)),
{
    match step_action(prepared) {
        StepAction::Skip => false,
        StepAction::Publish => match failure {
            Some(f) => publish_verdict(f).is_none(),
            None => false,
        },
    }
}

/// When the broker may send a subscriber what it already holds retained.
#[derive(Clone, Copy, Debug, PartialEq, Eq, Structural)]
pub enum Replay {
    /// The retained message is delivered as the subscription is made.
    Immediately,
    /// Nothing retained is delivered; only what is published from now on.
    Never,
}

/// The replay a subscription asks for. A command topic never asks for one: a
/// broker holding a retained command would otherwise hand it to every new
/// subscriber, and a shade would act on whatever was last commanded each time
/// this device reconnected.
pub fn replay_of(retained_replay: bool) -> (replay: Replay)
    ensures
        replay == (if retained_replay { Replay::Immediately } else { Replay::Never }),
{
    if retained_replay {
        Replay::Immediately
    } else {
        Replay::Never
    }
}

/// What a shade's name is published as: the name itself when it fits a
/// name's capacity, and nothing at all otherwise. A name that does not fit is
/// skipped rather than cut or emptied: an empty retained payload is a
/// tombstone, and would delete the name the broker holds rather than leave it.
pub fn name_payload(name: &str) -> (payload: Option<&str>)
    ensures
        name.spec_bytes().len() <= MAX_NAME_LEN ==> payload == Some(name),
        name.spec_bytes().len() > MAX_NAME_LEN ==> payload is None,
{
    if name.as_bytes().len() <= MAX_NAME_LEN {
        Some(name)
    } else {
        None
    }
}

} // verus!
