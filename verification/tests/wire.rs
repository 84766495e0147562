use firmware::wire::{
    name_payload, phrase, publish_verdict, replay_of, step_action, step_ends_session, Limit, Prepared, PublishFailure, Replay,
    StepAction,
};

#[test]
fn a_packet_too_large_for_the_broker_keeps_the_session() {
    assert_eq!(publish_verdict(PublishFailure::PacketTooLarge), Some(Limit::BrokerMaximum));
    assert_eq!(phrase(Limit::BrokerMaximum), "the maximum packet size this broker advertised");
}

#[test]
fn every_local_limit_is_reported_and_skipped() {
    assert_eq!(publish_verdict(PublishFailure::Payload), Some(Limit::TransmitBuffer));
    assert_eq!(publish_verdict(PublishFailure::BufferTooSmall), Some(Limit::TransmitBuffer));
    assert_eq!(publish_verdict(PublishFailure::InflightExhausted), Some(Limit::InflightSlots));
    assert_eq!(publish_verdict(PublishFailure::OtherLocal), Some(Limit::LocalLimit));
    assert_eq!(phrase(Limit::TransmitBuffer), "the transmit buffer");
    assert_eq!(phrase(Limit::InflightSlots), "the in-flight slots");
    assert_eq!(phrase(Limit::LocalLimit), "a local limit");
}

#[test]
fn a_session_failure_ends_the_session() {
    assert_eq!(publish_verdict(PublishFailure::Session), None);
}

#[test]
fn command_subscriptions_never_replay_retained_messages() {
    assert_eq!(replay_of(false), Replay::Never);
    assert_eq!(replay_of(true), Replay::Immediately);
}

#[test]
fn a_step_that_cannot_be_prepared_is_skipped_and_keeps_the_session() {
    assert_eq!(step_action(Prepared::Ready), StepAction::Publish);
    for prepared in [Prepared::NotInInventory, Prepared::NoRenderer, Prepared::DoesNotFit] {
        assert_eq!(step_action(prepared), StepAction::Skip);
        assert!(!step_ends_session(prepared, Some(PublishFailure::Session)));
    }
    assert!(step_ends_session(Prepared::Ready, Some(PublishFailure::Session)));
    assert!(!step_ends_session(Prepared::Ready, Some(PublishFailure::PacketTooLarge)));
    assert!(!step_ends_session(Prepared::Ready, None));
}

#[test]
fn a_name_that_does_not_fit_is_skipped_not_emptied() {
    assert_eq!(name_payload("Kitchen"), Some("Kitchen"));
    let exact = "n".repeat(32);
    assert_eq!(name_payload(&exact), Some(exact.as_str()));
    assert_eq!(name_payload(&"n".repeat(33)), None);
}
