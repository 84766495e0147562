use firmware::edits::{EventPlan, ShadeAck, ShadeEvent};
use firmware::checks::{bring_up_result, burst, burst_step, BurstStep, code_durable, name_durable, next_check_code, CheckError, FrameKind};
use firmware::inventory::Inventory;
use firmware::mqtt::{Pos, StateDelta, StateTopic};
use firmware::session::{Broker, ConnectEvent, ConnectPlan};
use firmware::shade::{Direction, Pairing, ShadeId};

fn orphans(ids: &[u8]) -> heapless::Vec<ShadeId, 32> {
    let mut list = heapless::Vec::new();
    for id in ids {
        list.push(ShadeId(*id)).unwrap();
    }
    list
}

fn added(id: u8, text: &str, pairable: bool) -> ShadeEvent {
    let mut name: heapless::String<32> = heapless::String::new();
    name.push_str(text).unwrap();
    ShadeEvent::Added { id: ShadeId(id), name, pairable }
}

fn removed(id: u8) -> ShadeEvent {
    ShadeEvent::Removed { id: ShadeId(id) }
}

/// One event through a session: its plan, then what the plan's publishes
/// came to.
fn handle(broker: &mut Broker, event: ShadeEvent, settled: bool) -> Option<ShadeAck> {
    let plan = broker.on_event(&event);
    match &event {
        ShadeEvent::Added { id, .. } => assert_eq!(plan, EventPlan::Announce(*id)),
        ShadeEvent::Removed { id } => assert_eq!(plan, EventPlan::Retire(*id)),
    }
    broker.event_settled(&event, settled)
}

fn broker_with(shades: &[u8], removed: &[u8], stale: usize) -> Broker {
    let mut inventory = Inventory::new(1);
    for id in shades {
        inventory.insert(ShadeId(*id), "Shade", Pairing::Withheld);
    }
    Broker::new(inventory, orphans(removed), stale)
}

#[test]
fn a_fresh_session_resyncs_and_logs_once() {
    let mut broker = broker_with(&[1], &[], 0);
    assert_eq!(broker.on_connect(ConnectEvent::Connected), (true, ConnectPlan::Resync));
    assert_eq!(broker.on_connect(ConnectEvent::Connected), (false, ConnectPlan::Resync));
}

#[test]
fn a_resumed_session_only_says_online_unless_namespaces_are_stale() {
    let mut stale = broker_with(&[1], &[], 1);
    assert_eq!(stale.on_connect(ConnectEvent::Reconnected), (true, ConnectPlan::Resync));
    stale.announced();
    assert_eq!(stale.on_connect(ConnectEvent::Reconnected), (false, ConnectPlan::OnlineOnly));
    let mut clean = broker_with(&[1], &[], 0);
    assert_eq!(clean.on_connect(ConnectEvent::Reconnected), (true, ConnectPlan::OnlineOnly));
}

#[test]
fn an_added_shade_is_announced_and_publishes_once_reported() {
    let mut broker = broker_with(&[], &[], 0);
    assert_eq!(handle(&mut broker, added(8, "Porch", true), true), Some(ShadeAck::Announced { id: ShadeId(8) }));
    assert_eq!(broker.inventory().ids(), &[ShadeId(8)]);
    assert_eq!(broker.inventory().pairing(ShadeId(8)), Pairing::Offered);
    assert_eq!(broker.known().ids(), vec![ShadeId(8)]);
    assert!(broker.known().of(ShadeId(8)).is_empty());
    let values = broker.delta(&StateDelta { id: ShadeId(8), pos: Pos(40), direction: Direction::Down });
    let rows: Vec<(u8, StateTopic, Vec<u8>)> = values.into_iter().map(|v| (v.id.0, v.topic, v.value)).collect();
    assert_eq!(rows, vec![(8, StateTopic::Position, b"40".to_vec()), (8, StateTopic::State, b"closing".to_vec())]);
}

#[test]
fn a_removed_shade_is_silent_and_owed_nothing() {
    let mut broker = broker_with(&[2, 3], &[3, 5], 0);
    broker.delta(&StateDelta { id: ShadeId(3), pos: Pos(10), direction: Direction::Idle });
    assert_eq!(handle(&mut broker, removed(3), true), Some(ShadeAck::Retired { id: ShadeId(3) }));
    assert_eq!(broker.inventory().ids(), &[ShadeId(2)]);
    assert_eq!(broker.orphans(), &[ShadeId(5)]);
    assert!(broker.known().of(ShadeId(3)).is_empty());
    assert!(broker.delta(&StateDelta { id: ShadeId(3), pos: Pos(20), direction: Direction::Idle }).is_empty());
    assert_eq!(broker.retired(ShadeId(5), false), None);
    assert_eq!(broker.orphans(), &[ShadeId(5)]);
    assert_eq!(broker.retired(ShadeId(5), true), Some(ShadeAck::Retired { id: ShadeId(5) }));
    assert!(broker.orphans().is_empty());
}

#[test]
fn the_awaiting_count_is_restated() {
    let mut broker = broker_with(&[], &[], 0);
    assert_eq!(broker.awaiting_setup(), 1);
    broker.set_awaiting(4);
    assert_eq!(broker.awaiting_setup(), 4);
}

#[test]
fn the_store_check_never_seeds_over_damage() {
    assert_eq!(next_check_code(Some(41), 3, 32, 7), Ok(42));
    assert_eq!(next_check_code(Some(u32::MAX), 0, 32, 7), Ok(0));
    assert_eq!(next_check_code(None, 0, 32, 7), Ok(7));
    assert_eq!(next_check_code(None, 2, 32, 7), Err(CheckError::Unreadable { damaged: 2, slots: 32 }));
}

#[test]
fn a_round_trip_must_read_back_what_it_wrote() {
    assert_eq!(code_durable(Some(42), 42), Ok(()));
    assert_eq!(code_durable(Some(41), 42), Err(CheckError::NotDurable));
    assert_eq!(code_durable(None, 42), Err(CheckError::NotDurable));
    assert_eq!(name_durable(Some(&b"SSID_NOT_PROVISIONED"[..]), b"SSID_NOT_PROVISIONED"), Ok(()));
    assert_eq!(name_durable(Some(&b"home"[..]), b"SSID_NOT_PROVISIONED"), Err(CheckError::NotDurable));
    assert_eq!(name_durable(None, b"x"), Err(CheckError::NotDurable));
}

#[test]
fn a_burst_is_one_frame_then_repeats() {
    assert_eq!(burst(0), vec![FrameKind::First]);
    assert_eq!(burst(3), vec![FrameKind::First, FrameKind::Repeat, FrameKind::Repeat, FrameKind::Repeat]);
}

#[test]
fn state_is_only_published_for_announced_shades() {
    let mut broker = broker_with(&[1, 2], &[], 0);
    handle(&mut broker, removed(2), true);
    handle(&mut broker, added(9, "Nine", false), true);
    for id in 0..32u8 {
        broker.delta(&StateDelta { id: ShadeId(id), pos: Pos(id), direction: Direction::Idle });
    }
    for id in 0..32u8 {
        let published = !broker.known().of(ShadeId(id)).is_empty();
        let announced = broker.inventory().name(ShadeId(id)).is_some();
        assert!(!published || announced, "shade {id} published without being announced");
        assert_eq!(published, id == 1 || id == 9);
    }
}

#[test]
fn state_task_events_are_reflected_and_acknowledged() {
    let mut broker = broker_with(&[], &[4], 0);
    let ack = handle(&mut broker, added(4, "Study", false), true);
    assert_eq!(ack, Some(ShadeAck::Announced { id: ShadeId(4) }));
    assert_eq!(broker.inventory().ids(), &[ShadeId(4)]);
    assert_eq!(broker.inventory().name(ShadeId(4)), Some("Study"));
    assert_eq!(broker.inventory().pairing(ShadeId(4)), Pairing::Withheld);
    assert_eq!(broker.orphans(), &[ShadeId(4)]);
    let ack = handle(&mut broker, removed(4), true);
    assert_eq!(ack, Some(ShadeAck::Retired { id: ShadeId(4) }));
    assert!(broker.inventory().ids().is_empty());
    assert!(broker.orphans().is_empty());
    assert!(broker.known().ids().is_empty());
}

#[test]
fn a_failed_retirement_changes_nothing_and_acknowledges_nothing() {
    let mut broker = broker_with(&[6], &[6], 0);
    assert_eq!(handle(&mut broker, removed(6), false), None);
    assert_eq!(broker.inventory().ids(), &[ShadeId(6)]);
    assert_eq!(broker.orphans(), &[ShadeId(6)]);
    assert_eq!(broker.known().ids(), vec![ShadeId(6)]);
}

#[test]
fn an_unsettled_announcement_is_held_but_not_acknowledged() {
    let mut broker = broker_with(&[], &[], 0);
    assert_eq!(handle(&mut broker, added(7, "Hall", true), false), None);
    assert_eq!(broker.inventory().ids(), &[ShadeId(7)]);
    assert_eq!(broker.known().ids(), vec![ShadeId(7)]);
}

#[test]
fn a_burst_stops_at_the_first_failure_and_always_parks() {
    let mut sent = 0u32;
    let mut kinds = Vec::new();
    while let BurstStep::Send(kind) = burst_step(sent, 2, false) {
        kinds.push(kind);
        sent += 1;
    }
    assert_eq!(kinds, vec![FrameKind::First, FrameKind::Repeat, FrameKind::Repeat]);
    assert_eq!(burst_step(1, 2, true), BurstStep::Park);
    assert_eq!(burst_step(0, 0, false), BurstStep::Send(FrameKind::First));
}

#[test]
fn a_transmit_error_outranks_the_parking_result() {
    assert_eq!(bring_up_result::<u8>(Err(1), Err(2)), Err(1));
    assert_eq!(bring_up_result::<u8>(Err(1), Ok(())), Err(1));
    assert_eq!(bring_up_result::<u8>(Ok(()), Err(2)), Err(2));
    assert_eq!(bring_up_result::<u8>(Ok(()), Ok(())), Ok(()));
}

#[test]
fn an_added_shade_is_held_before_its_announcement_is_planned() {
    let mut broker = broker_with(&[], &[], 0);
    let plan = broker.on_event(&added(3, "Den", true));
    assert_eq!(plan, EventPlan::Announce(ShadeId(3)));
    assert_eq!(broker.inventory().name(ShadeId(3)), Some("Den"));
    assert_eq!(broker.known().ids(), vec![ShadeId(3)]);
}

#[test]
fn a_removed_shade_stays_held_until_its_retirement_settles() {
    let mut broker = broker_with(&[5], &[], 0);
    assert_eq!(broker.on_event(&removed(5)), EventPlan::Retire(ShadeId(5)));
    assert_eq!(broker.inventory().ids(), &[ShadeId(5)]);
}
