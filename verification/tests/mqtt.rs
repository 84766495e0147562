use firmware::api::ApiErrorCode;
use firmware::inventory::Inventory;
use firmware::mqtt::{
    decode_command, decimal_digits, parse_percent, refusal_message, report_rare,
    session_end_line_due, AnnouncedShade, Known, Pos, SetupMessage, StateDelta, StateTopic,
};
use firmware::shade::{ControlCommand, Direction, Pairing, ShadeCommand, ShadeId};

fn announced(id: u8) -> AnnouncedShade {
    AnnouncedShade {
        id: ShadeId(id),
        command_topic: format!("somfy/{id}/set").into_bytes(),
        set_position_topic: format!("somfy/{id}/position/set").into_bytes(),
        pair_topic: format!("somfy/{id}/pair").into_bytes(),
    }
}

fn values(known: &Known, id: u8) -> Vec<(u8, StateTopic, Vec<u8>)> {
    known.of(ShadeId(id)).into_iter().map(|v| (v.id.0, v.topic, v.value)).collect()
}

#[test]
fn cover_words_become_commands() {
    let shades = [announced(1), announced(2)];
    assert_eq!(
        decode_command(&shades, "somfy/2/set", b"OPEN"),
        Some(ControlCommand::Shade { id: ShadeId(2), command: ShadeCommand::Up })
    );
    assert_eq!(
        decode_command(&shades, "somfy/1/set", b"CLOSE"),
        Some(ControlCommand::Shade { id: ShadeId(1), command: ShadeCommand::Down })
    );
    assert_eq!(
        decode_command(&shades, "somfy/1/set", b"STOP"),
        Some(ControlCommand::Shade { id: ShadeId(1), command: ShadeCommand::My })
    );
    assert_eq!(
        decode_command(&shades, "somfy/1/set", b"VENT"),
        Some(ControlCommand::Shade { id: ShadeId(1), command: ShadeCommand::Vent })
    );
    assert_eq!(decode_command(&shades, "somfy/1/set", b"open"), None);
}

#[test]
fn positions_parse_like_str_parse() {
    let shades = [announced(7)];
    assert_eq!(
        decode_command(&shades, "somfy/7/position/set", b"+42"),
        Some(ControlCommand::Shade { id: ShadeId(7), command: ShadeCommand::GoTo(42) })
    );
    assert_eq!(decode_command(&shades, "somfy/7/position/set", b"256"), None);
    assert_eq!(parse_percent(b"0"), Some(0));
    assert_eq!(parse_percent(b"255"), Some(255));
    assert_eq!(parse_percent(b"007"), Some(7));
    assert_eq!(parse_percent(b""), None);
    assert_eq!(parse_percent(b"+"), None);
    assert_eq!(parse_percent(b"-1"), None);
    assert_eq!(parse_percent(b"4 "), None);
}

#[test]
fn only_press_pairs() {
    let shades = [announced(3)];
    assert_eq!(
        decode_command(&shades, "somfy/3/pair", b"PRESS"),
        Some(ControlCommand::Shade { id: ShadeId(3), command: ShadeCommand::Pair })
    );
    assert_eq!(decode_command(&shades, "somfy/3/pair", b"press"), None);
    assert_eq!(decode_command(&shades, "somfy/9/pair", b"PRESS"), None);
}

#[test]
fn an_unreported_shade_publishes_nothing() {
    let mut inventory = Inventory::new(0);
    inventory.insert(ShadeId(4), "Four", Pairing::Withheld);
    let known = Known::new(&inventory);
    assert!(values(&known, 4).is_empty());
    assert_eq!(known.ids(), vec![ShadeId(4)]);
}

#[test]
fn a_recorded_delta_is_published_as_position_then_state() {
    let mut inventory = Inventory::new(0);
    inventory.insert(ShadeId(4), "Four", Pairing::Withheld);
    let mut known = Known::new(&inventory);
    known.record(&StateDelta { id: ShadeId(4), pos: Pos(100), direction: Direction::Idle });
    assert_eq!(
        values(&known, 4),
        vec![(4, StateTopic::Position, b"100".to_vec()), (4, StateTopic::State, b"closed".to_vec())]
    );
    known.record(&StateDelta { id: ShadeId(4), pos: Pos(30), direction: Direction::Up });
    assert_eq!(
        values(&known, 4),
        vec![(4, StateTopic::Position, b"30".to_vec()), (4, StateTopic::State, b"opening".to_vec())]
    );
    known.record(&StateDelta { id: ShadeId(4), pos: Pos(0), direction: Direction::Idle });
    assert_eq!(values(&known, 4)[1].2, b"open".to_vec());
}

#[test]
fn a_delta_for_an_untracked_shade_is_ignored() {
    let inventory = Inventory::new(0);
    let mut known = Known::new(&inventory);
    known.record(&StateDelta { id: ShadeId(9), pos: Pos(10), direction: Direction::Down });
    assert!(values(&known, 9).is_empty());
}

#[test]
fn forgetting_a_shade_stops_its_state() {
    let mut inventory = Inventory::new(0);
    inventory.insert(ShadeId(2), "Two", Pairing::Withheld);
    let mut known = Known::new(&inventory);
    known.record(&StateDelta { id: ShadeId(2), pos: Pos(50), direction: Direction::Down });
    known.forget(ShadeId(2));
    assert!(values(&known, 2).is_empty());
    assert!(known.ids().is_empty());
}

#[test]
fn tracking_twice_keeps_one_slot() {
    let inventory = Inventory::new(0);
    let mut known = Known::new(&inventory);
    known.track(ShadeId(6));
    known.track(ShadeId(6));
    assert_eq!(known.ids(), vec![ShadeId(6)]);
    known.record(&StateDelta { id: ShadeId(6), pos: Pos(5), direction: Direction::Idle });
    assert_eq!(values(&known, 6).len(), 2);
}

#[test]
fn refusals_name_what_the_form_needs() {
    assert_eq!(refusal_message(ApiErrorCode::RegistryFull), SetupMessage::RegistryFull);
    assert_eq!(refusal_message(ApiErrorCode::NameEmpty), SetupMessage::NeedsName);
    assert_eq!(refusal_message(ApiErrorCode::NameTooLong), SetupMessage::NeedsName);
    assert_eq!(refusal_message(ApiErrorCode::TravelTimeZero), SetupMessage::NeedsTimes);
    assert_eq!(refusal_message(ApiErrorCode::InvalidAddress), SetupMessage::Refused);
}

#[test]
fn rare_events_log_first_and_every_tenth() {
    let mut counter = 0u32;
    let logged: Vec<bool> = (0..21).map(|_| report_rare(&mut counter)).collect();
    let expected: Vec<bool> = (1..=21u32).map(|n| n == 1 || n % 10 == 0).collect();
    assert_eq!(logged, expected);
    let mut counter = u32::MAX;
    report_rare(&mut counter);
    assert_eq!(counter, u32::MAX);
}

#[test]
fn session_end_lines_are_rate_limited() {
    assert!(session_end_line_due(1, 1000, 1000));
    assert!(session_end_line_due(2, 2000, 1000));
    assert!(!session_end_line_due(3, 60000, 60000));
    assert!(session_end_line_due(20, 60000, 60000));
}

#[test]
fn decimal_digits_have_no_leading_zeros() {
    assert_eq!(decimal_digits(0), b"0".to_vec());
    assert_eq!(decimal_digits(9), b"9".to_vec());
    assert_eq!(decimal_digits(10), b"10".to_vec());
    assert_eq!(decimal_digits(255), b"255".to_vec());
}
