use firmware::api::{ApiErrorCode, Reply};
use firmware::device::{configuration_url, reading, DeviceEntity, Readings};
use firmware::form::{form_after, request_of, setup_answer, Ask, Form, FormChange, FormRequest, SetupInput};
use firmware::mqtt::SetupMessage;
use firmware::shade::ShadeId;

#[test]
fn asks_become_the_web_surfaces_edits() {
    assert_eq!(request_of(Ask::Create), FormRequest::AddShade);
    assert_eq!(request_of(Ask::Pair(ShadeId(2))), FormRequest::Pair(ShadeId(2)));
    assert_eq!(request_of(Ask::Confirm(ShadeId(2))), FormRequest::ConfirmPairing(ShadeId(2)));
    assert_eq!(request_of(Ask::Abandon(ShadeId(2))), FormRequest::RemoveShade(ShadeId(2)));
    assert_eq!(request_of(Ask::Amend(ShadeId(2))), FormRequest::ReconfigureShade(ShadeId(2)));
}

#[test]
fn the_form_is_told_what_happened() {
    assert_eq!(setup_answer(Ask::Create, Some(Reply::Created(ShadeId(6)))), Some(SetupInput::Created(ShadeId(6))));
    assert_eq!(setup_answer(Ask::Confirm(ShadeId(6)), Some(Reply::Done)), Some(SetupInput::Done));
    assert_eq!(setup_answer(Ask::Pair(ShadeId(6)), Some(Reply::Done)), None);
    assert_eq!(
        setup_answer(Ask::Create, Some(Reply::Refused(ApiErrorCode::NameEmpty))),
        Some(SetupInput::Refused(SetupMessage::NeedsName))
    );
    assert_eq!(setup_answer(Ask::Create, None), Some(SetupInput::Refused(SetupMessage::Refused)));
    assert_eq!(setup_answer(Ask::Create, Some(Reply::Settings)), Some(SetupInput::Refused(SetupMessage::Refused)));
}

#[test]
fn a_close_anywhere_wins() {
    assert_eq!(form_after(&[FormChange::Open, FormChange::Close], true), Some(Form::Close));
    assert_eq!(form_after(&[FormChange::Unchanged, FormChange::Open], false), Some(Form::Open));
    assert_eq!(form_after(&[FormChange::Unchanged], true), Some(Form::Values));
    assert_eq!(form_after(&[], false), None);
}

fn readings() -> Readings {
    Readings {
        uptime_s: 86_400,
        wifi_signal_dbm: Some(-67),
        heap_free: 0,
        heap_peak: 54_620,
        rollcode_damaged: 2,
        awaiting_setup: 0,
    }
}

#[test]
fn readings_are_decimal_text() {
    let r = readings();
    assert_eq!(reading(DeviceEntity::Uptime, r), Some(b"86400".to_vec()));
    assert_eq!(reading(DeviceEntity::WifiSignal, r), Some(b"-67".to_vec()));
    assert_eq!(reading(DeviceEntity::HeapFree, r), Some(b"0".to_vec()));
    assert_eq!(reading(DeviceEntity::HeapPeak, r), Some(b"54620".to_vec()));
    assert_eq!(reading(DeviceEntity::RollcodeDamaged, r), Some(b"2".to_vec()));
    assert_eq!(reading(DeviceEntity::AwaitingSetup, r), Some(b"0".to_vec()));
    let extreme = Readings { uptime_s: u64::MAX, wifi_signal_dbm: Some(i32::MIN), ..r };
    assert_eq!(reading(DeviceEntity::Uptime, extreme), Some(u64::MAX.to_string().into_bytes()));
    assert_eq!(reading(DeviceEntity::WifiSignal, extreme), Some(i32::MIN.to_string().into_bytes()));
}

#[test]
fn no_signal_reading_publishes_nothing() {
    let r = Readings { wifi_signal_dbm: None, ..readings() };
    assert_eq!(reading(DeviceEntity::WifiSignal, r), None);
    assert_eq!(reading(DeviceEntity::Uptime, r), Some(b"86400".to_vec()));
}

#[test]
fn the_device_page_links_to_the_mdns_name() {
    assert_eq!(
        configuration_url(&[0x24, 0x0A, 0xC4, 0x00, 0xFF, 0x9B]),
        b"http://somfy-240ac400ff9b.local".to_vec()
    );
}
