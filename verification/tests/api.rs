use firmware::api::{
    answer, answer_read_back, location_of, next_slot, on_ws_input, restarts_after, Answer,
    ApiErrorCode, Buffers, Events, ListFraming, Reply, Route, WsAction, WsInput, WsPermits,
    HTTP_TASKS, REST_TASKS_RESERVED, WS_MAX,
};
use firmware::assets::{accepts_gzip, fallback, report, AssetReport, AssetSizes, Fallback, Negotiated};
use firmware::shade::ShadeId;

fn h(text: &'static str) -> Option<&'static [u8]> {
    Some(text.as_bytes())
}

#[test]
fn gzip_is_accepted_when_named_or_wildcarded() {
    assert!(accepts_gzip(h("gzip")));
    assert!(accepts_gzip(h("gzip, deflate, br, zstd")));
    assert!(accepts_gzip(h("deflate, br, gzip")));
    assert!(accepts_gzip(h("br;q=1.0, GZIP;q=0.5")));
    assert!(accepts_gzip(h("*")));
    assert!(accepts_gzip(h("  gzip  ")));
}

#[test]
fn gzip_is_refused_when_absent_or_explicitly_refused() {
    assert!(!accepts_gzip(None));
    assert!(!accepts_gzip(h("")));
    assert!(!accepts_gzip(h("identity")));
    assert!(!accepts_gzip(h("deflate, br")));
    assert!(!accepts_gzip(h("gzip;q=0")));
    assert!(!accepts_gzip(h("gzip ; Q=0 ")));
    assert!(!accepts_gzip(h("*;q=0")));
    assert!(!accepts_gzip(h("gzipx")));
    assert!(!accepts_gzip(h("x-gzip")));
}

#[test]
fn other_q_values_are_preferences_not_refusals() {
    assert!(accepts_gzip(h("gzip;q=0.1")));
    assert!(accepts_gzip(h("gzip;q=0.0, deflate")));
    assert!(accepts_gzip(h("gzip;q=0, *")));
}

#[test]
fn the_representation_follows_the_header() {
    let asset = Negotiated { compressed: "compressed", identity: "identity" };
    assert_eq!(*asset.representation(h("gzip, br")), "compressed");
    assert_eq!(*asset.representation(None), "identity");
    assert_eq!(*asset.representation(h("gzip;q=0")), "identity");
}

#[test]
fn unmatched_api_paths_are_not_found_and_the_rest_load_the_shell() {
    assert_eq!(fallback(b"/api/v1/typo"), Fallback::NotFound);
    assert_eq!(fallback(b"/api/"), Fallback::NotFound);
    assert_eq!(fallback(b"/api"), Fallback::AppShell);
    assert_eq!(fallback(b"/shades/3"), Fallback::AppShell);
    assert_eq!(fallback(b"/"), Fallback::AppShell);
}

#[test]
fn the_ui_report_sums_both_representations() {
    let sizes = AssetSizes {
        index_html: 1_000,
        index_html_gz: 400,
        app_css: 20_000,
        app_css_gz: 4_000,
        app_js: 106_000,
        app_js_gz: 43_000,
    };
    assert_eq!(report(sizes), AssetReport { embedded: 174_400, compressed: 47_400 });
}

#[test]
fn rest_always_keeps_two_tasks() {
    assert_eq!(HTTP_TASKS, 4);
    assert_eq!(WS_MAX, 2);
    assert_eq!(REST_TASKS_RESERVED, 2);
    let mut permits = WsPermits::new();
    let first = Events::accept(&mut permits, Some(1u8));
    let second = Events::accept(&mut permits, Some(2u8));
    let (one, slot) = first.unwrap().into_parts();
    assert_eq!(one, 1);
    let (two, _) = second.unwrap().into_parts();
    assert_eq!(two, 2);
    assert_eq!(permits.held(), WS_MAX);
    assert!(Events::accept(&mut permits, Some(3u8)).is_none());
    assert_eq!(permits.held(), WS_MAX);
    assert!(HTTP_TASKS - permits.held() >= 2);
    permits.release(slot);
    assert_eq!(permits.held(), 1);
    assert!(Events::accept(&mut permits, Some(4u8)).is_some());
}

#[test]
fn a_socket_without_a_subscription_takes_no_slot() {
    let mut permits = WsPermits::new();
    assert!(Events::<u8>::accept(&mut permits, None).is_none());
    assert_eq!(permits.held(), 0);
}

#[test]
fn websocket_inputs_and_their_actions() {
    assert_eq!(on_ws_input(WsInput::Ping), WsAction::Pong);
    assert_eq!(on_ws_input(WsInput::Close), WsAction::Close);
    assert_eq!(on_ws_input(WsInput::Text), WsAction::Ignore);
    assert_eq!(on_ws_input(WsInput::Binary), WsAction::Ignore);
    assert_eq!(on_ws_input(WsInput::Pong), WsAction::Ignore);
    assert_eq!(on_ws_input(WsInput::Unreadable), WsAction::CloseUnreadable);
    assert_eq!(on_ws_input(WsInput::Delta), WsAction::Forward);
    assert_eq!(on_ws_input(WsInput::Lagged), WsAction::ReportLag);
    assert_eq!(on_ws_input(WsInput::Failed), WsAction::Stop);
}

#[test]
fn a_walk_ends_after_the_last_id() {
    assert_eq!(next_slot(0), Some(1));
    assert_eq!(next_slot(31), Some(32));
    assert_eq!(next_slot(255), None);
}

fn stream(outcomes: &[Option<&[u8]>]) -> Vec<u8> {
    let (mut framing, mut out) = ListFraming::open();
    for outcome in outcomes {
        out.extend(framing.element(*outcome));
    }
    out.extend(framing.close());
    out
}

#[test]
fn a_listing_is_one_json_array_whatever_is_left_out() {
    assert_eq!(stream(&[]), b"[]".to_vec());
    assert_eq!(stream(&[h("{\"id\":0}")]), b"[{\"id\":0}]".to_vec());
    assert_eq!(stream(&[h("1"), h("2"), h("3")]), b"[1,2,3]".to_vec());
    assert_eq!(stream(&[None, h("1"), None, None, h("2"), None]), b"[1,2]".to_vec());
    assert_eq!(stream(&[None, None]), b"[]".to_vec());
}

#[test]
fn a_created_shade_is_located_by_its_id() {
    assert_eq!(location_of(ShadeId(0)), b"/api/v1/shades/0".to_vec());
    assert_eq!(location_of(ShadeId(31)), b"/api/v1/shades/31".to_vec());
    assert_eq!(location_of(ShadeId(32)), b"/api/v1/shades".to_vec());
}

#[test]
fn routes_answer_with_their_own_statuses() {
    let id = ShadeId(3);
    assert_eq!(answer(Route::DeleteShade, Some(Reply::Done), id), Answer::Status(204));
    assert_eq!(answer(Route::PairShade, Some(Reply::Done), id), Answer::Status(202));
    assert_eq!(answer(Route::CommandShade, Some(Reply::Done), id), Answer::Status(204));
    assert_eq!(answer(Route::CalibrateShade, Some(Reply::Done), id), Answer::Status(204));
    assert_eq!(answer(Route::SaveMqtt, Some(Reply::Done), id), Answer::Status(202));
    assert_eq!(answer(Route::ConfirmWifiTrial, Some(Reply::Done), id), Answer::Status(204));
    assert_eq!(answer(Route::GetSettings, Some(Reply::Settings), id), Answer::Status(200));
    assert_eq!(answer(Route::StartWifiTrial, Some(Reply::WifiCandidate), id), Answer::Proceed);
    assert_eq!(answer(Route::GetShade, Some(Reply::Shade(true)), id), Answer::Status(200));
}

#[test]
fn edits_are_read_back() {
    let id = ShadeId(3);
    assert_eq!(answer(Route::CreateShade, Some(Reply::Created(ShadeId(9))), id), Answer::ReadBack(ShadeId(9)));
    assert_eq!(answer(Route::PatchShade, Some(Reply::Done), id), Answer::ReadBack(id));
    assert_eq!(answer(Route::ConfirmPairing, Some(Reply::Done), id), Answer::ReadBack(id));
    assert_eq!(answer_read_back(Route::CreateShade, Some(Reply::Shade(true))), Answer::Status(201));
    assert_eq!(answer_read_back(Route::PatchShade, Some(Reply::Shade(true))), Answer::Status(200));
    assert_eq!(answer_read_back(Route::CreateShade, Some(Reply::Shade(false))), Answer::Refuse(ApiErrorCode::NotFound));
    assert_eq!(answer_read_back(Route::ConfirmPairing, None), Answer::Refuse(ApiErrorCode::NotFound));
}

#[test]
fn refusals_and_silence() {
    let id = ShadeId(3);
    assert_eq!(
        answer(Route::CreateShade, Some(Reply::Refused(ApiErrorCode::RegistryFull)), id),
        Answer::Refuse(ApiErrorCode::RegistryFull)
    );
    assert_eq!(answer(Route::DeleteShade, None, id), Answer::Unavailable);
    assert_eq!(answer(Route::DeleteShade, Some(Reply::Settings), id), Answer::Refuse(ApiErrorCode::InvalidAddress));
    assert_eq!(answer(Route::SaveMqtt, Some(Reply::Other), id), Answer::Refuse(ApiErrorCode::SettingsUnwritable));
    assert_eq!(answer(Route::GetShade, Some(Reply::Shade(false)), id), Answer::Refuse(ApiErrorCode::NotFound));
    assert_eq!(
        answer(Route::GetShade, Some(Reply::Refused(ApiErrorCode::InvalidAddress)), id),
        Answer::Refuse(ApiErrorCode::NotFound)
    );
}

#[test]
fn only_broker_settings_restart() {
    assert!(restarts_after(Route::SaveMqtt));
    assert!(restarts_after(Route::ClearMqtt));
    assert!(!restarts_after(Route::ConfirmWifiTrial));
}

#[test]
fn connection_buffers_start_zeroed() {
    let buffers = Buffers::new();
    assert!(buffers.http.iter().all(|&b| b == 0));
    assert_eq!(buffers.rx.len() + buffers.tx.len(), 2048);
}
