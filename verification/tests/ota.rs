use firmware::api::ApiErrorCode;
use firmware::ota::{
    associated, booted_slots, clear_attempts, conclude_self_test, confirm, describe, network_leg,
    radio_leg, report, roll_back, set_slots, slots_of, state_of, stores_leg, survey_attempts,
    take_attempt, tick_self_test, verification_pending, AppSlot, BootVerdict, BootedKind, ImageState,
    LegState, OtaError, OtaImageState, OtaState, ReportAction, RollBackReason, SelfTestOutcome,
    Slots, Step, Tick,
};
use firmware::upload::{give_back, image_verdict, marked_new, marking_outcome, take, UploadRight, 
    abort, begin, begin_check, finish, page_admit, page_len, page_written, read_back_matches,
    refuse, seed_plan, staged, write_plan, ImageError, Page, Pages, Session, ERASED, PAGE_BYTES,
};

fn slots() -> Slots {
    Slots { booted: AppSlot::Ota0, target: AppSlot::Ota1, target_at: 0x21_0000, target_len: 0x1F_0000 }
}

#[test]
fn attempts_count_only_for_an_image_being_tried() {
    let mut state = OtaState::new(2);
    assert_eq!(survey_attempts(&mut state, ImageState::PendingVerify), 2);
    assert_eq!(state.attempt_count(), 3);
    assert_eq!(survey_attempts(&mut state, ImageState::Valid), 0);
    assert_eq!(state.attempt_count(), 3);
    assert_eq!(take_attempt(&mut state), 3);
    assert_eq!(state.attempt_count(), 4);
    clear_attempts(&mut state);
    assert_eq!(state.attempt_count(), 0);
    let mut saturated = OtaState::new(u32::MAX);
    take_attempt(&mut saturated);
    assert_eq!(saturated.attempt_count(), u32::MAX);
}

#[test]
fn image_states_map_one_for_one() {
    assert_eq!(state_of(OtaImageState::New), ImageState::New);
    assert_eq!(state_of(OtaImageState::Aborted), ImageState::Aborted);
    assert_eq!(state_of(OtaImageState::Undefined), ImageState::Undefined);
}

#[test]
fn the_other_slot_is_the_target() {
    assert_eq!(booted_slots(true, Some(BootedKind::Slot(AppSlot::Ota0))), Ok((AppSlot::Ota0, AppSlot::Ota1)));
    assert_eq!(booted_slots(true, Some(BootedKind::Slot(AppSlot::Ota1))), Ok((AppSlot::Ota1, AppSlot::Ota0)));
    assert_eq!(booted_slots(true, Some(BootedKind::OtherApp)), Err(OtaError::NotInASlot));
    assert_eq!(booted_slots(true, None), Err(OtaError::NotInASlot));
    assert_eq!(booted_slots(false, Some(BootedKind::Slot(AppSlot::Ota0))), Err(OtaError::NoOtaData));
    assert_eq!(slots_of(AppSlot::Ota0, AppSlot::Ota1, Some((0x21_0000, 0x1F_0000))), Ok(slots()));
    assert_eq!(slots_of(AppSlot::Ota0, AppSlot::Ota1, None), Err(OtaError::NoTargetSlot));
}

#[test]
fn a_report_owes_a_self_test_only_when_asked_to_verify() {
    let mut state = OtaState::new(0);
    assert_eq!(report(&mut state, BootVerdict::Settled, ImageState::Valid), ReportAction::Stay { stuck: false });
    assert!(!verification_pending(&state));
    assert_eq!(report(&mut state, BootVerdict::Settled, ImageState::Invalid), ReportAction::Stay { stuck: true });
    assert_eq!(
        report(&mut state, BootVerdict::RollBack(RollBackReason::MarkedAborted), ImageState::Aborted),
        ReportAction::RollBack(RollBackReason::MarkedAborted)
    );
    assert!(!verification_pending(&state));
    assert_eq!(report(&mut state, BootVerdict::Verify, ImageState::PendingVerify), ReportAction::Verify);
    assert!(verification_pending(&state));
}

#[test]
fn roll_back_reasons_read_as_sentences() {
    assert_eq!(describe(RollBackReason::MarkedAborted), "the bootloader gave up on it");
    assert!(describe(RollBackReason::AttemptExhausted).starts_with("it did not finish its self-test"));
}

#[test]
fn legs_are_recorded_one_by_one() {
    let mut state = OtaState::new(0);
    radio_leg(&mut state, true);
    stores_leg(&mut state, false);
    network_leg(&mut state, None);
    associated(&mut state);
    assert_eq!(state.self_test().radio, LegState::Passed);
    assert_eq!(state.self_test().stores, LegState::Failed);
    assert_eq!(state.self_test().network, LegState::Skipped);
    assert!(state.self_test().associated);
    network_leg(&mut state, Some(true));
    assert_eq!(state.self_test().network, LegState::Passed);
}

#[test]
fn the_soak_is_measured_from_the_first_look() {
    let mut state = OtaState::new(0);
    assert_eq!(tick_self_test(&mut state, 500), Tick::Idle);
    report(&mut state, BootVerdict::Verify, ImageState::PendingVerify);
    match tick_self_test(&mut state, 1_000) {
        Tick::Poll { elapsed_ms, .. } => assert_eq!(elapsed_ms, 0),
        Tick::Idle => panic!("a verdict is owed"),
    }
    match tick_self_test(&mut state, 31_000) {
        Tick::Poll { elapsed_ms, .. } => assert_eq!(elapsed_ms, 30_000),
        Tick::Idle => panic!("a verdict is owed"),
    }
    assert_eq!(state.soak_started(), Some(1_000));
}

#[test]
fn a_verdict_ends_the_self_test() {
    let mut state = OtaState::new(1);
    report(&mut state, BootVerdict::Verify, ImageState::PendingVerify);
    assert_eq!(conclude_self_test(&mut state, SelfTestOutcome::Waiting), Step::Waiting);
    assert!(verification_pending(&state));
    assert_eq!(conclude_self_test(&mut state, SelfTestOutcome::Pass { associated: false }), Step::Confirmed);
    assert!(!verification_pending(&state));
    assert_eq!(confirm(&mut state, Ok(())), Ok(()));
    assert_eq!(state.attempt_count(), 0);
}

#[test]
fn a_failed_confirmation_keeps_the_count() {
    let mut state = OtaState::new(2);
    assert_eq!(confirm(&mut state, Err(OtaError::Flash)), Err(OtaError::Flash));
    assert_eq!(state.attempt_count(), 2);
}

#[test]
fn roll_back_needs_the_slots() {
    let mut state = OtaState::new(0);
    assert_eq!(roll_back(&state), Err(OtaError::NotInASlot));
    set_slots(&mut state, slots());
    assert_eq!(roll_back(&state), Ok(slots()));
}

#[test]
fn image_errors_become_api_codes() {
    assert_eq!(refuse(ImageError::NotAnImage), ApiErrorCode::ImageNotFirmware);
    assert_eq!(refuse(ImageError::BadSegmentCount), ApiErrorCode::ImageNotFirmware);
    assert_eq!(refuse(ImageError::WrongChip), ApiErrorCode::ImageForAnotherChip);
    assert_eq!(refuse(ImageError::TooLarge), ApiErrorCode::ImageTooLarge);
    assert_eq!(refuse(ImageError::BadDigest), ApiErrorCode::ImageDamaged);
}

#[test]
fn an_upload_runs_begin_pages_finish() {
    let mut pages = Pages::new();
    let mut ota = OtaState::new(3);
    let (had_session, found) = begin_check(&mut pages, Some(slots()));
    assert!(!had_session);
    assert_eq!(found, Ok(slots()));
    begin(&mut pages, &mut ota, slots());
    assert_eq!(ota.attempt_count(), 0);
    assert_eq!(page_admit(&mut pages, 1000, 5000), Ok(PAGE_BYTES));
    page_written(&mut pages, Ok(()), PAGE_BYTES);
    assert_eq!(page_admit(&mut pages, 100, 100), Ok(100));
    page_written(&mut pages, Ok(()), 100);
    let session = finish(&mut pages).unwrap();
    assert_eq!(session.written, 356);
    assert!(pages.session.is_none());
    assert_eq!(finish(&mut pages), Err(ApiErrorCode::UpdateUnwritable));
}

#[test]
fn a_short_page_before_the_end_abandons_the_upload() {
    let mut pages = Pages { session: Some(Session { slots: slots(), written: 0 }) };
    assert_eq!(page_admit(&mut pages, 100, 4000), Err(ApiErrorCode::UpdateUnwritable));
    assert!(pages.session.is_none());
    assert_eq!(page_admit(&mut pages, 256, 4000), Err(ApiErrorCode::UpdateUnwritable));
}

#[test]
fn a_failed_write_abandons_the_upload() {
    let mut pages = Pages { session: Some(Session { slots: slots(), written: 256 }) };
    page_written(&mut pages, Err(ApiErrorCode::UpdateUnwritable), PAGE_BYTES);
    assert!(pages.session.is_none());
    assert!(!abort(&mut pages));
}

#[test]
fn beginning_again_drops_the_old_session() {
    let mut pages = Pages { session: Some(Session { slots: slots(), written: 512 }) };
    let (had_session, found) = begin_check(&mut pages, None);
    assert!(had_session);
    assert_eq!(found, Err(ApiErrorCode::UpdateUnwritable));
    assert!(pages.session.is_none());
}

#[test]
fn pages_are_planned_on_word_and_sector_boundaries() {
    let session = Session { slots: slots(), written: 4096 };
    let plan = write_plan(&session, 10);
    assert_eq!(plan.at, 0x21_0000 + 4096);
    assert!(plan.erase);
    assert_eq!(plan.padded, 12);
    let session = Session { slots: slots(), written: 4352 };
    let plan = write_plan(&session, 256);
    assert!(!plan.erase);
    assert_eq!(plan.padded, 256);
    assert_eq!(page_len(9000), PAGE_BYTES);
    assert_eq!(page_len(9), 9);
}

#[test]
fn a_staged_page_is_padded_with_erased_bytes() {
    let mut page = Page::new();
    page.bytes[0] = 1;
    page.bytes[1] = 2;
    page.bytes[2] = 3;
    let out = staged(&page, 3);
    assert_eq!(&out[..3], &[1, 2, 3]);
    assert!(out[3..].iter().all(|&b| b == ERASED));
    assert!(read_back_matches(&out, &page, 3));
    let mut other = out;
    other[1] = 9;
    assert!(!read_back_matches(&other, &page, 3));
}

#[test]
fn a_blank_otadata_is_seeded_only_from_the_first_slot() {
    assert_eq!(seed_plan(false, AppSlot::Ota1), Ok(None));
    assert_eq!(seed_plan(true, AppSlot::Ota0), Ok(Some(AppSlot::Ota0)));
    assert_eq!(seed_plan(true, AppSlot::Ota1), Err(OtaError::NotInASlot));
}

#[test]
fn only_one_upload_holds_the_right_at_a_time() {
    let mut right = UploadRight::new();
    let first = take(&mut right);
    assert!(first.is_some());
    assert!(take(&mut right).is_none());
    give_back(&mut right, first.unwrap());
    let again = take(&mut right);
    assert!(again.is_some());
}

#[test]
fn finishing_marks_the_target_new_or_puts_the_selection_back() {
    assert_eq!(image_verdict(Ok(())), Ok(()));
    assert_eq!(image_verdict(Err(ImageError::WrongChip)), Err(ApiErrorCode::ImageForAnotherChip));
    assert_eq!(image_verdict(Err(ImageError::BadDigest)), Err(ApiErrorCode::ImageDamaged));
    assert!(marked_new(Ok(()), Ok(ImageState::New)));
    assert!(!marked_new(Ok(()), Ok(ImageState::Undefined)));
    assert!(!marked_new(Err(OtaError::Flash), Ok(ImageState::New)));
    assert!(!marked_new(Ok(()), Err(OtaError::Flash)));
    let slots = slots();
    assert_eq!(marking_outcome(slots, Ok(()), true), (None, Ok(())));
    assert_eq!(marking_outcome(slots, Ok(()), false), (Some(slots.booted), Err(ApiErrorCode::UpdateUnwritable)));
    assert_eq!(marking_outcome(slots, Err(OtaError::Flash), false), (None, Err(ApiErrorCode::UpdateUnwritable)));
}
