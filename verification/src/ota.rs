//! Over-the-air updates, boot side: which slot runs and which one an update
//! writes, how many times an unconfirmed image has started, and the self-test
//! that decides whether the image running is allowed to stay.
//!
//! The flash, the `otadata` record and the reset are the device's; the
//! decision table that turns a state and an attempt count into a verdict, and
//! the self-test's own window, are the update crate's. What is here is the
//! bookkeeping between them, held as one value whose fields change only
//! through the functions below: the pending flag is raised only by
//! [`report`] on a verdict that asks for verification, and lowered only by
//! [`conclude_self_test`] once the self-test has concluded.

use vstd::prelude::*;

verus! {

/// The state `otadata` carries for the running slot, as the bootloader
/// support crate reports it.
#[derive(Clone, Copy, Debug, PartialEq, Eq, Structural)]
pub enum OtaImageState {
    New,
    PendingVerify,
    Valid,
    Invalid,
    Aborted,
    Undefined,
}

/// The state the verdict is decided over: the bootloader's, plus `Absent` for
/// a blank `otadata` region.
#[derive(Clone, Copy, Debug, PartialEq, Eq, Structural)]
pub enum ImageState {
    New,
    PendingVerify,
    Valid,
    Invalid,
    Aborted,
    Undefined,
    Absent,
}

/// One of the two app slots.
#[derive(Clone, Copy, Debug, PartialEq, Eq, Structural)]
pub enum AppSlot {
    Ota0,
    Ota1,
}

/// What kind of partition the running image was found in.
#[derive(Clone, Copy, Debug, PartialEq, Eq, Structural)]
pub enum BootedKind {
    Slot(AppSlot),
    /// An app partition that is not an OTA slot, such as a factory image.
    OtherApp,
}

/// Where the two app slots are, resolved once at boot.
#[derive(Clone, Copy, Debug, PartialEq, Eq, Structural)]
pub struct Slots {
    pub booted: AppSlot,
    pub target: AppSlot,
    pub target_at: u32,
    pub target_len: u32,
}

/// Why this module could not do what it was asked.
#[derive(Clone, Copy, Debug, PartialEq, Eq, Structural)]
pub enum OtaError {
    PartitionTable,
    NoOtaData,
    NotInASlot,
    NoTargetSlot,
    Flash,
    NotDurable { at: u32 },
}

/// Why a roll-back was decided.
#[derive(Clone, Copy, Debug, PartialEq, Eq, Structural)]
pub enum RollBackReason {
    AttemptExhausted,
    MarkedInvalid,
    MarkedAborted,
}

/// What to do about the state an image booted with.
#[derive(Clone, Copy, Debug, PartialEq, Eq, Structural)]
pub enum BootVerdict {
    Settled,
    Verify,
    RollBack(RollBackReason),
}

/// One leg of the self-test.
#[derive(Clone, Copy, Debug, PartialEq, Eq, Structural)]
pub enum LegState {
    Pending,
    Passed,
    Failed,
    Skipped,
}

/// The self-test's legs, as they have been reported so far.
#[derive(Clone, Copy, Debug, PartialEq, Eq, Structural)]
pub struct SelfTest {
    pub radio: LegState,
    pub stores: LegState,
    pub network: LegState,
    /// Reported, never a trigger.
    pub associated: bool,
}

/// Which leg failed.
#[derive(Clone, Copy, Debug, PartialEq, Eq, Structural)]
pub enum Leg {
    Radio,
    Stores,
    Network,
}

/// What one look at the self-test's legs concluded.
#[derive(Clone, Copy, Debug, PartialEq, Eq, Structural)]
pub enum SelfTestOutcome {
    Waiting,
    Pass { associated: bool },
    Fail(Leg),
}

/// What one look at the self-test concluded.
#[derive(Clone, Copy, Debug, PartialEq, Eq, Structural)]
pub enum Step {
    /// Nothing to do: this boot owes no verdict, or it has already given one.
    Idle,
    /// Still soaking.
    Waiting,
    /// The image is to be marked valid.
    Confirmed,
    /// The image was refused; `otadata` is to select the other slot and the
    /// board to reset.
    RollBack,
}

/// What a tick of the state task's clock asks of the self-test.
#[derive(Clone, Copy, Debug, PartialEq, Eq, Structural)]
pub enum Tick {
    /// No verdict is owed.
    Idle,
    /// The legs are to be polled, this long into the soak.
    Poll { elapsed_ms: u64, legs: SelfTest },
}

/// What a boot's report asks of the device.
#[derive(Clone, Copy, Debug, PartialEq, Eq, Structural)]
pub enum ReportAction {
    /// Nothing: the image stays. `stuck` when its own record says a switch
    /// away from it was decided and did not take effect.
    Stay { stuck: bool },
    /// A self-test is owed.
    Verify,
    /// Switch back to the other slot and reset.
    RollBack(RollBackReason),
}

/// The update bookkeeping of one boot.
pub struct OtaState {
    /// How many times this image has started since the last power-on. Lives
    /// in memory a software reset preserves.
    attempts: u32,
    /// Where the slots are, once somebody has looked.
    slots: Option<Slots>,
    /// Whether this boot owes a verdict.
    pending: bool,
    /// The self-test's legs.
    legs: SelfTest,
    /// When the soak started, in milliseconds of uptime.
    soak_from: Option<u64>,
}

impl OtaState {
    /// How many times this image has started since the last power-on.
    pub closed spec fn attempts(&self) -> u32 {
        self.attempts
    }

    /// Where the slots are, once somebody has looked.
    pub closed spec fn slots(&self) -> Option<Slots> {
        self.slots
    }

    /// Whether this boot owes a verdict.
    pub closed spec fn pending(&self) -> bool {
        self.pending
    }

    /// The self-test's legs.
    pub closed spec fn legs(&self) -> SelfTest {
        self.legs
    }

    /// When the soak started, in milliseconds of uptime.
    pub closed spec fn soak_from(&self) -> Option<u64> {
        self.soak_from
    }

    /// How many times this image has started since the last power-on, for
    /// the memory a software reset preserves.
    pub fn attempt_count(&self) -> (count: u32)
        ensures
            count == self.attempts(),
    {
        self.attempts
    }

    /// What the self-test's legs have reported so far.
    pub fn self_test(&self) -> (legs: SelfTest)
        ensures
            legs == self.legs(),
    {
        self.legs
    }

    /// When the soak started, if it has.
    pub fn soak_started(&self) -> (from: Option<u64>)
        ensures
            from == self.soak_from(),
    {
        self.soak_from
    }
}

/// What an operation on the update bookkeeping is, as far as the pending
/// flag is concerned.
#[derive(Clone, Copy, Debug, PartialEq, Eq, Structural)]
pub enum OtaOp {
    /// A boot's verdict was reported.
    Report(BootVerdict),
    /// A look at the self-test concluded this.
    Conclude(SelfTestOutcome),
    /// Anything else: attempts, slots, legs, the soak clock, a confirmation.
    Bookkeeping,
}

/// The pending flag after one operation.
pub open spec fn pending_after(op: OtaOp, before: bool) -> bool {
    match op {
        OtaOp::Report(verdict) => before || verdict == BootVerdict::Verify,
        OtaOp::Conclude(outcome) => before && outcome == SelfTestOutcome::Waiting,
        OtaOp::Bookkeeping => before,
    }
}

/// A verdict is owed only because a boot asked for verification, and stops
/// being owed only when the self-test concludes. The flag starts false; it
/// goes up only when a boot's verdict asks to verify, comes down only when a
/// look at the self-test finds it finished, and nothing else moves it.
pub proof fn law_pending_flag(op: OtaOp, before: bool)
    ensures
        !before && pending_after(op, before) ==> op == OtaOp::Report(BootVerdict::Verify),
        before && !pending_after(op, before) ==> (op matches OtaOp::Conclude(outcome)
            && outcome != SelfTestOutcome::Waiting),
        op == OtaOp::Bookkeeping ==> pending_after(op, before) == before,
{
}

/// A self-test nothing has reported to.
pub open spec fn fresh_legs() -> SelfTest {
    SelfTest {
        radio: LegState::Pending,
        stores: LegState::Pending,
        network: LegState::Pending,
        associated: false,
    }
}

/// Whether this state counts as an attempt: an image not yet confirmed, or
/// one a roll-back was decided for and did not take effect.
pub open spec fn is_attempt(state: ImageState) -> bool {
    state == ImageState::New || state == ImageState::PendingVerify || state == ImageState::Invalid
        || state == ImageState::Aborted
}

impl OtaState {
    /// A boot's bookkeeping, with the attempt count the reset left behind.
    pub fn new(attempts: u32) -> (state: OtaState)
        ensures
            state.attempts() == attempts,
            state.slots() is None,
            !state.pending(),
            state.legs() == fresh_legs(),
            state.soak_from() is None,
    {
        OtaState {
            attempts,
            slots: None,
            pending: false,
            legs: SelfTest {
                radio: LegState::Pending,
                stores: LegState::Pending,
                network: LegState::Pending,
                associated: false,
            },
            soak_from: None,
        }
    }
}

/// Read the attempt count and record that this boot is one.
pub fn take_attempt(state: &mut OtaState) -> (so_far: u32)
    ensures
        final(state).pending() == pending_after(OtaOp::Bookkeeping, old(state).pending()),
        so_far == old(state).attempts(),
        final(state).attempts() == crate::diag::sat_inc(old(state).attempts()),
        final(state).slots() == old(state).slots(),
        final(state).pending() == old(state).pending(),
        final(state).legs() == old(state).legs(),
        final(state).soak_from() == old(state).soak_from(),
{
    let so_far = state.attempts;
    state.attempts = so_far.saturating_add(1);
    so_far
}

/// Forget that this image was ever unconfirmed.
pub fn clear_attempts(state: &mut OtaState)
    ensures
        final(state).pending() == pending_after(OtaOp::Bookkeeping, old(state).pending()),
        final(state).attempts() == 0,
        final(state).slots() == old(state).slots(),
        final(state).pending() == old(state).pending(),
        final(state).legs() == old(state).legs(),
        final(state).soak_from() == old(state).soak_from(),
{
    state.attempts = 0;
}

/// How many times this image had already started, consuming an attempt when
/// the state is one. A settled image is not an attempt at anything and
/// consumes none.
pub fn survey_attempts(state: &mut OtaState, image: ImageState) -> (attempts_before: u32)
    ensures
        final(state).pending() == pending_after(OtaOp::Bookkeeping, old(state).pending()),
        is_attempt(image) ==> attempts_before == old(state).attempts() && final(state).attempts()
            == crate::diag::sat_inc(old(state).attempts()),
        !is_attempt(image) ==> attempts_before == 0 && final(state).attempts() == old(
            state,
        ).attempts(),
        final(state).slots() == old(state).slots(),
        final(state).pending() == old(state).pending(),
        final(state).legs() == old(state).legs(),
        final(state).soak_from() == old(state).soak_from(),
{
    match image {
        ImageState::New | ImageState::PendingVerify | ImageState::Invalid | ImageState::Aborted => {
            take_attempt(state)
        },
        _ => 0,
    }
}

/// The bootloader's state, as the one the verdict reasons about.
pub fn state_of(state: OtaImageState) -> (image: ImageState)
    ensures
        image == match state {
            OtaImageState::New => ImageState::New,
            OtaImageState::PendingVerify => ImageState::PendingVerify,
            OtaImageState::Valid => ImageState::Valid,
            OtaImageState::Invalid => ImageState::Invalid,
            OtaImageState::Aborted => ImageState::Aborted,
            OtaImageState::Undefined => ImageState::Undefined,
        },
{
    match state {
        OtaImageState::New => ImageState::New,
        OtaImageState::PendingVerify => ImageState::PendingVerify,
        OtaImageState::Valid => ImageState::Valid,
        OtaImageState::Invalid => ImageState::Invalid,
        OtaImageState::Aborted => ImageState::Aborted,
        OtaImageState::Undefined => ImageState::Undefined,
    }
}

/// The other slot.
pub open spec fn other_slot(slot: AppSlot) -> AppSlot {
    match slot {
        AppSlot::Ota0 => AppSlot::Ota1,
        AppSlot::Ota1 => AppSlot::Ota0,
    }
}

/// Which slot is running and which one an update writes, from what the
/// partition table said: whether it has an `otadata` region and what the
/// running image was found in. An image that cannot identify its own slot
/// must not guess at which one to overwrite.
pub fn booted_slots(has_ota_data: bool, booted: Option<BootedKind>) -> (found: Result<(AppSlot, AppSlot), OtaError>)
    ensures
        !has_ota_data ==> found == Err::<(AppSlot, AppSlot), OtaError>(OtaError::NoOtaData),
        has_ota_data ==> found == match booted {
            Some(BootedKind::Slot(slot)) => Ok((slot, other_slot(slot))),
            _ => Err(OtaError::NotInASlot),
        },
{
    if !has_ota_data {
        return Err(OtaError::NoOtaData);
    }
    let booted = match booted {
        Some(BootedKind::Slot(AppSlot::Ota0)) => AppSlot::Ota0,
        Some(BootedKind::Slot(AppSlot::Ota1)) => AppSlot::Ota1,
        _ => return Err(OtaError::NotInASlot),
    };
    let target = match booted {
        AppSlot::Ota0 => AppSlot::Ota1,
        _ => AppSlot::Ota0,
    };
    Ok((booted, target))
}

/// The slots, once the target slot's table entry (offset, length) has been
/// looked up.
pub fn slots_of(booted: AppSlot, target: AppSlot, target_entry: Option<(u32, u32)>) -> (slots: Result<Slots, OtaError>)
    ensures
        slots == match target_entry {
            Some(entry) => Ok(Slots { booted, target, target_at: entry.0, target_len: entry.1 }),
            None => Err(OtaError::NoTargetSlot),
        },
{
    match target_entry {
        Some((at, len)) => Ok(Slots { booted, target, target_at: at, target_len: len }),
        None => Err(OtaError::NoTargetSlot),
    }
}

/// Remember where the slots are.
pub fn set_slots(state: &mut OtaState, slots: Slots)
    ensures
        final(state).pending() == pending_after(OtaOp::Bookkeeping, old(state).pending()),
        final(state).slots() == Some(slots),
        final(state).attempts() == old(state).attempts(),
        final(state).pending() == old(state).pending(),
        final(state).legs() == old(state).legs(),
        final(state).soak_from() == old(state).soak_from(),
{
    state.slots = Some(slots);
}

/// What a boot's verdict asks of the device. A verdict of `Verify` arms the
/// self-test.
pub fn report(state: &mut OtaState, verdict: BootVerdict, image: ImageState) -> (action: ReportAction)
    ensures
        final(state).pending() == pending_after(OtaOp::Report(verdict), old(state).pending()),
        action == match verdict {
            BootVerdict::Settled => ReportAction::Stay {
                stuck: image == ImageState::Invalid || image == ImageState::Aborted,
            },
            BootVerdict::Verify => ReportAction::Verify,
            BootVerdict::RollBack(reason) => ReportAction::RollBack(reason),
        },
        final(state).pending() == (old(state).pending() || verdict == BootVerdict::Verify),
        final(state).attempts() == old(state).attempts(),
        final(state).slots() == old(state).slots(),
        final(state).legs() == old(state).legs(),
        final(state).soak_from() == old(state).soak_from(),
{
    match verdict {
        BootVerdict::Settled => ReportAction::Stay {
            stuck: matches!(image, ImageState::Invalid | ImageState::Aborted),
        },
        BootVerdict::Verify => {
            state.pending = true;
            ReportAction::Verify
        },
        BootVerdict::RollBack(reason) => ReportAction::RollBack(reason),
    }
}

/// One sentence per reason, for the console.
pub fn describe(reason: RollBackReason) -> (sentence: &'static str)
    ensures
        sentence@ == match reason {
            RollBackReason::AttemptExhausted => "it did not finish its self-test on a previous boot, which means it crashed or was reset part-way through"@,
            RollBackReason::MarkedInvalid => "a self-test already refused it and the switch back did not take effect"@,
            RollBackReason::MarkedAborted => "the bootloader gave up on it"@,
        },
{
    match reason {
        RollBackReason::AttemptExhausted => "it did not finish its self-test on a previous boot, which means it crashed or was reset part-way through",
        RollBackReason::MarkedInvalid => "a self-test already refused it and the switch back did not take effect",
        RollBackReason::MarkedAborted => "the bootloader gave up on it",
    }
}

/// A reported leg result.
pub fn pass(passed: bool) -> (leg: LegState)
    ensures
        leg == if passed { LegState::Passed } else { LegState::Failed },
{
    if passed {
        LegState::Passed
    } else {
        LegState::Failed
    }
}

/// Record how the radio's control path answered.
pub fn radio_leg(state: &mut OtaState, passed: bool)
    ensures
        final(state).pending() == pending_after(OtaOp::Bookkeeping, old(state).pending()),
        final(state).legs() == (SelfTest { radio: pass_spec(passed), ..old(state).legs() }),
        final(state).attempts() == old(state).attempts(),
        final(state).slots() == old(state).slots(),
        final(state).pending() == old(state).pending(),
        final(state).soak_from() == old(state).soak_from(),
{
    state.legs.radio = pass(passed);
}

/// Record whether the flash regions mounted and read back.
pub fn stores_leg(state: &mut OtaState, passed: bool)
    ensures
        final(state).pending() == pending_after(OtaOp::Bookkeeping, old(state).pending()),
        final(state).legs() == (SelfTest { stores: pass_spec(passed), ..old(state).legs() }),
        final(state).attempts() == old(state).attempts(),
        final(state).slots() == old(state).slots(),
        final(state).pending() == old(state).pending(),
        final(state).soak_from() == old(state).soak_from(),
{
    state.legs.stores = pass(passed);
}

/// Record whether the Wi-Fi driver and the network stack started; `None`
/// for a board with no credentials, which skips the leg.
pub fn network_leg(state: &mut OtaState, passed: Option<bool>)
    ensures
        final(state).pending() == pending_after(OtaOp::Bookkeeping, old(state).pending()),
        final(state).legs() == (SelfTest {
            network: match passed {
                Some(p) => pass_spec(p),
                None => LegState::Skipped,
            },
            ..old(state).legs()
        }),
        final(state).attempts() == old(state).attempts(),
        final(state).slots() == old(state).slots(),
        final(state).pending() == old(state).pending(),
        final(state).soak_from() == old(state).soak_from(),
{
    state.legs.network = match passed {
        Some(passed) => pass(passed),
        None => LegState::Skipped,
    };
}

/// Record that the station reached a configured address.
pub fn associated(state: &mut OtaState)
    ensures
        final(state).pending() == pending_after(OtaOp::Bookkeeping, old(state).pending()),
        final(state).legs() == (SelfTest { associated: true, ..old(state).legs() }),
        final(state).attempts() == old(state).attempts(),
        final(state).slots() == old(state).slots(),
        final(state).pending() == old(state).pending(),
        final(state).soak_from() == old(state).soak_from(),
{
    state.legs.associated = true;
}

/// A reported leg result, as a spec.
pub open spec fn pass_spec(passed: bool) -> LegState {
    if passed { LegState::Passed } else { LegState::Failed }
}

/// Whether this boot owes a verdict.
pub fn verification_pending(state: &OtaState) -> (pending: bool)
    ensures
        pending == state.pending(),
{
    state.pending
}

/// Look at the self-test: nothing when no verdict is owed; otherwise start
/// the soak on the first look and say how long it has run.
pub fn tick_self_test(state: &mut OtaState, now_ms: u64) -> (tick: Tick)
    ensures
        final(state).pending() == pending_after(OtaOp::Bookkeeping, old(state).pending()),
        !old(state).pending() ==> tick == Tick::Idle && *final(state) == *old(state),
        old(state).pending() ==> {
            let from = soak_start(old(state).soak_from(), now_ms);
            &&& tick == Tick::Poll { elapsed_ms: soak_elapsed(from, now_ms), legs: old(state).legs() }
            &&& final(state).soak_from() == Some(from)
            &&& final(state).pending() == old(state).pending()
            &&& final(state).legs() == old(state).legs()
            &&& final(state).attempts() == old(state).attempts()
            &&& final(state).slots() == old(state).slots()
        },
{
    if !verification_pending(state) {
        return Tick::Idle;
    }
    let from = match state.soak_from {
        Some(from) => from,
        None => {
            state.soak_from = Some(now_ms);
            now_ms
        },
    };
    let elapsed_ms = now_ms.saturating_sub(from);
    Tick::Poll { elapsed_ms, legs: state.legs }
}

/// Act on what polling the legs concluded. A concluded self-test owes no
/// further verdict, so every later tick is idle.
pub fn conclude_self_test(state: &mut OtaState, outcome: SelfTestOutcome) -> (step: Step)
    ensures
        final(state).pending() == pending_after(OtaOp::Conclude(outcome), old(state).pending()),
        step == match outcome {
            SelfTestOutcome::Waiting => Step::Waiting,
            SelfTestOutcome::Pass { .. } => Step::Confirmed,
            SelfTestOutcome::Fail(_) => Step::RollBack,
        },
        final(state).pending() == (old(state).pending() && outcome == SelfTestOutcome::Waiting),
        final(state).attempts() == old(state).attempts(),
        final(state).slots() == old(state).slots(),
        final(state).legs() == old(state).legs(),
        final(state).soak_from() == old(state).soak_from(),
{
    match outcome {
        SelfTestOutcome::Waiting => Step::Waiting,
        SelfTestOutcome::Pass { .. } => {
            state.pending = false;
            Step::Confirmed
        },
        SelfTestOutcome::Fail(_) => {
            state.pending = false;
            Step::RollBack
        },
    }
}

/// Take what writing `Valid` into `otadata` came to: only a confirmation
/// that landed clears the attempt count.
pub fn confirm(state: &mut OtaState, marked: Result<(), OtaError>) -> (outcome: Result<(), OtaError>)
    ensures
        final(state).pending() == pending_after(OtaOp::Bookkeeping, old(state).pending()),
        outcome == marked,
        marked is Ok ==> final(state).attempts() == 0,
        marked is Err ==> final(state).attempts() == old(state).attempts(),
        final(state).slots() == old(state).slots(),
        final(state).pending() == old(state).pending(),
        final(state).legs() == old(state).legs(),
        final(state).soak_from() == old(state).soak_from(),
{
    if marked.is_ok() {
        clear_attempts(state);
    }
    marked
}

/// The slots to switch back between, or `NotInASlot` when nobody has found
/// them. The attempt count is deliberately left alone.
pub fn roll_back(state: &OtaState) -> (slots: Result<Slots, OtaError>)
    ensures
        slots == match state.slots() {
            Some(found) => Ok(found),
            None => Err(OtaError::NotInASlot),
        },
{
    match state.slots {
        Some(slots) => Ok(slots),
        None => Err(OtaError::NotInASlot),
    }
}

/// Where the soak starts: the recorded start, or now on the first look.
pub open spec fn soak_start(from: Option<u64>, now_ms: u64) -> u64 {
    match from {
        Some(from) => from,
        None => now_ms,
    }
}

/// How long the soak has run, never negative.
pub open spec fn soak_elapsed(from: u64, now_ms: u64) -> u64 {
    if now_ms >= from { (now_ms - from) as u64 } else { 0 }
}

/// The soak is measured from the first look: a later look reports the time
/// since that first look, however many looks came between.
pub proof fn law_soak_measured_from_first_look(first_ms: u64, later_ms: u64)
    requires
        first_ms <= later_ms,
    ensures
        soak_elapsed(soak_start(Some(soak_start(None, first_ms)), later_ms), later_ms) == later_ms
            - first_ms,
        soak_elapsed(soak_start(None, first_ms), first_ms) == 0,
{
}

} // verus!
