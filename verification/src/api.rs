//! The HTTP surface's own decisions: how many connection tasks stay free for
//! REST whatever the WebSockets hold, how a listing is framed as one JSON
//! array however its walk ends, where a created shade lives, and which status
//! each route answers a reply from the state task with.

use vstd::prelude::*;

use crate::mqtt::decimal_digits;
use crate::bounded::decimal;
use crate::shade::{ShadeId, MAX_SHADES};

verus! {

/// Why the device refused a request.
#[derive(Clone, Copy, Debug, PartialEq, Eq, Structural)]
pub enum ApiErrorCode {
    RegistryFull,
    NameTooLong,
    NameEmpty,
    TravelTimeZero,
    NotFound,
    InvalidAddress,
    SettingsUnwritable,
    UpdateUnwritable,
    ImageNotFirmware,
    ImageForAnotherChip,
    ImageTooLarge,
    ImageDamaged,
}

/// Connections served at once.
pub const HTTP_TASKS: usize = 4;

/// WebSockets held at once: fewer than the connection tasks, so that they
/// can never take the capacity REST needs.
pub const WS_MAX: usize = 2;

/// Tasks no WebSocket can take.
pub const REST_TASKS_RESERVED: usize = HTTP_TASKS - WS_MAX;

/// The port the server binds and the responder advertises.
pub const PORT: u16 = 80;

/// Request buffer: request line, headers and body together.
pub const HTTP_BUFFER_BYTES: usize = 1536;

/// TCP receive window.
pub const TCP_RX_BYTES: usize = 1024;

/// TCP send buffer.
pub const TCP_TX_BYTES: usize = 1024;

/// One connection task's buffers.
pub struct Buffers {
    pub http: [u8; 1536],
    pub rx: [u8; 1024],
    pub tx: [u8; 1024],
}

impl Buffers {
    /// A zeroed set.
    pub fn new() -> (buffers: Buffers)
        ensures
            forall|i: int| 0 <= i < 1536 ==> buffers.http@[i] == 0,
            forall|i: int| 0 <= i < 1024 ==> buffers.rx@[i] == 0,
            forall|i: int| 0 <= i < 1024 ==> buffers.tx@[i] == 0,
    {
        Buffers { http: [0u8; 1536], rx: [0u8; 1024], tx: [0u8; 1024] }
    }
}

/// The WebSocket slots: how many are held. One is taken with each admitted
/// socket and given back when it closes.
pub struct WsPermits {
    held: usize,
}

impl WsPermits {
    /// Sockets holding a slot.
    pub closed spec fn held_spec(self) -> nat {
        self.held as nat
    }

    /// Never more held than there are slots.
    pub closed spec fn well_formed(self) -> bool {
        self.held <= WS_MAX
    }

    /// No socket holds a slot.
    pub fn new() -> (permits: WsPermits)
        ensures
            permits.well_formed(),
            permits.held_spec() == 0,
    {
        WsPermits { held: 0 }
    }

    /// Sockets holding a slot, for the refusal line.
    pub fn held(&self) -> (held: usize)
        ensures
            held == self.held_spec(),
    {
        self.held
    }

    /// A socket closed and gave its slot back: the slot is free again.
    pub fn release(&mut self, slot: WsSlot)
        requires
            old(self).well_formed(),
        ensures
            final(self).well_formed(),
            final(self).held_spec() == (if old(self).held_spec() > 0 { old(self).held_spec() - 1 } else { 0 }),
    {
        let WsSlot { taken: () } = slot;
        if self.held > 0 {
            self.held = self.held - 1;
        }
    }
}

/// One WebSocket slot, held by the socket it was taken for. Only
/// [`Events::accept`] makes one, and only while a slot is free; giving it back
/// through [`WsPermits::release`] consumes it.
pub struct WsSlot {
    taken: (),
}

/// However many sockets hold slots, at least two connection tasks are left
/// to answer REST requests — including the ones that would let an operator
/// fix whatever is going wrong.
pub proof fn law_rest_is_never_locked_out(permits: WsPermits)
    requires
        permits.well_formed(),
    ensures
        HTTP_TASKS - permits.held_spec() >= REST_TASKS_RESERVED,
        REST_TASKS_RESERVED >= 2,
{
}

/// One connected WebSocket client: the subscription its deltas arrive on.
pub struct Events<S> {
    deltas: S,
    slot: WsSlot,
}

impl<S> Events<S> {
    /// The subscription this client's deltas arrive on.
    pub closed spec fn subscription(&self) -> S {
        self.deltas
    }

    /// The subscription, handed to the socket that waits on it, and the
    /// slot it holds until it closes.
    pub fn into_parts(self) -> (parts: (S, WsSlot))
        ensures
            parts.0 == self.subscription(),
    {
        (self.deltas, self.slot)
    }

    /// Take a slot and the subscription together, or neither: `None` is
    /// answered `503` with a `Retry-After`, while there is still a status to
    /// send.
    pub fn accept(permits: &mut WsPermits, deltas: Option<S>) -> (admitted: Option<Events<S>>)
        requires
            old(permits).well_formed(),
        ensures
            final(permits).well_formed(),
            admitted is Some <==> (old(permits).held_spec() < WS_MAX && deltas is Some),
            admitted matches Some(events) ==> deltas == Some(events.subscription())
                && final(permits).held_spec() == old(permits).held_spec() + 1,
            admitted is None ==> final(permits).held_spec() == old(permits).held_spec(),
    {
        if permits.held >= WS_MAX {
            return None;
        }
        match deltas {
            Some(deltas) => {
                permits.held = permits.held + 1;
                Some(Events { deltas, slot: WsSlot { taken: () } })
            },
            None => None,
        }
    }
}

/// Proof that a request was addressed to this device and made by a page it
/// served; a handler that takes one cannot run without the check.
pub struct FromThisDevice;

/// The application, as something the web server builds its router from.
pub struct App;

/// What arrived on an open WebSocket.
#[derive(Clone, Copy, Debug, PartialEq, Eq, Structural)]
pub enum WsInput {
    Ping,
    Close,
    Text,
    Binary,
    Pong,
    /// A frame the socket could not read.
    Unreadable,
    /// A state delta for the client.
    Delta,
    /// The client fell behind and deltas were dropped for it.
    Lagged,
    /// The socket itself failed.
    Failed,
}

/// What the socket does about it.
#[derive(Clone, Copy, Debug, PartialEq, Eq, Structural)]
pub enum WsAction {
    /// Answer a ping with a pong carrying its payload.
    Pong,
    /// Close normally.
    Close,
    /// Nothing: this endpoint has no inbound vocabulary.
    Ignore,
    /// Close with the protocol-error code, 1002.
    CloseUnreadable,
    /// Send the delta to the client as JSON.
    Forward,
    /// Report the gap; the next delta corrects the client.
    ReportLag,
    /// Stop: there is nothing left to close with.
    Stop,
}

/// The socket's response to one input.
pub fn on_ws_input(input: WsInput) -> (action: WsAction)
    ensures
        action == (match input {
            WsInput::Ping => WsAction::Pong,
            WsInput::Close => WsAction::Close,
            WsInput::Text | WsInput::Binary | WsInput::Pong => WsAction::Ignore,
            WsInput::Unreadable => WsAction::CloseUnreadable,
            WsInput::Delta => WsAction::Forward,
            WsInput::Lagged => WsAction::ReportLag,
            WsInput::Failed => WsAction::Stop,
        }),
{
    match input {
        WsInput::Ping => WsAction::Pong,
        WsInput::Close => WsAction::Close,
        WsInput::Text | WsInput::Binary | WsInput::Pong => WsAction::Ignore,
        WsInput::Unreadable => WsAction::CloseUnreadable,
        WsInput::Delta => WsAction::Forward,
        WsInput::Lagged => WsAction::ReportLag,
        WsInput::Failed => WsAction::Stop,
    }
}

/// The slot a registry walk asks for after the entity with `id`: `None` past
/// the last id a byte can hold, so a full registry ends the walk rather than
/// repeating its last slot.
pub fn next_slot(id: u8) -> (next: Option<u8>)
    ensures
        next == (if id < 255 { Some((id + 1) as u8) } else { None::<u8> }),
{
    id.checked_add(1)
}

/// `[`.
pub open spec fn open_bracket() -> Seq<u8> {
    seq![91u8]
}

/// `]`.
pub open spec fn close_bracket() -> Seq<u8> {
    seq![93u8]
}

/// Elements joined by commas.
pub open spec fn joined(elements: Seq<Seq<u8>>) -> Seq<u8>
    decreases elements.len(),
{
    if elements.len() == 0 {
        Seq::empty()
    } else if elements.len() == 1 {
        elements[0]
    } else {
        joined(elements.drop_last()) + seq![44u8] + elements.last()
    }
}

/// The encodings that succeeded, in order.
pub open spec fn written(outcomes: Seq<Option<Seq<u8>>>) -> Seq<Seq<u8>>
    decreases outcomes.len(),
{
    if outcomes.len() == 0 {
        Seq::empty()
    } else {
        match outcomes.last() {
            Some(element) => written(outcomes.drop_last()).push(element),
            None => written(outcomes.drop_last()),
        }
    }
}

/// How a JSON array is streamed one element at a time: the separator goes in
/// front of an element, and only once an element has actually been written,
/// so the array ends well however the walk stops and whichever elements
/// could not be encoded.
pub struct ListFraming {
    first: bool,
}

impl ListFraming {
    /// Whether nothing has been written yet.
    pub closed spec fn at_start(self) -> bool {
        self.first
    }

    /// A new array and its opening chunk.
    pub fn open() -> (opened: (ListFraming, Vec<u8>))
        ensures
            opened.0.at_start(),
            opened.1@ == open_bracket(),
    {
        let mut chunk: Vec<u8> = Vec::new();
        chunk.push(91);
        assert(chunk@ =~= open_bracket());
        (ListFraming { first: true }, chunk)
    }

    /// The chunk for one element, given its encoding or `None` where it
    /// could not be encoded; an element left out writes nothing at all.
    pub fn element(&mut self, encoded: Option<&[u8]>) -> (chunk: Vec<u8>)
        ensures
            encoded is None ==> chunk@ == Seq::<u8>::empty() && final(self).at_start() == old(self).at_start(),
            encoded matches Some(bytes) ==> !final(self).at_start() && chunk@ == (if old(self).at_start() {
                bytes@
            } else {
                seq![44u8] + bytes@
            }),
    {
        let mut chunk: Vec<u8> = Vec::new();
        match encoded {
            Some(bytes) => {
                if !self.first {
                    chunk.push(44);
                }
                let mut index: usize = 0;
                let ghost lead = chunk@;
                while index < bytes.len()
                    invariant
                        index <= bytes@.len(),
                        chunk@ == lead + bytes@.subrange(0, index as int),
                    decreases bytes.len() - index,
                {
                    chunk.push(bytes[index]);
                    assert(chunk@ =~= lead + bytes@.subrange(0, index + 1));
                    index += 1;
                }
                assert(bytes@.subrange(0, bytes@.len() as int) =~= bytes@);
                assert(!old(self).at_start() ==> lead =~= seq![44u8]);
                assert(old(self).at_start() ==> lead =~= Seq::<u8>::empty());
                self.first = false;
            },
            None => {},
        }
        chunk
    }

    /// The closing chunk.
    pub fn close(self) -> (chunk: Vec<u8>)
        ensures
            chunk@ == close_bracket(),
    {
        let mut chunk: Vec<u8> = Vec::new();
        chunk.push(93);
        assert(chunk@ =~= close_bracket());
        chunk
    }
}

/// What the element chunks of a walk add up to, from a given start.
pub open spec fn element_chunks(outcomes: Seq<Option<Seq<u8>>>) -> Seq<u8>
    decreases outcomes.len(),
{
    if outcomes.len() == 0 {
        Seq::empty()
    } else {
        let before = element_chunks(outcomes.drop_last());
        match outcomes.last() {
            Some(element) => if written(outcomes.drop_last()).len() == 0 {
                before + element
            } else {
                before + seq![44u8] + element
            },
            None => before,
        }
    }
}

/// The chunks [`ListFraming`] emits, for any sequence of encoding outcomes,
/// are exactly the elements that were encoded, comma-separated, between
/// brackets: never a leading, trailing or doubled comma.
pub proof fn law_list_is_one_array(outcomes: Seq<Option<Seq<u8>>>)
    ensures
        open_bracket() + element_chunks(outcomes) + close_bracket()
            == open_bracket() + joined(written(outcomes)) + close_bracket(),
        element_chunks(outcomes) == joined(written(outcomes)),
    decreases outcomes.len(),
{
    if outcomes.len() > 0 {
        law_list_is_one_array(outcomes.drop_last());
        let rest = outcomes.drop_last();
        match outcomes.last() {
            Some(element) => {
                assert(written(outcomes) == written(rest).push(element));
                assert(written(outcomes).drop_last() =~= written(rest));
                if written(rest).len() == 0 {
                    assert(joined(written(outcomes)) == element);
                    assert(Seq::<u8>::empty() + element =~= element);
                } else {
                    assert(joined(written(outcomes)) == joined(written(rest)) + seq![44u8] + element);
                }
            },
            None => {},
        }
    }
}

/// The `Location` of the collection, and of a shade whose id is out of range.
pub open spec fn shades_path() -> Seq<u8> {
    seq![47u8, 97, 112, 105, 47, 118, 49, 47, 115, 104, 97, 100, 101, 115]
}

/// Where a created shade lives: `/api/v1/shades/{id}` for a registry slot,
/// and the collection for anything else.
pub fn location_of(id: ShadeId) -> (location: Vec<u8>)
    ensures
        location@ == (if id.0 < MAX_SHADES {
            shades_path() + seq![47u8] + decimal(id.0)
        } else {
            shades_path()
        }),
{
    let path: [u8; 14] = [47, 97, 112, 105, 47, 118, 49, 47, 115, 104, 97, 100, 101, 115];
    assert(path@ =~= shades_path());
    let mut location: Vec<u8> = Vec::new();
    let mut index: usize = 0;
    while index < 14
        invariant
            index <= 14,
            path@ == shades_path(),
            location@ == path@.subrange(0, index as int),
        decreases 14 - index,
    {
        location.push(path[index]);
        assert(location@ =~= path@.subrange(0, index + 1));
        index += 1;
    }
    assert(location@ =~= shades_path());
    if (id.0 as usize) < MAX_SHADES {
        location.push(47);
        let digits = decimal_digits(id.0);
        let ghost lead = location@;
        let mut at: usize = 0;
        while at < digits.len()
            invariant
                at <= digits@.len(),
                location@ == lead + digits@.subrange(0, at as int),
            decreases digits.len() - at,
        {
            location.push(digits[at]);
            assert(location@ =~= lead + digits@.subrange(0, at + 1));
            at += 1;
        }
        assert(digits@.subrange(0, digits@.len() as int) =~= digits@);
    }
    location
}

/// What the state task answered a route's request with, as far as any
/// route's response depends on it.
#[derive(Clone, Copy, Debug, PartialEq, Eq, Structural)]
pub enum Reply {
    Done,
    Created(ShadeId),
    /// A shade lookup, and whether it found one.
    Shade(bool),
    Settings,
    WifiCandidate,
    Refused(ApiErrorCode),
    /// Any other answer, which no route asked for.
    Other,
}

/// The routes whose response is decided by one reply.
#[derive(Clone, Copy, Debug, PartialEq, Eq, Structural)]
pub enum Route {
    GetShade,
    CreateShade,
    PatchShade,
    DeleteShade,
    PairShade,
    ConfirmPairing,
    CommandShade,
    CommandGroup,
    CalibrateShade,
    GetSettings,
    StartWifiTrial,
    ConfirmWifiTrial,
    SaveMqtt,
    ClearMqtt,
}

/// How a route answers.
#[derive(Clone, Copy, Debug, PartialEq, Eq, Structural)]
pub enum Answer {
    /// Success, with this status.
    Status(u16),
    /// The edit took: read the shade back and answer with it.
    ReadBack(ShadeId),
    /// The candidate credential was prepared: hand it to the trial.
    Proceed,
    /// A refusal carrying this code.
    Refuse(ApiErrorCode),
    /// The state task did not answer: a bare `503`.
    Unavailable,
}

/// The code a route refuses an answer it did not ask for with.
pub open spec fn unexpected_code(route: Route) -> ApiErrorCode {
    match route {
        Route::GetShade => ApiErrorCode::NotFound,
        Route::GetSettings | Route::StartWifiTrial | Route::ConfirmWifiTrial | Route::SaveMqtt
        | Route::ClearMqtt => ApiErrorCode::SettingsUnwritable,
        _ => ApiErrorCode::InvalidAddress,
    }
}

/// What a route answers the reply it got, on the first call it makes.
///
/// `202` where the outcome is outside this device — a pairing burst RTS
/// never acknowledges, a credential not yet confirmed, a restart onto new
/// broker settings — and `204` where the device has done what it was asked.
pub open spec fn route_answer(route: Route, reply: Option<Reply>, id: ShadeId) -> Answer {
    match reply {
        None => Answer::Unavailable,
        Some(Reply::Refused(code)) => if route == Route::GetShade {
            Answer::Refuse(ApiErrorCode::NotFound)
        } else {
            Answer::Refuse(code)
        },
        Some(answered) => match (route, answered) {
            (Route::GetShade, Reply::Shade(true)) => Answer::Status(200),
            (Route::CreateShade, Reply::Created(created)) => Answer::ReadBack(created),
            (Route::PatchShade, Reply::Done) => Answer::ReadBack(id),
            (Route::ConfirmPairing, Reply::Done) => Answer::ReadBack(id),
            (Route::DeleteShade, Reply::Done) => Answer::Status(204),
            (Route::PairShade, Reply::Done) => Answer::Status(202),
            (Route::CommandShade, Reply::Done) => Answer::Status(204),
            (Route::CommandGroup, Reply::Done) => Answer::Status(204),
            (Route::CalibrateShade, Reply::Done) => Answer::Status(204),
            (Route::GetSettings, Reply::Settings) => Answer::Status(200),
            (Route::StartWifiTrial, Reply::WifiCandidate) => Answer::Proceed,
            (Route::ConfirmWifiTrial, Reply::Done) => Answer::Status(204),
            (Route::SaveMqtt, Reply::Done) => Answer::Status(202),
            (Route::ClearMqtt, Reply::Done) => Answer::Status(202),
            _ => Answer::Refuse(unexpected_code(route)),
        },
    }
}

/// Once the state task has carried a request out, a route whose effect is
/// this device's own is answered `204 No Content`, whatever shade it named:
/// deleting a shade, commanding a shade or a group, a calibration step and
/// confirming a Wi-Fi trial. A route whose outcome lies outside the device —
/// a pairing burst no motor acknowledges, new broker settings that take effect
/// on restart — is answered `202 Accepted`. Commanding a group and commanding
/// a shade are answered alike. No answer at all is a `503`, and a refusal
/// carries the state task's own code, except that a shade lookup is always a
/// `404`.
pub proof fn law_done_statuses(route: Route, id: ShadeId, code: ApiErrorCode)
    ensures
        route_answer(Route::CommandGroup, Some(Reply::Done), id) == Answer::Status(204),
        route_answer(Route::CommandGroup, Some(Reply::Done), id) == route_answer(
            Route::CommandShade,
            Some(Reply::Done),
            id,
        ),
        (route == Route::DeleteShade || route == Route::CommandShade || route == Route::CommandGroup
            || route == Route::CalibrateShade || route == Route::ConfirmWifiTrial) ==> route_answer(
            route,
            Some(Reply::Done),
            id,
        ) == Answer::Status(204),
        (route == Route::PairShade || route == Route::SaveMqtt || route == Route::ClearMqtt)
            ==> route_answer(route, Some(Reply::Done), id) == Answer::Status(202),
        route_answer(route, None, id) == Answer::Unavailable,
        route != Route::GetShade ==> route_answer(route, Some(Reply::Refused(code)), id) == Answer::Refuse(code),
        route_answer(Route::GetShade, Some(Reply::Refused(code)), id) == Answer::Refuse(ApiErrorCode::NotFound),
{
}

/// How a route answers the state task's reply. `id` is the shade the
/// request named, where it named one.
pub fn answer(route: Route, reply: Option<Reply>, id: ShadeId) -> (answer: Answer)
    ensures
        answer == route_answer(route, reply, id),
{
    let unexpected = match route {
        Route::GetShade => ApiErrorCode::NotFound,
        Route::GetSettings | Route::StartWifiTrial | Route::ConfirmWifiTrial | Route::SaveMqtt
        | Route::ClearMqtt => ApiErrorCode::SettingsUnwritable,
        _ => ApiErrorCode::InvalidAddress,
    };
    match reply {
        None => Answer::Unavailable,
        Some(Reply::Refused(code)) => match route {
            Route::GetShade => Answer::Refuse(ApiErrorCode::NotFound),
            _ => Answer::Refuse(code),
        },
        Some(answered) => match (route, answered) {
            (Route::GetShade, Reply::Shade(true)) => Answer::Status(200),
            (Route::CreateShade, Reply::Created(created)) => Answer::ReadBack(created),
            (Route::PatchShade, Reply::Done) => Answer::ReadBack(id),
            (Route::ConfirmPairing, Reply::Done) => Answer::ReadBack(id),
            (Route::DeleteShade, Reply::Done) => Answer::Status(204),
            (Route::PairShade, Reply::Done) => Answer::Status(202),
            (Route::CommandShade, Reply::Done) => Answer::Status(204),
            (Route::CommandGroup, Reply::Done) => Answer::Status(204),
            (Route::CalibrateShade, Reply::Done) => Answer::Status(204),
            (Route::GetSettings, Reply::Settings) => Answer::Status(200),
            (Route::StartWifiTrial, Reply::WifiCandidate) => Answer::Proceed,
            (Route::ConfirmWifiTrial, Reply::Done) => Answer::Status(204),
            (Route::SaveMqtt, Reply::Done) => Answer::Status(202),
            (Route::ClearMqtt, Reply::Done) => Answer::Status(202),
            _ => Answer::Refuse(unexpected),
        },
    }
}

/// How a route answers the read-back of the shade it edited: the shade with
/// `201` for a creation and `200` otherwise, and `404` when it is gone —
/// which, after a creation, means something removed it in between.
pub fn answer_read_back(route: Route, reply: Option<Reply>) -> (answer: Answer)
    ensures
        answer == (if reply == Some(Reply::Shade(true)) {
            Answer::Status(if route == Route::CreateShade { 201u16 } else { 200u16 })
        } else {
            Answer::Refuse(ApiErrorCode::NotFound)
        }),
{
    match reply {
        Some(Reply::Shade(true)) => match route {
            Route::CreateShade => Answer::Status(201),
            _ => Answer::Status(200),
        },
        _ => Answer::Refuse(ApiErrorCode::NotFound),
    }
}

/// Whether a route's success is followed by a restart: stored broker
/// settings take effect through the boot path, which clears the retained
/// topics of superseded namespaces before publishing under new ones.
pub fn restarts_after(route: Route) -> (restarts: bool)
    ensures
        restarts == (route == Route::SaveMqtt || route == Route::ClearMqtt),
{
    match route {
        Route::SaveMqtt | Route::ClearMqtt => true,
        _ => false,
    }
}

} // verus!
