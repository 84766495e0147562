//! The network's own decisions: how many sockets the stack is built with,
//! what the station asks of an access point, which association failures are
//! worth a log line, and the signal-strength reading the broker reports.

use vstd::prelude::*;

use crate::api::HTTP_TASKS;
use crate::diag::sat_inc;

verus! {

/// Shortest wait between association attempts.
pub const RETRY_MIN_MS: u32 = 1000;

/// Longest wait between association attempts.
pub const RETRY_MAX_MS: u32 = 60000;

/// How long an association must last before it counts as a working link.
pub const STABLE_LINK_MS: u32 = 10000;

/// One consecutive association failure in this many is logged, beyond the
/// first and each change of the retry delay.
pub const RETRY_LOG_INTERVAL: u32 = 10;

/// The socket DHCP holds.
pub const DHCP_SOCKETS: usize = 1;

/// The broker session's socket.
pub const BROKER_SOCKETS: usize = 1;

/// The mDNS responder's socket.
pub const MDNS_SOCKETS: usize = 1;

/// The SNTP exchange's socket and the resolver's, which turning on name
/// resolution adds to the set before any of this firmware runs.
pub const SNTP_SOCKETS: usize = 2;

/// Which network services an image carries.
#[derive(Clone, Copy, Debug, PartialEq, Eq, Structural)]
pub struct Services {
    pub mqtt: bool,
    pub http: bool,
    pub mdns: bool,
    pub sntp: bool,
}

/// Socket slots the stack is built with: what the image can open, summed.
/// One short is not a degraded service but a reboot — a full socket set
/// panics — so this is a sum and not a round number.
pub fn sockets(services: Services) -> (count: usize)
    ensures
        count == DHCP_SOCKETS + (if services.mqtt { BROKER_SOCKETS } else { 0 })
            + (if services.http { HTTP_TASKS } else { 0 }) + (if services.mdns { MDNS_SOCKETS } else { 0 })
            + (if services.sntp { SNTP_SOCKETS } else { 0 }),
{
    let broker = if services.mqtt { BROKER_SOCKETS } else { 0 };
    let server = if services.http { HTTP_TASKS } else { 0 };
    let mdns = if services.mdns { MDNS_SOCKETS } else { 0 };
    let sntp = if services.sntp { SNTP_SOCKETS } else { 0 };
    DHCP_SOCKETS + broker + server + mdns + sntp
}

/// The least authentication the station accepts.
#[derive(Clone, Copy, Debug, PartialEq, Eq, Structural)]
pub enum AuthMethod {
    Open,
    Wpa2Personal,
}

/// An open network needs none; any other is joined at WPA2 or better, the
/// driver negotiating upward from there.
pub fn auth_method(open: bool) -> (method: AuthMethod)
    ensures
        method == (if open { AuthMethod::Open } else { AuthMethod::Wpa2Personal }),
{
    if open { AuthMethod::Open } else { AuthMethod::Wpa2Personal }
}

/// The station's last measured signal strength, in dBm, or nothing when the
/// link is not up: a made-up figure would be published retained and outlive
/// the boot that produced it.
pub struct SignalCell {
    dbm: Option<i32>,
}

impl SignalCell {
    pub closed spec fn reading(self) -> Option<i32> {
        self.dbm
    }

    /// No link has come up yet.
    pub fn new() -> (cell: SignalCell)
        ensures
            cell.reading() is None,
    {
        SignalCell { dbm: None }
    }

    /// The last sample, for whoever reports it.
    pub fn signal_dbm(&self) -> (dbm: Option<i32>)
        ensures
            dbm == self.reading(),
    {
        self.dbm
    }

    /// Record a sample, or clear it when the link goes away.
    pub fn record_signal(&mut self, dbm: Option<i32>)
        ensures
            final(self).reading() == dbm,
    {
        self.dbm = dbm;
    }
}

/// What the association loop remembers between attempts, for its log: how
/// many attempts in a row have failed, and the retry delay last announced.
pub struct LinkLog {
    pub consecutive: u32,
    pub previous_delay_ms: u32,
}

impl LinkLog {
    /// Before the first attempt.
    pub fn new() -> (log: LinkLog)
        ensures
            log.consecutive == 0,
            log.previous_delay_ms == 0,
    {
        LinkLog { consecutive: 0, previous_delay_ms: 0 }
    }

    /// A candidate credential went onto the radio: the count starts again,
    /// as the backoff does, and the signal reading is cleared, since it was a
    /// fact about the network just left.
    pub fn candidate_applied(&mut self, signal: &mut SignalCell)
        ensures
            final(signal).reading() is None,
            final(self).consecutive == 0,
            final(self).previous_delay_ms == 0,
    {
        signal.record_signal(None);
        self.consecutive = 0;
        self.previous_delay_ms = 0;
    }

    /// An association attempt failed while the backoff stood at `delay_ms`;
    /// answers whether to log it — the first, each step of the backoff, and
    /// otherwise one in [`RETRY_LOG_INTERVAL`].
    pub fn association_failed(&mut self, delay_ms: u32) -> (log: bool)
        ensures
            final(self).consecutive == sat_inc(old(self).consecutive),
            final(self).previous_delay_ms == old(self).previous_delay_ms,
            log == (final(self).consecutive == 1 || delay_ms != old(self).previous_delay_ms
                || final(self).consecutive % RETRY_LOG_INTERVAL == 0),
    {
        self.consecutive = self.consecutive.saturating_add(1);
        self.consecutive == 1 || delay_ms != self.previous_delay_ms || self.consecutive % RETRY_LOG_INTERVAL == 0
    }

    /// An association ended; `stable` is whether it lasted long enough to
    /// count as a working link. The signal reading is cleared, since the last
    /// sample is no longer a fact about anything, and stays clear until the
    /// next association samples again. A short link is logged, and does not
    /// reset the count.
    pub fn link_ended(&mut self, stable: bool, signal: &mut SignalCell) -> (log: bool)
        ensures
            final(signal).reading() is None,
            final(self).consecutive == (if stable { 0 } else { old(self).consecutive }),
            final(self).previous_delay_ms == old(self).previous_delay_ms,
            log == !stable,
    {
        signal.record_signal(None);
        if stable {
            self.consecutive = 0;
        }
        !stable
    }

    /// The loop is about to wait `waiting_ms`; answers whether to say so,
    /// which it does only when the delay changed.
    pub fn waiting(&mut self, waiting_ms: u32) -> (log: bool)
        ensures
            final(self).consecutive == old(self).consecutive,
            final(self).previous_delay_ms == waiting_ms,
            log == (waiting_ms != old(self).previous_delay_ms),
    {
        let log = waiting_ms != self.previous_delay_ms;
        self.previous_delay_ms = waiting_ms;
        log
    }
}

/// An answer to a name lookup.
#[derive(Clone, Copy, Debug, PartialEq, Eq, Structural)]
pub enum IpAnswer {
    V4(u8, u8, u8, u8),
    /// Anything that is not an IPv4 address, which this stack cannot use.
    Other,
}

/// The first IPv4 address among the answers, in the order the server sent
/// them: the addresses of a pool are interchangeable, and choosing among them
/// is NTP's business, not a resolver's.
pub fn first_v4(answers: &[IpAnswer]) -> (address: Option<(u8, u8, u8, u8)>)
    ensures
        address is None <==> (forall|i: int| 0 <= i < answers@.len() ==> !(#[trigger] answers@[i] is V4)),
        address matches Some(found) ==> exists|i: int| 0 <= i < answers@.len()
            && #[trigger] answers@[i] == IpAnswer::V4(found.0, found.1, found.2, found.3)
            && forall|j: int| 0 <= j < i ==> !(#[trigger] answers@[j] is V4),
{
    let mut index: usize = 0;
    while index < answers.len()
        invariant
            index <= answers@.len(),
            forall|j: int| 0 <= j < index ==> !(#[trigger] answers@[j] is V4),
        decreases answers.len() - index,
    {
        match answers[index] {
            IpAnswer::V4(a, b, c, d) => {
                assert(answers@[index as int] == IpAnswer::V4(a, b, c, d));
                return Some((a, b, c, d));
            },
            IpAnswer::Other => {},
        }
        index += 1;
    }
    None
}

} // verus!
