//! The device-level readings a broker session publishes beside the shades,
//! and the link from Home Assistant's device page back to this controller.

use vstd::prelude::*;
use vstd::string::StringSliceAdditionalSpecFns;

use crate::identity::{host_str, hostname, hostname_spec};

verus! {

/// A device-level entity.
#[derive(Clone, Copy, Debug, PartialEq, Eq, Structural)]
pub enum DeviceEntity {
    Uptime,
    WifiSignal,
    HeapFree,
    HeapPeak,
    RollcodeDamaged,
    AwaitingSetup,
}

/// What the readings are taken from.
#[derive(Clone, Copy, Debug, PartialEq, Eq, Structural)]
pub struct Readings {
    pub uptime_s: u64,
    /// `None` until the link has come up, or when the driver cannot answer.
    pub wifi_signal_dbm: Option<i32>,
    pub heap_free: usize,
    pub heap_peak: usize,
    pub rollcode_damaged: usize,
    pub awaiting_setup: u8,
}

/// The decimal digits of `value`, without leading zeros.
pub open spec fn decimal_text(value: nat) -> Seq<u8>
    decreases value,
{
    if value < 10 {
        seq![(48 + value) as u8]
    } else {
        decimal_text(value / 10).push((48 + value % 10) as u8)
    }
}

/// A signed value in decimal: a minus sign before the magnitude when negative.
pub open spec fn signed_text(value: int) -> Seq<u8> {
    if value < 0 {
        seq![45u8] + decimal_text((-value) as nat)
    } else {
        decimal_text(value as nat)
    }
}

/// Append the decimal digits of `value` to `out`.
fn push_decimal(out: &mut Vec<u8>, value: u64)
    ensures
        final(out)@ == old(out)@ + decimal_text(value as nat),
    decreases value,
{
    if value >= 10 {
        push_decimal(out, value / 10);
    }
    out.push(48 + (value % 10) as u8);
    proof {
        if value >= 10 {
            assert(decimal_text(value as nat) == decimal_text((value / 10) as nat).push((48 + value % 10) as u8));
        }
    }
    assert(out@ =~= old(out)@ + decimal_text(value as nat));
}

/// The text published for an entity, or `None` when there is nothing honest
/// to report: the value goes out retained, so a placeholder would outlive
/// the boot that produced it. Zero is a reading like any other.
pub fn reading(entity: DeviceEntity, readings: Readings) -> (text: Option<Vec<u8>>)
    ensures
        text matches Some(value) ==> value@ == (match entity {
            DeviceEntity::Uptime => decimal_text(readings.uptime_s as nat),
            DeviceEntity::WifiSignal => signed_text(readings.wifi_signal_dbm->0 as int),
            DeviceEntity::HeapFree => decimal_text(readings.heap_free as nat),
            DeviceEntity::HeapPeak => decimal_text(readings.heap_peak as nat),
            DeviceEntity::RollcodeDamaged => decimal_text(readings.rollcode_damaged as nat),
            DeviceEntity::AwaitingSetup => decimal_text(readings.awaiting_setup as nat),
        }),
        text is None <==> (entity == DeviceEntity::WifiSignal && readings.wifi_signal_dbm is None),
{
    let mut out: Vec<u8> = Vec::new();
    match entity {
        DeviceEntity::Uptime => push_decimal(&mut out, readings.uptime_s),
        DeviceEntity::WifiSignal => match readings.wifi_signal_dbm {
            Some(dbm) => {
                if dbm < 0 {
                    out.push(45);
                    let magnitude: u64 = (0i64 - dbm as i64) as u64;
                    push_decimal(&mut out, magnitude);
                } else {
                    push_decimal(&mut out, dbm as u64);
                }
            },
            None => return None,
        },
        DeviceEntity::HeapFree => push_decimal(&mut out, readings.heap_free as u64),
        DeviceEntity::HeapPeak => push_decimal(&mut out, readings.heap_peak as u64),
        DeviceEntity::RollcodeDamaged => push_decimal(&mut out, readings.rollcode_damaged as u64),
        DeviceEntity::AwaitingSetup => push_decimal(&mut out, readings.awaiting_setup as u64),
    }
    Some(out)
}

/// `http://`.
pub open spec fn url_scheme() -> Seq<u8> {
    seq![104u8, 116, 116, 112, 58, 47, 47]
}

/// `.local`.
pub open spec fn mdns_domain() -> Seq<u8> {
    seq![46u8, 108, 111, 99, 97, 108]
}

/// The link Home Assistant's device page gives to this controller's web UI:
/// its mDNS name rather than a DHCP address, which a retained discovery
/// config would outlive.
pub fn configuration_url(mac: &[u8; 6]) -> (url: Vec<u8>)
    ensures
        url@ == url_scheme() + hostname_spec(mac@) + mdns_domain(),
{
    let name = hostname(mac);
    let host = host_str(&name).as_bytes();
    let scheme: [u8; 7] = [104, 116, 116, 112, 58, 47, 47];
    let domain: [u8; 6] = [46, 108, 111, 99, 97, 108];
    let mut url: Vec<u8> = Vec::new();
    append(&mut url, scheme.as_slice());
    append(&mut url, host);
    append(&mut url, domain.as_slice());
    assert(scheme@ =~= url_scheme());
    assert(domain@ =~= mdns_domain());
    url
}

/// Append `bytes` to `out`.
fn append(out: &mut Vec<u8>, bytes: &[u8])
    ensures
        final(out)@ == old(out)@ + bytes@,
{
    let mut index: usize = 0;
    while index < bytes.len()
        invariant
            index <= bytes@.len(),
            out@ == old(out)@ + bytes@.subrange(0, index as int),
        decreases bytes.len() - index,
    {
        out.push(bytes[index]);
        assert(out@ =~= old(out)@ + bytes@.subrange(0, index + 1));
        index += 1;
    }
    assert(bytes@.subrange(0, bytes@.len() as int) =~= bytes@);
}

} // verus!
