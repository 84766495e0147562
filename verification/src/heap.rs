//! Heap and stack sizing: the figures measured on hardware, what the heap
//! region holds, and the boot-time judgements made from them.

use vstd::prelude::*;

verus! {

/// The deepest chain from `main`: boot, with the state machine built.
pub const BOOT_CHAIN_BYTES: usize = 56_352;
/// The chain that brings up the network, with the web server compiled in.
pub const NETWORK_CHAIN_BYTES_HTTP: usize = 23_280;
/// The same chain without the web server.
pub const NETWORK_CHAIN_BYTES_PLAIN: usize = 14_416;
/// The deepest request handler's chain, when there is a web server.
pub const REQUEST_CHAIN_BYTES_HTTP: usize = 35_808;
/// The configuration-restore chain, when there is a web server.
pub const RESTORE_CHAIN_BYTES_HTTP: usize = 52_528;
/// The mDNS and SNTP services' chain, when either is compiled in.
pub const SERVICE_CHAIN_BYTES_ANY: usize = 5_456;
/// What an interrupt can stack on top of any chain.
pub const INTERRUPT_FRAMES_BYTES: usize = 1_712;
/// The stack the linker reserves.
pub const STACK_BUDGET_BYTES: usize = 66_280;
/// Headroom that must survive between the deepest chain and the budget.
pub const STACK_MARGIN_FLOOR_BYTES: usize = 8 * 1024;
/// The Wi-Fi driver's measured resting working set.
pub const WIFI_WORKING_SET_BYTES: usize = 47_464;
/// The worst heap the driver and one announcement burst have ever needed.
pub const WIFI_PEAK_BYTES: usize = 54_620;
/// How far that peak moved between boots of one image.
pub const PEAK_NOISE_BYTES: usize = 2_000;
/// The heap a scheduler-only image installs.
pub const SCHEDULER_HEAP_BYTES: usize = 4 * 1024;

/// The larger of two figures.
pub fn larger(left: usize, right: usize) -> (largest: usize)
    ensures
        largest == if left > right { left } else { right },
{
    if left > right {
        left
    } else {
        right
    }
}

/// Which transports and services an image compiles in.
#[derive(Clone, Copy, Debug, PartialEq, Eq, Structural)]
pub struct Features {
    pub http: bool,
    pub mdns: bool,
    pub sntp: bool,
}

/// The larger of two figures, as a spec.
pub open spec fn max(left: int, right: int) -> int {
    if left > right { left } else { right }
}

/// The stack one configuration needs: the deepest of its alternative chains,
/// plus the interrupt allowance.
pub open spec fn required_stack(features: Features) -> int {
    let network = if features.http { NETWORK_CHAIN_BYTES_HTTP } else { NETWORK_CHAIN_BYTES_PLAIN };
    let request = if features.http { REQUEST_CHAIN_BYTES_HTTP } else { 0 };
    let restore = if features.http { RESTORE_CHAIN_BYTES_HTTP } else { 0 };
    let service = if features.mdns || features.sntp { SERVICE_CHAIN_BYTES_ANY } else { 0 };
    max(max(max(BOOT_CHAIN_BYTES as int, network as int), request as int), max(service as int, restore as int))
        + INTERRUPT_FRAMES_BYTES
}

/// The stack one configuration needs.
pub fn required_stack_bytes(features: Features) -> (required: usize)
    ensures
        required == required_stack(features),
{
    let network = if features.http { NETWORK_CHAIN_BYTES_HTTP } else { NETWORK_CHAIN_BYTES_PLAIN };
    let request = if features.http { REQUEST_CHAIN_BYTES_HTTP } else { 0 };
    let restore = if features.http { RESTORE_CHAIN_BYTES_HTTP } else { 0 };
    let service = if features.mdns || features.sntp { SERVICE_CHAIN_BYTES_ANY } else { 0 };
    larger(larger(larger(BOOT_CHAIN_BYTES, network), request), larger(service, restore))
        + INTERRUPT_FRAMES_BYTES
}

/// Every configuration's deepest chain fits the budget with the margin intact;
/// the boot chain is the deepest in all of them.
pub proof fn law_stack_fits_budget(features: Features)
    ensures
        required_stack(features) == BOOT_CHAIN_BYTES + INTERRUPT_FRAMES_BYTES,
        required_stack(features) + STACK_MARGIN_FLOOR_BYTES <= STACK_BUDGET_BYTES,
{
}

/// Bytes in the heap region the linker left: `end - start`, or nothing when
/// the symbols are the wrong way round.
pub fn radio_heap_bytes(start: usize, end: usize) -> (bytes: usize)
    ensures
        bytes == if end >= start { (end - start) as usize } else { 0 },
{
    end.saturating_sub(start)
}

/// Which region to hand the allocator: `bytes` from `start`, or none at all
/// for an empty region.
pub fn install(start: usize, bytes: usize) -> (region: Option<(usize, usize)>)
    ensures
        region == if bytes == 0 { None } else { Some((start, bytes)) },
{
    if bytes == 0 {
        return None;
    }
    Some((start, bytes))
}

/// The whole region, for an image that runs the radio.
pub fn install_for_radio(start: usize, end: usize) -> (region: Option<(usize, usize)>)
    ensures
        region == if end > start { Some((start, (end - start) as usize)) } else { None },
{
    install(start, radio_heap_bytes(start, end))
}

/// The same region, capped at [`SCHEDULER_HEAP_BYTES`].
pub fn install_scheduler_only(start: usize, end: usize) -> (region: Option<(usize, usize)>)
    ensures
        region == if end > start {
            Some((start, if end - start < SCHEDULER_HEAP_BYTES { (end - start) as usize } else { SCHEDULER_HEAP_BYTES }))
        } else {
            None
        },
{
    let whole = radio_heap_bytes(start, end);
    install(start, if SCHEDULER_HEAP_BYTES < whole { SCHEDULER_HEAP_BYTES } else { whole })
}

/// Free heap, from the allocator's own figures.
pub fn free_bytes(size: usize, used: usize) -> (free: usize)
    ensures
        free == if size >= used { (size - used) as usize } else { 0 },
{
    size.saturating_sub(used)
}

/// The softer of the two boot warnings.
#[derive(Clone, Copy, Debug, PartialEq, Eq, Structural)]
pub enum TightWarning {
    /// Below the measured peak: `short_by` under it and `above_rest` over the
    /// resting working set.
    BelowPeak { short_by: usize, above_rest: usize },
    /// At or above the peak but inside its boot-to-boot spread.
    NearPeak { above_peak: usize },
}

/// What the boot check has to say about an installed heap.
#[derive(Clone, Copy, Debug, PartialEq, Eq, Structural)]
pub struct HeapWarnings {
    /// Below the driver's resting working set: association is expected to end
    /// in a heap-exhaustion panic.
    pub undersized: bool,
    pub tight: Option<TightWarning>,
}

/// The softer warning: only when the heap clears the resting set, so it never
/// doubles up on the harder line, and only while it is within the peak's
/// spread.
pub fn warn_if_tight(installed: usize) -> (warning: Option<TightWarning>)
    ensures
        !(WIFI_WORKING_SET_BYTES <= installed < WIFI_PEAK_BYTES + PEAK_NOISE_BYTES) ==> warning is None,
        WIFI_WORKING_SET_BYTES <= installed < WIFI_PEAK_BYTES ==> warning == Some(
            TightWarning::BelowPeak {
                short_by: (WIFI_PEAK_BYTES - installed) as usize,
                above_rest: (installed - WIFI_WORKING_SET_BYTES) as usize,
            },
        ),
        WIFI_PEAK_BYTES <= installed < WIFI_PEAK_BYTES + PEAK_NOISE_BYTES ==> warning == Some(
            TightWarning::NearPeak { above_peak: (installed - WIFI_PEAK_BYTES) as usize },
        ),
{
    if !(WIFI_WORKING_SET_BYTES <= installed && installed < WIFI_PEAK_BYTES + PEAK_NOISE_BYTES) {
        return None;
    }
    if installed < WIFI_PEAK_BYTES {
        return Some(
            TightWarning::BelowPeak {
                short_by: WIFI_PEAK_BYTES.saturating_sub(installed),
                above_rest: installed.saturating_sub(WIFI_WORKING_SET_BYTES),
            },
        );
    }
    Some(TightWarning::NearPeak { above_peak: installed.saturating_sub(WIFI_PEAK_BYTES) })
}

/// What to say at boot about the heap the allocator holds.
pub fn warn_if_undersized(installed: usize) -> (warnings: HeapWarnings)
    ensures
        warnings.undersized == (installed < WIFI_WORKING_SET_BYTES),
        warnings.undersized ==> warnings.tight is None,
        warnings.tight == if WIFI_WORKING_SET_BYTES <= installed < WIFI_PEAK_BYTES {
            Some(TightWarning::BelowPeak {
                short_by: (WIFI_PEAK_BYTES - installed) as usize,
                above_rest: (installed - WIFI_WORKING_SET_BYTES) as usize,
            })
        } else if WIFI_PEAK_BYTES <= installed < WIFI_PEAK_BYTES + PEAK_NOISE_BYTES {
            Some(TightWarning::NearPeak { above_peak: (installed - WIFI_PEAK_BYTES) as usize })
        } else {
            None
        },
{
    HeapWarnings { undersized: installed < WIFI_WORKING_SET_BYTES, tight: warn_if_tight(installed) }
}

} // verus!
