//! Health classification of a node's current metrics: pure threshold
//! functions over the sampled values, with an explicit total order of
//! statuses, plus the small derived display quantities.

use vstd::prelude::*;

verus! {

/// The interface mode of the interactive display.
#[derive(Debug, Clone, Copy, PartialEq, Eq, Structural)]
pub enum AppMode {
    Normal,
    Help,
}

impl Default for AppMode {
    fn default() -> (r: Self)
        ensures
            r == AppMode::Normal,
    {
        AppMode::Normal
    }
}

/// Health status indicators, ordered good < warning < critical.
#[derive(Debug, Clone, Copy, PartialEq, Eq, Structural)]
pub enum HealthStatus {
    Good,
    Warning,
    Critical,
}

/// The rank of a status in the severity order.
pub open spec fn spec_health_rank(h: HealthStatus) -> int {
    match h {
        HealthStatus::Good => 0,
        HealthStatus::Warning => 1,
        HealthStatus::Critical => 2,
    }
}

/// Peer health: five or more peers is good, two to four a warning,
/// fewer critical; an unknown count is a warning.
pub open spec fn spec_peer_health(peers: Option<u64>) -> HealthStatus {
    match peers {
        Some(p) => if p >= 5 {
            HealthStatus::Good
        } else if p >= 2 {
            HealthStatus::Warning
        } else {
            HealthStatus::Critical
        },
        None => HealthStatus::Warning,
    }
}

/// Sync health over hundredths of a percent: at least 99.90% is good,
/// at least 95% a warning, less critical; unknown is a warning.
pub open spec fn spec_sync_health(sync: Option<u64>) -> HealthStatus {
    match sync {
        Some(p) => if p >= 9990 {
            HealthStatus::Good
        } else if p >= 9500 {
            HealthStatus::Warning
        } else {
            HealthStatus::Critical
        },
        None => HealthStatus::Warning,
    }
}

/// Memory health in bytes; an unknown use is good.
pub open spec fn spec_memory_health(bytes: Option<u64>) -> HealthStatus {
    match bytes {
        Some(b) => if b < 12_000_000_000 {
            HealthStatus::Good
        } else if b < 14_000_000_000 {
            HealthStatus::Warning
        } else {
            HealthStatus::Critical
        },
        None => HealthStatus::Good,
    }
}

/// Key-expiry health by remaining periods; unknown (a relay) is good.
pub open spec fn spec_kes_health(remaining: Option<u64>) -> HealthStatus {
    match remaining {
        Some(r) => if r >= 20 {
            HealthStatus::Good
        } else if r >= 5 {
            HealthStatus::Warning
        } else {
            HealthStatus::Critical
        },
        None => HealthStatus::Good,
    }
}

/// Tip-age health by seconds since the chain height last moved;
/// unknown is good.
pub open spec fn spec_tip_health(age: Option<u64>) -> HealthStatus {
    match age {
        Some(a) => if a < 60 {
            HealthStatus::Good
        } else if a < 120 {
            HealthStatus::Warning
        } else {
            HealthStatus::Critical
        },
        None => HealthStatus::Good,
    }
}

/// The worse of two statuses.
pub open spec fn spec_health_max(a: HealthStatus, b: HealthStatus) -> HealthStatus {
    if spec_health_rank(a) >= spec_health_rank(b) { a } else { b }
}

/// The overall health: a disconnected node is critical; otherwise the
/// worst of the five category statuses.
pub open spec fn spec_overall_health(
    connected: bool,
    peers: Option<u64>,
    sync: Option<u64>,
    memory: Option<u64>,
    kes: Option<u64>,
    tip_age: Option<u64>,
) -> HealthStatus {
    if !connected {
        HealthStatus::Critical
    } else {
        spec_health_max(spec_peer_health(peers),
            spec_health_max(spec_sync_health(sync),
                spec_health_max(spec_memory_health(memory),
                    spec_health_max(spec_kes_health(kes), spec_tip_health(tip_age)))))
    }
}

/// Classify the peer count.
pub fn peer_health(peers: Option<u64>) -> (r: HealthStatus)
    ensures
        r == spec_peer_health(peers),
{
    match peers {
        Some(p) => if p >= 5 {
            HealthStatus::Good
        } else if p >= 2 {
            HealthStatus::Warning
        } else {
            HealthStatus::Critical
        },
        None => HealthStatus::Warning,
    }
}

/// Classify the sync progress (hundredths of a percent).
pub fn sync_health(sync: Option<u64>) -> (r: HealthStatus)
    ensures
        r == spec_sync_health(sync),
{
    match sync {
        Some(p) => if p >= 9990 {
            HealthStatus::Good
        } else if p >= 9500 {
            HealthStatus::Warning
        } else {
            HealthStatus::Critical
        },
        None => HealthStatus::Warning,
    }
}

/// Classify the memory use.
pub fn memory_health(bytes: Option<u64>) -> (r: HealthStatus)
    ensures
        r == spec_memory_health(bytes),
{
    match bytes {
        Some(b) => if b < 12_000_000_000 {
            HealthStatus::Good
        } else if b < 14_000_000_000 {
            HealthStatus::Warning
        } else {
            HealthStatus::Critical
        },
        None => HealthStatus::Good,
    }
}

/// Classify the remaining key periods.
pub fn kes_health(remaining: Option<u64>) -> (r: HealthStatus)
    ensures
        r == spec_kes_health(remaining),
{
    match remaining {
        Some(rem) => if rem >= 20 {
            HealthStatus::Good
        } else if rem >= 5 {
            HealthStatus::Warning
        } else {
            HealthStatus::Critical
        },
        None => HealthStatus::Good,
    }
}

/// Classify the tip age.
pub fn tip_health(age: Option<u64>) -> (r: HealthStatus)
    ensures
        r == spec_tip_health(age),
{
    match age {
        Some(a) => if a < 60 {
            HealthStatus::Good
        } else if a < 120 {
            HealthStatus::Warning
        } else {
            HealthStatus::Critical
        },
        None => HealthStatus::Good,
    }
}

/// The worse of two statuses.
pub fn health_max(a: HealthStatus, b: HealthStatus) -> (r: HealthStatus)
    ensures
        r == spec_health_max(a, b),
{
    let ra: u8 = match a {
        HealthStatus::Good => 0,
        HealthStatus::Warning => 1,
        HealthStatus::Critical => 2,
    };
    let rb: u8 = match b {
        HealthStatus::Good => 0,
        HealthStatus::Warning => 1,
        HealthStatus::Critical => 2,
    };
    if ra >= rb { a } else { b }
}

/// The overall node health.
pub fn overall_health(
    connected: bool,
    peers: Option<u64>,
    sync: Option<u64>,
    memory: Option<u64>,
    kes: Option<u64>,
    tip_age: Option<u64>,
) -> (r: HealthStatus)
    ensures
        r == spec_overall_health(connected, peers, sync, memory, kes, tip_age),
{
    if !connected {
        return HealthStatus::Critical;
    }
    health_max(peer_health(peers),
        health_max(sync_health(sync),
            health_max(memory_health(memory),
                health_max(kes_health(kes), tip_health(tip_age)))))
}

/// Epoch progress in hundredths of a percent, when the epoch length is
/// known and positive; saturates at the largest representable value.
pub fn epoch_progress(slot_in_epoch: Option<u64>, epoch_length: u64) -> (r: Option<u64>)
    ensures
        r == match slot_in_epoch {
            Some(s) => if epoch_length > 0 {
                if s as int * 10000 / epoch_length as int > u64::MAX {
                    Some(u64::MAX)
                } else {
                    Some((s as int * 10000 / epoch_length as int) as u64)
                }
            } else {
                None::<u64>
            },
            None => None::<u64>,
        },
{
    match slot_in_epoch {
        Some(s) => {
            if epoch_length > 0 {
                let hp: u128 = s as u128 * 10000 / epoch_length as u128;
                if hp > u64::MAX as u128 {
                    Some(u64::MAX)
                } else {
                    Some(hp as u64)
                }
            } else {
                None
            }
        },
        None => None,
    }
}

/// Slots left in the current epoch.
pub fn epoch_time_remaining(slot_in_epoch: Option<u64>, epoch_length: u64) -> (r: Option<u64>)
    ensures
        r == match slot_in_epoch {
            Some(s) => Some((if epoch_length >= s { epoch_length - s } else { 0int }) as u64),
            None => None::<u64>,
        },
{
    match slot_in_epoch {
        Some(s) => Some(if epoch_length >= s { epoch_length - s } else { 0 }),
        None => None,
    }
}

/// The status line for a node: connected, a failed fetch, or still
/// waiting for the first answer.
pub fn status_text(connected: bool, has_error: bool) -> (r: &'static str)
    ensures
        connected ==> r@ == "Connected"@,
        !connected && has_error ==> r@ == "Connection Error"@,
        !connected && !has_error ==> r@ == "Connecting..."@,
{
    if connected {
        "Connected"
    } else if has_error {
        "Connection Error"
    } else {
        "Connecting..."
    }
}

/// Chain speed from a height trend: thousandths of a block per minute,
/// over `samples` samples spaced `refresh_secs` apart.
pub fn blocks_per_minute_milli(trend: i128, samples: u64, refresh_secs: u64) -> (r: Option<i128>)
    requires
        -0x1_0000_0000_0000_0000 < trend < 0x1_0000_0000_0000_0000,
    ensures
        samples >= 2 && refresh_secs > 0 ==> {
            let prod = samples as int * refresh_secs as int;
            &&& r is Some
            &&& trend >= 0 ==> r->Some_0 == trend * 60000 / prod
            &&& trend < 0 ==> r->Some_0 == -((-trend) * 60000 / prod)
        },
        !(samples >= 2 && refresh_secs > 0) ==> r is None,
{
    if samples >= 2 && refresh_secs > 0 {
        proof {
            assert(samples as int * refresh_secs as int >= 1) by (nonlinear_arith)
                requires samples >= 2, refresh_secs >= 1;
            assert(samples as int * refresh_secs as int <= u64::MAX as int * u64::MAX as int)
                by (nonlinear_arith)
                requires samples <= u64::MAX, refresh_secs <= u64::MAX;
        }
        let den: u128 = samples as u128 * refresh_secs as u128;
        if trend >= 0 {
            let num: u128 = trend as u128 * 60000;
            let q: u128 = num / den;
            proof {
                assert(q <= num) by (nonlinear_arith)
                    requires den >= 1, q == num / den, num >= 0;
            }
            Some(q as i128)
        } else {
            let num: u128 = (-trend) as u128 * 60000;
            let q: u128 = num / den;
            proof {
                assert(q <= num) by (nonlinear_arith)
                    requires den >= 1, q == num / den, num >= 0;
            }
            Some(-(q as i128))
        }
    } else {
        None
    }
}

} // verus!
