//! Cooldown-gated health alerts.
//!
//! Each health category keeps its own last-alert timestamp; while a
//! condition persists, an alert re-fires every time its cooldown has
//! elapsed (edge suppression, not edge triggering). Fired alerts go into
//! a bounded in-memory ring, oldest evicted first; the caller appends
//! the log line to the per-node alert log.

use vstd::prelude::*;
use crate::text::{dec_digits, dec_digits_padded, push_u64, push_u64_padded};
use crate::dates::{spec_iso8601, timestamp_to_iso8601};
use crate::history::ring_push;

verus! {

/// Cooldown before a key-expiry alert may re-fire, in seconds.
pub const KES_COOLDOWN_SECS: u64 = 3600;

/// Cooldown before a peer-count alert may re-fire, in seconds.
pub const PEER_COOLDOWN_SECS: u64 = 300;

/// Cooldown before a sync-progress alert may re-fire, in seconds.
pub const SYNC_COOLDOWN_SECS: u64 = 600;

/// Cooldown before a block-stall alert may re-fire, in seconds.
pub const STALL_COOLDOWN_SECS: u64 = 600;

/// How many alerts the in-memory ring keeps.
pub const MAX_RECENT_ALERTS: usize = 50;

/// Alert severity, ordered from least to most severe.
#[derive(Debug, Clone, Copy, PartialEq, Eq, Structural)]
pub enum AlertSeverity {
    Info,
    Warning,
    Critical,
}

/// The log label of a severity.
pub open spec fn spec_severity_label(s: AlertSeverity) -> Seq<char> {
    match s {
        AlertSeverity::Info => "INFO"@,
        AlertSeverity::Warning => "WARN"@,
        AlertSeverity::Critical => "CRIT"@,
    }
}

impl AlertSeverity {
    /// The log label: `INFO`, `WARN` or `CRIT`.
    pub fn label(&self) -> (r: &'static str)
        ensures
            r@ == spec_severity_label(*self),
    {
        match self {
            AlertSeverity::Info => "INFO",
            AlertSeverity::Warning => "WARN",
            AlertSeverity::Critical => "CRIT",
        }
    }
}

/// A single alert event. Alerts are never mutated once created.
#[derive(Debug, Clone)]
pub struct Alert {
    /// When the alert fired, Unix seconds.
    pub timestamp: u64,
    /// The monitored node the alert concerns.
    pub node_name: String,
    /// How severe the condition is.
    pub severity: AlertSeverity,
    /// A short title naming the condition.
    pub title: String,
    /// The detailed message.
    pub message: String,
}

/// The display rendering of an alert: `[SEV] title - message`.
pub open spec fn spec_alert_display(a: Alert) -> Seq<char> {
    seq!['['] + spec_severity_label(a.severity) + "] "@ + a.title@ + " - "@ + a.message@
}

/// The log-line rendering of an alert:
/// `ISO8601 | node | SEV | title | message`.
pub open spec fn spec_alert_log_format(a: Alert) -> Seq<char> {
    spec_iso8601(a.timestamp as nat) + " | "@ + a.node_name@ + " | "@
        + spec_severity_label(a.severity) + " | "@ + a.title@ + " | "@ + a.message@
}

impl Alert {
    /// Format the alert for display.
    pub fn display(&self) -> (r: String)
        ensures
            r@ == spec_alert_display(*self),
    {
        let mut out = String::new();
        out.push('[');
        out.append(self.severity.label());
        out.append("] ");
        out.append(self.title.as_str());
        out.append(" - ");
        out.append(self.message.as_str());
        proof {
            assert(out@ =~= spec_alert_display(*self));
        }
        out
    }

    /// Format the alert for the append-only log file.
    pub fn log_format(&self) -> (r: String)
        ensures
            r@ == spec_alert_log_format(*self),
    {
        let mut out = timestamp_to_iso8601(self.timestamp);
        out.append(" | ");
        out.append(self.node_name.as_str());
        out.append(" | ");
        out.append(self.severity.label());
        out.append(" | ");
        out.append(self.title.as_str());
        out.append(" | ");
        out.append(self.message.as_str());
        proof {
            assert(out@ =~= spec_alert_log_format(*self));
        }
        out
    }
}

/// Whether a category in the given cooldown state fires at `now`:
/// never-alerted categories fire at once, others once the cooldown has
/// elapsed.
pub open spec fn spec_cooldown_over(last: Option<u64>, now: u64, cooldown: u64) -> bool {
    match last {
        None => true,
        Some(t) => now >= t && now - t >= cooldown,
    }
}

/// The message of a key-expiry alert.
pub open spec fn spec_kes_message(remaining: u64) -> Seq<char> {
    "KES periods remaining: "@ + dec_digits(remaining as nat)
        + " (renew certificate immediately)"@
}

/// The message of a low-peer-count alert.
pub open spec fn spec_peer_message(count: u64) -> Seq<char> {
    "Only "@ + dec_digits(count as nat) + " peer(s) connected"@
}

/// The message of a sync-progress alert; the argument is in hundredths
/// of a percent.
pub open spec fn spec_sync_message(progress: u64) -> Seq<char> {
    "Node is "@ + dec_digits((progress / 100) as nat) + seq!['.']
        + dec_digits_padded((progress % 100) as nat, 2) + "% synced"@
}

/// The message of a block-stall alert.
pub open spec fn spec_stall_message(age: u64, height: u64) -> Seq<char> {
    "No new blocks for "@ + dec_digits(age as nat) + " seconds (height: "@
        + dec_digits(height as nat) + seq![')']
}

/// Alert manager for a single node: per-category cooldown state and the
/// bounded ring of recent alerts.
pub struct AlertManager {
    node_name: String,
    recent_alerts: Vec<Alert>,
    max_recent: usize,
    last_kes_warning: Option<u64>,
    last_peer_warning: Option<u64>,
    last_sync_warning: Option<u64>,
    last_height_stall_warning: Option<u64>,
}

impl AlertManager {
    /// The recent alerts, oldest first.
    pub closed spec fn recent(&self) -> Seq<Alert> {
        self.recent_alerts@
    }

    /// The node name alerts carry.
    pub closed spec fn spec_node_name(&self) -> Seq<char> {
        self.node_name@
    }

    /// The last time a key-expiry alert fired.
    pub closed spec fn last_kes(&self) -> Option<u64> {
        self.last_kes_warning
    }

    /// The last time a peer-count alert fired.
    pub closed spec fn last_peer(&self) -> Option<u64> {
        self.last_peer_warning
    }

    /// The last time a sync-progress alert fired.
    pub closed spec fn last_sync(&self) -> Option<u64> {
        self.last_sync_warning
    }

    /// The last time a block-stall alert fired.
    pub closed spec fn last_stall(&self) -> Option<u64> {
        self.last_height_stall_warning
    }

    /// The ring bound.
    pub closed spec fn spec_max_recent(&self) -> nat {
        self.max_recent as nat
    }

    /// The ring never outgrows its bound, and the bound is positive.
    pub closed spec fn wf(&self) -> bool {
        self.recent_alerts@.len() <= self.max_recent && self.max_recent >= 1
    }

    /// Create an alert manager for a node, with no alert history.
    pub fn new(node_name: &str) -> (r: Self)
        ensures
            r.wf(),
            r.spec_node_name() == node_name@,
            r.recent() == Seq::<Alert>::empty(),
            r.spec_max_recent() == MAX_RECENT_ALERTS as nat,
            r.last_kes() is None,
            r.last_peer() is None,
            r.last_sync() is None,
            r.last_stall() is None,
    {
        let mut name = String::new();
        name.append(node_name);
        proof {
            assert(name@ =~= node_name@);
        }
        AlertManager {
            node_name: name,
            recent_alerts: Vec::new(),
            max_recent: MAX_RECENT_ALERTS,
            last_kes_warning: None,
            last_peer_warning: None,
            last_sync_warning: None,
            last_height_stall_warning: None,
        }
    }

    /// Append an alert to the ring, evicting the oldest past the bound.
    fn add_alert(&mut self, alert: Alert)
        requires
            old(self).wf(),
        ensures
            final(self).wf(),
            final(self).recent()
                == ring_push(old(self).recent(), old(self).spec_max_recent(), alert),
            final(self).spec_node_name() == old(self).spec_node_name(),
            final(self).spec_max_recent() == old(self).spec_max_recent(),
            final(self).last_kes() == old(self).last_kes(),
            final(self).last_peer() == old(self).last_peer(),
            final(self).last_sync() == old(self).last_sync(),
            final(self).last_stall() == old(self).last_stall(),
    {
        if self.recent_alerts.len() >= self.max_recent {
            self.recent_alerts.remove(0);
        }
        self.recent_alerts.push(alert);
        proof {
            assert(final(self).recent()
                =~= ring_push(old(self).recent(), old(self).spec_max_recent(), alert));
        }
    }

    /// Check the remaining key-evolving-signature periods: fewer than
    /// five left is critical. Fires at most once per cooldown; returns
    /// the fired alert so the caller can log it.
    pub fn check_kes_expiry(&mut self, kes_remaining: Option<u64>, now: u64)
        -> (r: Option<Alert>)
        requires
            old(self).wf(),
        ensures
            final(self).wf(),
            ({
                let unhealthy = kes_remaining is Some && kes_remaining->Some_0 < 5;
                let fire = unhealthy && spec_cooldown_over(old(self).last_kes(), now,
                    KES_COOLDOWN_SECS);
                &&& r is Some <==> fire
                &&& final(self).last_kes() == if fire { Some(now) } else { old(self).last_kes() }
                &&& fire ==> final(self).recent() == ring_push(
                        old(self).recent(), old(self).spec_max_recent(),
                        final(self).recent().last())
                &&& fire ==> alert_eq(final(self).recent().last(), r->Some_0)
                &&& !fire ==> final(self).recent() == old(self).recent()
                &&& fire ==> {
                    let a = r->Some_0;
                    &&& a.timestamp == now
                    &&& a.node_name@ == old(self).spec_node_name()
                    &&& a.severity == AlertSeverity::Critical
                    &&& a.title@ == "KES Expiry Critical"@
                    &&& a.message@ == spec_kes_message(kes_remaining->Some_0)
                }
                &&& final(self).spec_node_name() == old(self).spec_node_name()
                &&& final(self).spec_max_recent() == old(self).spec_max_recent()
                &&& final(self).last_peer() == old(self).last_peer()
                &&& final(self).last_sync() == old(self).last_sync()
                &&& final(self).last_stall() == old(self).last_stall()
            }),
    {
        match kes_remaining {
            Some(remaining) => {
                if remaining < 5 {
                    if !cooldown_over(self.last_kes_warning, now, KES_COOLDOWN_SECS) {
                        return None;
                    }
                    let mut message = String::new();
                    message.append("KES periods remaining: ");
                    push_u64(&mut message, remaining);
                    message.append(" (renew certificate immediately)");
                    proof {
                        assert(message@ =~= spec_kes_message(remaining));
                    }
                    let mut title = String::new();
                    title.append("KES Expiry Critical");
                    proof {
                        assert(title@ =~= "KES Expiry Critical"@);
                    }
                    let alert = Alert {
                        timestamp: now,
                        node_name: clone_string(&self.node_name),
                        severity: AlertSeverity::Critical,
                        title,
                        message,
                    };
                    let out = clone_alert(&alert);
                    self.add_alert(alert);
                    self.last_kes_warning = Some(now);
                    Some(out)
                } else {
                    None
                }
            },
            None => None,
        }
    }

    /// Check the peer count: fewer than two peers is unhealthy, and
    /// exactly zero is critical rather than a warning.
    pub fn check_peer_count(&mut self, peers: Option<u64>, now: u64) -> (r: Option<Alert>)
        requires
            old(self).wf(),
        ensures
            final(self).wf(),
            ({
                let unhealthy = peers is Some && peers->Some_0 < 2;
                let fire = unhealthy && spec_cooldown_over(old(self).last_peer(), now,
                    PEER_COOLDOWN_SECS);
                &&& r is Some <==> fire
                &&& final(self).last_peer() == if fire { Some(now) } else { old(self).last_peer() }
                &&& fire ==> final(self).recent() == ring_push(
                        old(self).recent(), old(self).spec_max_recent(),
                        final(self).recent().last())
                &&& fire ==> alert_eq(final(self).recent().last(), r->Some_0)
                &&& !fire ==> final(self).recent() == old(self).recent()
                &&& fire ==> {
                    let a = r->Some_0;
                    &&& a.timestamp == now
                    &&& a.node_name@ == old(self).spec_node_name()
                    &&& a.severity == if peers->Some_0 == 0 {
                            AlertSeverity::Critical
                        } else {
                            AlertSeverity::Warning
                        }
                    &&& a.title@ == "Low Peer Count"@
                    &&& a.message@ == spec_peer_message(peers->Some_0)
                }
                &&& final(self).spec_node_name() == old(self).spec_node_name()
                &&& final(self).spec_max_recent() == old(self).spec_max_recent()
                &&& final(self).last_kes() == old(self).last_kes()
                &&& final(self).last_sync() == old(self).last_sync()
                &&& final(self).last_stall() == old(self).last_stall()
            }),
    {
        match peers {
            Some(count) => {
                if count < 2 {
                    if !cooldown_over(self.last_peer_warning, now, PEER_COOLDOWN_SECS) {
                        return None;
                    }
                    let mut message = String::new();
                    message.append("Only ");
                    push_u64(&mut message, count);
                    message.append(" peer(s) connected");
                    proof {
                        assert(message@ =~= spec_peer_message(count));
                    }
                    let mut title = String::new();
                    title.append("Low Peer Count");
                    proof {
                        assert(title@ =~= "Low Peer Count"@);
                    }
                    let alert = Alert {
                        timestamp: now,
                        node_name: clone_string(&self.node_name),
                        severity: if count == 0 {
                            AlertSeverity::Critical
                        } else {
                            AlertSeverity::Warning
                        },
                        title,
                        message,
                    };
                    let out = clone_alert(&alert);
                    self.add_alert(alert);
                    self.last_peer_warning = Some(now);
                    Some(out)
                } else {
                    None
                }
            },
            None => None,
        }
    }

    /// Check the sync-progress estimate, in hundredths of a percent:
    /// below 95% is unhealthy, below 90% critical.
    pub fn check_sync_progress(&mut self, sync_progress: Option<u64>, now: u64)
        -> (r: Option<Alert>)
        requires
            old(self).wf(),
        ensures
            final(self).wf(),
            ({
                let unhealthy = sync_progress is Some && sync_progress->Some_0 < 9500;
                let fire = unhealthy && spec_cooldown_over(old(self).last_sync(), now,
                    SYNC_COOLDOWN_SECS);
                &&& r is Some <==> fire
                &&& final(self).last_sync() == if fire { Some(now) } else { old(self).last_sync() }
                &&& fire ==> final(self).recent() == ring_push(
                        old(self).recent(), old(self).spec_max_recent(),
                        final(self).recent().last())
                &&& fire ==> alert_eq(final(self).recent().last(), r->Some_0)
                &&& !fire ==> final(self).recent() == old(self).recent()
                &&& fire ==> {
                    let a = r->Some_0;
                    &&& a.timestamp == now
                    &&& a.node_name@ == old(self).spec_node_name()
                    &&& a.severity == if sync_progress->Some_0 < 9000 {
                            AlertSeverity::Critical
                        } else {
                            AlertSeverity::Warning
                        }
                    &&& a.title@ == "Sync Progress Degraded"@
                    &&& a.message@ == spec_sync_message(sync_progress->Some_0)
                }
                &&& final(self).spec_node_name() == old(self).spec_node_name()
                &&& final(self).spec_max_recent() == old(self).spec_max_recent()
                &&& final(self).last_kes() == old(self).last_kes()
                &&& final(self).last_peer() == old(self).last_peer()
                &&& final(self).last_stall() == old(self).last_stall()
            }),
    {
        match sync_progress {
            Some(progress) => {
                if progress < 9500 {
                    if !cooldown_over(self.last_sync_warning, now, SYNC_COOLDOWN_SECS) {
                        return None;
                    }
                    let mut message = String::new();
                    message.append("Node is ");
                    push_u64(&mut message, progress / 100);
                    message.push('.');
                    push_u64_padded(&mut message, progress % 100, 2);
                    message.append("% synced");
                    proof {
                        assert(message@ =~= spec_sync_message(progress));
                    }
                    let mut title = String::new();
                    title.append("Sync Progress Degraded");
                    proof {
                        assert(title@ =~= "Sync Progress Degraded"@);
                    }
                    let alert = Alert {
                        timestamp: now,
                        node_name: clone_string(&self.node_name),
                        severity: if progress < 9000 {
                            AlertSeverity::Critical
                        } else {
                            AlertSeverity::Warning
                        },
                        title,
                        message,
                    };
                    let out = clone_alert(&alert);
                    self.add_alert(alert);
                    self.last_sync_warning = Some(now);
                    Some(out)
                } else {
                    None
                }
            },
            None => None,
        }
    }

    /// Check for a block-height stall: more than five minutes without a
    /// new block is a warning.
    pub fn check_block_stall(
        &mut self,
        current_height: Option<u64>,
        _previous_height: Option<u64>,
        time_since_last_block: Option<u64>,
        now: u64,
    ) -> (r: Option<Alert>)
        requires
            old(self).wf(),
        ensures
            final(self).wf(),
            ({
                let unhealthy = time_since_last_block is Some
                    && time_since_last_block->Some_0 > 300;
                let fire = unhealthy && spec_cooldown_over(old(self).last_stall(), now,
                    STALL_COOLDOWN_SECS);
                &&& r is Some <==> fire
                &&& final(self).last_stall() == if fire {
                        Some(now)
                    } else {
                        old(self).last_stall()
                    }
                &&& fire ==> final(self).recent() == ring_push(
                        old(self).recent(), old(self).spec_max_recent(),
                        final(self).recent().last())
                &&& fire ==> alert_eq(final(self).recent().last(), r->Some_0)
                &&& !fire ==> final(self).recent() == old(self).recent()
                &&& fire ==> {
                    let a = r->Some_0;
                    &&& a.timestamp == now
                    &&& a.node_name@ == old(self).spec_node_name()
                    &&& a.severity == AlertSeverity::Warning
                    &&& a.title@ == "Block Height Stalled"@
                    &&& a.message@ == spec_stall_message(
                            time_since_last_block->Some_0,
                            match current_height { Some(h) => h, None => 0 },
                        )
                }
                &&& final(self).spec_node_name() == old(self).spec_node_name()
                &&& final(self).spec_max_recent() == old(self).spec_max_recent()
                &&& final(self).last_kes() == old(self).last_kes()
                &&& final(self).last_peer() == old(self).last_peer()
                &&& final(self).last_sync() == old(self).last_sync()
            }),
    {
        match time_since_last_block {
            Some(age) => {
                if age > 300 {
                    if !cooldown_over(self.last_height_stall_warning, now, STALL_COOLDOWN_SECS) {
                        return None;
                    }
                    let height = match current_height {
                        Some(h) => h,
                        None => 0,
                    };
                    let mut message = String::new();
                    message.append("No new blocks for ");
                    push_u64(&mut message, age);
                    message.append(" seconds (height: ");
                    push_u64(&mut message, height);
                    message.push(')');
                    proof {
                        assert(message@ =~= spec_stall_message(age, height));
                    }
                    let mut title = String::new();
                    title.append("Block Height Stalled");
                    proof {
                        assert(title@ =~= "Block Height Stalled"@);
                    }
                    let alert = Alert {
                        timestamp: now,
                        node_name: clone_string(&self.node_name),
                        severity: AlertSeverity::Warning,
                        title,
                        message,
                    };
                    let out = clone_alert(&alert);
                    self.add_alert(alert);
                    self.last_height_stall_warning = Some(now);
                    Some(out)
                } else {
                    None
                }
            },
            None => None,
        }
    }

    /// The most recent critical alert, if any.
    pub fn latest_critical(&self) -> (r: Option<&Alert>)
        ensures
            r is Some <==> spec_latest_critical(self.recent()) is Some,
            r is Some ==> *r->Some_0 == spec_latest_critical(self.recent())->Some_0,
    {
        let n = self.recent_alerts.len();
        let mut k: usize = n;
        proof {
            assert(self.recent().take(n as int) =~= self.recent());
        }
        while k > 0
            invariant
                0 <= k <= n,
                n == self.recent_alerts@.len(),
                spec_latest_critical(self.recent())
                    == spec_latest_critical(self.recent().take(k as int)),
            decreases k,
        {
            proof {
                assert(self.recent().take(k as int).drop_last()
                    =~= self.recent().take(k - 1));
                assert(self.recent().take(k as int).last() == self.recent()[k - 1]);
            }
            if matches!(self.recent_alerts[k - 1].severity, AlertSeverity::Critical) {
                return Some(&self.recent_alerts[k - 1]);
            }
            k = k - 1;
        }
        proof {
            assert(self.recent().take(0) =~= Seq::<Alert>::empty());
        }
        None
    }

    /// All alerts at or after the given timestamp, oldest first.
    pub fn alerts_since(&self, timestamp: u64) -> (r: Vec<&Alert>)
        ensures
            r@.len() == spec_alerts_since(self.recent(), timestamp).len(),
            forall|i: int| 0 <= i < r@.len()
                ==> *r@[i] == spec_alerts_since(self.recent(), timestamp)[i],
    {
        let n = self.recent_alerts.len();
        let mut out: Vec<&Alert> = Vec::new();
        let mut k: usize = 0;
        while k < n
            invariant
                0 <= k <= n,
                n == self.recent_alerts@.len(),
                out@.len() == spec_alerts_since(self.recent().take(k as int), timestamp).len(),
                forall|i: int| 0 <= i < out@.len()
                    ==> *out@[i] == spec_alerts_since(self.recent().take(k as int), timestamp)[i],
            decreases n - k,
        {
            proof {
                assert(self.recent().take(k + 1).drop_last() =~= self.recent().take(k as int));
                assert(self.recent().take(k + 1).last() == self.recent()[k as int]);
            }
            if self.recent_alerts[k].timestamp >= timestamp {
                out.push(&self.recent_alerts[k]);
            }
            k = k + 1;
        }
        proof {
            assert(self.recent().take(n as int) =~= self.recent());
        }
        out
    }

    /// Drop all recent alerts; cooldown state is kept.
    pub fn clear(&mut self)
        ensures
            final(self).wf() == (old(self).spec_max_recent() >= 1),
            final(self).recent() == Seq::<Alert>::empty(),
            final(self).spec_node_name() == old(self).spec_node_name(),
            final(self).spec_max_recent() == old(self).spec_max_recent(),
            final(self).last_kes() == old(self).last_kes(),
            final(self).last_peer() == old(self).last_peer(),
            final(self).last_sync() == old(self).last_sync(),
            final(self).last_stall() == old(self).last_stall(),
    {
        self.recent_alerts.clear();
        proof {
            assert(final(self).recent() =~= Seq::<Alert>::empty());
        }
    }
}

/// The last critical alert of a sequence.
pub open spec fn spec_latest_critical(s: Seq<Alert>) -> Option<Alert>
    decreases s.len(),
{
    if s.len() == 0 {
        None
    } else if s.last().severity == AlertSeverity::Critical {
        Some(s.last())
    } else {
        spec_latest_critical(s.drop_last())
    }
}

/// Whether two alerts carry the same contents.
pub open spec fn alert_eq(a: Alert, b: Alert) -> bool {
    &&& a.timestamp == b.timestamp
    &&& a.node_name@ == b.node_name@
    &&& a.severity == b.severity
    &&& a.title@ == b.title@
    &&& a.message@ == b.message@
}

/// The cooldown law of every check: with a persistently unhealthy value,
/// a category that has never alerted fires on its first check at `t0`
/// (its last-alert time becoming `t0`, by the check's contract); any
/// re-check strictly within the cooldown window is suppressed and leaves
/// that time unchanged; and the first check at or after `t0 + cooldown`
/// fires exactly once more.
pub proof fn lemma_alert_cooldown(cooldown: u64, t0: u64, t1: u64, t2: u64)
    requires
        t0 <= t1,
        t1 - t0 < cooldown,
        t2 >= t0,
        t2 - t0 >= cooldown,
    ensures
        spec_cooldown_over(None, t0, cooldown),
        !spec_cooldown_over(Some(t0), t1, cooldown),
        spec_cooldown_over(Some(t0), t2, cooldown),
{
}

/// Whether the cooldown has elapsed.
fn cooldown_over(last: Option<u64>, now: u64, cooldown: u64) -> (r: bool)
    ensures
        r == spec_cooldown_over(last, now, cooldown),
{
    match last {
        None => true,
        Some(t) => now >= t && now - t >= cooldown,
    }
}

/// The alerts of a sequence at or after a timestamp, oldest first.
pub open spec fn spec_alerts_since(s: Seq<Alert>, ts: u64) -> Seq<Alert>
    decreases s.len(),
{
    if s.len() == 0 {
        Seq::empty()
    } else if s.last().timestamp >= ts {
        spec_alerts_since(s.drop_last(), ts).push(s.last())
    } else {
        spec_alerts_since(s.drop_last(), ts)
    }
}

/// One character of an alert-log file name: spaces become underscores,
/// letters lowercase.
pub open spec fn log_name_char(c: char) -> char {
    if c == ' ' { '_' } else { crate::text::lower_char(c) }
}

/// The alert-log file name of a node: its name with spaces replaced by
/// underscores and ASCII letters lowercased, plus the `.log` suffix.
pub open spec fn spec_alerts_log_file_name(name: Seq<char>) -> Seq<char> {
    name.map(|i: int, c: char| log_name_char(c)) + ".log"@
}

/// The file name of a node's append-only alert log.
pub fn alerts_log_file_name(node_name: &str) -> (r: String)
    ensures
        r@ == spec_alerts_log_file_name(node_name@),
{
    let cs = crate::text::chars_of(node_name);
    let mut out = String::new();
    let n = cs.len();
    let mut k: usize = 0;
    while k < n
        invariant
            0 <= k <= n,
            n == cs@.len(),
            cs@ == node_name@,
            out@ == node_name@.map(|i: int, c: char| log_name_char(c)).take(k as int),
        decreases n - k,
    {
        let c = cs[k];
        let mapped: char = if c == ' ' {
            '_'
        } else if c >= 'A' && c <= 'Z' {
            (((c as u32) + 32) as u8) as char
        } else {
            c
        };
        out.push(mapped);
        proof {
            assert(mapped == log_name_char(node_name@[k as int]));
            assert(out@ =~= node_name@.map(|i: int, c: char| log_name_char(c)).take((k + 1) as int));
        }
        k = k + 1;
    }
    out.append(".log");
    proof {
        assert(out@ =~= spec_alerts_log_file_name(node_name@));
    }
    out
}

/// Copy a string.
fn clone_string(s: &String) -> (r: String)
    ensures
        r@ == s@,
{
    let mut out = String::new();
    out.append(s.as_str());
    proof {
        assert(out@ =~= s@);
    }
    out
}

/// Copy an alert.
fn clone_alert(a: &Alert) -> (r: Alert)
    ensures
        r.timestamp == a.timestamp,
        r.node_name@ == a.node_name@,
        r.severity == a.severity,
        r.title@ == a.title@,
        r.message@ == a.message@,
{
    Alert {
        timestamp: a.timestamp,
        node_name: clone_string(&a.node_name),
        severity: a.severity,
        title: clone_string(&a.title),
        message: clone_string(&a.message),
    }
}

} // verus!
