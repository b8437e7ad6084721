//! Exposition-format parsing into a structured metrics record.
//!
//! A payload is newline-delimited `name{labels} value` or `name value`
//! lines; `#`-prefixed comment lines and blank lines are ignored. Every
//! line that yields a name and a parseable value lands in the raw
//! mapping; recognized names are then resolved into typed fields by a
//! fixed alias priority per field.

use vstd::prelude::*;
use crate::value::{MetricValue, spec_parse_value, parse_value_range};
use crate::rawmap::RawMetrics;
use crate::text::string_from_range;

verus! {

/// ASCII whitespace, as line trimming understands it.
pub open spec fn is_ws(c: char) -> bool {
    c == ' ' || c == '\t' || c == '\r' || c == '\n' || c == '\u{b}' || c == '\u{c}'
}

/// The sequence with its leading whitespace removed.
pub open spec fn trim_start(t: Seq<char>) -> Seq<char>
    decreases t.len(),
{
    if t.len() > 0 && is_ws(t.first()) {
        trim_start(t.drop_first())
    } else {
        t
    }
}

/// The sequence with its trailing whitespace removed.
pub open spec fn trim_end(t: Seq<char>) -> Seq<char>
    decreases t.len(),
{
    if t.len() > 0 && is_ws(t.last()) {
        trim_end(t.drop_last())
    } else {
        t
    }
}

/// The sequence with whitespace removed from both ends.
pub open spec fn spec_trim(t: Seq<char>) -> Seq<char> {
    trim_end(trim_start(t))
}

/// The first position at or after `i` holding `{` or a space; the metric
/// name ends there.
pub open spec fn name_end(t: Seq<char>, i: int) -> int
    decreases t.len() - i,
{
    if 0 <= i < t.len() && !(t[i] == '{' || t[i] == ' ') {
        name_end(t, i + 1)
    } else {
        i
    }
}

/// The position of the last space, or `-1` when there is none.
pub open spec fn last_space(t: Seq<char>) -> int
    decreases t.len(),
{
    if t.len() == 0 {
        -1
    } else if t.last() == ' ' {
        t.len() - 1
    } else {
        last_space(t.drop_last())
    }
}

/// Parse one exposition line: after trimming, the name is everything
/// before the first `{` or space (whichever comes first), and the value
/// is the token after the last space. A line without both parts, or
/// whose token is not a number, yields nothing.
pub open spec fn spec_parse_metric_line(l: Seq<char>) -> Option<(Seq<char>, MetricValue)> {
    let tl = spec_trim(l);
    let ne = name_end(tl, 0);
    let ls = last_space(tl);
    if ne == tl.len() {
        None
    } else if ls < 0 {
        None
    } else {
        match spec_parse_value(tl.skip(ls + 1)) {
            Some(v) => Some((tl.take(ne), v)),
            None => None,
        }
    }
}

/// The first newline at or after `i`, or the end of the text.
pub open spec fn newline_at(t: Seq<char>, i: int) -> int
    decreases t.len() - i,
{
    if 0 <= i < t.len() && t[i] != '\n' {
        newline_at(t, i + 1)
    } else {
        i
    }
}

/// Fold one line into the raw mapping: comment lines, blank lines and
/// unparseable lines leave it unchanged; the rest insert their pair,
/// a later line overriding an earlier one with the same name.
pub open spec fn spec_line_insert(line: Seq<char>, acc: Map<Seq<char>, MetricValue>)
    -> Map<Seq<char>, MetricValue> {
    if line.len() > 0 && line[0] == '#' {
        acc
    } else if spec_trim(line).len() == 0 {
        acc
    } else {
        match spec_parse_metric_line(line) {
            Some(p) => acc.insert(p.0, p.1),
            None => acc,
        }
    }
}

/// `newline_at` stays within the text.
pub proof fn lemma_newline_at_bounds(t: Seq<char>, i: int)
    requires
        0 <= i <= t.len(),
    ensures
        i <= newline_at(t, i) <= t.len(),
    decreases t.len() - i,
{
    if i < t.len() && t[i] != '\n' {
        lemma_newline_at_bounds(t, i + 1);
    }
}

/// Fold the lines of `t` (split at `\n`, a `\r` before it dropped) into
/// the accumulator.
pub open spec fn spec_raw_from(t: Seq<char>, acc: Map<Seq<char>, MetricValue>)
    -> Map<Seq<char>, MetricValue>
    decreases t.len(),
    via spec_raw_from_dec
{
    if t.len() == 0 {
        acc
    } else {
        let j = newline_at(t, 0);
        let rawline = t.take(j);
        let line = if j < t.len() && rawline.len() > 0 && rawline.last() == '\r' {
            rawline.drop_last()
        } else {
            rawline
        };
        let acc2 = spec_line_insert(line, acc);
        if j == t.len() {
            acc2
        } else {
            spec_raw_from(t.skip(j + 1), acc2)
        }
    }
}

#[via_fn]
proof fn spec_raw_from_dec(t: Seq<char>, acc: Map<Seq<char>, MetricValue>) {
    if t.len() > 0 {
        lemma_newline_at_bounds(t, 0);
    }
}

/// The raw mapping of a whole payload.
pub open spec fn spec_raw_map(t: Seq<char>) -> Map<Seq<char>, MetricValue> {
    spec_raw_from(t, Map::empty())
}

/// A run of name characters followed by `{`/space (or the end) pins `name_end`.
proof fn lemma_name_end_char(t: Seq<char>, i: int, r: int)
    requires
        0 <= i <= r <= t.len(),
        forall|j: int| i <= j < r ==> !(t[j] == '{' || t[j] == ' '),
        r == t.len() || (t[r] == '{' || t[r] == ' '),
    ensures
        name_end(t, i) == r,
    decreases r - i,
{
    if i < r {
        lemma_name_end_char(t, i + 1, r);
    }
}

/// A space at `i` with none after it pins `last_space`.
proof fn lemma_last_space_char(t: Seq<char>, i: int)
    requires
        0 <= i < t.len(),
        t[i] == ' ',
        forall|j: int| i < j < t.len() ==> t[j] != ' ',
    ensures
        last_space(t) == i,
    decreases t.len(),
{
    if i < t.len() - 1 {
        assert(t.last() != ' ');
        assert(forall|j: int| i < j < t.drop_last().len() ==> t.drop_last()[j] != ' ');
        assert(t.drop_last()[i] == ' ');
        lemma_last_space_char(t.drop_last(), i);
    }
}

/// No space at all pins `last_space` to `-1`.
proof fn lemma_last_space_none(t: Seq<char>)
    requires
        forall|j: int| 0 <= j < t.len() ==> t[j] != ' ',
    ensures
        last_space(t) == -1,
    decreases t.len(),
{
    if t.len() > 0 {
        assert(forall|j: int| 0 <= j < t.drop_last().len() ==> t.drop_last()[j] != ' ');
        lemma_last_space_none(t.drop_last());
    }
}

/// A whitespace prefix of length `k` pins `trim_start`.
proof fn lemma_trim_start_char(t: Seq<char>, k: int)
    requires
        0 <= k <= t.len(),
        forall|j: int| 0 <= j < k ==> is_ws(t[j]),
        k == t.len() || !is_ws(t[k]),
    ensures
        trim_start(t) == t.skip(k),
    decreases k,
{
    if k == 0 {
        assert(t.skip(0) =~= t);
    } else {
        assert(is_ws(t.first()));
        let t1 = t.drop_first();
        assert(forall|j: int| 0 <= j < k - 1 ==> is_ws(t1[j]));
        assert(k - 1 == t1.len() || !is_ws(t1[k - 1]));
        lemma_trim_start_char(t1, k - 1);
        assert(t1.skip(k - 1) =~= t.skip(k));
    }
}

/// A whitespace suffix starting at `k` pins `trim_end`.
proof fn lemma_trim_end_char(t: Seq<char>, k: int)
    requires
        0 <= k <= t.len(),
        forall|j: int| k <= j < t.len() ==> is_ws(t[j]),
        k == 0 || !is_ws(t[k - 1]),
    ensures
        trim_end(t) == t.take(k),
    decreases t.len(),
{
    if k == t.len() {
        if t.len() > 0 && is_ws(t.last()) {
            assert(k == t.len() && k <= t.len());
            assert(is_ws(t[k - 1]));
            assert(k == 0);
        } else {
            assert(t.take(k) =~= t);
        }
    } else {
        assert(is_ws(t.last()));
        let t1 = t.drop_last();
        assert(forall|j: int| k <= j < t1.len() ==> is_ws(t1[j]));
        assert(k == 0 || !is_ws(t1[k - 1]));
        lemma_trim_end_char(t1, k);
        assert(t1.take(k) =~= t.take(k));
    }
}

/// A newline run pins `newline_at`.
proof fn lemma_newline_at_char(t: Seq<char>, i: int, r: int)
    requires
        0 <= i <= r <= t.len(),
        forall|j: int| i <= j < r ==> t[j] != '\n',
        r == t.len() || t[r] == '\n',
    ensures
        newline_at(t, i) == r,
    decreases r - i,
{
    if i < r {
        lemma_newline_at_char(t, i + 1, r);
    }
}

/// Parse the exposition line `s[from..to]`.
#[verifier::loop_isolation(false)]
#[verifier::rlimit(100)]
pub fn parse_metric_line_range(s: &Vec<char>, from: usize, to: usize)
    -> (r: Option<(String, MetricValue)>)
    requires
        from <= to <= s@.len(),
    ensures
        ({
            let l = s@.subrange(from as int, to as int);
            match r {
                Some(p) => spec_parse_metric_line(l) == Some((p.0@, p.1)),
                None => spec_parse_metric_line(l) is None,
            }
        }),
{
    let ghost l = s@.subrange(from as int, to as int);
    // trim both ends
    let mut ts: usize = from;
    while ts < to && is_ws_char(s[ts])
        invariant
            from <= ts <= to,
            forall|j: int| from <= j < ts ==> is_ws(s@[j]),
        decreases to - ts,
    {
        ts = ts + 1;
    }
    let mut te: usize = to;
    while te > ts && is_ws_char(s[te - 1])
        invariant
            ts <= te <= to,
            forall|j: int| te <= j < to ==> is_ws(s@[j]),
        decreases te,
    {
        te = te - 1;
    }
    let ghost tl = spec_trim(l);
    proof {
        lemma_trim_start_char(l, ts - from);
        if ts == to {
            assert(l.skip(ts - from) =~= Seq::<char>::empty());
            lemma_trim_end_char(l.skip(ts - from), 0);
        } else {
            lemma_trim_end_char(l.skip(ts - from), te - ts);
        }
        assert(tl =~= s@.subrange(ts as int, te as int));
    }
    // the name ends at the first `{` or space
    let mut ne: usize = ts;
    while ne < te && !(s[ne] == '{' || s[ne] == ' ')
        invariant
            ts <= ne <= te,
            forall|j: int| ts <= j < ne ==> !(s@[j] == '{' || s@[j] == ' '),
        decreases te - ne,
    {
        ne = ne + 1;
    }
    proof {
        lemma_name_end_char(tl, 0, ne - ts);
    }
    if ne == te {
        return None;
    }
    // the value is the token after the last space
    let mut ls: usize = te;
    while ls > ts && s[ls - 1] != ' '
        invariant
            ts <= ls <= te,
            forall|j: int| ls <= j < te ==> s@[j] != ' ',
        decreases ls,
    {
        ls = ls - 1;
    }
    if ls == ts {
        proof {
            lemma_last_space_none(tl);
        }
        return None;
    }
    proof {
        lemma_last_space_char(tl, ls - 1 - ts);
        assert(tl.skip(ls - ts) =~= s@.subrange(ls as int, te as int));
    }
    match parse_value_range(s, ls, te) {
        Some(v) => {
            let name = string_from_range(s, ts, ne);
            proof {
                assert(tl.take(ne - ts) =~= s@.subrange(ts as int, ne as int));
            }
            Some((name, v))
        },
        None => None,
    }
}

/// Whether a character is whitespace for trimming.
fn is_ws_char(c: char) -> (r: bool)
    ensures
        r == is_ws(c),
{
    c == ' ' || c == '\t' || c == '\r' || c == '\n' || c == '\u{b}' || c == '\u{c}'
}

/// Build the raw mapping of a payload held as characters.
#[verifier::loop_isolation(false)]
#[verifier::rlimit(100)]
pub fn build_raw_map(cs: &Vec<char>) -> (r: RawMetrics)
    ensures
        r.wf(),
        r@ == spec_raw_map(cs@),
{
    let n = cs.len();
    let mut raw = RawMetrics::new();
    let mut p: usize = 0;
    proof {
        assert(cs@.skip(0) =~= cs@);
    }
    while p < n
        invariant
            0 <= p <= n,
            raw.wf(),
            spec_raw_map(cs@) == spec_raw_from(cs@.skip(p as int), raw@),
        decreases n - p,
    {
        let ghost t = cs@.skip(p as int);
        let ghost p0 = p as int;
        let ghost acc0 = raw@;
        // find the end of this line
        let mut q: usize = p;
        while q < n && cs[q] != '\n'
            invariant
                p <= q <= n,
                forall|j: int| p <= j < q ==> cs@[j] != '\n',
            decreases n - q,
        {
            q = q + 1;
        }
        proof {
            lemma_newline_at_char(t, 0, q - p);
        }
        // drop a carriage return before the newline
        let qe: usize = if q < n && q > p && cs[q - 1] == '\r' { q - 1 } else { q };
        let ghost line = s_line(cs@, p as int, q as int, n as int);
        proof {
            assert(t.take(q - p) =~= cs@.subrange(p as int, q as int));
            if q < n && q > p && cs@[q - 1] == '\r' {
                assert(t.take(q - p).drop_last() =~= cs@.subrange(p as int, (q - 1) as int));
            }
            assert(line =~= cs@.subrange(p as int, qe as int));
        }
        // fold the line in
        if qe > p && cs[p] == '#' {
            // comment line
        } else {
            match parse_metric_line_range(cs, p, qe) {
                Some(pair) => {
                    raw.insert(pair.0, pair.1);
                },
                None => {
                    proof {
                        assert(spec_line_insert(line, raw@) == raw@) by {
                            if !(line.len() > 0 && line[0] == '#')
                                && spec_trim(line).len() != 0 {
                                assert(spec_parse_metric_line(line) is None);
                            }
                        }
                    }
                },
            }
        }
        proof {
            if qe > p0 && cs@[p0] == '#' {
                assert(line[0] == '#');
            }
            assert(raw@ == spec_line_insert(line, acc0));
        }
        if q == n {
            p = n;
        } else {
            p = q + 1;
        }
        proof {
            if q < n {
                assert(t.skip(q - p0 + 1) =~= cs@.skip((q + 1) as int));
            }
        }
    }
    proof {
        assert(cs@.skip(n as int) =~= Seq::<char>::empty());
    }
    raw
}

/// The line spanning `[p, q)` of `t`, its trailing carriage return
/// dropped when a newline follows.
pub open spec fn s_line(t: Seq<char>, p: int, q: int, n: int) -> Seq<char> {
    let rawline = t.subrange(p, q);
    if q < n && rawline.len() > 0 && rawline.last() == '\r' {
        rawline.drop_last()
    } else {
        rawline
    }
}

/// Parse a single exposition line.
pub fn parse_metric_line(line: &str) -> (r: Option<(String, MetricValue)>)
    ensures
        match r {
            Some(p) => spec_parse_metric_line(line@) == Some((p.0@, p.1)),
            None => spec_parse_metric_line(line@) is None,
        },
{
    let cs = crate::text::chars_of(line);
    let n = cs.len();
    proof {
        assert(cs@.subrange(0, n as int) =~= line@);
    }
    parse_metric_line_range(&cs, 0, n)
}

/// Detected node implementation type.
#[derive(Debug, Clone, Copy, PartialEq, Eq, Structural)]
pub enum NodeType {
    CardanoNode,
    Dingo,
    Amaru,
    Unknown,
}

impl Default for NodeType {
    /// The primary implementation is assumed until detection says otherwise.
    fn default() -> (r: Self)
        ensures
            r == NodeType::CardanoNode,
    {
        NodeType::CardanoNode
    }
}

/// Peer-to-peer network statistics.
#[derive(Debug, Clone, Copy, PartialEq, Eq, Structural)]
pub struct P2PStats {
    /// Whether the peer-to-peer stack is enabled.
    pub enabled: Option<bool>,
    /// Cold peers: known but not yet promoted.
    pub cold_peers: Option<u64>,
    /// Warm peers: promoted but not active.
    pub warm_peers: Option<u64>,
    /// Hot peers: actively used.
    pub hot_peers: Option<u64>,
}

impl Default for P2PStats {
    fn default() -> (r: Self)
        ensures
            r == (P2PStats { enabled: None, cold_peers: None, warm_peers: None, hot_peers: None }),
    {
        P2PStats { enabled: None, cold_peers: None, warm_peers: None, hot_peers: None }
    }
}

/// Whether some key of the map starts with the given prefix.
pub open spec fn map_has_prefix(m: Map<Seq<char>, MetricValue>, p: Seq<char>) -> bool {
    exists|k: Seq<char>| m.contains_key(k) && k.len() >= p.len() && k.take(p.len() as int) == p
}

/// The detected implementation: the first matching name prefix wins, in
/// a fixed priority order; no match means unknown, not an error.
pub open spec fn spec_node_type(m: Map<Seq<char>, MetricValue>) -> NodeType {
    if map_has_prefix(m, "dingo_"@) {
        NodeType::Dingo
    } else if map_has_prefix(m, "amaru_"@) {
        NodeType::Amaru
    } else if map_has_prefix(m, "cardano_node_"@) {
        NodeType::CardanoNode
    } else {
        NodeType::Unknown
    }
}

/// Detect the node implementation type from the raw metric names.
pub fn detect_node_type(raw: &RawMetrics) -> (r: NodeType)
    requires
        raw.wf(),
    ensures
        r == spec_node_type(raw@),
{
    if raw.any_key_starts_with("dingo_") {
        NodeType::Dingo
    } else if raw.any_key_starts_with("amaru_") {
        NodeType::Amaru
    } else if raw.any_key_starts_with("cardano_node_") {
        NodeType::CardanoNode
    } else {
        NodeType::Unknown
    }
}

/// The value a metric name holds, if present.
pub open spec fn spec_lk(m: Map<Seq<char>, MetricValue>, n: Seq<char>) -> Option<MetricValue> {
    if m.contains_key(n) {
        Some(m[n])
    } else {
        None
    }
}

/// The value of the first present name of two, in priority order.
pub open spec fn spec_lk2(m: Map<Seq<char>, MetricValue>, a: Seq<char>, b: Seq<char>)
    -> Option<MetricValue> {
    if spec_lk(m, a) is Some { spec_lk(m, a) } else { spec_lk(m, b) }
}

/// The value of the first present name of three, in priority order.
pub open spec fn spec_lk3(m: Map<Seq<char>, MetricValue>, a: Seq<char>, b: Seq<char>, c: Seq<char>)
    -> Option<MetricValue> {
    if spec_lk(m, a) is Some { spec_lk(m, a) } else { spec_lk2(m, b, c) }
}

/// The value of the first present name of four, in priority order.
pub open spec fn spec_lk4(
    m: Map<Seq<char>, MetricValue>, a: Seq<char>, b: Seq<char>, c: Seq<char>, d: Seq<char>,
) -> Option<MetricValue> {
    if spec_lk(m, a) is Some { spec_lk(m, a) } else { spec_lk3(m, b, c, d) }
}

/// A counter or gauge read as a whole number: negative and non-finite
/// samples are treated as absent, never as zero.
pub open spec fn opt_u64(o: Option<MetricValue>) -> Option<u64> {
    match o {
        Some(v) => v.spec_to_u64(),
        None => None,
    }
}

/// A flag read from a sample: present when the sample is, set when the
/// sample is strictly positive.
pub open spec fn opt_flag(o: Option<MetricValue>) -> Option<bool> {
    match o {
        Some(v) => Some(v.spec_gt_zero()),
        None => None,
    }
}

/// Uptime derivation: a start time in the past yields `now - start`; a
/// start time in the future (clock skew) leaves any earlier value.
pub open spec fn spec_uptime(start: Option<u64>, up0: Option<u64>, now: u64) -> Option<u64> {
    match start {
        Some(st) => if now >= st { Some((now - st) as u64) } else { up0 },
        None => up0,
    }
}

/// Peer-total fallback: with no direct connected-peers metric, a
/// positive sum of the cold/warm/hot counts stands in (saturating).
pub open spec fn spec_peers_total(
    direct: Option<u64>, cold: Option<u64>, warm: Option<u64>, hot: Option<u64>,
) -> Option<u64> {
    match direct {
        Some(v) => Some(v),
        None => {
            let s = (match cold { Some(c) => c as int, None => 0 })
                + (match warm { Some(w) => w as int, None => 0 })
                + (match hot { Some(h) => h as int, None => 0 });
            if s > 0 {
                if s > u64::MAX { Some(u64::MAX) } else { Some(s as u64) }
            } else {
                None
            }
        },
    }
}

/// The slot the chain should have reached by `now`, from the era
/// constants: one slot per second after the rate transition, one per
/// twenty seconds between genesis and the transition, none before.
pub open spec fn spec_expected_slot(now: u64) -> int {
    if now > 1596059091 {
        4492800 + (now - 1596059091)
    } else if now >= 1506203091 {
        (now - 1506203091) / 20
    } else {
        0
    }
}

/// Sync-progress estimate in hundredths of a percent, capped at 100%.
pub open spec fn spec_sync_progress(slot: Option<u64>, now: u64) -> Option<u64> {
    match slot {
        Some(sl) => {
            if now == 0 {
                None
            } else {
                let exp = spec_expected_slot(now);
                if exp == 0 {
                    None
                } else {
                    let hp = sl * 10000 / exp;
                    if hp > 10000 { Some(10000u64) } else { Some(hp as u64) }
                }
            }
        },
        None => None,
    }
}

/// Parsed metrics from one poll of a node.
#[derive(Debug, Clone)]
pub struct NodeMetrics {
    /// Detected node implementation.
    pub node_type: NodeType,
    /// Node software version, when configuration supplies one.
    pub node_version: Option<String>,
    /// Current block height.
    pub block_height: Option<u64>,
    /// Current slot number.
    pub slot_num: Option<u64>,
    /// Current epoch.
    pub epoch: Option<u64>,
    /// Slot within the current epoch.
    pub slot_in_epoch: Option<u64>,
    /// Chain density (a ratio, kept as sampled).
    pub density: Option<MetricValue>,
    /// Transactions processed.
    pub tx_processed: Option<u64>,
    /// Transactions in the mempool.
    pub mempool_txs: Option<u64>,
    /// Mempool size in bytes.
    pub mempool_bytes: Option<u64>,
    /// Connected peers.
    pub peers_connected: Option<u64>,
    /// Live memory in bytes.
    pub memory_used: Option<u64>,
    /// Heap memory in bytes.
    pub memory_heap: Option<u64>,
    /// Minor garbage collections.
    pub gc_minor: Option<u64>,
    /// Major garbage collections.
    pub gc_major: Option<u64>,
    /// Observed forks.
    pub forks: Option<u64>,
    /// Block fetch delay in seconds, as sampled.
    pub block_delay_s: Option<MetricValue>,
    /// Blocks served.
    pub blocks_served: Option<u64>,
    /// Blocks that arrived late.
    pub blocks_late: Option<u64>,
    /// Share of blocks fetched within one second.
    pub block_delay_cdf_1s: Option<MetricValue>,
    /// Share of blocks fetched within three seconds.
    pub block_delay_cdf_3s: Option<MetricValue>,
    /// Share of blocks fetched within five seconds.
    pub block_delay_cdf_5s: Option<MetricValue>,
    /// CPU time in milliseconds.
    pub cpu_ms: Option<u64>,
    /// Uptime in whole seconds.
    pub uptime_seconds: Option<u64>,
    /// Sync-progress estimate, hundredths of a percent (0 to 10000).
    pub sync_progress: Option<u64>,
    /// Whether the node answered the poll.
    pub connected: bool,
    /// Every parsed `name value` pair, recognized or not.
    pub raw: RawMetrics,
    /// Current key-evolving-signature period.
    pub kes_period: Option<u64>,
    /// Key-evolving-signature periods left before expiry.
    pub kes_remaining: Option<u64>,
    /// Periods per operational certificate.
    pub kes_periods_per_cert: Option<u64>,
    /// Whether block forging is enabled.
    pub forging_enabled: Option<bool>,
    /// Whether the node is a slot leader.
    pub is_leader: Option<bool>,
    /// Blocks adopted.
    pub blocks_adopted: Option<u64>,
    /// Blocks forged but not adopted.
    pub blocks_didnt_adopt: Option<u64>,
    /// Slots about to lead.
    pub about_to_lead: Option<u64>,
    /// Slots missed.
    pub missed_slots: Option<u64>,
    /// Operational certificate counter on disk.
    pub op_cert_counter_disk: Option<u64>,
    /// Operational certificate counter on chain.
    pub op_cert_counter_chain: Option<u64>,
    /// Operational certificate start period.
    pub op_cert_start_kes_period: Option<u64>,
    /// Peer-to-peer statistics.
    pub p2p: P2PStats,
    /// Node start time, Unix seconds.
    pub node_start_time: Option<u64>,
    /// Incoming connections.
    pub incoming_connections: Option<u64>,
    /// Outgoing connections.
    pub outgoing_connections: Option<u64>,
    /// Full-duplex connections.
    pub full_duplex_connections: Option<u64>,
    /// Unidirectional connections.
    pub unidirectional_connections: Option<u64>,
}

impl Default for NodeMetrics {
    /// A record with nothing sampled and no connection.
    fn default() -> (r: Self)
        ensures
            r.node_type == NodeType::CardanoNode,
            r.node_version is None,
            r.connected == false,
            r.raw.wf(),
            r.raw@ == Map::<Seq<char>, MetricValue>::empty(),
            r.block_height is None,
            r.slot_num is None,
            r.epoch is None,
            r.slot_in_epoch is None,
            r.peers_connected is None,
            r.memory_used is None,
            r.mempool_txs is None,
            r.mempool_bytes is None,
            r.sync_progress is None,
            r.kes_period is None,
            r.kes_remaining is None,
            r.kes_periods_per_cert is None,
            r.uptime_seconds is None,
            r.node_start_time is None,
            r.p2p == (P2PStats { enabled: None, cold_peers: None, warm_peers: None, hot_peers: None }),
    {
        NodeMetrics {
            node_type: NodeType::CardanoNode,
            node_version: None,
            block_height: None,
            slot_num: None,
            epoch: None,
            slot_in_epoch: None,
            density: None,
            tx_processed: None,
            mempool_txs: None,
            mempool_bytes: None,
            peers_connected: None,
            memory_used: None,
            memory_heap: None,
            gc_minor: None,
            gc_major: None,
            forks: None,
            block_delay_s: None,
            blocks_served: None,
            blocks_late: None,
            block_delay_cdf_1s: None,
            block_delay_cdf_3s: None,
            block_delay_cdf_5s: None,
            cpu_ms: None,
            uptime_seconds: None,
            sync_progress: None,
            connected: false,
            raw: RawMetrics::new(),
            kes_period: None,
            kes_remaining: None,
            kes_periods_per_cert: None,
            forging_enabled: None,
            is_leader: None,
            blocks_adopted: None,
            blocks_didnt_adopt: None,
            about_to_lead: None,
            missed_slots: None,
            op_cert_counter_disk: None,
            op_cert_counter_chain: None,
            op_cert_start_kes_period: None,
            p2p: P2PStats { enabled: None, cold_peers: None, warm_peers: None, hot_peers: None },
            node_start_time: None,
            incoming_connections: None,
            outgoing_connections: None,
            full_duplex_connections: None,
            unidirectional_connections: None,
        }
    }
}

/// Look one name up.
fn lk(raw: &RawMetrics, a: &str) -> (r: Option<MetricValue>)
    requires
        raw.wf(),
    ensures
        r == spec_lk(raw@, a@),
{
    raw.get(a)
}

/// Look two names up in priority order.
fn lk2(raw: &RawMetrics, a: &str, b: &str) -> (r: Option<MetricValue>)
    requires
        raw.wf(),
    ensures
        r == spec_lk2(raw@, a@, b@),
{
    match raw.get(a) {
        Some(v) => Some(v),
        None => raw.get(b),
    }
}

/// Look three names up in priority order.
fn lk3(raw: &RawMetrics, a: &str, b: &str, c: &str) -> (r: Option<MetricValue>)
    requires
        raw.wf(),
    ensures
        r == spec_lk3(raw@, a@, b@, c@),
{
    match raw.get(a) {
        Some(v) => Some(v),
        None => lk2(raw, b, c),
    }
}

/// Look four names up in priority order.
fn lk4(raw: &RawMetrics, a: &str, b: &str, c: &str, d: &str) -> (r: Option<MetricValue>)
    requires
        raw.wf(),
    ensures
        r == spec_lk4(raw@, a@, b@, c@, d@),
{
    match raw.get(a) {
        Some(v) => Some(v),
        None => lk3(raw, b, c, d),
    }
}

/// Read a counter or gauge sample as a whole number.
fn as_u64(o: Option<MetricValue>) -> (r: Option<u64>)
    ensures
        r == opt_u64(o),
{
    match o {
        Some(v) => v.to_u64(),
        None => None,
    }
}

/// Read a sample as a flag.
fn as_flag(o: Option<MetricValue>) -> (r: Option<bool>)
    ensures
        r == opt_flag(o),
{
    match o {
        Some(v) => Some(v.gt_zero()),
        None => None,
    }
}

/// Parse an exposition payload into a metrics record, resolving each
/// recognized field by its alias priority, then derive uptime, the
/// peer-total fallback and the sync-progress estimate from the current
/// wall-clock time `now` (Unix seconds).
#[verifier::rlimit(100)]
pub fn parse_prometheus_metrics(text: &str, now: u64) -> (r: NodeMetrics)
    ensures
        ({
            let m = spec_raw_map(text@);
            &&& r.connected == true
            &&& r.raw.wf()
            &&& r.raw@ == m
            &&& r.node_type == spec_node_type(m)
            &&& r.node_version is None
            &&& r.block_height == opt_u64(spec_lk(m, "cardano_node_metrics_blockNum_int"@))
            &&& r.slot_num == opt_u64(spec_lk(m, "cardano_node_metrics_slotNum_int"@))
            &&& r.epoch == opt_u64(spec_lk(m, "cardano_node_metrics_epoch_int"@))
            &&& r.slot_in_epoch == opt_u64(spec_lk(m, "cardano_node_metrics_slotInEpoch_int"@))
            &&& r.density == spec_lk(m, "cardano_node_metrics_density_real"@)
            &&& r.tx_processed == opt_u64(spec_lk3(m,
                    "cardano_node_metrics_txsProcessedNum_int"@,
                    "cardano_node_metrics_txsProcessedNum_counter"@,
                    "cardano_node_metrics_txsProcessedNum"@))
            &&& r.forks == opt_u64(spec_lk3(m,
                    "cardano_node_metrics_forks_int"@,
                    "cardano_node_metrics_forks_counter"@,
                    "cardano_node_metrics_forks"@))
            &&& r.missed_slots == opt_u64(spec_lk2(m,
                    "cardano_node_metrics_slotsMissedNum_int"@,
                    "cardano_node_metrics_slotsMissed_int"@))
            &&& r.memory_used == opt_u64(spec_lk2(m,
                    "cardano_node_metrics_RTS_gcLiveBytes_int"@,
                    "cardano_node_metrics_Mem_resident_int"@))
            &&& r.memory_heap == opt_u64(spec_lk(m, "cardano_node_metrics_RTS_gcHeapBytes_int"@))
            &&& r.gc_minor == opt_u64(spec_lk(m, "cardano_node_metrics_RTS_gcMinorNum_int"@))
            &&& r.gc_major == opt_u64(spec_lk(m, "cardano_node_metrics_RTS_gcMajorNum_int"@))
            &&& r.cpu_ms == (if spec_lk(m, "rts_gc_cpu_ms"@) is Some {
                    opt_u64(spec_lk(m, "rts_gc_cpu_ms"@))
                } else {
                    match spec_lk3(m,
                        "cardano_node_metrics_RTS_cpuNs_int"@,
                        "cardano_node_metrics_RTS_cpu_ns"@,
                        "cardano_node_metrics_RTS_cpuNs"@) {
                        Some(v) => v.spec_to_u64_div(1_000_000),
                        None => None,
                    }
                })
            &&& r.mempool_txs == opt_u64(spec_lk(m, "cardano_node_metrics_txsInMempool_int"@))
            &&& r.mempool_bytes == opt_u64(spec_lk(m, "cardano_node_metrics_mempoolBytes_int"@))
            &&& r.block_delay_s == spec_lk3(m,
                    "cardano_node_metrics_blockfetchclient_blockdelay"@,
                    "cardano_node_metrics_blockfetchclient_blockdelay_s"@,
                    "cardano_node_metrics_blockfetchclient_blockdelay_real"@)
            &&& r.blocks_served == opt_u64(spec_lk4(m,
                    "cardano_node_metrics_served_block_count_int"@,
                    "cardano_node_metrics_served_block_count_counter"@,
                    "cardano_node_metrics_served_block_counter"@,
                    "cardano_node_metrics_served_block_count"@))
            &&& r.blocks_late == opt_u64(spec_lk3(m,
                    "cardano_node_metrics_blockfetchclient_lateblocks"@,
                    "cardano_node_metrics_blockfetchclient_lateblocks_int"@,
                    "cardano_node_metrics_blockfetchclient_lateblocks_counter"@))
            &&& r.block_delay_cdf_1s == spec_lk2(m,
                    "cardano_node_metrics_blockfetchclient_blockdelay_cdfOne"@,
                    "cardano_node_metrics_blockfetchclient_blockdelay_cdfOne_real"@)
            &&& r.block_delay_cdf_3s == spec_lk2(m,
                    "cardano_node_metrics_blockfetchclient_blockdelay_cdfThree"@,
                    "cardano_node_metrics_blockfetchclient_blockdelay_cdfThree_real"@)
            &&& r.block_delay_cdf_5s == spec_lk2(m,
                    "cardano_node_metrics_blockfetchclient_blockdelay_cdfFive"@,
                    "cardano_node_metrics_blockfetchclient_blockdelay_cdfFive_real"@)
            &&& r.node_start_time == opt_u64(spec_lk2(m,
                    "cardano_node_metrics_nodeStartTime_int"@,
                    "cardano_node_metrics_node_start_time_int"@))
            &&& r.incoming_connections == opt_u64(spec_lk(m,
                    "cardano_node_metrics_connectionManager_incomingConns"@))
            &&& r.outgoing_connections == opt_u64(spec_lk(m,
                    "cardano_node_metrics_connectionManager_outgoingConns"@))
            &&& r.full_duplex_connections == opt_u64(spec_lk2(m,
                    "cardano_node_metrics_connectionManager_duplexConns"@,
                    "cardano_node_metrics_connectionManager_fullDuplexConns"@))
            &&& r.unidirectional_connections == opt_u64(spec_lk(m,
                    "cardano_node_metrics_connectionManager_unidirectionalConns"@))
            &&& r.p2p.enabled == opt_flag(spec_lk(m, "cardano_node_metrics_p2p_enabled_int"@))
            &&& r.p2p.cold_peers == opt_u64(spec_lk3(m,
                    "cardano_node_metrics_p2p_coldPeersCount_int"@,
                    "cardano_node_metrics_peerSelection_cold"@,
                    "cardano_node_metrics_peerSelection_Cold_int"@))
            &&& r.p2p.warm_peers == opt_u64(spec_lk3(m,
                    "cardano_node_metrics_p2p_warmPeersCount_int"@,
                    "cardano_node_metrics_peerSelection_warm"@,
                    "cardano_node_metrics_peerSelection_Warm_int"@))
            &&& r.p2p.hot_peers == opt_u64(spec_lk3(m,
                    "cardano_node_metrics_p2p_hotPeersCount_int"@,
                    "cardano_node_metrics_peerSelection_hot"@,
                    "cardano_node_metrics_peerSelection_Hot_int"@))
            &&& r.kes_period == opt_u64(spec_lk(m, "cardano_node_metrics_currentKESPeriod_int"@))
            &&& r.kes_remaining == opt_u64(spec_lk(m,
                    "cardano_node_metrics_remainingKESPeriods_int"@))
            &&& r.kes_periods_per_cert == opt_u64(spec_lk(m,
                    "cardano_node_metrics_operationalCertificateExpiryKESPeriod_int"@))
            &&& r.forging_enabled == opt_flag(spec_lk(m,
                    "cardano_node_metrics_forging_enabled_int"@))
            &&& r.is_leader == opt_flag(spec_lk2(m,
                    "cardano_node_metrics_Forge_node_is_leader_int"@,
                    "cardano_node_metrics_nodeIsLeader_int"@))
            &&& r.blocks_adopted == opt_u64(spec_lk2(m,
                    "cardano_node_metrics_Forge_adopted_int"@,
                    "cardano_node_metrics_blocksForged_int"@))
            &&& r.blocks_didnt_adopt == opt_u64(spec_lk(m,
                    "cardano_node_metrics_Forge_didnt_adopt_int"@))
            &&& r.about_to_lead == opt_u64(spec_lk(m,
                    "cardano_node_metrics_Forge_forge_about_to_lead_int"@))
            &&& r.op_cert_start_kes_period == opt_u64(spec_lk(m,
                    "cardano_node_metrics_operationalCertificateStartKESPeriod_int"@))
            &&& r.op_cert_counter_disk == opt_u64(spec_lk(m,
                    "cardano_node_metrics_opCertCounterOnDisk_int"@))
            &&& r.op_cert_counter_chain == opt_u64(spec_lk(m,
                    "cardano_node_metrics_opCertCounterOnChain_int"@))
            &&& r.uptime_seconds == spec_uptime(
                    opt_u64(spec_lk2(m,
                        "cardano_node_metrics_nodeStartTime_int"@,
                        "cardano_node_metrics_node_start_time_int"@)),
                    (match spec_lk2(m,
                        "cardano_node_metrics_upTime_ns"@,
                        "cardano_node_metrics_Stat_startTime"@) {
                        Some(v) => v.spec_to_u64_div(1_000_000_000),
                        None => None,
                    }),
                    now)
            &&& r.peers_connected == spec_peers_total(
                    opt_u64(spec_lk(m, "cardano_node_metrics_connectedPeers_int"@)),
                    r.p2p.cold_peers, r.p2p.warm_peers, r.p2p.hot_peers)
            &&& r.sync_progress == spec_sync_progress(r.slot_num, now)
        }),
{
    let cs = crate::text::chars_of(text);
    let raw = build_raw_map(&cs);
    let mut m = NodeMetrics::default();
    m.connected = true;

    m.block_height = as_u64(lk(&raw, "cardano_node_metrics_blockNum_int"));
    m.slot_num = as_u64(lk(&raw, "cardano_node_metrics_slotNum_int"));
    m.epoch = as_u64(lk(&raw, "cardano_node_metrics_epoch_int"));
    m.slot_in_epoch = as_u64(lk(&raw, "cardano_node_metrics_slotInEpoch_int"));
    m.density = lk(&raw, "cardano_node_metrics_density_real");
    m.tx_processed = as_u64(lk3(&raw,
        "cardano_node_metrics_txsProcessedNum_int",
        "cardano_node_metrics_txsProcessedNum_counter",
        "cardano_node_metrics_txsProcessedNum"));
    m.forks = as_u64(lk3(&raw,
        "cardano_node_metrics_forks_int",
        "cardano_node_metrics_forks_counter",
        "cardano_node_metrics_forks"));
    m.missed_slots = as_u64(lk2(&raw,
        "cardano_node_metrics_slotsMissedNum_int",
        "cardano_node_metrics_slotsMissed_int"));
    m.memory_used = as_u64(lk2(&raw,
        "cardano_node_metrics_RTS_gcLiveBytes_int",
        "cardano_node_metrics_Mem_resident_int"));
    m.memory_heap = as_u64(lk(&raw, "cardano_node_metrics_RTS_gcHeapBytes_int"));
    m.gc_minor = as_u64(lk(&raw, "cardano_node_metrics_RTS_gcMinorNum_int"));
    m.gc_major = as_u64(lk(&raw, "cardano_node_metrics_RTS_gcMajorNum_int"));
    m.cpu_ms = match lk(&raw, "rts_gc_cpu_ms") {
        Some(v) => v.to_u64(),
        None => {
            match lk3(&raw,
                "cardano_node_metrics_RTS_cpuNs_int",
                "cardano_node_metrics_RTS_cpu_ns",
                "cardano_node_metrics_RTS_cpuNs") {
                Some(v) => v.to_u64_div(1_000_000),
                None => None,
            }
        },
    };
    m.mempool_txs = as_u64(lk(&raw, "cardano_node_metrics_txsInMempool_int"));
    m.mempool_bytes = as_u64(lk(&raw, "cardano_node_metrics_mempoolBytes_int"));
    m.block_delay_s = lk3(&raw,
        "cardano_node_metrics_blockfetchclient_blockdelay",
        "cardano_node_metrics_blockfetchclient_blockdelay_s",
        "cardano_node_metrics_blockfetchclient_blockdelay_real");
    m.blocks_served = as_u64(lk4(&raw,
        "cardano_node_metrics_served_block_count_int",
        "cardano_node_metrics_served_block_count_counter",
        "cardano_node_metrics_served_block_counter",
        "cardano_node_metrics_served_block_count"));
    m.blocks_late = as_u64(lk3(&raw,
        "cardano_node_metrics_blockfetchclient_lateblocks",
        "cardano_node_metrics_blockfetchclient_lateblocks_int",
        "cardano_node_metrics_blockfetchclient_lateblocks_counter"));
    m.block_delay_cdf_1s = lk2(&raw,
        "cardano_node_metrics_blockfetchclient_blockdelay_cdfOne",
        "cardano_node_metrics_blockfetchclient_blockdelay_cdfOne_real");
    m.block_delay_cdf_3s = lk2(&raw,
        "cardano_node_metrics_blockfetchclient_blockdelay_cdfThree",
        "cardano_node_metrics_blockfetchclient_blockdelay_cdfThree_real");
    m.block_delay_cdf_5s = lk2(&raw,
        "cardano_node_metrics_blockfetchclient_blockdelay_cdfFive",
        "cardano_node_metrics_blockfetchclient_blockdelay_cdfFive_real");
    m.node_start_time = as_u64(lk2(&raw,
        "cardano_node_metrics_nodeStartTime_int",
        "cardano_node_metrics_node_start_time_int"));
    let uptime_ns = match lk2(&raw,
        "cardano_node_metrics_upTime_ns",
        "cardano_node_metrics_Stat_startTime") {
        Some(v) => v.to_u64_div(1_000_000_000),
        None => None,
    };
    m.incoming_connections = as_u64(lk(&raw,
        "cardano_node_metrics_connectionManager_incomingConns"));
    m.outgoing_connections = as_u64(lk(&raw,
        "cardano_node_metrics_connectionManager_outgoingConns"));
    m.full_duplex_connections = as_u64(lk2(&raw,
        "cardano_node_metrics_connectionManager_duplexConns",
        "cardano_node_metrics_connectionManager_fullDuplexConns"));
    m.unidirectional_connections = as_u64(lk(&raw,
        "cardano_node_metrics_connectionManager_unidirectionalConns"));
    m.p2p.enabled = as_flag(lk(&raw, "cardano_node_metrics_p2p_enabled_int"));
    m.p2p.cold_peers = as_u64(lk3(&raw,
        "cardano_node_metrics_p2p_coldPeersCount_int",
        "cardano_node_metrics_peerSelection_cold",
        "cardano_node_metrics_peerSelection_Cold_int"));
    m.p2p.warm_peers = as_u64(lk3(&raw,
        "cardano_node_metrics_p2p_warmPeersCount_int",
        "cardano_node_metrics_peerSelection_warm",
        "cardano_node_metrics_peerSelection_Warm_int"));
    m.p2p.hot_peers = as_u64(lk3(&raw,
        "cardano_node_metrics_p2p_hotPeersCount_int",
        "cardano_node_metrics_peerSelection_hot",
        "cardano_node_metrics_peerSelection_Hot_int"));
    m.kes_period = as_u64(lk(&raw, "cardano_node_metrics_currentKESPeriod_int"));
    m.kes_remaining = as_u64(lk(&raw, "cardano_node_metrics_remainingKESPeriods_int"));
    m.kes_periods_per_cert = as_u64(lk(&raw,
        "cardano_node_metrics_operationalCertificateExpiryKESPeriod_int"));
    m.forging_enabled = as_flag(lk(&raw, "cardano_node_metrics_forging_enabled_int"));
    m.is_leader = as_flag(lk2(&raw,
        "cardano_node_metrics_Forge_node_is_leader_int",
        "cardano_node_metrics_nodeIsLeader_int"));
    m.blocks_adopted = as_u64(lk2(&raw,
        "cardano_node_metrics_Forge_adopted_int",
        "cardano_node_metrics_blocksForged_int"));
    m.blocks_didnt_adopt = as_u64(lk(&raw, "cardano_node_metrics_Forge_didnt_adopt_int"));
    m.about_to_lead = as_u64(lk(&raw, "cardano_node_metrics_Forge_forge_about_to_lead_int"));
    m.op_cert_start_kes_period = as_u64(lk(&raw,
        "cardano_node_metrics_operationalCertificateStartKESPeriod_int"));
    m.op_cert_counter_disk = as_u64(lk(&raw, "cardano_node_metrics_opCertCounterOnDisk_int"));
    m.op_cert_counter_chain = as_u64(lk(&raw, "cardano_node_metrics_opCertCounterOnChain_int"));
    m.node_type = detect_node_type(&raw);

    // derived values
    m.uptime_seconds = match m.node_start_time {
        Some(st) => if now >= st { Some(now - st) } else { uptime_ns },
        None => uptime_ns,
    };
    let direct_peers = as_u64(lk(&raw, "cardano_node_metrics_connectedPeers_int"));
    m.peers_connected = match direct_peers {
        Some(v) => Some(v),
        None => {
            let cold = match m.p2p.cold_peers { Some(c) => c, None => 0 };
            let warm = match m.p2p.warm_peers { Some(w) => w, None => 0 };
            let hot = match m.p2p.hot_peers { Some(h) => h, None => 0 };
            let s: u128 = cold as u128 + warm as u128 + hot as u128;
            if s > 0 {
                if s > u64::MAX as u128 { Some(u64::MAX) } else { Some(s as u64) }
            } else {
                None
            }
        },
    };
    m.sync_progress = match m.slot_num {
        Some(sl) => {
            if now == 0 {
                None
            } else {
                let expected: u64 = if now > 1596059091 {
                    4492800 + (now - 1596059091)
                } else if now >= 1506203091 {
                    (now - 1506203091) / 20
                } else {
                    0
                };
                if expected == 0 {
                    None
                } else {
                    let hp: u128 = sl as u128 * 10000 / expected as u128;
                    if hp > 10000 { Some(10000) } else { Some(hp as u64) }
                }
            }
        },
        None => None,
    };
    m.raw = raw;
    m
}

/// The alias-priority law: when two aliases of one semantic field are
/// both present in a payload, the higher-priority alias's value wins,
/// regardless of the order of their lines — field resolution reads the
/// payload's raw mapping, in which line order is immaterial, and takes
/// the first present alias of the field's fixed priority list. In
/// particular a fallback alias (the lower name of a two-name list) only
/// fills a field that its primary alias left unset.
pub proof fn lemma_alias_priority(m: Map<Seq<char>, MetricValue>, hi: Seq<char>, lo: Seq<char>)
    ensures
        m.contains_key(hi) ==> spec_lk2(m, hi, lo) == Some(m[hi]),
        !m.contains_key(hi) && m.contains_key(lo) ==> spec_lk2(m, hi, lo) == Some(m[lo]),
{
}

} // verus!
