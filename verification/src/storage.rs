//! Durable, date-partitioned metric snapshots.
//!
//! A reduced snapshot of each accepted poll is appended, at most once
//! per sampling interval, to a compressed daily file: one file per
//! (node, year, month, day) under `history/<node>/<YYYY>/<MM>/<DD>.json.gz`
//! below the base directory. The daily file holds a JSON object with the
//! node name and the day's snapshots; absent fields are `null`, never
//! zero. This module plans every store operation and encodes and decodes
//! the file bytes; the caller moves bytes to and from disk.

use std::io::Read;
use std::io::Write;

use vstd::prelude::*;
use vstd::multiset::Multiset;
use crate::metrics::NodeMetrics;
use crate::text::{dec_digits, dec_digits_padded, digits_value, push_u64, push_u64_padded,
    spec_sanitize, sanitize_node_name, is_path_safe};
use crate::dates::{spec_iso8601, timestamp_to_iso8601, spec_timestamp_to_date,
    timestamp_to_date, spec_date_to_timestamp, date_to_timestamp};

verus! {

/// Days a daily file is kept before cleanup removes it.
pub const DEFAULT_RETENTION_DAYS: u64 = 30;

/// Minimum seconds between two saved samples.
pub const MIN_SAMPLE_INTERVAL_SECS: u64 = 3600;

/// A single reduced snapshot, tagged with its Unix timestamp. Absent
/// fields stay absent: a missing sample is never stored as zero.
#[derive(Debug, Clone, Copy, PartialEq, Eq, Structural)]
pub struct MetricSnapshot {
    /// When the snapshot was taken, Unix seconds.
    pub timestamp: u64,
    /// Block height.
    pub block_height: Option<u64>,
    /// Slot number.
    pub slot_num: Option<u64>,
    /// Epoch.
    pub epoch: Option<u64>,
    /// Slot within the epoch.
    pub slot_in_epoch: Option<u64>,
    /// Connected peers.
    pub peers_connected: Option<u64>,
    /// Memory used, bytes.
    pub memory_used: Option<u64>,
    /// Transactions in the mempool.
    pub mempool_txs: Option<u64>,
    /// Mempool size, bytes.
    pub mempool_bytes: Option<u64>,
    /// Sync progress, hundredths of a percent.
    pub sync_progress: Option<u64>,
    /// Key-evolving-signature period.
    pub kes_period: Option<u64>,
    /// Key-evolving-signature periods remaining.
    pub kes_remaining: Option<u64>,
}

/// The snapshot a record reduces to at a given time.
pub open spec fn spec_snapshot_of(m: NodeMetrics, now: u64) -> MetricSnapshot {
    MetricSnapshot {
        timestamp: now,
        block_height: m.block_height,
        slot_num: m.slot_num,
        epoch: m.epoch,
        slot_in_epoch: m.slot_in_epoch,
        peers_connected: m.peers_connected,
        memory_used: m.memory_used,
        mempool_txs: m.mempool_txs,
        mempool_bytes: m.mempool_bytes,
        sync_progress: m.sync_progress,
        kes_period: m.kes_period,
        kes_remaining: m.kes_remaining,
    }
}

impl MetricSnapshot {
    /// Reduce a metrics record to a snapshot taken at `now`.
    pub fn from_metrics(metrics: &NodeMetrics, now: u64) -> (r: Self)
        ensures
            r == spec_snapshot_of(*metrics, now),
    {
        MetricSnapshot {
            timestamp: now,
            block_height: metrics.block_height,
            slot_num: metrics.slot_num,
            epoch: metrics.epoch,
            slot_in_epoch: metrics.slot_in_epoch,
            peers_connected: metrics.peers_connected,
            memory_used: metrics.memory_used,
            mempool_txs: metrics.mempool_txs,
            mempool_bytes: metrics.mempool_bytes,
            sync_progress: metrics.sync_progress,
            kes_period: metrics.kes_period,
            kes_remaining: metrics.kes_remaining,
        }
    }
}

/// One day's snapshots for one node.
#[derive(Debug, Clone)]
pub struct DailySnapshots {
    /// The node the file belongs to (sanitized name).
    pub node_name: String,
    /// The day's snapshots, in the order they were appended.
    pub snapshots: Vec<MetricSnapshot>,
}

/// An optional value as a CSV cell: absent is empty, never zero.
pub open spec fn spec_csv_opt(v: Option<u64>) -> Seq<char> {
    match v {
        Some(x) => dec_digits(x as nat),
        None => Seq::empty(),
    }
}

/// A sync-progress value (hundredths of a percent) as a CSV cell with
/// two decimal places; absent is empty.
pub open spec fn spec_csv_progress(v: Option<u64>) -> Seq<char> {
    match v {
        Some(p) => dec_digits((p / 100) as nat) + seq!['.'] + dec_digits_padded((p % 100) as nat, 2),
        None => Seq::empty(),
    }
}

/// The CSV header row.
pub open spec fn spec_csv_header() -> Seq<char> {
    "timestamp,datetime,block_height,slot_num,epoch,slot_in_epoch,peers_connected,memory_used_bytes,mempool_txs,mempool_bytes,sync_progress,kes_period,kes_remaining"@
}

/// The CSV row of one snapshot.
pub open spec fn spec_csv_row(s: MetricSnapshot) -> Seq<char> {
    dec_digits(s.timestamp as nat) + seq![','] + spec_iso8601(s.timestamp as nat) + seq![',']
        + spec_csv_opt(s.block_height) + seq![',']
        + spec_csv_opt(s.slot_num) + seq![',']
        + spec_csv_opt(s.epoch) + seq![',']
        + spec_csv_opt(s.slot_in_epoch) + seq![',']
        + spec_csv_opt(s.peers_connected) + seq![',']
        + spec_csv_opt(s.memory_used) + seq![',']
        + spec_csv_opt(s.mempool_txs) + seq![',']
        + spec_csv_opt(s.mempool_bytes) + seq![',']
        + spec_csv_progress(s.sync_progress) + seq![',']
        + spec_csv_opt(s.kes_period) + seq![',']
        + spec_csv_opt(s.kes_remaining)
}

/// Append an optional value as a CSV cell.
fn push_csv_opt(out: &mut String, v: Option<u64>)
    ensures
        final(out)@ == old(out)@ + spec_csv_opt(v),
{
    match v {
        Some(x) => {
            push_u64(out, x);
        },
        None => {
            proof {
                assert(old(out)@ + spec_csv_opt(v) =~= old(out)@);
            }
        },
    }
}

/// Render the CSV export of a snapshot list: the header row, then one
/// row per snapshot in order, absent fields as empty cells.
#[verifier::rlimit(100)]
pub fn csv_rows(snapshots: &Vec<MetricSnapshot>) -> (rows: Vec<String>)
    ensures
        rows@.len() == snapshots@.len() + 1,
        rows@[0]@ == spec_csv_header(),
        forall|i: int| 0 <= i < snapshots@.len() ==> rows@[i + 1]@ == spec_csv_row(snapshots@[i]),
{
    let mut rows: Vec<String> = Vec::new();
    let mut header = String::new();
    header.append("timestamp,datetime,block_height,slot_num,epoch,slot_in_epoch,peers_connected,memory_used_bytes,mempool_txs,mempool_bytes,sync_progress,kes_period,kes_remaining");
    proof {
        assert(header@ =~= spec_csv_header());
    }
    rows.push(header);
    let n = snapshots.len();
    let mut k: usize = 0;
    while k < n
        invariant
            0 <= k <= n,
            n == snapshots@.len(),
            rows@.len() == k + 1,
            rows@[0]@ == spec_csv_header(),
            forall|i: int| 0 <= i < k ==> rows@[i + 1]@ == spec_csv_row(snapshots@[i]),
        decreases n - k,
    {
        let row = csv_row(&snapshots[k]);
        rows.push(row);
        k = k + 1;
    }
    rows
}

/// What gzip compression makes of a byte sequence. Compression is a
/// function of the input alone: the encoder writes a fixed header with
/// no timestamp.
pub uninterp spec fn gzip_of(b: Seq<u8>) -> Seq<u8>;

/// What gzip decompression makes of a byte sequence: the original
/// bytes, or nothing for corrupt input.
pub uninterp spec fn gunzip_of(b: Seq<u8>) -> Option<Seq<u8>>;

/// Relies on flate2's `GzEncoder`: compresses the bytes into a gzip
/// stream that decompresses back to them; writing into a `Vec` cannot
/// fail.
#[verifier::external_body]
fn gzip_compress(data: &Vec<u8>) -> (r: Vec<u8>)
    ensures
        r@ == gzip_of(data@),
        gunzip_of(r@) == Some(data@),
{
    let mut enc = flate2::write::GzEncoder::new(Vec::new(), flate2::Compression::default());
    enc.write_all(data).expect("writing to memory cannot fail");
    enc.finish().expect("writing to memory cannot fail")
}

/// Relies on flate2's `GzDecoder`: decompresses a gzip stream, failing
/// on corrupt input.
#[verifier::external_body]
fn gzip_decompress(data: &Vec<u8>) -> (r: Option<Vec<u8>>)
    ensures
        match r {
            Some(v) => gunzip_of(data@) == Some(v@),
            None => gunzip_of(data@) is None,
        },
{
    let mut out = Vec::new();
    let mut dec = flate2::read::GzDecoder::new(&data[..]);
    match dec.read_to_end(&mut out) {
        Ok(_) => Some(out),
        Err(_) => None,
    }
}

/// Characters truncated to bytes; exact for the ASCII text the codec
/// produces.
pub open spec fn ascii_bytes(s: Seq<char>) -> Seq<u8> {
    s.map(|i: int, c: char| c as u8)
}

/// Bytes read as characters.
pub open spec fn bytes_chars(b: Seq<u8>) -> Seq<char> {
    b.map(|i: int, v: u8| v as char)
}

/// An optional value in the daily file: a number or `null`.
pub open spec fn spec_json_opt(v: Option<u64>) -> Seq<char> {
    match v {
        Some(x) => dec_digits(x as nat),
        None => "null"@,
    }
}

/// The opening third of a rendered snapshot: timestamp and chain position.
pub open spec fn spec_json_snap_a(s: MetricSnapshot) -> Seq<char> {
    "{\"timestamp\":"@ + dec_digits(s.timestamp as nat)
        + ",\"block_height\":"@ + spec_json_opt(s.block_height)
        + ",\"slot_num\":"@ + spec_json_opt(s.slot_num)
        + ",\"epoch\":"@ + spec_json_opt(s.epoch)
        + ",\"slot_in_epoch\":"@ + spec_json_opt(s.slot_in_epoch)
}

/// The middle third: resource usage.
pub open spec fn spec_json_snap_b(s: MetricSnapshot) -> Seq<char> {
    ",\"peers_connected\":"@ + spec_json_opt(s.peers_connected)
        + ",\"memory_used\":"@ + spec_json_opt(s.memory_used)
        + ",\"mempool_txs\":"@ + spec_json_opt(s.mempool_txs)
        + ",\"mempool_bytes\":"@ + spec_json_opt(s.mempool_bytes)
}

/// The closing third: sync estimate and key expiry.
pub open spec fn spec_json_snap_c(s: MetricSnapshot) -> Seq<char> {
    ",\"sync_progress\":"@ + spec_json_opt(s.sync_progress)
        + ",\"kes_period\":"@ + spec_json_opt(s.kes_period)
        + ",\"kes_remaining\":"@ + spec_json_opt(s.kes_remaining)
        + seq!['}']
}

/// One snapshot in the daily file.
pub open spec fn spec_json_snapshot(s: MetricSnapshot) -> Seq<char> {
    spec_json_snap_a(s) + spec_json_snap_b(s) + spec_json_snap_c(s)
}

/// The snapshots array body: comma-separated snapshots.
pub open spec fn spec_json_snapshots(l: Seq<MetricSnapshot>) -> Seq<char>
    decreases l.len(),
{
    if l.len() == 0 {
        Seq::empty()
    } else if l.len() == 1 {
        spec_json_snapshot(l.first())
    } else {
        spec_json_snapshot(l.first()) + seq![','] + spec_json_snapshots(l.drop_first())
    }
}

/// The whole daily file, before compression.
pub open spec fn spec_json_daily(name: Seq<char>, l: Seq<MetricSnapshot>) -> Seq<char> {
    "{\"node_name\":\""@ + name + "\",\"snapshots\":["@ + spec_json_snapshots(l) + "]}"@
}

/// Append an optional value as a number or `null`.
fn json_push_opt(out: &mut String, v: Option<u64>)
    ensures
        final(out)@ == old(out)@ + spec_json_opt(v),
{
    match v {
        Some(x) => {
            push_u64(out, x);
        },
        None => {
            out.append("null");
        },
    }
}

/// Append the rendering of one snapshot.
#[verifier::rlimit(100)]
fn json_push_snapshot(out: &mut String, s: &MetricSnapshot)
    ensures
        final(out)@ == old(out)@ + spec_json_snapshot(*s),
{
    out.append("{\"timestamp\":");
    push_u64(out, s.timestamp);
    out.append(",\"block_height\":");
    json_push_opt(out, s.block_height);
    out.append(",\"slot_num\":");
    json_push_opt(out, s.slot_num);
    out.append(",\"epoch\":");
    json_push_opt(out, s.epoch);
    out.append(",\"slot_in_epoch\":");
    json_push_opt(out, s.slot_in_epoch);
    proof {
        assert(out@ =~= old(out)@ + spec_json_snap_a(*s));
    }
    let ghost first_part = out@;
    out.append(",\"peers_connected\":");
    json_push_opt(out, s.peers_connected);
    out.append(",\"memory_used\":");
    json_push_opt(out, s.memory_used);
    out.append(",\"mempool_txs\":");
    json_push_opt(out, s.mempool_txs);
    out.append(",\"mempool_bytes\":");
    json_push_opt(out, s.mempool_bytes);
    proof {
        assert(out@ =~= first_part + spec_json_snap_b(*s));
    }
    let ghost second_part = out@;
    out.append(",\"sync_progress\":");
    json_push_opt(out, s.sync_progress);
    out.append(",\"kes_period\":");
    json_push_opt(out, s.kes_period);
    out.append(",\"kes_remaining\":");
    json_push_opt(out, s.kes_remaining);
    out.push('}');
    proof {
        assert(final(out)@ =~= second_part + spec_json_snap_c(*s));
        assert(final(out)@ =~= old(out)@ + spec_json_snapshot(*s));
    }
}

/// Render the daily file as JSON text.
#[verifier::rlimit(100)]
#[verifier::spinoff_prover]
pub fn render_daily_json(name: &str, snapshots: &Vec<MetricSnapshot>) -> (r: String)
    ensures
        r@ == spec_json_daily(name@, snapshots@),
{
    let mut out = String::new();
    out.append("{\"node_name\":\"");
    out.append(name);
    out.append("\",\"snapshots\":[");
    let ghost head = out@;
    let n = snapshots.len();
    let mut k: usize = 0;
    while k < n
        invariant
            0 <= k <= n,
            n == snapshots@.len(),
            head == "{\"node_name\":\""@ + name@ + "\",\"snapshots\":["@,
            out@ == head + spec_json_snapshots(snapshots@.take(k as int))
                + if k > 0 && k < n { seq![','] } else { Seq::<char>::empty() },
        decreases n - k,
    {
        json_push_snapshot(&mut out, &snapshots[k]);
        if k + 1 < n {
            out.push(',');
        }
        proof {
            lemma_json_snapshots_take(snapshots@, k as int);
            if k + 1 < n {
                assert(out@ =~= head + spec_json_snapshots(snapshots@.take(k + 1)) + seq![',']);
            } else {
                assert(out@ =~= head + spec_json_snapshots(snapshots@.take(k + 1)));
            }
        }
        k = k + 1;
    }
    out.append("]}");
    proof {
        assert(snapshots@.take(n as int) =~= snapshots@);
        assert(out@ =~= spec_json_daily(name@, snapshots@));
    }
    out
}

/// Extending the rendered list by one snapshot appends a comma (when the
/// list was not empty) and its rendering.
proof fn lemma_json_snapshots_take(l: Seq<MetricSnapshot>, k: int)
    requires
        0 <= k < l.len(),
    ensures
        spec_json_snapshots(l.take(k + 1)) == if k == 0 {
            spec_json_snapshot(l[0])
        } else {
            spec_json_snapshots(l.take(k)) + seq![','] + spec_json_snapshot(l[k])
        },
    decreases k,
{
    if k == 0 {
        assert(l.take(1).len() == 1);
        assert(l.take(1).first() == l[0]);
    } else {
        lemma_json_snapshots_rest(l.take(k + 1));
        assert(l.take(k + 1).drop_last() =~= l.take(k));
        assert(l.take(k + 1).last() == l[k]);
    }
}

/// The rendered list splits at its last element.
#[verifier::rlimit(100)]
proof fn lemma_json_snapshots_rest(l: Seq<MetricSnapshot>)
    requires
        l.len() >= 2,
    ensures
        spec_json_snapshots(l) == spec_json_snapshots(l.drop_last()) + seq![',']
            + spec_json_snapshot(l.last()),
    decreases l.len(),
{
    if l.len() == 2 {
        assert(l.drop_first().len() == 1);
        assert(l.drop_first().first() == l.last());
        assert(l.drop_last().len() == 1);
        assert(l.drop_last().first() == l.first());
        assert(spec_json_snapshots(l.drop_last()) == spec_json_snapshot(l.first()));
        assert(spec_json_snapshots(l)
            == spec_json_snapshot(l.first()) + seq![','] + spec_json_snapshots(l.drop_first()));
        assert(spec_json_snapshots(l.drop_first()) == spec_json_snapshot(l.drop_first().first()));
        assert(spec_json_snapshots(l) =~= spec_json_snapshots(l.drop_last()) + seq![',']
            + spec_json_snapshot(l.last()));
    } else {
        lemma_json_snapshots_rest(l.drop_first());
        assert(l.drop_first().drop_last() =~= l.drop_last().drop_first());
        assert(l.drop_first().last() == l.last());
        assert(l.drop_last().len() >= 2);
        assert(spec_json_snapshots(l.drop_last())
            == spec_json_snapshot(l.drop_last().first()) + seq![',']
                + spec_json_snapshots(l.drop_last().drop_first()));
        assert(l.drop_last().first() == l.first());
        assert(spec_json_snapshots(l)
            =~= spec_json_snapshots(l.drop_last()) + seq![','] + spec_json_snapshot(l.last()));
    }
}

/// Turn rendered text into file bytes.
fn string_to_bytes(s: &String) -> (r: Vec<u8>)
    ensures
        r@ == ascii_bytes(s@),
{
    let cs = crate::text::chars_of(s.as_str());
    let mut out: Vec<u8> = Vec::new();
    let n = cs.len();
    let mut k: usize = 0;
    while k < n
        invariant
            0 <= k <= n,
            n == cs@.len(),
            cs@ == s@,
            out@ == ascii_bytes(s@).take(k as int),
        decreases n - k,
    {
        out.push(cs[k] as u8);
        proof {
            assert(out@ =~= ascii_bytes(s@).take(k + 1));
        }
        k = k + 1;
    }
    proof {
        assert(ascii_bytes(s@).take(n as int) =~= ascii_bytes(s@));
    }
    out
}

/// Encode a day's snapshots as compressed file bytes.
pub fn encode_daily_file(name: &str, snapshots: &Vec<MetricSnapshot>) -> (r: Vec<u8>)
    ensures
        r@ == gzip_of(ascii_bytes(spec_json_daily(name@, snapshots@))),
        gunzip_of(r@) == Some(ascii_bytes(spec_json_daily(name@, snapshots@))),
{
    let json = render_daily_json(name, snapshots);
    let bytes = string_to_bytes(&json);
    gzip_compress(&bytes)
}

/// A literal expected at position `i`; consumed when present.
pub open spec fn spec_expect(t: Seq<char>, i: int, lit: Seq<char>) -> Option<int> {
    if 0 <= i && i + lit.len() <= t.len() && t.subrange(i, i + lit.len()) == lit {
        Some(i + lit.len())
    } else {
        None
    }
}

/// A canonical decimal number at position `i`: at least one digit, no
/// leading zero (except a lone zero), fitting a `u64`.
pub open spec fn spec_parse_json_u64(t: Seq<char>, i: int) -> Option<(u64, int)> {
    if !(0 <= i <= t.len()) {
        None
    } else {
        let j = crate::value::digits_end(t, i);
        if j == i {
            None
        } else if t[i] == '0' && j > i + 1 {
            None
        } else if digits_value(t.subrange(i, j)) > u64::MAX {
            None
        } else {
            Some((digits_value(t.subrange(i, j)) as u64, j))
        }
    }
}

/// An optional value at position `i`: `null` or a number.
pub open spec fn spec_parse_json_opt(t: Seq<char>, i: int) -> Option<(Option<u64>, int)> {
    match spec_expect(t, i, "null"@) {
        Some(j) => Some((None, j)),
        None => match spec_parse_json_u64(t, i) {
            Some(p) => Some((Some(p.0), p.1)),
            None => None,
        },
    }
}

/// A keyed optional field: the key literal, then the value.
pub open spec fn spec_parse_json_field(t: Seq<char>, i: int, key: Seq<char>)
    -> Option<(Option<u64>, int)> {
    match spec_expect(t, i, key) {
        Some(j) => spec_parse_json_opt(t, j),
        None => None,
    }
}

/// One snapshot object at position `i`, with the exact keys and order
/// the encoder writes.
#[verifier::opaque]
pub open spec fn spec_parse_snapshot(t: Seq<char>, i: int) -> Option<(MetricSnapshot, int)> {
    match spec_expect(t, i, "{\"timestamp\":"@) {
        None => None,
        Some(j0) => match spec_parse_json_u64(t, j0) {
            None => None,
            Some((ts, j1)) => match spec_parse_json_field(t, j1, ",\"block_height\":"@) {
                None => None,
                Some((block_height, j2)) => match spec_parse_json_field(t, j2, ",\"slot_num\":"@) {
                    None => None,
                    Some((slot_num, j3)) => match spec_parse_json_field(t, j3, ",\"epoch\":"@) {
                        None => None,
                        Some((epoch, j4)) => match spec_parse_json_field(t, j4, ",\"slot_in_epoch\":"@) {
                            None => None,
                            Some((slot_in_epoch, j5)) => match spec_parse_json_field(t, j5, ",\"peers_connected\":"@) {
                                None => None,
                                Some((peers_connected, j6)) => match spec_parse_json_field(t, j6, ",\"memory_used\":"@) {
                                    None => None,
                                    Some((memory_used, j7)) => match spec_parse_json_field(t, j7, ",\"mempool_txs\":"@) {
                                        None => None,
                                        Some((mempool_txs, j8)) => match spec_parse_json_field(t, j8, ",\"mempool_bytes\":"@) {
                                            None => None,
                                            Some((mempool_bytes, j9)) => match spec_parse_json_field(t, j9, ",\"sync_progress\":"@) {
                                                None => None,
                                                Some((sync_progress, j10)) => match spec_parse_json_field(t, j10, ",\"kes_period\":"@) {
                                                    None => None,
                                                    Some((kes_period, j11)) => match spec_parse_json_field(t, j11, ",\"kes_remaining\":"@) {
                                                        None => None,
                                                        Some((kes_remaining, j12)) => match spec_expect(t, j12, "}"@) {
                                                            None => None,
                                                            Some(j13) => Some((MetricSnapshot {
                                                                timestamp: ts,
                                                                block_height,
                                                                slot_num,
                                                                epoch,
                                                                slot_in_epoch,
                                                                peers_connected,
                                                                memory_used,
                                                                mempool_txs,
                                                                mempool_bytes,
                                                                sync_progress,
                                                                kes_period,
                                                                kes_remaining,
                                                            }, j13)),
                                                        },
                                                    },
                                                },
                                            },
                                        },
                                    },
                                },
                            },
                        },
                    },
                },
            },
        },
    }
}

/// A parsed number spans a non-empty range of the text.
proof fn lemma_parse_json_u64_bounds(t: Seq<char>, i: int)
    requires
        spec_parse_json_u64(t, i) is Some,
    ensures
        i < spec_parse_json_u64(t, i)->Some_0.1 <= t.len(),
{
    crate::value::lemma_digits_end_bounds(t, i);
}

/// A parsed optional value stays within the text.
proof fn lemma_parse_json_opt_bounds(t: Seq<char>, i: int)
    requires
        spec_parse_json_opt(t, i) is Some,
    ensures
        i <= spec_parse_json_opt(t, i)->Some_0.1 <= t.len(),
{
    if spec_expect(t, i, "null"@) is None {
        lemma_parse_json_u64_bounds(t, i);
    }
}

/// A parsed field stays within the text.
proof fn lemma_parse_json_field_bounds(t: Seq<char>, i: int, key: Seq<char>)
    requires
        spec_parse_json_field(t, i, key) is Some,
    ensures
        i <= spec_parse_json_field(t, i, key)->Some_0.1 <= t.len(),
{
    let j = spec_expect(t, i, key)->Some_0;
    lemma_parse_json_opt_bounds(t, j);
}

/// A parsed snapshot spans a non-empty range of the text.
proof fn lemma_parse_snapshot_bounds(t: Seq<char>, i: int)
    requires
        spec_parse_snapshot(t, i) is Some,
    ensures
        i < spec_parse_snapshot(t, i)->Some_0.1 <= t.len(),
{
    reveal(spec_parse_snapshot);
    let j0 = spec_expect(t, i, "{\"timestamp\":"@)->Some_0;
    lemma_parse_json_u64_bounds(t, j0);
    let j1 = spec_parse_json_u64(t, j0)->Some_0.1;
    lemma_parse_json_field_bounds(t, j1, ",\"block_height\":"@);
    let j2 = spec_parse_json_field(t, j1, ",\"block_height\":"@)->Some_0.1;
    lemma_parse_json_field_bounds(t, j2, ",\"slot_num\":"@);
    let j3 = spec_parse_json_field(t, j2, ",\"slot_num\":"@)->Some_0.1;
    lemma_parse_json_field_bounds(t, j3, ",\"epoch\":"@);
    let j4 = spec_parse_json_field(t, j3, ",\"epoch\":"@)->Some_0.1;
    lemma_parse_json_field_bounds(t, j4, ",\"slot_in_epoch\":"@);
    let j5 = spec_parse_json_field(t, j4, ",\"slot_in_epoch\":"@)->Some_0.1;
    lemma_parse_json_field_bounds(t, j5, ",\"peers_connected\":"@);
    let j6 = spec_parse_json_field(t, j5, ",\"peers_connected\":"@)->Some_0.1;
    lemma_parse_json_field_bounds(t, j6, ",\"memory_used\":"@);
    let j7 = spec_parse_json_field(t, j6, ",\"memory_used\":"@)->Some_0.1;
    lemma_parse_json_field_bounds(t, j7, ",\"mempool_txs\":"@);
    let j8 = spec_parse_json_field(t, j7, ",\"mempool_txs\":"@)->Some_0.1;
    lemma_parse_json_field_bounds(t, j8, ",\"mempool_bytes\":"@);
    let j9 = spec_parse_json_field(t, j8, ",\"mempool_bytes\":"@)->Some_0.1;
    lemma_parse_json_field_bounds(t, j9, ",\"sync_progress\":"@);
    let j10 = spec_parse_json_field(t, j9, ",\"sync_progress\":"@)->Some_0.1;
    lemma_parse_json_field_bounds(t, j10, ",\"kes_period\":"@);
    let j11 = spec_parse_json_field(t, j10, ",\"kes_period\":"@)->Some_0.1;
    lemma_parse_json_field_bounds(t, j11, ",\"kes_remaining\":"@);
}

/// The snapshots of an array at position `i` (after the opening
/// bracket), each separated by a comma, up to and including the closing
/// bracket.
pub open spec fn spec_parse_snap_list(t: Seq<char>, i: int) -> Option<(Seq<MetricSnapshot>, int)>
    decreases t.len() - i,
    via spec_parse_snap_list_dec
{
    if !(0 <= i < t.len()) {
        None
    } else if t[i] == ']' {
        Some((Seq::empty(), i + 1))
    } else {
        match spec_parse_snapshot(t, i) {
            None => None,
            Some((s, j)) => {
                if 0 <= j < t.len() && t[j] == ',' {
                    match spec_parse_snap_list(t, j + 1) {
                        None => None,
                        Some((rest, j2)) => Some((seq![s] + rest, j2)),
                    }
                } else if 0 <= j < t.len() && t[j] == ']' {
                    Some((seq![s], j + 1))
                } else {
                    None
                }
            },
        }
    }
}

#[via_fn]
proof fn spec_parse_snap_list_dec(t: Seq<char>, i: int) {
    if 0 <= i < t.len() && t[i] != ']' && spec_parse_snapshot(t, i) is Some {
        lemma_parse_snapshot_bounds(t, i);
    }
}

/// The end of the run of path-safe name characters starting at `i`.
pub open spec fn safe_end(t: Seq<char>, i: int) -> int
    decreases t.len() - i,
{
    if 0 <= i < t.len() && is_path_safe(t[i]) {
        safe_end(t, i + 1)
    } else {
        i
    }
}

/// A whole daily file as text: the node name (path-safe characters
/// between quotes) and the snapshot array, and nothing after.
pub open spec fn spec_decode_json(t: Seq<char>) -> Option<(Seq<char>, Seq<MetricSnapshot>)> {
    match spec_expect(t, 0, "{\"node_name\":\""@) {
        None => None,
        Some(j0) => {
            let ne = safe_end(t, j0);
            let name = t.subrange(j0, ne);
            match spec_expect(t, ne, "\",\"snapshots\":["@) {
                None => None,
                Some(j1) => match spec_parse_snap_list(t, j1) {
                    None => None,
                    Some((snaps, j2)) => match spec_expect(t, j2, "}"@) {
                        None => None,
                        Some(j3) => if j3 == t.len() {
                            Some((name, snaps))
                        } else {
                            None
                        },
                    },
                },
            }
        },
    }
}

/// What decoding makes of raw file bytes: decompression, then the strict
/// shape above.
pub open spec fn spec_decode_daily_bytes(b: Seq<u8>) -> Option<(Seq<char>, Seq<MetricSnapshot>)> {
    match gunzip_of(b) {
        None => None,
        Some(raw) => spec_decode_json(bytes_chars(raw)),
    }
}

/// A literal standing at position `i` is matched there.
proof fn lemma_expect_at(t: Seq<char>, i: int, lit: Seq<char>)
    requires
        0 <= i,
        i + lit.len() <= t.len(),
        t.subrange(i, i + lit.len()) == lit,
    ensures
        spec_expect(t, i, lit) == Some(i + lit.len()),
{
}

/// A canonically rendered number standing at position `i`, followed by
/// a non-digit, parses back to itself.
proof fn lemma_parse_u64_enc(t: Seq<char>, i: int, n: u64)
    requires
        0 <= i,
        i + dec_digits(n as nat).len() < t.len(),
        t.subrange(i, i + dec_digits(n as nat).len()) == dec_digits(n as nat),
        !crate::text::is_digit(t[i + dec_digits(n as nat).len()]),
    ensures
        spec_parse_json_u64(t, i) == Some((n, i + dec_digits(n as nat).len())),
{
    let d = dec_digits(n as nat);
    crate::text::lemma_dec_digits_canonical(n as nat);
    assert forall|j: int| i <= j < i + d.len() implies crate::text::is_digit(t[j]) by {
        assert(t.subrange(i, i + d.len())[j - i] == t[j]);
        assert(d[j - i] == t[j]);
    };
    crate::value::lemma_digits_end_char(t, i, i + d.len());
    assert(t[i] == d[0]);
    if t[i] == '0' {
        assert(d[0] == '0');
        assert(n == 0);
        assert(d.len() == 1);
    }
    assert(digits_value(t.subrange(i, crate::value::digits_end(t, i))) == n);
}

/// An encoded optional value standing at position `i`, followed by a
/// non-digit, parses back to itself.
proof fn lemma_parse_opt_enc(t: Seq<char>, i: int, v: Option<u64>)
    requires
        0 <= i,
        i + spec_json_opt(v).len() < t.len(),
        t.subrange(i, i + spec_json_opt(v).len()) == spec_json_opt(v),
        !crate::text::is_digit(t[i + spec_json_opt(v).len()]),
    ensures
        spec_parse_json_opt(t, i) == Some((v, i + spec_json_opt(v).len())),
{
    reveal_strlit("null");
    match v {
        None => {
            lemma_expect_at(t, i, "null"@);
        },
        Some(x) => {
            crate::text::lemma_dec_digits_canonical(x as nat);
            assert(t[i] == dec_digits(x as nat)[0]) by {
                assert(t.subrange(i, i + spec_json_opt(v).len())[0] == t[i]);
            }
            assert(crate::text::is_digit(t[i]));
            assert(spec_expect(t, i, "null"@) is None) by {
                if i + 4 <= t.len() && t.subrange(i, i + 4) == "null"@ {
                    assert(t.subrange(i, i + 4)[0] == t[i]);
                    assert(!crate::text::is_digit('n'));
                }
            }
            lemma_parse_u64_enc(t, i, x);
        },
    }
}

/// An encoded keyed field standing at position `i`, followed by a
/// non-digit, parses back to its value.
proof fn lemma_parse_field_enc(t: Seq<char>, i: int, key: Seq<char>, v: Option<u64>)
    requires
        0 <= i,
        i + key.len() + spec_json_opt(v).len() < t.len(),
        t.subrange(i, i + key.len() + spec_json_opt(v).len()) == key + spec_json_opt(v),
        !crate::text::is_digit(t[i + key.len() + spec_json_opt(v).len()]),
    ensures
        spec_parse_json_field(t, i, key)
            == Some((v, i + key.len() + spec_json_opt(v).len())),
{
    let kl = key.len() as int;
    let ol = spec_json_opt(v).len() as int;
    assert(t.subrange(i, i + kl) =~= key) by {
        assert forall|j: int| 0 <= j < kl implies t.subrange(i, i + kl)[j] == key[j] by {
            assert(t.subrange(i, i + kl + ol)[j] == t[i + j]);
            assert(t.subrange(i, i + kl)[j] == t[i + j]);
            assert((key + spec_json_opt(v))[j] == key[j]);
        };
    }
    lemma_expect_at(t, i, key);
    assert(t.subrange(i + kl, i + kl + ol) =~= spec_json_opt(v)) by {
        assert forall|j: int| 0 <= j < ol
            implies t.subrange(i + kl, i + kl + ol)[j] == spec_json_opt(v)[j] by {
            assert(t.subrange(i, i + kl + ol)[kl + j] == t[i + kl + j]);
            assert(t.subrange(i + kl, i + kl + ol)[j] == t[i + kl + j]);
            assert((key + spec_json_opt(v))[kl + j] == spec_json_opt(v)[j]);
        };
    }
    lemma_parse_opt_enc(t, i + kl, v);
}

/// A chunk of a known slice of `t` is the matching chunk of its image.
proof fn lemma_sub_sub(t: Seq<char>, i: int, x: Seq<char>, a: int, b: int)
    requires
        0 <= i,
        i + x.len() <= t.len(),
        t.subrange(i, i + x.len()) == x,
        0 <= a <= b <= x.len(),
    ensures
        t.subrange(i + a, i + b) == x.subrange(a, b),
{
    assert(t.subrange(i + a, i + b) =~= x.subrange(a, b)) by {
        assert forall|j: int| 0 <= j < b - a
            implies t.subrange(i + a, i + b)[j] == x.subrange(a, b)[j] by {
            assert(t.subrange(i, i + x.len())[a + j] == t[i + a + j]);
            assert(t.subrange(i + a, i + b)[j] == t[i + a + j]);
        };
    }
}

/// The opening third of an encoded snapshot parses back to its fields.
#[verifier::rlimit(100)]
proof fn lemma_snap_a_enc(t: Seq<char>, i: int, s: MetricSnapshot)
    requires
        0 <= i,
        i + spec_json_snap_a(s).len() < t.len(),
        t.subrange(i, i + spec_json_snap_a(s).len()) == spec_json_snap_a(s),
        t[i + spec_json_snap_a(s).len()] == ',',
    ensures
        ({
            let a = spec_json_snap_a(s);
            let p1 = i + 13 + dec_digits(s.timestamp as nat).len();
            let p2 = p1 + 16 + spec_json_opt(s.block_height).len();
            let p3 = p2 + 12 + spec_json_opt(s.slot_num).len();
            let p4 = p3 + 9 + spec_json_opt(s.epoch).len();
            &&& spec_expect(t, i, "{\"timestamp\":"@) == Some(i + 13)
            &&& spec_parse_json_u64(t, i + 13) == Some((s.timestamp, p1))
            &&& spec_parse_json_field(t, p1, ",\"block_height\":"@) == Some((s.block_height, p2))
            &&& spec_parse_json_field(t, p2, ",\"slot_num\":"@) == Some((s.slot_num, p3))
            &&& spec_parse_json_field(t, p3, ",\"epoch\":"@) == Some((s.epoch, p4))
            &&& spec_parse_json_field(t, p4, ",\"slot_in_epoch\":"@)
                == Some((s.slot_in_epoch, i + a.len()))
        }),
{
    reveal_strlit("{\"timestamp\":");
    reveal_strlit(",\"block_height\":");
    reveal_strlit(",\"slot_num\":");
    reveal_strlit(",\"epoch\":");
    reveal_strlit(",\"slot_in_epoch\":");
    let a = spec_json_snap_a(s);
    let dd = dec_digits(s.timestamp as nat);
    let o1 = spec_json_opt(s.block_height);
    let o2 = spec_json_opt(s.slot_num);
    let o3 = spec_json_opt(s.epoch);
    let o4 = spec_json_opt(s.slot_in_epoch);
    let p1 = i + 13 + dd.len();
    let p2 = p1 + 16 + o1.len();
    let p3 = p2 + 12 + o2.len();
    let p4 = p3 + 9 + o3.len();

    lemma_sub_sub(t, i, a, 0, 13);
    assert(a.subrange(0, 13) =~= "{\"timestamp\":"@);
    lemma_expect_at(t, i, "{\"timestamp\":"@);

    lemma_sub_sub(t, i, a, 13, p1 - i);
    assert(a.subrange(13, p1 - i) =~= dd);
    assert(t[p1] == ',') by {
        assert(a[p1 - i] == ',');
        assert(t.subrange(i, i + a.len())[p1 - i] == t[p1]);
    }
    assert(!crate::text::is_digit(t[p1]));
    lemma_parse_u64_enc(t, i + 13, s.timestamp);

    lemma_sub_sub(t, i, a, p1 - i, p2 - i);
    assert(a.subrange(p1 - i, p2 - i) =~= ",\"block_height\":"@ + o1);
    assert(t[p2] == ',') by {
        assert(a[p2 - i] == ',');
        assert(t.subrange(i, i + a.len())[p2 - i] == t[p2]);
    }
    assert(!crate::text::is_digit(t[p2]));
    lemma_parse_field_enc(t, p1, ",\"block_height\":"@, s.block_height);

    lemma_sub_sub(t, i, a, p2 - i, p3 - i);
    assert(a.subrange(p2 - i, p3 - i) =~= ",\"slot_num\":"@ + o2);
    assert(t[p3] == ',') by {
        assert(a[p3 - i] == ',');
        assert(t.subrange(i, i + a.len())[p3 - i] == t[p3]);
    }
    assert(!crate::text::is_digit(t[p3]));
    lemma_parse_field_enc(t, p2, ",\"slot_num\":"@, s.slot_num);

    lemma_sub_sub(t, i, a, p3 - i, p4 - i);
    assert(a.subrange(p3 - i, p4 - i) =~= ",\"epoch\":"@ + o3);
    assert(t[p4] == ',') by {
        assert(a[p4 - i] == ',');
        assert(t.subrange(i, i + a.len())[p4 - i] == t[p4]);
    }
    assert(!crate::text::is_digit(t[p4]));
    lemma_parse_field_enc(t, p3, ",\"epoch\":"@, s.epoch);

    lemma_sub_sub(t, i, a, p4 - i, a.len() as int);
    assert(a.subrange(p4 - i, a.len() as int) =~= ",\"slot_in_epoch\":"@ + o4);
    assert(!crate::text::is_digit(t[i + a.len()]));
    lemma_parse_field_enc(t, p4, ",\"slot_in_epoch\":"@, s.slot_in_epoch);
}

/// The middle third of an encoded snapshot parses back to its fields.
#[verifier::rlimit(100)]
proof fn lemma_snap_b_enc(t: Seq<char>, i: int, s: MetricSnapshot)
    requires
        0 <= i,
        i + spec_json_snap_b(s).len() < t.len(),
        t.subrange(i, i + spec_json_snap_b(s).len()) == spec_json_snap_b(s),
        t[i + spec_json_snap_b(s).len()] == ',',
    ensures
        ({
            let b = spec_json_snap_b(s);
            let q1 = i + 19 + spec_json_opt(s.peers_connected).len();
            let q2 = q1 + 15 + spec_json_opt(s.memory_used).len();
            let q3 = q2 + 15 + spec_json_opt(s.mempool_txs).len();
            &&& spec_parse_json_field(t, i, ",\"peers_connected\":"@)
                == Some((s.peers_connected, q1))
            &&& spec_parse_json_field(t, q1, ",\"memory_used\":"@) == Some((s.memory_used, q2))
            &&& spec_parse_json_field(t, q2, ",\"mempool_txs\":"@) == Some((s.mempool_txs, q3))
            &&& spec_parse_json_field(t, q3, ",\"mempool_bytes\":"@)
                == Some((s.mempool_bytes, i + b.len()))
        }),
{
    reveal_strlit(",\"peers_connected\":");
    reveal_strlit(",\"memory_used\":");
    reveal_strlit(",\"mempool_txs\":");
    reveal_strlit(",\"mempool_bytes\":");
    let b = spec_json_snap_b(s);
    let o1 = spec_json_opt(s.peers_connected);
    let o2 = spec_json_opt(s.memory_used);
    let o3 = spec_json_opt(s.mempool_txs);
    let o4 = spec_json_opt(s.mempool_bytes);
    let q1 = i + 19 + o1.len();
    let q2 = q1 + 15 + o2.len();
    let q3 = q2 + 15 + o3.len();

    lemma_sub_sub(t, i, b, 0, q1 - i);
    assert(b.subrange(0, q1 - i) =~= ",\"peers_connected\":"@ + o1);
    assert(t[q1] == ',') by {
        assert(b[q1 - i] == ',');
        assert(t.subrange(i, i + b.len())[q1 - i] == t[q1]);
    }
    assert(!crate::text::is_digit(t[q1]));
    lemma_parse_field_enc(t, i, ",\"peers_connected\":"@, s.peers_connected);

    lemma_sub_sub(t, i, b, q1 - i, q2 - i);
    assert(b.subrange(q1 - i, q2 - i) =~= ",\"memory_used\":"@ + o2);
    assert(t[q2] == ',') by {
        assert(b[q2 - i] == ',');
        assert(t.subrange(i, i + b.len())[q2 - i] == t[q2]);
    }
    assert(!crate::text::is_digit(t[q2]));
    lemma_parse_field_enc(t, q1, ",\"memory_used\":"@, s.memory_used);

    lemma_sub_sub(t, i, b, q2 - i, q3 - i);
    assert(b.subrange(q2 - i, q3 - i) =~= ",\"mempool_txs\":"@ + o3);
    assert(t[q3] == ',') by {
        assert(b[q3 - i] == ',');
        assert(t.subrange(i, i + b.len())[q3 - i] == t[q3]);
    }
    assert(!crate::text::is_digit(t[q3]));
    lemma_parse_field_enc(t, q2, ",\"mempool_txs\":"@, s.mempool_txs);

    lemma_sub_sub(t, i, b, q3 - i, b.len() as int);
    assert(b.subrange(q3 - i, b.len() as int) =~= ",\"mempool_bytes\":"@ + o4);
    assert(!crate::text::is_digit(t[i + b.len()]));
    lemma_parse_field_enc(t, q3, ",\"mempool_bytes\":"@, s.mempool_bytes);
}

/// The closing third of an encoded snapshot parses back to its fields.
#[verifier::rlimit(100)]
proof fn lemma_snap_c_enc(t: Seq<char>, i: int, s: MetricSnapshot)
    requires
        0 <= i,
        i + spec_json_snap_c(s).len() <= t.len(),
        t.subrange(i, i + spec_json_snap_c(s).len()) == spec_json_snap_c(s),
    ensures
        ({
            let c = spec_json_snap_c(s);
            let r1 = i + 17 + spec_json_opt(s.sync_progress).len();
            let r2 = r1 + 14 + spec_json_opt(s.kes_period).len();
            let r3 = r2 + 17 + spec_json_opt(s.kes_remaining).len();
            &&& spec_parse_json_field(t, i, ",\"sync_progress\":"@)
                == Some((s.sync_progress, r1))
            &&& spec_parse_json_field(t, r1, ",\"kes_period\":"@) == Some((s.kes_period, r2))
            &&& spec_parse_json_field(t, r2, ",\"kes_remaining\":"@)
                == Some((s.kes_remaining, r3))
            &&& spec_expect(t, r3, "}"@) == Some(i + c.len() as int)
        }),
{
    reveal_strlit(",\"sync_progress\":");
    reveal_strlit(",\"kes_period\":");
    reveal_strlit(",\"kes_remaining\":");
    reveal_strlit("}");
    let c = spec_json_snap_c(s);
    let o1 = spec_json_opt(s.sync_progress);
    let o2 = spec_json_opt(s.kes_period);
    let o3 = spec_json_opt(s.kes_remaining);
    let r1 = i + 17 + o1.len();
    let r2 = r1 + 14 + o2.len();
    let r3 = r2 + 17 + o3.len();

    lemma_sub_sub(t, i, c, 0, r1 - i);
    assert(c.subrange(0, r1 - i) =~= ",\"sync_progress\":"@ + o1);
    assert(t[r1] == ',') by {
        assert(c[r1 - i] == ',');
        assert(t.subrange(i, i + c.len())[r1 - i] == t[r1]);
    }
    assert(!crate::text::is_digit(t[r1]));
    lemma_parse_field_enc(t, i, ",\"sync_progress\":"@, s.sync_progress);

    lemma_sub_sub(t, i, c, r1 - i, r2 - i);
    assert(c.subrange(r1 - i, r2 - i) =~= ",\"kes_period\":"@ + o2);
    assert(t[r2] == ',') by {
        assert(c[r2 - i] == ',');
        assert(t.subrange(i, i + c.len())[r2 - i] == t[r2]);
    }
    assert(!crate::text::is_digit(t[r2]));
    lemma_parse_field_enc(t, r1, ",\"kes_period\":"@, s.kes_period);

    lemma_sub_sub(t, i, c, r2 - i, r3 - i);
    assert(c.subrange(r2 - i, r3 - i) =~= ",\"kes_remaining\":"@ + o3);
    assert(t[r3] == '}') by {
        assert(c[r3 - i] == '}');
        assert(t.subrange(i, i + c.len())[r3 - i] == t[r3]);
    }
    assert(!crate::text::is_digit(t[r3]));
    lemma_parse_field_enc(t, r2, ",\"kes_remaining\":"@, s.kes_remaining);

    lemma_sub_sub(t, i, c, r3 - i, c.len() as int);
    assert(c.subrange(r3 - i, c.len() as int) =~= "}"@);
    lemma_expect_at(t, r3, "}"@);
}

/// A whole encoded snapshot parses back to itself.
#[verifier::rlimit(100)]
proof fn lemma_parse_snapshot_enc(t: Seq<char>, i: int, s: MetricSnapshot)
    requires
        0 <= i,
        i + spec_json_snapshot(s).len() <= t.len(),
        t.subrange(i, i + spec_json_snapshot(s).len()) == spec_json_snapshot(s),
    ensures
        spec_parse_snapshot(t, i) == Some((s, i + spec_json_snapshot(s).len())),
{
    reveal(spec_parse_snapshot);
    let a = spec_json_snap_a(s);
    let b = spec_json_snap_b(s);
    let c = spec_json_snap_c(s);
    let w = spec_json_snapshot(s);
    let ib = i + a.len();
    let ic = ib + b.len();
    lemma_sub_sub(t, i, w, 0, a.len() as int);
    assert(w.subrange(0, a.len() as int) =~= a);
    lemma_sub_sub(t, i, w, a.len() as int, (a.len() + b.len()) as int);
    assert(w.subrange(a.len() as int, (a.len() + b.len()) as int) =~= b);
    lemma_sub_sub(t, i, w, (a.len() + b.len()) as int, w.len() as int);
    assert(w.subrange((a.len() + b.len()) as int, w.len() as int) =~= c);
    assert(t[ib] == ',') by {
        reveal_strlit(",\"peers_connected\":");
        assert(b[0] == ',');
        assert(t.subrange(ib, ib + b.len())[0] == t[ib]);
    }
    assert(t[ic] == ',') by {
        reveal_strlit(",\"sync_progress\":");
        assert(c[0] == ',');
        assert(t.subrange(ic, ic + c.len())[0] == t[ic]);
    }
    lemma_snap_a_enc(t, i, s);
    lemma_snap_b_enc(t, ib, s);
    lemma_snap_c_enc(t, ic, s);
}

/// An encoded snapshot array (followed by its closing bracket) parses
/// back to the same snapshots.
#[verifier::rlimit(100)]
proof fn lemma_parse_list_enc(t: Seq<char>, i: int, l: Seq<MetricSnapshot>)
    requires
        0 <= i,
        i + spec_json_snapshots(l).len() < t.len(),
        t.subrange(i, i + spec_json_snapshots(l).len()) == spec_json_snapshots(l),
        t[i + spec_json_snapshots(l).len()] == ']',
    ensures
        spec_parse_snap_list(t, i)
            == Some((l, i + spec_json_snapshots(l).len() + 1)),
    decreases l.len(),
{
    reveal_strlit("{\"timestamp\":");
    let body = spec_json_snapshots(l);
    if l.len() == 0 {
        assert(t[i] == ']');
    } else {
        let first = l.first();
        let fs = spec_json_snapshot(first);
        assert(fs[0] == '{') by {
            assert(spec_json_snap_a(first)[0] == '{');
        }
        assert(t[i] == '{') by {
            if l.len() == 1 {
                assert(body[0] == fs[0]);
            } else {
                assert(body[0] == fs[0]);
            }
            assert(t.subrange(i, i + body.len())[0] == t[i]);
        }
        let j = i + fs.len();
        if l.len() == 1 {
            assert(body == fs);
            lemma_parse_snapshot_enc(t, i, first);
            assert(t[j] == ']');
            assert(seq![first] =~= l);
        } else {
            let rest = spec_json_snapshots(l.drop_first());
            assert(body == fs + seq![','] + rest);
            lemma_sub_sub(t, i, body, 0, fs.len() as int);
            assert(body.subrange(0, fs.len() as int) =~= fs);
            lemma_parse_snapshot_enc(t, i, first);
            assert(t[j] == ',') by {
                assert(body[fs.len() as int] == ',');
                assert(t.subrange(i, i + body.len())[fs.len() as int] == t[j]);
            }
            lemma_sub_sub(t, i, body, fs.len() as int + 1, body.len() as int);
            assert(body.subrange(fs.len() as int + 1, body.len() as int) =~= rest);
            lemma_parse_list_enc(t, j + 1, l.drop_first());
            assert(seq![first] + l.drop_first() =~= l);
        }
    }
}

/// The daily-file codec inverts itself: decoding the rendered text of
/// any day (for a filesystem-safe node name) yields exactly the name
/// and snapshots that were encoded. With the compression layer's
/// round-trip, a daily file written by `encode_daily_file` always loads
/// back as written.
#[verifier::rlimit(100)]
pub proof fn lemma_daily_roundtrip(name: Seq<char>, snaps: Seq<MetricSnapshot>)
    requires
        forall|j: int| 0 <= j < name.len() ==> is_path_safe(name[j]),
    ensures
        spec_decode_json(spec_json_daily(name, snaps)) == Some((name, snaps)),
{
    reveal_strlit("{\"node_name\":\"");
    reveal_strlit("\",\"snapshots\":[");
    reveal_strlit("]}");
    reveal_strlit("}");
    let t = spec_json_daily(name, snaps);
    let body = spec_json_snapshots(snaps);
    let nl = name.len() as int;
    let ne = 14 + nl;
    let j1 = ne + 15;
    let j2 = j1 + body.len();
    assert(t.subrange(0, t.len() as int) =~= t);
    lemma_sub_sub(t, 0, t, 0, 14);
    assert(t.subrange(0, 14) =~= "{\"node_name\":\""@);
    lemma_expect_at(t, 0, "{\"node_name\":\""@);
    assert forall|j: int| 14 <= j < ne implies is_path_safe(t[j]) by {
        assert(t[j] == name[j - 14]);
    };
    assert(t[ne] == '"');
    assert(!is_path_safe('"'));
    lemma_safe_end_char(t, 14, ne);
    lemma_sub_sub(t, 0, t, 14, ne);
    assert(t.subrange(14, ne) =~= name);
    lemma_sub_sub(t, 0, t, ne, j1);
    assert(t.subrange(ne, j1) =~= "\",\"snapshots\":["@);
    lemma_expect_at(t, ne, "\",\"snapshots\":["@);
    lemma_sub_sub(t, 0, t, j1, j2);
    assert(t.subrange(j1, j2) =~= body);
    assert(t[j2] == ']');
    lemma_parse_list_enc(t, j1, snaps);
    lemma_sub_sub(t, 0, t, j2 + 1, t.len() as int);
    assert(t.subrange(j2 + 1, t.len() as int) =~= "}"@);
    lemma_expect_at(t, j2 + 1, "}"@);
}

/// Match a literal at position `i`.
fn expect_lit(s: &Vec<char>, i: usize, lit: &str) -> (r: Option<usize>)
    ensures
        match r {
            Some(j) => spec_expect(s@, i as int, lit@) == Some(j as int) && i <= j <= s@.len(),
            None => spec_expect(s@, i as int, lit@) is None,
        },
{
    let lv = crate::text::chars_of(lit);
    let n = s.len();
    if i > n || n - i < lv.len() {
        return None;
    }
    let m = lv.len();
    let mut k: usize = 0;
    while k < m
        invariant
            0 <= k <= m,
            m == lv@.len(),
            lv@ == lit@,
            i + m <= n == s@.len(),
            forall|x: int| 0 <= x < k ==> s@[i + x] == lv@[x],
        decreases m - k,
    {
        if s[i + k] != lv[k] {
            proof {
                assert(s@.subrange(i as int, i + m)[k as int] != lit@[k as int]);
            }
            return None;
        }
        k = k + 1;
    }
    proof {
        assert(s@.subrange(i as int, i + m) =~= lit@);
    }
    Some(i + m)
}

/// Parse a canonical decimal number at position `i`.
fn parse_json_u64(s: &Vec<char>, i: usize) -> (r: Option<(u64, usize)>)
    requires
        i <= s@.len(),
    ensures
        match r {
            Some(p) => spec_parse_json_u64(s@, i as int) == Some((p.0, p.1 as int))
                && i < p.1 <= s@.len(),
            None => spec_parse_json_u64(s@, i as int) is None,
        },
{
    let n = s.len();
    let j = crate::value::scan_digits(s, i, n);
    proof {
        crate::value::lemma_digits_end_char(s@, i as int, j as int);
    }
    if j == i {
        return None;
    }
    if s[i] == '0' && j > i + 1 {
        return None;
    }
    match crate::text::parse_u64_range(s, i, j) {
        Some(v) => Some((v, j)),
        None => None,
    }
}

/// Parse `null` or a number at position `i`.
fn parse_json_opt(s: &Vec<char>, i: usize) -> (r: Option<(Option<u64>, usize)>)
    requires
        i <= s@.len(),
    ensures
        match r {
            Some(p) => spec_parse_json_opt(s@, i as int) == Some((p.0, p.1 as int))
                && i < p.1 <= s@.len(),
            None => spec_parse_json_opt(s@, i as int) is None,
        },
{
    match expect_lit(s, i, "null") {
        Some(j) => {
            proof {
                reveal_strlit("null");
            }
            Some((None, j))
        },
        None => match parse_json_u64(s, i) {
            Some(p) => Some((Some(p.0), p.1)),
            None => None,
        },
    }
}

/// Parse a keyed optional field at position `i`.
fn parse_json_field(s: &Vec<char>, i: usize, key: &str) -> (r: Option<(Option<u64>, usize)>)
    requires
        i <= s@.len(),
    ensures
        match r {
            Some(p) => spec_parse_json_field(s@, i as int, key@) == Some((p.0, p.1 as int))
                && i <= p.1 <= s@.len(),
            None => spec_parse_json_field(s@, i as int, key@) is None,
        },
{
    match expect_lit(s, i, key) {
        Some(j) => match parse_json_opt(s, j) {
            Some(p) => Some((p.0, p.1)),
            None => None,
        },
        None => None,
    }
}

/// Parse one snapshot object at position `i`.
#[verifier::rlimit(100)]
fn parse_snapshot_at(s: &Vec<char>, i: usize) -> (r: Option<(MetricSnapshot, usize)>)
    requires
        i <= s@.len(),
    ensures
        match r {
            Some(p) => spec_parse_snapshot(s@, i as int) == Some((p.0, p.1 as int))
                && i < p.1 <= s@.len(),
            None => spec_parse_snapshot(s@, i as int) is None,
        },
{
    proof {
        reveal(spec_parse_snapshot);
    }
    let j0 = match expect_lit(s, i, "{\"timestamp\":") {
        Some(j) => j,
        None => { return None; },
    };
    let (ts, j1) = match parse_json_u64(s, j0) {
        Some(p) => p,
        None => { return None; },
    };
    let (block_height, j2) = match parse_json_field(s, j1, ",\"block_height\":") {
        Some(p) => p,
        None => { return None; },
    };
    let (slot_num, j3) = match parse_json_field(s, j2, ",\"slot_num\":") {
        Some(p) => p,
        None => { return None; },
    };
    let (epoch, j4) = match parse_json_field(s, j3, ",\"epoch\":") {
        Some(p) => p,
        None => { return None; },
    };
    let (slot_in_epoch, j5) = match parse_json_field(s, j4, ",\"slot_in_epoch\":") {
        Some(p) => p,
        None => { return None; },
    };
    let (peers_connected, j6) = match parse_json_field(s, j5, ",\"peers_connected\":") {
        Some(p) => p,
        None => { return None; },
    };
    let (memory_used, j7) = match parse_json_field(s, j6, ",\"memory_used\":") {
        Some(p) => p,
        None => { return None; },
    };
    let (mempool_txs, j8) = match parse_json_field(s, j7, ",\"mempool_txs\":") {
        Some(p) => p,
        None => { return None; },
    };
    let (mempool_bytes, j9) = match parse_json_field(s, j8, ",\"mempool_bytes\":") {
        Some(p) => p,
        None => { return None; },
    };
    let (sync_progress, j10) = match parse_json_field(s, j9, ",\"sync_progress\":") {
        Some(p) => p,
        None => { return None; },
    };
    let (kes_period, j11) = match parse_json_field(s, j10, ",\"kes_period\":") {
        Some(p) => p,
        None => { return None; },
    };
    let (kes_remaining, j12) = match parse_json_field(s, j11, ",\"kes_remaining\":") {
        Some(p) => p,
        None => { return None; },
    };
    let j13 = match expect_lit(s, j12, "}") {
        Some(j) => j,
        None => { return None; },
    };
    Some((MetricSnapshot {
        timestamp: ts,
        block_height,
        slot_num,
        epoch,
        slot_in_epoch,
        peers_connected,
        memory_used,
        mempool_txs,
        mempool_bytes,
        sync_progress,
        kes_period,
        kes_remaining,
    }, j13))
}

/// Parse the snapshot array at position `i` (after the opening bracket).
#[verifier::loop_isolation(false)]
#[verifier::rlimit(100)]
fn parse_snap_list(s: &Vec<char>, i: usize) -> (r: Option<(Vec<MetricSnapshot>, usize)>)
    requires
        i <= s@.len(),
    ensures
        match r {
            Some(p) => spec_parse_snap_list(s@, i as int) == Some((p.0@, p.1 as int))
                && p.1 <= s@.len(),
            None => spec_parse_snap_list(s@, i as int) is None,
        },
{
    let n = s.len();
    let mut acc: Vec<MetricSnapshot> = Vec::new();
    let mut p: usize = i;
    proof {
        if spec_parse_snap_list(s@, i as int) is Some {
            let l0 = spec_parse_snap_list(s@, i as int)->Some_0.0;
            assert(Seq::<MetricSnapshot>::empty() + l0 =~= l0);
        }
    }
    loop
        invariant
            i <= p <= n,
            n == s@.len(),
            ({
                let whole = spec_parse_snap_list(s@, i as int);
                let rest = spec_parse_snap_list(s@, p as int);
                match rest {
                    Some((l, j)) => whole == Some((acc@ + l, j)),
                    None => whole is None,
                }
            }),
        decreases n - p,
    {
        if p >= n {
            return None;
        }
        if s[p] == ']' {
            proof {
                assert(spec_parse_snap_list(s@, p as int)
                    == Some((Seq::<MetricSnapshot>::empty(), p + 1)));
                assert(acc@ + Seq::<MetricSnapshot>::empty() =~= acc@);
            }
            return Some((acc, p + 1));
        }
        let (snap, j) = match parse_snapshot_at(s, p) {
            Some(q) => q,
            None => { return None; },
        };
        if j < n && s[j] == ',' {
            let ghost acc0 = acc@;
            acc.push(snap);
            proof {
                if spec_parse_snap_list(s@, (j + 1) as int) is Some {
                    let l2 = spec_parse_snap_list(s@, (j + 1) as int)->Some_0.0;
                    assert(acc0 + (seq![snap] + l2) =~= acc@ + l2);
                }
            }
            p = j + 1;
        } else if j < n && s[j] == ']' {
            let ghost acc0 = acc@;
            acc.push(snap);
            proof {
                assert(spec_parse_snap_list(s@, p as int)
                    == Some((seq![snap], (j + 1) as int)));
                assert(acc0 + seq![snap] =~= acc@);
            }
            return Some((acc, j + 1));
        } else {
            return None;
        }
    }
}

/// Turn file bytes into characters.
fn bytes_to_chars(b: &Vec<u8>) -> (r: Vec<char>)
    ensures
        r@ == bytes_chars(b@),
{
    let n = b.len();
    let mut out: Vec<char> = Vec::new();
    let mut k: usize = 0;
    while k < n
        invariant
            0 <= k <= n,
            n == b@.len(),
            out@ == bytes_chars(b@).take(k as int),
        decreases n - k,
    {
        out.push(b[k] as char);
        proof {
            assert(out@ =~= bytes_chars(b@).take(k + 1));
        }
        k = k + 1;
    }
    proof {
        assert(bytes_chars(b@).take(n as int) =~= bytes_chars(b@));
    }
    out
}

/// A run of path-safe characters followed by something else pins `safe_end`.
proof fn lemma_safe_end_char(t: Seq<char>, i: int, r: int)
    requires
        0 <= i <= r <= t.len(),
        forall|j: int| i <= j < r ==> is_path_safe(t[j]),
        r == t.len() || !is_path_safe(t[r]),
    ensures
        safe_end(t, i) == r,
    decreases r - i,
{
    if i < r {
        lemma_safe_end_char(t, i + 1, r);
    }
}

/// Decode daily-file bytes. Corrupt files — a broken gzip stream, or
/// content that is not exactly a daily object — yield `None`, so a
/// caller can start the day afresh.
#[verifier::rlimit(100)]
pub fn decode_daily_file(bytes: &Vec<u8>) -> (r: Option<DailySnapshots>)
    ensures
        match spec_decode_daily_bytes(bytes@) {
            Some(p) => r is Some && r->Some_0.node_name@ == p.0
                && r->Some_0.snapshots@ == p.1,
            None => r is None,
        },
{
    let raw = match gzip_decompress(bytes) {
        Some(v) => v,
        None => { return None; },
    };
    let s = bytes_to_chars(&raw);
    let n = s.len();
    let j0 = match expect_lit(&s, 0, "{\"node_name\":\"") {
        Some(j) => j,
        None => { return None; },
    };
    let mut ne: usize = j0;
    while ne < n && is_path_safe_char(s[ne])
        invariant
            j0 <= ne <= n,
            n == s@.len(),
            forall|x: int| j0 <= x < ne ==> is_path_safe(s@[x]),
        decreases n - ne,
    {
        ne = ne + 1;
    }
    proof {
        lemma_safe_end_char(s@, j0 as int, ne as int);
    }
    let name = crate::text::string_from_range(&s, j0, ne);
    let j1 = match expect_lit(&s, ne, "\",\"snapshots\":[") {
        Some(j) => j,
        None => { return None; },
    };
    let (snaps, j2) = match parse_snap_list(&s, j1) {
        Some(p) => p,
        None => { return None; },
    };
    let j3 = match expect_lit(&s, j2, "}") {
        Some(j) => j,
        None => { return None; },
    };
    if j3 != n {
        return None;
    }
    Some(DailySnapshots { node_name: name, snapshots: snaps })
}

/// Whether a character may stand in a stored node name.
fn is_path_safe_char(c: char) -> (r: bool)
    ensures
        r == is_path_safe(c),
{
    (c >= 'a' && c <= 'z') || (c >= 'A' && c <= 'Z') || (c >= '0' && c <= '9')
        || c == '-' || c == '_'
}

/// Render one snapshot as a CSV row.
#[verifier::rlimit(100)]
pub fn csv_row(s: &MetricSnapshot) -> (row: String)
    ensures
        row@ == spec_csv_row(*s),
{
    let mut row = String::new();
    push_u64(&mut row, s.timestamp);
    row.push(',');
    let iso = timestamp_to_iso8601(s.timestamp);
    row.append(iso.as_str());
    row.push(',');
    push_csv_opt(&mut row, s.block_height);
    row.push(',');
    push_csv_opt(&mut row, s.slot_num);
    row.push(',');
    push_csv_opt(&mut row, s.epoch);
    row.push(',');
    push_csv_opt(&mut row, s.slot_in_epoch);
    row.push(',');
    push_csv_opt(&mut row, s.peers_connected);
    row.push(',');
    push_csv_opt(&mut row, s.memory_used);
    row.push(',');
    push_csv_opt(&mut row, s.mempool_txs);
    row.push(',');
    push_csv_opt(&mut row, s.mempool_bytes);
    row.push(',');
    let ghost first_half = row@;
    match s.sync_progress {
        Some(p) => {
            push_u64(&mut row, p / 100);
            row.push('.');
            push_u64_padded(&mut row, p % 100, 2);
        },
        None => {},
    }
    proof {
        assert(row@ =~= first_half + spec_csv_progress(s.sync_progress));
    }
    row.push(',');
    push_csv_opt(&mut row, s.kes_period);
    row.push(',');
    push_csv_opt(&mut row, s.kes_remaining);
    proof {
        assert(row@ =~= spec_csv_row(*s));
    }
    row
}

/// Relies on dirs' `data_dir`: the platform data directory, if the
/// environment defines one. Nothing is promised of the result.
#[verifier::external_body]
fn platform_data_dir() -> (r: Option<String>)
{
    dirs::data_dir().map(|p| p.to_string_lossy().into_owned())
}

/// The per-node history directory under the base directory.
pub open spec fn spec_node_history_dir(base: Seq<char>, node: Seq<char>) -> Seq<char> {
    base + "/history/"@ + node
}

/// The daily file for a calendar date.
pub open spec fn spec_date_file(base: Seq<char>, node: Seq<char>, y: nat, m: nat, d: nat)
    -> Seq<char> {
    spec_node_history_dir(base, node) + seq!['/'] + dec_digits_padded(y, 4)
        + seq!['/'] + dec_digits_padded(m, 2)
        + seq!['/'] + dec_digits_padded(d, 2) + ".json.gz"@
}

/// The daily file holding a timestamp.
pub open spec fn spec_date_file_at(base: Seq<char>, node: Seq<char>, ts: u64) -> Seq<char> {
    let ymd = spec_timestamp_to_date(ts as nat);
    spec_date_file(base, node, ymd.0, ymd.1, ymd.2)
}

/// Whether a save is due: the record must come from a connected poll,
/// and the minimum sampling interval must have elapsed since the last
/// accepted save (a clock running backwards does not count as elapsed).
pub open spec fn spec_save_due(last: Option<u64>, now: u64, connected: bool) -> bool {
    &&& connected
    &&& match last {
        None => true,
        Some(t) => now >= t && now - t >= MIN_SAMPLE_INTERVAL_SECS,
    }
}

/// The timestamp `days_ago` whole days before `now`, stopping at the
/// epoch.
pub open spec fn spec_backdate(now: u64, days_ago: u64) -> u64 {
    if now >= days_ago * 86400 {
        (now - days_ago * 86400) as u64
    } else {
        0
    }
}

/// Storage planner for one node's persistent metric history. It owns
/// the sampling and retention policy and the file naming and contents;
/// the caller moves the planned bytes to and from disk.
pub struct StorageManager {
    base_dir: String,
    node_name: String,
    retention_days: u64,
    last_save_timestamp: Option<u64>,
}

impl StorageManager {
    /// The base directory all files live under.
    pub closed spec fn spec_base_dir(&self) -> Seq<char> {
        self.base_dir@
    }

    /// The sanitized node name partitioning the files.
    pub closed spec fn spec_node_name(&self) -> Seq<char> {
        self.node_name@
    }

    /// The retention window in days.
    pub closed spec fn spec_retention_days(&self) -> u64 {
        self.retention_days
    }

    /// When the last accepted save happened.
    pub closed spec fn last_save(&self) -> Option<u64> {
        self.last_save_timestamp
    }

    /// Create a storage manager for a node: files go below the platform
    /// data directory, the node name is sanitized for filesystem use,
    /// and the default retention applies.
    pub fn new(node_name: &str) -> (r: Self)
        ensures
            r.spec_node_name() == spec_sanitize(node_name@),
            r.spec_retention_days() == DEFAULT_RETENTION_DAYS,
            r.last_save() is None,
    {
        let mut base = match platform_data_dir() {
            Some(d) => d,
            None => {
                let mut dot = String::new();
                dot.append(".");
                dot
            },
        };
        base.append("/sview");
        StorageManager {
            base_dir: base,
            node_name: sanitize_node_name(node_name),
            retention_days: DEFAULT_RETENTION_DAYS,
            last_save_timestamp: None,
        }
    }

    /// Set a custom retention period.
    pub fn with_retention_days(self, days: u64) -> (r: Self)
        ensures
            r.spec_retention_days() == days,
            r.spec_base_dir() == self.spec_base_dir(),
            r.spec_node_name() == self.spec_node_name(),
            r.last_save() == self.last_save(),
    {
        StorageManager { retention_days: days, ..self }
    }

    /// Set a custom base directory.
    pub fn with_base_dir(self, dir: &str) -> (r: Self)
        ensures
            r.spec_base_dir() == dir@,
            r.spec_node_name() == self.spec_node_name(),
            r.spec_retention_days() == self.spec_retention_days(),
            r.last_save() == self.last_save(),
    {
        let mut base = String::new();
        base.append(dir);
        proof {
            assert(base@ =~= dir@);
        }
        StorageManager { base_dir: base, ..self }
    }

    /// The retention window in days.
    pub fn retention_days(&self) -> (r: u64)
        ensures
            r == self.spec_retention_days(),
    {
        self.retention_days
    }

    /// This node's history directory.
    pub fn node_history_dir(&self) -> (r: String)
        ensures
            r@ == spec_node_history_dir(self.spec_base_dir(), self.spec_node_name()),
    {
        let mut out = String::new();
        out.append(self.base_dir.as_str());
        out.append("/history/");
        out.append(self.node_name.as_str());
        proof {
            assert(out@ =~= spec_node_history_dir(self.spec_base_dir(), self.spec_node_name()));
        }
        out
    }

    /// The path of the daily file holding the given timestamp.
    pub fn date_file_path(&self, ts: u64) -> (r: String)
        ensures
            r@ == spec_date_file_at(self.spec_base_dir(), self.spec_node_name(), ts),
    {
        let ymd = timestamp_to_date(ts);
        let mut out = self.node_history_dir();
        out.push('/');
        push_u64_padded(&mut out, ymd.0, 4);
        out.push('/');
        push_u64_padded(&mut out, ymd.1, 2);
        out.push('/');
        push_u64_padded(&mut out, ymd.2, 2);
        out.append(".json.gz");
        proof {
            assert(out@ =~= spec_date_file_at(self.spec_base_dir(), self.spec_node_name(), ts));
        }
        out
    }

    /// The directory of the daily file holding the given timestamp; the
    /// caller creates it before writing the file.
    pub fn date_dir_path(&self, ts: u64) -> (r: String)
        ensures
            ({
                let ymd = spec_timestamp_to_date(ts as nat);
                r@ == spec_node_history_dir(self.spec_base_dir(), self.spec_node_name())
                    + seq!['/'] + dec_digits_padded(ymd.0, 4)
                    + seq!['/'] + dec_digits_padded(ymd.1, 2)
            }),
    {
        let ymd = timestamp_to_date(ts);
        let mut out = self.node_history_dir();
        out.push('/');
        push_u64_padded(&mut out, ymd.0, 4);
        out.push('/');
        push_u64_padded(&mut out, ymd.1, 2);
        proof {
            assert(out@ =~= spec_node_history_dir(self.spec_base_dir(), self.spec_node_name())
                + seq!['/'] + dec_digits_padded(spec_timestamp_to_date(ts as nat).0, 4)
                + seq!['/'] + dec_digits_padded(spec_timestamp_to_date(ts as nat).1, 2));
        }
        out
    }

    /// The path of the daily file `days_ago` days before `now`, for
    /// walking the retention window backward.
    pub fn history_file_path(&self, now: u64, days_ago: u64) -> (r: String)
        ensures
            r@ == spec_date_file_at(self.spec_base_dir(), self.spec_node_name(),
                spec_backdate(now, days_ago)),
    {
        let span = days_ago as u128 * 86400;
        let target: u64 = if now as u128 >= span { now - span as u64 } else { 0 };
        self.date_file_path(target)
    }

    /// Decide a save: a connected record, sampled at least the minimum
    /// interval after the last accepted save, is appended to the day's
    /// file (whose prior decoded content, if any intact, is handed in)
    /// and the file is re-encoded; anything else is a no-op. On a save
    /// the last-save time advances to `now` and the result holds the
    /// file path and the bytes the caller writes there.
    pub fn save_snapshot(
        &mut self,
        metrics: &NodeMetrics,
        now: u64,
        existing: Option<DailySnapshots>,
    ) -> (r: Option<(String, Vec<u8>)>)
        ensures
            ({
                let due = spec_save_due(old(self).last_save(), now, metrics.connected);
                let prior = match existing {
                    Some(d) => d.snapshots@,
                    None => Seq::<MetricSnapshot>::empty(),
                };
                let fname = match existing {
                    Some(d) => d.node_name@,
                    None => old(self).spec_node_name(),
                };
                &&& r is Some <==> due
                &&& final(self).last_save() == if due { Some(now) } else { old(self).last_save() }
                &&& final(self).spec_base_dir() == old(self).spec_base_dir()
                &&& final(self).spec_node_name() == old(self).spec_node_name()
                &&& final(self).spec_retention_days() == old(self).spec_retention_days()
                &&& due ==> r->Some_0.0@ == spec_date_file_at(
                        old(self).spec_base_dir(), old(self).spec_node_name(), now)
                &&& due ==> r->Some_0.1@ == gzip_of(ascii_bytes(spec_json_daily(
                        fname, prior.push(spec_snapshot_of(*metrics, now)))))
            }),
    {
        let due = match self.last_save_timestamp {
            None => true,
            Some(t) => now >= t && now - t >= MIN_SAMPLE_INTERVAL_SECS,
        };
        if !due || !metrics.connected {
            return None;
        }
        let snapshot = MetricSnapshot::from_metrics(metrics, now);
        let mut daily = match existing {
            Some(d) => d,
            None => DailySnapshots {
                node_name: clone_str(&self.node_name),
                snapshots: Vec::new(),
            },
        };
        daily.snapshots.push(snapshot);
        let path = self.date_file_path(now);
        let bytes = encode_daily_file(daily.node_name.as_str(), &daily.snapshots);
        self.last_save_timestamp = Some(now);
        Some((path, bytes))
    }
}

/// Snapshots in nondecreasing timestamp order.
pub open spec fn spec_sorted_by_ts(s: Seq<MetricSnapshot>) -> bool {
    forall|i: int, j: int| 0 <= i < j < s.len() ==> s[i].timestamp <= s[j].timestamp
}

/// All snapshots of the loadable daily files, in the order given.
pub open spec fn spec_all_snaps(files: Seq<Option<DailySnapshots>>) -> Seq<MetricSnapshot>
    decreases files.len(),
{
    if files.len() == 0 {
        Seq::empty()
    } else {
        spec_all_snaps(files.drop_last()) + match files.last() {
            Some(d) => d.snapshots@,
            None => Seq::empty(),
        }
    }
}

/// Inserting an element anywhere adds it to the multiset.
proof fn lemma_seq_insert_multiset(s: Seq<MetricSnapshot>, p: int, x: MetricSnapshot)
    requires
        0 <= p <= s.len(),
    ensures
        s.insert(p, x).to_multiset() == s.to_multiset().insert(x),
{
    broadcast use vstd::seq_lib::group_to_multiset_ensures;
    assert(s.insert(p, x) =~= s.take(p) + seq![x] + s.skip(p));
    vstd::seq_lib::lemma_multiset_commutative(s.take(p) + seq![x], s.skip(p));
    vstd::seq_lib::lemma_multiset_commutative(s.take(p), seq![x]);
    assert(s =~= s.take(p) + s.skip(p));
    vstd::seq_lib::lemma_multiset_commutative(s.take(p), s.skip(p));
    assert(seq![x].to_multiset() =~= Multiset::<MetricSnapshot>::empty().insert(x)) by {
        assert(seq![x].drop_first() =~= Seq::<MetricSnapshot>::empty());
    }
    assert(s.insert(p, x).to_multiset() =~= s.to_multiset().insert(x)) by {
        assert(s.insert(p, x).to_multiset()
            == s.take(p).to_multiset().add(seq![x].to_multiset()).add(s.skip(p).to_multiset()));
        assert(s.to_multiset() == s.take(p).to_multiset().add(s.skip(p).to_multiset()));
    }
}

/// Insert one snapshot into a sorted list, keeping it sorted.
#[verifier::loop_isolation(false)]
fn sorted_insert(v: &mut Vec<MetricSnapshot>, x: MetricSnapshot)
    requires
        spec_sorted_by_ts(old(v)@),
    ensures
        spec_sorted_by_ts(final(v)@),
        final(v)@.to_multiset() == old(v)@.to_multiset().insert(x),
        final(v)@.len() == old(v)@.len() + 1,
{
    let mut p: usize = v.len();
    while p > 0 && v[p - 1].timestamp > x.timestamp
        invariant
            0 <= p <= v@.len(),
            forall|k: int| p <= k < v@.len() ==> v@[k].timestamp > x.timestamp,
        decreases p,
    {
        p = p - 1;
    }
    proof {
        lemma_seq_insert_multiset(v@, p as int, x);
    }
    v.insert(p, x);
    proof {
        assert(spec_sorted_by_ts(v@)) by {
            assert(forall|i: int| 0 <= i < p ==> v@[i] == old(v)@[i]);
            assert(forall|i: int| p < i < v@.len() ==> v@[i] == old(v)@[i - 1]);
            assert(v@[p as int] == x);
        }
    }
}

/// Sort snapshots by timestamp, nondecreasing.
fn sort_snapshots(v: Vec<MetricSnapshot>) -> (r: Vec<MetricSnapshot>)
    ensures
        spec_sorted_by_ts(r@),
        r@.to_multiset() == v@.to_multiset(),
        r@.len() == v@.len(),
{
    broadcast use vstd::seq_lib::group_to_multiset_ensures;
    let n = v.len();
    let mut out: Vec<MetricSnapshot> = Vec::new();
    let mut k: usize = 0;
    proof {
        assert(v@.take(0) =~= Seq::<MetricSnapshot>::empty());
        assert(Seq::<MetricSnapshot>::empty().to_multiset() =~= out@.to_multiset());
    }
    while k < n
        invariant
            0 <= k <= n,
            n == v@.len(),
            spec_sorted_by_ts(out@),
            out@.to_multiset() == v@.take(k as int).to_multiset(),
            out@.len() == k,
        decreases n - k,
    {
        proof {
            let t1 = v@.take(k as int).push(v@[k as int]);
            assert(v@.take(k + 1) =~= t1);
            v@.take(k as int).to_multiset_ensures();
            assert(t1.to_multiset() == v@.take(k as int).to_multiset().insert(v@[k as int]));
        }
        sorted_insert(&mut out, v[k]);
        k = k + 1;
    }
    proof {
        assert(v@.take(n as int) =~= v@);
    }
    out
}

impl StorageManager {
    /// Assemble the history from the retention window's daily files,
    /// handed in as the decode outcome of each existing file (corrupt
    /// or missing files as `None`): every intact file's snapshots,
    /// sorted by timestamp ascending, truncated to the most recent
    /// `max_samples` by dropping from the front.
    #[verifier::loop_isolation(false)]
    #[verifier::rlimit(100)]
    pub fn load_history(&self, files: Vec<Option<DailySnapshots>>, max_samples: usize)
        -> (r: Vec<MetricSnapshot>)
        ensures
            spec_sorted_by_ts(r@),
            r@.len() == if spec_all_snaps(files@).len() <= max_samples {
                spec_all_snaps(files@).len() as int
            } else {
                max_samples as int
            },
            r@.to_multiset().subset_of(spec_all_snaps(files@).to_multiset()),
            spec_all_snaps(files@).len() <= max_samples
                ==> r@.to_multiset() == spec_all_snaps(files@).to_multiset(),
    {
        broadcast use vstd::seq_lib::group_to_multiset_ensures;
        let mut all: Vec<MetricSnapshot> = Vec::new();
        let nf = files.len();
        let mut k: usize = 0;
        while k < nf
            invariant
                0 <= k <= nf,
                nf == files@.len(),
                all@ == spec_all_snaps(files@.take(k as int)),
            decreases nf - k,
        {
            proof {
                assert(files@.take(k + 1).drop_last() =~= files@.take(k as int));
                assert(files@.take(k + 1).last() == files@[k as int]);
            }
            match &files[k] {
                Some(d) => {
                    let m = d.snapshots.len();
                    let mut j: usize = 0;
                    while j < m
                        invariant
                            0 <= j <= m,
                            0 <= k < nf == files@.len(),
                            files@[k as int] is Some,
                            m == files@[k as int]->Some_0.snapshots@.len(),
                            all@ == spec_all_snaps(files@.take(k as int))
                                + files@[k as int]->Some_0.snapshots@.take(j as int),
                        decreases m - j,
                    {
                        all.push(d.snapshots[j]);
                        proof {
                            assert(all@ =~= spec_all_snaps(files@.take(k as int))
                                + files@[k as int]->Some_0.snapshots@.take(j + 1));
                        }
                        j = j + 1;
                    }
                    proof {
                        assert(files@[k as int]->Some_0.snapshots@.take(m as int)
                            =~= files@[k as int]->Some_0.snapshots@);
                    }
                },
                None => {
                    proof {
                        assert(all@ =~= spec_all_snaps(files@.take(k + 1)));
                    }
                },
            }
            k = k + 1;
        }
        proof {
            assert(files@.take(nf as int) =~= files@);
        }
        let sorted = sort_snapshots(all);
        let total = sorted.len();
        if total <= max_samples {
            return sorted;
        }
        // keep the most recent `max_samples` by dropping from the front
        let skip = total - max_samples;
        let mut out: Vec<MetricSnapshot> = Vec::new();
        let mut k2: usize = skip;
        while k2 < total
            invariant
                skip <= k2 <= total,
                total == sorted@.len(),
                spec_sorted_by_ts(sorted@),
                out@ == sorted@.subrange(skip as int, k2 as int),
            decreases total - k2,
        {
            out.push(sorted[k2]);
            proof {
                assert(out@ =~= sorted@.subrange(skip as int, (k2 + 1) as int));
            }
            k2 = k2 + 1;
        }
        proof {
            let sub = sorted@.subrange(skip as int, total as int);
            assert(sorted@ =~= sorted@.subrange(0, skip as int) + sub);
            vstd::seq_lib::lemma_multiset_commutative(
                sorted@.subrange(0, skip as int), sub);
            assert(out@.to_multiset().subset_of(spec_all_snaps(files@).to_multiset())) by {
                assert(forall|x: MetricSnapshot| out@.to_multiset().count(x)
                    <= sorted@.to_multiset().count(x));
            }
        }
        out
    }
}

/// The sampling-interval law: a first save on a fresh manager with a
/// connected record is accepted — appending, by `save_snapshot`'s
/// contract, exactly one snapshot to the day's file and advancing the
/// last-save time to its `now` — while a second call within the minimum
/// interval is refused and plans nothing; once the interval has
/// elapsed, a save is accepted again.
pub proof fn lemma_save_min_interval(t0: u64, t1: u64, t2: u64)
    requires
        t0 <= t1,
        t1 - t0 < MIN_SAMPLE_INTERVAL_SECS,
        t2 >= t0,
        t2 - t0 >= MIN_SAMPLE_INTERVAL_SECS,
    ensures
        spec_save_due(None, t0, true),
        !spec_save_due(Some(t0), t1, true),
        spec_save_due(Some(t0), t2, true),
        !spec_save_due(Some(t0), t1, false),
{
}

/// One daily file found on disk, by the path components that name it:
/// the year and month directory names and the day file name.
#[derive(Debug, Clone)]
pub struct DayFileEntry {
    /// The year directory name.
    pub year: String,
    /// The month directory name.
    pub month: String,
    /// The day file name, ending in `.json.gz`.
    pub day: String,
}

/// The day number a day file name denotes: digits followed by
/// `.json.gz`.
pub open spec fn spec_day_component(t: Seq<char>) -> Option<u64> {
    if t.len() >= 8 && t.subrange(t.len() - 8, t.len() as int) == ".json.gz"@ {
        crate::text::spec_parse_u64(t.take(t.len() - 8))
    } else {
        None
    }
}

/// The date a daily file's path components reconstruct, as the Unix
/// timestamp of its midnight; `None` when the components do not name a
/// calendar date the partition scheme writes.
pub open spec fn spec_entry_date(y: Seq<char>, m: Seq<char>, d: Seq<char>) -> Option<u64> {
    match (crate::text::spec_parse_u64(y), crate::text::spec_parse_u64(m), spec_day_component(d)) {
        (Some(yv), Some(mv), Some(dv)) => {
            if 1970 <= yv <= 9999 && 1 <= mv <= 12 && 1 <= dv <= 31 {
                Some(spec_date_to_timestamp(yv as nat, mv as nat, dv as nat) as u64)
            } else {
                None
            }
        },
        _ => None,
    }
}

/// Whether a daily file falls outside the retention window: its
/// reconstructed date lies before `now` minus the retention period.
/// Files whose components reconstruct no date are left alone.
pub open spec fn spec_should_remove(y: Seq<char>, m: Seq<char>, d: Seq<char>, now: u64, retention_days: u64) -> bool {
    match spec_entry_date(y, m, d) {
        Some(ts) => {
            let cutoff = if now >= retention_days * 86400 {
                now - retention_days * 86400
            } else {
                0
            };
            ts < cutoff
        },
        None => false,
    }
}

/// Reconstruct the date of a daily file from its path components.
pub fn parse_entry_date(year: &str, month: &str, day: &str) -> (r: Option<u64>)
    ensures
        r == spec_entry_date(year@, month@, day@),
{
    let yv = crate::text::chars_of(year);
    let mv = crate::text::chars_of(month);
    let dv = crate::text::chars_of(day);
    proof {
        assert(yv@.subrange(0, yv@.len() as int) =~= year@);
        assert(mv@.subrange(0, mv@.len() as int) =~= month@);
    }
    let y = match crate::text::parse_u64_range(&yv, 0, yv.len()) {
        Some(v) => v,
        None => { return None; },
    };
    let m = match crate::text::parse_u64_range(&mv, 0, mv.len()) {
        Some(v) => v,
        None => { return None; },
    };
    let dn = dv.len();
    if dn < 8 {
        return None;
    }
    let suffix = crate::text::chars_of(".json.gz");
    proof {
        reveal_strlit(".json.gz");
    }
    let mut k: usize = 0;
    while k < 8
        invariant
            0 <= k <= 8,
            8 <= dn == dv@.len(),
            suffix@ == ".json.gz"@,
            suffix@.len() == 8,
            dv@ == day@,
            forall|i: int| 0 <= i < k ==> dv@[dn - 8 + i] == suffix@[i],
        decreases 8 - k,
    {
        if dv[dn - 8 + k] != suffix[k] {
            proof {
                assert(day@.subrange(day@.len() - 8, day@.len() as int)[k as int]
                    != ".json.gz"@[k as int]);
            }
            return None;
        }
        k = k + 1;
    }
    proof {
        assert(day@.subrange(day@.len() - 8, day@.len() as int) =~= ".json.gz"@);
        assert(dv@.subrange(0, (dn - 8) as int) =~= day@.take(day@.len() - 8));
    }
    let d = match crate::text::parse_u64_range(&dv, 0, dn - 8) {
        Some(v) => v,
        None => { return None; },
    };
    if 1970 <= y && y <= 9999 && 1 <= m && m <= 12 && 1 <= d && d <= 31 {
        Some(date_to_timestamp(y, m, d))
    } else {
        None
    }
}

impl StorageManager {
    /// Decide the cleanup of the node's partition tree: for each daily
    /// file found, whether it is outside the retention window and is to
    /// be deleted — exactly those whose reconstructed date is older
    /// than `now` minus the retention period, and no others.
    pub fn cleanup_old_data(&self, entries: &Vec<DayFileEntry>, now: u64) -> (r: Vec<bool>)
        ensures
            r@.len() == entries@.len(),
            forall|i: int| 0 <= i < entries@.len() ==> r@[i] == spec_should_remove(
                entries@[i].year@, entries@[i].month@, entries@[i].day@,
                now, self.spec_retention_days()),
    {
        let span = self.retention_days as u128 * 86400;
        let cutoff: u64 = if now as u128 >= span { now - span as u64 } else { 0 };
        let n = entries.len();
        let mut out: Vec<bool> = Vec::new();
        let mut k: usize = 0;
        while k < n
            invariant
                0 <= k <= n,
                n == entries@.len(),
                out@.len() == k,
                cutoff == (if now >= self.spec_retention_days() * 86400 {
                    now - self.spec_retention_days() * 86400
                } else {
                    0int
                }),
                forall|i: int| 0 <= i < k ==> out@[i] == spec_should_remove(
                    entries@[i].year@, entries@[i].month@, entries@[i].day@,
                    now, self.spec_retention_days()),
            decreases n - k,
        {
            let e = &entries[k];
            let remove = match parse_entry_date(e.year.as_str(), e.month.as_str(), e.day.as_str()) {
                Some(ts) => ts < cutoff,
                None => false,
            };
            out.push(remove);
            k = k + 1;
        }
        out
    }
}

/// Copy a string.
fn clone_str(s: &String) -> (r: String)
    ensures
        r@ == s@,
{
    let mut out = String::new();
    out.append(s.as_str());
    proof {
        assert(out@ =~= s@);
    }
    out
}

} // verus!
