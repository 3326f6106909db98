//! The TCP reachability probe: tallies of answered and unanswered
//! connection attempts, their round-trip times, and the reading of the
//! command line.  Times are whole nanoseconds, as `Duration::as_nanos`
//! gives them.

use vstd::prelude::*;
use crate::text::{
    decimal_digits, find_last, lemma_decimal_digits, lemma_parse_i32_reads_decimal,
    lemma_parse_unsigned_reads_decimal, parse_i32,
    parse_i32_value, parse_u16, parse_unsigned,
};
use vstd::string::StrSliceExecFns;

verus! {

/// The longest time a `Duration` can hold, in nanoseconds.
pub const DURATION_MAX_NANOS: u128 = 18_446_744_073_709_551_615_999_999_999u128;

/// Tallies of a run of connection attempts.
pub struct PingStatus {
    pub successful: u32,
    pub failed: u32,
    /// Sum of the round-trip times of the answered attempts.
    pub total_time: u128,
    /// Shortest round-trip time; the longest `Duration` before any answer.
    pub min_time: u128,
    /// Longest round-trip time; zero before any answer.
    pub max_time: u128,
}

/// Shortest, average and longest round-trip time, in nanoseconds.
#[derive(Clone, Copy, Debug, PartialEq, Eq, Structural)]
pub struct RoundTrip {
    pub min: u128,
    pub avg: u128,
    pub max: u128,
}

/// What the closing statistics report.
#[derive(Clone, Copy, Debug, PartialEq, Eq, Structural)]
pub struct PingSummary {
    pub transmitted: u32,
    pub received: u32,
    pub lost: u32,
    /// Shortest, average and longest round-trip time, when any attempt was
    /// answered.
    pub rtt: Option<RoundTrip>,
}

impl PingStatus {
    /// The tallies are consistent: times fit a `Duration`; before any answer
    /// they hold their starting values; after, the shortest time is at most
    /// the longest, and the sum lies between count times shortest and count
    /// times longest.
    pub open spec fn wf(&self) -> bool {
        &&& self.total_time <= DURATION_MAX_NANOS
        &&& self.min_time <= DURATION_MAX_NANOS
        &&& self.max_time <= DURATION_MAX_NANOS
        &&& self.successful == 0 ==> {
            &&& self.total_time == 0
            &&& self.min_time == DURATION_MAX_NANOS
            &&& self.max_time == 0
        }
        &&& self.successful > 0 ==> {
            &&& self.min_time <= self.max_time
            &&& self.successful * self.min_time <= self.total_time
            &&& self.total_time <= self.successful * self.max_time
        }
    }

    /// Tallies with nothing recorded.
    pub fn new() -> (r: PingStatus)
        ensures
            r.wf(),
            r.successful == 0,
            r.failed == 0,
            r.total_time == 0,
            r.min_time == DURATION_MAX_NANOS,
            r.max_time == 0,
    {
        PingStatus {
            successful: 0,
            failed: 0,
            total_time: 0,
            min_time: DURATION_MAX_NANOS,
            max_time: 0,
        }
    }

    /// Records an answered attempt that took `elapsed` nanoseconds, keeping
    /// consistent tallies consistent.  The count and the sum must not
    /// overflow (a `u32` and a `Duration`).
    pub fn record_success(&mut self, elapsed: u128)
        requires
            old(self).successful < u32::MAX,
            old(self).total_time + elapsed <= DURATION_MAX_NANOS,
        ensures
            old(self).wf() ==> final(self).wf(),
            final(self).successful == old(self).successful + 1,
            final(self).failed == old(self).failed,
            final(self).total_time == old(self).total_time + elapsed,
            final(self).min_time == if elapsed < old(self).min_time {
                elapsed
            } else {
                old(self).min_time
            },
            final(self).max_time == if elapsed > old(self).max_time {
                elapsed
            } else {
                old(self).max_time
            },
    {
        let ghost s = self.successful as int;
        let ghost lo = self.min_time as int;
        let ghost hi = self.max_time as int;
        let ghost tot = self.total_time as int;
        self.successful = self.successful + 1;
        self.total_time = self.total_time + elapsed;
        if elapsed < self.min_time {
            self.min_time = elapsed;
        }
        if elapsed > self.max_time {
            self.max_time = elapsed;
        }
        proof {
            if old(self).wf() {
                lemma_record_keeps_bounds(s, lo, hi, tot, elapsed as int, self.min_time as int, self.max_time as int);
                assert(self.successful * self.min_time == (s + 1) * (self.min_time as int));
                assert(self.successful * self.max_time == (s + 1) * (self.max_time as int));
            }
        }
    }

    /// Records an unanswered attempt; the count must not overflow.
    pub fn record_failure(&mut self)
        requires
            old(self).failed < u32::MAX,
        ensures
            old(self).wf() ==> final(self).wf(),
            final(self).failed == old(self).failed + 1,
            final(self).successful == old(self).successful,
            final(self).total_time == old(self).total_time,
            final(self).min_time == old(self).min_time,
            final(self).max_time == old(self).max_time,
    {
        self.failed = self.failed + 1;
    }

    /// The closing statistics: `None` when nothing was sent; the round-trip
    /// times only when some attempt was answered, with the average rounded
    /// down to a whole nanosecond, which lies between the shortest and the
    /// longest for consistent tallies.  The number of attempts must fit a
    /// `u32`.
    pub fn summary(&self) -> (r: Option<PingSummary>)
        requires
            self.successful + self.failed <= u32::MAX,
        ensures
            self.successful + self.failed == 0 <==> r is None,
            r matches Some(s) ==> {
                &&& s.transmitted == self.successful + self.failed
                &&& s.received == self.successful
                &&& s.lost == self.failed
                &&& (s.rtt is Some <==> self.successful > 0)
                &&& (s.rtt matches Some(t) ==> {
                    &&& t.min == self.min_time
                    &&& t.avg == self.total_time / (self.successful as u128)
                    &&& t.max == self.max_time
                    &&& self.wf() ==> t.min <= t.avg <= t.max
                })
            },
    {
        let total_packets = self.successful + self.failed;
        if total_packets == 0 {
            return None;
        }
        let rtt = if self.successful > 0 {
            let average = self.total_time / (self.successful as u128);
            proof {
                if self.wf() {
                lemma_average_between(
                    self.successful as int,
                    self.min_time as int,
                    self.total_time as int,
                    self.max_time as int,
                );
                }
            }
            Some(RoundTrip { min: self.min_time, avg: average, max: self.max_time })
        } else {
            None
        };
        Some(PingSummary {
            transmitted: total_packets,
            received: self.successful,
            lost: self.failed,
            rtt,
        })
    }
}

/// Adding a time `e` to `s` recorded times keeps the sum between the count
/// times the shortest and the count times the longest.
proof fn lemma_record_keeps_bounds(s: int, lo: int, hi: int, tot: int, e: int, lo2: int, hi2: int)
    requires
        s >= 0,
        e >= 0,
        s == 0 ==> tot == 0 && lo2 == e && hi2 == e,
        s > 0 ==> s * lo <= tot && tot <= s * hi && lo2 <= lo && hi <= hi2,
        lo2 <= e <= hi2,
        0 <= lo2,
    ensures
        (s + 1) * lo2 <= tot + e <= (s + 1) * hi2,
{
    if s > 0 {
        assert((s + 1) * lo2 <= tot + e) by (nonlinear_arith)
            requires
                s * lo <= tot,
                lo2 <= lo,
                lo2 <= e,
                0 <= lo2,
                s > 0,
        ;
        assert(tot + e <= (s + 1) * hi2) by (nonlinear_arith)
            requires
                tot <= s * hi,
                hi <= hi2,
                e <= hi2,
                s > 0,
        ;
    } else {
        assert(1 * lo2 == lo2) by (nonlinear_arith);
        assert(1 * hi2 == hi2) by (nonlinear_arith);
    }
}

/// When `count` times are each between `lo` and `hi` and sum to `total`,
/// their average rounded down lies between `lo` and `hi` too.
pub proof fn lemma_average_between(count: int, lo: int, total: int, hi: int)
    requires
        count > 0,
        0 <= lo,
        count * lo <= total,
        total <= count * hi,
    ensures
        lo <= total / count <= hi,
{
    assert(lo <= total / count) by (nonlinear_arith)
        requires
            count > 0,
            count * lo <= total,
    ;
    assert(total / count <= hi) by (nonlinear_arith)
        requires
            count > 0,
            total <= count * hi,
    ;
}

/// How a round-trip time is shown: under 50 ms, under 150 ms, or slower.
#[derive(Clone, Copy, Debug, PartialEq, Eq, Structural)]
pub enum Latency {
    Fast,
    Moderate,
    Slow,
}

/// The band of a round-trip time of `elapsed` nanoseconds.
pub fn latency_class(elapsed: u128) -> (r: Latency)
    ensures
        elapsed < 50_000_000 ==> r == Latency::Fast,
        50_000_000 <= elapsed < 150_000_000 ==> r == Latency::Moderate,
        150_000_000 <= elapsed ==> r == Latency::Slow,
{
    if elapsed < 50_000_000 {
        Latency::Fast
    } else if elapsed < 150_000_000 {
        Latency::Moderate
    } else {
        Latency::Slow
    }
}


/// A target written `host` or `host:port`, split at its last `:`: the host,
/// and the port when the text after the `:` reads as a `u16`.
pub open spec fn target_parts(raw: Seq<char>) -> (Seq<char>, Option<nat>) {
    match raw.index_of_last(':') {
        Some(i) => (raw.subrange(0, i), parse_unsigned(raw.subrange(i + 1, raw.len() as int), u16::MAX as nat)),
        None => (raw, None),
    }
}

/// Splits a target into its host and its inline port.
pub fn split_target(raw: &str) -> (r: (&str, Option<u16>))
    ensures
        r.0@ == target_parts(raw@).0,
        match r.1 {
            Some(p) => target_parts(raw@).1 == Some(p as nat),
            None => target_parts(raw@).1 is None,
        },
{
    match find_last(raw, ':') {
        Some(i) => {
            let n = raw.unicode_len();
            proof {
                raw@.index_of_last_ensures(':');
            }
            let host = raw.substring_char(0, i);
            let port_text = raw.substring_char(i + 1, n);
            (host, parse_u16(port_text))
        },
        None => (raw, None),
    }
}

/// The port used when none is given: 80 for an IP address, 443 for a name.
pub open spec fn default_port(host_is_ip: bool) -> u16 {
    if host_is_ip {
        80
    } else {
        443
    }
}

/// Argument `k` read as a `u16`, or `default` when it is missing or does
/// not read as one.
pub open spec fn arg_u16_or(args: Seq<String>, k: int, default: u16) -> u16 {
    if 0 <= k < args.len() {
        match parse_unsigned(args[k]@, u16::MAX as nat) {
            Some(v) => v as u16,
            None => default,
        }
    } else {
        default
    }
}

/// Argument `k` read as an `i32`, or `default` when it is missing or does
/// not read as one.
pub open spec fn arg_i32_or(args: Seq<String>, k: int, default: i32) -> i32 {
    if 0 <= k < args.len() {
        match parse_i32_value(args[k]@) {
            Some(v) => v as i32,
            None => default,
        }
    } else {
        default
    }
}

/// The number of attempts made when none is given.
pub const DEFAULT_COUNT: i32 = 5;

fn u16_arg_or(args: &Vec<String>, k: usize, default: u16) -> (r: u16)
    ensures
        r == arg_u16_or(args@, k as int, default),
{
    if k < args.len() {
        match parse_u16(args[k].as_str()) {
            Some(v) => v,
            None => default,
        }
    } else {
        default
    }
}

fn i32_arg_or(args: &Vec<String>, k: usize, default: i32) -> (r: i32)
    ensures
        r == arg_i32_or(args@, k as int, default),
{
    if k < args.len() {
        match parse_i32(args[k].as_str()) {
            Some(v) => v,
            None => default,
        }
    } else {
        default
    }
}

/// The port and the number of attempts, from the command line
/// `args` (program name first, target second).  With an inline port the
/// count is the third argument; otherwise the port is the third and the
/// count the fourth, the port falling back to `default_port`.
pub fn port_and_count(args: &Vec<String>, inline_port: Option<u16>, host_is_ip: bool) -> (r: (u16, i32))
    ensures
        inline_port matches Some(p) ==> r == (p, arg_i32_or(args@, 2, DEFAULT_COUNT)),
        inline_port is None ==> r == (
            arg_u16_or(args@, 2, default_port(host_is_ip)),
            arg_i32_or(args@, 3, DEFAULT_COUNT),
        ),
{
    match inline_port {
        Some(p) => (p, i32_arg_or(args, 2, DEFAULT_COUNT)),
        None => {
            let default: u16 = if host_is_ip { 80 } else { 443 };
            (u16_arg_or(args, 2, default), i32_arg_or(args, 3, DEFAULT_COUNT))
        },
    }
}

/// Whether the probe waits before its next attempt, after attempt number
/// `attempt` of `count`: only when another attempt follows and no
/// interrupt has come.
pub fn pause_after(attempt: i32, count: i32, running: bool) -> (r: bool)
    ensures
        r == (attempt < count && running),
{
    attempt < count && running
}

/// A target written as a host without `:`, a `:` and a port in decimal
/// splits into that host and that port, for every port a `u16` holds.
pub proof fn lemma_target_with_port(host: Seq<char>, port: u16)
    requires
        !host.contains(':'),
    ensures
        target_parts(host + seq![':'] + decimal_digits(port as nat)) == (host, Some(port as nat)),
{
    let d = decimal_digits(port as nat);
    lemma_decimal_digits(port as nat);
    lemma_parse_unsigned_reads_decimal(port as nat, u16::MAX as nat);
    let s = host + seq![':'] + d;
    let k = host.len() as int;
    assert(s[k] == ':');
    assert(s.contains(':'));
    s.index_of_last_ensures(':');
    let j = s.index_of_last(':').unwrap();
    if j > k {
        assert(s[j] == d[j - k - 1]);
        assert(d.contains(':'));
    } else if j < k {
        assert(s[j] == host[j]);
        assert(host.contains(':'));
    }
    assert(j == k);
    assert(s.subrange(0, k) =~= host);
    assert(s.subrange(k + 1, s.len() as int) =~= d);
}

/// Without an inline port, a port argument written in decimal is used
/// whatever the host; without one, a name gets 443 and an IP address 80.
/// A count argument written in decimal is used; without one the count is 5.
pub proof fn lemma_port_and_count_arguments(args: Seq<String>, port: u16, count: u32, host_is_ip: bool)
    requires
        count <= 0x7fff_ffff,
    ensures
        args.len() > 2 && args[2]@ == decimal_digits(port as nat) ==> arg_u16_or(args, 2, default_port(host_is_ip)) == port,
        args.len() <= 2 ==> arg_u16_or(args, 2, default_port(host_is_ip)) == (if host_is_ip { 80u16 } else { 443u16 }),
        args.len() > 3 && args[3]@ == decimal_digits(count as nat) ==> arg_i32_or(args, 3, DEFAULT_COUNT) == count as i32,
        args.len() <= 3 ==> arg_i32_or(args, 3, DEFAULT_COUNT) == 5,
{
    lemma_parse_unsigned_reads_decimal(port as nat, u16::MAX as nat);
    lemma_parse_i32_reads_decimal(count as nat);
}

/// A target without `:` is all host, with no inline port.
pub proof fn lemma_target_without_colon(raw: Seq<char>)
    requires
        !raw.contains(':'),
    ensures
        target_parts(raw) == (raw, None::<nat>),
{
    raw.index_of_last_ensures(':');
}

} // verus!
