//! Server telemetry counters: how many edits and parses the server has
//! seen, how the segment cache behaved, and the latency value that goes
//! into the parse-latency histogram.
//!
//! The counters follow the arithmetic of 64-bit atomic adds: they wrap
//! around at `u64::MAX` rather than saturating.
use vstd::prelude::*;

verus! {

/// Smallest latency (µs) the parse-latency histogram tracks.
pub const HIST_MIN: u64 = 1;

/// Largest latency (µs) the parse-latency histogram tracks: 1000 s.
pub const HIST_MAX: u64 = 1_000_000_000;

/// `x + y` modulo 2^64.
pub open spec fn wrap_add(x: u64, y: u64) -> u64 {
    if x + y > u64::MAX {
        (x + y - 0x1_0000_0000_0000_0000int) as u64
    } else {
        (x + y) as u64
    }
}

/// A latency pulled into `[HIST_MIN, HIST_MAX]`.
pub open spec fn clamped(latency_us: u64) -> u64 {
    if latency_us < HIST_MIN {
        HIST_MIN
    } else if latency_us > HIST_MAX {
        HIST_MAX
    } else {
        latency_us
    }
}

/// Clamp a measured parse latency into the histogram's trackable range,
/// so that a sample of `0` or of `u64::MAX` is still recorded.
pub fn clamp_latency(latency_us: u64) -> (r: u64)
    ensures
        r == clamped(latency_us),
        HIST_MIN <= r <= HIST_MAX,
{
    if latency_us < HIST_MIN {
        HIST_MIN
    } else if latency_us > HIST_MAX {
        HIST_MAX
    } else {
        latency_us
    }
}

/// The integer counters of the server's telemetry.
#[derive(Debug, Clone, Copy, PartialEq, Eq)]
pub struct MetricCounters {
    pub edit_count: u64,
    pub parse_count: u64,
    pub cache_hit_total: u64,
    pub cache_miss_total: u64,
    pub cache_entries: u64,
    pub cache_bytes_estimate: u64,
    pub last_edit_at_unix_ms: u64,
}

impl MetricCounters {
    /// All counters at zero.
    pub fn new() -> (m: Self)
        ensures
            m.edit_count == 0,
            m.parse_count == 0,
            m.cache_hit_total == 0,
            m.cache_miss_total == 0,
            m.cache_entries == 0,
            m.cache_bytes_estimate == 0,
            m.last_edit_at_unix_ms == 0,
    {
        MetricCounters {
            edit_count: 0,
            parse_count: 0,
            cache_hit_total: 0,
            cache_miss_total: 0,
            cache_entries: 0,
            cache_bytes_estimate: 0,
            last_edit_at_unix_ms: 0,
        }
    }

    /// Account for one completed parse at `now_unix_ms`: bump the parse
    /// count, add the cache hits and misses to the running totals, store
    /// the current cache gauges, stamp the last-edit time, and return the
    /// latency to record in the histogram.
    pub fn record_parse(
        &mut self,
        latency_us: u64,
        cache_hits: u64,
        cache_misses: u64,
        cache_entries: u64,
        cache_bytes_estimate: u64,
        now_unix_ms: u64,
    ) -> (sample: u64)
        ensures
            final(self).parse_count == wrap_add(old(self).parse_count, 1),
            final(self).cache_hit_total == wrap_add(old(self).cache_hit_total, cache_hits),
            final(self).cache_miss_total == wrap_add(old(self).cache_miss_total, cache_misses),
            final(self).cache_entries == cache_entries,
            final(self).cache_bytes_estimate == cache_bytes_estimate,
            final(self).edit_count == old(self).edit_count,
            final(self).last_edit_at_unix_ms == now_unix_ms,
            sample == clamped(latency_us),
    {
        self.parse_count = self.parse_count.wrapping_add(1);
        self.cache_hit_total = self.cache_hit_total.wrapping_add(cache_hits);
        self.cache_miss_total = self.cache_miss_total.wrapping_add(cache_misses);
        self.cache_entries = cache_entries;
        self.cache_bytes_estimate = cache_bytes_estimate;
        self.last_edit_at_unix_ms = now_unix_ms;
        clamp_latency(latency_us)
    }

    /// Account for one accepted edit made at `now_unix_ms`.
    pub fn record_edit(&mut self, now_unix_ms: u64)
        ensures
            final(self).edit_count == wrap_add(old(self).edit_count, 1),
            final(self).last_edit_at_unix_ms == now_unix_ms,
            final(self).parse_count == old(self).parse_count,
            final(self).cache_hit_total == old(self).cache_hit_total,
            final(self).cache_miss_total == old(self).cache_miss_total,
            final(self).cache_entries == old(self).cache_entries,
            final(self).cache_bytes_estimate == old(self).cache_bytes_estimate,
    {
        self.edit_count = self.edit_count.wrapping_add(1);
        self.last_edit_at_unix_ms = now_unix_ms;
    }
}

/// Milliseconds since the epoch as a `u64`, saturating at `u64::MAX`.
pub fn unix_millis(millis: u128) -> (r: u64)
    ensures
        millis <= u64::MAX ==> r == millis,
        millis > u64::MAX ==> r == u64::MAX,
{
    if millis <= 0xffff_ffff_ffff_ffffu128 {
        millis as u64
    } else {
        u64::MAX
    }
}

/// `v` as a `u32`, saturating at `u32::MAX`.
pub open spec fn sat_u32(v: u64) -> u32 {
    if v <= u32::MAX {
        v as u32
    } else {
        u32::MAX
    }
}

/// `hits + misses` as a `u64` sum wraps.
pub open spec fn wrapped_total(hits: u64, misses: u64) -> int {
    if hits + misses > u64::MAX {
        hits + misses - 0x1_0000_0000_0000_0000
    } else {
        hits + misses
    }
}

/// The numerator and denominator of the cache hit rate: `None` when the
/// lookup total (hits plus misses, wrapping in `u64`) is zero, and the
/// rate is then reported as zero; else the hit total and the lookup
/// total, each saturated to `u32`.
pub fn hit_rate_operands(hits: u64, misses: u64) -> (r: Option<(u32, u32)>)
    ensures
        wrapped_total(hits, misses) == 0 <==> r is None,
        r matches Some((n, d)) ==> n == sat_u32(hits) && d == sat_u32(wrapped_total(hits, misses) as u64),
{
    let total: u64 = hits.wrapping_add(misses);
    if total == 0 {
        return None;
    }
    let n: u32 = if hits <= 0xffff_ffffu64 { hits as u32 } else { u32::MAX };
    let d: u32 = if total <= 0xffff_ffffu64 { total as u32 } else { u32::MAX };
    Some((n, d))
}

} // verus!
