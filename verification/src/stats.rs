//! Buffer pool statistics tracking.

use vstd::prelude::*;
use vstd::string::StringExecFns;

use crate::text::{decimal_str, decimal_string, two_digit_string};

verus! {

/// The cache hit rate in hundredths of a percent, rounded to the
/// nearest hundredth; zero when there were no lookups at all.
pub open spec fn hit_rate_hundredths(hits: u64, misses: u64) -> int {
    if hits + misses == 0 {
        0
    } else {
        (hits * 10000 + (hits + misses) / 2) / (hits + misses)
    }
}

/// Counters tracked by the buffer pool.
#[derive(Debug, Clone, Copy, PartialEq, Eq, Structural)]
pub struct BufferPoolStats {
    /// Number of times a page was found in the buffer pool.
    pub cache_hits: u64,
    /// Number of times a page had to be read from the backing store.
    pub cache_misses: u64,
    /// Number of times a page was evicted from the buffer pool.
    pub evictions: u64,
    /// Number of pages read from the backing store.
    pub pages_read: u64,
    /// Number of pages written to the backing store.
    pub pages_written: u64,
}

impl BufferPoolStats {
    /// Create a stats tracker with all counters at zero.
    pub fn new() -> (r: Self)
        ensures
            r == (BufferPoolStats {
                cache_hits: 0,
                cache_misses: 0,
                evictions: 0,
                pages_read: 0,
                pages_written: 0,
            }),
    {
        BufferPoolStats { cache_hits: 0, cache_misses: 0, evictions: 0, pages_read: 0, pages_written: 0 }
    }

    /// A point-in-time copy of the counters.
    pub fn snapshot(&self) -> (r: StatsSnapshot)
        ensures
            r.cache_hits == self.cache_hits,
            r.cache_misses == self.cache_misses,
            r.evictions == self.evictions,
            r.pages_read == self.pages_read,
            r.pages_written == self.pages_written,
    {
        StatsSnapshot {
            cache_hits: self.cache_hits,
            cache_misses: self.cache_misses,
            evictions: self.evictions,
            pages_read: self.pages_read,
            pages_written: self.pages_written,
        }
    }

    /// Reset all counters to zero.
    pub fn reset(&mut self)
        ensures
            *final(self) == BufferPoolStats::spec_zero(),
    {
        self.cache_hits = 0;
        self.cache_misses = 0;
        self.evictions = 0;
        self.pages_read = 0;
        self.pages_written = 0;
    }

    /// All counters at zero.
    pub open spec fn spec_zero() -> BufferPoolStats {
        BufferPoolStats {
            cache_hits: 0,
            cache_misses: 0,
            evictions: 0,
            pages_read: 0,
            pages_written: 0,
        }
    }
}

impl core::default::Default for BufferPoolStats {
    /// The default tracker has all counters at zero.
    fn default() -> (r: Self)
        ensures
            r == BufferPoolStats::spec_zero(),
    {
        BufferPoolStats::new()
    }
}

/// A point-in-time snapshot of the buffer pool counters.
#[derive(Debug, Clone, Copy, PartialEq, Eq, Structural)]
pub struct StatsSnapshot {
    pub cache_hits: u64,
    pub cache_misses: u64,
    pub evictions: u64,
    pub pages_read: u64,
    pub pages_written: u64,
}

impl StatsSnapshot {
    /// A human-readable rendering of the counters, with the hit rate as
    /// a percentage rounded to two decimal places.
    pub fn display_string(&self) -> (r: String)
        ensures
            r@ == "Stats { hits: "@ + decimal_str(self.cache_hits as nat) + ", misses: "@
                + decimal_str(self.cache_misses as nat) + ", evictions: "@ + decimal_str(
                self.evictions as nat,
            ) + ", hit_rate: "@ + decimal_str(
                (hit_rate_hundredths(self.cache_hits, self.cache_misses) / 100) as nat,
            ) + "."@ + (if hit_rate_hundredths(self.cache_hits, self.cache_misses) % 100 < 10 {
                seq!['0'] + decimal_str(
                    (hit_rate_hundredths(self.cache_hits, self.cache_misses) % 100) as nat,
                )
            } else {
                decimal_str((hit_rate_hundredths(self.cache_hits, self.cache_misses) % 100) as nat)
            }) + "% }"@,
    {
        let hundredths = self.hit_rate_hundredths_value();
        let mut s = String::from_str("Stats { hits: ");
        let hits = decimal_string(self.cache_hits);
        s.append(hits.as_str());
        s.append(", misses: ");
        let misses = decimal_string(self.cache_misses);
        s.append(misses.as_str());
        s.append(", evictions: ");
        let evictions = decimal_string(self.evictions);
        s.append(evictions.as_str());
        s.append(", hit_rate: ");
        let whole = decimal_string(hundredths / 100);
        s.append(whole.as_str());
        s.append(".");
        let frac = two_digit_string(hundredths % 100);
        s.append(frac.as_str());
        s.append("% }");
        s
    }

    /// The hit rate in hundredths of a percent, rounded to the nearest
    /// hundredth; zero when no lookup happened.
    pub fn hit_rate_hundredths_value(&self) -> (r: u64)
        ensures
            r == hit_rate_hundredths(self.cache_hits, self.cache_misses),
            r <= 10000,
    {
        let hits: u128 = self.cache_hits as u128;
        let misses: u128 = self.cache_misses as u128;
        let total: u128 = hits + misses;
        if total == 0 {
            0
        } else {
            let r: u128 = (hits * 10000 + total / 2) / total;
            proof {
                lemma_hit_rate_bound(self.cache_hits as int, self.cache_misses as int);
            }
            r as u64
        }
    }
}

/// The rounded hit rate never exceeds 10000 hundredths (100 percent):
/// the hits are at most the total, so the quotient is at most
/// 10000 plus a rounding term below one.
proof fn lemma_hit_rate_bound(hits: int, misses: int)
    requires
        hits >= 0,
        misses >= 0,
        hits + misses > 0,
    ensures
        (hits * 10000 + (hits + misses) / 2) / (hits + misses) <= 10000,
{
    let total = hits + misses;
    assert(hits * 10000 <= total * 10000) by (nonlinear_arith)
        requires
            hits <= total,
            total > 0,
    ;
    assert(hits * 10000 + total / 2 <= total * 10000 + total / 2);
    assert((total * 10000 + total / 2) / total <= 10000) by (nonlinear_arith)
        requires
            total > 0,
    ;
    assert((hits * 10000 + total / 2) / total <= (total * 10000 + total / 2) / total)
        by (nonlinear_arith)
        requires
            total > 0,
            hits * 10000 + total / 2 <= total * 10000 + total / 2,
    ;
}

} // verus!
