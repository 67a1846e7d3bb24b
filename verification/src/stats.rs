use vstd::prelude::*;

use crate::render::decimal_u64;
use crate::render::spec_decimal;

verus! {

/// Per-worker execution counters. Each worker owns one `Stats` value; the
/// coordinator aggregates the per-worker counters into a global one.
#[derive(Debug, Clone, Copy)]
pub struct Stats {
    pub crashes: u64,
    pub execs: u64,
    pub time_running: u64,
    pub execs_per_sec: u64,
    pub secs_since_last_cov: u64,
    pub unique_crashes: u64,
    pub coverage_size: u64,
}

impl Stats {
    /// A fresh counter block: everything starts at zero.
    pub fn new() -> (r: Stats)
        ensures
            r.crashes == 0,
            r.execs == 0,
            r.time_running == 0,
            r.execs_per_sec == 0,
            r.secs_since_last_cov == 0,
            r.unique_crashes == 0,
            r.coverage_size == 0,
    {
        Stats {
            crashes: 0,
            time_running: 0,
            execs: 0,
            execs_per_sec: 0,
            secs_since_last_cov: 0,
            unique_crashes: 0,
            coverage_size: 0,
        }
    }

    /// One second has passed: the running time and the time since the last
    /// new coverage advance, and the throughput is recomputed over the
    /// whole run. The denominator is at least one, so nothing divides by
    /// zero.
    pub fn tick(&mut self)
        ensures
            final(self).time_running as int == if old(self).time_running == u64::MAX {
                u64::MAX as int
            } else {
                old(self).time_running + 1
            },
            final(self).secs_since_last_cov as int == if old(self).secs_since_last_cov
                == u64::MAX {
                u64::MAX as int
            } else {
                old(self).secs_since_last_cov + 1
            },
            final(self).execs_per_sec == old(self).execs / final(self).time_running,
            final(self).execs == old(self).execs,
            final(self).crashes == old(self).crashes,
            final(self).unique_crashes == old(self).unique_crashes,
            final(self).coverage_size == old(self).coverage_size,
    {
        self.time_running = self.time_running.saturating_add(1);
        self.secs_since_last_cov = self.secs_since_last_cov.saturating_add(1);
        self.execs_per_sec = self.execs / self.time_running;
    }

    /// The point appended to the dashboard graphs on a tick: none during
    /// the first tick, while the running time is still zero; afterwards
    /// the time, the coverage size, and the crash rate.
    pub fn graph_point(&self) -> (r: Option<(u64, u64, u64)>)
        ensures
            self.time_running == 0 ==> r matches None,
            self.time_running > 0 ==> r == Some(
                (self.time_running, self.coverage_size, self.crashes / self.time_running),
            ),
    {
        if self.time_running == 0 {
            None
        } else {
            Some((self.time_running, self.coverage_size, self.crashes / self.time_running))
        }
    }

    /// The periodic heartbeat of the line-printing fallback.
    pub fn heartbeat_line(&self, coverage_len: u64) -> (r: String)
        ensures
            r@ == spec_decimal(self.time_running as int) + "s running time | "@ + spec_decimal(
                self.execs_per_sec as int,
            ) + " execs/s | total execs: "@ + spec_decimal(self.execs as int) + " | crashes: "@
                + spec_decimal(self.crashes as int) + " | unique crashes: "@ + spec_decimal(
                self.unique_crashes as int,
            ) + " | coverage: "@ + spec_decimal(coverage_len as int),
    {
        let mut s = decimal_u64(self.time_running);
        s.append("s running time | ");
        let eps = decimal_u64(self.execs_per_sec);
        s.append(eps.as_str());
        s.append(" execs/s | total execs: ");
        let execs = decimal_u64(self.execs);
        s.append(execs.as_str());
        s.append(" | crashes: ");
        let crashes = decimal_u64(self.crashes);
        s.append(crashes.as_str());
        s.append(" | unique crashes: ");
        let unique = decimal_u64(self.unique_crashes);
        s.append(unique.as_str());
        s.append(" | coverage: ");
        let cov = decimal_u64(coverage_len);
        s.append(cov.as_str());
        proof {
            assert(s@ =~= spec_decimal(self.time_running as int) + "s running time | "@
                + spec_decimal(self.execs_per_sec as int) + " execs/s | total execs: "@
                + spec_decimal(self.execs as int) + " | crashes: "@ + spec_decimal(
                self.crashes as int,
            ) + " | unique crashes: "@ + spec_decimal(self.unique_crashes as int)
                + " | coverage: "@ + spec_decimal(coverage_len as int));
        }
        s
    }
}

/// Whether the line-printing fallback owes a heartbeat at this execution
/// count.
pub fn should_heartbeat(execs: u64) -> (r: bool)
    ensures
        r == (execs % 100000 == 0),
{
    execs % 100000 == 0
}

/// The progress fraction as reported: the coverage size over the target's
/// bound on reachable counters. A zero bound is reported as a zero
/// denominator; nothing divides by it.
pub fn progress_display(coverage_size: u64, max_coverage: u64) -> (r: String)
    ensures
        r@ == spec_decimal(coverage_size as int) + "/"@ + spec_decimal(max_coverage as int),
{
    let mut s = decimal_u64(coverage_size);
    s.append("/");
    let max = decimal_u64(max_coverage);
    s.append(max.as_str());
    proof {
        assert(s@ =~= spec_decimal(coverage_size as int) + "/"@ + spec_decimal(
            max_coverage as int,
        ));
    }
    s
}

/// The sum of the first `k` workers' execution counters.
pub open spec fn sum_execs(s: Seq<Stats>, k: int) -> int
    decreases k,
{
    if k <= 0 {
        0
    } else {
        sum_execs(s, k - 1) + s[k - 1].execs
    }
}

/// The sum of the first `k` workers' crash counters.
pub open spec fn sum_crashes(s: Seq<Stats>, k: int) -> int
    decreases k,
{
    if k <= 0 {
        0
    } else {
        sum_crashes(s, k - 1) + s[k - 1].crashes
    }
}

/// The total executions over all workers, saturating at the counter's
/// ceiling.
#[verifier::loop_isolation(false)]
pub fn total_execs(stats: &Vec<Stats>) -> (r: u64)
    ensures
        r as int == if sum_execs(stats@, stats@.len() as int) <= u64::MAX {
            sum_execs(stats@, stats@.len() as int)
        } else {
            u64::MAX as int
        },
{
    let mut sum: u64 = 0;
    let mut i: usize = 0;
    while i < stats.len()
        invariant
            i <= stats@.len(),
            sum as int == if sum_execs(stats@, i as int) <= u64::MAX {
                sum_execs(stats@, i as int)
            } else {
                u64::MAX as int
            },
        decreases stats@.len() - i,
    {
        sum = sum.saturating_add(stats[i].execs);
        i += 1;
    }
    sum
}

/// The total crashes over all workers, saturating at the counter's
/// ceiling.
#[verifier::loop_isolation(false)]
pub fn total_crashes(stats: &Vec<Stats>) -> (r: u64)
    ensures
        r as int == if sum_crashes(stats@, stats@.len() as int) <= u64::MAX {
            sum_crashes(stats@, stats@.len() as int)
        } else {
            u64::MAX as int
        },
{
    let mut sum: u64 = 0;
    let mut i: usize = 0;
    while i < stats.len()
        invariant
            i <= stats@.len(),
            sum as int == if sum_crashes(stats@, i as int) <= u64::MAX {
                sum_crashes(stats@, i as int)
            } else {
                u64::MAX as int
            },
        decreases stats@.len() - i,
    {
        sum = sum.saturating_add(stats[i].crashes);
        i += 1;
    }
    sum
}

} // verus!
