//! Frame pacing: a moving average of measured frame times and the
//! computation of how many vsync periods to wait so the effective
//! refresh rate lands near the desired one. The waiting itself (timers,
//! compositor signals) lives outside; this is the arithmetic it needs.

use vstd::prelude::*;

verus! {

/// How many frame samples the moving average spans.
pub const FRAME_SAMPLE_WINDOW: usize = 10;

/// The sum of a sequence of microsecond samples.
pub open spec fn spec_sum(s: Seq<u64>) -> int
    decreases s.len(),
{
    if s.len() == 0 {
        0
    } else {
        spec_sum(s.drop_last()) + s.last()
    }
}

/// Moving average over the last few frame durations, in microseconds.
pub struct FrameTimes {
    pub samples: Vec<u64>,
}

impl FrameTimes {
    pub open spec fn wf(&self) -> bool {
        &&& self.samples@.len() <= FRAME_SAMPLE_WINDOW
        &&& forall|i: int| 0 <= i < self.samples@.len() ==> (#[trigger] self.samples@[i]) <= 10_000_000
    }

    pub fn new() -> (r: FrameTimes)
        ensures
            r.wf(),
            r.samples@.len() == 0,
    {
        FrameTimes { samples: Vec::new() }
    }

    /// Record one frame duration, dropping the oldest once the window is
    /// full. Durations are capped at ten seconds: longer stalls would
    /// poison the average.
    pub fn add_sample(&mut self, dt_us: u64)
        requires
            old(self).wf(),
        ensures
            final(self).wf(),
            ({
                let capped: u64 = if dt_us <= 10_000_000 {
                    dt_us
                } else {
                    10_000_000u64
                };
                if old(self).samples@.len() < FRAME_SAMPLE_WINDOW {
                    final(self).samples@ == old(self).samples@.push(capped)
                } else {
                    final(self).samples@ == old(self).samples@.drop_first().push(capped)
                }
            }),
    {
        let capped = if dt_us <= 10_000_000 {
            dt_us
        } else {
            10_000_000
        };
        if self.samples.len() >= FRAME_SAMPLE_WINDOW {
            self.samples.remove(0);
            proof {
                assert(self.samples@ =~= old(self).samples@.drop_first());
            }
        }
        self.samples.push(capped);
    }

    /// The average frame duration in microseconds; zero while no sample
    /// has been recorded.
    pub fn average(&self) -> (r: u64)
        requires
            self.wf(),
        ensures
            self.samples@.len() == 0 ==> r == 0,
            self.samples@.len() > 0 ==> r as int == spec_sum(self.samples@) / (
            self.samples@.len() as int),
            r <= 10_000_000,
    {
        let n = self.samples.len();
        if n == 0 {
            return 0;
        }
        let mut sum: u64 = 0;
        let mut i: usize = 0;
        while i < n
            invariant
                i <= n,
                n == self.samples@.len(),
                self.wf(),
                sum == spec_sum(self.samples@.subrange(0, i as int)),
                sum <= i * 10_000_000,
            decreases n - i,
        {
            proof {
                assert(self.samples@.subrange(0, i + 1).drop_last() =~= self.samples@.subrange(
                    0,
                    i as int,
                ));
            }
            sum = sum + self.samples[i];
            i += 1;
        }
        proof {
            assert(self.samples@.subrange(0, n as int) =~= self.samples@);
            vstd::arithmetic::div_mod::lemma_div_is_ordered(
                spec_sum(self.samples@),
                (n as int) * 10_000_000,
                n as int,
            );
            vstd::arithmetic::div_mod::lemma_div_multiples_vanish(10_000_000, n as int);
            vstd::arithmetic::div_mod::lemma_div_is_ordered(0, spec_sum(self.samples@), n as int);
        }
        sum / (n as u64)
    }
}

/// How many vsync periods to skip so that a display refreshing every
/// `dt_avg_us` microseconds shows frames near `desired_rate` Hz:
/// `round(measured_rate / desired_rate)`, at least one. Rates below
/// thirty are treated as thirty.
pub open spec fn spec_vsync_interval(dt_avg_us: int, desired_rate: int) -> int {
    if dt_avg_us <= 0 {
        1
    } else {
        let desired = if desired_rate >= 30 {
            desired_rate
        } else {
            30
        };
        let denom = dt_avg_us * desired;
        let raw = (1_000_000 + denom / 2) / denom;
        if raw >= 1 {
            raw
        } else {
            1
        }
    }
}

pub fn vsync_interval(dt_avg_us: u64, desired_rate: u64) -> (r: u64)
    requires
        dt_avg_us <= 10_000_000,
        desired_rate <= 100_000,
    ensures
        r as int == spec_vsync_interval(dt_avg_us as int, desired_rate as int),
        r >= 1,
{
    if dt_avg_us == 0 {
        return 1;
    }
    let desired = if desired_rate >= 30 {
        desired_rate
    } else {
        30
    };
    proof {
        crate::fixed::lemma_mul_abs_bound(
            dt_avg_us as int,
            desired as int,
            10_000_000,
            100_000,
        );
        assert(dt_avg_us as int * desired as int > 0) by (nonlinear_arith)
            requires
                dt_avg_us > 0,
                desired > 0,
        {
        }
    }
    let denom = dt_avg_us * desired;
    let raw = (1_000_000 + denom / 2) / denom;
    proof {
        vstd::arithmetic::div_mod::lemma_div_is_ordered(
            1_000_000 + (denom as int) / 2,
            2_000_000_000_000,
            denom as int,
        );
        vstd::arithmetic::div_mod::lemma_div_is_ordered(
            0,
            1_000_000 + (denom as int) / 2,
            denom as int,
        );
    }
    if raw >= 1 {
        raw
    } else {
        1
    }
}

} // verus!
