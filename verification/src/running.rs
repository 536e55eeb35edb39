//! The rhythm-based speed model.
//!
//! A bounded history of normalized hand positions is analyzed for
//! swings: each sign change of the horizontal hand offset closes a
//! swing and records its peak amplitude.  Swing frequency and average
//! amplitude combine into a skill factor in `[0, 1]` that interpolates
//! the movement speed between walking and full running.

use std::collections::VecDeque;

use vstd::prelude::*;

use crate::fixed::{
    fx_abs, fx_add, fx_max, fx_sub, sat64, sat_i64, spec_abs, spec_clamp, tdiv, UNIT,
};
use crate::vector::Vec2;

verus! {

/// How far back, in raw time units, hand samples are kept.
pub const RECORD_LENGTH: i64 = 2000;

/// The normalized swing amplitude at which the speed reward saturates.
pub const MAX_AMPLITUDE: i64 = 500;

/// Movement speed with no swing rhythm at all.
pub const WALKING_SPEED: i64 = 2000;

/// Movement speed at a full-amplitude, full-frequency swing rhythm.
pub const MAX_RUNNING_SPEED: i64 = 6000;

/// The swing frequency (raw swings per second) that earns the full
/// frequency factor.
pub const REFERENCE_FREQUENCY: i64 = 2000;

/// One recorded hand sample.
#[derive(Clone, Copy, Debug, PartialEq, Eq, Structural)]
pub struct BodyMovementState {
    pub time: i64,
    /// Hand offset from the body, normalized by the arm's reach.
    pub hand: Vec2,
}

/// The bounded, time-ordered history of hand samples.
#[derive(Clone, Debug)]
pub struct BodyMovementHistory {
    pub time: i64,
    pub states: VecDeque<BodyMovementState>,
}

/// The swing analysis of a history: closed swings, their summed peak
/// amplitudes, and the time the samples span.
#[derive(Clone, Copy, Debug, PartialEq, Eq, Structural)]
pub struct BodyMovementInfo {
    pub swings: i64,
    pub total_amplitude: i64,
    pub duration: i64,
}

/// The movement speed the rhythm earns.
#[derive(Clone, Copy, Debug, PartialEq, Eq, Structural)]
pub struct BodyMovementStats {
    pub move_speed: i64,
}

/// A well-formed history: samples are time-ordered, none is newer than
/// the clock, and none is older than the record window.
pub open spec fn history_wf(h: BodyMovementHistory) -> bool {
    &&& forall|i: int| 0 <= i < h.states@.len() ==> #[trigger] h.states@[i].time <= h.time
        && h.time - h.states@[i].time <= RECORD_LENGTH
    &&& forall|i: int, j: int| 0 <= i <= j < h.states@.len() ==> #[trigger] h.states@[i].time
        <= #[trigger] h.states@[j].time
}

/// The samples left after evicting, from the front, every sample at or
/// before the time limit.
pub open spec fn spec_evict(s: Seq<BodyMovementState>, limit: int) -> Seq<BodyMovementState>
    decreases s.len(),
{
    if s.len() > 0 && s[0].time <= limit {
        spec_evict(s.subrange(1, s.len() as int), limit)
    } else {
        s
    }
}

/// The swing scan from sample `i` on: `sign` is the current side of
/// the horizontal hand offset, `peak` the largest magnitude seen in
/// the open swing; a sign change closes a swing, adds its peak to the
/// total and opens a new one.  Returns closed swings and their summed
/// peaks.
pub open spec fn spec_scan(
    s: Seq<BodyMovementState>,
    i: int,
    sign: bool,
    peak: int,
    swings: int,
    total: int,
) -> (int, int)
    decreases s.len() - i,
{
    if i < 0 || i >= s.len() {
        (swings, total)
    } else {
        let x = s[i].hand.x as int;
        let pos = x >= 0;
        if pos == sign {
            let peak2 = if sat64(spec_abs(x)) > peak {
                sat64(spec_abs(x))
            } else {
                peak
            };
            spec_scan(s, i + 1, sign, peak2, swings, total)
        } else {
            spec_scan(s, i + 1, pos, sat64(spec_abs(x)), sat64(swings + 1), sat64(total + peak))
        }
    }
}

/// The analysis of a sample sequence.
pub open spec fn spec_analyze_seq(s: Seq<BodyMovementState>) -> BodyMovementInfo {
    if s.len() == 0 {
        BodyMovementInfo { swings: 0, total_amplitude: 0, duration: 0 }
    } else {
        let x0 = s[0].hand.x as int;
        let scan = spec_scan(s, 1, x0 >= 0, sat64(spec_abs(x0)), 0, 0);
        BodyMovementInfo {
            swings: scan.0 as i64,
            total_amplitude: scan.1 as i64,
            duration: sat_i64(s[s.len() - 1].time - s[0].time),
        }
    }
}

/// The analysis of a whole history.
pub open spec fn spec_analyze(h: BodyMovementHistory) -> BodyMovementInfo {
    spec_analyze_seq(h.states@)
}

/// The speed a given analysis earns: the swing frequency normalized by
/// the reference frequency and capped at one, times the average
/// amplitude capped at [`MAX_AMPLITUDE`] and normalized, interpolates
/// between [`WALKING_SPEED`] and [`MAX_RUNNING_SPEED`].
pub open spec fn spec_calc_stats(info: BodyMovementInfo) -> BodyMovementStats {
    let elapsed = if info.duration >= 1 {
        info.duration as int
    } else {
        1
    };
    let freq = sat64(tdiv(info.swings * UNIT * UNIT, elapsed));
    let freq_factor = spec_clamp(tdiv(freq * UNIT, REFERENCE_FREQUENCY as int), 0, UNIT as int);
    let denom = if info.swings >= 1 {
        info.swings as int
    } else {
        1
    };
    let amp = tdiv(info.total_amplitude as int, denom);
    let amp_factor = tdiv(spec_clamp(amp, 0, MAX_AMPLITUDE as int) * UNIT, MAX_AMPLITUDE as int);
    let t = tdiv(freq_factor * amp_factor, UNIT as int);
    BodyMovementStats {
        move_speed: sat_i64(
            WALKING_SPEED + tdiv((MAX_RUNNING_SPEED - WALKING_SPEED) * t, UNIT as int),
        ),
    }
}

/// Whether the history's front sample is due for eviction at the
/// given time limit.
fn front_due(q: &VecDeque<BodyMovementState>, limit: i64) -> (b: bool)
    ensures
        b == (q@.len() > 0 && q@[0].time <= limit),
{
    if q.len() == 0 {
        false
    } else {
        q[0].time <= limit
    }
}

impl BodyMovementHistory {
    /// An empty history at time zero.
    pub fn new() -> (r: BodyMovementHistory)
        ensures
            r.time == 0,
            r.states@ == Seq::<BodyMovementState>::empty(),
            history_wf(r),
    {
        BodyMovementHistory { time: 0, states: VecDeque::new() }
    }

    /// Advances the clock, evicts samples older than the record
    /// window, and appends the new sample stamped with the new time.
    pub fn update(&mut self, state: BodyMovementState, delta_time: i64)
        requires
            history_wf(*old(self)),
            delta_time >= 0,
        ensures
            final(self).time as int == sat64(old(self).time + delta_time),
            final(self).states@ == spec_evict(
                old(self).states@,
                sat64(final(self).time - RECORD_LENGTH),
            ).push(BodyMovementState { time: final(self).time, hand: state.hand }),
            history_wf(*final(self)),
    {
        let t = fx_add(self.time, delta_time);
        self.time = t;
        let limit = fx_sub(t, RECORD_LENGTH);
        let ghost orig = self.states@;
        let ghost n = self.states@.len() as int;
        let ghost mut k: int = 0;
        proof {
            assert(orig.subrange(0, n) =~= orig);
        }
        while front_due(&self.states, limit)
            invariant
                0 <= k <= n,
                n == orig.len(),
                self.states@ == orig.subrange(k, n),
                spec_evict(self.states@, limit as int) == spec_evict(orig, limit as int),
                self.time == t,
            decreases n - k,
        {
            proof {
                assert(self.states@.subrange(1, self.states@.len() as int) =~= orig.subrange(
                    k + 1, n));
            }
            self.states.pop_front();
            proof {
                k = k + 1;
            }
        }
        proof {
            assert(spec_evict(self.states@, limit as int) == self.states@);
        }
        let ghost kept = self.states@;
        self.states.push_back(BodyMovementState { time: t, hand: state.hand });
        proof {
            let s = self.states@;
            assert(old(self).time <= t as int);
            assert forall|i: int, j: int| 0 <= i <= j < s.len() implies #[trigger] s[i].time
                <= #[trigger] s[j].time by {
                if j < s.len() - 1 {
                    assert(s[i] == orig[k + i] && s[j] == orig[k + j]);
                    assert(orig[k + i].time <= orig[k + j].time);
                } else if i < j {
                    assert(s[i] == orig[k + i]);
                    assert(orig[k + i].time <= old(self).time);
                }
            }
            assert forall|i: int| 0 <= i < s.len() implies #[trigger] s[i].time <= self.time
                && self.time - s[i].time <= RECORD_LENGTH by {
                if i < s.len() - 1 {
                    assert(s[i] == kept[i] && kept[i] == orig[k + i]);
                    assert(kept[0] == orig[k]);
                    assert(orig[k].time <= orig[k + i].time);
                    assert(kept[0].time > limit);
                    assert(orig[k + i].time <= old(self).time);
                }
            }
        }
    }

    /// Walks the samples in time order and tallies swings: each sign
    /// change of the horizontal hand offset closes a swing and records
    /// the peak magnitude seen during it.
    pub fn analyze(&self) -> (r: BodyMovementInfo)
        requires
            history_wf(*self),
        ensures
            r == spec_analyze(*self),
            r.swings >= 0,
            r.total_amplitude >= 0,
            r.duration >= 0,
    {
        let n = self.states.len();
        if n == 0 {
            BodyMovementInfo { swings: 0, total_amplitude: 0, duration: 0 }
        } else {
            let first = self.states[0];
            let mut sign: bool = first.hand.x >= 0;
            let mut peak: i64 = fx_abs(first.hand.x);
            let mut swings: i64 = 0;
            let mut total: i64 = 0;
            let mut i: usize = 1;
            let ghost s = self.states@;
            let ghost sign0 = sign;
            let ghost peak0 = peak as int;
            while i < n
                invariant
                    1 <= i <= n,
                    n == s.len(),
                    s == self.states@,
                    peak >= 0,
                    swings >= 0,
                    total >= 0,
                    spec_scan(s, i as int, sign, peak as int, swings as int, total as int)
                        == spec_scan(s, 1, sign0, peak0, 0, 0),
                decreases n - i,
            {
                let x = self.states[i].hand.x;
                let pos = x >= 0;
                if pos == sign {
                    peak = fx_max(peak, fx_abs(x));
                } else {
                    swings = fx_add(swings, 1);
                    total = fx_add(total, peak);
                    peak = fx_abs(x);
                    sign = pos;
                }
                i = i + 1;
            }
            let duration = fx_sub(self.states[n - 1].time, first.time);
            proof {
                assert(s[n - 1].time >= s[0].time);
            }
            BodyMovementInfo { swings, total_amplitude: total, duration }
        }
    }
}

impl Default for BodyMovementHistory {
    /// The default history is empty, at time zero.
    fn default() -> (r: BodyMovementHistory)
        ensures
            r.time == 0,
            r.states@ == Seq::<BodyMovementState>::empty(),
            history_wf(r),
    {
        BodyMovementHistory::new()
    }
}

impl BodyMovementInfo {
    /// The movement speed this rhythm earns, always within
    /// `[WALKING_SPEED, MAX_RUNNING_SPEED]`.
    pub fn calc_stats(&self) -> (r: BodyMovementStats)
        ensures
            r == spec_calc_stats(*self),
            WALKING_SPEED <= r.move_speed <= MAX_RUNNING_SPEED,
    {
        let elapsed: i64 = if self.duration >= 1 {
            self.duration
        } else {
            1
        };
        proof {
            assert(-0x8000_0000_0000_0000 * 1_000_000 <= (self.swings as int) * (UNIT as int)
                * (UNIT as int) && (self.swings as int) * (UNIT as int) * (UNIT as int)
                <= 0x8000_0000_0000_0000 * 1_000_000) by (nonlinear_arith)
                requires
                    -0x8000_0000_0000_0000 <= self.swings as int <= 0x7fff_ffff_ffff_ffff,
                    UNIT as int == 1000;
        }
        let num: i128 = (self.swings as i128) * (UNIT as i128) * (UNIT as i128);
        let freq = crate::fixed::sat_cast(crate::fixed::tdiv_i128(num, elapsed as i128));
        let fnum: i128 = (freq as i128) * (UNIT as i128);
        let fq = crate::fixed::tdiv_i128(fnum, REFERENCE_FREQUENCY as i128);
        let freq_factor: i64 = if fq > UNIT as i128 {
            UNIT
        } else if fq < 0 {
            0
        } else {
            fq as i64
        };
        let denom: i64 = if self.swings >= 1 {
            self.swings
        } else {
            1
        };
        let amp = crate::fixed::sat_cast(
            crate::fixed::tdiv_i128(self.total_amplitude as i128, denom as i128),
        );
        proof {
            crate::fixed::lemma_tdiv_mag(self.total_amplitude as int, denom as int);
        }
        let amp_clamped: i64 = if amp < 0 {
            0
        } else if amp > MAX_AMPLITUDE {
            MAX_AMPLITUDE
        } else {
            amp
        };
        let amp_factor: i64 = (((amp_clamped * UNIT) as u64) / (MAX_AMPLITUDE as u64)) as i64;
        proof {
            assert(amp_factor as int == tdiv(amp_clamped * UNIT, MAX_AMPLITUDE as int));
            assert(0 <= amp_factor as int <= UNIT as int);
            assert(0 <= (freq_factor as int) * (amp_factor as int)
                && (freq_factor as int) * (amp_factor as int) <= (UNIT as int) * (UNIT as int))
                by (nonlinear_arith)
                requires
                    0 <= freq_factor as int <= UNIT as int,
                    0 <= amp_factor as int <= UNIT as int;
        }
        let tprod: i64 = freq_factor * amp_factor;
        let t: i64 = ((tprod as u64) / (UNIT as u64)) as i64;
        proof {
            assert(t as int == tdiv(tprod as int, UNIT as int));
            assert(0 <= t as int <= UNIT as int);
        }
        let lerp: i64 = ((((MAX_RUNNING_SPEED - WALKING_SPEED) * t) as u64) / (UNIT as u64))
            as i64;
        proof {
            assert(lerp as int == tdiv((MAX_RUNNING_SPEED - WALKING_SPEED) * (t as int),
                UNIT as int));
            assert(0 <= lerp as int <= MAX_RUNNING_SPEED - WALKING_SPEED);
        }
        let speed = WALKING_SPEED + lerp;
        BodyMovementStats { move_speed: speed }
    }
}

/// The speed model's monotonicity in amplitude: with the swing count
/// and the elapsed window fixed, a larger summed amplitude never earns
/// a lower movement speed, and the speed always stays within
/// `[WALKING_SPEED, MAX_RUNNING_SPEED]`.
pub proof fn lemma_speed_monotone_in_amplitude(a: BodyMovementInfo, b: BodyMovementInfo)
    requires
        a.swings == b.swings,
        a.duration == b.duration,
        0 <= a.total_amplitude <= b.total_amplitude,
    ensures
        spec_calc_stats(a).move_speed <= spec_calc_stats(b).move_speed,
        WALKING_SPEED <= spec_calc_stats(a).move_speed <= MAX_RUNNING_SPEED,
{
    let elapsed = if a.duration >= 1 {
        a.duration as int
    } else {
        1
    };
    let freq = sat64(tdiv(a.swings * UNIT * UNIT, elapsed));
    let ff = spec_clamp(tdiv(freq * UNIT, REFERENCE_FREQUENCY as int), 0, UNIT as int);
    let denom = if a.swings >= 1 {
        a.swings as int
    } else {
        1
    };
    let amp_a = tdiv(a.total_amplitude as int, denom);
    let amp_b = tdiv(b.total_amplitude as int, denom);
    vstd::arithmetic::div_mod::lemma_div_is_ordered(a.total_amplitude as int,
        b.total_amplitude as int, denom);
    vstd::arithmetic::div_mod::lemma_div_pos_is_pos(a.total_amplitude as int, denom);
    assert(0 <= amp_a <= amp_b);
    let ca = spec_clamp(amp_a, 0, MAX_AMPLITUDE as int);
    let cb = spec_clamp(amp_b, 0, MAX_AMPLITUDE as int);
    assert(0 <= ca <= cb <= MAX_AMPLITUDE as int);
    assert(ca * UNIT <= cb * UNIT && 0 <= ca * UNIT && cb * UNIT <= (MAX_AMPLITUDE as int) * (UNIT
        as int)) by (nonlinear_arith)
        requires 0 <= ca <= cb <= MAX_AMPLITUDE as int;
    vstd::arithmetic::div_mod::lemma_div_is_ordered(ca * UNIT, cb * UNIT, MAX_AMPLITUDE as int);
    vstd::arithmetic::div_mod::lemma_div_pos_is_pos(ca * UNIT, MAX_AMPLITUDE as int);
    let fa = tdiv(ca * UNIT, MAX_AMPLITUDE as int);
    let fb = tdiv(cb * UNIT, MAX_AMPLITUDE as int);
    assert(0 <= fa <= fb);
    assert(fb <= UNIT as int) by {
        assert(cb * UNIT <= (MAX_AMPLITUDE as int) * (UNIT as int)) by (nonlinear_arith)
            requires 0 <= cb <= MAX_AMPLITUDE as int;
        vstd::arithmetic::div_mod::lemma_div_is_ordered(cb * UNIT,
            (MAX_AMPLITUDE as int) * (UNIT as int), MAX_AMPLITUDE as int);
        vstd::arithmetic::div_mod::lemma_div_multiples_vanish(UNIT as int, MAX_AMPLITUDE as int);
    };
    assert(ff * fa <= ff * fb && 0 <= ff * fa && ff * fb <= (UNIT as int) * (UNIT as int))
        by (nonlinear_arith)
        requires
            0 <= ff <= UNIT as int,
            0 <= fa <= fb <= UNIT as int;
    vstd::arithmetic::div_mod::lemma_div_is_ordered(ff * fa, ff * fb, UNIT as int);
    vstd::arithmetic::div_mod::lemma_div_pos_is_pos(ff * fa, UNIT as int);
    let ta = tdiv(ff * fa, UNIT as int);
    let tb = tdiv(ff * fb, UNIT as int);
    assert(0 <= ta <= tb);
    assert(tb <= UNIT as int) by {
        vstd::arithmetic::div_mod::lemma_div_is_ordered(ff * fb, (UNIT as int) * (UNIT as int),
            UNIT as int);
        vstd::arithmetic::div_mod::lemma_div_multiples_vanish(UNIT as int, UNIT as int);
    };
    assert((MAX_RUNNING_SPEED - WALKING_SPEED) * ta <= (MAX_RUNNING_SPEED - WALKING_SPEED) * tb
        && 0 <= (MAX_RUNNING_SPEED - WALKING_SPEED) * ta && (MAX_RUNNING_SPEED - WALKING_SPEED)
        * tb <= 4000 * 1000) by (nonlinear_arith)
        requires 0 <= ta <= tb <= 1000;
    vstd::arithmetic::div_mod::lemma_div_is_ordered((MAX_RUNNING_SPEED - WALKING_SPEED) * ta,
        (MAX_RUNNING_SPEED - WALKING_SPEED) * tb, UNIT as int);
    vstd::arithmetic::div_mod::lemma_div_pos_is_pos((MAX_RUNNING_SPEED - WALKING_SPEED) * ta,
        UNIT as int);
    vstd::arithmetic::div_mod::lemma_div_is_ordered((MAX_RUNNING_SPEED - WALKING_SPEED) * tb,
        4000000int, UNIT as int);
}

} // verus!
