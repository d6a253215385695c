//! The difficulty curve and the scoring rule.
//!
//! Words per minute grow with the score along a saturating curve: they start
//! at `wpm_start` and approach `wpm_ceiling`, reaching the midpoint at a score
//! of `wpm_half_score`. The same value sets how often words spawn and how fast
//! they move. A match is rewarded by the cube of the headroom left to the
//! word, times its speed.

use crate::word::PROGRESS_ONE;
use vstd::prelude::*;

verus! {

/// Points are kept in thousandths.
pub const SCORE_SCALE: u64 = 1000;

/// The slowest a word may move, in thousandths of a distance unit per step.
pub const MIN_SPEED: u64 = 10;

/// Random speed jitter stays within this many thousandths of a distance unit
/// per step, either way.
pub const MAX_JITTER: i64 = 20;

/// Bounds on the tunable values, so that every formula stays in range.
pub const MAX_TICK_RATE: u64 = 1000;
pub const MAX_WPM: u64 = 100_000;
pub const MAX_SCORE_FACTOR: u64 = 10_000;

/// The game's tunable balance parameters.
#[derive(Clone, Copy, Debug, PartialEq, Eq)]
pub struct Tuning {
    /// Simulation steps per second.
    pub tick_rate: u64,
    /// Words per minute at a score of zero.
    pub wpm_start: u64,
    /// The value that words per minute approach as the score grows.
    pub wpm_ceiling: u64,
    /// The score (in thousandths of a point) at which words per minute are
    /// halfway between start and ceiling.
    pub wpm_half_score: u64,
    /// The factor of the reward for a match.
    pub score_factor: u64,
}

/// Words per minute at the given score.
pub open spec fn wpm_spec(t: Tuning, score: nat) -> nat {
    let range = (t.wpm_ceiling - t.wpm_start) as nat;
    let d = score + t.wpm_half_score as nat;
    t.wpm_start as nat + ((range * score) / d) as nat
}

/// Steps between two spawns: `60 / wpm` seconds, rounded to the nearest step.
pub open spec fn interval_spec(t: Tuning, wpm: nat) -> nat {
    ((120 * t.tick_rate as nat + wpm) / (2 * wpm)) as nat
}

/// The speed of a new word: words per minute over twenty, per second, made
/// into thousandths of a distance unit per step, plus the jitter, and never
/// below `MIN_SPEED`.
pub open spec fn speed_spec(t: Tuning, wpm: nat, jitter: int) -> nat {
    let s = (wpm * 50) as int / t.tick_rate as int + jitter;
    if s < MIN_SPEED {
        MIN_SPEED as nat
    } else {
        s as nat
    }
}

/// What is left of the track to a word at `x`, in parts of `PROGRESS_ONE`.
pub open spec fn headroom(x: nat) -> nat {
    if x < PROGRESS_ONE {
        (PROGRESS_ONE - x) as nat
    } else {
        0
    }
}

/// The reward, in thousandths of a point, for matching a word at `x` that
/// moves at `speed`: `score_factor * (1 - progress)^3 * speed`.
pub open spec fn award_spec(t: Tuning, x: nat, speed: nat) -> nat {
    let h = headroom(x);
    let whole = PROGRESS_ONE as nat;
    ((t.score_factor as nat * (h * h * h) * speed) / (whole * whole * whole)) as nat
}

/// The standard balance: 30 steps per second, 30 words per minute at first,
/// approaching 120, halfway there at 500 points; a reward factor of 500.
pub open spec fn standard_tuning() -> Tuning {
    Tuning {
        tick_rate: 30,
        wpm_start: 30,
        wpm_ceiling: 120,
        wpm_half_score: 500_000,
        score_factor: 500,
    }
}

impl Tuning {
    pub open spec fn wf(&self) -> bool {
        &&& 0 < self.tick_rate <= MAX_TICK_RATE
        &&& 0 < self.wpm_start <= self.wpm_ceiling <= MAX_WPM
        &&& 0 < self.wpm_half_score
        &&& self.score_factor <= MAX_SCORE_FACTOR
    }

    /// The standard balance.
    pub fn standard() -> (t: Tuning)
        ensures
            t == standard_tuning(),
            t.wf(),
    {
        Tuning {
            tick_rate: 30,
            wpm_start: 30,
            wpm_ceiling: 120,
            wpm_half_score: 500_000,
            score_factor: 500,
        }
    }

    /// Words per minute at the given score.
    pub fn wpm_for_score(&self, score: u64) -> (r: u64)
        requires
            self.wf(),
        ensures
            r == wpm_spec(*self, score as nat),
            self.wpm_start <= r <= self.wpm_ceiling,
    {
        let range = (self.wpm_ceiling - self.wpm_start) as u128;
        let s = score as u128;
        let d = s + self.wpm_half_score as u128;
        proof {
            lemma_wpm_bounds(*self, score as nat);
            assert(range * s <= 100_000 * 0xffff_ffff_ffff_ffffu128) by (nonlinear_arith)
                requires
                    range <= 100_000,
                    s <= 0xffff_ffff_ffff_ffffu128,
            ;
        }
        let inc = (range * s) / d;
        self.wpm_start + inc as u64
    }

    /// Steps between two spawns at the given words per minute.
    pub fn spawn_interval(&self, wpm: u64) -> (r: u64)
        requires
            self.wf(),
            0 < wpm <= MAX_WPM,
        ensures
            r == interval_spec(*self, wpm as nat),
    {
        (120 * self.tick_rate + wpm) / (2 * wpm)
    }

    /// The speed of a new word at the given words per minute and jitter.
    pub fn spawn_speed(&self, wpm: u64, jitter: i64) -> (r: u64)
        requires
            self.wf(),
            wpm <= MAX_WPM,
            -MAX_JITTER <= jitter <= MAX_JITTER,
        ensures
            r == speed_spec(*self, wpm as nat, jitter as int),
            r >= MIN_SPEED,
    {
        let base = (wpm * 50 / self.tick_rate) as i64;
        let s = base + jitter;
        if s < MIN_SPEED as i64 {
            MIN_SPEED
        } else {
            s as u64
        }
    }

    /// The reward for matching a word at `x` that moves at `speed`.
    pub fn award(&self, x: u64, speed: u64) -> (r: u128)
        requires
            self.wf(),
        ensures
            r == award_spec(*self, x as nat, speed as nat),
    {
        let h: u128 = if x < PROGRESS_ONE {
            (PROGRESS_ONE - x) as u128
        } else {
            0
        };
        let f = self.score_factor as u128;
        let sp = speed as u128;
        assert(h * h <= 10_000_000_000) by (nonlinear_arith)
            requires
                h <= 100_000,
        ;
        let h2 = h * h;
        assert(h2 * h <= 1_000_000_000_000_000) by (nonlinear_arith)
            requires
                h2 <= 10_000_000_000,
                h <= 100_000,
        ;
        let h3 = h2 * h;
        assert(f * h3 <= 10_000_000_000_000_000_000) by (nonlinear_arith)
            requires
                f <= 10_000,
                h3 <= 1_000_000_000_000_000,
        ;
        let fh3 = f * h3;
        assert(fh3 * sp <= 10_000_000_000_000_000_000 * 0xffff_ffff_ffff_ffffu128)
            by (nonlinear_arith)
            requires
                fh3 <= 10_000_000_000_000_000_000,
                sp <= 0xffff_ffff_ffff_ffffu128,
        ;
        fh3 * sp / 1_000_000_000_000_000
    }
}

proof fn lemma_wpm_bounds(t: Tuning, score: nat)
    requires
        t.wf(),
    ensures
        t.wpm_start <= wpm_spec(t, score) <= t.wpm_ceiling,
{
    let range = (t.wpm_ceiling - t.wpm_start) as nat;
    let d = (score + t.wpm_half_score) as nat;
    assert(range * score <= range * d) by (nonlinear_arith)
        requires
            score <= d,
    ;
    assert((range * score) / d <= range) by (nonlinear_arith)
        requires
            range * score <= range * d,
            d > 0,
    ;
}

/// Words per minute never fall as the score grows.
pub proof fn lemma_wpm_monotonic(t: Tuning, s1: nat, s2: nat)
    requires
        t.wf(),
        s1 <= s2,
    ensures
        wpm_spec(t, s1) <= wpm_spec(t, s2),
{
    let r = (t.wpm_ceiling - t.wpm_start) as nat;
    let h = t.wpm_half_score as nat;
    let d1 = s1 + h;
    let d2 = s2 + h;
    let q = (r * s1) / d1;
    assert(q * d1 <= r * s1) by (nonlinear_arith)
        requires
            q == (r * s1) / d1,
            d1 > 0,
    ;
    assert(r * s1 * d2 <= r * s2 * d1) by (nonlinear_arith)
        requires
            d1 == s1 + h,
            d2 == s2 + h,
            s1 <= s2,
    ;
    assert(q * d2 <= r * s2) by (nonlinear_arith)
        requires
            q * d1 <= r * s1,
            r * s1 * d2 <= r * s2 * d1,
            d1 > 0,
            d2 > 0,
    ;
    assert(q <= (r * s2) / d2) by (nonlinear_arith)
        requires
            q * d2 <= r * s2,
            d2 > 0,
    ;
}

/// The speed a new word gets never falls as the score grows, for the same
/// jitter.
pub proof fn lemma_speed_monotonic(t: Tuning, s1: nat, s2: nat, jitter: int)
    requires
        t.wf(),
        s1 <= s2,
    ensures
        speed_spec(t, wpm_spec(t, s1), jitter) <= speed_spec(t, wpm_spec(t, s2), jitter),
{
    lemma_wpm_monotonic(t, s1, s2);
    let a = wpm_spec(t, s1) * 50;
    let b = wpm_spec(t, s2) * 50;
    let d = t.tick_rate as int;
    assert(a as int / d <= b as int / d) by (nonlinear_arith)
        requires
            a <= b,
            d > 0,
    ;
}

/// Words spawn at least as often as words per minute rise.
pub proof fn lemma_interval_shrinks(t: Tuning, w1: nat, w2: nat)
    requires
        t.wf(),
        0 < w1 <= w2,
    ensures
        interval_spec(t, w2) <= interval_spec(t, w1),
{
    let n = 120 * t.tick_rate as nat;
    let q = (n + w2) / (2 * w2);
    assert(q * (2 * w2) <= n + w2) by (nonlinear_arith)
        requires
            q == (n + w2) / (2 * w2),
            w2 > 0,
    ;
    assert((n + w2) * (2 * w1) <= (n + w1) * (2 * w2)) by (nonlinear_arith)
        requires
            w1 <= w2,
    ;
    assert(q * (2 * w1) <= n + w1) by (nonlinear_arith)
        requires
            q * (2 * w2) <= n + w2,
            (n + w2) * (2 * w1) <= (n + w1) * (2 * w2),
            w1 > 0,
            w2 > 0,
    ;
    assert(q <= (n + w1) / (2 * w1)) by (nonlinear_arith)
        requires
            q * (2 * w1) <= n + w1,
            w1 > 0,
    ;
}

} // verus!
