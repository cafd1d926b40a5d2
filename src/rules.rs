//! Clock- and score-driven rules: foul trouble, late game, blowout, bonus,
//! fatigue and injury rates. Times are in milliseconds of game clock,
//! multipliers in thousandths, injury rates in parts per billion.
use vstd::prelude::*;

verus! {

/// Thousandths: the scale of ratings, energy and multipliers.
pub const MILLI: u64 = 1000;

/// One minute of game clock, in milliseconds.
pub const MINUTE_MS: i64 = 60_000;

/// Where the game stands, as far as the clock rules read it.
#[derive(Clone, Copy, Debug, PartialEq, Eq)]
pub struct ClockState {
    /// Current period, counted from 1.
    pub quarter: u32,
    /// Number of regulation periods.
    pub num_periods: u32,
    /// Overtime periods begun so far.
    pub overtimes: u32,
    /// Time left in the current period; it may run below zero.
    pub t_ms: i64,
    /// Length of a regulation period.
    pub quarter_length_ms: u32,
    pub elam_active: bool,
    pub elam_target: i64,
}

/// Whether the foul-out threshold itself is the limit: overtime, an elam
/// ending, or the last eight minutes of the final regulation period.
pub open spec fn foul_limit_is_threshold(c: ClockState) -> bool {
    c.overtimes > 0 || c.elam_active || (c.quarter == c.num_periods && c.t_ms < 8 * MINUTE_MS)
}

/// The smallest integer not below `n / d`, for `d > 0`.
pub open spec fn ceil_div(n: int, d: int) -> int {
    -((-n) / d)
}

/// Fouls allowed at this stage of the game, before clamping: the game's
/// completed fraction times the foul-out threshold, rounded up.
pub open spec fn raw_foul_limit(c: ClockState, fouls_to_foul_out: u32) -> int {
    ceil_div(
        (c.quarter as int * c.quarter_length_ms as int - c.t_ms as int) * fouls_to_foul_out as int,
        c.num_periods as int * c.quarter_length_ms as int,
    )
}

pub open spec fn foul_trouble_limit(c: ClockState, fouls_to_foul_out: u32) -> int {
    if foul_limit_is_threshold(c) {
        fouls_to_foul_out as int
    } else if raw_foul_limit(c, fouls_to_foul_out) < 2 {
        2
    } else if raw_foul_limit(c, fouls_to_foul_out) >= fouls_to_foul_out {
        if fouls_to_foul_out == 0 {
            0
        } else {
            fouls_to_foul_out - 1
        }
    } else {
        raw_foul_limit(c, fouls_to_foul_out)
    }
}

/// The number of fouls at which a player counts as in foul trouble.
pub fn get_foul_trouble_limit(c: &ClockState, fouls_to_foul_out: u32) -> (r: u32)
    requires
        c.num_periods > 0,
        c.quarter_length_ms > 0,
    ensures
        r == foul_trouble_limit(*c, fouls_to_foul_out),
{
    if c.overtimes > 0 || c.elam_active || (c.quarter == c.num_periods && c.t_ms < 8 * MINUTE_MS) {
        return fouls_to_foul_out;
    }
    proof {
        assert(0 <= c.quarter as int * c.quarter_length_ms as int <= 0x1_0000_0000
            * 0x1_0000_0000) by (nonlinear_arith)
            requires
                c.quarter <= 0xffff_ffff,
                c.quarter_length_ms <= 0xffff_ffff,
        ;
    }
    let qt: i128 = c.quarter as i128 * c.quarter_length_ms as i128;
    let played: i128 = qt - c.t_ms as i128;
    proof {
        assert(-0x1_0000_0000_0000_0000 <= played <= 0x1_0000_0000_0000_0000 * 2);
        assert(-0x4_0000_0000_0000_0000_0000_0000 <= played * fouls_to_foul_out as int
            <= 0x4_0000_0000_0000_0000_0000_0000) by (nonlinear_arith)
            requires
                -0x1_0000_0000_0000_0000 <= played <= 0x1_0000_0000_0000_0000 * 2,
                0 <= fouls_to_foul_out <= 0xffff_ffff,
        ;
    }
    let num: i128 = played * fouls_to_foul_out as i128;
    proof {
        assert(0 < c.num_periods as int * c.quarter_length_ms as int <= 0x1_0000_0000
            * 0x1_0000_0000) by (nonlinear_arith)
            requires
                0 < c.num_periods <= 0xffff_ffff,
                0 < c.quarter_length_ms <= 0xffff_ffff,
        ;
    }
    let den: i128 = c.num_periods as i128 * c.quarter_length_ms as i128;
    if num <= 0 {
        proof {
            let n = num as int;
            let d = den as int;
            assert((-n) / d >= 0) by (nonlinear_arith)
                requires
                    -n >= 0,
                    d > 0,
            ;
        }
        return 2;
    }
    let raw: i128 = (num + den - 1) / den;
    proof {
        let n = num as int;
        let d = den as int;
        let q = (n + d - 1) / d;
        let q2 = (-n) / d;
        assert(raw == q);
        assert(q * d <= n + d - 1 < q * d + d) by (nonlinear_arith)
            requires
                q == (n + d - 1) / d,
                d > 0,
        ;
        assert(q2 * d <= -n < q2 * d + d) by (nonlinear_arith)
            requires
                q2 == (-n) / d,
                d > 0,
        ;
        assert(q == -q2) by (nonlinear_arith)
            requires
                q * d <= n + d - 1 < q * d + d,
                q2 * d <= -n < q2 * d + d,
                d > 0,
        ;
        assert(q <= n) by (nonlinear_arith)
            requires
                q * d <= n + d - 1,
                n > 0,
                d > 0,
        ;
    }
    if raw < 2 {
        2
    } else if raw >= fouls_to_foul_out as i128 {
        if fouls_to_foul_out == 0 {
            0
        } else {
            fouls_to_foul_out - 1
        }
    } else {
        raw as u32
    }
}

/// The foul-trouble limit is the foul-out threshold itself in overtime, in
/// an elam ending and late in the final period, and otherwise an integer
/// between two and one less than the threshold (for a threshold of at least
/// three).
pub proof fn lemma_foul_limit_range(c: ClockState, fouls_to_foul_out: u32)
    requires
        fouls_to_foul_out >= 3,
    ensures
        foul_limit_is_threshold(c) ==> foul_trouble_limit(c, fouls_to_foul_out) == fouls_to_foul_out,
        !foul_limit_is_threshold(c) ==> 2 <= foul_trouble_limit(c, fouls_to_foul_out) <= fouls_to_foul_out
            - 1,
{
}

/// `x` clamped to `[min, max]`.
pub open spec fn bound_of(x: i64, min: i64, max: i64) -> i64 {
    if x < min {
        min
    } else if x > max {
        max
    } else {
        x
    }
}

pub fn bound(x: i64, min: i64, max: i64) -> (r: i64)
    requires
        min <= max,
    ensures
        r == bound_of(x, min, max),
        min <= r <= max,
{
    if x < min {
        min
    } else if x > max {
        max
    } else {
        x
    }
}

/// Whether the game is late enough that rotation noise is switched off:
/// within fifteen points of an elam target, or under six minutes left in the
/// final regulation period or any later one.
pub open spec fn late_game(c: ClockState, pts_a: i64, pts_b: i64) -> bool {
    if c.elam_active {
        c.elam_target - (if pts_a >= pts_b { pts_a } else { pts_b }) <= 15
    } else {
        c.quarter >= c.num_periods && c.t_ms < 6 * MINUTE_MS
    }
}

pub fn is_late_game(c: &ClockState, pts_a: i64, pts_b: i64) -> (r: bool)
    ensures
        r == late_game(*c, pts_a, pts_b),
{
    if c.elam_active {
        let lead: i64 = if pts_a >= pts_b {
            pts_a
        } else {
            pts_b
        };
        (c.elam_target as i128) - (lead as i128) <= 15
    } else {
        c.quarter >= c.num_periods && c.t_ms < 6 * MINUTE_MS
    }
}

/// Absolute score gap.
pub open spec fn score_gap(pts_a: i64, pts_b: i64) -> int {
    if pts_a >= pts_b {
        pts_a - pts_b
    } else {
        pts_b - pts_a
    }
}

/// Garbage time. In an elam ending: a gap of at least twenty that exceeds
/// the points still needed to reach the target. Otherwise, in the final
/// regulation period only: a gap of 30 with under 12 minutes left, 25 under
/// 9, 20 under 7, 15 under 3, or 10 under 1.
pub open spec fn blowout(c: ClockState, pts_a: i64, pts_b: i64) -> bool {
    let diff = score_gap(pts_a, pts_b);
    if c.elam_active {
        diff >= 20 && c.elam_target - (if pts_a >= pts_b { pts_a } else { pts_b }) < diff
    } else {
        c.quarter == c.num_periods && ((diff >= 30 && c.t_ms < 12 * MINUTE_MS) || (diff >= 25
            && c.t_ms < 9 * MINUTE_MS) || (diff >= 20 && c.t_ms < 7 * MINUTE_MS) || (diff >= 15
            && c.t_ms < 3 * MINUTE_MS) || (diff >= 10 && c.t_ms < MINUTE_MS))
    }
}

pub fn is_blowout(c: &ClockState, pts_a: i64, pts_b: i64) -> (r: bool)
    ensures
        r == blowout(*c, pts_a, pts_b),
{
    let diff: i128 = if pts_a >= pts_b {
        pts_a as i128 - pts_b as i128
    } else {
        pts_b as i128 - pts_a as i128
    };
    if c.elam_active {
        let lead: i64 = if pts_a >= pts_b {
            pts_a
        } else {
            pts_b
        };
        diff >= 20 && (c.elam_target as i128) - (lead as i128) < diff
    } else {
        c.quarter == c.num_periods && ((diff >= 30 && c.t_ms < 12 * MINUTE_MS) || (diff >= 25
            && c.t_ms < 9 * MINUTE_MS) || (diff >= 20 && c.t_ms < 7 * MINUTE_MS) || (diff >= 15
            && c.t_ms < 3 * MINUTE_MS) || (diff >= 10 && c.t_ms < MINUTE_MS))
    }
}

/// Which entry of the bonus table applies: the last two minutes of the final
/// regulation period, then any overtime, then the ordinary period.
pub open spec fn bonus_entry(c: ClockState) -> int {
    if c.overtimes == 0 && c.quarter == c.num_periods && c.t_ms <= 2 * MINUTE_MS {
        2
    } else if c.overtimes >= 1 {
        1
    } else {
        0
    }
}

/// Fouls the defense may still commit before the offense is in the bonus:
/// the applicable threshold less the fouls already committed in its window
/// (the last two minutes for that entry, the current period otherwise).
pub open spec fn fouls_until_bonus(
    c: ClockState,
    table: [u32; 3],
    fouls_this_quarter: u32,
    fouls_last_two_minutes: u32,
) -> int {
    if bonus_entry(c) == 2 {
        table[2] - fouls_last_two_minutes
    } else if bonus_entry(c) == 1 {
        table[1] - fouls_this_quarter
    } else {
        table[0] - fouls_this_quarter
    }
}

pub fn get_num_fouls_until_bonus(
    c: &ClockState,
    table: &[u32; 3],
    fouls_this_quarter: u32,
    fouls_last_two_minutes: u32,
) -> (r: i64)
    ensures
        r == fouls_until_bonus(*c, *table, fouls_this_quarter, fouls_last_two_minutes),
{
    if c.overtimes == 0 && c.quarter == c.num_periods && c.t_ms <= 2 * MINUTE_MS {
        table[2] as i64 - fouls_last_two_minutes as i64
    } else if c.overtimes >= 1 {
        table[1] as i64 - fouls_this_quarter as i64
    } else {
        table[0] as i64 - fouls_this_quarter as i64
    }
}

/// Performance multiplier of a player with `energy` thousandths left: the
/// energy plus a small floor of sixteen thousandths, capped at one.
pub open spec fn fatigue_of(energy: u64) -> u64 {
    if energy + 16 >= MILLI {
        MILLI
    } else {
        (energy + 16) as u64
    }
}

pub fn fatigue(energy: u64) -> (r: u64)
    ensures
        r == fatigue_of(energy),
        r <= MILLI,
{
    if energy >= MILLI - 16 {
        MILLI
    } else {
        energy + 16
    }
}

/// Fatigue never lowers performance as energy rises.
pub proof fn lemma_fatigue_monotone(a: u64, b: u64)
    requires
        a <= b,
    ensures
        fatigue_of(a) <= fatigue_of(b),
{
}

/// Rotation multiplier of a player with `pf` fouls against the current foul
/// limit: 800 thousandths at the limit, 500 past it, one below it.
pub open spec fn foul_trouble_factor_of(pf: u32, limit: u32) -> u64 {
    if pf == limit {
        800
    } else if pf > limit {
        500
    } else {
        MILLI
    }
}

pub fn get_foul_trouble_factor(pf: u32, limit: u32) -> (r: u64)
    ensures
        r == foul_trouble_factor_of(pf, limit),
        0 < r <= MILLI,
{
    if pf == limit {
        800
    } else if pf > limit {
        500
    } else {
        MILLI
    }
}

/// Parts per billion: the scale of injury rates.
pub const PPB: u64 = 1_000_000_000;

/// `rate` scaled by 1.03 per step for `k` steps, each step rounding down.
pub open spec fn grow_rate(rate: int, k: nat) -> int
    decreases k,
{
    if k == 0 {
        rate
    } else {
        grow_rate(rate, (k - 1) as nat) * 103 / 100
    }
}

/// `rate` divided by 1.03 per step for `k` steps, each step rounding down.
pub open spec fn shrink_rate(rate: int, k: nat) -> int
    decreases k,
{
    if k == 0 {
        rate
    } else {
        shrink_rate(rate, (k - 1) as nat) * 100 / 103
    }
}

/// Extra precision the injury rate is computed with, so that it is rounded
/// once at the end rather than at every step.
pub const RATE_SCALE: u128 = 1_000_000_000;

/// Per-possession injury rate of a player of `age`: the base rate times
/// 1.03 to the power of (age capped at 50) − 26, times 1.5 for a player
/// already playing through an injury. Each 1.03 step works at `RATE_SCALE`
/// times the precision; the result is rounded down once.
pub open spec fn injury_rate(base: u64, age: u32, playing_through: bool) -> int {
    let a: int = if age >= 50 { 50 } else { age as int };
    let scaled = base as int * RATE_SCALE as int;
    let r = if a >= 26 {
        grow_rate(scaled, (a - 26) as nat)
    } else {
        shrink_rate(scaled, (26 - a) as nat)
    };
    if playing_through {
        r * 3 / (2 * RATE_SCALE as int)
    } else {
        r / (RATE_SCALE as int)
    }
}

proof fn lemma_grow_bound(rate: int, k: nat)
    requires
        0 <= rate,
    ensures
        0 <= grow_rate(rate, k) <= rate * vstd::arithmetic::power2::pow2(k),
    decreases k,
{
    vstd::arithmetic::power2::lemma2_to64();
    if k > 0 {
        vstd::arithmetic::power2::lemma_pow2_unfold(k);
        lemma_grow_bound(rate, (k - 1) as nat);
        let g = grow_rate(rate, (k - 1) as nat);
        assert(g * 103 / 100 <= 2 * g) by (nonlinear_arith)
            requires
                g >= 0,
        ;
        assert(g * 103 / 100 >= 0) by (nonlinear_arith)
            requires
                g >= 0,
        ;
        assert(2 * g <= 2 * (rate * vstd::arithmetic::power2::pow2((k - 1) as nat)));
        assert(rate * vstd::arithmetic::power2::pow2(k) == 2 * (rate
            * vstd::arithmetic::power2::pow2((k - 1) as nat))) by (nonlinear_arith)
            requires
                vstd::arithmetic::power2::pow2(k) == 2 * vstd::arithmetic::power2::pow2(
                    (k - 1) as nat,
                ),
        ;
    }
}

proof fn lemma_shrink_bound(rate: int, k: nat)
    requires
        0 <= rate,
    ensures
        0 <= shrink_rate(rate, k) <= rate,
    decreases k,
{
    if k > 0 {
        lemma_shrink_bound(rate, (k - 1) as nat);
        let g = shrink_rate(rate, (k - 1) as nat);
        assert(0 <= g * 100 / 103 <= g) by (nonlinear_arith)
            requires
                g >= 0,
        ;
    }
}

/// The injury rate of one player, from a base rate in parts per billion.
#[allow(non_snake_case)]
pub fn getInjuryRate(base_rate: u64, age: u32, playing_through_injury: bool) -> (r: u64)
    requires
        base_rate <= PPB,
    ensures
        r == injury_rate(base_rate, age, playing_through_injury),
{
    let a: u32 = if age >= 50 {
        50
    } else {
        age
    };
    let scaled: u128 = base_rate as u128 * RATE_SCALE;
    let ghost top: int = PPB as int * RATE_SCALE as int;
    let mut rate: u128 = scaled;
    let mut i: u32 = 0;
    if a >= 26 {
        while i < a - 26
            invariant
                26 <= a <= 50,
                i <= a - 26,
                scaled <= top,
                top == 1_000_000_000_000_000_000,
                rate == grow_rate(scaled as int, i as nat),
            decreases a - 26 - i,
        {
            proof {
                lemma_grow_bound(scaled as int, i as nat);
                vstd::arithmetic::power2::lemma_pow2_strictly_increases(i as nat, 24);
                vstd::arithmetic::power2::lemma2_to64();
                assert(rate <= top * 0x100_0000) by (nonlinear_arith)
                    requires
                        rate <= scaled * vstd::arithmetic::power2::pow2(i as nat),
                        vstd::arithmetic::power2::pow2(i as nat) <= 0x100_0000,
                        scaled <= top,
                ;
            }
            rate = rate * 103 / 100;
            i = i + 1;
        }
    } else {
        while i < 26 - a
            invariant
                a < 26,
                i <= 26 - a,
                scaled <= top,
                top == 1_000_000_000_000_000_000,
                rate == shrink_rate(scaled as int, i as nat),
            decreases 26 - a - i,
        {
            proof {
                lemma_shrink_bound(scaled as int, i as nat);
            }
            rate = rate * 100 / 103;
            i = i + 1;
        }
    }
    proof {
        if a >= 26 {
            lemma_grow_bound(scaled as int, i as nat);
            vstd::arithmetic::power2::lemma2_to64();
            if i < 24 {
                vstd::arithmetic::power2::lemma_pow2_strictly_increases(i as nat, 24);
            }
            assert(rate <= top * 0x100_0000) by (nonlinear_arith)
                requires
                    rate <= scaled * vstd::arithmetic::power2::pow2(i as nat),
                    vstd::arithmetic::power2::pow2(i as nat) <= 0x100_0000,
                    scaled <= top,
            ;
        } else {
            lemma_shrink_bound(scaled as int, i as nat);
        }
    }
    if playing_through_injury {
        (rate * 3 / (2 * RATE_SCALE)) as u64
    } else {
        (rate / RATE_SCALE) as u64
    }
}

} // verus!
