//! The possession state machine: which single outcome a possession ends in,
//! decided from the game state, the probabilities and the draws made for it.
use crate::draws::PPM;
use crate::rules::ClockState;
use vstd::prelude::*;

verus! {

#[derive(Clone, Copy, Debug, PartialEq, Eq, Structural)]
pub enum PossessionOutcome {
    EndOfQuarter,
    Turnover,
    NonShootingFoul,
    FreeThrows,
    Shot,
}

/// Possessions shorter than this at the buzzer may be lost to the clock.
pub const BUZZER_WINDOW_MS: u64 = 6000;

/// The period ends with the ball in the leading team's hands: no clock left
/// in the final period or later, offense ahead, no elam ending.
pub open spec fn ends_with_lead(c: ClockState, off_pts: i64, def_pts: i64) -> bool {
    c.t_ms <= 0 && c.quarter >= c.num_periods && off_pts > def_pts && !c.elam_active
}

/// A short possession at the buzzer gets its shot off only when the draw
/// (ppm) is at most (length / 8 s)^(1/4), compared here as fourth powers.
pub open spec fn beats_buzzer(draw: int, len_ms: int) -> bool {
    draw * draw * draw * draw * 8000 <= len_ms * 1_000_000_000_000_000_000_000_000
}

pub open spec fn lost_to_buzzer(c: ClockState, len_ms: u64, draw: u64) -> bool {
    c.t_ms <= 0 && len_ms < BUZZER_WINDOW_MS && !c.elam_active && !beats_buzzer(
        draw as int,
        len_ms as int,
    )
}

/// The outcome of a possession. `until_bonus` is the number of fouls the
/// defense may still commit before the bonus; the draws are uniform in
/// `[0, PPM)` and compared with probabilities in ppm.
pub open spec fn possession_outcome(
    c: ClockState,
    off_pts: i64,
    def_pts: i64,
    len_ms: u64,
    prob_tov: u64,
    prob_foul: u64,
    intentional_foul: bool,
    until_bonus: i64,
    draw_buzzer: u64,
    draw_tov: u64,
    draw_foul: u64,
) -> PossessionOutcome {
    if ends_with_lead(c, off_pts, def_pts) || lost_to_buzzer(c, len_ms, draw_buzzer) {
        PossessionOutcome::EndOfQuarter
    } else if draw_tov < prob_tov {
        PossessionOutcome::Turnover
    } else if draw_foul < prob_foul || intentional_foul {
        if until_bonus <= 1 {
            PossessionOutcome::FreeThrows
        } else {
            PossessionOutcome::NonShootingFoul
        }
    } else {
        PossessionOutcome::Shot
    }
}

fn beats_buzzer_exec(draw: u64, len_ms: u64) -> (r: bool)
    requires
        draw < PPM,
        len_ms < BUZZER_WINDOW_MS,
    ensures
        r == beats_buzzer(draw as int, len_ms as int),
{
    let d = draw as u128;
    proof {
        assert(d * d < 1_000_000_000_000) by (nonlinear_arith)
            requires
                d < 1_000_000,
        ;
        assert(d * d * d < 1_000_000_000_000_000_000) by (nonlinear_arith)
            requires
                d * d < 1_000_000_000_000,
                d < 1_000_000,
        ;
        assert(d * d * d * d < 1_000_000_000_000_000_000_000_000) by (nonlinear_arith)
            requires
                d * d * d < 1_000_000_000_000_000_000,
                d < 1_000_000,
        ;
    }
    d * d * d * d * 8000 <= len_ms as u128 * 1_000_000_000_000_000_000_000_000
}

/// Resolves a possession from its draws, by strict precedence: the period
/// ending (with the lead, or at the buzzer), a turnover, a foul (free throws
/// in the bonus, otherwise a non-shooting foul), and else a shot.
pub fn decide_possession(
    c: &ClockState,
    off_pts: i64,
    def_pts: i64,
    len_ms: u64,
    prob_tov: u64,
    prob_foul: u64,
    intentional_foul: bool,
    until_bonus: i64,
    draw_buzzer: u64,
    draw_tov: u64,
    draw_foul: u64,
) -> (r: PossessionOutcome)
    requires
        draw_buzzer < PPM,
    ensures
        r == possession_outcome(
            *c,
            off_pts,
            def_pts,
            len_ms,
            prob_tov,
            prob_foul,
            intentional_foul,
            until_bonus,
            draw_buzzer,
            draw_tov,
            draw_foul,
        ),
{
    if c.t_ms <= 0 && c.quarter >= c.num_periods && off_pts > def_pts && !c.elam_active {
        return PossessionOutcome::EndOfQuarter;
    }
    if c.t_ms <= 0 && len_ms < BUZZER_WINDOW_MS && !c.elam_active && !beats_buzzer_exec(
        draw_buzzer,
        len_ms,
    ) {
        return PossessionOutcome::EndOfQuarter;
    }
    if draw_tov < prob_tov {
        return PossessionOutcome::Turnover;
    }
    if draw_foul < prob_foul || intentional_foul {
        if until_bonus <= 1 {
            PossessionOutcome::FreeThrows
        } else {
            PossessionOutcome::NonShootingFoul
        }
    } else {
        PossessionOutcome::Shot
    }
}

/// Each possession ends in exactly one of four ways (the period ending, a
/// turnover, a defensive foul with or without free throws, or a shot), and
/// which one is fixed by the precedence of their conditions.
pub proof fn lemma_outcome_exclusive(
    c: ClockState,
    off_pts: i64,
    def_pts: i64,
    len_ms: u64,
    prob_tov: u64,
    prob_foul: u64,
    intentional_foul: bool,
    until_bonus: i64,
    draw_buzzer: u64,
    draw_tov: u64,
    draw_foul: u64,
)
    ensures
        ({
            let o = possession_outcome(
                c,
                off_pts,
                def_pts,
                len_ms,
                prob_tov,
                prob_foul,
                intentional_foul,
                until_bonus,
                draw_buzzer,
                draw_tov,
                draw_foul,
            );
            let end = ends_with_lead(c, off_pts, def_pts) || lost_to_buzzer(c, len_ms, draw_buzzer);
            let tov = !end && draw_tov < prob_tov;
            let foul = !end && !tov && (draw_foul < prob_foul || intentional_foul);
            let shot = !end && !tov && !foul;
            &&& (o == PossessionOutcome::EndOfQuarter) == end
            &&& (o == PossessionOutcome::Turnover) == tov
            &&& (o == PossessionOutcome::FreeThrows || o == PossessionOutcome::NonShootingFoul)
                == foul
            &&& (o == PossessionOutcome::Shot) == shot
            &&& (end as int) + (tov as int) + (foul as int) + (shot as int) == 1
        }),
{
}

/// Turnover probability in ppm: turnover factor × 0.14 × the defense's
/// defense rating ÷ (½ dribbling + passing of the offense), clamped to
/// `[0, PPM]`; certain when the offense has no ball skills at all. The
/// factor and ratings are in thousandths.
pub open spec fn tov_probability(turnover_factor: u32, defense: u64, dribbling: u64, passing: u64) -> int {
    let den = dribbling + 2 * passing;
    if den == 0 {
        PPM as int
    } else {
        let p = 280 * turnover_factor * defense / den;
        if p > PPM {
            PPM as int
        } else {
            p
        }
    }
}

pub fn prob_tov(turnover_factor: u32, defense: u64, dribbling: u64, passing: u64) -> (r: u64)
    ensures
        r == tov_probability(turnover_factor, defense, dribbling, passing),
        r <= PPM,
{
    let den: u128 = dribbling as u128 + 2 * passing as u128;
    if den == 0 {
        return PPM;
    }
    proof {
        assert(280 * turnover_factor * defense <= 280 * 0xffff_ffff * 0xffff_ffff_ffff_ffff)
            by (nonlinear_arith)
            requires
                turnover_factor <= 0xffff_ffff,
                defense <= 0xffff_ffff_ffff_ffff,
        ;
    }
    let p: u128 = 280 * turnover_factor as u128 * defense as u128 / den;
    if p > PPM as u128 {
        PPM
    } else {
        p as u64
    }
}

/// Probability in ppm of a defensive foul: 0.08 × the foul-rate factor
/// (thousandths).
pub open spec fn foul_probability(foul_rate_factor: u32) -> int {
    80 * foul_rate_factor
}

pub fn prob_foul(foul_rate_factor: u32) -> (r: u64)
    ensures
        r == foul_probability(foul_rate_factor),
{
    80 * foul_rate_factor as u64
}

/// What a field-goal attempt comes to.
#[derive(Clone, Copy, Debug, PartialEq, Eq, Structural)]
pub struct ShotDecision {
    pub made: bool,
    pub points: u32,
    pub assisted: bool,
    pub offensive_rebound: bool,
}

/// Assisted share of made shots, in ppm.
pub const ASSIST_PPM: u64 = 600_000;

/// A shot is made when its draw falls below the make probability, for
/// three points or two; a make is assisted when a teammate is there and the
/// assist draw falls below `ASSIST_PPM`; a miss is rebounded by the offense
/// when the rebound draw falls below the offensive-rebound probability.
pub open spec fn shot_decision(
    three: bool,
    make_prob: u64,
    make_draw: u64,
    has_teammate: bool,
    assist_draw: u64,
    orb_prob: u64,
    orb_draw: u64,
) -> ShotDecision {
    let made = make_draw < make_prob;
    ShotDecision {
        made,
        points: if !made { 0 } else if three { 3 } else { 2 },
        assisted: made && has_teammate && assist_draw < ASSIST_PPM,
        offensive_rebound: !made && orb_draw < orb_prob,
    }
}

pub fn decide_shot(
    three: bool,
    make_prob: u64,
    make_draw: u64,
    has_teammate: bool,
    assist_draw: u64,
    orb_prob: u64,
    orb_draw: u64,
) -> (r: ShotDecision)
    ensures
        r == shot_decision(three, make_prob, make_draw, has_teammate, assist_draw, orb_prob, orb_draw),
{
    let made = make_draw < make_prob;
    ShotDecision {
        made,
        points: if !made {
            0
        } else if three {
            3
        } else {
            2
        },
        assisted: made && has_teammate && assist_draw < ASSIST_PPM,
        offensive_rebound: !made && orb_draw < orb_prob,
    }
}

} // verus!
