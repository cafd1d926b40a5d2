//! Minutes, court and bench time, and energy after each possession.
use crate::rotation::lineup_contains;
use crate::team::{PlayerGameSim, RatingKind, TeamGameSim};
use vstd::prelude::*;

verus! {

/// Energy lost on court: length (minutes) × fatigue factor × (1 − endurance),
/// in thousandths, rounded down; endurance above one thousand counts as one
/// thousand.
pub open spec fn court_energy_loss(len_ms: u64, fatigue_factor: u32, endurance: u32) -> int {
    let e: int = if endurance >= 1000 { 1000 } else { endurance as int };
    len_ms * fatigue_factor * (1000 - e) / 60_000_000
}

/// Energy regained on the bench: 0.094 per minute, in thousandths.
pub open spec fn bench_energy_gain(len_ms: u64) -> int {
    94 * len_ms / 60_000
}

pub open spec fn sat_add_u64(a: u64, b: u64) -> u64 {
    if a + b > u64::MAX { u64::MAX } else { (a + b) as u64 }
}

pub open spec fn sat_add_i64(a: i64, b: u64) -> i64 {
    if a + b > i64::MAX { i64::MAX } else { (a + b) as i64 }
}

/// A player after a possession on court (or on the bench): clocks and
/// minutes advanced, energy drained to no less than zero (or restored to no
/// more than one thousand).
pub open spec fn after_possession(
    p: PlayerGameSim,
    on_court: bool,
    len_ms: u64,
    fatigue_factor: u32,
) -> PlayerGameSim {
    if on_court {
        let loss = court_energy_loss(len_ms, fatigue_factor, p.composite_rating.value(RatingKind::Endurance));
        PlayerGameSim {
            stat: crate::team::Stat {
                min_ms: sat_add_u64(p.stat.min_ms, len_ms),
                court_time_ms: sat_add_i64(p.stat.court_time_ms, len_ms),
                energy: if p.stat.energy < loss { 0 } else { (p.stat.energy - loss) as u64 },
                ..p.stat
            },
            ..p
        }
    } else {
        let gain = bench_energy_gain(len_ms);
        PlayerGameSim {
            stat: crate::team::Stat {
                bench_time_ms: sat_add_i64(p.stat.bench_time_ms, len_ms),
                energy: if p.stat.energy + gain > 1000 { 1000 } else { (p.stat.energy + gain) as u64 },
                ..p.stat
            },
            ..p
        }
    }
}

/// A possession, on court or on the bench, leaves energy within
/// `[0, 1000]`.
pub proof fn lemma_energy_in_range(p: PlayerGameSim, on_court: bool, len_ms: u64, fatigue_factor: u32)
    requires
        p.stat.energy <= 1000,
    ensures
        after_possession(p, on_court, len_ms, fatigue_factor).stat.energy <= 1000,
{
}

fn sat_add_u64_exec(a: u64, b: u64) -> (r: u64)
    ensures
        r == sat_add_u64(a, b),
{
    if a > u64::MAX - b {
        u64::MAX
    } else {
        a + b
    }
}

fn sat_add_i64_exec(a: i64, b: u64) -> (r: i64)
    ensures
        r == sat_add_i64(a, b),
{
    if a as i128 + b as i128 > i64::MAX as i128 {
        i64::MAX
    } else {
        (a as i128 + b as i128) as i64
    }
}

/// One player's update for a possession of `len_ms`.
pub fn player_after_possession(p: &PlayerGameSim, on_court: bool, len_ms: u64, fatigue_factor: u32) -> (r:
    PlayerGameSim)
    ensures
        r == after_possession(*p, on_court, len_ms, fatigue_factor),
        p.stat.energy <= 1000 ==> r.stat.energy <= 1000,
{
    let mut q = *p;
    if on_court {
        let end_raw = p.composite_rating.get(RatingKind::Endurance);
        let end: u64 = if end_raw >= 1000 {
            1000
        } else {
            end_raw as u64
        };
        proof {
            assert(len_ms * fatigue_factor <= 0xffff_ffff_ffff_ffff * 0xffff_ffff) by (nonlinear_arith)
                requires
                    len_ms <= 0xffff_ffff_ffff_ffff,
                    fatigue_factor <= 0xffff_ffff,
            ;
            assert(len_ms * fatigue_factor * (1000 - end) <= 0xffff_ffff_ffff_ffff * 0xffff_ffff
                * 1000) by (nonlinear_arith)
                requires
                    len_ms * fatigue_factor <= 0xffff_ffff_ffff_ffff * 0xffff_ffff,
                    end <= 1000,
            ;
        }
        let loss: u128 = len_ms as u128 * fatigue_factor as u128 * (1000 - end) as u128
            / 60_000_000;
        q.stat.min_ms = sat_add_u64_exec(p.stat.min_ms, len_ms);
        q.stat.court_time_ms = sat_add_i64_exec(p.stat.court_time_ms, len_ms);
        q.stat.energy = if (p.stat.energy as u128) < loss {
            0
        } else {
            (p.stat.energy as u128 - loss) as u64
        };
    } else {
        let gain: u128 = 94 * len_ms as u128 / 60_000;
        q.stat.bench_time_ms = sat_add_i64_exec(p.stat.bench_time_ms, len_ms);
        q.stat.energy = if p.stat.energy as u128 + gain as u128 > 1000 {
            1000
        } else {
            (p.stat.energy as u128 + gain) as u64
        };
    }
    q
}

/// Advances every player of a team by one possession: those on court play
/// it, the others rest. Lineup and roster size are untouched, and energy
/// stays within `[0, 1000]`.
pub fn update_playing_time(team: &mut TeamGameSim, len_ms: u64, fatigue_factor: u32)
    requires
        old(team).wf(old(team).on_court.len() as int),
    ensures
        final(team).wf(old(team).on_court.len() as int),
        final(team).on_court@ == old(team).on_court@,
        final(team).player.len() == old(team).player.len(),
        forall|i: int|
            0 <= i < final(team).player.len() ==> #[trigger] final(team).player@[i]
                == after_possession(
                old(team).player@[i],
                old(team).on_court@.contains(i as usize),
                len_ms,
                fatigue_factor,
            ),
        final(team).id == old(team).id,
        final(team).stat == old(team).stat,
        final(team).composite_rating == old(team).composite_rating,
        final(team).synergy == old(team).synergy,
{
    let mut i: usize = 0;
    while i < team.player.len()
        invariant
            i <= team.player.len(),
            team.player.len() == old(team).player.len(),
            team.on_court@ == old(team).on_court@,
            team.wf(old(team).on_court.len() as int),
            forall|j: int|
                0 <= j < i ==> #[trigger] team.player@[j] == after_possession(
                    old(team).player@[j],
                    old(team).on_court@.contains(j as usize),
                    len_ms,
                    fatigue_factor,
                ),
            forall|j: int| i <= j < team.player.len() ==> #[trigger] team.player@[j] == old(team).player@[j],
            team.id == old(team).id,
            team.stat == old(team).stat,
            team.composite_rating == old(team).composite_rating,
            team.synergy == old(team).synergy,
        decreases team.player.len() - i,
    {
        let on = lineup_contains(&team.on_court, i);
        let q = player_after_possession(&team.player[i], on, len_ms, fatigue_factor);
        team.player[i] = q;
        i = i + 1;
    }
}

} // verus!
