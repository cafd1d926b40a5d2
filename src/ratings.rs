//! The team composite ratings the outcome engine reads, recomputed each
//! possession from the players on court.
use crate::draws::PPM;
use crate::rules::{fatigue, fatigue_of};
use crate::synergy::{logistic, logistic_ppm};
use crate::team::{PlayerGameSim, RatingKind, Synergy, TeamCompositeRating, TeamGameSim, TeamRatingKind, team_kind_index};
use vstd::prelude::*;

verus! {

/// 2 × (point differential / 60), in thousandths.
pub open spec fn perf_arg(diff: i64) -> int {
    if diff >= 0 {
        diff * 100 / 3
    } else {
        -((-diff) * 100 / 3)
    }
}

/// Performance factor 1 − 0.2 tanh(diff / 60) in thousandths, through
/// tanh(x) = 2 sigmoid(2x) − 1: a team ahead plays down, one behind plays up,
/// by at most a fifth.
pub open spec fn perf_factor(diff: i64) -> int {
    1200 - 400 * logistic(perf_arg(diff)) / (PPM as int)
}

pub fn get_perf_factor(diff: i64) -> (r: u64)
    requires
        -0x1_0000_0000 <= diff <= 0x1_0000_0000,
    ensures
        r == perf_factor(diff),
        800 <= r <= 1200,
{
    let z: i64 = if diff >= 0 {
        diff * 100 / 3
    } else {
        -((-diff) * 100 / 3)
    };
    let l = logistic_ppm(z);
    1200 - 400 * l / PPM
}

/// The player rating a team rating averages.
pub open spec fn player_kind(k: TeamRatingKind) -> RatingKind {
    match k {
        TeamRatingKind::Dribbling => RatingKind::Dribbling,
        TeamRatingKind::Passing => RatingKind::Passing,
        TeamRatingKind::Rebounding => RatingKind::Rebounding,
        TeamRatingKind::Defense => RatingKind::Defense,
        TeamRatingKind::DefensePerimeter => RatingKind::DefensePerimeter,
        TeamRatingKind::Blocking => RatingKind::Blocking,
    }
}

pub open spec fn is_defensive(k: TeamRatingKind) -> bool {
    k == TeamRatingKind::Defense || k == TeamRatingKind::DefensePerimeter || k
        == TeamRatingKind::Blocking
}

/// The synergy multiplier that feeds rating `k`.
pub open spec fn synergy_for(s: Synergy, k: TeamRatingKind) -> u64 {
    if is_defensive(k) {
        s.def
    } else if k == TeamRatingKind::Rebounding {
        s.reb
    } else {
        s.off
    }
}

/// Penalty on defensive ratings for a player in foul trouble: 900 at the
/// foul limit, 750 past it, in thousandths.
pub open spec fn foul_limit_factor(k: TeamRatingKind, pf: u32, limit: u32) -> int {
    if !is_defensive(k) {
        1000
    } else if pf == limit {
        900
    } else if pf > limit {
        750
    } else {
        1000
    }
}

/// One player's share of rating `k`: rating × fatigue × performance × foul
/// penalty, each in thousandths and rounded down.
pub open spec fn contribution(p: PlayerGameSim, k: TeamRatingKind, perf: int, limit: u32) -> int {
    p.composite_rating.value(player_kind(k)) * fatigue_of(p.stat.energy) / 1000 * perf / 1000
        * foul_limit_factor(k, p.stat.pf, limit) / 1000
}

pub open spec fn contribution_sum(
    players: Seq<PlayerGameSim>,
    lineup: Seq<usize>,
    k: TeamRatingKind,
    perf: int,
    limit: u32,
    n: int,
) -> int
    decreases n,
{
    if n <= 0 {
        0
    } else {
        contribution_sum(players, lineup, k, perf, limit, n - 1) + contribution(
            players[lineup[n - 1] as int],
            k,
            perf,
            limit,
        )
    }
}

/// Team rating `k`: the average share over the players on court, plus the
/// synergy factor (thousandths) times the relevant synergy.
pub open spec fn team_rating(
    players: Seq<PlayerGameSim>,
    lineup: Seq<usize>,
    k: TeamRatingKind,
    perf: int,
    limit: u32,
    synergy: Synergy,
    synergy_factor: u32,
) -> int {
    contribution_sum(players, lineup, k, perf, limit, lineup.len() as int) / (lineup.len() as int)
        + synergy_factor * synergy_for(synergy, k) / 1000
}

fn contribution_exec(p: &PlayerGameSim, k: TeamRatingKind, perf: u64, limit: u32) -> (r: u64)
    requires
        perf <= 1200,
    ensures
        r == contribution(*p, k, perf as int, limit),
        r <= 2 * 0x1_0000_0000,
{
    let kind = match k {
        TeamRatingKind::Dribbling => RatingKind::Dribbling,
        TeamRatingKind::Passing => RatingKind::Passing,
        TeamRatingKind::Rebounding => RatingKind::Rebounding,
        TeamRatingKind::Defense => RatingKind::Defense,
        TeamRatingKind::DefensePerimeter => RatingKind::DefensePerimeter,
        TeamRatingKind::Blocking => RatingKind::Blocking,
    };
    let defensive = match k {
        TeamRatingKind::Defense | TeamRatingKind::DefensePerimeter | TeamRatingKind::Blocking => true,
        _ => false,
    };
    let flf: u64 = if !defensive {
        1000
    } else if p.stat.pf == limit {
        900
    } else if p.stat.pf > limit {
        750
    } else {
        1000
    };
    let r = p.composite_rating.get(kind) as u64;
    let f = fatigue(p.stat.energy);
    proof {
        assert(r * f / 1000 <= r) by (nonlinear_arith)
            requires
                f <= 1000,
                r >= 0,
        ;
    }
    let v1 = r * f / 1000;
    proof {
        assert(v1 * perf / 1000 <= 2 * v1) by (nonlinear_arith)
            requires
                perf <= 1200,
                v1 >= 0,
        ;
    }
    let v2 = v1 * perf / 1000;
    proof {
        assert(v2 * flf / 1000 <= v2) by (nonlinear_arith)
            requires
                flf <= 1000,
                v2 >= 0,
        ;
    }
    v2 * flf / 1000
}

/// Recomputes the six team ratings from the players on court; `diff` is the
/// team's own score less its opponent's.
pub fn update_team_composite_ratings(team: &mut TeamGameSim, diff: i64, foul_limit: u32, synergy_factor: u32)
    requires
        -0x1_0000_0000 <= diff <= 0x1_0000_0000,
        0 < old(team).on_court.len() <= 64,
        forall|k: int| 0 <= k < old(team).on_court.len() ==> old(team).on_court@[k] < old(team).player.len(),
        old(team).synergy.off <= 2000,
        old(team).synergy.def <= 2000,
        old(team).synergy.reb <= 2000,
    ensures
        forall|k: TeamRatingKind|
            #[trigger] final(team).composite_rating.value(k) == team_rating(
                old(team).player@,
                old(team).on_court@,
                k,
                perf_factor(diff),
                foul_limit,
                old(team).synergy,
                synergy_factor,
            ),
        final(team).player@ == old(team).player@,
        final(team).on_court@ == old(team).on_court@,
        final(team).id == old(team).id,
        final(team).stat == old(team).stat,
        final(team).synergy == old(team).synergy,
{
    let perf = get_perf_factor(diff);
    let kinds: [TeamRatingKind; 6] = [
        TeamRatingKind::Dribbling,
        TeamRatingKind::Passing,
        TeamRatingKind::Rebounding,
        TeamRatingKind::Defense,
        TeamRatingKind::DefensePerimeter,
        TeamRatingKind::Blocking,
    ];
    let mut out = TeamCompositeRating::new();
    let n = team.on_court.len();
    let mut ki: usize = 0;
    while ki < 6
        invariant
            ki <= 6,
            n == team.on_court.len(),
            0 < n <= 64,
            forall|k: int| 0 <= k < team.on_court.len() ==> team.on_court@[k] < team.player.len(),
            team.synergy.off <= 2000,
            team.synergy.def <= 2000,
            team.synergy.reb <= 2000,
            perf == perf_factor(diff),
            perf <= 1200,
            team.player@ == old(team).player@,
            team.on_court@ == old(team).on_court@,
            team.synergy == old(team).synergy,
            forall|i: int| 0 <= i < 6 ==> team_kind_index(#[trigger] kinds[i]) == i,
            forall|k: TeamRatingKind|
                team_kind_index(k) < ki ==> #[trigger] out.value(k) == team_rating(
                    old(team).player@,
                    old(team).on_court@,
                    k,
                    perf as int,
                    foul_limit,
                    old(team).synergy,
                    synergy_factor,
                ),
        decreases 6 - ki,
    {
        let k = kinds[ki];
        let mut sum: u64 = 0;
        let mut j: usize = 0;
        while j < n
            invariant
                j <= n,
                n == team.on_court.len(),
                0 < n <= 64,
                forall|q: int| 0 <= q < team.on_court.len() ==> team.on_court@[q] < team.player.len(),
                perf <= 1200,
                sum == contribution_sum(team.player@, team.on_court@, k, perf as int, foul_limit, j as int),
                sum <= j * (2 * 0x1_0000_0000),
            decreases n - j,
        {
            let c = contribution_exec(&team.player[team.on_court[j]], k, perf, foul_limit);
            proof {
                assert(j * (2 * 0x1_0000_0000) + 2 * 0x1_0000_0000 == (j + 1) * (2 * 0x1_0000_0000))
                    by (nonlinear_arith);
                assert(j * (2 * 0x1_0000_0000) <= 64 * (2 * 0x1_0000_0000)) by (nonlinear_arith)
                    requires
                        j <= 64,
                ;
            }
            sum = sum + c;
            j = j + 1;
        }
        let syn: u64 = match k {
            TeamRatingKind::Dribbling | TeamRatingKind::Passing => team.synergy.off,
            TeamRatingKind::Rebounding => team.synergy.reb,
            _ => team.synergy.def,
        };
        assert(syn == synergy_for(team.synergy, k));
        proof {
            assert(synergy_factor as u64 * syn <= 0xffff_ffff * 2000) by (nonlinear_arith)
                requires
                    syn <= 2000,
                    synergy_factor <= 0xffff_ffff,
            ;
            assert(sum / (n as u64) <= sum) by (nonlinear_arith)
                requires
                    n >= 1,
                    sum >= 0,
            ;
            assert(sum <= 64 * (2 * 0x1_0000_0000)) by (nonlinear_arith)
                requires
                    sum <= n * (2 * 0x1_0000_0000),
                    n <= 64,
            ;
        }
        let v = sum / (n as u64) + synergy_factor as u64 * syn / 1000;
        let ghost out_before = out;
        out.ratings[ki] = v;
        proof {
            assert(team_kind_index(k) == ki);
            assert forall|k2: TeamRatingKind| team_kind_index(k2) < ki + 1 implies #[trigger] out.value(
                k2,
            ) == team_rating(
                old(team).player@,
                old(team).on_court@,
                k2,
                perf as int,
                foul_limit,
                old(team).synergy,
                synergy_factor,
            ) by {
                if team_kind_index(k2) == ki {
                    assert(k2 == k);
                } else {
                    assert(out.value(k2) == out_before.value(k2));
                }
            }
        }
        ki = ki + 1;
    }
    team.composite_rating = out;
}

} // verus!
