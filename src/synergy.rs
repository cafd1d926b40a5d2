//! Team synergy: offense, defense and rebounding multipliers derived each
//! possession from the skills of the players on court.
use crate::draws::PPM;
use crate::team::{PlayerGameSim, RatingKind, Synergy, TeamGameSim};
use vstd::prelude::*;

verus! {

/// The logistic function 1 / (1 + e^(-z)) at z = i / 2, in ppm, for
/// `0 <= i <= 16`.
pub open spec fn logistic_knot(i: int) -> int {
    if i <= 0 { 500000 }
    else if i == 1 { 622459 }
    else if i == 2 { 731059 }
    else if i == 3 { 817574 }
    else if i == 4 { 880797 }
    else if i == 5 { 924142 }
    else if i == 6 { 952574 }
    else if i == 7 { 970688 }
    else if i == 8 { 982014 }
    else if i == 9 { 989013 }
    else if i == 10 { 993307 }
    else if i == 11 { 995930 }
    else if i == 12 { 997527 }
    else if i == 13 { 998499 }
    else if i == 14 { 999089 }
    else if i == 15 { 999447 }
    else { 999665 }
}

/// The logistic function at `z` thousandths, in ppm: linear between knots
/// every half unit on `[0, 8]`, flat beyond, and symmetric about one half
/// (`f(-z) = 1 - f(z)`).
pub open spec fn logistic(z: int) -> int {
    let a = if z >= 0 { z } else { -z };
    let up = if a >= 8000 {
        logistic_knot(16)
    } else {
        logistic_knot(a / 500) + (logistic_knot(a / 500 + 1) - logistic_knot(a / 500)) * (a % 500)
            / 500
    };
    if z >= 0 {
        up
    } else {
        PPM - up
    }
}

fn logistic_knot_exec(i: u64) -> (r: u64)
    requires
        i <= 16,
    ensures
        r == logistic_knot(i as int),
{
    let t: [u64; 17] = [
        500000, 622459, 731059, 817574, 880797, 924142, 952574, 970688, 982014, 989013, 993307,
        995930, 997527, 998499, 999089, 999447, 999665,
    ];
    t[i as usize]
}

/// `logistic(z)`, in ppm.
pub fn logistic_ppm(z: i64) -> (r: u64)
    ensures
        r == logistic(z as int),
        r <= PPM,
{
    let a: u64 = if z >= 0 {
        z as u64
    } else {
        (-(z as i128)) as u64
    };
    let up: u64 = if a >= 8000 {
        logistic_knot_exec(16)
    } else {
        let i = a / 500;
        let lo = logistic_knot_exec(i);
        let hi = logistic_knot_exec(i + 1);
        assert(lo <= hi && hi <= PPM);
        assert((hi - lo) * (a % 500) <= PPM * 500) by (nonlinear_arith)
            requires
                0 <= hi - lo <= PPM,
                0 <= a % 500 < 500,
        ;
        lo + (hi - lo) * (a % 500) / 500
    };
    proof {
        if a < 8000 {
            let i = a / 500;
            let lo = logistic_knot(i as int);
            let hi = logistic_knot(i as int + 1);
            assert((hi - lo) * (a % 500) / 500 <= hi - lo) by (nonlinear_arith)
                requires
                    hi - lo >= 0,
                    0 <= a % 500 < 500,
            ;
            assert((hi - lo) * (a % 500) / 500 >= 0) by (nonlinear_arith)
                requires
                    hi - lo >= 0,
                    0 <= a % 500,
            ;
        }
    }
    if z >= 0 {
        up
    } else {
        PPM - up
    }
}

/// sigmoid(x, steepness, midpoint) = 1 / (1 + e^(-steepness (x - midpoint)))
/// with `x` and `midpoint` in thousandths; the result in ppm.
pub open spec fn sigmoid_of(x: int, steepness: int, midpoint: int) -> int {
    logistic(steepness * (x - midpoint))
}

pub fn sigmoid(x: u64, steepness: u64, midpoint: u64) -> (r: u64)
    requires
        x <= 0x1_0000_0000_0000,
        steepness <= 100,
        midpoint <= 0x1_0000_0000_0000,
    ensures
        r == sigmoid_of(x as int, steepness as int, midpoint as int),
        r <= PPM,
{
    let d: i64 = x as i64 - midpoint as i64;
    proof {
        assert(-100 * 0x1_0000_0000_0000 <= steepness * d <= 100 * 0x1_0000_0000_0000)
            by (nonlinear_arith)
            requires
                0 <= steepness <= 100,
                -0x1_0000_0000_0000 <= d <= 0x1_0000_0000_0000,
        ;
    }
    logistic_ppm(steepness as i64 * d)
}

/// Sum over the first `k` players of `lineup` of the skill sigmoid (ppm)
/// of rating `kind` with steepness 15 and midpoint `mid`.
pub open spec fn skill_sum(
    players: Seq<PlayerGameSim>,
    lineup: Seq<usize>,
    kind: RatingKind,
    mid: int,
    k: int,
) -> int
    decreases k,
{
    if k <= 0 {
        0
    } else {
        skill_sum(players, lineup, kind, mid, k - 1) + sigmoid_of(
            players[lineup[k - 1] as int].composite_rating.value(kind) as int,
            15,
            mid,
        )
    }
}

/// The team's count of a skill, in thousandths of a player.
pub open spec fn skill_count(players: Seq<PlayerGameSim>, lineup: Seq<usize>, kind: RatingKind, mid: int) -> int {
    skill_sum(players, lineup, kind, mid, lineup.len() as int) / 1000
}

fn skill_count_exec(players: &Vec<PlayerGameSim>, lineup: &Vec<usize>, kind: RatingKind, mid: u64) -> (r: u64)
    requires
        lineup.len() <= 64,
        forall|k: int| 0 <= k < lineup.len() ==> lineup@[k] < players.len(),
        mid <= 1000,
    ensures
        r == skill_count(players@, lineup@, kind, mid as int),
        r <= 64_000,
{
    let mut sum: u64 = 0;
    let mut j: usize = 0;
    while j < lineup.len()
        invariant
            j <= lineup.len() <= 64,
            forall|k: int| 0 <= k < lineup.len() ==> lineup@[k] < players.len(),
            mid <= 1000,
            sum == skill_sum(players@, lineup@, kind, mid as int, j as int),
            sum <= j * PPM,
        decreases lineup.len() - j,
    {
        let v = players[lineup[j]].composite_rating.get(kind);
        sum = sum + sigmoid(v as u64, 15, mid);
        j = j + 1;
    }
    sum / 1000
}

/// The largest `r` with `r * r <= n`.
pub fn isqrt(n: u64) -> (r: u64)
    requires
        n <= 0x1_0000_0000_0000,
    ensures
        r * r <= n < (r + 1) * (r + 1),
        r <= 0x100_0000,
{
    let mut lo: u64 = 0;
    let mut hi: u64 = 0x100_0001;
    proof {
        assert(0x100_0001 * 0x100_0001 > 0x1_0000_0000_0000nat) by (nonlinear_arith);
    }
    while hi - lo > 1
        invariant
            lo < hi <= 0x100_0001,
            lo * lo <= n,
            n < hi * hi,
        decreases hi - lo,
    {
        let mid = lo + (hi - lo) / 2;
        proof {
            assert(mid * mid <= 0x100_0001 * 0x100_0001) by (nonlinear_arith)
                requires
                    mid <= 0x100_0001,
            ;
        }
        if mid * mid <= n {
            lo = mid;
        } else {
            hi = mid;
        }
    }
    lo
}

/// Offense, defense and rebounding synergy of a lineup, in thousandths, with
/// `root` the integer square root of (1 + ball handling + passing + three
/// point shooting) in millionths (so a square root in thousandths).
pub open spec fn synergy_of(players: Seq<PlayerGameSim>, lineup: Seq<usize>, root: int) -> Synergy {
    let three = skill_count(players, lineup, RatingKind::ShootingThreePointer, 590);
    let a = skill_count(players, lineup, RatingKind::Athleticism, 630);
    let b = skill_count(players, lineup, RatingKind::Dribbling, 680);
    let di = skill_count(players, lineup, RatingKind::DefenseInterior, 570);
    let dp = skill_count(players, lineup, RatingKind::DefensePerimeter, 610);
    let po = skill_count(players, lineup, RatingKind::ShootingLowPost, 610);
    let ps = skill_count(players, lineup, RatingKind::Passing, 630);
    let r = skill_count(players, lineup, RatingKind::Rebounding, 610);
    let off_raw = 5 * sigmoid_of(three, 3, 2000) + 3 * sigmoid_of(b, 15, 750) + sigmoid_of(b, 5, 1750)
        + 3 * sigmoid_of(ps, 15, 750) + sigmoid_of(ps, 5, 1750) + sigmoid_of(ps, 5, 2750)
        + sigmoid_of(po, 15, 750) + sigmoid_of(a, 15, 1750) + sigmoid_of(a, 5, 2750);
    let perim = (if root < 1000 { 0 } else if root - 1000 > 2000 { 2000 } else { root - 1000 }) / 2;
    Synergy {
        off: ((off_raw / 17) * (500 + perim / 2) / 1_000_000) as u64,
        def: ((sigmoid_of(dp, 15, 750) + 2 * sigmoid_of(di, 15, 750) + sigmoid_of(a, 5, 2000)
            + sigmoid_of(a, 5, 3250)) / 6 / 1000) as u64,
        reb: ((sigmoid_of(r, 15, 750) + sigmoid_of(r, 5, 1750)) / 4 / 1000) as u64,
    }
}

/// The square root the offensive perimeter factor reads.
pub open spec fn is_perimeter_root(players: Seq<PlayerGameSim>, lineup: Seq<usize>, root: int) -> bool {
    let n = (1000 + skill_count(players, lineup, RatingKind::Dribbling, 680) + skill_count(
        players,
        lineup,
        RatingKind::Passing,
        630,
    ) + skill_count(players, lineup, RatingKind::ShootingThreePointer, 590)) * 1000;
    root * root <= n < (root + 1) * (root + 1)
}

/// A lineup's skill counts, in thousandths of a player.
#[derive(Clone, Copy, Debug, PartialEq, Eq)]
pub struct SkillsCount {
    pub three: u64,
    pub a: u64,
    pub b: u64,
    pub di: u64,
    pub dp: u64,
    pub po: u64,
    pub ps: u64,
    pub r: u64,
}

impl SkillsCount {
    pub fn new() -> (r: SkillsCount)
        ensures
            r == (SkillsCount { three: 0, a: 0, b: 0, di: 0, dp: 0, po: 0, ps: 0, r: 0 }),
    {
        SkillsCount { three: 0, a: 0, b: 0, di: 0, dp: 0, po: 0, ps: 0, r: 0 }
    }
}

/// Recomputes a team's synergy from the players now on court.
#[verifier::rlimit(40)]
pub fn update_synergy(team: &mut TeamGameSim)
    requires
        old(team).on_court.len() <= 64,
        forall|k: int| 0 <= k < old(team).on_court.len() ==> old(team).on_court@[k] < old(team).player.len(),
    ensures
        exists|root: int|
            is_perimeter_root(old(team).player@, old(team).on_court@, root) && final(team).synergy
                == synergy_of(old(team).player@, old(team).on_court@, root),
        final(team).synergy.off <= 1000,
        final(team).synergy.def <= 833,
        final(team).synergy.reb <= 500,
        final(team).player@ == old(team).player@,
        final(team).on_court@ == old(team).on_court@,
        final(team).id == old(team).id,
        final(team).stat == old(team).stat,
        final(team).composite_rating == old(team).composite_rating,
{
    let mut sc = SkillsCount::new();
    sc.three = skill_count_exec(&team.player, &team.on_court, RatingKind::ShootingThreePointer, 590);
    sc.a = skill_count_exec(&team.player, &team.on_court, RatingKind::Athleticism, 630);
    sc.b = skill_count_exec(&team.player, &team.on_court, RatingKind::Dribbling, 680);
    sc.di = skill_count_exec(&team.player, &team.on_court, RatingKind::DefenseInterior, 570);
    sc.dp = skill_count_exec(&team.player, &team.on_court, RatingKind::DefensePerimeter, 610);
    sc.po = skill_count_exec(&team.player, &team.on_court, RatingKind::ShootingLowPost, 610);
    sc.ps = skill_count_exec(&team.player, &team.on_court, RatingKind::Passing, 630);
    sc.r = skill_count_exec(&team.player, &team.on_court, RatingKind::Rebounding, 610);
    let (three, a, b, di, dp, po, ps, r) = (sc.three, sc.a, sc.b, sc.di, sc.dp, sc.po, sc.ps, sc.r);
    let off_raw: u64 = 5 * sigmoid(three, 3, 2000) + 3 * sigmoid(b, 15, 750) + sigmoid(b, 5, 1750)
        + 3 * sigmoid(ps, 15, 750) + sigmoid(ps, 5, 1750) + sigmoid(ps, 5, 2750) + sigmoid(po, 15, 750)
        + sigmoid(a, 15, 1750) + sigmoid(a, 5, 2750);
    let root = isqrt((1000 + b + ps + three) * 1000);
    let perim: u64 = (crate::rules::bound(root as i64 - 1000, 0, 2000) / 2) as u64;
    proof {
        assert((off_raw / 17) * (500 + perim / 2) <= 18 * PPM * 1000) by (nonlinear_arith)
            requires
                off_raw <= 18 * PPM,
                perim <= 1000,
        ;
    }
    let off = (off_raw / 17) * (500 + perim / 2) / 1_000_000;
    proof {
        assert((off_raw / 17) * (500 + perim / 2) <= 1_000_000 * 1000) by (nonlinear_arith)
            requires
                off_raw / 17 <= 1_000_000,
                perim <= 1000,
        ;
    }
    let def = (sigmoid(dp, 15, 750) + 2 * sigmoid(di, 15, 750) + sigmoid(a, 5, 2000) + sigmoid(
        a,
        5,
        3250,
    )) / 6 / 1000;
    let reb = (sigmoid(r, 15, 750) + sigmoid(r, 5, 1750)) / 4 / 1000;
    team.synergy = Synergy { off, def, reb };
    assert(is_perimeter_root(old(team).player@, old(team).on_court@, root as int));
}

} // verus!
