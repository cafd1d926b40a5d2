//! The rotation pass: effective ratings for every player, then substitutions
//! slot by slot from the weakest player on court to the strongest.
use crate::draws::draw_below;
use crate::play::{log_extends, log_play, Play, PlayType};
use crate::rules::{fatigue, fatigue_of, foul_trouble_factor_of, get_foul_trouble_factor, MILLI};
use crate::selection::{get_sorted_indexes, is_rating_order, ovr_lt};
use crate::team::{lineup_ok, PlayerGameSim, Stat, TeamGameSim};
use vstd::prelude::*;

verus! {

/// What the rotation reads of the game beyond the roster.
#[derive(Clone, Copy, Debug, PartialEq, Eq)]
pub struct RotationContext {
    /// Rating noise is switched off.
    pub late_game: bool,
    /// Playing-time preferences are ignored.
    pub all_star_game: bool,
    /// Garbage time: deeper bench players are preferred.
    pub blowout: bool,
    pub foul_limit: u32,
    /// Foul-out threshold; zero turns fouling out off.
    pub fouls_to_foul_out: u32,
}

/// A player the rotation will not pick: injured, or fouled out where fouling
/// out is enforced and not waived.
pub open spec fn ineligible(p: PlayerGameSim, include_fouled_out: bool, fouls_to_foul_out: u32) -> bool {
    p.injured || (!include_fouled_out && fouls_to_foul_out > 0 && p.stat.pf >= fouls_to_foul_out)
}

/// Effective rating of the player at roster index `i` with rating noise
/// `noise` (thousandths): base value × fatigue × noise × playing-time
/// preference (not in an all-star game) × either the garbage-time factor
/// (i + 1) / 10 or the foul-trouble factor, each product rounded down and
/// the whole saturating at the largest `u64`.
pub open spec fn ovr_of(p: PlayerGameSim, i: int, ctx: RotationContext, noise: int) -> int {
    let v = ovr_raw(p, i, ctx, noise);
    if v > u64::MAX {
        u64::MAX as int
    } else {
        v
    }
}

pub open spec fn ovr_raw(p: PlayerGameSim, i: int, ctx: RotationContext, noise: int) -> int {
    let v1 = p.value_no_pot * fatigue_of(p.stat.energy) / 1000;
    let v2 = v1 * noise / 1000;
    let v3 = if ctx.all_star_game {
        v2
    } else {
        v2 * p.pt_modifier / 1000
    };
    if ctx.blowout {
        v3 * ((i + 1) * 100) / 1000
    } else {
        v3 * foul_trouble_factor_of(p.stat.pf, ctx.foul_limit) / 1000
    }
}

proof fn lemma_scale_bound(a: int, b: int, x: int, y: int)
    requires
        0 <= a <= x,
        0 <= b <= y,
    ensures
        0 <= a * b / 1000 <= x * y / 1000,
{
    assert(0 <= a * b <= x * y) by (nonlinear_arith)
        requires
            0 <= a <= x,
            0 <= b <= y,
    ;
    assert(a * b / 1000 <= x * y / 1000) by (nonlinear_arith)
        requires
            0 <= a * b <= x * y,
    ;
}

/// The effective rating of one eligible player.
pub fn player_ovr(p: &PlayerGameSim, i: usize, ctx: &RotationContext, noise: u64) -> (r: u64)
    requires
        noise <= 1100,
    ensures
        r == ovr_of(*p, i as int, *ctx, noise as int),
{
    let f = fatigue(p.stat.energy);
    proof {
        lemma_scale_bound(p.value_no_pot as int, f as int, 0x1_0000_0000, 1000);
    }
    let v1: u128 = p.value_no_pot as u128 * f as u128 / 1000;
    proof {
        lemma_scale_bound(v1 as int, noise as int, 0x1_0000_0000, 1100);
    }
    let v2: u128 = v1 * noise as u128 / 1000;
    proof {
        lemma_scale_bound(v2 as int, p.pt_modifier as int, 0x2_0000_0000, 0x1_0000_0000);
    }
    let v3: u128 = if ctx.all_star_game {
        v2
    } else {
        v2 * p.pt_modifier as u128 / 1000
    };
    assert(v3 <= 0x2_0000_0000 * 0x1_0000_0000 / 1000);
    if ctx.blowout {
        proof {
            lemma_scale_bound(
                v3 as int,
                (i as int + 1) * 100,
                (0x2_0000_0000 * 0x1_0000_0000 / 1000) as int,
                (0x1_0000_0000_0000_0000 * 100) as int,
            );
            assert((0x2_0000_0000 * 0x1_0000_0000 / 1000) as int * (0x1_0000_0000_0000_0000 * 100)
                / 1000 < 0x1_0000_0000_0000_0000_0000_0000_0000_0000);
        }
        let v = v3 * ((i as u128 + 1) * 100) / 1000;
        if v > u64::MAX as u128 {
            u64::MAX
        } else {
            v as u64
        }
    } else {
        let ft = get_foul_trouble_factor(p.stat.pf, ctx.foul_limit);
        proof {
            lemma_scale_bound(v3 as int, ft as int, (0x2_0000_0000 * 0x1_0000_0000 / 1000) as int, 1000);
        }
        (v3 * ft as u128 / 1000) as u64
    }
}

/// Effective ratings of a whole roster: `None` for an ineligible player,
/// otherwise the rating with a noise drawn from [900, 1100) thousandths, or
/// exactly one thousandth-scale unit (no noise) late in the game.
pub fn get_ovrs(
    players: &Vec<PlayerGameSim>,
    include_fouled_out: bool,
    ctx: &RotationContext,
    rng: &mut rand::rngs::StdRng,
) -> (ovrs: Vec<Option<u64>>)
    ensures
        ovrs.len() == players.len(),
        forall|i: int|
            0 <= i < ovrs.len() ==> (#[trigger] ovrs@[i]).is_none() == ineligible(
                players@[i],
                include_fouled_out,
                ctx.fouls_to_foul_out,
            ),
        forall|i: int|
            0 <= i < ovrs.len() && (#[trigger] ovrs@[i]).is_some() ==> exists|noise: int|
                900 <= noise < 1100 && (ctx.late_game ==> noise == 1000) && ovrs@[i].unwrap()
                    == ovr_of(players@[i], i, *ctx, noise),
{
    let mut ovrs: Vec<Option<u64>> = Vec::new();
    let mut i: usize = 0;
    while i < players.len()
        invariant
            i <= players.len(),
            ovrs.len() == i,
            forall|j: int|
                0 <= j < i ==> (#[trigger] ovrs@[j]).is_none() == ineligible(
                    players@[j],
                    include_fouled_out,
                    ctx.fouls_to_foul_out,
                ),
            forall|j: int|
                0 <= j < i && (#[trigger] ovrs@[j]).is_some() ==> exists|noise: int|
                    900 <= noise < 1100 && (ctx.late_game ==> noise == 1000) && ovrs@[j].unwrap()
                        == ovr_of(players@[j], j, *ctx, noise),
        decreases players.len() - i,
    {
        let p = &players[i];
        if p.injured || (!include_fouled_out && ctx.fouls_to_foul_out > 0 && p.stat.pf
            >= ctx.fouls_to_foul_out) {
            ovrs.push(None);
        } else {
            let noise: u64 = if ctx.late_game {
                MILLI
            } else {
                900 + draw_below(rng, 200)
            };
            let v = player_ovr(p, i, ctx, noise);
            ovrs.push(Some(v));
            assert(ovrs@[i as int].unwrap() == ovr_of(players@[i as int], i as int, *ctx, noise as int));
        }
        i = i + 1;
    }
    ovrs
}

/// Number of eligible entries among the first `k`.
pub open spec fn count_eligible(ovrs: Seq<Option<u64>>, k: int) -> int
    decreases k,
{
    if k <= 0 {
        0
    } else {
        count_eligible(ovrs, k - 1) + if ovrs[k - 1].is_some() { 1int } else { 0int }
    }
}

pub fn num_eligible_players(ovrs: &Vec<Option<u64>>) -> (r: usize)
    ensures
        r == count_eligible(ovrs@, ovrs.len() as int),
{
    let mut c: usize = 0;
    let mut i: usize = 0;
    while i < ovrs.len()
        invariant
            i <= ovrs.len(),
            c == count_eligible(ovrs@, i as int),
            c <= i,
        decreases ovrs.len() - i,
    {
        if ovrs[i].is_some() {
            c = c + 1;
        }
        i = i + 1;
    }
    c
}

/// Least number of guards and of forwards a lineup of `n` should hold.
pub open spec fn position_cutoff(n: int) -> int {
    if n >= 5 {
        2
    } else if n >= 3 {
        1
    } else {
        0
    }
}

/// Whether position tag `kind` (0 guard, 1 point guard, 2 forward, 3 center)
/// is carried by `p`.
pub open spec fn has_position(p: PlayerGameSim, kind: int) -> bool {
    if kind == 0 {
        p.pos.guard
    } else if kind == 1 {
        p.pos.point_guard
    } else if kind == 2 {
        p.pos.forward
    } else {
        p.pos.center
    }
}

/// Players among the first `k` of `lineup` that carry tag `kind`.
pub open spec fn count_position(
    players: Seq<PlayerGameSim>,
    lineup: Seq<usize>,
    kind: int,
    k: int,
) -> int
    decreases k,
{
    if k <= 0 {
        0
    } else {
        count_position(players, lineup, kind, k - 1) + if has_position(
            players[lineup[k - 1] as int],
            kind,
        ) {
            1int
        } else {
            0int
        }
    }
}

/// The lineup lacks guards (with no point guard to make up for them) or
/// lacks forwards (with no center).
pub open spec fn unbalanced(players: Seq<PlayerGameSim>, lineup: Seq<usize>) -> bool {
    let n = lineup.len() as int;
    let cutoff = position_cutoff(n);
    (count_position(players, lineup, 0, n) < cutoff && count_position(players, lineup, 1, n) == 0)
        || (count_position(players, lineup, 2, n) < cutoff && count_position(players, lineup, 3, n)
        == 0)
}

fn count_position_exec(players: &Vec<PlayerGameSim>, lineup: &Vec<usize>, kind: u8) -> (r: usize)
    requires
        forall|k: int| 0 <= k < lineup.len() ==> lineup@[k] < players.len(),
        kind < 4,
    ensures
        r == count_position(players@, lineup@, kind as int, lineup.len() as int),
{
    let mut c: usize = 0;
    let mut j: usize = 0;
    while j < lineup.len()
        invariant
            j <= lineup.len(),
            c <= j,
            forall|k: int| 0 <= k < lineup.len() ==> lineup@[k] < players.len(),
            c == count_position(players@, lineup@, kind as int, j as int),
        decreases lineup.len() - j,
    {
        let pos = players[lineup[j]].pos;
        let has: bool = if kind == 0 {
            pos.guard
        } else if kind == 1 {
            pos.point_guard
        } else if kind == 2 {
            pos.forward
        } else {
            pos.center
        };
        if has {
            c = c + 1;
        }
        j = j + 1;
    }
    c
}

fn is_unbalanced(players: &Vec<PlayerGameSim>, lineup: &Vec<usize>) -> (r: bool)
    requires
        forall|k: int| 0 <= k < lineup.len() ==> lineup@[k] < players.len(),
    ensures
        r == unbalanced(players@, lineup@),
{
    let n = lineup.len();
    let cutoff: usize = if n >= 5 {
        2
    } else if n >= 3 {
        1
    } else {
        0
    };
    (count_position_exec(players, lineup, 0) < cutoff && count_position_exec(players, lineup, 1)
        == 0) || (count_position_exec(players, lineup, 2) < cutoff && count_position_exec(
        players,
        lineup,
        3,
    ) == 0)
}

/// Energy above which (in fatigue terms) a player is kept on court for the
/// sake of positional balance.
pub const BALANCE_FATIGUE: u64 = 728;

/// Court or bench time a player must pass before a like-for-like swap.
pub const MIN_STINT_MS: i64 = 120_000;

/// `b` is `a` with at most its court and bench clocks changed.
pub open spec fn same_but_clocks(a: PlayerGameSim, b: PlayerGameSim) -> bool {
    b == (PlayerGameSim {
        stat: Stat { court_time_ms: b.stat.court_time_ms, bench_time_ms: b.stat.bench_time_ms, ..a.stat },
        ..a
    })
}

/// No one on the bench is eligible.
pub open spec fn bench_all_ineligible(ovrs: Seq<Option<u64>>, lineup: Seq<usize>) -> bool {
    forall|b: usize| b < ovrs.len() && !lineup.contains(b) ==> (#[trigger] ovrs[b as int]).is_none()
}

/// After a pass: a slot holds an ineligible player only when every player on
/// the bench is ineligible too.
pub open spec fn no_avoidable_ineligible(ovrs: Seq<Option<u64>>, lineup: Seq<usize>) -> bool {
    forall|pp: int|
        0 <= pp < lineup.len() && (#[trigger] ovrs[lineup[pp] as int]).is_none()
            ==> bench_all_ineligible(ovrs, lineup)
}

/// Whether `x` is on court.
pub fn lineup_contains(lineup: &Vec<usize>, x: usize) -> (r: bool)
    ensures
        r == lineup@.contains(x),
{
    let mut j: usize = 0;
    while j < lineup.len()
        invariant
            j <= lineup.len(),
            forall|k: int| 0 <= k < j ==> lineup@[k] != x,
        decreases lineup.len() - j,
    {
        if lineup[j] == x {
            return true;
        }
        j = j + 1;
    }
    false
}

/// A fresh random clock for a player just moved: within two minutes of zero.
fn random_stint_offset(rng: &mut rand::rngs::StdRng) -> (r: i64)
    ensures
        -MIN_STINT_MS <= r < MIN_STINT_MS,
{
    draw_below(rng, 240_000) as i64 - MIN_STINT_MS
}

/// A slot changed from `p` to `b` only for an eligible `b` who outrates
/// `p`, or who replaces an ineligible `p`.
pub open spec fn swap_justified(ovrs: Seq<Option<u64>>, p: usize, b: usize) -> bool {
    ovrs[b as int].is_some() && (ovrs[p as int].is_none() || ovr_lt(ovrs[p as int], ovrs[b as int]))
}

/// Some roster index is in `new` that was not in `old`.
pub open spec fn entered(old: Seq<usize>, new: Seq<usize>) -> bool {
    exists|i: usize| #[trigger] new.contains(i) && !old.contains(i)
}

proof fn lemma_count_position_same(
    a: Seq<PlayerGameSim>,
    b: Seq<PlayerGameSim>,
    lineup: Seq<usize>,
    kind: int,
    k: int,
)
    requires
        a.len() == b.len(),
        forall|i: int| 0 <= i < a.len() ==> (#[trigger] a[i]).pos == b[i].pos,
        0 <= k <= lineup.len(),
        forall|j: int| 0 <= j < lineup.len() ==> lineup[j] < a.len(),
    ensures
        count_position(a, lineup, kind, k) == count_position(b, lineup, kind, k),
    decreases k,
{
    if k > 0 {
        lemma_count_position_same(a, b, lineup, kind, k - 1);
        assert(a[lineup[k - 1] as int].pos == b[lineup[k - 1] as int].pos);
    }
}

/// A like-for-like swap (eligible incumbent) needs the incumbent to have
/// been on court, and the candidate on the bench, for over two minutes
/// before the pass.
pub open spec fn stint_ok(ovrs: Seq<Option<u64>>, players: Seq<PlayerGameSim>, p: usize, b: usize) -> bool {
    ovrs[p as int].is_some() ==> players[p as int].stat.court_time_ms > MIN_STINT_MS
        && players[b as int].stat.bench_time_ms > MIN_STINT_MS
}

/// Both clocks lie within two minutes of zero, as after a substitution.
pub open spec fn clocks_reset(p: PlayerGameSim) -> bool {
    -MIN_STINT_MS <= p.stat.court_time_ms < MIN_STINT_MS && -MIN_STINT_MS <= p.stat.bench_time_ms
        < MIN_STINT_MS
}

/// The Sub plays of a pass that visited slots in `order` (its first `k`):
/// one per slot whose player changed, naming the incoming and the outgoing
/// player.
pub open spec fn sub_plays(
    players: Seq<PlayerGameSim>,
    id: u64,
    before: Seq<usize>,
    after: Seq<usize>,
    order: Seq<usize>,
    k: int,
) -> Seq<Play>
    decreases k,
{
    if k <= 0 {
        Seq::empty()
    } else {
        let prev = sub_plays(players, id, before, after, order, k - 1);
        let slot = order[k - 1] as int;
        if after[slot] != before[slot] {
            prev.push(
                Play {
                    play_type: PlayType::Sub,
                    team: id,
                    on: players[after[slot] as int].id,
                    off: players[before[slot] as int].id,
                },
            )
        } else {
            prev
        }
    }
}

proof fn lemma_sub_plays_same(
    players: Seq<PlayerGameSim>,
    id: u64,
    before: Seq<usize>,
    a: Seq<usize>,
    b: Seq<usize>,
    order: Seq<usize>,
    k: int,
)
    requires
        forall|q: int| 0 <= q < k ==> a[order[q] as int] == b[order[q] as int],
    ensures
        sub_plays(players, id, before, a, order, k) == sub_plays(players, id, before, b, order, k),
    decreases k,
{
    if k > 0 {
        lemma_sub_plays_same(players, id, before, a, b, order, k - 1);
    }
}

/// The lineup partway through a pass visiting slots in `order`: slots
/// visited up to and including step `q` hold their new player, the others
/// their old one.
pub open spec fn mid_lineup(before: Seq<usize>, after: Seq<usize>, order: Seq<usize>, q: int) -> Seq<usize> {
    Seq::new(
        before.len(),
        |s: int|
            if order.subrange(0, q + 1).contains(s as usize) {
                after[s]
            } else {
                before[s]
            },
    )
}

/// The positional-balance rule at step `q`: the incumbent was ineligible
/// or tired, or the lineup the swap made was balanced.
pub open spec fn balanced_at(
    ovrs: Seq<Option<u64>>,
    players: Seq<PlayerGameSim>,
    before: Seq<usize>,
    after: Seq<usize>,
    order: Seq<usize>,
    q: int,
) -> bool {
    let p = before[order[q] as int];
    ovrs[p as int].is_none() || fatigue_of(players[p as int].stat.energy) <= BALANCE_FATIGUE
        || !unbalanced(players, mid_lineup(before, after, order, q))
}

/// `order` visits each of `n` slots once.
pub open spec fn slot_order(order: Seq<usize>, n: int) -> bool {
    &&& order.len() == n
    &&& order.no_duplicates()
    &&& forall|q: int| 0 <= q < n ==> #[trigger] order[q] < n
}

/// Every appended entry is a substitution by team `id`.
pub open spec fn only_subs(old: Option<Vec<Play>>, new: Option<Vec<Play>>, id: u64) -> bool {
    old.is_some() ==> forall|q: int|
        old.unwrap()@.len() <= q < new.unwrap()@.len() ==> (#[trigger] new.unwrap()@[q]).play_type
            == PlayType::Sub && new.unwrap()@[q].team == id
}

/// Resets a player's court and bench clocks to small random offsets.
fn reset_clocks(players: &mut Vec<PlayerGameSim>, i: usize, rng: &mut rand::rngs::StdRng)
    requires
        i < old(players).len(),
    ensures
        final(players).len() == old(players).len(),
        same_but_clocks(old(players)@[i as int], final(players)@[i as int]),
        clocks_reset(final(players)@[i as int]),
        forall|j: int| 0 <= j < old(players).len() && j != i ==> final(players)@[j] == old(players)@[j],
{
    let mut p = players[i];
    p.stat.court_time_ms = random_stint_offset(rng);
    p.stat.bench_time_ms = random_stint_offset(rng);
    players[i] = p;
}

/// Substitutions for one team, given each player's effective rating.
///
/// On-court slots are visited from the weakest rating to the strongest. A
/// bench player replaces the incumbent when the incumbent has been on court,
/// and the bench player on the bench, for over two minutes and the bench player rates higher, or when the
/// incumbent is ineligible and the bench player is not. A swap that would
/// leave the lineup short of guards or forwards is passed over while the
/// incumbent is eligible and still fresh. Each swap resets both players'
/// clocks and logs a substitution.
pub fn substitute(
    team: &mut TeamGameSim,
    ovrs: &Vec<Option<u64>>,
    rng: &mut rand::rngs::StdRng,
    log: &mut Option<Vec<Play>>,
) -> (subs: bool)
    requires
        ovrs.len() == old(team).player.len(),
        lineup_ok(old(team).on_court@, old(team).player.len() as int, old(team).on_court.len() as int),
    ensures
        final(team).player.len() == old(team).player.len(),
        final(team).on_court.len() == old(team).on_court.len(),
        lineup_ok(final(team).on_court@, final(team).player.len() as int, final(team).on_court.len() as int),
        forall|i: int|
            0 <= i < final(team).player.len() ==> same_but_clocks(
                #[trigger] old(team).player@[i],
                final(team).player@[i],
            ),
        final(team).id == old(team).id,
        final(team).stat == old(team).stat,
        final(team).composite_rating == old(team).composite_rating,
        final(team).synergy == old(team).synergy,
        no_avoidable_ineligible(ovrs@, final(team).on_court@),
        subs <==> final(team).on_court@ != old(team).on_court@,
        subs <==> entered(old(team).on_court@, final(team).on_court@),
        forall|pp: int|
            0 <= pp < final(team).on_court.len() && #[trigger] final(team).on_court@[pp] != old(
                team,
            ).on_court@[pp] ==> swap_justified(ovrs@, old(team).on_court@[pp], final(team).on_court@[pp])
                && stint_ok(ovrs@, old(team).player@, old(team).on_court@[pp], final(team).on_court@[pp]),
        forall|i: int|
            0 <= i < final(team).player.len() ==> #[trigger] final(team).player@[i] == old(team).player@[i]
                || clocks_reset(final(team).player@[i]),
        log_extends(*old(log), *final(log)),
        only_subs(*old(log), *final(log), old(team).id),
        old(log).is_some() ==> exists|order: Seq<usize>|
            slot_order(order, old(team).on_court.len() as int) && #[trigger] final(log).unwrap()@
                == old(log).unwrap()@ + sub_plays(
                old(team).player@,
                old(team).id,
                old(team).on_court@,
                final(team).on_court@,
                order,
                old(team).on_court.len() as int,
            ),
        exists|order: Seq<usize>|
            #[trigger] slot_order(order, old(team).on_court.len() as int) && forall|q: int|
                0 <= q < old(team).on_court.len() && final(team).on_court@[order[q] as int] != old(
                    team,
                ).on_court@[order[q] as int] ==> #[trigger] balanced_at(
                    ovrs@,
                    old(team).player@,
                    old(team).on_court@,
                    final(team).on_court@,
                    order,
                    q,
                ),
{
    let n = team.on_court.len();
    let mut on_court_ovrs: Vec<Option<u64>> = Vec::new();
    let mut j: usize = 0;
    while j < n
        invariant
            j <= n,
            n == team.on_court.len(),
            on_court_ovrs.len() == j,
            lineup_ok(team.on_court@, team.player.len() as int, n as int),
            ovrs.len() == team.player.len(),
        decreases n - j,
    {
        on_court_ovrs.push(ovrs[team.on_court[j]]);
        j = j + 1;
    }
    let order = get_sorted_indexes(&on_court_ovrs);
    let mut subs = false;
    proof {
        crate::play::lemma_extends_refl(*log);
    }
    let mut k: usize = 0;
    while k < n
        invariant
            k <= n,
            n == team.on_court.len(),
            order.len() == n,
            is_rating_order(on_court_ovrs@, order@),
            ovrs.len() == team.player.len(),
            team.player.len() == old(team).player.len(),
            lineup_ok(team.on_court@, team.player.len() as int, n as int),
            forall|i: int|
                0 <= i < team.player.len() ==> same_but_clocks(
                    #[trigger] old(team).player@[i],
                    team.player@[i],
                ),
            team.id == old(team).id,
            team.stat == old(team).stat,
            team.composite_rating == old(team).composite_rating,
            team.synergy == old(team).synergy,
            forall|q: int|
                0 <= q < k && (#[trigger] ovrs@[team.on_court@[order@[q] as int] as int]).is_none()
                    ==> bench_all_ineligible(ovrs@, team.on_court@),
            !subs ==> team.on_court@ == old(team).on_court@,
            forall|q: int| k <= q < n ==> team.on_court@[order@[q] as int] == old(team).on_court@[order@[q] as int],
            subs ==> exists|q: int|
                0 <= q < k && #[trigger] team.on_court@[order@[q] as int] != old(team).on_court@[order@[q] as int],
            subs ==> exists|q: int|
                0 <= q < k && !old(team).on_court@.contains(#[trigger] team.on_court@[order@[q] as int]),
            old(team).on_court.len() == n,
            lineup_ok(old(team).on_court@, old(team).player.len() as int, n as int),
            forall|q: int|
                0 <= q < k && #[trigger] team.on_court@[order@[q] as int] != old(team).on_court@[order@[q] as int]
                    ==> swap_justified(ovrs@, old(team).on_court@[order@[q] as int], team.on_court@[order@[q] as int])
                    && stint_ok(ovrs@, old(team).player@, old(team).on_court@[order@[q] as int], team.on_court@[order@[q] as int]),
            forall|q: int|
                k <= q < n ==> #[trigger] team.player@[old(team).on_court@[order@[q] as int] as int] == old(
                    team,
                ).player@[old(team).on_court@[order@[q] as int] as int],
            forall|i: int|
                0 <= i < team.player.len() ==> #[trigger] team.player@[i] == old(team).player@[i]
                    || clocks_reset(team.player@[i]),
            log_extends(*old(log), *log),
            only_subs(*old(log), *log, old(team).id),
            forall|q: int|
                0 <= q < k && team.on_court@[order@[q] as int] != old(team).on_court@[order@[q] as int]
                    ==> #[trigger] balanced_at(ovrs@, old(team).player@, old(team).on_court@, team.on_court@, order@, q),
            old(log).is_some() ==> log.is_some() && log.unwrap()@ == old(log).unwrap()@ + sub_plays(
                old(team).player@,
                old(team).id,
                old(team).on_court@,
                team.on_court@,
                order@,
                k as int,
            ),
        decreases n - k,
    {
        let pp = order[k];
        let p = team.on_court[pp];
        let p_ovr = ovrs[p];
        let on_court_is_ineligible = p_ovr.is_none();
        let mut b: usize = 0;
        let mut swapped = false;
        let ghost lineup_before = team.on_court@;
        let ghost log_before = *log;
        let ghost subs_before = subs;
        proof {
            assert(lineup_before[pp as int] == old(team).on_court@[pp as int]);
        }
        proof {
            crate::play::lemma_extends_refl(*log);
        }
        while b < team.player.len() && !swapped
            invariant
                b <= team.player.len(),
                pp < n,
                n == team.on_court.len(),
                p < team.player.len(),
                p_ovr == ovrs@[p as int],
                on_court_is_ineligible == p_ovr.is_none(),
                ovrs.len() == team.player.len(),
                team.player.len() == old(team).player.len(),
                lineup_ok(team.on_court@, team.player.len() as int, n as int),
                forall|i: int|
                    0 <= i < team.player.len() ==> same_but_clocks(
                        #[trigger] old(team).player@[i],
                        team.player@[i],
                    ),
                team.id == old(team).id,
                team.stat == old(team).stat,
                team.composite_rating == old(team).composite_rating,
                team.synergy == old(team).synergy,
                !swapped ==> team.on_court@ == lineup_before,
                !swapped ==> *log == log_before,
                swapped ==> subs,
                !subs ==> lineup_before == old(team).on_court@,
                subs == (subs_before || swapped),
                swapped ==> swap_justified(ovrs@, p, team.on_court@[pp as int]),
                swapped ==> stint_ok(ovrs@, old(team).player@, p, team.on_court@[pp as int]),
                swapped && !subs_before ==> !old(team).on_court@.contains(team.on_court@[pp as int]),
                swapped ==> ovrs@[p as int].is_none() || fatigue_of(old(team).player@[p as int].stat.energy)
                    <= BALANCE_FATIGUE || !unbalanced(old(team).player@, team.on_court@),
                team.player@[p as int] == old(team).player@[p as int] || swapped,
                forall|q: int|
                    k < q < n ==> #[trigger] team.player@[old(team).on_court@[order@[q] as int] as int] == old(
                        team,
                    ).player@[old(team).on_court@[order@[q] as int] as int],
                k < n,
                order@[k as int] == pp,
                p == old(team).on_court@[pp as int],
                old(team).on_court.len() == n,
                order.len() == n,
                is_rating_order(on_court_ovrs@, order@),
                on_court_ovrs.len() == n,
                lineup_ok(old(team).on_court@, old(team).player.len() as int, n as int),
                forall|q: int| k <= q < n ==> lineup_before[order@[q] as int] == old(team).on_court@[order@[q] as int],
                forall|i: int|
                    0 <= i < team.player.len() ==> #[trigger] team.player@[i] == old(team).player@[i]
                        || clocks_reset(team.player@[i]),
                only_subs(*old(log), *log, old(team).id),
                only_subs(*old(log), log_before, old(team).id),
                log.is_some() == log_before.is_some(),
                swapped && log_before.is_some() ==> log.unwrap()@ == log_before.unwrap()@.push(
                    Play {
                        play_type: PlayType::Sub,
                        team: old(team).id,
                        on: old(team).player@[team.on_court@[pp as int] as int].id,
                        off: old(team).player@[p as int].id,
                    },
                ),
                log_extends(*old(log), log_before),
                !swapped ==> lineup_before[pp as int] == p,
                swapped ==> team.on_court@ == lineup_before.update(pp as int, team.on_court@[pp as int]),
                swapped ==> (ovrs@[team.on_court@[pp as int] as int]).is_some(),
                swapped ==> !lineup_before.contains(team.on_court@[pp as int]),
                !swapped && on_court_is_ineligible ==> forall|c: usize|
                    c < b && !lineup_before.contains(c) ==> (#[trigger] ovrs@[c as int]).is_none(),
                log_extends(log_before, *log),
            decreases team.player.len() - b + if swapped { 0int } else { 1int },
        {
            if !lineup_contains(&team.on_court, b) {
                let b_ovr = ovrs[b];
                let better = match (b_ovr, p_ovr) {
                    (Some(x), Some(y)) => x > y,
                    (Some(_), None) => true,
                    _ => false,
                };
                let bench_is_valid_and_better = team.player[p].stat.court_time_ms > MIN_STINT_MS
                    && team.player[b].stat.bench_time_ms > MIN_STINT_MS && better;
                let bench_is_eligible = b_ovr.is_some();
                if bench_is_valid_and_better || (on_court_is_ineligible && bench_is_eligible) {
                    let mut candidate = team.on_court.clone();
                    candidate.set(pp, b);
                    let vetoed = is_unbalanced(&team.player, &candidate) && fatigue(
                        team.player[p].stat.energy,
                    ) > BALANCE_FATIGUE && !on_court_is_ineligible;
                    if !vetoed {
                        proof {
                            assert(candidate@ == lineup_before.update(pp as int, b));
                            assert(candidate@.no_duplicates()) by {
                                assert forall|x: int, y: int|
                                    0 <= x < y < candidate@.len() implies candidate@[x]
                                    != candidate@[y] by {
                                    if x == pp as int {
                                        assert(lineup_before.contains(candidate@[y]));
                                    } else if y == pp as int {
                                        assert(lineup_before.contains(candidate@[x]));
                                    }
                                }
                            }
                        }
                        proof {
                            // Positions and energy are as before the pass.
                            assert forall|x: int| 0 <= x < team.player.len() implies (#[trigger] team.player@[x]).pos
                                == old(team).player@[x].pos by {
                                assert(same_but_clocks(old(team).player@[x], team.player@[x]));
                            }
                            assert(same_but_clocks(old(team).player@[p as int], team.player@[p as int]));
                            lemma_count_position_same(team.player@, old(team).player@, candidate@, 0, n as int);
                            lemma_count_position_same(team.player@, old(team).player@, candidate@, 1, n as int);
                            lemma_count_position_same(team.player@, old(team).player@, candidate@, 2, n as int);
                            lemma_count_position_same(team.player@, old(team).player@, candidate@, 3, n as int);
                            assert forall|q: int| k < q < n implies old(team).on_court@[order@[q] as int] != b
                                && old(team).on_court@[order@[q] as int] != p by {
                                assert(order@[q] != order@[k as int]) by {
                                    assert(order@.no_duplicates());
                                }
                                assert(lineup_before.contains(lineup_before[order@[q] as int]));
                                assert(old(team).on_court@.no_duplicates());
                            }
                        }
                        team.on_court = candidate;
                        reset_clocks(&mut team.player, b, rng);
                        reset_clocks(&mut team.player, p, rng);
                        let ghost log_mid = *log;
                        proof {
                            assert(same_but_clocks(old(team).player@[b as int], team.player@[b as int]));
                            assert(same_but_clocks(old(team).player@[p as int], team.player@[p as int]));
                        }
                        log_play(
                            log,
                            Play::new(PlayType::Sub, team.id, team.player[b].id, team.player[p].id),
                        );
                        proof {
                            if log_before.is_some() {
                                crate::play::lemma_extends_trans(
                                    log_before.unwrap()@,
                                    log_mid.unwrap()@,
                                    log.unwrap()@,
                                );
                            }
                        }
                        subs = true;
                        swapped = true;
                    }
                }
            }
            if !swapped {
                b = b + 1;
            }
        }
        proof {
            if log_before.is_some() && old(log).is_some() {
                crate::play::lemma_extends_trans(
                    old(log).unwrap()@,
                    log_before.unwrap()@,
                    log.unwrap()@,
                );
            }
            if swapped {
                assert(lineup_before.contains(lineup_before[pp as int]));
                assert(team.on_court@[order@[k as int] as int] != old(team).on_court@[order@[k as int] as int]);
                assert forall|q: int| k < q < n implies team.on_court@[order@[q] as int] == old(
                    team,
                ).on_court@[order@[q] as int] by {
                    assert(order@[q] != order@[k as int]) by {
                        assert(order@.no_duplicates());
                    }
                }
            } else if subs_before {
                let q0 = choose|q: int|
                    0 <= q < k && #[trigger] lineup_before[order@[q] as int] != old(team).on_court@[order@[q] as int];
                assert(team.on_court@[order@[q0] as int] != old(team).on_court@[order@[q0] as int]);
            }
            if subs_before {
                let q1 = choose|q: int|
                    0 <= q < k && !old(team).on_court@.contains(#[trigger] lineup_before[order@[q] as int]);
                if swapped {
                    assert(order@[q1] != order@[k as int]) by {
                        assert(order@.no_duplicates());
                    }
                }
                assert(!old(team).on_court@.contains(team.on_court@[order@[q1] as int]));
            } else if swapped {
                assert(!old(team).on_court@.contains(team.on_court@[order@[k as int] as int]));
            }
            if swapped {
                // An eligible player came off the bench, so no visited slot
                // can have been left ineligible before this one.
                let nb = team.on_court@[pp as int];
                assert(!bench_all_ineligible(ovrs@, lineup_before)) by {
                    assert(nb < ovrs.len());
                    assert((ovrs@[nb as int]).is_some());
                }
                assert forall|q: int|
                    0 <= q <= k && (#[trigger] ovrs@[team.on_court@[order@[q] as int] as int]).is_none()
                        implies bench_all_ineligible(ovrs@, team.on_court@) by {
                    if q < k {
                        assert(order@[q] != pp) by {
                            assert(order@.no_duplicates());
                        }
                        assert(team.on_court@[order@[q] as int] == lineup_before[order@[q] as int]);
                    }
                }
            } else {
                assert forall|q: int|
                    0 <= q <= k && (#[trigger] ovrs@[team.on_court@[order@[q] as int] as int]).is_none()
                        implies bench_all_ineligible(ovrs@, team.on_court@) by {
                    if q == k {
                        assert forall|c: usize|
                            c < ovrs.len() && !team.on_court@.contains(c) implies (
                            #[trigger] ovrs@[c as int]).is_none() by {
                        }
                    }
                }
            }
        }
        proof {
            let cur = team.on_court@;
            assert forall|q: int|
                0 <= q < k + 1 && cur[order@[q] as int] != old(team).on_court@[order@[q] as int]
                    implies #[trigger] balanced_at(ovrs@, old(team).player@, old(team).on_court@, cur, order@, q) by {
                if q < k {
                    assert(order@[q] != pp) by {
                        assert(order@.no_duplicates());
                    }
                    assert(cur[order@[q] as int] == lineup_before[order@[q] as int]);
                    assert(balanced_at(ovrs@, old(team).player@, old(team).on_court@, lineup_before, order@, q));
                    assert(mid_lineup(old(team).on_court@, cur, order@, q) =~= mid_lineup(
                        old(team).on_court@,
                        lineup_before,
                        order@,
                        q,
                    )) by {
                        assert forall|x: int| 0 <= x < n implies #[trigger] mid_lineup(
                            old(team).on_court@,
                            cur,
                            order@,
                            q,
                        )[x] == mid_lineup(old(team).on_court@, lineup_before, order@, q)[x] by {
                            if order@.subrange(0, q + 1).contains(x as usize) {
                                let r = choose|r: int| 0 <= r < q + 1 && #[trigger] order@.subrange(0, q + 1)[r] == x as usize;
                                assert(order@[r] == x as usize);
                                assert(order@[r] != pp) by {
                                    assert(order@.no_duplicates());
                                }
                            }
                        }
                    }
                } else {
                    assert(swapped);
                    assert(old(team).on_court@[order@[q] as int] == p);
                    assert(ovrs@[p as int].is_none() || fatigue_of(old(team).player@[p as int].stat.energy)
                        <= BALANCE_FATIGUE || !unbalanced(old(team).player@, cur));
                    assert(mid_lineup(old(team).on_court@, cur, order@, q) =~= cur) by {
                        assert forall|x: int| 0 <= x < n implies #[trigger] mid_lineup(
                            old(team).on_court@,
                            cur,
                            order@,
                            q,
                        )[x] == cur[x] by {
                            if !order@.subrange(0, q + 1).contains(x as usize) {
                                assert(order@.contains(x as usize));
                                let r = choose|r: int| 0 <= r < n && order@[r] == x as usize;
                                if r <= k {
                                    assert(order@.subrange(0, q + 1)[r] == x as usize);
                                }
                                assert(r > k);
                                assert(order@[r] != pp) by {
                                    assert(order@.no_duplicates());
                                }
                                assert(lineup_before[order@[r] as int] == old(team).on_court@[order@[r] as int]);
                            }
                        }
                    }
                }
            }
            if old(log).is_some() {
                lemma_sub_plays_same(
                    old(team).player@,
                    old(team).id,
                    old(team).on_court@,
                    team.on_court@,
                    lineup_before,
                    order@,
                    k as int,
                );
                if swapped {
                    assert(old(team).on_court@[pp as int] == p);
                    assert(log.unwrap()@ =~= old(log).unwrap()@ + sub_plays(
                        old(team).player@,
                        old(team).id,
                        old(team).on_court@,
                        team.on_court@,
                        order@,
                        k + 1,
                    ));
                } else {
                    assert(team.on_court@ == lineup_before);
                }
            }
        }
        k = k + 1;
    }
    proof {
        assert(slot_order(order@, old(team).on_court.len() as int));
        if old(log).is_some() {
            assert(slot_order(order@, old(team).on_court.len() as int));
        }
        assert forall|pp: int|
            0 <= pp < team.on_court.len() && (#[trigger] ovrs@[team.on_court@[pp] as int]).is_none()
                implies bench_all_ineligible(ovrs@, team.on_court@) by {
            assert(on_court_ovrs@.len() == n);
            assert(order@.contains(pp as usize));
            let q = choose|q: int| 0 <= q < order@.len() && order@[q] == pp as usize;
            assert(ovrs@[team.on_court@[order@[q] as int] as int].is_none());
        }
        assert forall|pp: int|
            0 <= pp < team.on_court.len() && #[trigger] team.on_court@[pp] != old(team).on_court@[pp]
                implies swap_justified(ovrs@, old(team).on_court@[pp], team.on_court@[pp]) && stint_ok(
                ovrs@,
                old(team).player@,
                old(team).on_court@[pp],
                team.on_court@[pp],
            ) by {
            assert(order@.contains(pp as usize));
            let q = choose|q: int| 0 <= q < order@.len() && order@[q] == pp as usize;
            assert(team.on_court@[order@[q] as int] != old(team).on_court@[order@[q] as int]);
        }
        if subs {
            let q = choose|q: int|
                0 <= q < n && !old(team).on_court@.contains(#[trigger] team.on_court@[order@[q] as int]);
            assert(team.on_court@.contains(team.on_court@[order@[q] as int]));
        }
        if entered(old(team).on_court@, team.on_court@) {
            if !subs {
                let i = choose|i: usize| #[trigger] team.on_court@.contains(i) && !old(team).on_court@.contains(i);
            }
        }
    }
    subs
}

/// Players among the first `k` of the roster who are eligible with fouling
/// out enforced.
pub open spec fn count_fit(players: Seq<PlayerGameSim>, fouls_to_foul_out: u32, k: int) -> int
    decreases k,
{
    if k <= 0 {
        0
    } else {
        count_fit(players, fouls_to_foul_out, k - 1) + if ineligible(
            players[k - 1],
            false,
            fouls_to_foul_out,
        ) {
            0int
        } else {
            1int
        }
    }
}

proof fn lemma_count_fit(
    ovrs: Seq<Option<u64>>,
    players: Seq<PlayerGameSim>,
    fouls_to_foul_out: u32,
    k: int,
)
    requires
        0 <= k <= ovrs.len() == players.len(),
        forall|i: int|
            0 <= i < ovrs.len() ==> (#[trigger] ovrs[i]).is_none() == ineligible(
                players[i],
                false,
                fouls_to_foul_out,
            ),
    ensures
        count_eligible(ovrs, k) == count_fit(players, fouls_to_foul_out, k),
    decreases k,
{
    if k > 0 {
        lemma_count_fit(ovrs, players, fouls_to_foul_out, k - 1);
        assert(ovrs[k - 1].is_none() == ineligible(players[k - 1], false, fouls_to_foul_out));
    }
}

/// Fouled-out players are let back in only when too few others can play.
pub open spec fn fouled_out_waived(players: Seq<PlayerGameSim>, fouls_to_foul_out: u32, n: int) -> bool {
    count_fit(players, fouls_to_foul_out, players.len() as int) < n
}

/// An ineligible player is on court only when every bench player is
/// ineligible too.
pub open spec fn lineup_settled(team: TeamGameSim, waived: bool, fouls_to_foul_out: u32) -> bool {
    forall|pp: int|
        0 <= pp < team.on_court.len() && ineligible(
            #[trigger] team.player@[team.on_court@[pp] as int],
            waived,
            fouls_to_foul_out,
        ) ==> forall|b: usize|
            b < team.player.len() && !team.on_court@.contains(b) ==> ineligible(
                #[trigger] team.player@[b as int],
                waived,
                fouls_to_foul_out,
            )
}

/// Why each slot of `after` differs from `before`: effective ratings `ovrs`
/// with exactly the ineligible players unrated justify every change (a
/// better-rated or eligible replacement, the two-minute stints, the
/// positional balance of the lineup each swap made, in the order the pass
/// visited the slots).
pub open spec fn pass_justified(
    ovrs: Seq<Option<u64>>,
    before: TeamGameSim,
    after: TeamGameSim,
    waived: bool,
    fouls_to_foul_out: u32,
) -> bool {
    &&& ovrs.len() == before.player.len()
    &&& forall|i: int|
        0 <= i < ovrs.len() ==> (#[trigger] ovrs[i]).is_none() == ineligible(
            before.player@[i],
            waived,
            fouls_to_foul_out,
        )
    &&& forall|pp: int|
        0 <= pp < after.on_court.len() && #[trigger] after.on_court@[pp] != before.on_court@[pp]
            ==> swap_justified(ovrs, before.on_court@[pp], after.on_court@[pp]) && stint_ok(
            ovrs,
            before.player@,
            before.on_court@[pp],
            after.on_court@[pp],
        )
    &&& exists|order: Seq<usize>|
        #[trigger] slot_order(order, before.on_court.len() as int) && forall|q: int|
            0 <= q < before.on_court.len() && after.on_court@[order[q] as int] != before.on_court@[order[q] as int]
                ==> #[trigger] balanced_at(ovrs, before.player@, before.on_court@, after.on_court@, order, q)
}

/// One team's rotation pass: rates the roster (letting fouled-out players
/// back in only if too few others are eligible) and substitutes.
///
/// Afterwards the lineup still holds exactly as many distinct roster indexes
/// as before, and an ineligible player stays on court only when every bench
/// player is ineligible too.
pub fn rotate_team(
    team: &mut TeamGameSim,
    ctx: &RotationContext,
    rng: &mut rand::rngs::StdRng,
    log: &mut Option<Vec<Play>>,
) -> (subs: bool)
    requires
        old(team).wf(old(team).on_court.len() as int),
    ensures
        final(team).wf(old(team).on_court.len() as int),
        final(team).player.len() == old(team).player.len(),
        forall|i: int|
            0 <= i < final(team).player.len() ==> same_but_clocks(
                #[trigger] old(team).player@[i],
                final(team).player@[i],
            ),
        final(team).id == old(team).id,
        final(team).stat == old(team).stat,
        final(team).composite_rating == old(team).composite_rating,
        final(team).synergy == old(team).synergy,
        lineup_settled(
            *final(team),
            fouled_out_waived(old(team).player@, ctx.fouls_to_foul_out, old(team).on_court.len() as int),
            ctx.fouls_to_foul_out,
        ),
        subs <==> final(team).on_court@ != old(team).on_court@,
        subs <==> entered(old(team).on_court@, final(team).on_court@),
        exists|ovrs: Seq<Option<u64>>|
            #[trigger] pass_justified(
                ovrs,
                *old(team),
                *final(team),
                fouled_out_waived(old(team).player@, ctx.fouls_to_foul_out, old(team).on_court.len() as int),
                ctx.fouls_to_foul_out,
            ),
        forall|i: int|
            0 <= i < final(team).player.len() ==> #[trigger] final(team).player@[i] == old(team).player@[i]
                || clocks_reset(final(team).player@[i]),
        log_extends(*old(log), *final(log)),
        only_subs(*old(log), *final(log), old(team).id),
        old(log).is_some() ==> exists|order: Seq<usize>|
            slot_order(order, old(team).on_court.len() as int) && #[trigger] final(log).unwrap()@
                == old(log).unwrap()@ + sub_plays(
                old(team).player@,
                old(team).id,
                old(team).on_court@,
                final(team).on_court@,
                order,
                old(team).on_court.len() as int,
            ),
{
    let ghost n = team.on_court.len() as int;
    let strict = get_ovrs(&team.player, false, ctx, rng);
    let fit = num_eligible_players(&strict);
    proof {
        lemma_count_fit(strict@, team.player@, ctx.fouls_to_foul_out, strict.len() as int);
    }
    let ovrs = if fit < team.on_court.len() {
        get_ovrs(&team.player, true, ctx, rng)
    } else {
        strict
    };
    let ghost waived = fit < team.on_court.len();
    let ghost before = team.player@;
    let subs = substitute(team, &ovrs, rng, log);
    proof {
        assert(pass_justified(
            ovrs@,
            *old(team),
            *team,
            fouled_out_waived(old(team).player@, ctx.fouls_to_foul_out, old(team).on_court.len() as int),
            ctx.fouls_to_foul_out,
        ));
        assert forall|i: int| 0 <= i < team.player.len() implies #[trigger] team.player@[i].stat.energy
            <= 1000 by {
            assert(same_but_clocks(before[i], team.player@[i]));
        }
        assert forall|i: int| 0 <= i < team.player.len() implies ovrs@[i].is_none() == ineligible(
            #[trigger] team.player@[i],
            waived,
            ctx.fouls_to_foul_out,
        ) by {
            assert(same_but_clocks(before[i], team.player@[i]));
        }
        assert forall|pp: int|
            0 <= pp < team.on_court.len() && ineligible(
                #[trigger] team.player@[team.on_court@[pp] as int],
                waived,
                ctx.fouls_to_foul_out,
            ) implies forall|b: usize|
            b < team.player.len() && !team.on_court@.contains(b) ==> ineligible(
                #[trigger] team.player@[b as int],
                waived,
                ctx.fouls_to_foul_out,
            ) by {
            assert(ovrs@[team.on_court@[pp] as int].is_none());
            assert forall|b: usize|
                b < team.player.len() && !team.on_court@.contains(b) implies ineligible(
                #[trigger] team.player@[b as int],
                waived,
                ctx.fouls_to_foul_out,
            ) by {
                assert(ovrs@[b as int].is_none());
            }
        }
    }
    subs
}

/// Roster indexes below `k` that are eligible with fouling out enforced.
pub open spec fn fit_set(players: Seq<PlayerGameSim>, fouls_to_foul_out: u32, k: int) -> Set<usize> {
    Set::new(|i: usize| i < k && !ineligible(players[i as int], false, fouls_to_foul_out))
}

proof fn lemma_fit_set(players: Seq<PlayerGameSim>, fouls_to_foul_out: u32, k: int)
    requires
        0 <= k <= players.len() <= usize::MAX,
    ensures
        fit_set(players, fouls_to_foul_out, k).finite(),
        fit_set(players, fouls_to_foul_out, k).len() == count_fit(players, fouls_to_foul_out, k),
    decreases k,
{
    if k == 0 {
        assert(fit_set(players, fouls_to_foul_out, 0) =~= Set::empty());
    } else {
        lemma_fit_set(players, fouls_to_foul_out, k - 1);
        let prev = fit_set(players, fouls_to_foul_out, k - 1);
        let x = (k - 1) as usize;
        if ineligible(players[k - 1], false, fouls_to_foul_out) {
            assert(fit_set(players, fouls_to_foul_out, k) =~= prev);
        } else {
            assert(fit_set(players, fouls_to_foul_out, k) =~= prev.insert(x));
            assert(!prev.contains(x));
        }
    }
}

/// Players whose eligibility agrees everywhere count the same.
proof fn lemma_count_fit_same(
    a: Seq<PlayerGameSim>,
    b: Seq<PlayerGameSim>,
    fouls_to_foul_out: u32,
    k: int,
)
    requires
        0 <= k <= a.len() == b.len(),
        forall|i: int|
            0 <= i < a.len() ==> ineligible(#[trigger] a[i], false, fouls_to_foul_out) == ineligible(
                b[i],
                false,
                fouls_to_foul_out,
            ),
    ensures
        count_fit(a, fouls_to_foul_out, k) == count_fit(b, fouls_to_foul_out, k),
    decreases k,
{
    if k > 0 {
        lemma_count_fit_same(a, b, fouls_to_foul_out, k - 1);
        assert(ineligible(a[k - 1], false, fouls_to_foul_out) == ineligible(
            b[k - 1],
            false,
            fouls_to_foul_out,
        ));
    }
}

/// Eligibility is kept by any change of clocks and started flags, so
/// whether fouled-out players are let back in reads the same.
pub proof fn lemma_rotation_keeps_eligibility_rotated(before: TeamGameSim, after: TeamGameSim, fouls_to_foul_out: u32)
    requires
        after.player.len() == before.player.len(),
        forall|i: int|
            0 <= i < after.player.len() ==> (#[trigger] before.player@[i]).injured == after.player@[i].injured
                && before.player@[i].stat.pf == after.player@[i].stat.pf,
    ensures
        forall|n: int|
            fouled_out_waived(before.player@, fouls_to_foul_out, n) == #[trigger] fouled_out_waived(
                after.player@,
                fouls_to_foul_out,
                n,
            ),
{
    assert forall|i: int| 0 <= i < before.player.len() implies ineligible(
        #[trigger] before.player@[i],
        false,
        fouls_to_foul_out,
    ) == ineligible(after.player@[i], false, fouls_to_foul_out) by {
        assert(before.player@[i].injured == after.player@[i].injured);
    }
    lemma_count_fit_same(
        before.player@,
        after.player@,
        fouls_to_foul_out,
        before.player.len() as int,
    );
}

/// With at least as many players eligible (fouling out enforced) as the
/// lineup holds, a settled lineup holds no injured player and no player at
/// or above the foul-out threshold.
pub proof fn lemma_settled_lineup_all_eligible(team: TeamGameSim, fouls_to_foul_out: u32)
    requires
        lineup_ok(team.on_court@, team.player.len() as int, team.on_court.len() as int),
        count_fit(team.player@, fouls_to_foul_out, team.player.len() as int) >= team.on_court.len(),
        lineup_settled(team, false, fouls_to_foul_out),
    ensures
        forall|pp: int|
            0 <= pp < team.on_court.len() ==> !ineligible(
                #[trigger] team.player@[team.on_court@[pp] as int],
                false,
                fouls_to_foul_out,
            ),
{
    assert forall|pp: int| 0 <= pp < team.on_court.len() implies !ineligible(
        #[trigger] team.player@[team.on_court@[pp] as int],
        false,
        fouls_to_foul_out,
    ) by {
        if ineligible(team.player@[team.on_court@[pp] as int], false, fouls_to_foul_out) {
            let n = team.player.len() as int;
            let lineup = team.on_court@;
            let x = lineup[pp];
            lemma_fit_set(team.player@, fouls_to_foul_out, n);
            lineup.unique_seq_to_set();
            let court = lineup.to_set().remove(x);
            assert(lineup.to_set().contains(x));
            assert(fit_set(team.player@, fouls_to_foul_out, n).subset_of(court)) by {
                assert forall|i: usize|
                    fit_set(team.player@, fouls_to_foul_out, n).contains(i) implies court.contains(
                    i,
                ) by {
                    if !lineup.contains(i) {
                        assert(ineligible(team.player@[i as int], false, fouls_to_foul_out));
                    }
                    assert(i != x);
                }
            }
            vstd::set_lib::lemma_len_subset(fit_set(team.player@, fouls_to_foul_out, n), court);
        }
    }
}

} // verus!
