//! The game orchestrator: owns both teams, the clock, the play-by-play log and
//! the random stream, and drives possessions to the end of the game.
use crate::config::{league_ok, GameAttributesLeague};
use crate::draws::{draw_below, draw_ppm, PPM};
use crate::outcome::{decide_shot, decide_possession, possession_outcome, prob_foul, prob_tov, PossessionOutcome};
use crate::play::{log_extends, log_play, Play, PlayType};
use crate::playing_time::update_playing_time;
use crate::ratings::{perf_factor, team_rating, update_team_composite_ratings};
use crate::rotation::{
    clocks_reset, entered, fouled_out_waived, ineligible, lineup_settled, pass_justified, rotate_team,
    same_but_clocks, slot_order, sub_plays, RotationContext,
};
use crate::rules::{
    get_foul_trouble_limit, getInjuryRate, injury_rate, get_num_fouls_until_bonus, is_blowout, is_late_game,
    foul_trouble_limit, ClockState, MINUTE_MS, PPB,
};
use crate::selection::{lemma_prefix_bound, pick_player, total_weight, weight_at};
use crate::synergy::{is_perimeter_root, synergy_of, update_synergy};
use crate::team::{
    energies_ok, PlayerGameSim, RatingKind, Stat, TeamGameSim, TeamRatingKind,
};
use vstd::prelude::*;

verus! {

/// Why a game could not be set up.
#[derive(Clone, Copy, Debug, PartialEq, Eq)]
pub enum SimError {
    /// The rules lack a usable lineup size, period count, period length or pace.
    InvalidConfig,
    /// The team with this id has fewer players than a lineup needs.
    RosterTooSmall(u64),
    /// A player of the team with this id has energy above one thousand.
    EnergyOutOfRange(u64),
    /// The base injury rate is above one (in parts per billion).
    InvalidInjuryRate,
}

/// The counters a play can add to.
#[derive(Clone, Copy, Debug, PartialEq, Eq, Structural)]
pub enum StatField {
    Ast,
    Blk,
    Drb,
    Fg,
    Fga,
    Ft,
    Fta,
    Orb,
    Pf,
    Stl,
    Tov,
    Tp,
    Tpa,
}

pub open spec fn stat_value(s: Stat, f: StatField) -> u32 {
    match f {
        StatField::Ast => s.ast,
        StatField::Blk => s.blk,
        StatField::Drb => s.drb,
        StatField::Fg => s.fg,
        StatField::Fga => s.fga,
        StatField::Ft => s.ft,
        StatField::Fta => s.fta,
        StatField::Orb => s.orb,
        StatField::Pf => s.pf,
        StatField::Stl => s.stl,
        StatField::Tov => s.tov,
        StatField::Tp => s.tp,
        StatField::Tpa => s.tpa,
    }
}

pub open spec fn sat_add_u32(a: u32, b: u32) -> u32 {
    if a + b > u32::MAX {
        u32::MAX
    } else {
        (a + b) as u32
    }
}

fn sat_add_u32_exec(a: u32, b: u32) -> (r: u32)
    ensures
        r == sat_add_u32(a, b),
{
    if a > u32::MAX - b {
        u32::MAX
    } else {
        a + b
    }
}

/// `s` with counter `f` raised by one, saturating.
pub open spec fn bumped(s: Stat, f: StatField) -> Stat {
    match f {
        StatField::Ast => Stat { ast: sat_add_u32(s.ast, 1), ..s },
        StatField::Blk => Stat { blk: sat_add_u32(s.blk, 1), ..s },
        StatField::Drb => Stat { drb: sat_add_u32(s.drb, 1), ..s },
        StatField::Fg => Stat { fg: sat_add_u32(s.fg, 1), ..s },
        StatField::Fga => Stat { fga: sat_add_u32(s.fga, 1), ..s },
        StatField::Ft => Stat { ft: sat_add_u32(s.ft, 1), ..s },
        StatField::Fta => Stat { fta: sat_add_u32(s.fta, 1), ..s },
        StatField::Orb => Stat { orb: sat_add_u32(s.orb, 1), ..s },
        StatField::Pf => Stat { pf: sat_add_u32(s.pf, 1), ..s },
        StatField::Stl => Stat { stl: sat_add_u32(s.stl, 1), ..s },
        StatField::Tov => Stat { tov: sat_add_u32(s.tov, 1), ..s },
        StatField::Tp => Stat { tp: sat_add_u32(s.tp, 1), ..s },
        StatField::Tpa => Stat { tpa: sat_add_u32(s.tpa, 1), ..s },
    }
}

/// Counter `g` of every player is the same in `a` and `b`.
pub open spec fn counters_kept(a: Seq<PlayerGameSim>, b: Seq<PlayerGameSim>, g: StatField) -> bool {
    &&& a.len() == b.len()
    &&& forall|j: int| 0 <= j < a.len() ==> #[trigger] stat_value(b[j].stat, g) == stat_value(a[j].stat, g)
}

/// Adds one to a player's counter, saturating; nothing else changes.
pub fn record_stat(team: &mut TeamGameSim, i: usize, f: StatField)
    requires
        i < old(team).player.len(),
    ensures
        final(team).player.len() == old(team).player.len(),
        final(team).player@[i as int] == (PlayerGameSim {
            stat: bumped(old(team).player@[i as int].stat, f),
            ..old(team).player@[i as int]
        }),
        stat_value(final(team).player@[i as int].stat, f) == sat_add_u32(
            stat_value(old(team).player@[i as int].stat, f),
            1,
        ),
        forall|g: StatField|
            g != f ==> #[trigger] stat_value(final(team).player@[i as int].stat, g) == stat_value(
                old(team).player@[i as int].stat,
                g,
            ),
        final(team).player@[i as int].stat.energy == old(team).player@[i as int].stat.energy,
        final(team).player@[i as int].stat.pts == old(team).player@[i as int].stat.pts,
        final(team).player@[i as int].injured == old(team).player@[i as int].injured,
        final(team).player@[i as int].id == old(team).player@[i as int].id,
        forall|j: int| 0 <= j < final(team).player.len() && j != i ==> final(team).player@[j] == old(team).player@[j],
        final(team).on_court@ == old(team).on_court@,
        final(team).id == old(team).id,
        final(team).stat == old(team).stat,
        final(team).composite_rating == old(team).composite_rating,
        final(team).synergy == old(team).synergy,
{
    let mut p = team.player[i];
    match f {
        StatField::Ast => p.stat.ast = sat_add_u32_exec(p.stat.ast, 1),
        StatField::Blk => p.stat.blk = sat_add_u32_exec(p.stat.blk, 1),
        StatField::Drb => p.stat.drb = sat_add_u32_exec(p.stat.drb, 1),
        StatField::Fg => p.stat.fg = sat_add_u32_exec(p.stat.fg, 1),
        StatField::Fga => p.stat.fga = sat_add_u32_exec(p.stat.fga, 1),
        StatField::Ft => p.stat.ft = sat_add_u32_exec(p.stat.ft, 1),
        StatField::Fta => p.stat.fta = sat_add_u32_exec(p.stat.fta, 1),
        StatField::Orb => p.stat.orb = sat_add_u32_exec(p.stat.orb, 1),
        StatField::Pf => p.stat.pf = sat_add_u32_exec(p.stat.pf, 1),
        StatField::Stl => p.stat.stl = sat_add_u32_exec(p.stat.stl, 1),
        StatField::Tov => p.stat.tov = sat_add_u32_exec(p.stat.tov, 1),
        StatField::Tp => p.stat.tp = sat_add_u32_exec(p.stat.tp, 1),
        StatField::Tpa => p.stat.tpa = sat_add_u32_exec(p.stat.tpa, 1),
    }
    team.player[i] = p;
}

/// Credits `pts` points to a player, to the team, and to the team's current
/// period; each total saturates.
pub fn add_points(team: &mut TeamGameSim, i: usize, pts: u32)
    requires
        i < old(team).player.len(),
    ensures
        final(team).player.len() == old(team).player.len(),
        final(team).player@[i as int] == (PlayerGameSim {
            stat: Stat { pts: sat_add_u32(old(team).player@[i as int].stat.pts, pts), ..old(team).player@[i as int].stat },
            ..old(team).player@[i as int]
        }),
        forall|j: int| 0 <= j < final(team).player.len() && j != i ==> final(team).player@[j] == old(team).player@[j],
        final(team).stat.pts == sat_add_u32(old(team).stat.pts, pts),
        forall|g: StatField| #[trigger] counters_kept(old(team).player@, final(team).player@, g),
        final(team).stat.fouls_this_quarter == old(team).stat.fouls_this_quarter,
        final(team).stat.fouls_last_two_minutes == old(team).stat.fouls_last_two_minutes,
        final(team).stat.pts_qtrs.len() == old(team).stat.pts_qtrs.len(),
        final(team).on_court@ == old(team).on_court@,
        final(team).id == old(team).id,
        final(team).composite_rating == old(team).composite_rating,
        final(team).synergy == old(team).synergy,
{
    let mut p = team.player[i];
    p.stat.pts = sat_add_u32_exec(p.stat.pts, pts);
    team.player[i] = p;
    assert forall|g: StatField| #[trigger] counters_kept(old(team).player@, team.player@, g) by {
        assert forall|j: int| 0 <= j < team.player.len() implies #[trigger] stat_value(team.player@[j].stat, g)
            == stat_value(old(team).player@[j].stat, g) by {}
    }
    team.stat.pts = sat_add_u32_exec(team.stat.pts, pts);
    let l = team.stat.pts_qtrs.len();
    if l > 0 {
        let q = team.stat.pts_qtrs[l - 1];
        team.stat.pts_qtrs[l - 1] = sat_add_u32_exec(q, pts);
    }
}

/// Rating `kind` of each player on court, in lineup order.
pub open spec fn weights_of(team: &TeamGameSim, kind: RatingKind) -> Seq<u64> {
    Seq::new(
        team.on_court.len() as nat,
        |k: int| team.player@[team.on_court@[k] as int].composite_rating.value(kind) as u64,
    )
}

/// Rating `kind` of each player on court, in lineup order, as selection
/// weights.
pub fn weights_on_court(team: &TeamGameSim, kind: RatingKind) -> (w: Vec<u64>)
    requires
        forall|k: int| 0 <= k < team.on_court.len() ==> team.on_court@[k] < team.player.len(),
    ensures
        w.len() == team.on_court.len(),
        forall|k: int|
            0 <= k < w.len() ==> w@[k] == team.player@[team.on_court@[k] as int].composite_rating.value(
                kind,
            ),
{
    let mut w: Vec<u64> = Vec::new();
    let mut j: usize = 0;
    while j < team.on_court.len()
        invariant
            j <= team.on_court.len(),
            w.len() == j,
            forall|k: int| 0 <= k < team.on_court.len() ==> team.on_court@[k] < team.player.len(),
            forall|k: int|
                0 <= k < j ==> w@[k] == team.player@[team.on_court@[k] as int].composite_rating.value(
                    kind,
                ),
        decreases team.on_court.len() - j,
    {
        w.push(team.player[team.on_court[j]].composite_rating.get(kind) as u64);
        j = j + 1;
    }
    w
}

/// Picks the slot of a player on court, weighted by rating `kind`, never the
/// exempt slot when anyone else has weight.
pub fn pick_on_court(
    team: &TeamGameSim,
    kind: RatingKind,
    exempt: Option<usize>,
    rng: &mut rand::rngs::StdRng,
) -> (slot: usize)
    requires
        0 < team.on_court.len() <= 64,
        forall|k: int| 0 <= k < team.on_court.len() ==> team.on_court@[k] < team.player.len(),
    ensures
        slot < team.on_court.len(),
        total_weight(weights_of(team, kind), exempt) > 0 ==> weight_at(
            weights_of(team, kind),
            exempt,
            slot as int,
        ) > 0,
{
    let w = weights_on_court(team, kind);
    assert(w@ =~= weights_of(team, kind));
    proof {
        lemma_prefix_bound(w@, exempt, w.len() as int, u32::MAX as int);
        assert(w.len() * (u32::MAX as int) <= 64 * (u32::MAX as int)) by (nonlinear_arith)
            requires
                w.len() <= 64,
        ;
    }
    pick_player(&w, exempt, rng)
}

/// Longest possession the clock hands out.
pub const MAX_POSSESSION_MS: u64 = 3_600_000;

/// Length of an overtime period.
pub const OVERTIME_LENGTH_MS: u32 = 300_000;

/// One game in progress. The team with the ball is `offense`; the two swap
/// after every possession that does not end the period.
pub struct GameSim {
    pub id: u64,
    pub day: Option<u64>,
    pub offense: TeamGameSim,
    pub defense: TeamGameSim,
    pub starters_recorded: bool,
    pub clock: ClockState,
    pub config: GameAttributesLeague,
    pub play_by_play: Option<Vec<Play>>,
    pub all_star_game: bool,
    /// Home-court factor in thousandths (one thousand when disabled).
    pub home_court_factor: u32,
    /// Injury rate per possession at a pace of one hundred, in ppb.
    pub base_injury_rate: u64,
    /// Possessions played so far, saturating.
    pub possessions: u64,
    pub rng: rand::rngs::StdRng,
}

impl GameSim {
    /// The game is consistent: valid rules, both lineups of the configured
    /// size over valid and distinct roster indexes, energies in range, and a
    /// clock that matches the rules.
    pub open spec fn wf(&self) -> bool {
        &&& league_ok(self.config)
        &&& self.offense.wf(self.config.num_players_on_court as int)
        &&& self.defense.wf(self.config.num_players_on_court as int)
        &&& self.clock.num_periods == self.config.num_periods
        &&& self.clock.quarter_length_ms == self.config.quarter_length_ms
        &&& self.base_injury_rate <= PPB
    }

    /// The settings of the game, which no phase changes.
    pub open spec fn same_setup(&self, other: &GameSim) -> bool {
        &&& self.id == other.id
        &&& self.day == other.day
        &&& self.config == other.config
        &&& self.all_star_game == other.all_star_game
        &&& self.home_court_factor == other.home_court_factor
        &&& self.base_injury_rate == other.base_injury_rate
    }

    /// Why a game with these rules and rosters cannot start, if it cannot.
    pub open spec fn setup_error(
        config: GameAttributesLeague,
        team0: TeamGameSim,
        team1: TeamGameSim,
        base_injury_rate: u64,
    ) -> Option<SimError> {
        let n = config.num_players_on_court as int;
        if !league_ok(config) {
            Some(SimError::InvalidConfig)
        } else if team0.player.len() < n {
            Some(SimError::RosterTooSmall(team0.id))
        } else if team1.player.len() < n {
            Some(SimError::RosterTooSmall(team1.id))
        } else if !energies_ok(team0.player@) {
            Some(SimError::EnergyOutOfRange(team0.id))
        } else if !energies_ok(team1.player@) {
            Some(SimError::EnergyOutOfRange(team1.id))
        } else if base_injury_rate > PPB {
            Some(SimError::InvalidInjuryRate)
        } else {
            None
        }
    }
}

fn check_energies(players: &Vec<PlayerGameSim>) -> (r: bool)
    ensures
        r == energies_ok(players@),
{
    let mut i: usize = 0;
    while i < players.len()
        invariant
            i <= players.len(),
            forall|j: int| 0 <= j < i ==> #[trigger] players@[j].stat.energy <= 1000,
        decreases players.len() - i,
    {
        if players[i].stat.energy > 1000 {
            return false;
        }
        i = i + 1;
    }
    true
}

/// Puts the first `n` roster players on court.
fn first_lineup(team: &mut TeamGameSim, n: usize)
    requires
        0 < n <= old(team).player.len(),
        energies_ok(old(team).player@),
    ensures
        final(team).wf(n as int),
        final(team).player@ == old(team).player@,
        final(team).id == old(team).id,
        final(team).stat == old(team).stat,
        final(team).composite_rating == old(team).composite_rating,
        final(team).synergy == old(team).synergy,
{
    let mut l: Vec<usize> = Vec::new();
    let mut i: usize = 0;
    while i < n
        invariant
            i <= n,
            l.len() == i,
            forall|k: int| 0 <= k < i ==> l@[k] == k,
        decreases n - i,
    {
        l.push(i);
        i = i + 1;
    }
    team.on_court = l;
}

/// What a rotation pass may change in a player: the court and bench
/// clocks (kept, or reset to within two minutes of zero), and, on the
/// first pass (starters not yet recorded), the started flag of a player on
/// court, which is only ever set.
pub open spec fn rotated(a: PlayerGameSim, b: PlayerGameSim, starters_recorded: bool, on_court: bool) -> bool {
    &&& same_but_clocks(a, PlayerGameSim { stat: Stat { gs: a.stat.gs, ..b.stat }, ..b })
    &&& (b.stat.gs == a.stat.gs || (!starters_recorded && on_court && b.stat.gs))
    &&& ((b.stat.court_time_ms == a.stat.court_time_ms && b.stat.bench_time_ms == a.stat.bench_time_ms)
        || clocks_reset(b))
}

/// `b` is `a` marked as a starter.
pub open spec fn as_starter(a: PlayerGameSim) -> PlayerGameSim {
    PlayerGameSim { stat: Stat { gs: true, ..a.stat }, ..a }
}

/// Marks every player now on court as a starter.
fn record_starters(team: &mut TeamGameSim)
    requires
        old(team).wf(old(team).on_court.len() as int),
    ensures
        final(team).wf(old(team).on_court.len() as int),
        final(team).player.len() == old(team).player.len(),
        forall|i: int|
            0 <= i < final(team).player.len() ==> #[trigger] final(team).player@[i] == if old(
                team,
            ).on_court@.contains(i as usize) {
                as_starter(old(team).player@[i])
            } else {
                old(team).player@[i]
            },
        final(team).on_court@ == old(team).on_court@,
        final(team).id == old(team).id,
        final(team).stat == old(team).stat,
        final(team).composite_rating == old(team).composite_rating,
        final(team).synergy == old(team).synergy,
{
    let mut j: usize = 0;
    while j < team.on_court.len()
        invariant
            j <= team.on_court.len(),
            team.player.len() == old(team).player.len(),
            team.wf(old(team).on_court.len() as int),
            team.on_court@ == old(team).on_court@,
            forall|i: int|
                0 <= i < team.player.len() ==> #[trigger] team.player@[i] == if old(
                    team,
                ).on_court@.subrange(0, j as int).contains(i as usize) {
                    as_starter(old(team).player@[i])
                } else {
                    old(team).player@[i]
                },
            team.id == old(team).id,
            team.stat == old(team).stat,
            team.composite_rating == old(team).composite_rating,
            team.synergy == old(team).synergy,
        decreases team.on_court.len() - j,
    {
        let i = team.on_court[j];
        let mut p = team.player[i];
        p.stat.gs = true;
        team.player[i] = p;
        proof {
            let l = old(team).on_court@;
            assert forall|x: int| 0 <= x < team.player.len() implies #[trigger] team.player@[x] == if l.subrange(0, j + 1).contains(
                x as usize,
            ) {
                as_starter(old(team).player@[x])
            } else {
                old(team).player@[x]
            } by {
                if x == i as int {
                    assert(l.subrange(0, j + 1)[j as int] == i);
                    if l.subrange(0, j as int).contains(i) {
                        let k = choose|k: int| 0 <= k < j && #[trigger] l.subrange(0, j as int)[k] == i;
                        assert(l[k] == l[j as int]);
                    }
                } else {
                    if l.subrange(0, j + 1).contains(x as usize) {
                        let k = choose|k: int| 0 <= k < j + 1 && #[trigger] l.subrange(0, j + 1)[k] == x as usize;
                        assert(l.subrange(0, j as int)[k] == x as usize);
                    }
                    if l.subrange(0, j as int).contains(x as usize) {
                        let k = choose|k: int| 0 <= k < j && #[trigger] l.subrange(0, j as int)[k] == x as usize;
                        assert(l.subrange(0, j + 1)[k] == x as usize);
                    }
                }
            }
        }
        j = j + 1;
    }
    assert(old(team).on_court@.subrange(0, j as int) =~= old(team).on_court@);
}

impl GameSim {
    /// Sets up a game: checks the rules and rosters, puts each team's first
    /// players on court, runs the first rotation pass, records the starters
    /// and derives synergy and team ratings. The log is kept when
    /// `do_play_by_play` is `Some(true)`; the injury rate is in ppb and may
    /// not exceed one.
    pub fn new(
        gid: u64,
        day: Option<u64>,
        team0: TeamGameSim,
        team1: TeamGameSim,
        config: GameAttributesLeague,
        do_play_by_play: Option<bool>,
        home_court_factor: Option<u32>,
        all_star_game: Option<bool>,
        base_injury_rate: u64,
        disable_home_court_advantage: Option<bool>,
        rng: rand::rngs::StdRng,
    ) -> (r: Result<GameSim, SimError>)
        ensures
            GameSim::setup_error(config, team0, team1, base_injury_rate) is Some <==> r is Err,
            r is Err ==> r->Err_0 == GameSim::setup_error(config, team0, team1, base_injury_rate).unwrap(),
            r is Ok ==> r->Ok_0.wf(),
            r is Ok ==> r->Ok_0.id == gid && r->Ok_0.day == day && r->Ok_0.config == config,
            r is Ok ==> r->Ok_0.play_by_play.is_some() == (do_play_by_play == Some(true)),
            r is Ok ==> r->Ok_0.offense.id == team0.id && r->Ok_0.defense.id == team1.id,
            r is Ok ==> r->Ok_0.clock.quarter == 1 && r->Ok_0.clock.overtimes == 0
                && r->Ok_0.clock.t_ms == config.quarter_length_ms,
            r is Ok ==> r->Ok_0.starters_recorded,
            r is Ok ==> r->Ok_0.base_injury_rate == base_injury_rate,
            r is Ok ==> exists|root: int|
                is_perimeter_root(r->Ok_0.offense.player@, r->Ok_0.offense.on_court@, root)
                    && r->Ok_0.offense.synergy == synergy_of(r->Ok_0.offense.player@, r->Ok_0.offense.on_court@, root),
            r is Ok ==> forall|k: TeamRatingKind|
                #[trigger] r->Ok_0.offense.composite_rating.value(k) == team_rating(
                    r->Ok_0.offense.player@,
                    r->Ok_0.offense.on_court@,
                    k,
                    perf_factor(((r->Ok_0.offense.stat.pts as int - r->Ok_0.defense.stat.pts as int)) as i64),
                    foul_trouble_limit(r->Ok_0.clock, config.fouls_needed_to_foul_out) as u32,
                    r->Ok_0.offense.synergy,
                    config.synergy_factor,
                ),
            r is Ok ==> exists|root: int|
                is_perimeter_root(r->Ok_0.defense.player@, r->Ok_0.defense.on_court@, root)
                    && r->Ok_0.defense.synergy == synergy_of(r->Ok_0.defense.player@, r->Ok_0.defense.on_court@, root),
            r is Ok ==> forall|k: TeamRatingKind|
                #[trigger] r->Ok_0.defense.composite_rating.value(k) == team_rating(
                    r->Ok_0.defense.player@,
                    r->Ok_0.defense.on_court@,
                    k,
                    perf_factor((-(r->Ok_0.offense.stat.pts as int - r->Ok_0.defense.stat.pts as int)) as i64),
                    foul_trouble_limit(r->Ok_0.clock, config.fouls_needed_to_foul_out) as u32,
                    r->Ok_0.defense.synergy,
                    config.synergy_factor,
                ),
            r is Ok ==> forall|k: int|
                0 <= k < r->Ok_0.offense.on_court.len() ==> (#[trigger] r->Ok_0.offense.player@[r->Ok_0.offense.on_court@[k] as int]).stat.gs,
            r is Ok ==> forall|k: int|
                0 <= k < r->Ok_0.defense.on_court.len() ==> (#[trigger] r->Ok_0.defense.player@[r->Ok_0.defense.on_court@[k] as int]).stat.gs,
    {
        let n = config.num_players_on_court as usize;
        if !config.is_valid() {
            return Err(SimError::InvalidConfig);
        }
        if team0.player.len() < n {
            return Err(SimError::RosterTooSmall(team0.id));
        }
        if team1.player.len() < n {
            return Err(SimError::RosterTooSmall(team1.id));
        }
        if !check_energies(&team0.player) {
            return Err(SimError::EnergyOutOfRange(team0.id));
        }
        if !check_energies(&team1.player) {
            return Err(SimError::EnergyOutOfRange(team1.id));
        }
        if base_injury_rate > PPB {
            return Err(SimError::InvalidInjuryRate);
        }
        let mut offense = team0;
        let mut defense = team1;
        first_lineup(&mut offense, n);
        first_lineup(&mut defense, n);
        let mut pts0: Vec<u32> = Vec::new();
        pts0.push(0);
        let mut pts1: Vec<u32> = Vec::new();
        pts1.push(0);
        offense.stat.pts_qtrs = pts0;
        defense.stat.pts_qtrs = pts1;
        let play_by_play: Option<Vec<Play>> = if do_play_by_play == Some(true) {
            Some(Vec::new())
        } else {
            None
        };
        let hcf: u32 = if disable_home_court_advantage == Some(true) {
            1000
        } else {
            match home_court_factor {
                Some(f) => f,
                None => 1000,
            }
        };
        let mut game = GameSim {
            id: gid,
            day,
            offense,
            defense,
            starters_recorded: false,
            clock: ClockState {
                quarter: 1,
                num_periods: config.num_periods,
                overtimes: 0,
                t_ms: config.quarter_length_ms as i64,
                quarter_length_ms: config.quarter_length_ms,
                elam_active: false,
                elam_target: 0,
            },
            config,
            play_by_play,
            all_star_game: all_star_game == Some(true),
            home_court_factor: hcf,
            base_injury_rate,
            possessions: 0,
            rng,
        };
        game.open_game();
        Ok(game)
    }

    /// The first rotation pass (recording the starters) and the first
    /// synergy and ratings of a game being set up.
    #[verifier::rlimit(100)]
    fn open_game(&mut self)
        requires
            old(self).wf(),
            !old(self).starters_recorded,
        ensures
            final(self).wf(),
            final(self).same_setup(old(self)),
            final(self).clock == old(self).clock,
            final(self).possessions == old(self).possessions,
            final(self).offense.id == old(self).offense.id,
            final(self).defense.id == old(self).defense.id,
            final(self).starters_recorded,
            final(self).play_by_play.is_some() == old(self).play_by_play.is_some(),
            forall|k: int|
                0 <= k < final(self).offense.on_court.len() ==> (#[trigger] final(self).offense.player@[final(self).offense.on_court@[k] as int]).stat.gs,
            forall|k: int|
                0 <= k < final(self).defense.on_court.len() ==> (#[trigger] final(self).defense.player@[final(self).defense.on_court@[k] as int]).stat.gs,
            exists|root: int|
                is_perimeter_root(final(self).offense.player@, final(self).offense.on_court@, root)
                    && final(self).offense.synergy == synergy_of(final(self).offense.player@, final(self).offense.on_court@, root),
            forall|k: TeamRatingKind|
                #[trigger] final(self).offense.composite_rating.value(k) == team_rating(
                    final(self).offense.player@,
                    final(self).offense.on_court@,
                    k,
                    perf_factor(((final(self).offense.stat.pts as int - final(self).defense.stat.pts as int)) as i64),
                    foul_trouble_limit(final(self).clock, final(self).config.fouls_needed_to_foul_out) as u32,
                    final(self).offense.synergy,
                    final(self).config.synergy_factor,
                ),
            exists|root: int|
                is_perimeter_root(final(self).defense.player@, final(self).defense.on_court@, root)
                    && final(self).defense.synergy == synergy_of(final(self).defense.player@, final(self).defense.on_court@, root),
            forall|k: TeamRatingKind|
                #[trigger] final(self).defense.composite_rating.value(k) == team_rating(
                    final(self).defense.player@,
                    final(self).defense.on_court@,
                    k,
                    perf_factor((-(final(self).offense.stat.pts as int - final(self).defense.stat.pts as int)) as i64),
                    foul_trouble_limit(final(self).clock, final(self).config.fouls_needed_to_foul_out) as u32,
                    final(self).defense.synergy,
                    final(self).config.synergy_factor,
                ),
            forall|k: int|
                0 <= k < final(self).offense.on_court.len() ==> (#[trigger] final(self).offense.player@[final(self).offense.on_court@[k] as int]).stat.gs,
            forall|k: int|
                0 <= k < final(self).defense.on_court.len() ==> (#[trigger] final(self).defense.player@[final(self).defense.on_court@[k] as int]).stat.gs,
    {
        self.update_players_on_court();
        self.refresh_ratings();
    }

    /// The rotation pass for both teams. Afterwards each lineup still holds
    /// the configured number of distinct roster indexes; returns whether any
    /// substitution was made.
    #[verifier::rlimit(100)]
    pub fn update_players_on_court(&mut self) -> (subs: bool)
        requires
            old(self).wf(),
        ensures
            final(self).wf(),
            final(self).clock == old(self).clock,
            final(self).same_setup(old(self)),
            final(self).possessions == old(self).possessions,
            final(self).offense.stat == old(self).offense.stat,
            final(self).defense.stat == old(self).defense.stat,
            final(self).offense.id == old(self).offense.id,
            final(self).defense.id == old(self).defense.id,
            final(self).starters_recorded,
            log_extends(old(self).play_by_play, final(self).play_by_play),
            final(self).offense.composite_rating == old(self).offense.composite_rating,
            final(self).offense.synergy == old(self).offense.synergy,
            exists|ovrs: Seq<Option<u64>>|
                #[trigger] pass_justified(
                    ovrs,
                    old(self).offense,
                    final(self).offense,
                    fouled_out_waived(
                        old(self).offense.player@,
                        old(self).config.fouls_needed_to_foul_out,
                        old(self).config.num_players_on_court as int,
                    ),
                    old(self).config.fouls_needed_to_foul_out,
                ),
            final(self).defense.composite_rating == old(self).defense.composite_rating,
            final(self).defense.synergy == old(self).defense.synergy,
            exists|ovrs: Seq<Option<u64>>|
                #[trigger] pass_justified(
                    ovrs,
                    old(self).defense,
                    final(self).defense,
                    fouled_out_waived(
                        old(self).defense.player@,
                        old(self).config.fouls_needed_to_foul_out,
                        old(self).config.num_players_on_court as int,
                    ),
                    old(self).config.fouls_needed_to_foul_out,
                ),
            old(self).play_by_play.is_some() ==> exists|o1: Seq<usize>, o2: Seq<usize>|
                slot_order(o1, old(self).offense.on_court.len() as int) && slot_order(
                    o2,
                    old(self).defense.on_court.len() as int,
                ) && #[trigger] final(self).play_by_play.unwrap()@ == old(self).play_by_play.unwrap()@
                    + sub_plays(
                    old(self).offense.player@,
                    old(self).offense.id,
                    old(self).offense.on_court@,
                    final(self).offense.on_court@,
                    o1,
                    old(self).offense.on_court.len() as int,
                ) + sub_plays(
                    old(self).defense.player@,
                    old(self).defense.id,
                    old(self).defense.on_court@,
                    final(self).defense.on_court@,
                    o2,
                    old(self).defense.on_court.len() as int,
                ),
            subs <==> (entered(old(self).offense.on_court@, final(self).offense.on_court@)
                || entered(old(self).defense.on_court@, final(self).defense.on_court@)),
            final(self).offense.player.len() == old(self).offense.player.len(),
            final(self).defense.player.len() == old(self).defense.player.len(),
            forall|i: int|
                0 <= i < final(self).offense.player.len() ==> rotated(
                    #[trigger] old(self).offense.player@[i],
                    final(self).offense.player@[i],
                    old(self).starters_recorded,
                    final(self).offense.on_court@.contains(i as usize),
                ),
            forall|i: int|
                0 <= i < final(self).defense.player.len() ==> rotated(
                    #[trigger] old(self).defense.player@[i],
                    final(self).defense.player@[i],
                    old(self).starters_recorded,
                    final(self).defense.on_court@.contains(i as usize),
                ),
            !old(self).starters_recorded ==> forall|k: int|
                0 <= k < final(self).offense.on_court.len() ==> (#[trigger] final(self).offense.player@[final(self).offense.on_court@[k] as int]).stat.gs,
            !old(self).starters_recorded ==> forall|k: int|
                0 <= k < final(self).defense.on_court.len() ==> (#[trigger] final(self).defense.player@[final(self).defense.on_court@[k] as int]).stat.gs,
            subs <==> (final(self).offense.on_court@ != old(self).offense.on_court@
                || final(self).defense.on_court@ != old(self).defense.on_court@),
            lineup_settled(
                final(self).offense,
                fouled_out_waived(
                    old(self).offense.player@,
                    old(self).config.fouls_needed_to_foul_out,
                    old(self).config.num_players_on_court as int,
                ),
                old(self).config.fouls_needed_to_foul_out,
            ),
            lineup_settled(
                final(self).defense,
                fouled_out_waived(
                    old(self).defense.player@,
                    old(self).config.fouls_needed_to_foul_out,
                    old(self).config.num_players_on_court as int,
                ),
                old(self).config.fouls_needed_to_foul_out,
            ),
    {
        let o_pts = self.offense.stat.pts as i64;
        let d_pts = self.defense.stat.pts as i64;
        let ctx = RotationContext {
            late_game: is_late_game(&self.clock, o_pts, d_pts),
            all_star_game: self.all_star_game,
            blowout: is_blowout(&self.clock, o_pts, d_pts),
            foul_limit: get_foul_trouble_limit(&self.clock, self.config.fouls_needed_to_foul_out),
            fouls_to_foul_out: self.config.fouls_needed_to_foul_out,
        };
        let ghost log0 = self.play_by_play;
        let s1 = rotate_team(&mut self.offense, &ctx, &mut self.rng, &mut self.play_by_play);
        let ghost o_after = self.offense;
        let ghost log1 = self.play_by_play;
        let s2 = rotate_team(&mut self.defense, &ctx, &mut self.rng, &mut self.play_by_play);
        let ghost d_after = self.defense;
        let ghost d_log = self.play_by_play;
        proof {
            if log0.is_some() {
                crate::play::lemma_extends_trans(
                    log0.unwrap()@,
                    log1.unwrap()@,
                    self.play_by_play.unwrap()@,
                );
            }
        }
        if !self.starters_recorded {
            let ghost o_mid = self.offense.player@;
            let ghost d_mid = self.defense.player@;
            record_starters(&mut self.offense);
            record_starters(&mut self.defense);
            self.starters_recorded = true;
            proof {
                let f = ctx.fouls_to_foul_out;
                assert forall|i: int| 0 <= i < self.offense.player.len() implies ineligible(
                    #[trigger] self.offense.player@[i],
                    fouled_out_waived(old(self).offense.player@, f, old(self).config.num_players_on_court as int),
                    f,
                ) == ineligible(
                    o_mid[i],
                    fouled_out_waived(old(self).offense.player@, f, old(self).config.num_players_on_court as int),
                    f,
                ) by {}
                assert forall|i: int| 0 <= i < self.defense.player.len() implies ineligible(
                    #[trigger] self.defense.player@[i],
                    fouled_out_waived(old(self).defense.player@, f, old(self).config.num_players_on_court as int),
                    f,
                ) == ineligible(
                    d_mid[i],
                    fouled_out_waived(old(self).defense.player@, f, old(self).config.num_players_on_court as int),
                    f,
                ) by {}
                assert forall|i: int| 0 <= i < self.offense.player.len() implies rotated(
                    #[trigger] old(self).offense.player@[i],
                    self.offense.player@[i],
                    old(self).starters_recorded,
                    self.offense.on_court@.contains(i as usize),
                ) by {
                    assert(same_but_clocks(old(self).offense.player@[i], o_mid[i]));
                }
                assert forall|i: int| 0 <= i < self.defense.player.len() implies rotated(
                    #[trigger] old(self).defense.player@[i],
                    self.defense.player@[i],
                    old(self).starters_recorded,
                    self.defense.on_court@.contains(i as usize),
                ) by {
                    assert(same_but_clocks(old(self).defense.player@[i], d_mid[i]));
                }
                assert forall|k: int| 0 <= k < self.offense.on_court.len() implies (
                #[trigger] self.offense.player@[self.offense.on_court@[k] as int]).stat.gs by {
                    assert(self.offense.on_court@.contains(self.offense.on_court@[k]));
                }
                assert forall|k: int| 0 <= k < self.defense.on_court.len() implies (
                #[trigger] self.defense.player@[self.defense.on_court@[k] as int]).stat.gs by {
                    assert(self.defense.on_court@.contains(self.defense.on_court@[k]));
                }
            }
        } else {
            proof {
                assert forall|i: int| 0 <= i < self.offense.player.len() implies rotated(
                    #[trigger] old(self).offense.player@[i],
                    self.offense.player@[i],
                    old(self).starters_recorded,
                    self.offense.on_court@.contains(i as usize),
                ) by {
                    assert(same_but_clocks(old(self).offense.player@[i], self.offense.player@[i]));
                }
                assert forall|i: int| 0 <= i < self.defense.player.len() implies rotated(
                    #[trigger] old(self).defense.player@[i],
                    self.defense.player@[i],
                    old(self).starters_recorded,
                    self.defense.on_court@.contains(i as usize),
                ) by {
                    assert(same_but_clocks(old(self).defense.player@[i], self.defense.player@[i]));
                }
            }
        }
        proof {
            let f = self.config.fouls_needed_to_foul_out;
            let n = self.config.num_players_on_court as int;
            let wo = fouled_out_waived(old(self).offense.player@, f, n);
            let wd = fouled_out_waived(old(self).defense.player@, f, n);
            let oo = choose|ovrs: Seq<Option<u64>>| #[trigger] pass_justified(ovrs, old(self).offense, o_after, wo, f);
            assert(pass_justified(oo, old(self).offense, self.offense, wo, f));
            let dd = choose|ovrs: Seq<Option<u64>>| #[trigger] pass_justified(ovrs, old(self).defense, d_after, wd, f);
            assert(pass_justified(dd, old(self).defense, self.defense, wd, f));
            if log0.is_some() {
                let no = old(self).offense.on_court.len() as int;
                let nd = old(self).defense.on_court.len() as int;
                let o1 = choose|order: Seq<usize>|
                    slot_order(order, no) && #[trigger] log1.unwrap()@ == log0.unwrap()@ + sub_plays(
                        old(self).offense.player@,
                        old(self).offense.id,
                        old(self).offense.on_court@,
                        o_after.on_court@,
                        order,
                        no,
                    );
                let o2 = choose|order: Seq<usize>|
                    slot_order(order, nd) && #[trigger] d_log.unwrap()@ == log1.unwrap()@ + sub_plays(
                        old(self).defense.player@,
                        old(self).defense.id,
                        old(self).defense.on_court@,
                        d_after.on_court@,
                        order,
                        nd,
                    );
                assert(self.play_by_play.unwrap()@ =~= log0.unwrap()@ + sub_plays(
                    old(self).offense.player@,
                    old(self).offense.id,
                    old(self).offense.on_court@,
                    self.offense.on_court@,
                    o1,
                    no,
                ) + sub_plays(
                    old(self).defense.player@,
                    old(self).defense.id,
                    old(self).defense.on_court@,
                    self.defense.on_court@,
                    o2,
                    nd,
                ));
            }
        }
        s1 || s2
    }

    /// Recomputes both teams' synergy and then their composite ratings.
    #[verifier::rlimit(60)]
    pub fn refresh_ratings(&mut self)
        requires
            old(self).wf(),
        ensures
            final(self).wf(),
            final(self).clock == old(self).clock,
            final(self).same_setup(old(self)),
            final(self).possessions == old(self).possessions,
            final(self).offense.player@ == old(self).offense.player@,
            final(self).defense.player@ == old(self).defense.player@,
            final(self).offense.on_court@ == old(self).offense.on_court@,
            final(self).defense.on_court@ == old(self).defense.on_court@,
            final(self).offense.stat == old(self).offense.stat,
            final(self).defense.stat == old(self).defense.stat,
            final(self).offense.id == old(self).offense.id,
            final(self).defense.id == old(self).defense.id,
            final(self).play_by_play == old(self).play_by_play,
            final(self).starters_recorded == old(self).starters_recorded,
            exists|root: int|
                is_perimeter_root(old(self).offense.player@, old(self).offense.on_court@, root)
                    && final(self).offense.synergy == synergy_of(old(self).offense.player@, old(self).offense.on_court@, root),
            forall|k: TeamRatingKind|
                #[trigger] final(self).offense.composite_rating.value(k) == team_rating(
                    old(self).offense.player@,
                    old(self).offense.on_court@,
                    k,
                    perf_factor(((old(self).offense.stat.pts as int - old(self).defense.stat.pts as int)) as i64),
                    foul_trouble_limit(old(self).clock, old(self).config.fouls_needed_to_foul_out) as u32,
                    final(self).offense.synergy,
                    old(self).config.synergy_factor,
                ),
            exists|root: int|
                is_perimeter_root(old(self).defense.player@, old(self).defense.on_court@, root)
                    && final(self).defense.synergy == synergy_of(old(self).defense.player@, old(self).defense.on_court@, root),
            forall|k: TeamRatingKind|
                #[trigger] final(self).defense.composite_rating.value(k) == team_rating(
                    old(self).defense.player@,
                    old(self).defense.on_court@,
                    k,
                    perf_factor((-(old(self).offense.stat.pts as int - old(self).defense.stat.pts as int)) as i64),
                    foul_trouble_limit(old(self).clock, old(self).config.fouls_needed_to_foul_out) as u32,
                    final(self).defense.synergy,
                    old(self).config.synergy_factor,
                ),
    {
        update_synergy(&mut self.offense);
        update_synergy(&mut self.defense);
        let diff = self.offense.stat.pts as i64 - self.defense.stat.pts as i64;
        let limit = get_foul_trouble_limit(&self.clock, self.config.fouls_needed_to_foul_out);
        update_team_composite_ratings(&mut self.offense, diff, limit, self.config.synergy_factor);
        update_team_composite_ratings(&mut self.defense, -diff, limit, self.config.synergy_factor);
    }
}

/// Whether the player at roster index `i` is hurt this possession: on court
/// in some slot whose draw (ppb) falls below the player's injury rate.
pub open spec fn hurt_by(team: TeamGameSim, base: u64, draws: Seq<u64>, i: int) -> bool {
    exists|k: int|
        0 <= k < team.on_court.len() && team.on_court@[k] == i && #[trigger] draws[k]
            < injury_rate(base, team.player@[i].age, team.player@[i].playing_through_injury)
}

pub open spec fn as_injured(p: PlayerGameSim) -> PlayerGameSim {
    PlayerGameSim { injured: true, new_injury: true, ..p }
}

/// The Injury plays a pass over the first `k` lineup slots logs: one per
/// hurt player, in slot order, naming that player.
pub open spec fn injury_plays(team: TeamGameSim, base: u64, draws: Seq<u64>, k: int) -> Seq<Play>
    decreases k,
{
    if k <= 0 {
        Seq::empty()
    } else {
        let prev = injury_plays(team, base, draws, k - 1);
        let p = team.player@[team.on_court@[k - 1] as int];
        if draws[k - 1] < injury_rate(base, p.age, p.playing_through_injury) {
            prev.push(Play { play_type: PlayType::Injury, team: team.id, on: p.id, off: p.id })
        } else {
            prev
        }
    }
}

/// Draws one uniform value in `[0, PPB)` per player on court.
fn injury_draws(n: usize, rng: &mut rand::rngs::StdRng) -> (d: Vec<u64>)
    ensures
        d.len() == n,
        forall|k: int| 0 <= k < n ==> d@[k] < PPB,
{
    let mut d: Vec<u64> = Vec::new();
    let mut k: usize = 0;
    while k < n
        invariant
            k <= n,
            d.len() == k,
            forall|j: int| 0 <= j < k ==> d@[j] < PPB,
        decreases n - k,
    {
        d.push(draw_below(rng, PPB));
        k = k + 1;
    }
    d
}

/// Marks on-court players injured from the draws made for them, one per
/// lineup slot: a player is hurt exactly when the slot's draw is below
/// `injury_rate(base, age, playing through)`. Each new injury is logged.
/// Returns whether anyone was hurt.
pub fn injure_team(team: &mut TeamGameSim, base: u64, draws: &Vec<u64>, log: &mut Option<Vec<Play>>) -> (hurt: bool)
    requires
        base <= PPB,
        draws.len() == old(team).on_court.len(),
        old(team).wf(old(team).on_court.len() as int),
    ensures
        final(team).wf(old(team).on_court.len() as int),
        final(team).on_court@ == old(team).on_court@,
        final(team).player.len() == old(team).player.len(),
        forall|i: int|
            0 <= i < final(team).player.len() ==> #[trigger] final(team).player@[i] == if hurt_by(
                *old(team),
                base,
                draws@,
                i,
            ) {
                as_injured(old(team).player@[i])
            } else {
                old(team).player@[i]
            },
        hurt == exists|i: int| 0 <= i < old(team).player.len() && #[trigger] hurt_by(*old(team), base, draws@, i),
        final(team).id == old(team).id,
        final(team).stat == old(team).stat,
        final(team).composite_rating == old(team).composite_rating,
        final(team).synergy == old(team).synergy,
        log_extends(*old(log), *final(log)),
        !hurt ==> *final(log) == *old(log),
        old(log).is_some() ==> final(log).unwrap()@ == old(log).unwrap()@ + injury_plays(
            *old(team),
            base,
            draws@,
            old(team).on_court.len() as int,
        ),
{
    let mut hurt = false;
    let mut j: usize = 0;
    let ghost t0 = *team;
    proof {
        crate::play::lemma_extends_refl(*log);
    }
    while j < team.on_court.len()
        invariant
            base <= PPB,
            t0 == *old(team),
            draws.len() == team.on_court.len(),
            j <= team.on_court.len(),
            team.wf(old(team).on_court.len() as int),
            team.on_court@ == old(team).on_court@,
            team.player.len() == old(team).player.len(),
            forall|i: int|
                0 <= i < team.player.len() ==> #[trigger] team.player@[i] == if (exists|k: int|
                    0 <= k < j && t0.on_court@[k] == i && #[trigger] draws@[k] < injury_rate(
                        base,
                        t0.player@[i].age,
                        t0.player@[i].playing_through_injury,
                    )) {
                    as_injured(t0.player@[i])
                } else {
                    t0.player@[i]
                },
            hurt == exists|k: int|
                0 <= k < j && #[trigger] draws@[k] < injury_rate(
                    base,
                    t0.player@[t0.on_court@[k] as int].age,
                    t0.player@[t0.on_court@[k] as int].playing_through_injury,
                ),
            team.id == old(team).id,
            team.stat == old(team).stat,
            team.composite_rating == old(team).composite_rating,
            team.synergy == old(team).synergy,
            log_extends(*old(log), *log),
            !hurt ==> *log == *old(log),
            old(log).is_some() ==> log.unwrap()@ == old(log).unwrap()@ + injury_plays(t0, base, draws@, j as int),
        decreases team.on_court.len() - j,
    {
        let i = team.on_court[j];
        let p = team.player[i];
        proof {
            // Slot `j` is the only slot of player `i`.
            assert forall|k: int| 0 <= k < j implies t0.on_court@[k] != i by {
                assert(t0.on_court@.no_duplicates());
            }
            assert(p == t0.player@[i as int]);
        }
        let rate = getInjuryRate(base, p.age, p.playing_through_injury);
        if draws[j] < rate {
            let mut q = p;
            q.injured = true;
            q.new_injury = true;
            team.player[i] = q;
            let ghost before_log = *log;
            log_play(log, Play::new(PlayType::Injury, team.id, q.id, q.id));
            proof {
                if old(log).is_some() {
                    assert(log.unwrap()@ =~= old(log).unwrap()@ + injury_plays(t0, base, draws@, j + 1));
                }
            }
            hurt = true;
        }
        proof {
            assert forall|x: int| 0 <= x < team.player.len() implies #[trigger] team.player@[x] == if (exists|k: int|
                0 <= k < j + 1 && t0.on_court@[k] == x && #[trigger] draws@[k] < injury_rate(
                    base,
                    t0.player@[x].age,
                    t0.player@[x].playing_through_injury,
                )) {
                as_injured(t0.player@[x])
            } else {
                t0.player@[x]
            } by {
                if x == i as int {
                    if draws@[j as int] < rate {
                        assert(t0.on_court@[j as int] == x);
                    }
                } else {
                    if exists|k: int|
                        0 <= k < j + 1 && t0.on_court@[k] == x && #[trigger] draws@[k] < injury_rate(
                            base,
                            t0.player@[x].age,
                            t0.player@[x].playing_through_injury,
                        ) {
                        let k = choose|k: int|
                            0 <= k < j + 1 && t0.on_court@[k] == x && #[trigger] draws@[k] < injury_rate(
                                base,
                                t0.player@[x].age,
                                t0.player@[x].playing_through_injury,
                            );
                        assert(k != j);
                    }
                }
            }
            if draws@[j as int] < rate {
                assert(draws@[j as int] < injury_rate(
                    base,
                    t0.player@[t0.on_court@[j as int] as int].age,
                    t0.player@[t0.on_court@[j as int] as int].playing_through_injury,
                ));
            }
        }
        j = j + 1;
    }
    proof {
        assert forall|i: int| 0 <= i < team.player.len() implies #[trigger] team.player@[i] == if hurt_by(
            t0,
            base,
            draws@,
            i,
        ) {
            as_injured(t0.player@[i])
        } else {
            t0.player@[i]
        } by {}
        if hurt {
            let k = choose|k: int|
                0 <= k < j && #[trigger] draws@[k] < injury_rate(
                    base,
                    t0.player@[t0.on_court@[k] as int].age,
                    t0.player@[t0.on_court@[k] as int].playing_through_injury,
                );
            assert(hurt_by(t0, base, draws@, t0.on_court@[k] as int));
        }
        if exists|i: int| 0 <= i < t0.player.len() && #[trigger] hurt_by(t0, base, draws@, i) {
            let i = choose|i: int| 0 <= i < t0.player.len() && #[trigger] hurt_by(t0, base, draws@, i);
            let k = choose|k: int|
                0 <= k < t0.on_court.len() && t0.on_court@[k] == i && #[trigger] draws@[k]
                    < injury_rate(base, t0.player@[i].age, t0.player@[i].playing_through_injury);
            assert(draws@[k] < injury_rate(
                base,
                t0.player@[t0.on_court@[k] as int].age,
                t0.player@[t0.on_court@[k] as int].playing_through_injury,
            ));
        }
    }
    hurt
}

impl GameSim {
    /// What every phase keeps: consistency, the settings, the clock, the
    /// teams' identities and the log's past entries.
    pub open spec fn keeps(&self, before: &GameSim) -> bool {
        &&& self.wf()
        &&& self.same_setup(before)
        &&& self.clock == before.clock
        &&& self.offense.id == before.offense.id
        &&& self.defense.id == before.defense.id
        &&& (before.starters_recorded ==> self.starters_recorded)
        &&& self.possessions == before.possessions
        &&& log_extends(before.play_by_play, self.play_by_play)
    }

    /// The base injury rate in effect: the configured rate scaled by
    /// 100 / pace, capped at one.
    pub open spec fn injury_base(&self) -> u64 {
        let r = self.base_injury_rate * 100 / self.config.pace as int;
        if r > PPB {
            PPB
        } else {
            r as u64
        }
    }

    /// The injury check after a possession: nothing when injuries are off;
    /// otherwise each player on court is hurt when a fresh draw falls below
    /// `injury_rate(injury_base(), age, playing through)`, and any injury
    /// forces a new rotation pass.
    pub fn injuries(&mut self) -> (hurt: bool)
        requires
            old(self).wf(),
        ensures
            final(self).keeps(old(self)),
            final(self).offense.stat == old(self).offense.stat,
            final(self).defense.stat == old(self).defense.stat,
            final(self).offense.player.len() == old(self).offense.player.len(),
            final(self).defense.player.len() == old(self).defense.player.len(),
            old(self).config.disable_injuries ==> !hurt,
            !hurt ==> final(self).offense.player@ == old(self).offense.player@ && final(self).defense.player@
                == old(self).defense.player@ && final(self).offense.on_court@ == old(self).offense.on_court@
                && final(self).defense.on_court@ == old(self).defense.on_court@ && final(self).play_by_play
                == old(self).play_by_play,
            !old(self).config.disable_injuries ==> exists|od: Seq<u64>, dd: Seq<u64>|
                od.len() == old(self).offense.on_court.len() && dd.len() == old(self).defense.on_court.len()
                    && (forall|k: int| 0 <= k < od.len() ==> #[trigger] od[k] < PPB)
                    && (forall|k: int| 0 <= k < dd.len() ==> #[trigger] dd[k] < PPB)
                    && (forall|i: int|
                    0 <= i < final(self).offense.player.len() ==> (#[trigger] final(self).offense.player@[i]).new_injury
                        == (old(self).offense.player@[i].new_injury || hurt_by(old(self).offense, old(self).injury_base(), od, i)))
                    && (forall|i: int|
                    0 <= i < final(self).defense.player.len() ==> (#[trigger] final(self).defense.player@[i]).new_injury
                        == (old(self).defense.player@[i].new_injury || hurt_by(old(self).defense, old(self).injury_base(), dd, i)))
                    && (forall|i: int|
                    0 <= i < final(self).offense.player.len() ==> (#[trigger] final(self).offense.player@[i]).injured
                        == (old(self).offense.player@[i].injured || hurt_by(old(self).offense, old(self).injury_base(), od, i)))
                    && (forall|i: int|
                    0 <= i < final(self).defense.player.len() ==> (#[trigger] final(self).defense.player@[i]).injured
                        == (old(self).defense.player@[i].injured || hurt_by(old(self).defense, old(self).injury_base(), dd, i))),
            hurt ==> lineup_settled(
                final(self).offense,
                fouled_out_waived(
                    final(self).offense.player@,
                    old(self).config.fouls_needed_to_foul_out,
                    old(self).config.num_players_on_court as int,
                ),
                old(self).config.fouls_needed_to_foul_out,
            ) && lineup_settled(
                final(self).defense,
                fouled_out_waived(
                    final(self).defense.player@,
                    old(self).config.fouls_needed_to_foul_out,
                    old(self).config.num_players_on_court as int,
                ),
                old(self).config.fouls_needed_to_foul_out,
            ),
    {
        if self.config.disable_injuries {
            proof {
                crate::play::lemma_extends_refl(self.play_by_play);
            }
            return false;
        }
        let scaled: u64 = self.base_injury_rate * 100 / self.config.pace as u64;
        let base = if scaled > PPB {
            PPB
        } else {
            scaled
        };
        let od = injury_draws(self.offense.on_court.len(), &mut self.rng);
        let dd = injury_draws(self.defense.on_court.len(), &mut self.rng);
        let ghost log0 = self.play_by_play;
        let h1 = injure_team(&mut self.offense, base, &od, &mut self.play_by_play);
        let ghost log1 = self.play_by_play;
        let h2 = injure_team(&mut self.defense, base, &dd, &mut self.play_by_play);
        proof {
            if log0.is_some() {
                crate::play::lemma_extends_trans(log0.unwrap()@, log1.unwrap()@, self.play_by_play.unwrap()@);
            }
        }
        let ghost o_mid = self.offense;
        let ghost d_mid = self.defense;
        if h1 || h2 {
            let ghost log2 = self.play_by_play;
            self.update_players_on_court();
            proof {
                if log0.is_some() {
                    crate::play::lemma_extends_trans(log0.unwrap()@, log2.unwrap()@, self.play_by_play.unwrap()@);
                }
                crate::rotation::lemma_rotation_keeps_eligibility_rotated(o_mid, self.offense, old(self).config.fouls_needed_to_foul_out);
                crate::rotation::lemma_rotation_keeps_eligibility_rotated(d_mid, self.defense, old(self).config.fouls_needed_to_foul_out);
            }
        } else {
            proof {
                assert(self.offense.player@ =~= old(self).offense.player@);
                assert(self.defense.player@ =~= old(self).defense.player@);
            }
        }
        proof {
            assert forall|i: int| 0 <= i < self.offense.player.len() implies (#[trigger] self.offense.player@[i]).injured
                == (old(self).offense.player@[i].injured || hurt_by(old(self).offense, old(self).injury_base(), od@, i)) by {
                assert(o_mid.player@[i].injured == self.offense.player@[i].injured);
            }
            assert forall|i: int| 0 <= i < self.defense.player.len() implies (#[trigger] self.defense.player@[i]).injured
                == (old(self).defense.player@[i].injured || hurt_by(old(self).defense, old(self).injury_base(), dd@, i)) by {
                assert(d_mid.player@[i].injured == self.defense.player@[i].injured);
            }
            assert forall|i: int| 0 <= i < self.offense.player.len() implies (#[trigger] self.offense.player@[i]).new_injury
                == (old(self).offense.player@[i].new_injury || hurt_by(old(self).offense, old(self).injury_base(), od@, i)) by {
                assert(o_mid.player@[i].new_injury == self.offense.player@[i].new_injury);
            }
            assert forall|i: int| 0 <= i < self.defense.player.len() implies (#[trigger] self.defense.player@[i]).new_injury
                == (old(self).defense.player@[i].new_injury || hurt_by(old(self).defense, old(self).injury_base(), dd@, i)) by {
                assert(d_mid.player@[i].new_injury == self.defense.player@[i].new_injury);
            }
        }
        h1 || h2
    }
}

/// Free-throw make probability in ppm of a shooter rated `rating`
/// thousandths: the rating itself, capped at certainty.
pub open spec fn ft_probability(rating: u32) -> int {
    if rating as int * 1000 > PPM {
        PPM as int
    } else {
        rating as int * 1000
    }
}

/// Make probability in ppm of a shot with base rate `base` (ppm) by a
/// shooter rated `r` against a defense rated `d`: base × 2r / (r + d), capped
/// at certainty; the base itself when both ratings are zero.
pub open spec fn shot_probability(base: u64, r: u64, d: u64) -> int {
    if r + d == 0 {
        base as int
    } else if base * 2 * r / (r + d) > PPM {
        PPM as int
    } else {
        base * 2 * r / (r + d)
    }
}

pub fn get_shot_probability(base: u64, r: u64, d: u64) -> (p: u64)
    requires
        base <= PPM,
        r <= u32::MAX,
        d <= u64::MAX / 2,
    ensures
        p == shot_probability(base, r, d),
{
    if r as u128 + d as u128 == 0 {
        return base;
    }
    proof {
        assert(base * 2 * r <= PPM * 2 * 0xffff_ffff) by (nonlinear_arith)
            requires
                base <= PPM,
                r <= 0xffff_ffff,
        ;
    }
    let v: u128 = base as u128 * 2 * r as u128 / (r as u128 + d as u128);
    if v > PPM as u128 {
        PPM
    } else {
        v as u64
    }
}

/// The kinds of shot a shooter may take.
#[derive(Clone, Copy, Debug, PartialEq, Eq, Structural)]
pub enum ShotType {
    ThreePointer,
    AtRim,
    MidRange,
}

impl GameSim {
    /// A resolution step kept everything but the counters, scores and log.
    pub open spec fn resolves(&self, before: &GameSim) -> bool {
        &&& self.keeps(before)
        &&& self.offense.on_court@ == before.offense.on_court@
        &&& self.defense.on_court@ == before.defense.on_court@
        &&& self.offense.player.len() == before.offense.player.len()
        &&& self.defense.player.len() == before.defense.player.len()
    }

    fn offense_stat(&mut self, i: usize, f: StatField)
        requires
            old(self).wf(),
            i < old(self).offense.player.len(),
        ensures
            final(self).resolves(old(self)),
            final(self).play_by_play == old(self).play_by_play,
            final(self).offense.stat == old(self).offense.stat,
            final(self).defense.stat == old(self).defense.stat,
            final(self).defense.player@ == old(self).defense.player@,
            stat_value(final(self).offense.player@[i as int].stat, f) == sat_add_u32(
                stat_value(old(self).offense.player@[i as int].stat, f),
                1,
            ),
            forall|g: StatField|
                g != f ==> #[trigger] stat_value(final(self).offense.player@[i as int].stat, g) == stat_value(
                    old(self).offense.player@[i as int].stat,
                    g,
                ),
            final(self).offense.player@[i as int].stat.pts == old(self).offense.player@[i as int].stat.pts,
            forall|j: int|
                0 <= j < final(self).offense.player.len() && j != i ==> final(self).offense.player@[j] == old(self).offense.player@[j],
            final(self).offense.player@[i as int] == (PlayerGameSim {
                stat: bumped(old(self).offense.player@[i as int].stat, f),
                ..old(self).offense.player@[i as int]
            }),
            forall|g: StatField| g != f ==> #[trigger] counters_kept(old(self).offense.player@, final(self).offense.player@, g),
    {
        record_stat(&mut self.offense, i, f);
        assert forall|g: StatField| g != f implies #[trigger] counters_kept(old(self).offense.player@, self.offense.player@, g) by {
            assert forall|j: int| 0 <= j < self.offense.player.len() implies #[trigger] stat_value(self.offense.player@[j].stat, g)
                == stat_value(old(self).offense.player@[j].stat, g) by {}
        }
    }

    fn defense_stat(&mut self, i: usize, f: StatField)
        requires
            old(self).wf(),
            i < old(self).defense.player.len(),
        ensures
            final(self).resolves(old(self)),
            final(self).play_by_play == old(self).play_by_play,
            final(self).offense.stat == old(self).offense.stat,
            final(self).defense.stat == old(self).defense.stat,
            final(self).offense.player@ == old(self).offense.player@,
            stat_value(final(self).defense.player@[i as int].stat, f) == sat_add_u32(
                stat_value(old(self).defense.player@[i as int].stat, f),
                1,
            ),
            forall|g: StatField|
                g != f ==> #[trigger] stat_value(final(self).defense.player@[i as int].stat, g) == stat_value(
                    old(self).defense.player@[i as int].stat,
                    g,
                ),
            final(self).defense.player@[i as int].stat.pts == old(self).defense.player@[i as int].stat.pts,
            forall|j: int|
                0 <= j < final(self).defense.player.len() && j != i ==> final(self).defense.player@[j] == old(self).defense.player@[j],
            final(self).defense.player@[i as int] == (PlayerGameSim {
                stat: bumped(old(self).defense.player@[i as int].stat, f),
                ..old(self).defense.player@[i as int]
            }),
            forall|g: StatField| g != f ==> #[trigger] counters_kept(old(self).defense.player@, final(self).defense.player@, g),
    {
        record_stat(&mut self.defense, i, f);
        assert forall|g: StatField| g != f implies #[trigger] counters_kept(old(self).defense.player@, self.defense.player@, g) by {
            assert forall|j: int| 0 <= j < self.defense.player.len() implies #[trigger] stat_value(self.defense.player@[j].stat, g)
                == stat_value(old(self).defense.player@[j].stat, g) by {}
        }
    }

    fn log(&mut self, t: PlayType, on_offense: bool, on: u64, off: u64)
        requires
            old(self).wf(),
        ensures
            final(self).resolves(old(self)),
            final(self).offense.stat == old(self).offense.stat,
            final(self).defense.stat == old(self).defense.stat,
            final(self).offense.player@ == old(self).offense.player@,
            final(self).defense.player@ == old(self).defense.player@,
    {
        let team = if on_offense {
            self.offense.id
        } else {
            self.defense.id
        };
        log_play(&mut self.play_by_play, Play::new(t, team, on, off));
    }

    /// A turnover by an offensive player picked by usage rating: that
    /// player's turnover count goes up by one and no one else changes.
    pub fn do_tov(&mut self)
        requires
            old(self).wf(),
        ensures
            final(self).resolves(old(self)),
            final(self).offense.stat == old(self).offense.stat,
            final(self).defense.stat == old(self).defense.stat,
            final(self).defense.player@ == old(self).defense.player@,
            exists|i: int|
                #![trigger old(self).offense.player@[i]]
                0 <= i < old(self).offense.player.len() && old(self).offense.on_court@.contains(
                    i as usize,
                ) && final(self).offense.player@[i].stat == bumped(
                    old(self).offense.player@[i].stat,
                    StatField::Tov,
                ) && forall|j: int|
                    0 <= j < old(self).offense.player.len() && j != i ==> final(self).offense.player@[j]
                        == old(self).offense.player@[j],
    {
        let slot = pick_on_court(&self.offense, RatingKind::Usage, None, &mut self.rng);
        let i = self.offense.on_court[slot];
        let ghost before = self.offense.player@;
        record_stat(&mut self.offense, i, StatField::Tov);
        let id = self.offense.player[i].id;
        self.log(PlayType::Tov, true, id, id);
        assert(old(self).offense.on_court@[slot as int] == i);
        assert(old(self).offense.player@[i as int] == before[i as int]);
    }

    /// A defensive foul by a player picked by defense rating, counted against
    /// the team for the period (and for the last two minutes of regulation
    /// when in them); logged as a bonus foul or a non-shooting foul.
    pub fn do_pf(&mut self, bonus: bool)
        requires
            old(self).wf(),
        ensures
            final(self).resolves(old(self)),
            final(self).offense.stat == old(self).offense.stat,
            final(self).defense.stat.pts == old(self).defense.stat.pts,
            final(self).defense.stat.pts_qtrs@ == old(self).defense.stat.pts_qtrs@,
            final(self).defense.stat.fouls_this_quarter == sat_add_u32(
                old(self).defense.stat.fouls_this_quarter,
                1,
            ),
            final(self).offense.player@ == old(self).offense.player@,
            exists|i: int|
                #![trigger old(self).defense.player@[i]]
                0 <= i < old(self).defense.player.len() && old(self).defense.on_court@.contains(
                    i as usize,
                ) && final(self).defense.player@[i].stat == bumped(
                    old(self).defense.player@[i].stat,
                    StatField::Pf,
                ) && forall|j: int|
                    0 <= j < old(self).defense.player.len() && j != i ==> final(self).defense.player@[j]
                        == old(self).defense.player@[j],
    {
        let slot = pick_on_court(&self.defense, RatingKind::Defense, None, &mut self.rng);
        let i = self.defense.on_court[slot];
        let ghost before = self.defense.player@;
        record_stat(&mut self.defense, i, StatField::Pf);
        assert(old(self).defense.on_court@[slot as int] == i);
        assert(old(self).defense.player@[i as int] == before[i as int]);
        self.defense.stat.fouls_this_quarter = sat_add_u32_exec(self.defense.stat.fouls_this_quarter, 1);
        if self.clock.overtimes == 0 && self.clock.quarter == self.clock.num_periods && self.clock.t_ms
            <= 2 * MINUTE_MS {
            self.defense.stat.fouls_last_two_minutes = sat_add_u32_exec(
                self.defense.stat.fouls_last_two_minutes,
                1,
            );
        }
        let id = self.defense.player[i].id;
        self.log(
            if bonus {
                PlayType::PfBonus
            } else {
                PlayType::PfNonShooting
            },
            false,
            id,
            id,
        );
    }

    /// `attempts` free throws by the offensive player in `slot`, each made
    /// with the shooter's free-throw probability.
    pub fn do_ft(&mut self, slot: usize, attempts: u32)
        requires
            old(self).wf(),
            slot < old(self).offense.on_court.len(),
        ensures
            final(self).resolves(old(self)),
            final(self).defense.stat == old(self).defense.stat,
            final(self).defense.player@ == old(self).defense.player@,
            counters_kept(old(self).offense.player@, final(self).offense.player@, StatField::Fga),
            counters_kept(old(self).offense.player@, final(self).offense.player@, StatField::Tov),
            counters_kept(old(self).offense.player@, final(self).offense.player@, StatField::Pf),
            old(self).offense.stat.pts <= final(self).offense.stat.pts <= old(self).offense.stat.pts
                + attempts,
            ({
                let i = old(self).offense.on_court@[slot as int] as int;
                let before = old(self).offense.player@[i].stat;
                let after = final(self).offense.player@[i].stat;
                &&& after.fta == sat_add_u32(before.fta, attempts)
                &&& before.ft <= after.ft <= before.ft + attempts
                &&& (old(self).offense.stat.pts + attempts <= u32::MAX && before.ft + attempts
                    <= u32::MAX) ==> final(self).offense.stat.pts - old(self).offense.stat.pts
                    == after.ft - before.ft
                &&& forall|j: int|
                    0 <= j < final(self).offense.player.len() && j != i ==> final(self).offense.player@[j]
                        == old(self).offense.player@[j]
            }),
    {
        let i = self.offense.on_court[slot];
        let id = self.offense.player[i].id;
        let mut k: u32 = 0;
        while k < attempts
            invariant
                self.resolves(old(self)),
                slot < self.offense.on_court.len(),
                i == self.offense.on_court@[slot as int],
                i < self.offense.player.len(),
                self.defense.stat == old(self).defense.stat,
                k <= attempts,
                old(self).offense.stat.pts <= self.offense.stat.pts <= old(self).offense.stat.pts + k,
                i == old(self).offense.on_court@[slot as int],
                self.defense.player@ == old(self).defense.player@,
                counters_kept(old(self).offense.player@, self.offense.player@, StatField::Fga),
                counters_kept(old(self).offense.player@, self.offense.player@, StatField::Tov),
                counters_kept(old(self).offense.player@, self.offense.player@, StatField::Pf),
                self.offense.player@[i as int].stat.fta == sat_add_u32(
                    old(self).offense.player@[i as int].stat.fta,
                    k,
                ),
                old(self).offense.player@[i as int].stat.ft <= self.offense.player@[i as int].stat.ft
                    <= old(self).offense.player@[i as int].stat.ft + k,
                (old(self).offense.stat.pts + attempts <= u32::MAX && old(self).offense.player@[i as int].stat.ft
                    + attempts <= u32::MAX) ==> self.offense.stat.pts - old(self).offense.stat.pts
                    == self.offense.player@[i as int].stat.ft - old(self).offense.player@[i as int].stat.ft,
                forall|j: int|
                    0 <= j < self.offense.player.len() && j != i ==> self.offense.player@[j] == old(self).offense.player@[j],
            decreases attempts - k,
        {
            let rating = self.offense.player[i].composite_rating.get(RatingKind::ShootingFt);
            let p: u64 = if rating as u64 * 1000 > PPM {
                PPM
            } else {
                rating as u64 * 1000
            };
            let ghost s0 = self.offense.player@[i as int].stat;
            let ghost ps0 = self.offense.player@;
            self.offense_stat(i, StatField::Fta);
            assert(counters_kept(ps0, self.offense.player@, StatField::Tov));
            assert(counters_kept(ps0, self.offense.player@, StatField::Pf));
            assert(counters_kept(ps0, self.offense.player@, StatField::Fga));
            assert(stat_value(self.offense.player@[i as int].stat, StatField::Ft) == stat_value(s0, StatField::Ft));
            if draw_ppm(&mut self.rng) < p {
                let ghost s1 = self.offense.player@[i as int].stat;
                self.offense_stat(i, StatField::Ft);
                assert(stat_value(self.offense.player@[i as int].stat, StatField::Fta) == stat_value(s1, StatField::Fta));
                let ghost ps1 = self.offense.player@;
                assert(counters_kept(ps0, ps1, StatField::Tov));
                assert(counters_kept(ps0, ps1, StatField::Pf));
                assert(counters_kept(ps0, ps1, StatField::Fga));
                add_points(&mut self.offense, i, 1);
                assert(counters_kept(ps1, self.offense.player@, StatField::Tov));
                assert(counters_kept(ps1, self.offense.player@, StatField::Pf));
                assert(counters_kept(ps1, self.offense.player@, StatField::Fga));
                self.log(PlayType::Ft, true, id, id);
            } else {
                self.log(PlayType::MissFt, true, id, id);
            }
            k = k + 1;
        }
    }

    /// A field-goal attempt by the offensive player in `slot`: a shot type
    /// picked by the shooter's three-point, at-rim and mid-range ratings; a
    /// make with `shot_probability` against the matching defensive rating,
    /// worth three or two points and assisted (three times in five) by a
    /// teammate picked by passing; a miss rebounded by the offense with
    /// probability ¼ × 2 × its rebounding share, otherwise by the defense.
    pub fn do_shot(&mut self, slot: usize)
        requires
            old(self).wf(),
            slot < old(self).offense.on_court.len(),
        ensures
            final(self).resolves(old(self)),
            final(self).defense.stat == old(self).defense.stat,
            counters_kept(old(self).offense.player@, final(self).offense.player@, StatField::Tov),
            counters_kept(old(self).offense.player@, final(self).offense.player@, StatField::Pf),
            counters_kept(old(self).defense.player@, final(self).defense.player@, StatField::Tov),
            counters_kept(old(self).defense.player@, final(self).defense.player@, StatField::Pf),
            final(self).offense.stat.pts == old(self).offense.stat.pts || final(self).offense.stat.pts
                == sat_add_u32(old(self).offense.stat.pts, 2) || final(self).offense.stat.pts
                == sat_add_u32(old(self).offense.stat.pts, 3),
            ({
                let i = old(self).offense.on_court@[slot as int] as int;
                let before = old(self).offense.player@[i].stat;
                let after = final(self).offense.player@[i].stat;
                &&& after.fga == sat_add_u32(before.fga, 1)
                &&& (after.fg == sat_add_u32(before.fg, 1) && (final(self).offense.stat.pts
                    == sat_add_u32(old(self).offense.stat.pts, 2) || final(self).offense.stat.pts
                    == sat_add_u32(old(self).offense.stat.pts, 3))) || (after.fg == before.fg
                    && final(self).offense.stat.pts == old(self).offense.stat.pts && ((exists|j: int|
                    0 <= j < old(self).offense.player.len() && #[trigger] final(self).offense.player@[j].stat.orb
                        == sat_add_u32(old(self).offense.player@[j].stat.orb, 1)) || (exists|j: int|
                    0 <= j < old(self).defense.player.len() && #[trigger] final(self).defense.player@[j].stat.drb
                        == sat_add_u32(old(self).defense.player@[j].stat.drb, 1))))
            }),
    {
        let i = self.offense.on_court[slot];
        let p = self.offense.player[i];
        let mut types: Vec<u64> = Vec::new();
        types.push(p.composite_rating.get(RatingKind::ShootingThreePointer) as u64);
        types.push(p.composite_rating.get(RatingKind::ShootingAtRim) as u64);
        types.push(p.composite_rating.get(RatingKind::ShootingMidRange) as u64);
        proof {
            lemma_prefix_bound(types@, None, 3, u32::MAX as int);
        }
        let t = pick_player(&types, None, &mut self.rng);
        let shot = if t == 0 {
            ShotType::ThreePointer
        } else if t == 1 {
            ShotType::AtRim
        } else {
            ShotType::MidRange
        };
        let (base, r, d): (u64, u64, u64) = match shot {
            ShotType::ThreePointer => (360_000, types[0], self.defense.composite_rating.get(
                TeamRatingKind::DefensePerimeter,
            )),
            ShotType::AtRim => (620_000, types[1], self.defense.composite_rating.get(
                TeamRatingKind::Blocking,
            )),
            ShotType::MidRange => (420_000, types[2], self.defense.composite_rating.get(
                TeamRatingKind::Defense,
            )),
        };
        let d2: u64 = if d > u64::MAX / 2 {
            u64::MAX / 2
        } else {
            d
        };
        let prob = get_shot_probability(base, r, d2);
        let o_reb = self.offense.composite_rating.get(TeamRatingKind::Rebounding);
        let d_reb = self.defense.composite_rating.get(TeamRatingKind::Rebounding);
        let o_r: u64 = if o_reb > u32::MAX as u64 {
            u32::MAX as u64
        } else {
            o_reb
        };
        let d_r: u64 = if d_reb > u64::MAX / 2 {
            u64::MAX / 2
        } else {
            d_reb
        };
        let orb_prob = get_shot_probability(250_000, o_r, d_r);
        let ghost st0 = self.offense.player@[i as int].stat;
        self.offense_stat(i, StatField::Fga);
        assert(stat_value(self.offense.player@[i as int].stat, StatField::Fga) == sat_add_u32(st0.fga, 1));
        assert(stat_value(self.offense.player@[i as int].stat, StatField::Fg) == st0.fg);
        assert(stat_value(self.offense.player@[i as int].stat, StatField::Orb) == st0.orb);
        if shot == ShotType::ThreePointer {
            self.offense_stat(i, StatField::Tpa);
            assert(stat_value(self.offense.player@[i as int].stat, StatField::Fga) == sat_add_u32(st0.fga, 1));
            assert(stat_value(self.offense.player@[i as int].stat, StatField::Fg) == st0.fg);
            assert(stat_value(self.offense.player@[i as int].stat, StatField::Orb) == st0.orb);
        }
        let ghost pts0 = self.offense.stat.pts;
        assert(pts0 == old(self).offense.stat.pts);
        let id = p.id;
        let make_draw = draw_ppm(&mut self.rng);
        let has_teammate = self.offense.on_court.len() > 1;
        let assist_draw = if make_draw < prob && has_teammate {
            draw_ppm(&mut self.rng)
        } else {
            PPM
        };
        let orb_draw = if make_draw >= prob {
            draw_ppm(&mut self.rng)
        } else {
            PPM
        };
        let decision = decide_shot(
            shot == ShotType::ThreePointer,
            prob,
            make_draw,
            has_teammate,
            assist_draw,
            orb_prob,
            orb_draw,
        );
        if decision.made {
            self.offense_stat(i, StatField::Fg);
            assert(stat_value(self.offense.player@[i as int].stat, StatField::Fga) == sat_add_u32(st0.fga, 1));
            assert(stat_value(self.offense.player@[i as int].stat, StatField::Fg) == sat_add_u32(st0.fg, 1));
            let pts: u32 = decision.points;
            if shot == ShotType::ThreePointer {
                self.offense_stat(i, StatField::Tp);
                assert(stat_value(self.offense.player@[i as int].stat, StatField::Fga) == sat_add_u32(st0.fga, 1));
                assert(stat_value(self.offense.player@[i as int].stat, StatField::Fg) == sat_add_u32(st0.fg, 1));
            }
            add_points(&mut self.offense, i, pts);
            self.log(
                match shot {
                    ShotType::ThreePointer => PlayType::MadeTp,
                    ShotType::AtRim => PlayType::MadeAtRim,
                    ShotType::MidRange => PlayType::MadeMidRange,
                },
                true,
                id,
                id,
            );
            if decision.assisted {
                let ps = pick_on_court(&self.offense, RatingKind::Passing, Some(slot), &mut self.rng);
                if ps != slot {
                    let a = self.offense.on_court[ps];
                    assert(a != i) by {
                        assert(self.offense.on_court@.no_duplicates());
                    }
                    self.offense_stat(a, StatField::Ast);
                    let aid = self.offense.player[a].id;
                    self.log(PlayType::Ast, true, aid, id);
                }
            }
        } else {
            self.log(
                match shot {
                    ShotType::ThreePointer => PlayType::MissTp,
                    ShotType::AtRim => PlayType::MissAtRim,
                    ShotType::MidRange => PlayType::MissMidRange,
                },
                true,
                id,
                id,
            );
            if decision.offensive_rebound {
                let rs = pick_on_court(&self.offense, RatingKind::Rebounding, None, &mut self.rng);
                let ri = self.offense.on_court[rs];
                let ghost sr = self.offense.player@[ri as int].stat;
                assert(st0 == old(self).offense.player@[i as int].stat);
                assert(sr.orb == old(self).offense.player@[ri as int].stat.orb);
                self.offense_stat(ri, StatField::Orb);
                assert(stat_value(self.offense.player@[ri as int].stat, StatField::Orb) == sat_add_u32(sr.orb, 1));
                assert(stat_value(self.offense.player@[i as int].stat, StatField::Fga) == sat_add_u32(st0.fga, 1));
                assert(stat_value(self.offense.player@[i as int].stat, StatField::Fg) == st0.fg);
                let rid = self.offense.player[ri].id;
                self.log(PlayType::Orb, true, rid, rid);
            } else {
                let rs = pick_on_court(&self.defense, RatingKind::Rebounding, None, &mut self.rng);
                let ri = self.defense.on_court[rs];
                let ghost sr = self.defense.player@[ri as int].stat;
                assert(sr.drb == old(self).defense.player@[ri as int].stat.drb);
                self.defense_stat(ri, StatField::Drb);
                assert(stat_value(self.defense.player@[ri as int].stat, StatField::Drb) == sat_add_u32(sr.drb, 1));
                let rid = self.defense.player[ri].id;
                self.log(PlayType::Drb, false, rid, rid);
            }
        }
    }
}

impl GameSim {
    /// Resolves one possession of `len_ms` by the state machine: the three
    /// uniform draws it is decided on are made here, and the outcome is the
    /// one `possession_outcome` gives for them, the current ratings and the
    /// fouls to the bonus. Only a shot or free throws change the score.
    pub fn get_possession_outcome(&mut self, len_ms: u64, intentional_foul: bool) -> (r: PossessionOutcome)
        requires
            old(self).wf(),
        ensures
            final(self).resolves(old(self)),
            exists|d1: u64, d2: u64, d3: u64|
                d1 < PPM && d2 < PPM && d3 < PPM && r == #[trigger] possession_outcome(
                    old(self).clock,
                    old(self).offense.stat.pts as i64,
                    old(self).defense.stat.pts as i64,
                    len_ms,
                    crate::outcome::tov_probability(
                        old(self).config.turnover_factor,
                        old(self).defense.composite_rating.value(TeamRatingKind::Defense),
                        old(self).offense.composite_rating.value(TeamRatingKind::Dribbling),
                        old(self).offense.composite_rating.value(TeamRatingKind::Passing),
                    ) as u64,
                    crate::outcome::foul_probability(old(self).config.foul_rate_factor) as u64,
                    intentional_foul,
                    crate::rules::fouls_until_bonus(
                        old(self).clock,
                        old(self).config.fouls_until_bonus,
                        old(self).defense.stat.fouls_this_quarter,
                        old(self).defense.stat.fouls_last_two_minutes,
                    ) as i64,
                    d1,
                    d2,
                    d3,
                ),
            r == PossessionOutcome::EndOfQuarter || r == PossessionOutcome::Turnover || r
                == PossessionOutcome::NonShootingFoul ==> final(self).offense.stat.pts == old(self).offense.stat.pts && final(self).defense.stat.pts == old(self).defense.stat.pts,
            r == PossessionOutcome::EndOfQuarter ==> final(self).offense.player@ == old(self).offense.player@ && final(self).defense.player@ == old(self).defense.player@,
            final(self).defense.stat.pts == old(self).defense.stat.pts,
            r == PossessionOutcome::EndOfQuarter ==> final(self).offense.stat == old(self).offense.stat
                && final(self).defense.stat == old(self).defense.stat && final(self).play_by_play
                == old(self).play_by_play,
            r == PossessionOutcome::Turnover ==> final(self).offense.stat == old(self).offense.stat
                && final(self).defense.stat == old(self).defense.stat && final(self).defense.player@
                == old(self).defense.player@ && exists|i: int|
                #![trigger old(self).offense.player@[i]]
                0 <= i < old(self).offense.player.len() && old(self).offense.on_court@.contains(
                    i as usize,
                ) && final(self).offense.player@[i].stat == bumped(
                    old(self).offense.player@[i].stat,
                    StatField::Tov,
                ) && forall|j: int|
                    0 <= j < old(self).offense.player.len() && j != i ==> final(self).offense.player@[j]
                        == old(self).offense.player@[j],
            r == PossessionOutcome::NonShootingFoul || r == PossessionOutcome::FreeThrows ==> final(self).defense.stat.fouls_this_quarter == sat_add_u32(old(self).defense.stat.fouls_this_quarter, 1)
                && exists|i: int|
                #![trigger old(self).defense.player@[i]]
                0 <= i < old(self).defense.player.len() && old(self).defense.on_court@.contains(
                    i as usize,
                ) && final(self).defense.player@[i].stat == bumped(
                    old(self).defense.player@[i].stat,
                    StatField::Pf,
                ) && forall|j: int|
                    0 <= j < old(self).defense.player.len() && j != i ==> final(self).defense.player@[j]
                        == old(self).defense.player@[j],
            r == PossessionOutcome::NonShootingFoul ==> final(self).offense.player@ == old(self).offense.player@ && final(self).offense.stat == old(self).offense.stat,
            r == PossessionOutcome::FreeThrows ==> exists|k: int|
                0 <= k < old(self).offense.on_court.len() && (#[trigger] final(self).offense.player@[old(self).offense.on_court@[k] as int]).stat.fta == sat_add_u32(
                    old(self).offense.player@[old(self).offense.on_court@[k] as int].stat.fta,
                    2,
                ),
            r == PossessionOutcome::FreeThrows ==> counters_kept(old(self).offense.player@, final(self).offense.player@, StatField::Fga)
                && counters_kept(old(self).offense.player@, final(self).offense.player@, StatField::Tov)
                && counters_kept(old(self).offense.player@, final(self).offense.player@, StatField::Pf),
            r == PossessionOutcome::Shot ==> counters_kept(old(self).offense.player@, final(self).offense.player@, StatField::Tov)
                && counters_kept(old(self).offense.player@, final(self).offense.player@, StatField::Pf)
                && counters_kept(old(self).defense.player@, final(self).defense.player@, StatField::Tov)
                && counters_kept(old(self).defense.player@, final(self).defense.player@, StatField::Pf),
            r == PossessionOutcome::Shot ==> final(self).defense.stat == old(self).defense.stat
                && exists|k: int|
                0 <= k < old(self).offense.on_court.len() && (#[trigger] final(self).offense.player@[old(self).offense.on_court@[k] as int]).stat.fga == sat_add_u32(
                    old(self).offense.player@[old(self).offense.on_court@[k] as int].stat.fga,
                    1,
                ),
            r == PossessionOutcome::FreeThrows ==> old(self).offense.stat.pts
                <= final(self).offense.stat.pts <= old(self).offense.stat.pts + 2,
            r == PossessionOutcome::Shot ==> final(self).offense.stat.pts == old(self).offense.stat.pts
                || final(self).offense.stat.pts == sat_add_u32(old(self).offense.stat.pts, 2)
                || final(self).offense.stat.pts == sat_add_u32(old(self).offense.stat.pts, 3),
    {
        let p_tov = prob_tov(
            self.config.turnover_factor,
            self.defense.composite_rating.get(TeamRatingKind::Defense),
            self.offense.composite_rating.get(TeamRatingKind::Dribbling),
            self.offense.composite_rating.get(TeamRatingKind::Passing),
        );
        let p_foul = prob_foul(self.config.foul_rate_factor);
        let until = get_num_fouls_until_bonus(
            &self.clock,
            &self.config.fouls_until_bonus,
            self.defense.stat.fouls_this_quarter,
            self.defense.stat.fouls_last_two_minutes,
        );
        let end_with_lead = self.clock.t_ms <= 0 && self.clock.quarter >= self.clock.num_periods
            && self.offense.stat.pts > self.defense.stat.pts && !self.clock.elam_active;
        let at_buzzer = self.clock.t_ms <= 0 && len_ms < crate::outcome::BUZZER_WINDOW_MS
            && !self.clock.elam_active;
        // Draws are made only where a rule reads them.
        let d1 = if !end_with_lead && at_buzzer {
            draw_ppm(&mut self.rng)
        } else {
            0
        };
        let early = decide_possession(
            &self.clock,
            self.offense.stat.pts as i64,
            self.defense.stat.pts as i64,
            len_ms,
            0,
            0,
            false,
            until,
            d1,
            0,
            0,
        );
        let d2 = if early == PossessionOutcome::EndOfQuarter {
            0
        } else {
            draw_ppm(&mut self.rng)
        };
        let d3 = if early == PossessionOutcome::EndOfQuarter || d2 < p_tov || intentional_foul {
            0
        } else {
            draw_ppm(&mut self.rng)
        };
        let outcome = decide_possession(
            &self.clock,
            self.offense.stat.pts as i64,
            self.defense.stat.pts as i64,
            len_ms,
            p_tov,
            p_foul,
            intentional_foul,
            until,
            d1,
            d2,
            d3,
        );
        match outcome {
            PossessionOutcome::EndOfQuarter => {
                proof {
                    crate::play::lemma_extends_refl(self.play_by_play);
                }
            },
            PossessionOutcome::Turnover => self.do_tov(),
            PossessionOutcome::NonShootingFoul => self.do_pf(false),
            PossessionOutcome::FreeThrows => {
                let shooter = pick_on_court(&self.offense, RatingKind::Usage, None, &mut self.rng);
                self.do_pf(true);
                self.do_ft(shooter, 2);
            },
            PossessionOutcome::Shot => {
                let shooter = pick_on_court(&self.offense, RatingKind::Usage, None, &mut self.rng);
                self.do_shot(shooter);
            },
        }
        proof {
            assert(outcome == possession_outcome(
                old(self).clock,
                old(self).offense.stat.pts as i64,
                old(self).defense.stat.pts as i64,
                len_ms,
                crate::outcome::tov_probability(
                    old(self).config.turnover_factor,
                    old(self).defense.composite_rating.value(TeamRatingKind::Defense),
                    old(self).offense.composite_rating.value(TeamRatingKind::Dribbling),
                    old(self).offense.composite_rating.value(TeamRatingKind::Passing),
                ) as u64,
                crate::outcome::foul_probability(old(self).config.foul_rate_factor) as u64,
                intentional_foul,
                crate::rules::fouls_until_bonus(
                    old(self).clock,
                    old(self).config.fouls_until_bonus,
                    old(self).defense.stat.fouls_this_quarter,
                    old(self).defense.stat.fouls_last_two_minutes,
                ) as i64,
                d1,
                d2,
                d3,
            ));
        }
        outcome
    }

    /// Length of the next possession: around the average a pace implies
    /// (regulation time ÷ (2 × pace), at least two seconds), drawn uniformly
    /// from half to one and a half times it.
    fn possession_length(&mut self) -> (len: u64)
        requires
            old(self).wf(),
        ensures
            1000 <= len <= MAX_POSSESSION_MS,
            final(self).possessions == old(self).possessions,
            final(self).offense == old(self).offense,
            final(self).defense == old(self).defense,
            final(self).clock == old(self).clock,
            final(self).same_setup(old(self)),
            final(self).play_by_play == old(self).play_by_play,
            final(self).starters_recorded == old(self).starters_recorded,
    {
        proof {
            assert(self.config.num_periods as u64 * self.config.quarter_length_ms as u64
                <= 0xffff_ffff * 0xffff_ffff) by (nonlinear_arith)
                requires
                    self.config.num_periods <= 0xffff_ffff,
                    self.config.quarter_length_ms <= 0xffff_ffff,
            ;
        }
        let total: u64 = self.config.num_periods as u64 * self.config.quarter_length_ms as u64;
        let avg0: u64 = total / (2 * self.config.pace as u64);
        let avg: u64 = if avg0 < 2000 {
            2000
        } else if avg0 > MAX_POSSESSION_MS {
            MAX_POSSESSION_MS
        } else {
            avg0
        };
        let len = avg / 2 + draw_below(&mut self.rng, avg);
        if len > MAX_POSSESSION_MS {
            MAX_POSSESSION_MS
        } else {
            len
        }
    }

    /// Plays one possession: the clock runs (a possession never outlasts the
    /// period; in an elam ending the clock is off), the rotation is updated,
    /// ratings are recomputed, the outcome is resolved, and, unless the
    /// period ended, playing time and energy are updated, injuries checked
    /// and possession changes hands.
    pub fn sim_possession(&mut self) -> (r: PossessionOutcome)
        requires
            old(self).wf(),
            old(self).clock.t_ms > 0 || old(self).clock.elam_active,
        ensures
            final(self).wf(),
            final(self).same_setup(old(self)),
            !old(self).clock.elam_active ==> 0 <= final(self).clock.t_ms < old(self).clock.t_ms,
            old(self).clock.elam_active ==> final(self).clock == old(self).clock,
            old(self).clock.elam_active ==> r != PossessionOutcome::EndOfQuarter,
            r == PossessionOutcome::EndOfQuarter ==> final(self).clock.t_ms == 0
                && final(self).offense.id == old(self).offense.id && final(self).defense.id == old(self).defense.id,
            r != PossessionOutcome::EndOfQuarter ==> final(self).offense.id == old(self).defense.id
                && final(self).defense.id == old(self).offense.id,
            final(self).clock.quarter == old(self).clock.quarter,
            final(self).clock.overtimes == old(self).clock.overtimes,
            final(self).clock.elam_active == old(self).clock.elam_active,
            final(self).clock.elam_target == old(self).clock.elam_target,
            final(self).possessions == if old(self).possessions == u64::MAX { u64::MAX } else { (old(self).possessions + 1) as u64 },
            log_extends(old(self).play_by_play, final(self).play_by_play),
    {
        let len0 = self.possession_length();
        let len: u64 = if !self.clock.elam_active && len0 as i64 >= self.clock.t_ms {
            self.clock.t_ms as u64
        } else {
            len0
        };
        if !self.clock.elam_active {
            self.clock.t_ms = self.clock.t_ms - len as i64;
        }
        if self.possessions < u64::MAX {
            self.possessions = self.possessions + 1;
        }
        self.prepare_possession();
        let outcome = self.resolve_possession(len);
        if outcome == PossessionOutcome::EndOfQuarter {
            self.clock.t_ms = 0;
        } else {
            self.finish_possession(len);
        }
        outcome
    }

    /// The phases before a possession: the rotation pass and fresh ratings.
    #[verifier::rlimit(100)]
    fn prepare_possession(&mut self)
        requires
            old(self).wf(),
        ensures
            final(self).wf(),
            final(self).same_setup(old(self)),
            final(self).clock == old(self).clock,
            final(self).possessions == old(self).possessions,
            final(self).offense.id == old(self).offense.id,
            final(self).defense.id == old(self).defense.id,
            log_extends(old(self).play_by_play, final(self).play_by_play),
    {
        self.update_players_on_court();
        self.refresh_ratings();
    }

    /// The outcome of a possession that is not an intentional foul.
    fn resolve_possession(&mut self, len: u64) -> (r: PossessionOutcome)
        requires
            old(self).wf(),
        ensures
            final(self).wf(),
            final(self).same_setup(old(self)),
            final(self).clock == old(self).clock,
            final(self).possessions == old(self).possessions,
            final(self).offense.id == old(self).offense.id,
            final(self).defense.id == old(self).defense.id,
            old(self).clock.elam_active ==> r != PossessionOutcome::EndOfQuarter,
            log_extends(old(self).play_by_play, final(self).play_by_play),
    {
        self.get_possession_outcome(len, false)
    }

    /// The phases after a possession that did not end the period: playing
    /// time and energy for everyone, the injury check, and the change of
    /// possession.
    fn finish_possession(&mut self, len: u64)
        requires
            old(self).wf(),
        ensures
            final(self).wf(),
            final(self).same_setup(old(self)),
            final(self).clock == old(self).clock,
            final(self).possessions == old(self).possessions,
            final(self).offense.id == old(self).defense.id,
            final(self).defense.id == old(self).offense.id,
            log_extends(old(self).play_by_play, final(self).play_by_play),
    {
        let ff = self.config.fatigue_factor;
        update_playing_time(&mut self.offense, len, ff);
        update_playing_time(&mut self.defense, len, ff);
        self.injuries();
        core::mem::swap(&mut self.offense, &mut self.defense);
    }

    /// Opens a period of `length_ms`: the clock is reset, each team
    /// starts the period's scoring at zero and its period fouls at zero.
    fn start_period(&mut self, length_ms: u32)
        requires
            old(self).wf(),
            length_ms > 0,
        ensures
            final(self).wf(),
            final(self).same_setup(old(self)),
            final(self).clock == (ClockState { t_ms: length_ms as i64, ..old(self).clock }),
            final(self).offense.stat.pts == old(self).offense.stat.pts,
            final(self).defense.stat.pts == old(self).defense.stat.pts,
            final(self).play_by_play == old(self).play_by_play,
            final(self).possessions == old(self).possessions,
    {
        self.clock.t_ms = length_ms as i64;
        self.offense.stat.pts_qtrs.push(0);
        self.defense.stat.pts_qtrs.push(0);
        self.offense.stat.fouls_this_quarter = 0;
        self.defense.stat.fouls_this_quarter = 0;
        self.offense.stat.fouls_last_two_minutes = 0;
        self.defense.stat.fouls_last_two_minutes = 0;
    }

    /// The higher of the two scores.
    pub open spec fn lead_score(&self) -> int {
        if self.offense.stat.pts >= self.defense.stat.pts {
            self.offense.stat.pts as int
        } else {
            self.defense.stat.pts as int
        }
    }

    /// The elam ending is due: it is configured, the final regulation period
    /// is being played and its clock is within the configured minutes.
    pub open spec fn elam_due(&self) -> bool {
        self.config.elam && !self.clock.elam_active && self.clock.overtimes == 0 && self.clock.quarter
            == self.clock.num_periods && self.clock.t_ms <= self.config.elam_minutes as int * MINUTE_MS
    }

    /// Plays the current period: possessions until the clock runs out, or,
    /// once an elam ending starts (the target set at the leading score plus
    /// the configured points), until a team reaches the target.
    fn play_period(&mut self)
        requires
            old(self).wf(),
            !old(self).clock.elam_active,
        ensures
            final(self).wf(),
            final(self).same_setup(old(self)),
            final(self).clock.quarter == old(self).clock.quarter,
            final(self).clock.overtimes == old(self).clock.overtimes,
            !final(self).clock.elam_active ==> final(self).clock.t_ms <= 0,
            final(self).clock.elam_active ==> final(self).lead_score() >= final(self).clock.elam_target
                || final(self).possessions == u64::MAX,
            final(self).clock.elam_active ==> final(self).clock.quarter == final(self).clock.num_periods
                && final(self).clock.overtimes == 0,
            log_extends(old(self).play_by_play, final(self).play_by_play),
    {
        proof {
            crate::play::lemma_extends_refl(self.play_by_play);
        }
        while self.clock.t_ms > 0 && !self.clock.elam_active
            invariant
                self.wf(),
                self.same_setup(old(self)),
                self.clock.quarter == old(self).clock.quarter,
                self.clock.overtimes == old(self).clock.overtimes,
                self.clock.elam_active ==> self.clock.quarter == self.clock.num_periods
                    && self.clock.overtimes == 0,
                log_extends(old(self).play_by_play, self.play_by_play),
            decreases (if self.clock.t_ms > 0 { self.clock.t_ms as int } else { 0int }) * 2 + (if self.clock.elam_active { 0int } else { 1int }),
        {
            if self.config.elam && self.clock.overtimes == 0 && self.clock.quarter == self.clock.num_periods
                && self.clock.t_ms <= self.config.elam_minutes as i64 * MINUTE_MS {
                let lead: i64 = if self.offense.stat.pts >= self.defense.stat.pts {
                    self.offense.stat.pts as i64
                } else {
                    self.defense.stat.pts as i64
                };
                self.clock.elam_active = true;
                self.clock.elam_target = lead + self.config.elam_points as i64;
            } else {
                self.sim_possession();
            }
        }
        if self.clock.elam_active {
            while self.possessions < u64::MAX && (self.offense.stat.pts as i64) < self.clock.elam_target
                && (self.defense.stat.pts as i64) < self.clock.elam_target
                invariant
                    self.wf(),
                    self.clock.elam_active,
                    self.same_setup(old(self)),
                    self.clock.quarter == old(self).clock.quarter,
                    self.clock.overtimes == old(self).clock.overtimes,
                    self.clock.quarter == self.clock.num_periods && self.clock.overtimes == 0,
                    log_extends(old(self).play_by_play, self.play_by_play),
                decreases u64::MAX - self.possessions,
            {
                self.sim_possession();
            }
        }
    }

    /// Plays the game to its end: every regulation period (the last one
    /// possibly to an elam target), then, without an elam ending, overtime
    /// periods while the score is tied.
    pub fn run(&mut self)
        requires
            old(self).wf(),
            old(self).clock.quarter == 1,
            old(self).clock.overtimes == 0,
            !old(self).clock.elam_active,
            old(self).clock.num_periods == old(self).config.num_periods,
        ensures
            final(self).wf(),
            final(self).same_setup(old(self)),
            log_extends(old(self).play_by_play, final(self).play_by_play),
            final(self).clock.quarter == final(self).clock.num_periods + final(self).clock.overtimes,
            !final(self).clock.elam_active ==> final(self).clock.t_ms <= 0,
            final(self).clock.elam_active ==> final(self).clock.overtimes == 0 && (final(self).lead_score()
                >= final(self).clock.elam_target || final(self).possessions == u64::MAX),
            !final(self).clock.elam_active ==> final(self).offense.stat.pts != final(self).defense.stat.pts
                || final(self).clock.quarter == u32::MAX,
    {
        self.play_period();
        while self.clock.quarter < self.clock.num_periods && !self.clock.elam_active
            invariant
                self.wf(),
                self.same_setup(old(self)),
                self.clock.overtimes == 0,
                1 <= self.clock.quarter <= self.clock.num_periods,
                !self.clock.elam_active ==> self.clock.t_ms <= 0,
                self.clock.elam_active ==> self.clock.quarter == self.clock.num_periods
                    && (self.lead_score() >= self.clock.elam_target || self.possessions == u64::MAX),
                log_extends(old(self).play_by_play, self.play_by_play),
            decreases self.clock.num_periods - self.clock.quarter,
        {
            self.clock.quarter = self.clock.quarter + 1;
            let ql = self.config.quarter_length_ms;
            self.start_period(ql);
            self.play_period();
        }
        while !self.clock.elam_active && self.offense.stat.pts == self.defense.stat.pts
            && self.clock.quarter < u32::MAX
            invariant
                self.wf(),
                self.same_setup(old(self)),
                self.clock.quarter == self.clock.num_periods + self.clock.overtimes,
                !self.clock.elam_active ==> self.clock.t_ms <= 0,
                self.clock.elam_active ==> self.clock.overtimes == 0
                    && (self.lead_score() >= self.clock.elam_target || self.possessions == u64::MAX),
                log_extends(old(self).play_by_play, self.play_by_play),
            decreases u32::MAX - self.clock.quarter,
        {
            self.clock.overtimes = self.clock.overtimes + 1;
            self.clock.quarter = self.clock.quarter + 1;
            self.start_period(OVERTIME_LENGTH_MS);
            self.play_period();
        }
    }
}

} // verus!
