//! Players, teams and their rating records. Ratings, energy and multipliers
//! are in thousandths; clock quantities in milliseconds.
use vstd::prelude::*;

verus! {

/// The position tags a player carries.
#[derive(Clone, Copy, Debug, PartialEq, Eq)]
pub struct Position {
    pub guard: bool,
    pub point_guard: bool,
    pub forward: bool,
    pub center: bool,
}

/// Per-game counters of one player.
#[derive(Clone, Copy, Debug, PartialEq, Eq)]
pub struct Stat {
    pub ast: u32,
    pub blk: u32,
    pub drb: u32,
    pub fg: u32,
    pub fga: u32,
    pub ft: u32,
    pub fta: u32,
    pub orb: u32,
    pub pf: u32,
    pub pts: u32,
    pub stl: u32,
    pub tov: u32,
    pub tp: u32,
    pub tpa: u32,
    /// Started the game.
    pub gs: bool,
    pub min_ms: u64,
    pub court_time_ms: i64,
    pub bench_time_ms: i64,
    /// Thousandths of a full tank, at most one thousand.
    pub energy: u64,
}

impl Stat {
    /// Fresh counters of a rested player who has not played.
    pub fn new() -> (r: Stat)
        ensures
            r.energy == 1000,
            r.pf == 0 && r.pts == 0 && r.min_ms == 0 && !r.gs,
            r.court_time_ms == 0 && r.bench_time_ms == 0,
    {
        Stat {
            ast: 0,
            blk: 0,
            drb: 0,
            fg: 0,
            fga: 0,
            ft: 0,
            fta: 0,
            orb: 0,
            pf: 0,
            pts: 0,
            stl: 0,
            tov: 0,
            tp: 0,
            tpa: 0,
            gs: false,
            min_ms: 0,
            court_time_ms: 0,
            bench_time_ms: 0,
            energy: 1000,
        }
    }
}

/// The closed set of rating kinds a player is described by.
#[derive(Clone, Copy, Debug, PartialEq, Eq, Structural)]
pub enum RatingKind {
    Dribbling,
    Passing,
    Rebounding,
    Defense,
    DefensePerimeter,
    Blocking,
    Endurance,
    ShootingThreePointer,
    ShootingAtRim,
    ShootingMidRange,
    ShootingLowPost,
    ShootingFt,
    Athleticism,
    DefenseInterior,
    Usage,
    Turnovers,
}

/// A player's composite ratings, one slot per kind, in thousandths.
#[derive(Clone, Copy, Debug, PartialEq, Eq)]
pub struct PlayerCompositeRating {
    pub ratings: [u32; 16],
}

pub open spec fn kind_index(k: RatingKind) -> int {
    match k {
        RatingKind::Dribbling => 0,
        RatingKind::Passing => 1,
        RatingKind::Rebounding => 2,
        RatingKind::Defense => 3,
        RatingKind::DefensePerimeter => 4,
        RatingKind::Blocking => 5,
        RatingKind::Endurance => 6,
        RatingKind::ShootingThreePointer => 7,
        RatingKind::ShootingAtRim => 8,
        RatingKind::ShootingMidRange => 9,
        RatingKind::ShootingLowPost => 10,
        RatingKind::ShootingFt => 11,
        RatingKind::Athleticism => 12,
        RatingKind::DefenseInterior => 13,
        RatingKind::Usage => 14,
        RatingKind::Turnovers => 15,
    }
}

fn kind_slot(k: RatingKind) -> (r: usize)
    ensures
        r == kind_index(k),
        r < 16,
{
    match k {
        RatingKind::Dribbling => 0,
        RatingKind::Passing => 1,
        RatingKind::Rebounding => 2,
        RatingKind::Defense => 3,
        RatingKind::DefensePerimeter => 4,
        RatingKind::Blocking => 5,
        RatingKind::Endurance => 6,
        RatingKind::ShootingThreePointer => 7,
        RatingKind::ShootingAtRim => 8,
        RatingKind::ShootingMidRange => 9,
        RatingKind::ShootingLowPost => 10,
        RatingKind::ShootingFt => 11,
        RatingKind::Athleticism => 12,
        RatingKind::DefenseInterior => 13,
        RatingKind::Usage => 14,
        RatingKind::Turnovers => 15,
    }
}

impl PlayerCompositeRating {
    pub open spec fn value(&self, k: RatingKind) -> u32 {
        self.ratings[kind_index(k)]
    }

    /// Every rating at the same value.
    pub fn uniform(v: u32) -> (r: PlayerCompositeRating)
        ensures
            forall|k: RatingKind| #[trigger] r.value(k) == v,
    {
        PlayerCompositeRating { ratings: [v; 16] }
    }

    pub fn insert(&mut self, k: RatingKind, v: u32)
        ensures
            final(self).value(k) == v,
            forall|j: RatingKind| j != k ==> #[trigger] final(self).value(j) == old(self).value(j),
    {
        let i = kind_slot(k);
        self.ratings[i] = v;
        proof {
            assert forall|j: RatingKind| j != k implies #[trigger] self.value(j) == old(
                self,
            ).value(j) by {
                assert(kind_index(j) != kind_index(k));
            }
        }
    }

    /// Adds `v` to a rating, saturating at the largest value.
    pub fn add(&mut self, k: RatingKind, v: u32)
        ensures
            final(self).value(k) == (if old(self).value(k) + v > u32::MAX {
                u32::MAX as int
            } else {
                old(self).value(k) + v
            }),
            forall|j: RatingKind| j != k ==> #[trigger] final(self).value(j) == old(self).value(j),
    {
        let cur = self.get(k);
        let sum: u32 = if cur as u64 + v as u64 > u32::MAX as u64 {
            u32::MAX
        } else {
            cur + v
        };
        self.insert(k, sum);
    }

    pub fn get(&self, k: RatingKind) -> (r: u32)
        ensures
            r == self.value(k),
    {
        self.ratings[kind_slot(k)]
    }
}

/// The six team ratings the outcome engine reads.
#[derive(Clone, Copy, Debug, PartialEq, Eq, Structural)]
pub enum TeamRatingKind {
    Dribbling,
    Passing,
    Rebounding,
    Defense,
    DefensePerimeter,
    Blocking,
}

pub open spec fn team_kind_index(k: TeamRatingKind) -> int {
    match k {
        TeamRatingKind::Dribbling => 0,
        TeamRatingKind::Passing => 1,
        TeamRatingKind::Rebounding => 2,
        TeamRatingKind::Defense => 3,
        TeamRatingKind::DefensePerimeter => 4,
        TeamRatingKind::Blocking => 5,
    }
}

/// A team's composite ratings, in thousandths.
#[derive(Clone, Copy, Debug, PartialEq, Eq)]
pub struct TeamCompositeRating {
    pub ratings: [u64; 6],
}

impl TeamCompositeRating {
    pub open spec fn value(&self, k: TeamRatingKind) -> u64 {
        self.ratings[team_kind_index(k)]
    }

    pub fn new() -> (r: TeamCompositeRating)
        ensures
            forall|k: TeamRatingKind| #[trigger] r.value(k) == 0,
    {
        TeamCompositeRating { ratings: [0; 6] }
    }

    pub fn get(&self, k: TeamRatingKind) -> (r: u64)
        ensures
            r == self.value(k),
    {
        let i: usize = match k {
            TeamRatingKind::Dribbling => 0,
            TeamRatingKind::Passing => 1,
            TeamRatingKind::Rebounding => 2,
            TeamRatingKind::Defense => 3,
            TeamRatingKind::DefensePerimeter => 4,
            TeamRatingKind::Blocking => 5,
        };
        self.ratings[i]
    }
}

/// Team-level multipliers from the skills on court, in thousandths.
#[derive(Clone, Copy, Debug, PartialEq, Eq)]
pub struct Synergy {
    pub off: u64,
    pub def: u64,
    pub reb: u64,
}

/// One player as the simulation sees them.
#[derive(Clone, Copy, Debug, PartialEq, Eq)]
pub struct PlayerGameSim {
    pub id: u64,
    pub age: u32,
    pub pos: Position,
    /// Base overall value, in thousandths.
    pub value_no_pot: u32,
    pub stat: Stat,
    pub composite_rating: PlayerCompositeRating,
    pub injured: bool,
    pub new_injury: bool,
    pub playing_through_injury: bool,
    /// Playing-time preference, in thousandths.
    pub pt_modifier: u32,
}

#[derive(Debug)]
pub struct TeamStat {
    pub pts: u32,
    /// Fouls committed in the current period.
    pub fouls_this_quarter: u32,
    /// Fouls committed in the last two minutes of regulation.
    pub fouls_last_two_minutes: u32,
    /// Points scored in each period begun so far.
    pub pts_qtrs: Vec<u32>,
}

/// One team: its roster, the indexes of the roster now on court, and what is
/// derived from them each possession.
#[derive(Debug)]
pub struct TeamGameSim {
    pub id: u64,
    pub stat: TeamStat,
    pub composite_rating: TeamCompositeRating,
    pub player: Vec<PlayerGameSim>,
    pub synergy: Synergy,
    pub on_court: Vec<usize>,
}

impl TeamStat {
    pub fn new() -> (r: TeamStat)
        ensures
            r.pts == 0 && r.fouls_this_quarter == 0 && r.fouls_last_two_minutes == 0,
            r.pts_qtrs@ == Seq::<u32>::empty(),
    {
        TeamStat { pts: 0, fouls_this_quarter: 0, fouls_last_two_minutes: 0, pts_qtrs: Vec::new() }
    }
}

/// A lineup of exactly `n_on_court` distinct roster indexes.
pub open spec fn lineup_ok(lineup: Seq<usize>, n_players: int, n_on_court: int) -> bool {
    &&& lineup.len() == n_on_court
    &&& lineup.no_duplicates()
    &&& forall|k: int| 0 <= k < lineup.len() ==> lineup[k] < n_players
}

/// Every player's energy lies in `[0, 1000]`.
pub open spec fn energies_ok(players: Seq<PlayerGameSim>) -> bool {
    forall|i: int| 0 <= i < players.len() ==> #[trigger] players[i].stat.energy <= 1000
}

impl TeamGameSim {
    /// The team is consistent for a lineup size of `n_on_court`.
    pub open spec fn wf(&self, n_on_court: int) -> bool {
        &&& 0 < n_on_court <= self.player.len()
        &&& lineup_ok(self.on_court@, self.player.len() as int, n_on_court)
        &&& energies_ok(self.player@)
    }
}

} // verus!
