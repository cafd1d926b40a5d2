//! League configuration and the small records that travel with it.
use vstd::prelude::*;
use vstd::string::StringExecFns;

verus! {

/// Labels of the tiebreakers a standings table may apply.
pub struct TIEBREAKERS {
    pub common_opponents_record: String,
    pub conf_record_if_same: String,
    pub div_record_if_same: String,
    pub div_winner: String,
    pub head_to_head_record: String,
    pub margin_of_victory: String,
    pub strength_of_victory: String,
    pub strength_of_schedule: String,
    pub coin_flip: String,
}

impl TIEBREAKERS {
    pub fn new() -> (r: TIEBREAKERS)
        ensures
            r.common_opponents_record@ == "Common Opponents Record"@,
            r.conf_record_if_same@ == "Conference Record"@,
            r.div_record_if_same@ == "Division Record"@,
            r.div_winner@ == "Division Winner"@,
            r.head_to_head_record@ == "Head-To-Head Record"@,
            r.margin_of_victory@ == "Margin of Victory"@,
            r.strength_of_victory@ == "Strength of Victory"@,
            r.strength_of_schedule@ == "Strength of Schedule"@,
            r.coin_flip@ == "Coin Flip"@,
    {
        TIEBREAKERS {
            common_opponents_record: String::from_str("Common Opponents Record"),
            conf_record_if_same: String::from_str("Conference Record"),
            div_record_if_same: String::from_str("Division Record"),
            div_winner: String::from_str("Division Winner"),
            head_to_head_record: String::from_str("Head-To-Head Record"),
            margin_of_victory: String::from_str("Margin of Victory"),
            strength_of_victory: String::from_str("Strength of Victory"),
            strength_of_schedule: String::from_str("Strength of Schedule"),
            coin_flip: String::from_str("Coin Flip"),
        }
    }
}

pub struct PlayerInjury {
    pub games_remaining: u8,
    pub injury_type: String,
    pub score: Option<u8>,
}

/// The rules one game is played under. Factors are in thousandths; the
/// fatigue factor is energy lost per minute on court at zero endurance.
#[derive(Clone, Copy, Debug, PartialEq, Eq)]
pub struct GameAttributesLeague {
    /// Fouls that remove a player; zero turns fouling out off.
    pub fouls_needed_to_foul_out: u32,
    pub num_players_on_court: u32,
    pub num_periods: u32,
    pub quarter_length_ms: u32,
    pub disable_injuries: bool,
    /// Possessions per team per regulation game.
    pub pace: u32,
    /// Fouls a team may commit before the bonus: in an ordinary period, in
    /// overtime, and in the last two minutes of regulation.
    pub fouls_until_bonus: [u32; 3],
    pub foul_rate_factor: u32,
    pub turnover_factor: u32,
    pub synergy_factor: u32,
    pub fatigue_factor: u32,
    /// Elam ending: the final period is played to a target score.
    pub elam: bool,
    /// Minutes left in the final period when the elam ending starts.
    pub elam_minutes: u32,
    /// Points added to the leading score to set the elam target.
    pub elam_points: u32,
}

/// The rules are complete and usable: a lineup of at least one player and at
/// most a full roster, periods of positive length and a positive pace.
pub open spec fn league_ok(g: GameAttributesLeague) -> bool {
    &&& 0 < g.num_players_on_court <= 64
    &&& g.num_periods > 0
    &&& g.quarter_length_ms > 0
    &&& g.pace > 0
}

impl GameAttributesLeague {
    pub open spec fn spec_default() -> GameAttributesLeague {
        GameAttributesLeague {
            fouls_needed_to_foul_out: 6,
            num_players_on_court: 5,
            num_periods: 4,
            quarter_length_ms: 720_000,
            disable_injuries: false,
            pace: 100,
            fouls_until_bonus: [5, 4, 2],
            foul_rate_factor: 1000,
            turnover_factor: 1000,
            synergy_factor: 100,
            fatigue_factor: 55,
            elam: false,
            elam_minutes: 4,
            elam_points: 8,
        }
    }

    /// The standard rules: six fouls, five a side, four twelve-minute
    /// quarters, a pace of one hundred.
    pub fn new() -> (r: GameAttributesLeague)
        ensures
            r == GameAttributesLeague::spec_default(),
            league_ok(r),
    {
        GameAttributesLeague {
            fouls_needed_to_foul_out: 6,
            num_players_on_court: 5,
            num_periods: 4,
            quarter_length_ms: 720_000,
            disable_injuries: false,
            pace: 100,
            fouls_until_bonus: [5, 4, 2],
            foul_rate_factor: 1000,
            turnover_factor: 1000,
            synergy_factor: 100,
            fatigue_factor: 55,
            elam: false,
            elam_minutes: 4,
            elam_points: 8,
        }
    }

    pub fn is_valid(&self) -> (r: bool)
        ensures
            r == league_ok(*self),
    {
        0 < self.num_players_on_court && self.num_players_on_court <= 64 && self.num_periods > 0
            && self.quarter_length_ms > 0 && self.pace > 0
    }
}

pub struct GameAttributesNonLeague {
    pub lid: Option<u8>,
}

/// A setting and the season from which it holds.
pub struct GameAttributesWithHistory<T> {
    pub start: i32,
    pub value: T,
}

pub struct Conf {
    pub cid: u8,
    pub name: String,
}

pub struct Div {
    pub did: u8,
    pub cid: u8,
    pub name: String,
}

pub struct GameAttributesLeagueWithHistory {
    pub game_attributes_league: GameAttributesLeague,
    pub confs: GameAttributesWithHistory<Vec<Conf>>,
    pub divs: GameAttributesWithHistory<Vec<Div>>,
    pub num_games_playoff_series: Vec<u8>,
    pub num_playoff_byes: u8,
    pub otl: bool,
    pub playoffs_num_teams_div: u8,
    pub points_formula: String,
    pub tiebreakers: String,
    pub ties: bool,
}

pub struct GameAttributes {
    pub non_league: Option<GameAttributesNonLeague>,
    pub league_with_history: Option<GameAttributesLeagueWithHistory>,
}

impl GameAttributes {
    /// Settings outside any league when `no_history` is `Some(true)`;
    /// otherwise a league with the standard rules and no history.
    pub fn new(no_history: Option<bool>) -> (r: GameAttributes)
        ensures
            no_history == Some(true) ==> r.non_league.is_some() && r.league_with_history.is_none(),
            no_history != Some(true) ==> r.non_league.is_none() && r.league_with_history.is_some()
                && r.league_with_history.unwrap().game_attributes_league
                == GameAttributesLeague::spec_default(),
    {
        if no_history == Some(true) {
            GameAttributes {
                non_league: Some(GameAttributesNonLeague { lid: None }),
                league_with_history: None,
            }
        } else {
            GameAttributes {
                non_league: None,
                league_with_history: Some(
                    GameAttributesLeagueWithHistory {
                        game_attributes_league: GameAttributesLeague::new(),
                        confs: GameAttributesWithHistory { start: 0, value: Vec::new() },
                        divs: GameAttributesWithHistory { start: 0, value: Vec::new() },
                        num_games_playoff_series: Vec::new(),
                        num_playoff_byes: 0,
                        otl: false,
                        playoffs_num_teams_div: 0,
                        points_formula: String::new(),
                        tiebreakers: String::new(),
                        ties: false,
                    },
                ),
            }
        }
    }
}

/// Shared settings handed to the simulation.
pub struct G {
    pub game_attributes: GameAttributes,
}

impl G {
    pub fn new(attributes: GameAttributes) -> (r: G)
        ensures
            r.game_attributes == attributes,
    {
        G { game_attributes: attributes }
    }
}

} // verus!
