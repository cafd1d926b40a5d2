use hoops_sim::config::GameAttributesLeague;
use hoops_sim::draws::{draw_ppm, PPM};
use hoops_sim::game::{injure_team, GameSim, SimError};
use hoops_sim::play::{Play, PlayType};
use hoops_sim::playing_time::update_playing_time;
use hoops_sim::rotation::{rotate_team, RotationContext};
use hoops_sim::selection::{get_sorted_indexes, pick_from_draw, pick_player};
use hoops_sim::synergy::update_synergy;
use hoops_sim::team::{
    PlayerCompositeRating, PlayerGameSim, Position, RatingKind, Stat, Synergy,
    TeamCompositeRating, TeamGameSim, TeamStat,
};
use rand::rngs::StdRng;
use rand::SeedableRng;

fn player(id: u64, value: u32, pos: Position) -> PlayerGameSim {
    let mut ratings = PlayerCompositeRating::uniform(600);
    ratings.insert(RatingKind::Endurance, 500);
    PlayerGameSim {
        id,
        age: 27,
        pos,
        value_no_pot: value,
        stat: Stat::new(),
        composite_rating: ratings,
        injured: false,
        new_injury: false,
        playing_through_injury: false,
        pt_modifier: 1000,
    }
}

fn guard() -> Position {
    Position { guard: true, point_guard: false, forward: false, center: false }
}

fn forward() -> Position {
    Position { guard: false, point_guard: false, forward: true, center: false }
}

fn team(id: u64, size: u64) -> TeamGameSim {
    let mut players = Vec::new();
    for i in 0..size {
        let pos = if i % 2 == 0 { guard() } else { forward() };
        players.push(player(id * 100 + i, 70_000 - (i as u32) * 2_000, pos));
    }
    TeamGameSim {
        id,
        stat: TeamStat::new(),
        composite_rating: TeamCompositeRating::new(),
        player: players,
        synergy: Synergy { off: 0, def: 0, reb: 0 },
        on_court: Vec::new(),
    }
}

fn lineup_is_valid(t: &TeamGameSim, n: usize) -> bool {
    let mut seen = t.on_court.clone();
    seen.sort();
    seen.dedup();
    t.on_court.len() == n && seen.len() == n && t.on_court.iter().all(|&p| p < t.player.len())
}

fn new_game(seed: u64, log: bool) -> GameSim {
    GameSim::new(
        7,
        Some(3),
        team(1, 10),
        team(2, 10),
        GameAttributesLeague::new(),
        Some(log),
        None,
        Some(false),
        125_000,
        None,
        StdRng::seed_from_u64(seed),
    )
    .unwrap()
}

#[test]
fn weighted_pick_single_positive_weight() {
    for seed in 0..50 {
        let mut rng = StdRng::seed_from_u64(seed);
        assert_eq!(pick_player(&vec![0, 0, 5], None, &mut rng), 2);
    }
}

#[test]
fn weighted_pick_all_zero_falls_back() {
    for seed in 0..50 {
        let mut rng = StdRng::seed_from_u64(seed);
        let r = pick_player(&vec![0, 0, 0], None, &mut rng);
        assert!(r < 3);
        let e = pick_player(&vec![0, 0, 0], Some(1), &mut rng);
        assert!(e < 3 && e != 1);
    }
}

#[test]
fn weighted_pick_from_draw_intervals() {
    let w = vec![1u64, 2, 3];
    assert_eq!(pick_from_draw(&w, None, 0), 0);
    assert_eq!(pick_from_draw(&w, None, 1), 1);
    assert_eq!(pick_from_draw(&w, None, 2), 1);
    assert_eq!(pick_from_draw(&w, None, 3), 2);
    assert_eq!(pick_from_draw(&w, None, 5), 2);
    assert_eq!(pick_from_draw(&w, Some(1), 1), 2);
    assert_eq!(pick_from_draw(&vec![0, 0, 0], Some(1), 1), 2);
    assert_eq!(pick_from_draw(&vec![0, 0, 0], Some(1), 0), 0);
}

#[test]
fn weighted_pick_spreads_over_slots() {
    let mut rng = StdRng::seed_from_u64(11);
    let mut hits = [0u32; 4];
    for _ in 0..400 {
        hits[pick_player(&vec![1, 1, 1, 1], None, &mut rng)] += 1;
    }
    assert!(hits.iter().all(|&h| h > 0));
    for _ in 0..1000 {
        assert!(draw_ppm(&mut rng) < PPM);
    }
}

#[test]
fn sorted_indexes_break_ties_by_index() {
    let ovrs = vec![Some(5u64), Some(3), Some(5), None];
    assert_eq!(get_sorted_indexes(&ovrs), vec![3, 1, 0, 2]);
    let same = vec![Some(4u64); 5];
    assert_eq!(get_sorted_indexes(&same), vec![0, 1, 2, 3, 4]);
    assert_eq!(get_sorted_indexes(&vec![]), Vec::<usize>::new());
}

fn ctx() -> RotationContext {
    RotationContext {
        late_game: false,
        all_star_game: false,
        blowout: false,
        foul_limit: 3,
        fouls_to_foul_out: 6,
    }
}

#[test]
fn rotation_replaces_injured_and_fouled_out() {
    let mut t = team(1, 8);
    t.on_court = vec![0, 1, 2, 3, 4];
    t.player[0].injured = true;
    t.player[2].stat.pf = 6;
    let mut rng = StdRng::seed_from_u64(5);
    let mut log = Some(Vec::new());
    let subs = rotate_team(&mut t, &ctx(), &mut rng, &mut log);
    assert!(subs);
    assert!(lineup_is_valid(&t, 5));
    assert!(!t.on_court.contains(&0));
    assert!(!t.on_court.contains(&2));
    let plays: Vec<Play> = log.unwrap();
    assert_eq!(plays.len(), 2);
    assert!(plays.iter().all(|p| p.play_type == PlayType::Sub));
}

#[test]
fn rotation_lets_fouled_out_back_when_short() {
    let mut t = team(1, 6);
    t.on_court = vec![0, 1, 2, 3, 4];
    t.player[0].injured = true;
    t.player[5].stat.pf = 6;
    let mut rng = StdRng::seed_from_u64(5);
    let mut log = None;
    rotate_team(&mut t, &ctx(), &mut rng, &mut log);
    assert!(lineup_is_valid(&t, 5));
    assert_eq!(t.on_court[0], 5);
}

#[test]
fn rotation_keeps_ineligible_only_when_unavoidable() {
    let mut t = team(1, 5);
    t.on_court = vec![0, 1, 2, 3, 4];
    t.player[1].injured = true;
    let mut rng = StdRng::seed_from_u64(9);
    let mut log = None;
    let subs = rotate_team(&mut t, &ctx(), &mut rng, &mut log);
    assert!(!subs);
    assert_eq!(t.on_court, vec![0, 1, 2, 3, 4]);
}

#[test]
fn playing_time_keeps_energy_in_range() {
    let mut t = team(1, 7);
    t.on_court = vec![0, 1, 2, 3, 4];
    t.player[0].stat.energy = 3;
    t.player[6].stat.energy = 999;
    update_playing_time(&mut t, 60_000, 55);
    // 60 s × 55 × (1000 − 500) / 60 000 000 = 27 thousandths lost on court.
    assert_eq!(t.player[0].stat.energy, 0);
    assert_eq!(t.player[1].stat.energy, 973);
    assert_eq!(t.player[1].stat.min_ms, 60_000);
    assert_eq!(t.player[1].stat.court_time_ms, 60_000);
    assert_eq!(t.player[6].stat.energy, 1000);
    assert_eq!(t.player[5].stat.energy, 1000);
    assert_eq!(t.player[5].stat.bench_time_ms, 60_000);
    assert_eq!(t.player[5].stat.min_ms, 0);
}

#[test]
fn synergy_of_average_lineup() {
    let mut t = team(1, 5);
    t.on_court = vec![0, 1, 2, 3, 4];
    update_synergy(&mut t);
    assert!(t.synergy.off > 0 && t.synergy.off <= 2000);
    assert!(t.synergy.def > 0 && t.synergy.def <= 2000);
    assert!(t.synergy.reb > 0 && t.synergy.reb <= 2000);
}

#[test]
fn construction_rejects_bad_input() {
    let short = GameSim::new(
        1,
        None,
        team(1, 4),
        team(2, 10),
        GameAttributesLeague::new(),
        None,
        None,
        None,
        0,
        None,
        StdRng::seed_from_u64(1),
    );
    assert_eq!(short.err(), Some(SimError::RosterTooSmall(1)));
    let mut cfg = GameAttributesLeague::new();
    cfg.pace = 0;
    let bad = GameSim::new(1, None, team(1, 10), team(2, 10), cfg, None, None, None, 0, None, StdRng::seed_from_u64(1));
    assert_eq!(bad.err(), Some(SimError::InvalidConfig));
    let large = GameSim::new(
        1,
        None,
        team(1, 10),
        team(2, 65),
        GameAttributesLeague::new(),
        None,
        None,
        None,
        0,
        None,
        StdRng::seed_from_u64(1),
    );
    assert!(large.is_ok());
    let rate = GameSim::new(
        1,
        None,
        team(1, 10),
        team(2, 10),
        GameAttributesLeague::new(),
        None,
        None,
        None,
        1_000_000_001,
        None,
        StdRng::seed_from_u64(1),
    );
    assert_eq!(rate.err(), Some(SimError::InvalidInjuryRate));
}

#[test]
fn construction_records_starters() {
    let g = new_game(3, true);
    assert!(g.starters_recorded);
    assert!(lineup_is_valid(&g.offense, 5));
    assert!(lineup_is_valid(&g.defense, 5));
    for &p in &g.offense.on_court {
        assert!(g.offense.player[p].stat.gs);
    }
    let starters = g.offense.player.iter().filter(|p| p.stat.gs).count();
    assert_eq!(starters, 5);
}

#[test]
fn full_game_keeps_invariants() {
    let mut g = new_game(42, true);
    g.run();
    for t in [&g.offense, &g.defense] {
        assert!(lineup_is_valid(t, 5));
        assert!(t.player.iter().all(|p| p.stat.energy <= 1000));
        let player_pts: u32 = t.player.iter().map(|p| p.stat.pts).sum();
        assert_eq!(player_pts, t.stat.pts);
        let qtr_pts: u32 = t.stat.pts_qtrs.iter().sum();
        assert_eq!(qtr_pts, t.stat.pts);
        assert!(t.stat.pts_qtrs.len() >= 4);
    }
    assert!(g.offense.stat.pts + g.defense.stat.pts > 50);
    assert!(g.clock.quarter >= 4);
    assert_eq!(g.clock.quarter, 4 + g.clock.overtimes);
    assert!(g.clock.t_ms <= 0);
    assert_ne!(g.offense.stat.pts, g.defense.stat.pts);
    assert!(g.play_by_play.as_ref().unwrap().len() > 100);
}

#[test]
fn same_seed_same_game() {
    let mut a = new_game(2024, true);
    let mut b = new_game(2024, true);
    a.run();
    b.run();
    assert_eq!(a.play_by_play, b.play_by_play);
    assert_eq!(a.offense.stat.pts, b.offense.stat.pts);
    assert_eq!(a.defense.stat.pts, b.defense.stat.pts);
    assert_eq!(a.offense.stat.pts_qtrs, b.offense.stat.pts_qtrs);
    assert_eq!(a.offense.player, b.offense.player);
    assert_eq!(a.defense.player, b.defense.player);
}

#[test]
fn possession_advances_clock() {
    let mut g = new_game(8, false);
    let before = g.clock.t_ms;
    g.sim_possession();
    assert!(g.clock.t_ms < before);
    assert!(g.clock.t_ms >= 0);
}

#[test]
fn construction_rejects_overfull_energy() {
    let mut t = team(2, 10);
    t.player[3].stat.energy = 1001;
    let r = GameSim::new(1, None, team(1, 10), t, GameAttributesLeague::new(), None, None, None, 0, None, StdRng::seed_from_u64(1));
    assert_eq!(r.err(), Some(SimError::EnergyOutOfRange(2)));
}

#[test]
fn turnover_charges_one_offensive_player() {
    let mut g = new_game(17, true);
    let before: u32 = g.offense.player.iter().map(|p| p.stat.tov).sum();
    let log_len = g.play_by_play.as_ref().unwrap().len();
    g.do_tov();
    let after: u32 = g.offense.player.iter().map(|p| p.stat.tov).sum();
    assert_eq!(after, before + 1);
    let log = g.play_by_play.as_ref().unwrap();
    assert_eq!(log.len(), log_len + 1);
    assert_eq!(log[log_len].play_type, PlayType::Tov);
}

#[test]
fn foul_charges_defense_and_team_count() {
    let mut g = new_game(18, false);
    g.do_pf(false);
    let pf: u32 = g.defense.player.iter().map(|p| p.stat.pf).sum();
    assert_eq!(pf, 1);
    assert_eq!(g.defense.stat.fouls_this_quarter, 1);
    assert_eq!(g.defense.stat.pts, 0);
}

#[test]
fn free_throws_score_at_most_two() {
    for seed in 0..20 {
        let mut g = new_game(seed, false);
        g.do_ft(0, 2);
        assert!(g.offense.stat.pts <= 2);
        let fta: u32 = g.offense.player.iter().map(|p| p.stat.fta).sum();
        assert_eq!(fta, 2);
    }
}

#[test]
fn shots_score_zero_two_or_three() {
    for seed in 0..30 {
        let mut g = new_game(seed, false);
        g.do_shot(1);
        assert!([0, 2, 3].contains(&g.offense.stat.pts));
        let fga: u32 = g.offense.player.iter().map(|p| p.stat.fga).sum();
        assert_eq!(fga, 1);
    }
}

#[test]
fn certain_injuries_force_substitutions() {
    let mut g = GameSim::new(
        1,
        None,
        team(1, 12),
        team(2, 12),
        GameAttributesLeague::new(),
        Some(true),
        None,
        None,
        1_000_000_000,
        None,
        StdRng::seed_from_u64(4),
    )
    .unwrap();
    let starters = g.offense.on_court.clone();
    assert!(g.injuries());
    for &p in &starters {
        assert!(g.offense.player[p].injured);
        assert!(!g.offense.on_court.contains(&p));
    }
    assert!(lineup_is_valid(&g.offense, 5));
    assert!(g.offense.on_court.iter().all(|&p| !g.offense.player[p].injured));
}

#[test]
fn injuries_off_changes_nothing() {
    let mut cfg = GameAttributesLeague::new();
    cfg.disable_injuries = true;
    let mut g = GameSim::new(1, None, team(1, 10), team(2, 10), cfg, None, None, None, 1_000_000_000, None, StdRng::seed_from_u64(4)).unwrap();
    assert!(!g.injuries());
    assert!(g.offense.player.iter().all(|p| !p.injured));
}

#[test]
fn elam_ending_plays_to_target() {
    let mut cfg = GameAttributesLeague::new();
    cfg.elam = true;
    let mut g = GameSim::new(
        9,
        None,
        team(1, 10),
        team(2, 10),
        cfg,
        None,
        None,
        None,
        0,
        None,
        StdRng::seed_from_u64(77),
    )
    .unwrap();
    g.run();
    assert!(g.clock.elam_active);
    assert_eq!(g.clock.overtimes, 0);
    assert_eq!(g.clock.quarter, 4);
    let lead = g.offense.stat.pts.max(g.defense.stat.pts) as i64;
    assert!(lead >= g.clock.elam_target);
    assert_ne!(g.offense.stat.pts, g.defense.stat.pts);
}

#[test]
fn first_rotation_records_starters_once() {
    let mut g = new_game(5, false);
    let gs_before: Vec<bool> = g.offense.player.iter().map(|p| p.stat.gs).collect();
    g.update_players_on_court();
    let gs_after: Vec<bool> = g.offense.player.iter().map(|p| p.stat.gs).collect();
    assert_eq!(gs_before, gs_after);
}

#[test]
fn rotation_waits_two_minutes_before_like_for_like_swaps() {
    let mut t = team(1, 8);
    t.on_court = vec![3, 4, 5, 6, 7];
    let mut rng = StdRng::seed_from_u64(3);
    let mut log = Some(Vec::new());
    assert!(!rotate_team(&mut t, &ctx(), &mut rng, &mut log));
    assert_eq!(t.on_court, vec![3, 4, 5, 6, 7]);
    for &p in &[3usize, 4, 5, 6, 7] {
        t.player[p].stat.court_time_ms = 600_000;
    }
    for &p in &[0usize, 1, 2] {
        t.player[p].stat.bench_time_ms = 600_000;
    }
    assert!(rotate_team(&mut t, &ctx(), &mut rng, &mut log));
    let plays = log.unwrap();
    assert!(!plays.is_empty());
    assert!(plays.iter().all(|p| p.play_type == PlayType::Sub && p.team == 1));
}

#[test]
fn injuries_follow_their_draws() {
    let mut t = team(1, 8);
    t.on_court = vec![0, 1, 2, 3, 4];
    let draws = vec![0u64, 999_999_999, 10, 999_999_999, 999_999_999];
    let mut log = Some(Vec::new());
    assert!(injure_team(&mut t, 500_000_000, &draws, &mut log));
    assert!(t.player[0].injured && t.player[0].new_injury);
    assert!(t.player[2].injured);
    assert!(!t.player[1].injured && !t.player[5].injured);
    let plays = log.unwrap();
    assert_eq!(plays.len(), 2);
    assert_eq!(plays[0], Play { play_type: PlayType::Injury, team: 1, on: 100, off: 100 });
    assert_eq!(plays[1].on, 102);
}
