use hoops_sim::config::{GameAttributes, GameAttributesLeague, G, TIEBREAKERS};
use hoops_sim::outcome::{decide_possession, decide_shot, prob_foul, prob_tov, PossessionOutcome};
use hoops_sim::ratings::get_perf_factor;
use hoops_sim::rules::{
    bound, fatigue, getInjuryRate, get_foul_trouble_factor, get_foul_trouble_limit,
    get_num_fouls_until_bonus, is_blowout, is_late_game, ClockState,
};
use hoops_sim::synergy::{isqrt, logistic_ppm, sigmoid};

fn clock(quarter: u32, overtimes: u32, t_ms: i64) -> ClockState {
    ClockState {
        quarter,
        num_periods: 4,
        overtimes,
        t_ms,
        quarter_length_ms: 720_000,
        elam_active: false,
        elam_target: 0,
    }
}

#[test]
fn tiebreaker_labels() {
    let t = TIEBREAKERS::new();
    assert_eq!(t.common_opponents_record, "Common Opponents Record");
    assert_eq!(t.head_to_head_record, "Head-To-Head Record");
    assert_eq!(t.coin_flip, "Coin Flip");
}

#[test]
fn game_attributes_defaults() {
    let g = GameAttributes::new(None);
    let league = g.league_with_history.as_ref().unwrap();
    assert_eq!(league.game_attributes_league.fouls_needed_to_foul_out, 6);
    assert_eq!(league.game_attributes_league.num_players_on_court, 5);
    assert!(g.non_league.is_none());
    let n = GameAttributes::new(Some(true));
    assert!(n.non_league.is_some());
    assert!(n.league_with_history.is_none());
    let wrapped = G::new(n);
    assert!(wrapped.game_attributes.league_with_history.is_none());
    assert!(GameAttributesLeague::new().is_valid());
}

#[test]
fn injury_rate_at_thirty_six() {
    // 0.01 in parts per billion.
    let base: u64 = 10_000_000;
    let exact = 0.01_f64 * 1.03_f64.powi(10) * 1e9;
    assert_eq!(getInjuryRate(base, 36, false), exact.floor() as u64);
    assert_eq!(getInjuryRate(base, 36, false), 13_439_163);
    let through = getInjuryRate(base, 36, true) as f64;
    assert!((through - exact * 1.5).abs() < 1.0, "{} vs {}", through, exact * 1.5);
}

#[test]
fn injury_rate_age_edges() {
    let base: u64 = 10_000_000;
    assert_eq!(getInjuryRate(base, 26, false), base);
    assert_eq!(getInjuryRate(base, 60, false), getInjuryRate(base, 50, false));
    let young = getInjuryRate(base, 20, false) as f64;
    let exact = 0.01_f64 / 1.03_f64.powi(6) * 1e9;
    assert!((young - exact).abs() < 1.0);
    assert_eq!(getInjuryRate(base, 27, false), 10_300_000);
}

#[test]
fn foul_limit_follows_game_progress() {
    assert_eq!(get_foul_trouble_limit(&clock(1, 0, 720_000), 6), 2);
    assert_eq!(get_foul_trouble_limit(&clock(3, 0, 360_000), 6), 4);
    assert_eq!(get_foul_trouble_limit(&clock(4, 0, 600_000), 6), 5);
    assert_eq!(get_foul_trouble_limit(&clock(4, 0, 400_000), 6), 6);
    assert_eq!(get_foul_trouble_limit(&clock(5, 1, 300_000), 6), 6);
    let mut elam = clock(2, 0, 100_000);
    elam.elam_active = true;
    assert_eq!(get_foul_trouble_limit(&elam, 6), 6);
    for q in 1..4u32 {
        for t in [720_000i64, 500_000, 100_000, 0] {
            let l = get_foul_trouble_limit(&clock(q, 0, t), 6);
            assert!((2..=5).contains(&l));
        }
    }
}

#[test]
fn late_game_and_blowout() {
    assert!(is_late_game(&clock(4, 0, 300_000), 90, 80));
    assert!(!is_late_game(&clock(4, 0, 400_000), 90, 80));
    assert!(!is_late_game(&clock(3, 0, 100_000), 90, 80));
    assert!(is_blowout(&clock(4, 0, 600_000), 100, 70));
    assert!(!is_blowout(&clock(4, 0, 600_000), 100, 75));
    assert!(is_blowout(&clock(4, 0, 30_000), 60, 70));
    assert!(!is_blowout(&clock(3, 0, 30_000), 60, 90));
    let mut elam = clock(4, 0, 0);
    elam.elam_active = true;
    elam.elam_target = 110;
    assert!(is_blowout(&elam, 100, 75));
    assert!(!is_blowout(&elam, 80, 60));
    assert!(is_late_game(&elam, 96, 75));
}

#[test]
fn bonus_windows() {
    let table = [5u32, 4, 2];
    assert_eq!(get_num_fouls_until_bonus(&clock(2, 0, 300_000), &table, 3, 0), 2);
    assert_eq!(get_num_fouls_until_bonus(&clock(5, 1, 300_000), &table, 3, 0), 1);
    assert_eq!(get_num_fouls_until_bonus(&clock(4, 0, 100_000), &table, 4, 1), 1);
}

#[test]
fn fatigue_and_factors() {
    assert_eq!(fatigue(0), 16);
    assert_eq!(fatigue(500), 516);
    assert_eq!(fatigue(990), 1000);
    assert_eq!(get_foul_trouble_factor(3, 3), 800);
    assert_eq!(get_foul_trouble_factor(4, 3), 500);
    assert_eq!(get_foul_trouble_factor(1, 3), 1000);
    assert_eq!(bound(-5, 0, 10), 0);
    assert_eq!(bound(15, 0, 10), 10);
    assert_eq!(bound(7, 0, 10), 7);
}

#[test]
fn logistic_and_sigmoid_values() {
    assert_eq!(logistic_ppm(0), 500_000);
    assert_eq!(logistic_ppm(1000), 731_059);
    assert_eq!(logistic_ppm(-1000), 268_941);
    assert_eq!(logistic_ppm(250), 561_229);
    assert_eq!(logistic_ppm(20_000), 999_665);
    assert_eq!(sigmoid(750, 15, 750), 500_000);
    assert_eq!(sigmoid(2000, 3, 2000), 500_000);
    assert_eq!(isqrt(1_000_000), 1000);
    assert_eq!(isqrt(1_999_999), 1414);
    assert_eq!(get_perf_factor(0), 1000);
    assert!(get_perf_factor(60) < 1000);
    assert!(get_perf_factor(-60) > 1000);
}

#[test]
fn turnover_and_foul_probabilities() {
    assert_eq!(prob_tov(1000, 500, 500, 500), 93_333);
    assert_eq!(prob_tov(1000, 500, 0, 0), 1_000_000);
    assert_eq!(prob_tov(100_000, 5000, 10, 10), 1_000_000);
    assert_eq!(prob_foul(1000), 80_000);
}

#[test]
fn possession_precedence() {
    let end = clock(4, 0, 0);
    // The leading team holds the ball as time runs out.
    assert_eq!(
        decide_possession(&end, 90, 80, 20_000, 0, 0, false, 5, 0, 999_999, 999_999),
        PossessionOutcome::EndOfQuarter
    );
    // A short possession at the buzzer is lost on a high draw.
    let q2 = clock(2, 0, 0);
    assert_eq!(
        decide_possession(&q2, 40, 40, 4000, 0, 0, false, 5, 841_000, 999_999, 999_999),
        PossessionOutcome::EndOfQuarter
    );
    assert_eq!(
        decide_possession(&q2, 40, 40, 4000, 0, 0, false, 5, 840_000, 999_999, 999_999),
        PossessionOutcome::Shot
    );
    let mid = clock(2, 0, 300_000);
    assert_eq!(
        decide_possession(&mid, 40, 40, 15_000, 100_000, 80_000, false, 5, 0, 50_000, 0),
        PossessionOutcome::Turnover
    );
    assert_eq!(
        decide_possession(&mid, 40, 40, 15_000, 100_000, 80_000, false, 5, 0, 150_000, 10_000),
        PossessionOutcome::NonShootingFoul
    );
    assert_eq!(
        decide_possession(&mid, 40, 40, 15_000, 100_000, 80_000, false, 1, 0, 150_000, 10_000),
        PossessionOutcome::FreeThrows
    );
    assert_eq!(
        decide_possession(&mid, 40, 40, 15_000, 100_000, 80_000, true, 0, 0, 150_000, 900_000),
        PossessionOutcome::FreeThrows
    );
    assert_eq!(
        decide_possession(&mid, 40, 40, 15_000, 100_000, 80_000, false, 5, 0, 150_000, 900_000),
        PossessionOutcome::Shot
    );
}

#[test]
fn shot_decision_from_draws() {
    let three = decide_shot(true, 400_000, 100_000, true, 500_000, 300_000, 0);
    assert!(three.made && three.assisted && !three.offensive_rebound);
    assert_eq!(three.points, 3);
    let two = decide_shot(false, 400_000, 100_000, false, 0, 300_000, 0);
    assert!(two.made && !two.assisted);
    assert_eq!(two.points, 2);
    let miss = decide_shot(false, 400_000, 400_000, true, 0, 300_000, 299_999);
    assert!(!miss.made && miss.offensive_rebound && !miss.assisted);
    assert_eq!(miss.points, 0);
    let drb = decide_shot(false, 400_000, 900_000, true, 0, 300_000, 300_000);
    assert!(!drb.made && !drb.offensive_rebound);
}
