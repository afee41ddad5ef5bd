use craps_sim::config::{Config, OddsTable, MONEY_LIMIT};
use craps_sim::payout::{
    grow_odds_multiplier, is_point_number, odds_multiplier_10, odds_multiplier_123,
    odds_multiplier_345, odds_payout,
};

fn config(odds: OddsTable) -> Config {
    Config {
        initial_bankroll: 300,
        min_bet: 5,
        odds,
        grow_odds: false,
        grow_bets: false,
        odds_off_without_point: false,
        max_rolls: None,
    }
}

#[test]
fn points_are_four_five_six_eight_nine_ten() {
    let points: Vec<usize> = (0..=13).filter(|n| is_point_number(*n)).collect();
    assert_eq!(points, vec![4, 5, 6, 8, 9, 10]);
}

#[test]
fn odds_payout_on_four_and_ten_is_two_to_one() {
    assert_eq!(odds_payout(10, 4), 20);
    assert_eq!(odds_payout(10, 10), 20);
    assert_eq!(odds_payout(7, 4), 14);
}

#[test]
fn odds_payout_on_five_and_nine_is_three_to_two() {
    assert_eq!(odds_payout(10, 5), 15);
    assert_eq!(odds_payout(10, 9), 15);
}

#[test]
fn odds_payout_on_six_and_eight_is_six_to_five() {
    assert_eq!(odds_payout(10, 6), 12);
    assert_eq!(odds_payout(15, 8), 18);
}

#[test]
fn odds_payout_drops_the_remainder() {
    assert_eq!(odds_payout(5, 5), 7);
    assert_eq!(odds_payout(7, 8), 8);
    assert_eq!(odds_payout(1, 9), 1);
    assert_eq!(odds_payout(4, 6), 4);
    assert_eq!(odds_payout(0, 6), 0);
}

#[test]
fn multiplier_tables() {
    let mut m123 = vec![];
    let mut m345 = vec![];
    let mut m10 = vec![];
    for t in [4, 5, 6, 8, 9, 10] {
        m123.push(odds_multiplier_123(t));
        m345.push(odds_multiplier_345(t));
        m10.push(odds_multiplier_10(t));
    }
    assert_eq!(m123, vec![1, 2, 3, 3, 2, 1]);
    assert_eq!(m345, vec![3, 4, 5, 5, 4, 3]);
    assert_eq!(m10, vec![10, 10, 10, 10, 10, 10]);
}

#[test]
fn adaptive_multiplier_follows_the_bankroll() {
    // below four fifths of the initial bankroll
    assert_eq!(grow_odds_multiplier(6, 300, 239), 3);
    assert_eq!(grow_odds_multiplier(4, 300, 0), 1);
    // from four fifths up to seven fifths
    assert_eq!(grow_odds_multiplier(6, 300, 240), 5);
    assert_eq!(grow_odds_multiplier(5, 300, 419), 4);
    // from seven fifths on
    assert_eq!(grow_odds_multiplier(6, 300, 420), 10);
    assert_eq!(grow_odds_multiplier(4, 300, 100_000), 10);
}

#[test]
fn adaptive_multiplier_at_exact_thresholds() {
    assert_eq!(grow_odds_multiplier(4, 5, 3), 1);
    assert_eq!(grow_odds_multiplier(4, 5, 4), 3);
    assert_eq!(grow_odds_multiplier(4, 5, 6), 3);
    assert_eq!(grow_odds_multiplier(4, 5, 7), 10);
    assert_eq!(grow_odds_multiplier(4, 0, 0), 10);
    assert_eq!(grow_odds_multiplier(9, usize::MAX, usize::MAX), 4);
}

#[test]
fn odds_table_names() {
    assert_eq!(OddsTable::from_name("123"), Some(OddsTable::OneTwoThree));
    assert_eq!(OddsTable::from_name("345"), Some(OddsTable::ThreeFourFive));
    assert_eq!(OddsTable::from_name("10"), Some(OddsTable::Ten));
    assert_eq!(OddsTable::from_name(""), None);
    assert_eq!(OddsTable::from_name("12"), None);
    assert_eq!(OddsTable::from_name("1234"), None);
    assert_eq!(OddsTable::from_name("543"), None);
    assert_eq!(OddsTable::from_name("ten"), None);
}

#[test]
fn configured_multiplier_uses_the_named_table() {
    assert_eq!(config(OddsTable::OneTwoThree).odds_multiplier(5, 300), 2);
    assert_eq!(config(OddsTable::ThreeFourFive).odds_multiplier(5, 300), 4);
    assert_eq!(config(OddsTable::Ten).odds_multiplier(5, 300), 10);
}

#[test]
fn configured_multiplier_adapts_when_odds_grow() {
    let mut cfg = config(OddsTable::OneTwoThree);
    cfg.grow_odds = true;
    assert_eq!(cfg.odds_multiplier(8, 100), 3);
    assert_eq!(cfg.odds_multiplier(8, 300), 5);
    assert_eq!(cfg.odds_multiplier(8, 500), 10);
}

#[test]
fn config_validity() {
    let cfg = config(OddsTable::OneTwoThree);
    assert!(cfg.is_valid());
    let mut poor = cfg;
    poor.initial_bankroll = 4;
    assert!(!poor.is_valid());
    let mut even = cfg;
    even.initial_bankroll = 5;
    assert!(even.is_valid());
    let mut huge = cfg;
    huge.initial_bankroll = MONEY_LIMIT + 1;
    assert!(!huge.is_valid());
    huge.initial_bankroll = MONEY_LIMIT;
    assert!(huge.is_valid());
    let mut nothing = cfg;
    nothing.initial_bankroll = 0;
    nothing.min_bet = 0;
    assert!(nothing.is_valid());
    nothing.grow_bets = true;
    assert!(!nothing.is_valid());
}
