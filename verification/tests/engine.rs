use craps_sim::config::{Config, OddsTable, MONEY_LIMIT};
use craps_sim::table::{base_bet, increase_bankroll, Table};
use craps_sim::wager::{already_free_come, already_pass, Bet, ComeAttrs, PassAttrs};

fn plain() -> Config {
    Config {
        initial_bankroll: 300,
        min_bet: 5,
        odds: OddsTable::OneTwoThree,
        grow_odds: false,
        grow_bets: false,
        odds_off_without_point: false,
        max_rolls: None,
    }
}

fn pass(amount: usize, odds: Option<usize>) -> Bet {
    Bet::Pass(PassAttrs { amount, odds })
}

fn come(amount: usize, target: Option<usize>, odds: Option<usize>) -> Bet {
    Bet::Come(ComeAttrs { amount, target, odds })
}

fn holdings(table: &Table) -> usize {
    let mut total = table.bankroll;
    for bet in &table.bets {
        total += match bet {
            Bet::Pass(p) => p.amount + p.odds.unwrap_or(0),
            Bet::Come(c) => c.amount + c.odds.unwrap_or(0),
        };
    }
    total
}

#[test]
fn fresh_wagers_have_no_odds_and_no_target() {
    assert_eq!(PassAttrs::new(5), PassAttrs { amount: 5, odds: None });
    assert_eq!(ComeAttrs::new(7), ComeAttrs { amount: 7, target: None, odds: None });
}

#[test]
fn increase_bankroll_lifts_the_peak() {
    let mut bankroll = 100;
    let mut peak = 120;
    increase_bankroll(&mut bankroll, &mut peak, 10);
    assert_eq!((bankroll, peak), (110, 120));
    increase_bankroll(&mut bankroll, &mut peak, 10);
    assert_eq!((bankroll, peak), (120, 120));
    increase_bankroll(&mut bankroll, &mut peak, 1);
    assert_eq!((bankroll, peak), (121, 121));
    increase_bankroll(&mut bankroll, &mut peak, 0);
    assert_eq!((bankroll, peak), (121, 121));
}

#[test]
fn finds_pass_and_free_come() {
    let none: Vec<Bet> = vec![];
    assert!(!already_pass(&none));
    assert!(!already_free_come(&none));
    let bets = vec![come(5, Some(6), None), pass(5, None)];
    assert!(already_pass(&bets));
    assert!(!already_free_come(&bets));
    let bets = vec![come(5, Some(6), Some(15)), come(5, None, None)];
    assert!(!already_pass(&bets));
    assert!(already_free_come(&bets));
}

#[test]
fn opening_table() {
    let table = Table::open(&plain());
    assert_eq!(
        table,
        Table { point: None, bankroll: 295, max_bankroll: 300, bets: vec![pass(5, None)] }
    );
    assert!(table.within_limit());
    assert!(!table.is_busted(&plain()));
}

#[test]
fn base_bet_without_growth_is_the_minimum() {
    assert_eq!(base_bet(&plain(), 5), 5);
    assert_eq!(base_bet(&plain(), 100_000), 5);
}

#[test]
fn base_bet_doubles_with_the_bankroll() {
    let mut cfg = plain();
    cfg.initial_bankroll = 100;
    cfg.grow_bets = true;
    assert_eq!(base_bet(&cfg, 5), 5);
    assert_eq!(base_bet(&cfg, 100), 5);
    assert_eq!(base_bet(&cfg, 199), 5);
    assert_eq!(base_bet(&cfg, 200), 10);
    assert_eq!(base_bet(&cfg, 399), 10);
    assert_eq!(base_bet(&cfg, 400), 20);
    assert_eq!(base_bet(&cfg, 1600), 80);
}

#[test]
fn come_out_seven_wins_the_line() {
    let cfg = plain();
    let mut table = Table::open(&cfg);
    table.play(&cfg, (3, 4));
    assert_eq!(
        table,
        Table { point: None, bankroll: 300, max_bankroll: 305, bets: vec![pass(5, None)] }
    );
}

#[test]
fn come_out_craps_loses_the_line() {
    let cfg = plain();
    for roll in [(1, 1), (1, 2), (6, 6)] {
        let mut table = Table::open(&cfg);
        table.play(&cfg, roll);
        assert_eq!(
            table,
            Table { point: None, bankroll: 290, max_bankroll: 300, bets: vec![pass(5, None)] }
        );
    }
}

#[test]
fn come_out_eleven_pays_the_stake_and_keeps_the_wager() {
    let cfg = plain();
    let mut table = Table::open(&cfg);
    table.play(&cfg, (5, 6));
    assert_eq!(
        table,
        Table {
            point: None,
            bankroll: 295,
            max_bankroll: 300,
            bets: vec![pass(5, None), come(5, None, None)],
        }
    );
}

#[test]
fn a_number_becomes_the_point_and_takes_odds() {
    let cfg = plain();
    let mut table = Table::open(&cfg);
    table.play(&cfg, (2, 2));
    assert_eq!(
        table,
        Table {
            point: Some(4),
            bankroll: 285,
            max_bankroll: 300,
            bets: vec![pass(5, Some(5)), come(5, None, None)],
        }
    );
}

#[test]
fn four_rolls_step_by_step() {
    let cfg = plain();
    let mut table = Table::open(&cfg);
    table.play(&cfg, (2, 2));
    table.play(&cfg, (3, 3));
    assert_eq!(
        table,
        Table {
            point: Some(4),
            bankroll: 265,
            max_bankroll: 300,
            bets: vec![pass(5, Some(5)), come(5, Some(6), Some(15)), come(5, None, None)],
        }
    );
    table.play(&cfg, (2, 4));
    assert_eq!(
        table,
        Table {
            point: Some(4),
            bankroll: 288,
            max_bankroll: 308,
            bets: vec![pass(5, Some(5)), come(5, Some(6), Some(15)), come(5, None, None)],
        }
    );
    table.play(&cfg, (3, 4));
    assert_eq!(
        table,
        Table { point: None, bankroll: 293, max_bankroll: 308, bets: vec![pass(5, None)] }
    );
}

#[test]
fn point_made_pays_stake_and_true_odds() {
    let cfg = plain();
    let mut table =
        Table { point: Some(5), bankroll: 100, max_bankroll: 300, bets: vec![pass(5, Some(5))] };
    table.play(&cfg, (2, 3));
    // 2 * 5 for the stake, 5 odds back, 5 * 3 / 2 = 7 won on the odds
    assert_eq!(
        table,
        Table { point: None, bankroll: 117, max_bankroll: 300, bets: vec![pass(5, None)] }
    );
}

#[test]
fn odds_are_skipped_when_the_bankroll_cannot_pay() {
    let mut cfg = plain();
    cfg.odds = OddsTable::Ten;
    let mut table =
        Table { point: None, bankroll: 49, max_bankroll: 300, bets: vec![pass(5, None)] };
    table.play(&cfg, (4, 4));
    assert_eq!(
        table,
        Table {
            point: Some(8),
            bankroll: 44,
            max_bankroll: 300,
            bets: vec![pass(5, None), come(5, None, None)],
        }
    );
    let mut table =
        Table { point: None, bankroll: 50, max_bankroll: 300, bets: vec![pass(5, None)] };
    table.play(&cfg, (4, 4));
    assert_eq!(
        table,
        Table { point: Some(8), bankroll: 0, max_bankroll: 300, bets: vec![pass(5, Some(50))] }
    );
}

#[test]
fn seven_out_clears_state() {
    let cfg = plain();
    let mut table = Table {
        point: Some(6),
        bankroll: 200,
        max_bankroll: 300,
        bets: vec![pass(5, Some(15)), come(5, Some(6), Some(15)), come(5, Some(8), None)],
    };
    table.play(&cfg, (1, 6));
    assert_eq!(table.point, None);
    for bet in &table.bets {
        match bet {
            Bet::Come(c) => assert_ne!(c.target, Some(6)),
            Bet::Pass(p) => assert_eq!(p.odds, None),
        }
    }
    assert_eq!(
        table,
        Table { point: None, bankroll: 195, max_bankroll: 300, bets: vec![pass(5, None)] }
    );
}

#[test]
fn seven_returns_odds_that_were_off() {
    let mut cfg = plain();
    cfg.odds_off_without_point = true;
    let before = Table {
        point: None,
        bankroll: 100,
        max_bankroll: 300,
        bets: vec![pass(5, None), come(5, Some(6), Some(15))],
    };
    let mut table = before.clone();
    table.play(&cfg, (2, 5));
    // the line wins 10, the come wager loses its stake and gets its odds back
    assert_eq!(
        table,
        Table { point: None, bankroll: 120, max_bankroll: 300, bets: vec![pass(5, None)] }
    );
    cfg.odds_off_without_point = false;
    let mut table = before.clone();
    table.play(&cfg, (2, 5));
    assert_eq!(
        table,
        Table { point: None, bankroll: 105, max_bankroll: 300, bets: vec![pass(5, None)] }
    );
}

#[test]
fn come_odds_that_are_off_win_nothing() {
    let mut cfg = plain();
    cfg.odds_off_without_point = true;
    let before = Table {
        point: None,
        bankroll: 100,
        max_bankroll: 100,
        bets: vec![come(5, Some(6), Some(15))],
    };
    let mut table = before.clone();
    table.play(&cfg, (3, 3));
    // 10 for the stake and the 15 odds back
    assert_eq!(
        table,
        Table { point: None, bankroll: 120, max_bankroll: 125, bets: vec![pass(5, None)] }
    );
    cfg.odds_off_without_point = false;
    let mut table = before.clone();
    table.play(&cfg, (3, 3));
    // and 18 won on the odds
    assert_eq!(
        table,
        Table { point: None, bankroll: 138, max_bankroll: 143, bets: vec![pass(5, None)] }
    );
}

#[test]
fn money_is_conserved_over_a_roll() {
    let cfg = plain();
    let mut table = Table {
        point: Some(4),
        bankroll: 288,
        max_bankroll: 308,
        bets: vec![pass(5, Some(5)), come(5, Some(6), Some(15)), come(5, None, None)],
    };
    let before = holdings(&table);
    assert_eq!(before, 323);
    table.play(&cfg, (3, 4));
    // the house pays 5 on the come wager without a number and takes 10 + 20
    assert_eq!(holdings(&table), before + 5 - 30);
    let before = holdings(&table);
    table.play(&cfg, (4, 5));
    // a point is set: money only moves from the bankroll to the table
    assert_eq!(holdings(&table), before);
}

#[test]
fn peak_never_falls_and_covers_the_bankroll() {
    let cfg = plain();
    let mut table = Table::open(&cfg);
    let mut peak = table.max_bankroll;
    for roll in [(3, 4), (5, 6), (2, 2), (3, 3), (2, 4), (1, 3), (3, 4), (1, 1), (6, 1)] {
        table.play(&cfg, roll);
        assert!(table.max_bankroll >= peak);
        assert!(table.max_bankroll >= table.bankroll);
        peak = table.max_bankroll;
    }
}

#[test]
fn at_most_one_wager_is_placed_per_roll() {
    let cfg = plain();
    let mut table = Table::open(&cfg);
    for roll in [(2, 2), (3, 3), (4, 4), (4, 5), (5, 5), (1, 2)] {
        let before = table.bets.len();
        table.play(&cfg, roll);
        assert!(table.bets.len() <= before + 1);
        assert!(table.bets.iter().filter(|b| matches!(b, Bet::Pass(_))).count() <= 1);
        assert!(
            table.bets.iter().filter(|b| matches!(b, Bet::Come(ComeAttrs { target: None, .. }))).count()
                <= 1
        );
    }
}

#[test]
fn busted_table() {
    let mut cfg = plain();
    cfg.initial_bankroll = 5;
    let mut table = Table::open(&cfg);
    assert_eq!(table.bankroll, 0);
    assert!(!table.is_busted(&cfg));
    table.play(&cfg, (1, 1));
    assert_eq!(table, Table { point: None, bankroll: 0, max_bankroll: 5, bets: vec![] });
    assert!(table.is_busted(&cfg));
}

#[test]
fn limit_of_the_table() {
    let table = Table {
        point: None,
        bankroll: MONEY_LIMIT - 10,
        max_bankroll: MONEY_LIMIT,
        bets: vec![pass(5, Some(5))],
    };
    assert!(table.within_limit());
    let table = Table {
        point: None,
        bankroll: MONEY_LIMIT - 10,
        max_bankroll: MONEY_LIMIT,
        bets: vec![pass(5, Some(5)), come(1, None, None)],
    };
    assert!(!table.within_limit());
    let table = Table {
        point: None,
        bankroll: 0,
        max_bankroll: 0,
        bets: vec![pass(usize::MAX, Some(usize::MAX))],
    };
    assert!(!table.within_limit());
}

#[test]
fn short_form_of_wagers() {
    assert_eq!(PassAttrs { amount: 5, odds: None }.text(), b"a5o".to_vec());
    assert_eq!(PassAttrs { amount: 5, odds: Some(15) }.text(), b"a5o15".to_vec());
    assert_eq!(ComeAttrs::new(10).text(), b"a10to".to_vec());
    assert_eq!(ComeAttrs { amount: 10, target: Some(6), odds: None }.text(), b"a10t6o".to_vec());
    assert_eq!(
        ComeAttrs { amount: 10, target: Some(6), odds: Some(50) }.text(),
        b"a10t6o50".to_vec()
    );
    assert_eq!(pass(0, Some(0)).text(), b"Pass(a0o0)".to_vec());
    assert_eq!(pass(5, Some(15)).text(), b"Pass(a5o15)".to_vec());
    assert_eq!(come(5, Some(8), None).text(), b"Come(a5t8o)".to_vec());
}

#[test]
fn sound_tables() {
    let cfg = plain();
    assert!(Table::open(&cfg).is_sound());
    let table = Table {
        point: Some(6),
        bankroll: 10,
        max_bankroll: 10,
        bets: vec![pass(5, Some(15)), come(5, Some(10), None), come(5, None, None)],
    };
    assert!(table.is_sound());
    let table = Table { point: Some(7), bankroll: 10, max_bankroll: 10, bets: vec![] };
    assert!(!table.is_sound());
    let table =
        Table { point: None, bankroll: 10, max_bankroll: 10, bets: vec![come(5, Some(11), None)] };
    assert!(!table.is_sound());
    let table = Table { point: None, bankroll: 11, max_bankroll: 10, bets: vec![] };
    assert!(!table.is_sound());
}
