use craps_sim::stats::{quantiles, Quantile};

fn q(numer: usize, denom: usize) -> Quantile {
    match Quantile::new(numer, denom) {
        Some(q) => q,
        None => panic!("no quantile {}/{}", numer, denom),
    }
}

#[test]
fn quantile_must_be_a_fraction_up_to_one() {
    assert_eq!(Quantile::new(1, 2), Some(Quantile { numer: 1, denom: 2 }));
    assert_eq!(Quantile::new(0, 1), Some(Quantile { numer: 0, denom: 1 }));
    assert_eq!(Quantile::new(3, 3), Some(Quantile { numer: 3, denom: 3 }));
    assert_eq!(Quantile::new(1, 0), None);
    assert_eq!(Quantile::new(0, 0), None);
    assert_eq!(Quantile::new(3, 2), None);
}

#[test]
fn median_of_one_to_ten_is_five() {
    let mut values: Vec<usize> = (1..=10).collect();
    assert_eq!(q(1, 2).nearest_rank(10), 4);
    let picked = quantiles(&mut values, &vec![q(1, 2)]);
    assert_eq!(picked, vec![(q(1, 2), 5)]);
}

#[test]
fn nearest_rank_rounds_down() {
    assert_eq!(q(0, 10).nearest_rank(10), 0);
    assert_eq!(q(1, 10).nearest_rank(10), 0);
    assert_eq!(q(2, 10).nearest_rank(10), 1);
    assert_eq!(q(9, 10).nearest_rank(10), 8);
    assert_eq!(q(10, 10).nearest_rank(10), 9);
    assert_eq!(q(7, 10).nearest_rank(11), 7);
    assert_eq!(q(1, 2).nearest_rank(1), 0);
    assert_eq!(q(1, 1).nearest_rank(usize::MAX), usize::MAX - 1);
    assert_eq!(q(usize::MAX - 1, usize::MAX).nearest_rank(usize::MAX), usize::MAX - 2);
}

#[test]
fn quantiles_sort_the_values() {
    let mut values = vec![9, 3, 7, 1, 5, 3];
    let qs = vec![q(0, 10), q(5, 10), q(10, 10)];
    let picked = quantiles(&mut values, &qs);
    assert_eq!(values, vec![1, 3, 3, 5, 7, 9]);
    assert_eq!(picked, vec![(q(0, 10), 1), (q(5, 10), 3), (q(10, 10), 9)]);
}

#[test]
fn quantiles_in_tenths() {
    let mut values: Vec<usize> = (0..=20).rev().map(|v| v * 10).collect();
    let qs: Vec<Quantile> = (0..=10).map(|k| q(k, 10)).collect();
    let picked: Vec<usize> = quantiles(&mut values, &qs).into_iter().map(|p| p.1).collect();
    assert_eq!(picked, vec![0, 20, 40, 60, 80, 100, 120, 140, 160, 180, 200]);
}

#[test]
fn quantiles_of_one_value() {
    let mut values = vec![42];
    let picked = quantiles(&mut values, &vec![q(0, 1), q(1, 3), q(1, 1)]);
    assert_eq!(picked, vec![(q(0, 1), 42), (q(1, 3), 42), (q(1, 1), 42)]);
}

#[test]
fn no_quantiles_asked_for() {
    let mut values = vec![2, 1];
    let picked = quantiles(&mut values, &vec![]);
    assert_eq!(picked, vec![]);
    assert_eq!(values, vec![1, 2]);
}
