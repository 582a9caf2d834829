use price_aggregator::aggregator::{compute_token_price, weighted_price, AggError};
use price_aggregator::dex::{PoolError, Quote};
use price_aggregator::rational::Rat;

fn quote(price_num: u128, price_den: u128, value_num: u128, value_den: u128) -> Quote {
    Quote { price: Rat::new(price_num, price_den), value: Rat::new(value_num, value_den) }
}

/// Checks that a rational equals a/b by cross products.
fn rat_is(r: &Rat, a: u128, b: u128) -> bool {
    r.num * b == a * r.den
}

#[test]
fn two_pools_weighted_mean() {
    // Prices 10 and 20 with values 100 and 300: (10*100 + 20*300) / 400 = 17.5.
    let quotes = vec![quote(10, 1, 100, 1), quote(20, 1, 300, 1)];
    let r = weighted_price(&quotes).unwrap();
    assert!(rat_is(&r, 35, 2));
}

#[test]
fn single_pool_exact_price() {
    let quotes = vec![quote(7, 3, 12345, 1)];
    let r = weighted_price(&quotes).unwrap();
    assert!(rat_is(&r, 7, 3));
}

#[test]
fn no_quotes_is_no_valid_pool_data() {
    let quotes: Vec<Quote> = Vec::new();
    assert_eq!(weighted_price(&quotes), Err(AggError::NoValidPoolData));
}

#[test]
fn all_zero_values_is_error_not_division() {
    let quotes = vec![quote(10, 1, 0, 1), quote(20, 1, 0, 5)];
    assert_eq!(weighted_price(&quotes), Err(AggError::ZeroTotalValue));
}

#[test]
fn mean_lies_between_min_and_max() {
    let quotes = vec![quote(3, 2, 50, 1), quote(9, 1, 7, 2), quote(4, 1, 11, 3)];
    let r = weighted_price(&quotes).unwrap();
    // 3/2 <= r <= 9/1, by cross products.
    assert!(3 * r.den <= 2 * r.num);
    assert!(r.num <= 9 * r.den);
}

#[test]
fn all_pools_failed_is_no_valid_pool_data() {
    let results: Vec<Result<Quote, PoolError>> =
        vec![Err(PoolError::Rpc), Err(PoolError::TokenNotInPool)];
    assert_eq!(compute_token_price(&results), Err(AggError::NoValidPoolData));
}

#[test]
fn failures_are_dropped_not_fatal() {
    let results: Vec<Result<Quote, PoolError>> = vec![
        Err(PoolError::Rpc),
        Ok(quote(10, 1, 100, 1)),
        Err(PoolError::TokenNotInPool),
        Ok(quote(20, 1, 300, 1)),
    ];
    let r = compute_token_price(&results).unwrap();
    assert!(rat_is(&r, 35, 2));
}

#[test]
fn zero_value_successes_are_an_error() {
    let results: Vec<Result<Quote, PoolError>> =
        vec![Ok(quote(10, 1, 0, 1)), Err(PoolError::Rpc)];
    assert_eq!(compute_token_price(&results), Err(AggError::ZeroTotalValue));
}
