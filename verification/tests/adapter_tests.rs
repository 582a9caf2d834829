use price_aggregator::address::Address;
use price_aggregator::dex::{decimals_for_stablecoin, PoolError};
use price_aggregator::sushiswap::Sushiswap;
use price_aggregator::uniswap_v3::UniswapV3;

fn addr(last: u8) -> Address {
    let mut bytes = vec![0u8; 20];
    bytes[19] = last;
    Address::new(bytes)
}

fn usdc() -> Address {
    Address::new(vec![
        0xa0, 0xb8, 0x69, 0x91, 0xc6, 0x21, 0x8b, 0x36, 0xc1, 0xd1, 0x9d, 0x4a, 0x2e, 0x9e, 0xb0,
        0xce, 0x36, 0x06, 0xeb, 0x48,
    ])
}

fn usdt() -> Address {
    Address::new(vec![
        0xda, 0xc1, 0x7f, 0x95, 0x8d, 0x2e, 0xe5, 0x23, 0xa2, 0x20, 0x62, 0x06, 0x99, 0x45, 0x97,
        0xc1, 0x3d, 0x83, 0x1e, 0xc7,
    ])
}

#[test]
fn resolver_scales() {
    assert_eq!(decimals_for_stablecoin(&usdc()), 1_000_000);
    assert_eq!(decimals_for_stablecoin(&usdt()), 1_000_000);
    // An unrecognized address silently gets the 18-decimal default.
    assert_eq!(decimals_for_stablecoin(&addr(9)), 1_000_000_000_000_000_000);
}

#[test]
fn constant_product_price_and_value() {
    // token0 is the six-decimal counter asset with reserve 2000 * 10^6,
    // token1 is the requested 18-decimal token with reserve 1 * 10^18:
    // price must be exactly 2000 and value exactly 4000.
    let counter = usdc();
    let token = addr(1);
    let q = Sushiswap
        .get_price_and_tvl(
            2000 * 1_000_000,
            1_000_000_000_000_000_000,
            &counter,
            &token,
            &token,
        )
        .unwrap();
    assert_eq!(q.price.num, 2000 * q.price.den);
    assert_eq!(q.value.num, 4000 * q.value.den);
}

#[test]
fn constant_product_token_not_in_pool() {
    let q = Sushiswap.get_price_and_tvl(1, 1, &addr(1), &addr(2), &addr(3));
    assert_eq!(q.unwrap_err(), PoolError::TokenNotInPool);
}

#[test]
fn constant_product_zero_reserve() {
    let token = addr(1);
    let q = Sushiswap.get_price_and_tvl(0, 5, &token, &addr(2), &token);
    assert_eq!(q.unwrap_err(), PoolError::ZeroReserve);
}

#[test]
fn concentrated_liquidity_unit_price_both_ways() {
    // sqrtPriceX96 = 2^96 encodes a 1:1 raw ratio; with equal decimals the
    // derived price must be exactly 1 for either requested side.
    let q96: u128 = 1 << 96;
    let t0 = addr(1);
    let t1 = addr(2);
    let q0 = UniswapV3
        .get_price_and_tvl(&t0, &t1, &t0, 18, 18, q96, 5_000, 7_000)
        .unwrap();
    assert_eq!(q0.price.num, q0.price.den);
    let q1 = UniswapV3
        .get_price_and_tvl(&t0, &t1, &t1, 18, 18, q96, 5_000, 7_000)
        .unwrap();
    assert_eq!(q1.price.num, q1.price.den);
}

#[test]
fn concentrated_liquidity_decimal_correction() {
    // A 1:1 raw ratio with decimals 6 and 18 scales the slot-0 price by
    // 10^(6-18) = 10^-12.
    let q96: u128 = 1 << 96;
    let t0 = addr(1);
    let t1 = addr(2);
    let q = UniswapV3
        .get_price_and_tvl(&t0, &t1, &t0, 6, 18, q96, 1, 1)
        .unwrap();
    assert_eq!(q.price.num * 1_000_000_000_000, q.price.den);
}

#[test]
fn concentrated_liquidity_token_not_in_pool() {
    let q = UniswapV3.get_price_and_tvl(&addr(1), &addr(2), &addr(3), 18, 18, 1 << 96, 1, 1);
    assert_eq!(q.unwrap_err(), PoolError::TokenNotInPool);
}

#[test]
fn concentrated_liquidity_zero_sqrt_price() {
    let t0 = addr(1);
    let q = UniswapV3.get_price_and_tvl(&t0, &addr(2), &t0, 18, 18, 0, 1, 1);
    assert_eq!(q.unwrap_err(), PoolError::ZeroReserve);
}

#[test]
fn concentrated_liquidity_value_orientation() {
    // Unit price, equal decimals: value = balance_requested * 1 + balance_other.
    let q96: u128 = 1 << 96;
    let t0 = addr(1);
    let t1 = addr(2);
    let q = UniswapV3
        .get_price_and_tvl(&t0, &t1, &t0, 0, 0, q96, 5, 7)
        .unwrap();
    assert_eq!(q.value.num, 12 * q.value.den);
}

#[test]
fn concentrated_liquidity_realistic_odd_mantissa() {
    // A square-root price that is a multiple of 2^33 but whose 64-bit
    // mantissa is odd: the exact squared price has large, irreducible
    // components and must still come back exactly.
    let s: u128 = (1 << 96) + (1 << 33); // mantissa 2^63 + 1, odd
    let t0 = addr(1);
    let t1 = addr(2);
    let q = UniswapV3
        .get_price_and_tvl(&t0, &t1, &t0, 0, 0, s, 1, 1)
        .unwrap();
    let mantissa: u128 = (1 << 63) + 1;
    // price == mantissa^2 / 2^126, by cross products.
    assert_eq!(q.price.num * (1 << 126), mantissa * mantissa * q.price.den);
}

#[test]
fn concentrated_liquidity_odd_price_is_truncated() {
    // An odd square-root price just above 2^96: the 33 dropped low bits
    // leave the mantissa 2^63, so the derived price is exactly 1.
    let s: u128 = (1 << 96) + 1;
    let t0 = addr(1);
    let t1 = addr(2);
    let q0 = UniswapV3
        .get_price_and_tvl(&t0, &t1, &t0, 18, 18, s, 5_000, 7_000)
        .unwrap();
    assert_eq!(q0.price.num, q0.price.den);
    let q1 = UniswapV3
        .get_price_and_tvl(&t0, &t1, &t1, 18, 18, s, 5_000, 7_000)
        .unwrap();
    assert_eq!(q1.price.num, q1.price.den);
}

#[test]
fn constant_product_large_reserves() {
    // 64-bit reserves (within the guaranteed range of the adapter) still
    // yield an exact quote.
    let counter = usdc();
    let token = addr(1);
    let r: u128 = u64::MAX as u128;
    let q = Sushiswap
        .get_price_and_tvl(r, r, &counter, &token, &token)
        .unwrap();
    // price = (r/1e6) / (r/1e18) = 1e12, value = 2 * r / 1e6.
    assert_eq!(q.price.num, 1_000_000_000_000 * q.price.den);
    assert_eq!(q.value.num * 1_000_000, 2 * r * q.value.den);
}

#[test]
fn constant_product_overflow_is_reported() {
    // Reserves at the top of the uint112 range exceed the exact 128-bit
    // component bound: the adapter reports overflow rather than rounding.
    let counter = usdc();
    let token = addr(1);
    let r112: u128 = (1 << 112) - 1;
    let q = Sushiswap.get_price_and_tvl(r112, r112, &counter, &token, &token);
    assert_eq!(q.unwrap_err(), PoolError::NumericOverflow);
}
