//! Concentrated-liquidity (V3-style) pool adapter.
//!
//! The pool packs its state as `sqrtPriceX96`, the square root of the raw
//! token1-per-token0 price in Q64.96 fixed point. The raw price is the
//! square of that value over 2^192; a decimal correction of
//! 10^(decimals0 - decimals1) makes it a real-unit price, inverted when the
//! requested token sits in slot 1. Before squaring, the square-root price
//! is truncated to a 64-bit mantissa times a power of two (`v3_approx`),
//! and at least 33 low bits are shifted out so that the power of two
//! cancels against 2^192; everything after that truncation is exact
//! rational arithmetic. This is the convert-before-squaring precision
//! tradeoff: the truncation is lossless whenever the dropped low bits are
//! zero, and otherwise keeps a 64-bit mantissa, finer than a double
//! conversion would. `v3_fits` states the inputs on which a quote is owed.
//! Pool value is approximated from the pool's two token balances, each
//! scaled by its own decimals.

use vstd::prelude::*;

use crate::address::Address;
use crate::dex::{lemma_pow10_pos, pow10, spec_pow10, PoolError, Quote};
use crate::rational::{
    lemma_add_congruence,
    lemma_div_congruence,
    lemma_eq_transitive,
    lemma_eq_zero,
    lemma_mul_congruence,
    lemma_mul_le,
    lemma_pos_mul,
    srat_add,
    srat_div,
    srat_eq,
    srat_mul,
    Rat,
    SRat,
};

verus! {

/// 2^192, the divisor of the squared Q64.96 square-root price.
pub open spec fn spec_q192() -> int {
    0x1000000000000000000000000000000000000000000000000int
}

/// 2^n as an unbounded integer.
pub open spec fn spec_pow2(n: nat) -> int
    decreases n,
{
    if n == 0 {
        1
    } else {
        2 * spec_pow2((n - 1) as nat)
    }
}

pub proof fn lemma_pow2_pos(n: nat)
    ensures
        spec_pow2(n) >= 1,
    decreases n,
{
    if n > 0 {
        lemma_pow2_pos((n - 1) as nat);
    }
}

pub proof fn lemma_pow2_mono(a: nat, b: nat)
    requires
        a <= b,
    ensures
        spec_pow2(a) <= spec_pow2(b),
    decreases b,
{
    if a < b {
        lemma_pow2_mono(a, (b - 1) as nat);
        lemma_pow2_pos((b - 1) as nat);
    }
}

pub proof fn lemma_pow2_adds(a: nat, b: nat)
    ensures
        spec_pow2(a) * spec_pow2(b) == spec_pow2(a + b),
    decreases a,
{
    if a == 0 {
    } else {
        lemma_pow2_adds((a - 1) as nat, b);
        assert(spec_pow2(a) * spec_pow2(b) == 2 * (spec_pow2((a - 1) as nat) * spec_pow2(b)))
            by (nonlinear_arith)
            requires
                spec_pow2(a) == 2 * spec_pow2((a - 1) as nat),
        ;
    }
}

/// The powers of two the proofs need, written out: evaluated by repeated
/// squaring from 2^6.
proof fn lemma_pow2_consts()
    ensures
        spec_pow2(64) == 0x10000000000000000int,
        spec_pow2(192) == spec_q192(),
{
    reveal_with_fuel(spec_pow2, 7);
    assert(spec_pow2(6) == 64);
    assert(spec_pow2(4) == 16);
    lemma_pow2_adds(6, 6);
    assert(spec_pow2(12) == 0x1000) by (nonlinear_arith)
        requires
            spec_pow2(6) == 64,
            spec_pow2(6) * spec_pow2(6) == spec_pow2(12),
    ;
    lemma_pow2_adds(12, 12);
    assert(spec_pow2(24) == 0x1000000) by (nonlinear_arith)
        requires
            spec_pow2(12) == 0x1000,
            spec_pow2(12) * spec_pow2(12) == spec_pow2(24),
    ;
    lemma_pow2_adds(24, 24);
    assert(spec_pow2(48) == 0x1000000000000) by (nonlinear_arith)
        requires
            spec_pow2(24) == 0x1000000,
            spec_pow2(24) * spec_pow2(24) == spec_pow2(48),
    ;
    lemma_pow2_adds(48, 12);
    assert(spec_pow2(60) == 0x1000000000000000) by (nonlinear_arith)
        requires
            spec_pow2(48) == 0x1000000000000,
            spec_pow2(12) == 0x1000,
            spec_pow2(48) * spec_pow2(12) == spec_pow2(60),
    ;
    lemma_pow2_adds(60, 4);
    assert(spec_pow2(64) == 0x10000000000000000int) by (nonlinear_arith)
        requires
            spec_pow2(60) == 0x1000000000000000,
            spec_pow2(4) == 16,
            spec_pow2(60) * spec_pow2(4) == spec_pow2(64),
    ;
    lemma_pow2_adds(48, 48);
    assert(spec_pow2(96) == 0x1000000000000000000000000) by (nonlinear_arith)
        requires
            spec_pow2(48) == 0x1000000000000,
            spec_pow2(48) * spec_pow2(48) == spec_pow2(96),
    ;
    lemma_pow2_adds(96, 96);
    assert(spec_pow2(192) == 0x1000000000000000000000000000000000000000000000000int)
        by (nonlinear_arith)
        requires
            spec_pow2(96) == 0x1000000000000000000000000,
            spec_pow2(96) * spec_pow2(96) == spec_pow2(192),
    ;
}

/// The mantissa left after shifting a `u128` by 64 or more bits is below
/// 2^64.
proof fn lemma_mantissa_small(s: nat, z: nat)
    requires
        s <= u128::MAX,
        z >= 64,
    ensures
        s as int / spec_pow2(z) < 0x10000000000000000int,
{
    lemma_pow2_consts();
    lemma_pow2_mono(64, z);
    vstd::arithmetic::div_mod::lemma_div_is_ordered_by_denominator(
        s as int,
        spec_pow2(64),
        spec_pow2(z),
    );
    vstd::arithmetic::div_mod::lemma_fundamental_div_mod(s as int, spec_pow2(64));
    vstd::arithmetic::div_mod::lemma_mod_bound(s as int, spec_pow2(64));
    assert(s as int / spec_pow2(64) < 0x10000000000000000int) by (nonlinear_arith)
        requires
            s as int == spec_pow2(64) * (s as int / spec_pow2(64)) + (s as int % spec_pow2(64)),
            s as int % spec_pow2(64) >= 0,
            spec_pow2(64) == 0x10000000000000000int,
            s <= u128::MAX,
    ;
}

/// 2^n in a `u128`, or `None` when it does not fit.
fn pow2_u128(n: u8) -> (r: Option<u128>)
    ensures
        r is Some ==> r->Some_0 as int == spec_pow2(n as nat) && r->Some_0 >= 1,
        r is None ==> spec_pow2(n as nat) > u128::MAX,
{
    let mut acc: u128 = 1;
    let mut i: u8 = 0;
    while i < n
        invariant
            i <= n,
            acc as int == spec_pow2(i as nat),
            acc >= 1,
        decreases n - i,
    {
        acc = match acc.checked_mul(2) {
            Some(v) => v,
            None => {
                proof {
                    lemma_pow2_mono((i + 1) as nat, n as nat);
                }
                return None;
            },
        };
        i = i + 1;
    }
    Some(acc)
}

/// How many halvings bring `s` below 2^64.
pub open spec fn v3_ebits(s: nat) -> nat
    decreases s,
{
    if s < 0x10000000000000000 {
        0
    } else {
        1 + v3_ebits(s / 2)
    }
}

/// `v3_ebits(s) <= z` exactly when shifting by `z` lands below 2^64.
proof fn lemma_ebits_iff(s: nat, z: nat)
    ensures
        (v3_ebits(s) <= z) <==> (s as int / spec_pow2(z) < 0x10000000000000000int),
    decreases z,
{
    lemma_pow2_pos(z);
    if s < 0x10000000000000000 {
        vstd::arithmetic::div_mod::lemma_div_nonincreasing(s as int, spec_pow2(z));
        vstd::arithmetic::div_mod::lemma_div_pos_is_pos(s as int, spec_pow2(z));
    } else {
        if z == 0 {
        } else {
            lemma_ebits_iff(s / 2, (z - 1) as nat);
            lemma_pow2_pos((z - 1) as nat);
            vstd::arithmetic::div_mod::lemma_div_denominator(
                s as int,
                2,
                spec_pow2((z - 1) as nat),
            );
            assert(s as int / 2 == (s / 2) as int);
            assert(2 * spec_pow2((z - 1) as nat) == spec_pow2(z));
        }
    }
}

/// How many low bits the adapter shifts out of the square-root price: at
/// least the 33 needed so that 2^(192 - 2z) fits in 128 bits, and more
/// only while the mantissa still exceeds 64 bits.
pub open spec fn v3_shift(s: nat) -> nat {
    if v3_ebits(s) > 33 {
        v3_ebits(s)
    } else {
        33
    }
}

/// The 64-bit mantissa left after the shift.
pub open spec fn v3_mantissa(s: nat) -> int {
    s as int / spec_pow2(v3_shift(s))
}

/// The square-root price the adapter actually squares: `s` with its
/// `v3_shift(s)` low bits dropped. Equal to `s` whenever those bits are
/// zero (in particular for every multiple of 2^33 below 2^97).
pub open spec fn v3_approx(s: nat) -> int {
    v3_mantissa(s) * spec_pow2(v3_shift(s))
}

/// The raw token1-per-token0 price: sqrtPriceX96 squared over 2^192.
pub open spec fn v3_raw_price(s: int) -> SRat {
    SRat { n: s * s, d: spec_q192() }
}

/// The decimal correction 10^(decimals0 - decimals1), as a rational.
pub open spec fn v3_decimal_factor(d0: nat, d1: nat) -> SRat {
    if d0 >= d1 {
        SRat { n: spec_pow10((d0 - d1) as nat), d: 1 }
    } else {
        SRat { n: 1, d: spec_pow10((d1 - d0) as nat) }
    }
}

/// The adjusted token1-per-token0 price in real units.
pub open spec fn v3_adjusted_price(s: int, d0: nat, d1: nat) -> SRat {
    srat_mul(v3_raw_price(s), v3_decimal_factor(d0, d1))
}

/// The price of the requested token: the adjusted price when the requested
/// token is slot 0, its inverse when it is slot 1.
pub open spec fn v3_price(s: int, d0: nat, d1: nat, req_is_t0: bool) -> SRat {
    if req_is_t0 {
        v3_adjusted_price(s, d0, d1)
    } else {
        srat_div(SRat { n: 1, d: 1 }, v3_adjusted_price(s, d0, d1))
    }
}

/// Pool value in counter-asset units: the requested-token balance times the
/// price, plus the counter balance, each balance scaled by its decimals.
pub open spec fn v3_value(s: int, d0: nat, d1: nat, req_is_t0: bool, b0: int, b1: int) -> SRat {
    let s0 = SRat { n: b0, d: spec_pow10(d0) };
    let s1 = SRat { n: b1, d: spec_pow10(d1) };
    if req_is_t0 {
        srat_add(srat_mul(s0, v3_price(s, d0, d1, req_is_t0)), s1)
    } else {
        srat_add(srat_mul(s1, v3_price(s, d0, d1, req_is_t0)), s0)
    }
}

/// When the exact quote is representable in 128-bit components, stated over
/// the inputs alone. `n0` and `q0` are the exact adjusted-price components
/// after the lossless power-of-two cancellation; the remaining bounds are
/// the component products of the value computation. A quote is owed on
/// every input satisfying this; further reduction can only widen the
/// region. All ordinary pool states (square-root prices between 2^66 and
/// 2^128 against balances below 2^90, with decimals up to 18) satisfy it.
pub open spec fn v3_fits(s: nat, d0: nat, d1: nat, req_is_t0: bool, b0: int, b1: int) -> bool {
    let z = v3_shift(s);
    let t = v3_mantissa(s);
    let f = v3_decimal_factor(d0, d1);
    let n0 = t * t * f.n;
    let q0 = spec_pow2((192 - 2 * z) as nat) * f.d;
    let pb = if req_is_t0 {
        n0
    } else {
        q0
    };
    let db = if req_is_t0 {
        q0
    } else {
        n0
    };
    let br = if req_is_t0 {
        b0
    } else {
        b1
    };
    let bo = if req_is_t0 {
        b1
    } else {
        b0
    };
    let sr = if req_is_t0 {
        spec_pow10(d0)
    } else {
        spec_pow10(d1)
    };
    let so = if req_is_t0 {
        spec_pow10(d1)
    } else {
        spec_pow10(d0)
    };
    &&& t >= 1
    &&& n0 <= u128::MAX
    &&& q0 <= u128::MAX
    &&& sr <= u128::MAX
    &&& so <= u128::MAX
    &&& br * pb <= u128::MAX
    &&& sr * db <= u128::MAX
    &&& (br * pb) * so + bo * (sr * db) <= u128::MAX
    &&& (sr * db) * so <= u128::MAX
}

/// The concentrated-liquidity V3-style adapter.
pub struct UniswapV3;

impl UniswapV3 {
    /// Normalize one concentrated-liquidity pool read into a quote for
    /// `token`.
    ///
    /// `sqrt_price_x96`, the decimals and the balances are the values read
    /// on chain; a failed read never reaches this function (the caller maps
    /// it to `PoolError::Rpc` itself).
    pub fn get_price_and_tvl(
        &self,
        token0: &Address,
        token1: &Address,
        token: &Address,
        dec0: u8,
        dec1: u8,
        sqrt_price_x96: u128,
        balance0: u128,
        balance1: u128,
    ) -> (r: Result<Quote, PoolError>)
        ensures
            (r == Err::<Quote, PoolError>(PoolError::TokenNotInPool)) <==> (token0.bytes@
                != token.bytes@ && token1.bytes@ != token.bytes@),
            (r == Err::<Quote, PoolError>(PoolError::ZeroReserve)) <==> ((token0.bytes@
                == token.bytes@ || token1.bytes@ == token.bytes@) && sqrt_price_x96 == 0),
            r is Ok ==> ({
                let req_is_t0 = token0.bytes@ == token.bytes@;
                let q = r->Ok_0;
                &&& q.wf()
                &&& srat_eq(
                    q.price.model(),
                    v3_price(v3_approx(sqrt_price_x96 as nat), dec0 as nat, dec1 as nat, req_is_t0),
                )
                &&& srat_eq(
                    q.value.model(),
                    v3_value(
                        v3_approx(sqrt_price_x96 as nat),
                        dec0 as nat,
                        dec1 as nat,
                        req_is_t0,
                        balance0 as int,
                        balance1 as int,
                    ),
                )
            }),
            ((token0.bytes@ == token.bytes@ || token1.bytes@ == token.bytes@) && sqrt_price_x96
                >= 1 && v3_fits(
                sqrt_price_x96 as nat,
                dec0 as nat,
                dec1 as nat,
                token0.bytes@ == token.bytes@,
                balance0 as int,
                balance1 as int,
            )) ==> r is Ok,
            r != Err::<Quote, PoolError>(PoolError::Rpc),
    {
        let matched0 = token0.matches(token);
        let matched1 = token1.matches(token);
        if !matched0 && !matched1 {
            return Err(PoolError::TokenNotInPool);
        }
        if sqrt_price_x96 == 0 {
            return Err(PoolError::ZeroReserve);
        }
        let ghost s = sqrt_price_x96 as nat;
        let ghost d0n = dec0 as nat;
        let ghost d1n = dec1 as nat;
        let ghost fits = v3_fits(s, d0n, d1n, matched0, balance0 as int, balance1 as int);

        // Truncate the square-root price to a 64-bit mantissa and a power
        // of two, shifting out at least 33 low bits.
        let mut t: u128 = sqrt_price_x96;
        let mut z: u8 = 0;
        while (z < 33 || t >= 0x10000000000000000) && z < 97
            invariant
                z <= 97,
                t as int == s as int / spec_pow2(z as nat),
                z > 33 ==> s as int / spec_pow2((z - 1) as nat) >= 0x10000000000000000int,
            decreases 97 - z,
        {
            proof {
                lemma_pow2_pos(z as nat);
                vstd::arithmetic::div_mod::lemma_div_denominator(
                    s as int,
                    spec_pow2(z as nat),
                    2,
                );
                assert(spec_pow2(z as nat) * 2 == spec_pow2((z + 1) as nat));
            }
            t = t / 2;
            z = z + 1;
        }
        proof {
            // The loop cannot run out of shifts: by 64 the mantissa fits.
            if z >= 65 {
                lemma_mantissa_small(s, (z - 1) as nat);
            }
            assert(z as nat <= 64 || (z >= 33 && t < 0x10000000000000000));
            // The loop's mantissa and shift are the ones the contract names.
            lemma_ebits_iff(s, z as nat);
            if z > 33 {
                lemma_ebits_iff(s, (z - 1) as nat);
            }
            assert(z as nat == v3_shift(s));
            assert(t as int == v3_mantissa(s));
        }
        if t == 0 {
            // The whole square-root price sat in the dropped low bits: the
            // price is below the representable range.
            proof {
                assert(!fits);
            }
            return Err(PoolError::NumericOverflow);
        }

        // Decimal correction factor 10^(dec0 - dec1).
        let ghost f = v3_decimal_factor(d0n, d1n);
        proof {
            if d0n >= d1n {
                lemma_pow10_pos((d0n - d1n) as nat);
            } else {
                lemma_pow10_pos((d1n - d0n) as nat);
            }
        }
        let (f_num, f_den): (u128, u128) = if dec0 >= dec1 {
            let v = match pow10(dec0 - dec1) {
                Some(v) => v,
                None => {
                    proof {
                        assert(t as int * t as int * f.n >= f.n) by (nonlinear_arith)
                            requires
                                t >= 1,
                                f.n >= 1,
                        ;
                        assert(!fits);
                    }
                    return Err(PoolError::NumericOverflow);
                },
            };
            (v, 1)
        } else {
            let v = match pow10(dec1 - dec0) {
                Some(v) => v,
                None => {
                    proof {
                        lemma_pow2_pos((192 - 2 * z as nat) as nat);
                        assert(spec_pow2((192 - 2 * z as nat) as nat) * f.d >= f.d)
                            by (nonlinear_arith)
                            requires
                                spec_pow2((192 - 2 * z as nat) as nat) >= 1,
                                f.d >= 1,
                        ;
                        assert(!fits);
                    }
                    return Err(PoolError::NumericOverflow);
                },
            };
            (1, v)
        };
        assert(f_num as int == f.n && f_den as int == f.d);

        // Exact adjusted-price components: t^2 * f.n over 2^(192-2z) * f.d.
        let ghost n0 = t as int * t as int * f.n;
        let ghost q0 = spec_pow2((192 - 2 * z as nat) as nat) * f.d;
        let t2 = match t.checked_mul(t) {
            Some(v) => v,
            None => {
                proof {
                    assert(n0 >= t as int * t as int) by (nonlinear_arith)
                        requires
                            t >= 1,
                            f.n >= 1,
                            n0 == t as int * t as int * f.n,
                    ;
                    assert(!fits);
                }
                return Err(PoolError::NumericOverflow);
            },
        };
        let den0 = match pow2_u128(192 - 2 * z) {
            Some(v) => v,
            None => {
                proof {
                    lemma_pow2_pos((192 - 2 * z as nat) as nat);
                    assert(q0 >= spec_pow2((192 - 2 * z as nat) as nat)) by (nonlinear_arith)
                        requires
                            spec_pow2((192 - 2 * z as nat) as nat) >= 1,
                            f.d >= 1,
                            q0 == spec_pow2((192 - 2 * z as nat) as nat) * f.d,
                    ;
                    assert(!fits);
                }
                return Err(PoolError::NumericOverflow);
            },
        };
        let raw = Rat::reduced(t2, den0);
        let factor = Rat::new(f_num, f_den);
        let adjusted = match raw.checked_mul(&factor) {
            Some(v) => v,
            None => {
                proof {
                    lemma_mul_le(raw.num as int, t2 as int, f_num as int, f.n);
                    lemma_mul_le(raw.den as int, den0 as int, f_den as int, f.d);
                    assert(!fits);
                }
                return Err(PoolError::NumericOverflow);
            },
        };
        let ghost sa = v3_approx(s);
        let ghost adj = v3_adjusted_price(sa, d0n, d1n);
        proof {
            // The exact adjusted price is t^2 * f.n over 2^(192-2z) * f.d.
            lemma_mul_congruence(
                raw.model(),
                factor.model(),
                SRat { n: t2 as int, d: den0 as int },
                factor.model(),
            );
            lemma_pos_mul(raw.model().d, factor.model().d);
            lemma_eq_transitive(
                adjusted.model(),
                srat_mul(raw.model(), factor.model()),
                SRat { n: n0, d: q0 },
            );
            assert(sa == t as int * spec_pow2(z as nat));
            // The cancelled power of two is restored by 2^2z * 2^(192-2z).
            lemma_pow2_adds(z as nat, z as nat);
            lemma_pow2_adds((2 * z as nat) as nat, (192 - 2 * z as nat) as nat);
            lemma_pow2_consts();
            assert(srat_eq(SRat { n: n0, d: q0 }, adj)) by (nonlinear_arith)
                requires
                    sa == t as int * spec_pow2(z as nat),
                    n0 == t as int * t as int * f.n,
                    q0 == spec_pow2((192 - 2 * z as nat) as nat) * f.d,
                    spec_pow2(z as nat) * spec_pow2(z as nat) == spec_pow2((2 * z as nat) as nat),
                    spec_pow2((2 * z as nat) as nat) * spec_pow2((192 - 2 * z as nat) as nat)
                        == spec_q192(),
                    adj == srat_mul(v3_raw_price(sa), f),
                    adj.n == (sa * sa) * f.n,
                    adj.d == spec_q192() * f.d,
            ;
            lemma_pow2_pos((192 - 2 * z as nat) as nat);
            lemma_pos_mul(spec_pow2((192 - 2 * z as nat) as nat), f.d);
            lemma_eq_transitive(adjusted.model(), SRat { n: n0, d: q0 }, adj);
            lemma_pos_mul(spec_q192(), f.d);
            // The adjusted price is positive, so its representation is too.
            assert(n0 >= 1) by (nonlinear_arith)
                requires
                    t >= 1,
                    f.n >= 1,
                    n0 == t as int * t as int * f.n,
            ;
            lemma_pow2_pos(z as nat);
            assert(sa >= 1) by (nonlinear_arith)
                requires
                    t >= 1,
                    spec_pow2(z as nat) >= 1,
                    sa == t as int * spec_pow2(z as nat),
            ;
            assert(adj.n >= 1) by (nonlinear_arith)
                requires
                    sa >= 1,
                    f.n >= 1,
                    adj.n == (sa * sa) * f.n,
            ;
            lemma_eq_zero(adjusted.model(), SRat { n: n0, d: q0 });
            // Component bounds for the value computation.
            lemma_mul_le(raw.num as int, t2 as int, f_num as int, f.n);
            lemma_mul_le(raw.den as int, den0 as int, f_den as int, f.d);
            assert(adjusted.num as int <= n0 && adjusted.den as int <= q0);
        }

        // Orient the price to the requested token.
        let ghost pb: int = if matched0 {
            n0
        } else {
            q0
        };
        let ghost db: int = if matched0 {
            q0
        } else {
            n0
        };
        let price = if matched0 {
            adjusted
        } else {
            let one = Rat::new(1, 1);
            match one.checked_div(&adjusted) {
                Some(v) => v,
                None => {
                    proof {
                        assert(1int * adjusted.den as int == adjusted.den as int);
                        assert(1int * adjusted.num as int == adjusted.num as int);
                        assert(false);
                    }
                    return Err(PoolError::NumericOverflow);
                },
            }
        };
        proof {
            if !matched0 {
                lemma_div_congruence(
                    SRat { n: 1, d: 1 },
                    adjusted.model(),
                    SRat { n: 1, d: 1 },
                    adj,
                );
                assert(srat_div(SRat { n: 1, d: 1 }, adjusted.model()).d == 1 * (
                adjusted.model().n));
                lemma_eq_transitive(
                    price.model(),
                    srat_div(SRat { n: 1, d: 1 }, adjusted.model()),
                    v3_price(sa, d0n, d1n, false),
                );
                assert(price.num as int <= 1 * adjusted.den as int);
                assert(price.den as int <= 1 * adjusted.num as int);
            }
            assert(price.num as int <= pb && price.den as int <= db);
        }

        // Pool value from the scaled balances.
        let ghost sr: int = if matched0 {
            spec_pow10(d0n)
        } else {
            spec_pow10(d1n)
        };
        let ghost so: int = if matched0 {
            spec_pow10(d1n)
        } else {
            spec_pow10(d0n)
        };
        let p0 = match pow10(dec0) {
            Some(v) => v,
            None => {
                proof {
                    assert(!fits);
                }
                return Err(PoolError::NumericOverflow);
            },
        };
        let p1 = match pow10(dec1) {
            Some(v) => v,
            None => {
                proof {
                    assert(!fits);
                }
                return Err(PoolError::NumericOverflow);
            },
        };
        let scaled0 = Rat::new(balance0, p0);
        let scaled1 = Rat::new(balance1, p1);
        let (bal_req, bal_other) = if matched0 {
            (scaled0, scaled1)
        } else {
            (scaled1, scaled0)
        };
        let ghost br: int = bal_req.num as int;
        let ghost bo: int = bal_other.num as int;
        let scaled = match bal_req.checked_mul(&price) {
            Some(v) => v,
            None => {
                proof {
                    lemma_mul_le(br, br, price.num as int, pb);
                    lemma_mul_le(bal_req.den as int, sr, price.den as int, db);
                    assert(!fits);
                }
                return Err(PoolError::NumericOverflow);
            },
        };
        let value = match scaled.checked_add(&bal_other) {
            Some(v) => v,
            None => {
                proof {
                    lemma_mul_le(br, br, price.num as int, pb);
                    lemma_mul_le(bal_req.den as int, sr, price.den as int, db);
                    lemma_mul_le(scaled.num as int, br * pb, bal_other.den as int, so);
                    lemma_mul_le(bal_other.num as int, bo, scaled.den as int, sr * db);
                    lemma_mul_le(scaled.den as int, sr * db, bal_other.den as int, so);
                    assert(!fits);
                }
                return Err(PoolError::NumericOverflow);
            },
        };
        proof {
            let ghost pr = v3_price(sa, d0n, d1n, matched0);
            assert(srat_eq(bal_req.model(), bal_req.model()));
            lemma_mul_congruence(bal_req.model(), price.model(), bal_req.model(), pr);
            lemma_pos_mul(bal_req.model().d, price.model().d);
            lemma_eq_transitive(
                scaled.model(),
                srat_mul(bal_req.model(), price.model()),
                srat_mul(bal_req.model(), pr),
            );
            assert(srat_eq(bal_other.model(), bal_other.model()));
            if matched0 {
                assert(pr.d == spec_q192() * f.d);
                lemma_pos_mul(spec_q192(), f.d);
            } else {
                assert(pr.d == 1 * adj.n);
            }
            lemma_pos_mul(bal_req.model().d, pr.d);
            lemma_add_congruence(
                scaled.model(),
                bal_other.model(),
                srat_mul(bal_req.model(), pr),
                bal_other.model(),
            );
            lemma_pos_mul(scaled.model().d, bal_other.model().d);
            lemma_eq_transitive(
                value.model(),
                srat_add(scaled.model(), bal_other.model()),
                srat_add(srat_mul(bal_req.model(), pr), bal_other.model()),
            );
        }
        Ok(Quote { price, value })
    }
}

} // verus!
