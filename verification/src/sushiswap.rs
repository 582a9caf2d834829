//! Constant-product (V2-style) pool adapter.
//!
//! Given the two raw reserves and the two token slots of a pair pool, the
//! adapter identifies which reserve belongs to the requested token and
//! which to the counter asset, converts both to exact rationals with their
//! fixed-point scales (the requested-token side always over 10^18, the
//! counter side over the resolved stablecoin scale), and yields
//! `price = counter / token` and `value = token * price + counter`,
//! both in counter-asset units. The outcome is characterized exactly:
//! a quote comes back if and only if the requested token is in the pool,
//! both reserves are positive, and the exact components fit (`cp_fits`).

use vstd::prelude::*;

use crate::address::Address;
use crate::dex::{spec_stable_scale, spec_token_scale, decimals_for_stablecoin, PoolError, Quote};
use crate::rational::{srat_add, srat_div, srat_eq, srat_mul, Rat, SRat};

verus! {

/// Requested-token reserve, counter reserve and counter address, oriented
/// by which slot holds the requested token (slot 0 takes precedence).
/// Meaningful only when one slot matches.
pub open spec fn cp_orientation(
    reserve0: int,
    reserve1: int,
    t0: Seq<u8>,
    t1: Seq<u8>,
    req: Seq<u8>,
) -> (int, int, Seq<u8>) {
    if t0 == req {
        (reserve0, reserve1, t1)
    } else {
        (reserve1, reserve0, t0)
    }
}

/// Exact price of the requested token: (counter reserve / counter scale)
/// divided by (token reserve / 10^18).
pub open spec fn cp_price(rt: int, rc: int, scale: int) -> SRat {
    srat_div(SRat { n: rc, d: scale }, SRat { n: rt, d: spec_token_scale() })
}

/// Exact pool value in counter-asset units: token reserve times the price,
/// plus the counter reserve.
pub open spec fn cp_value(rt: int, rc: int, scale: int) -> SRat {
    srat_add(
        srat_mul(SRat { n: rt, d: spec_token_scale() }, cp_price(rt, rc, scale)),
        SRat { n: rc, d: scale },
    )
}

/// When the exact quote components fit in `u128`: the price numerator
/// `rc * 10^18`, the price denominator `scale * rt`, and the value
/// numerator `2 * rc` (the exact pool value is twice the scaled counter
/// reserve). Both reserves may be as large as about 3 * 10^20 base units;
/// beyond that the adapter reports overflow instead of rounding.
pub open spec fn cp_fits(rt: int, rc: int, scale: int) -> bool {
    &&& rc * spec_token_scale() <= u128::MAX
    &&& scale * rt <= u128::MAX
    &&& 2 * rc <= u128::MAX
}

/// The exact pool value equals twice the scaled counter reserve.
proof fn lemma_cp_value_closed_form(rt: int, rc: int, sc: int, e: int)
    by (nonlinear_arith)
    requires
        rt >= 1,
        sc >= 1,
        e >= 1,
    ensures
        (2 * rc) * ((e * (sc * rt)) * sc) == ((rt * (rc * e)) * sc + rc * (e * (sc * rt))) * sc,
{
}

/// The constant-product V2-style adapter (also used by its fork variant,
/// whose pools share the pair layout).
pub struct Sushiswap;

impl Sushiswap {
    /// Normalize one constant-product pool read into a quote for `token`.
    ///
    /// The reserves and token slots are the values read from the pool
    /// contract; a failed read never reaches this function (the caller maps
    /// it to `PoolError::Rpc` itself).
    pub fn get_price_and_tvl(
        &self,
        reserve0: u128,
        reserve1: u128,
        token0: &Address,
        token1: &Address,
        token: &Address,
    ) -> (r: Result<Quote, PoolError>)
        ensures
            (r == Err::<Quote, PoolError>(PoolError::TokenNotInPool)) <==> (token0.bytes@
                != token.bytes@ && token1.bytes@ != token.bytes@),
            ({
                let matched = token0.bytes@ == token.bytes@ || token1.bytes@ == token.bytes@;
                let o = cp_orientation(
                    reserve0 as int,
                    reserve1 as int,
                    token0.bytes@,
                    token1.bytes@,
                    token.bytes@,
                );
                let scale = spec_stable_scale(o.2);
                &&& (r == Err::<Quote, PoolError>(PoolError::ZeroReserve)) <==> (matched && (o.0
                    == 0 || o.1 == 0))
                &&& (r is Ok) <==> (matched && o.0 >= 1 && o.1 >= 1 && cp_fits(o.0, o.1, scale))
                &&& (r == Err::<Quote, PoolError>(PoolError::NumericOverflow)) <==> (matched && o.0
                    >= 1 && o.1 >= 1 && !cp_fits(o.0, o.1, scale))
                &&& r is Ok ==> {
                    let q = r->Ok_0;
                    &&& q.wf()
                    &&& srat_eq(q.price.model(), cp_price(o.0, o.1, scale))
                    &&& srat_eq(q.value.model(), cp_value(o.0, o.1, scale))
                }
            }),
            r != Err::<Quote, PoolError>(PoolError::Rpc),
    {
        let matched0 = token0.matches(token);
        let matched1 = token1.matches(token);
        if !matched0 && !matched1 {
            return Err(PoolError::TokenNotInPool);
        }
        let (reserve_token, reserve_counter, counter): (u128, u128, &Address) = if matched0 {
            (reserve0, reserve1, token1)
        } else {
            (reserve1, reserve0, token0)
        };
        if reserve_token == 0 || reserve_counter == 0 {
            return Err(PoolError::ZeroReserve);
        }
        let scale = decimals_for_stablecoin(counter);
        let ghost sc = spec_stable_scale(counter.bytes@);

        // Exact price components: rc * 10^18 over scale * rt.
        let price_num = match reserve_counter.checked_mul(1_000_000_000_000_000_000) {
            Some(v) => v,
            None => {
                return Err(PoolError::NumericOverflow);
            },
        };
        let price_den = match (scale as u128).checked_mul(reserve_token) {
            Some(v) => v,
            None => {
                return Err(PoolError::NumericOverflow);
            },
        };
        // Exact value numerator: the pool value is 2 * rc / scale.
        let value_num = match reserve_counter.checked_mul(2) {
            Some(v) => v,
            None => {
                return Err(PoolError::NumericOverflow);
            },
        };
        proof {
            assert(price_den >= 1) by (nonlinear_arith)
                requires
                    price_den as int == sc * (reserve_token as int),
                    sc >= 1,
                    reserve_token >= 1,
            ;
            assert(price_num >= 1) by (nonlinear_arith)
                requires
                    price_num as int == reserve_counter as int * spec_token_scale(),
                    reserve_counter >= 1,
            ;
            assert(reserve_counter as int * 2 == 2 * (reserve_counter as int));
        }
        let price = Rat::reduced(price_num, price_den);
        let value = Rat::reduced(value_num, scale as u128);
        proof {
            let rt = reserve_token as int;
            let rc = reserve_counter as int;
            let p = cp_price(rt, rc, sc);
            assert(p.n == rc * spec_token_scale() && p.d == sc * rt);
            assert(srat_eq(price.model(), p));
            let v = cp_value(rt, rc, sc);
            lemma_cp_value_closed_form(rt, rc, sc, spec_token_scale());
            assert(srat_eq(SRat { n: 2 * rc, d: sc }, v));
            // Chain the reduced representation to the exact value.
            assert(srat_eq(value.model(), SRat { n: 2 * rc, d: sc }));
            crate::rational::lemma_eq_transitive(value.model(), SRat { n: 2 * rc, d: sc }, v);
        }
        Ok(Quote { price, value })
    }
}

} // verus!
