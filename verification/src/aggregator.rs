//! Liquidity-weighted price aggregation.
//!
//! Each pool of a token yields either a normalized quote or a recoverable
//! error. The aggregator keeps the quotes, drops the failures, and reduces
//! the quotes to the weighted arithmetic mean
//! `sum(price_i * value_i) / sum(value_i)`. A token with no valid quote
//! fails with `NoValidPoolData`; a token whose valid quotes carry no value
//! fails with `ZeroTotalValue`, never dividing by zero.

use vstd::prelude::*;

use crate::dex::{PoolError, Quote};
use crate::rational::{
    lemma_add_congruence,
    lemma_mul_le,
    lemma_div_congruence,
    lemma_eq_transitive,
    lemma_eq_zero,
    lemma_le_add_mono,
    lemma_le_eq_compat_left,
    lemma_le_eq_compat_right,
    lemma_le_mul_nonneg,
    lemma_mul_add_distrib,
    lemma_mul_congruence,
    lemma_pos_mul,
    srat_add,
    srat_div,
    srat_eq,
    srat_le,
    srat_mul,
    srat_zero,
    Rat,
    SRat,
};

verus! {

/// Why a whole token's aggregation failed.
#[derive(Clone, Copy, Debug, PartialEq, Eq, Structural)]
pub enum AggError {
    /// Every pool of the token failed: there is nothing to average.
    NoValidPoolData,
    /// Every valid quote reported zero value: the mean is undefined.
    ZeroTotalValue,
    /// An exact intermediate did not fit in 128-bit components.
    NumericOverflow,
}

pub open spec fn all_wf(s: Seq<Quote>) -> bool {
    forall|i: int| 0 <= i < s.len() ==> (#[trigger] s[i]).wf()
}

/// The total value of a sequence of quotes.
pub open spec fn sum_value(s: Seq<Quote>) -> SRat
    decreases s.len(),
{
    if s.len() == 0 {
        srat_zero()
    } else {
        srat_add(sum_value(s.drop_last()), s.last().value.model())
    }
}

/// The total of price times value over a sequence of quotes.
pub open spec fn sum_weighted(s: Seq<Quote>) -> SRat
    decreases s.len(),
{
    if s.len() == 0 {
        srat_zero()
    } else {
        srat_add(sum_weighted(s.drop_last()), srat_mul(s.last().price.model(), s.last().value.model()))
    }
}

/// The liquidity-weighted mean price of a sequence of quotes (meaningful
/// when the total value is positive).
pub open spec fn spec_weighted_price(s: Seq<Quote>) -> SRat {
    srat_div(sum_weighted(s), sum_value(s))
}

/// When the exact folds of the weighted mean fit in `u128` components at
/// every step: each prefix's total-value and weighted-total components, and
/// the final quotient's cross products. Under this bound the aggregation is
/// owed to succeed; reduction can only widen the region further.
pub open spec fn agg_fits(s: Seq<Quote>) -> bool {
    &&& forall|i: int|
        0 <= i <= s.len() ==> {
            let t = #[trigger] s.take(i);
            &&& sum_value(t).n <= u128::MAX
            &&& sum_value(t).d <= u128::MAX
            &&& sum_weighted(t).n <= u128::MAX
            &&& sum_weighted(t).d <= u128::MAX
        }
    &&& sum_weighted(s).n * sum_value(s).d <= u128::MAX
    &&& sum_weighted(s).d * sum_value(s).n <= u128::MAX
}

/// A non-negative integer does not shrink when multiplied by a positive one.
proof fn lemma_ge_self_mul(x: int, d: int)
    by (nonlinear_arith)
    requires
        x >= 0,
        d >= 1,
    ensures
        x * d >= x,
        d * x >= x,
{
}

pub open spec fn all_values_zero(s: Seq<Quote>) -> bool {
    forall|i: int| 0 <= i < s.len() ==> (#[trigger] s[i]).value.num == 0
}

pub proof fn lemma_sums_wf(s: Seq<Quote>)
    requires
        all_wf(s),
    ensures
        sum_value(s).d > 0,
        sum_value(s).n >= 0,
        sum_weighted(s).d > 0,
        sum_weighted(s).n >= 0,
    decreases s.len(),
{
    if s.len() > 0 {
        let t = s.drop_last();
        assert(all_wf(t)) by {
            assert(forall|i: int| 0 <= i < t.len() ==> t[i] == s[i]);
        }
        lemma_sums_wf(t);
        assert(s[s.len() - 1].wf());
        let a = sum_value(t);
        let w = sum_weighted(t);
        let p = s.last().price.model();
        let v = s.last().value.model();
        lemma_pos_mul(a.d, v.d);
        vstd::arithmetic::mul::lemma_mul_nonnegative(a.n, v.d);
        vstd::arithmetic::mul::lemma_mul_nonnegative(v.n, a.d);
        lemma_pos_mul(p.d, v.d);
        vstd::arithmetic::mul::lemma_mul_nonnegative(p.n, v.n);
        lemma_pos_mul(w.d, p.d * v.d);
        vstd::arithmetic::mul::lemma_mul_nonnegative(w.n, p.d * v.d);
        vstd::arithmetic::mul::lemma_mul_nonnegative(p.n * v.n, w.d);
    }
}

/// The total value (and the weighted total) is zero exactly when every
/// quote's value is zero.
pub proof fn lemma_sum_zero(s: Seq<Quote>)
    requires
        all_wf(s),
    ensures
        (sum_value(s).n == 0) <==> all_values_zero(s),
        (sum_weighted(s).n == 0) <==> all_values_zero(s),
    decreases s.len(),
{
    if s.len() == 0 {
    } else {
        let t = s.drop_last();
        assert(all_wf(t)) by {
            assert(forall|i: int| 0 <= i < t.len() ==> t[i] == s[i]);
        }
        lemma_sum_zero(t);
        lemma_sums_wf(t);
        assert(s[s.len() - 1].wf());
        let a = sum_value(t);
        let w = sum_weighted(t);
        let p = s.last().price.model();
        let v = s.last().value.model();
        assert((a.n * v.d + v.n * a.d == 0) <==> (a.n == 0 && v.n == 0)) by (nonlinear_arith)
            requires
                a.n >= 0,
                a.d > 0,
                v.n >= 0,
                v.d > 0,
        ;
        assert(((p.n * v.n) == 0) <==> (v.n == 0)) by (nonlinear_arith)
            requires
                p.n >= 1,
                v.n >= 0,
        ;
        lemma_pos_mul(p.d, v.d);
        assert((w.n * (p.d * v.d) + (p.n * v.n) * w.d == 0) <==> (w.n == 0 && p.n * v.n == 0))
            by (nonlinear_arith)
            requires
                w.n >= 0,
                w.d > 0,
                p.n * v.n >= 0,
                p.d * v.d > 0,
        ;
        vstd::arithmetic::mul::lemma_mul_nonnegative(p.n, v.n);
        assert(all_values_zero(s) <==> (all_values_zero(t) && s[s.len() - 1].value.num == 0)) by {
            assert(forall|i: int| 0 <= i < t.len() ==> t[i] == s[i]);
        }
    }
}

/// Every quote's price at most `hi` bounds the weighted total from above.
proof fn lemma_sum_weighted_upper(s: Seq<Quote>, hi: SRat)
    requires
        all_wf(s),
        hi.d > 0,
        forall|i: int| 0 <= i < s.len() ==> srat_le((#[trigger] s[i]).price.model(), hi),
    ensures
        srat_le(sum_weighted(s), srat_mul(hi, sum_value(s))),
    decreases s.len(),
{
    if s.len() == 0 {
        assert(srat_le(srat_zero(), srat_mul(hi, srat_zero()))) by (nonlinear_arith)
            requires
                hi.d > 0,
        ;
    } else {
        let t = s.drop_last();
        assert(all_wf(t) && (forall|i: int|
            0 <= i < t.len() ==> srat_le((#[trigger] t[i]).price.model(), hi))) by {
            assert(forall|i: int| 0 <= i < t.len() ==> t[i] == s[i]);
        }
        lemma_sum_weighted_upper(t, hi);
        lemma_sums_wf(t);
        assert(s[s.len() - 1].wf());
        assert(srat_le(s[s.len() - 1].price.model(), hi));
        let p = s.last().price.model();
        let v = s.last().value.model();
        lemma_le_mul_nonneg(p, hi, v);
        lemma_pos_mul(p.d, v.d);
        lemma_pos_mul(hi.d, sum_value(t).d);
        lemma_pos_mul(hi.d, v.d);
        lemma_le_add_mono(
            sum_weighted(t),
            srat_mul(p, v),
            srat_mul(hi, sum_value(t)),
            srat_mul(hi, v),
        );
        lemma_mul_add_distrib(hi, sum_value(t), v);
        lemma_pos_mul(hi.d * sum_value(t).d, hi.d * v.d);
        lemma_pos_mul(sum_value(t).d, v.d);
        lemma_pos_mul(hi.d, sum_value(t).d * v.d);
        lemma_le_eq_compat_right(
            sum_weighted(s),
            srat_add(srat_mul(hi, sum_value(t)), srat_mul(hi, v)),
            srat_mul(hi, sum_value(s)),
        );
    }
}

/// Every quote's price at least `lo` bounds the weighted total from below.
proof fn lemma_sum_weighted_lower(s: Seq<Quote>, lo: SRat)
    requires
        all_wf(s),
        lo.d > 0,
        forall|i: int| 0 <= i < s.len() ==> srat_le(lo, (#[trigger] s[i]).price.model()),
    ensures
        srat_le(srat_mul(lo, sum_value(s)), sum_weighted(s)),
    decreases s.len(),
{
    if s.len() == 0 {
        assert(srat_le(srat_mul(lo, srat_zero()), srat_zero())) by (nonlinear_arith)
            requires
                lo.d > 0,
        ;
    } else {
        let t = s.drop_last();
        assert(all_wf(t) && (forall|i: int|
            0 <= i < t.len() ==> srat_le(lo, (#[trigger] t[i]).price.model()))) by {
            assert(forall|i: int| 0 <= i < t.len() ==> t[i] == s[i]);
        }
        lemma_sum_weighted_lower(t, lo);
        lemma_sums_wf(t);
        assert(s[s.len() - 1].wf());
        assert(srat_le(lo, s[s.len() - 1].price.model()));
        let p = s.last().price.model();
        let v = s.last().value.model();
        lemma_le_mul_nonneg(lo, p, v);
        lemma_pos_mul(p.d, v.d);
        lemma_pos_mul(lo.d, sum_value(t).d);
        lemma_pos_mul(lo.d, v.d);
        lemma_le_add_mono(
            srat_mul(lo, sum_value(t)),
            srat_mul(lo, v),
            sum_weighted(t),
            srat_mul(p, v),
        );
        lemma_mul_add_distrib(lo, sum_value(t), v);
        lemma_pos_mul(lo.d * sum_value(t).d, lo.d * v.d);
        lemma_pos_mul(sum_value(t).d, v.d);
        lemma_pos_mul(lo.d, sum_value(t).d * v.d);
        lemma_le_eq_compat_left(
            srat_mul(lo, sum_value(s)),
            srat_add(srat_mul(lo, sum_value(t)), srat_mul(lo, v)),
            sum_weighted(s),
        );
    }
}

/// With a positive total value, the weighted mean price lies between any
/// lower bound and any upper bound of the individual pool prices.
pub proof fn lemma_weighted_price_bounds(s: Seq<Quote>, lo: SRat, hi: SRat)
    requires
        all_wf(s),
        lo.d > 0,
        hi.d > 0,
        sum_value(s).n > 0,
        forall|i: int|
            0 <= i < s.len() ==> srat_le(lo, (#[trigger] s[i]).price.model()) && srat_le(
                s[i].price.model(),
                hi,
            ),
    ensures
        srat_le(lo, spec_weighted_price(s)),
        srat_le(spec_weighted_price(s), hi),
{
    lemma_sums_wf(s);
    lemma_sum_weighted_upper(s, hi);
    lemma_sum_weighted_lower(s, lo);
    let sw = sum_weighted(s);
    let sv = sum_value(s);
    assert((sw.n * sv.d) * hi.d == sw.n * (hi.d * sv.d)) by (nonlinear_arith);
    assert(hi.n * (sw.d * sv.n) == (hi.n * sv.n) * sw.d) by (nonlinear_arith);
    assert(lo.n * (sw.d * sv.n) == (lo.n * sv.n) * sw.d) by (nonlinear_arith);
    assert((sw.n * sv.d) * lo.d == sw.n * (lo.d * sv.d)) by (nonlinear_arith);
}

/// With exactly one quote of positive value, the weighted mean price is
/// exactly that quote's own price.
pub proof fn lemma_single_quote(s: Seq<Quote>)
    requires
        s.len() == 1,
        all_wf(s),
        s[0].value.num >= 1,
    ensures
        srat_eq(spec_weighted_price(s), s[0].price.model()),
{
    assert(s.drop_last().len() == 0);
    assert(s.last() == s[0]);
    assert(s[0].wf());
    let p = s[0].price.model();
    let v = s[0].value.model();
    let sw = sum_weighted(s);
    let sv = sum_value(s);
    assert(sum_weighted(s.drop_last()) == srat_zero());
    assert(sum_value(s.drop_last()) == srat_zero());
    assert(sw == srat_add(srat_zero(), srat_mul(p, v)));
    assert(sv == srat_add(srat_zero(), v));
    assert(srat_eq(srat_div(sw, sv), p)) by (nonlinear_arith)
        requires
            sw == srat_add(srat_zero(), srat_mul(p, v)),
            sv == srat_add(srat_zero(), v),
    ;
}

/// The weighted mean price of a set of quotes.
///
/// Fails with `NoValidPoolData` exactly when there is no quote at all, and
/// with `ZeroTotalValue` exactly when there are quotes but their total
/// value is zero; otherwise it returns the exact mean, or reports overflow.
pub fn weighted_price(quotes: &Vec<Quote>) -> (r: Result<Rat, AggError>)
    requires
        all_wf(quotes@),
    ensures
        (r == Err::<Rat, AggError>(AggError::NoValidPoolData)) <==> quotes@.len() == 0,
        (r == Err::<Rat, AggError>(AggError::ZeroTotalValue)) <==> (quotes@.len() > 0 && sum_value(
            quotes@,
        ).n == 0),
        r is Ok ==> r->Ok_0.wf() && r->Ok_0.num >= 1 && srat_eq(
            r->Ok_0.model(),
            spec_weighted_price(quotes@),
        ),
        r == Err::<Rat, AggError>(AggError::NumericOverflow) ==> quotes@.len() > 0 && sum_value(
            quotes@,
        ).n > 0,
        (quotes@.len() > 0 && sum_value(quotes@).n > 0 && agg_fits(quotes@)) ==> r is Ok,
{
    if quotes.len() == 0 {
        return Err(AggError::NoValidPoolData);
    }
    let mut all_zero = true;
    let mut i: usize = 0;
    while i < quotes.len()
        invariant
            i <= quotes@.len(),
            all_zero <==> (forall|j: int| 0 <= j < i ==> (#[trigger] quotes@[j]).value.num == 0),
        decreases quotes@.len() - i,
    {
        if quotes[i].value.num != 0 {
            all_zero = false;
        }
        i = i + 1;
    }
    proof {
        lemma_sum_zero(quotes@);
        lemma_sums_wf(quotes@);
    }
    if all_zero {
        return Err(AggError::ZeroTotalValue);
    }
    let mut sum_v = Rat::new(0, 1);
    let mut sum_pv = Rat::new(0, 1);
    let mut k: usize = 0;
    while k < quotes.len()
        invariant
            k <= quotes@.len(),
            all_wf(quotes@),
            sum_value(quotes@).n > 0,
            sum_v.wf(),
            sum_pv.wf(),
            srat_eq(sum_v.model(), sum_value(quotes@.take(k as int))),
            srat_eq(sum_pv.model(), sum_weighted(quotes@.take(k as int))),
            sum_v.num <= sum_value(quotes@.take(k as int)).n,
            sum_v.den <= sum_value(quotes@.take(k as int)).d,
            sum_pv.num <= sum_weighted(quotes@.take(k as int)).n,
            sum_pv.den <= sum_weighted(quotes@.take(k as int)).d,
        decreases quotes@.len() - k,
    {
        assert(quotes@[k as int].wf());
        let ghost t = quotes@.take(k as int);
        let ghost t1 = quotes@.take(k as int + 1);
        let ghost p = quotes@[k as int].price.model();
        let ghost v = quotes@[k as int].value.model();
        let ghost sw = sum_weighted(t);
        let ghost sv = sum_value(t);
        proof {
            assert(t1.drop_last() =~= t);
            assert(t1.last() == quotes@[k as int]);
            assert(all_wf(t)) by {
                assert(forall|j: int| 0 <= j < t.len() ==> t[j] == quotes@[j]);
            }
            lemma_sums_wf(t);
            assert(sum_value(t1) == srat_add(sv, v));
            assert(sum_weighted(t1) == srat_add(sw, srat_mul(p, v)));
            lemma_pos_mul(p.d, v.d);
            vstd::arithmetic::mul::lemma_mul_nonnegative(p.n, v.n);
            vstd::arithmetic::mul::lemma_mul_nonnegative(sw.n, p.d * v.d);
            vstd::arithmetic::mul::lemma_mul_nonnegative(sv.n, v.d);
            lemma_ge_self_mul(p.n * v.n, sw.d);
            lemma_ge_self_mul(p.d * v.d, sw.d);
            lemma_ge_self_mul(v.n, sv.d);
            lemma_ge_self_mul(v.d, sv.d);
        }
        let pv = match quotes[k].price.checked_mul(&quotes[k].value) {
            Some(x) => x,
            None => {
                // The exact product already exceeds the step's spec totals.
                proof {
                    assert(sum_weighted(t1).n > u128::MAX || sum_weighted(t1).d > u128::MAX);
                    assert(!agg_fits(quotes@));
                }
                return Err(AggError::NumericOverflow);
            },
        };
        let new_pv = match sum_pv.checked_add(&pv) {
            Some(x) => x,
            None => {
                proof {
                    lemma_mul_le(sum_pv.num as int, sw.n, pv.den as int, p.d * v.d);
                    lemma_mul_le(pv.num as int, p.n * v.n, sum_pv.den as int, sw.d);
                    lemma_mul_le(sum_pv.den as int, sw.d, pv.den as int, p.d * v.d);
                    assert(sum_weighted(t1).n > u128::MAX || sum_weighted(t1).d > u128::MAX);
                    assert(!agg_fits(quotes@));
                }
                return Err(AggError::NumericOverflow);
            },
        };
        let new_v = match sum_v.checked_add(&quotes[k].value) {
            Some(x) => x,
            None => {
                proof {
                    lemma_mul_le(sum_v.num as int, sv.n, v.d, v.d);
                    lemma_mul_le(v.n, v.n, sum_v.den as int, sv.d);
                    lemma_mul_le(sum_v.den as int, sv.d, v.d, v.d);
                    assert(sum_value(t1).n > u128::MAX || sum_value(t1).d > u128::MAX);
                    assert(!agg_fits(quotes@));
                }
                return Err(AggError::NumericOverflow);
            },
        };
        proof {
            // The new value total models the spec total of one more quote.
            assert(srat_eq(v, v));
            lemma_add_congruence(sum_v.model(), v, sv, v);
            lemma_pos_mul(sum_v.model().d, v.d);
            lemma_pos_mul(sv.d, v.d);
            lemma_eq_transitive(new_v.model(), srat_add(sum_v.model(), v), sum_value(t1));
            // The new weighted total likewise.
            lemma_add_congruence(sum_pv.model(), pv.model(), sw, srat_mul(p, v));
            lemma_pos_mul(sum_pv.model().d, pv.model().d);
            lemma_pos_mul(sw.d, p.d * v.d);
            lemma_eq_transitive(new_pv.model(), srat_add(sum_pv.model(), pv.model()), sum_weighted(t1));
            // The reduced components stay below the spec totals.
            lemma_mul_le(sum_v.num as int, sv.n, v.d, v.d);
            lemma_mul_le(v.n, v.n, sum_v.den as int, sv.d);
            lemma_mul_le(sum_v.den as int, sv.d, v.d, v.d);
            lemma_mul_le(sum_pv.num as int, sw.n, pv.den as int, p.d * v.d);
            lemma_mul_le(pv.num as int, p.n * v.n, sum_pv.den as int, sw.d);
            lemma_mul_le(sum_pv.den as int, sw.d, pv.den as int, p.d * v.d);
        }
        sum_pv = new_pv;
        sum_v = new_v;
        k = k + 1;
    }
    proof {
        assert(quotes@.take(quotes@.len() as int) =~= quotes@);
        lemma_eq_zero(sum_v.model(), sum_value(quotes@));
        lemma_eq_zero(sum_pv.model(), sum_weighted(quotes@));
    }
    let res = match sum_pv.checked_div(&sum_v) {
        Some(v) => v,
        None => {
            proof {
                lemma_sums_wf(quotes@);
                lemma_mul_le(
                    sum_pv.num as int,
                    sum_weighted(quotes@).n,
                    sum_v.den as int,
                    sum_value(quotes@).d,
                );
                lemma_mul_le(
                    sum_pv.den as int,
                    sum_weighted(quotes@).d,
                    sum_v.num as int,
                    sum_value(quotes@).n,
                );
                assert(!agg_fits(quotes@));
            }
            return Err(AggError::NumericOverflow);
        },
    };
    proof {
        lemma_div_congruence(sum_pv.model(), sum_v.model(), sum_weighted(quotes@), sum_value(quotes@));
        lemma_pos_mul(sum_pv.model().d, sum_v.model().n);
        lemma_eq_transitive(
            res.model(),
            srat_div(sum_pv.model(), sum_v.model()),
            spec_weighted_price(quotes@),
        );
    }
    Ok(res)
}

/// The quotes of the pool reads that succeeded, in order.
pub open spec fn successes(s: Seq<Result<Quote, PoolError>>) -> Seq<Quote>
    decreases s.len(),
{
    if s.len() == 0 {
        Seq::empty()
    } else {
        let rest = successes(s.drop_last());
        if s.last() is Ok {
            rest.push(s.last()->Ok_0)
        } else {
            rest
        }
    }
}

/// Reduce the outcomes of every pool of one token to its weighted price.
///
/// Failed pools are dropped; an empty success set yields
/// `NoValidPoolData`, a success set whose total value is zero yields
/// `ZeroTotalValue`, and otherwise the result is the exact
/// liquidity-weighted mean of the successful quotes.
pub fn compute_token_price(results: &Vec<Result<Quote, PoolError>>) -> (r: Result<Rat, AggError>)
    requires
        forall|i: int|
            0 <= i < results@.len() ==> ((#[trigger] results@[i]) is Ok ==> results@[i]->Ok_0.wf()),
    ensures
        (r == Err::<Rat, AggError>(AggError::NoValidPoolData)) <==> successes(results@).len() == 0,
        (r == Err::<Rat, AggError>(AggError::ZeroTotalValue)) <==> (successes(results@).len() > 0
            && sum_value(successes(results@)).n == 0),
        r is Ok ==> r->Ok_0.wf() && r->Ok_0.num >= 1 && srat_eq(
            r->Ok_0.model(),
            spec_weighted_price(successes(results@)),
        ),
        r == Err::<Rat, AggError>(AggError::NumericOverflow) ==> successes(results@).len() > 0
            && sum_value(successes(results@)).n > 0,
        (successes(results@).len() > 0 && sum_value(successes(results@)).n > 0 && agg_fits(
            successes(results@),
        )) ==> r is Ok,
{
    let mut valid: Vec<Quote> = Vec::new();
    let mut i: usize = 0;
    while i < results.len()
        invariant
            i <= results@.len(),
            forall|j: int|
                0 <= j < results@.len() ==> ((#[trigger] results@[j]) is Ok
                    ==> results@[j]->Ok_0.wf()),
            valid@ =~= successes(results@.take(i as int)),
            all_wf(valid@),
        decreases results@.len() - i,
    {
        proof {
            let t = results@.take(i as int);
            let t1 = results@.take(i as int + 1);
            assert(t1.drop_last() =~= t);
            assert(t1.last() == results@[i as int]);
        }
        match &results[i] {
            Ok(q) => {
                let copy = Quote { price: q.price.clone_rat(), value: q.value.clone_rat() };
                assert(copy == results@[i as int]->Ok_0);
                valid.push(copy);
            },
            Err(_) => {},
        }
        i = i + 1;
        assert(valid@ =~= successes(results@.take(i as int)));
    }
    proof {
        assert(results@.take(results@.len() as int) =~= results@);
    }
    weighted_price(&valid)
}

} // verus!
