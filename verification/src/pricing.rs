//! The pricing engine: closed-form integral revenue over the
//! exponential-decay demand curve, buy/sell asymmetry, and effective
//! inventory with time recovery.
//!
//! The demand curve's decay factors `e^(-lambda * x)` are not computed
//! here: callers sample them (as micro-unit values in `[0, SCALE]`) at the
//! points `sample_points` names and pass the samples in. Every price is
//! then an exact integer function of the samples, and the laws below hold
//! under the analytic facts true of any such samples: the factors fall as
//! the point grows, and they fall no faster than `lambda` per unit.

use vstd::prelude::*;

use crate::fixed::{spec_round_2, CENT, MICRO_LIMIT, SCALE};
use crate::models::{SalesRecord, MAX_SALES_PER_ITEM, PRICE_LIMIT};

verus! {

/// Largest base price accepted by the pricing formulas, in micro-units;
/// leaves room for the buy premium already multiplied in.
pub const BASE_LIMIT: i64 = 1_000_000_000_000_000;

/// Largest environment index accepted by the pricing formulas.
pub const ENV_PRICING_LIMIT: i64 = 2_000_000_000;

/// Largest trade amount accepted by the pricing formulas.
pub const AMOUNT_LIMIT: i64 = 1_000_000_000_000;

/// Largest decay rate accepted by the pricing formulas (one hundred units).
pub const LAMBDA_LIMIT: i64 = 100_000_000;

/// Cap on the peak unit price `base * env / SCALE`.
pub const PMAX_CAP: i64 = 1_000_000_000_000_000;

/// Cap on the linear total `base * env * amount / SCALE^2`.
pub const TOTAL_CAP: i64 = 4_000_000_000_000_000_000;

/// Peak unit price of the curve: `base * env`, in micro-units.
pub open spec fn spec_p_max(base: int, env: int) -> int {
    base * env / (SCALE as int)
}

/// Total for `amount` at the flat peak price: the linear degenerate case.
pub open spec fn spec_linear_total(base: int, env: int, amount: int) -> int {
    spec_p_max(base, env) * amount / (SCALE as int)
}

/// Unrounded integral revenue between two decay samples:
/// `(p_max / lambda) * (e1 - e2)` in micro-units.
pub open spec fn spec_integral_raw(base: int, env: int, lambda: int, e1: int, e2: int) -> int {
    spec_p_max(base, env) * (e1 - e2) / lambda
}

/// The revenue the engine reports: the linear total when the decay rate
/// vanishes at micro-unit resolution, else the integral form; rounded to
/// cents either way.
pub open spec fn spec_integral_revenue(
    base: int,
    env: int,
    amount: int,
    lambda: int,
    e1: int,
    e2: int,
) -> int {
    if lambda == 0 {
        spec_round_2(spec_linear_total(base, env, amount))
    } else {
        spec_round_2(spec_integral_raw(base, env, lambda, e1, e2))
    }
}

/// Magnitude bounds under which the pricing arithmetic stays in range.
pub open spec fn pricing_inputs_ok(base: int, env: int, amount: int, lambda: int) -> bool {
    &&& 0 < base <= BASE_LIMIT
    &&& 0 < env <= ENV_PRICING_LIMIT
    &&& 0 < amount <= AMOUNT_LIMIT
    &&& 0 <= lambda <= LAMBDA_LIMIT
    &&& base * env <= PMAX_CAP * SCALE
    &&& base * env * amount <= TOTAL_CAP * SCALE * SCALE
}

/// What any decay samples taken `amount` apart satisfy: both lie in
/// `[0, SCALE]`, the later is no larger, and they are at most
/// `lambda * amount` (in units) apart, with one micro-unit of slack for
/// the rounding of each sample.
pub open spec fn samples_ok(amount: int, lambda: int, e1: int, e2: int) -> bool {
    &&& 0 <= e2 <= e1 <= SCALE
    &&& (lambda > 0 ==> e1 - e2 <= lambda * amount / (SCALE as int) + 1)
}

/// Largest effective inventory the engine can report: a full history of
/// maximal sells plus the largest offset.
pub const NEFF_LIMIT: i64 = 101_000_000_000_000;

/// Where a buy starts on the curve: it walks left from the effective
/// inventory, never below zero.
pub open spec fn spec_buy_n_start(n_eff: int, amount: int) -> int {
    if n_eff - amount >= 0 {
        n_eff - amount
    } else {
        0
    }
}

/// How much of a buy is priced along the curve; the rest is flat premium.
pub open spec fn spec_buy_discount(n_eff: int, amount: int) -> int {
    n_eff - spec_buy_n_start(n_eff, amount)
}

/// Total of a buy: the part covered by accumulated effective inventory is
/// priced by the integral between the samples; any remainder is priced
/// flat at the peak price.
pub open spec fn spec_buy_total(
    base: int,
    env: int,
    n_eff: int,
    amount: int,
    lambda: int,
    e1: int,
    e2: int,
) -> int {
    let d = spec_buy_discount(n_eff, amount);
    if d < amount {
        let premium_part = spec_linear_total(base, env, amount - d);
        let integral_part = if d > 0 {
            spec_integral_revenue(base, env, d, lambda, e1, e2)
        } else {
            0
        };
        integral_part + premium_part
    } else {
        spec_integral_revenue(base, env, amount, lambda, e1, e2)
    }
}

/// Base price a trade is priced at: buys pay the premium markup.
pub open spec fn spec_effective_base(base: int, premium: int, is_buy: bool) -> int {
    if is_buy {
        base * premium / (SCALE as int)
    } else {
        base
    }
}

/// Total of a trade, buy or sell.
pub open spec fn spec_price(
    base: int,
    env: int,
    n_eff: int,
    amount: int,
    lambda: int,
    premium: int,
    is_buy: bool,
    e1: int,
    e2: int,
) -> int {
    let eb = spec_effective_base(base, premium, is_buy);
    if is_buy {
        spec_buy_total(eb, env, n_eff, amount, lambda, e1, e2)
    } else {
        spec_integral_revenue(eb, env, amount, lambda, e1, e2)
    }
}

/// The two curve points, scaled by `lambda`, whose decay samples a trade
/// needs: a sell integrates from the effective inventory rightward, a buy
/// from its start point up to the effective inventory.
pub open spec fn spec_sample_points(n_eff: int, amount: int, lambda: int, is_buy: bool) -> (
    int,
    int,
) {
    if is_buy {
        (lambda * spec_buy_n_start(n_eff, amount), lambda * n_eff)
    } else {
        (lambda * n_eff, lambda * (n_eff + amount))
    }
}

/// Sum of the signed amounts of a history.
pub open spec fn spec_sum_amounts(records: Seq<SalesRecord>) -> int
    decreases records.len(),
{
    if records.len() == 0 {
        0
    } else {
        spec_sum_amounts(records.drop_last()) + records.last().amount
    }
}

/// Sum of the signed amounts, each weighted by its decay factor.
pub open spec fn spec_weighted_sum(records: Seq<SalesRecord>, decays: Seq<i64>) -> int
    decreases records.len(),
{
    if records.len() == 0 || decays.len() == 0 {
        0
    } else {
        spec_weighted_sum(records.drop_last(), decays.drop_last()) + records.last().amount
            * decays.last()
    }
}

/// Effective inventory: the decayed signed history plus the offset,
/// clamped at zero. With a zero recovery rate past impact never decays.
pub open spec fn spec_effective_n(
    records: Seq<SalesRecord>,
    decays: Seq<i64>,
    iota: int,
    delta: int,
) -> int {
    let contribution = if delta == 0 {
        spec_sum_amounts(records)
    } else {
        spec_weighted_sum(records, decays) / (SCALE as int)
    };
    if iota + contribution >= 0 {
        iota + contribution
    } else {
        0
    }
}

/// Magnitude bounds on a history and its decay factors.
pub open spec fn history_inputs_ok(records: Seq<SalesRecord>, decays: Seq<i64>) -> bool {
    &&& records.len() <= MAX_SALES_PER_ITEM
    &&& decays.len() == records.len()
    &&& forall|i: int|
        0 <= i < records.len() ==> -PRICE_LIMIT <= #[trigger] records[i].amount <= PRICE_LIMIT
    &&& forall|i: int| 0 <= i < decays.len() ==> 0 <= #[trigger] decays[i] <= SCALE
}

pub struct PricingEngine;

impl PricingEngine {
    /// Revenue of moving `amount` along the demand curve, between the
    /// decay samples `e1` (start point) and `e2` (end point).
    pub fn integral_revenue(
        base: i64,
        env: i64,
        amount: i64,
        lambda: i64,
        e1: i64,
        e2: i64,
    ) -> (r: i64)
        requires
            pricing_inputs_ok(base as int, env as int, amount as int, lambda as int),
            samples_ok(amount as int, lambda as int, e1 as int, e2 as int),
        ensures
            r == spec_integral_revenue(
                base as int,
                env as int,
                amount as int,
                lambda as int,
                e1 as int,
                e2 as int,
            ),
            0 <= r <= spec_linear_total(base as int, env as int, amount as int) + PMAX_CAP + CENT,
    {
        let p_max: i128 = (base as i128) * (env as i128) / (SCALE as i128);
        proof {
            lemma_p_max_bounds(base as int, env as int);
            assert(p_max == spec_p_max(base as int, env as int));
        }
        if lambda == 0 {
            proof {
                vstd::arithmetic::mul::lemma_mul_upper_bound(
                    p_max as int,
                    PMAX_CAP as int,
                    amount as int,
                    AMOUNT_LIMIT as int,
                );
            }
            let lin: i128 = p_max * (amount as i128) / (SCALE as i128);
            proof {
                lemma_linear_total_bounds(base as int, env as int, amount as int);
            }
            crate::fixed::round_2(lin as i64)
        } else {
            let diff: i128 = (e1 as i128) - (e2 as i128);
            proof {
                vstd::arithmetic::mul::lemma_mul_upper_bound(
                    p_max as int,
                    PMAX_CAP as int,
                    diff as int,
                    SCALE as int,
                );
                vstd::arithmetic::mul::lemma_mul_nonnegative(p_max as int, diff as int);
            }
            let raw: i128 = p_max * diff / (lambda as i128);
            proof {
                lemma_linear_total_bounds(base as int, env as int, amount as int);
                lemma_integral_raw_bounds(
                    base as int,
                    env as int,
                    amount as int,
                    lambda as int,
                    e1 as int,
                    e2 as int,
                );
            }
            crate::fixed::round_2(raw as i64)
        }
    }

    /// The defensive entry over the same integral: out-of-domain inputs
    /// (a nonpositive base or amount) price to zero instead of being
    /// rejected.
    pub fn calculate_integral_revenue(
        base: i64,
        env: i64,
        amount: i64,
        lambda: i64,
        e1: i64,
        e2: i64,
    ) -> (r: i64)
        requires
            base > 0 && amount > 0 ==> pricing_inputs_ok(
                base as int,
                env as int,
                amount as int,
                lambda as int,
            ) && samples_ok(amount as int, lambda as int, e1 as int, e2 as int),
        ensures
            base > 0 && amount > 0 ==> r == spec_integral_revenue(
                base as int,
                env as int,
                amount as int,
                lambda as int,
                e1 as int,
                e2 as int,
            ),
            !(base > 0 && amount > 0) ==> r == 0,
            r >= 0,
    {
        if base <= 0 || amount <= 0 {
            return 0;
        }
        Self::integral_revenue(base, env, amount, lambda, e1, e2)
    }

    /// Price of a buy at the (premium-adjusted) base price `base`: the
    /// stretch of curve the effective inventory covers, integrated
    /// between the samples, plus the uncovered remainder flat at the peak
    /// price.
    fn buy_logic(base: i64, env: i64, n_eff: i64, amount: i64, lambda: i64, e1: i64, e2: i64) -> (r:
        i64)
        requires
            pricing_inputs_ok(base as int, env as int, amount as int, lambda as int),
            0 <= n_eff <= NEFF_LIMIT,
            samples_ok(
                spec_buy_discount(n_eff as int, amount as int),
                lambda as int,
                e1 as int,
                e2 as int,
            ),
        ensures
            r == spec_buy_total(
                base as int,
                env as int,
                n_eff as int,
                amount as int,
                lambda as int,
                e1 as int,
                e2 as int,
            ),
            0 <= r <= 2 * TOTAL_CAP + PMAX_CAP + CENT,
    {
        let n_start: i64 = if n_eff >= amount {
            n_eff - amount
        } else {
            0
        };
        let discount: i64 = n_eff - n_start;
        if discount < amount {
            let premium_amt: i64 = amount - discount;
            proof {
                lemma_pricing_inputs_smaller_amount(
                    base as int,
                    env as int,
                    amount as int,
                    premium_amt as int,
                    lambda as int,
                );
                vstd::arithmetic::mul::lemma_mul_upper_bound(
                    spec_p_max(base as int, env as int),
                    PMAX_CAP as int,
                    premium_amt as int,
                    AMOUNT_LIMIT as int,
                );
                lemma_p_max_bounds(base as int, env as int);
            }
            let p_max: i128 = (base as i128) * (env as i128) / (SCALE as i128);
            let prem_part: i128 = p_max * (premium_amt as i128) / (SCALE as i128);
            proof {
                lemma_linear_total_bounds(base as int, env as int, premium_amt as int);
            }
            let integral_part: i64 = if discount > 0 {
                proof {
                    lemma_pricing_inputs_smaller_amount(
                        base as int,
                        env as int,
                        amount as int,
                        discount as int,
                        lambda as int,
                    );
                }
                Self::integral_revenue(base, env, discount, lambda, e1, e2)
            } else {
                0
            };
            proof {
                if discount > 0 {
                    lemma_linear_total_bounds(base as int, env as int, discount as int);
                }
            }
            integral_part + (prem_part as i64)
        } else {
            proof {
                lemma_linear_total_bounds(base as int, env as int, amount as int);
            }
            Self::integral_revenue(base, env, amount, lambda, e1, e2)
        }
    }

    /// Price of a trade: buys pay `base * premium` and walk the curve
    /// leftward through the accumulated inventory, sells integrate
    /// rightward from it.
    pub fn calculate_price(
        base: i64,
        env: i64,
        n_eff: i64,
        amount: i64,
        lambda: i64,
        premium: i64,
        is_buy: bool,
        e1: i64,
        e2: i64,
    ) -> (r: i64)
        requires
            0 < base <= PRICE_LIMIT,
            0 <= premium <= 2_000_000_000,
            0 <= n_eff <= NEFF_LIMIT,
            pricing_inputs_ok(
                spec_effective_base(base as int, premium as int, is_buy),
                env as int,
                amount as int,
                lambda as int,
            ),
            samples_ok(
                if is_buy {
                    spec_buy_discount(n_eff as int, amount as int)
                } else {
                    amount as int
                },
                lambda as int,
                e1 as int,
                e2 as int,
            ),
        ensures
            r == spec_price(
                base as int,
                env as int,
                n_eff as int,
                amount as int,
                lambda as int,
                premium as int,
                is_buy,
                e1 as int,
                e2 as int,
            ),
            0 <= r <= 2 * TOTAL_CAP + PMAX_CAP + CENT,
    {
        if is_buy {
            let eb128: i128 = (base as i128) * (premium as i128) / (SCALE as i128);
            proof {
                assert(eb128 == spec_effective_base(base as int, premium as int, true));
            }
            let eb: i64 = eb128 as i64;
            Self::buy_logic(eb, env, n_eff, amount, lambda, e1, e2)
        } else {
            proof {
                lemma_linear_total_bounds(base as int, env as int, amount as int);
            }
            Self::integral_revenue(base, env, amount, lambda, e1, e2)
        }
    }

    /// The two scaled curve points whose decay samples `calculate_price`
    /// consumes for this trade. A caller turns a point `u` into the
    /// sample `exp(-u / SCALE^2)` expressed in micro-units.
    pub fn sample_points(n_eff: i64, amount: i64, lambda: i64, is_buy: bool) -> (pts: (i128, i128))
        requires
            0 <= n_eff <= NEFF_LIMIT,
            0 < amount <= AMOUNT_LIMIT,
            0 <= lambda <= LAMBDA_LIMIT,
        ensures
            (pts.0 as int, pts.1 as int) == spec_sample_points(
                n_eff as int,
                amount as int,
                lambda as int,
                is_buy,
            ),
            0 <= pts.0 <= pts.1,
    {
        if is_buy {
            let n_start: i64 = if n_eff >= amount {
                n_eff - amount
            } else {
                0
            };
            proof {
                lemma_point_products(lambda as int, n_start as int, n_eff as int);
            }
            ((lambda as i128) * (n_start as i128), (lambda as i128) * (n_eff as i128))
        } else {
            proof {
                lemma_point_products(lambda as int, n_eff as int, n_eff as int + amount as int);
            }
            ((lambda as i128) * (n_eff as i128), (lambda as i128) * ((n_eff + amount) as i128))
        }
    }

    /// Effective inventory from a history snapshot: each record's decay
    /// factor is the caller's sample of `exp(-delta * elapsed / tau)` for
    /// that record, ignored when the recovery rate is zero.
    pub fn calculate_effective_n(
        history: &Vec<SalesRecord>,
        decays: &Vec<i64>,
        iota: i64,
        recovery_delta: i64,
    ) -> (r: i64)
        requires
            history_inputs_ok(history@, decays@),
            -PRICE_LIMIT <= iota <= PRICE_LIMIT,
            0 <= recovery_delta,
        ensures
            r == spec_effective_n(history@, decays@, iota as int, recovery_delta as int),
            0 <= r <= NEFF_LIMIT,
    {
        let ghost full_records: Seq<SalesRecord> = history@;
        let ghost full_decays: Seq<i64> = decays@;
        let n = history.len();
        let mut acc: i128 = 0;
        if recovery_delta == 0 {
            let mut i: usize = 0;
            while i < n
                invariant
                    0 <= i <= n,
                    n == history@.len(),
                    history@ == full_records,
                    history_inputs_ok(full_records, full_decays),
                    acc == spec_sum_amounts(full_records.subrange(0, i as int)),
                    -(i as int) * (PRICE_LIMIT as int) <= acc <= (i as int) * (PRICE_LIMIT as int),
                decreases n - i,
            {
                proof {
                    assert(full_records.subrange(0, i + 1).drop_last() =~= full_records.subrange(
                        0,
                        i as int,
                    ));
                    assert(full_records.subrange(0, i + 1).last() == full_records[i as int]);
                }
                acc = acc + (history[i].amount as i128);
                i = i + 1;
            }
            proof {
                assert(full_records.subrange(0, n as int) =~= full_records);
            }
            clamp_offset(acc, iota)
        } else {
            let scaled = Self::weighted_sum_scaled(history, decays);
            clamp_offset(scaled as i128, iota)
        }
    }

    /// The decayed signed sum of a history, in micro-units: each
    /// record's amount weighted by its decay sample, floored to
    /// micro-unit resolution.
    pub fn weighted_sum_scaled(records: &Vec<SalesRecord>, decays: &Vec<i64>) -> (r: i64)
        requires
            history_inputs_ok(records@, decays@),
        ensures
            r == spec_weighted_sum(records@, decays@) / (SCALE as int),
            -(MAX_SALES_PER_ITEM as int) * (PRICE_LIMIT as int) <= r <= (MAX_SALES_PER_ITEM as int)
                * (PRICE_LIMIT as int),
    {
        let ghost full_records: Seq<SalesRecord> = records@;
        let ghost full_decays: Seq<i64> = decays@;
        let n = records.len();
        let mut acc: i128 = 0;
        let mut i: usize = 0;
        while i < n
            invariant
                0 <= i <= n,
                n == records@.len(),
                records@ == full_records,
                decays@ == full_decays,
                history_inputs_ok(full_records, full_decays),
                acc == spec_weighted_sum(
                    full_records.subrange(0, i as int),
                    full_decays.subrange(0, i as int),
                ),
                -(i as int) * (PRICE_LIMIT as int) * (SCALE as int) <= acc <= (i as int) * (
                PRICE_LIMIT as int) * (SCALE as int),
            decreases n - i,
        {
            proof {
                assert(full_records.subrange(0, i + 1).drop_last() =~= full_records.subrange(
                    0,
                    i as int,
                ));
                assert(full_decays.subrange(0, i + 1).drop_last() =~= full_decays.subrange(
                    0,
                    i as int,
                ));
                lemma_weighted_term_bounds(
                    full_records[i as int].amount as int,
                    full_decays[i as int] as int,
                );
                lemma_step_cap(i as int, n as int);
            }
            acc = acc + (records[i].amount as i128) * (decays[i] as i128);
            i = i + 1;
        }
        proof {
            assert(full_records.subrange(0, n as int) =~= full_records);
            assert(full_decays.subrange(0, n as int) =~= full_decays);
        }
        let scaled = floor_div_scale(acc);
        scaled as i64
    }
}

/// Both scaled curve points of a trade are in range and ordered.
proof fn lemma_point_products(lambda: int, lo: int, hi: int)
    requires
        0 <= lambda <= LAMBDA_LIMIT,
        0 <= lo <= hi,
        hi <= NEFF_LIMIT + AMOUNT_LIMIT,
    ensures
        0 <= lambda * lo <= lambda * hi,
        lambda * hi <= (LAMBDA_LIMIT as int) * ((NEFF_LIMIT as int) + (AMOUNT_LIMIT as int)),
{
    assert(0 <= lambda * lo <= lambda * hi && lambda * hi <= (LAMBDA_LIMIT as int) * ((
    NEFF_LIMIT as int) + (AMOUNT_LIMIT as int))) by (nonlinear_arith)
        requires
            0 <= lambda <= LAMBDA_LIMIT,
            0 <= lo <= hi,
            hi <= NEFF_LIMIT + AMOUNT_LIMIT,
    ;
}

/// A well-formed weighted sum stays within the envelope of a full
/// history at maximal amounts and full weight.
pub proof fn lemma_weighted_sum_bound(records: Seq<SalesRecord>, decays: Seq<i64>)
    requires
        decays.len() == records.len(),
        forall|i: int|
            0 <= i < records.len() ==> -PRICE_LIMIT <= #[trigger] records[i].amount
                <= PRICE_LIMIT,
        forall|i: int| 0 <= i < decays.len() ==> 0 <= #[trigger] decays[i] <= SCALE,
    ensures
        -(records.len() as int) * ((PRICE_LIMIT as int) * (SCALE as int)) <= spec_weighted_sum(
            records,
            decays,
        ) <= (records.len() as int) * ((PRICE_LIMIT as int) * (SCALE as int)),
    decreases records.len(),
{
    if records.len() > 0 {
        lemma_weighted_sum_bound(records.drop_last(), decays.drop_last());
        lemma_weighted_term_bounds(records.last().amount as int, decays.last() as int);
    }
}

/// The same envelope after flooring to micro-units, under the history
/// length bound.
pub proof fn lemma_weighted_sum_scaled_bound(records: Seq<SalesRecord>, decays: Seq<i64>)
    requires
        history_inputs_ok(records, decays),
    ensures
        -(MAX_SALES_PER_ITEM as int) * (PRICE_LIMIT as int) <= spec_weighted_sum(records, decays)
            / (SCALE as int) <= (MAX_SALES_PER_ITEM as int) * (PRICE_LIMIT as int),
{
    let s = SCALE as int;
    let cap = (MAX_SALES_PER_ITEM as int) * (PRICE_LIMIT as int);
    lemma_weighted_sum_bound(records, decays);
    assert((records.len() as int) * ((PRICE_LIMIT as int) * s) <= cap * s) by (nonlinear_arith)
        requires
            0 <= records.len() <= MAX_SALES_PER_ITEM,
            cap == (MAX_SALES_PER_ITEM as int) * (PRICE_LIMIT as int),
            s > 0,
    ;
    vstd::arithmetic::div_mod::lemma_div_is_ordered(
        -cap * s,
        spec_weighted_sum(records, decays),
        s,
    );
    vstd::arithmetic::div_mod::lemma_div_is_ordered(spec_weighted_sum(records, decays), cap * s, s);
    vstd::arithmetic::div_mod::lemma_div_multiples_vanish(cap, s);
    vstd::arithmetic::div_mod::lemma_div_multiples_vanish(-cap, s);
}

/// One weighted term is bounded by the largest amount at full weight.
proof fn lemma_weighted_term_bounds(amount: int, decay: int)
    requires
        -PRICE_LIMIT <= amount <= PRICE_LIMIT,
        0 <= decay <= SCALE,
    ensures
        -(PRICE_LIMIT as int) * (SCALE as int) <= amount * decay <= (PRICE_LIMIT as int) * (
        SCALE as int),
{
    assert(-(PRICE_LIMIT as int) * (SCALE as int) <= amount * decay <= (PRICE_LIMIT as int) * (
    SCALE as int)) by (nonlinear_arith)
        requires
            -PRICE_LIMIT <= amount <= PRICE_LIMIT,
            0 <= decay <= SCALE,
    ;
}

/// Growing the step count grows the accumulator envelope.
proof fn lemma_step_cap(i: int, n: int)
    requires
        0 <= i < n,
        n <= MAX_SALES_PER_ITEM,
    ensures
        ((i + 1) as int) * (PRICE_LIMIT as int) * (SCALE as int) <= (MAX_SALES_PER_ITEM as int) * (
        PRICE_LIMIT as int) * (SCALE as int),
{
    assert(((i + 1) as int) * (PRICE_LIMIT as int) * (SCALE as int) <= (MAX_SALES_PER_ITEM as int)
        * (PRICE_LIMIT as int) * (SCALE as int)) by (nonlinear_arith)
        requires
            0 <= i,
            i + 1 <= MAX_SALES_PER_ITEM,
    ;
}

/// Floor division of the weighted sum by `SCALE`.
fn floor_div_scale(acc: i128) -> (q: i128)
    requires
        -(MAX_SALES_PER_ITEM as int) * (PRICE_LIMIT as int) * (SCALE as int) <= acc <= (
        MAX_SALES_PER_ITEM as int) * (PRICE_LIMIT as int) * (SCALE as int),
    ensures
        q == acc as int / (SCALE as int),
        -(MAX_SALES_PER_ITEM as int) * (PRICE_LIMIT as int) <= q <= (MAX_SALES_PER_ITEM as int) * (
        PRICE_LIMIT as int),
{
    proof {
        let cap: int = (MAX_SALES_PER_ITEM as int) * (PRICE_LIMIT as int);
        vstd::arithmetic::div_mod::lemma_div_is_ordered(
            -cap * (SCALE as int),
            acc as int,
            SCALE as int,
        );
        vstd::arithmetic::div_mod::lemma_div_is_ordered(
            acc as int,
            cap * (SCALE as int),
            SCALE as int,
        );
        vstd::arithmetic::div_mod::lemma_div_multiples_vanish(cap, SCALE as int);
        vstd::arithmetic::div_mod::lemma_div_multiples_vanish(-cap, SCALE as int);
    }
    if acc >= 0 {
        acc / (SCALE as i128)
    } else {
        let m: i128 = -acc;
        let up: i128 = (m + (SCALE as i128) - 1) / (SCALE as i128);
        proof {
            lemma_neg_div(m as int, SCALE as int);
        }
        -up
    }
}

/// Floor division of a negative value, phrased through its magnitude.
proof fn lemma_neg_div(m: int, s: int)
    requires
        0 < m,
        0 < s,
    ensures
        -((m + s - 1) / s) == (-m) / s,
{
    let q = m / s;
    let r = m % s;
    vstd::arithmetic::div_mod::lemma_fundamental_div_mod(m, s);
    vstd::arithmetic::div_mod::lemma_mod_division_less_than_divisor(m, s);
    if r == 0 {
        assert(-m == (-q) * s + 0 && m + s - 1 == q * s + (s - 1)) by (nonlinear_arith)
            requires
                m == s * q + r,
                r == 0,
        ;
        vstd::arithmetic::div_mod::lemma_fundamental_div_mod_converse(-m, s, -q, 0);
        vstd::arithmetic::div_mod::lemma_fundamental_div_mod_converse(m + s - 1, s, q, s - 1);
    } else {
        assert(-m == (-q - 1) * s + (s - r) && m + s - 1 == (q + 1) * s + (r - 1))
            by (nonlinear_arith)
            requires
                m == s * q + r,
        ;
        vstd::arithmetic::div_mod::lemma_fundamental_div_mod_converse(-m, s, -q - 1, s - r);
        vstd::arithmetic::div_mod::lemma_fundamental_div_mod_converse(m + s - 1, s, q + 1, r - 1);
    }
}

/// Adds the offset and clamps at zero, in the 128-bit domain.
fn clamp_offset(contribution: i128, iota: i64) -> (r: i64)
    requires
        -(MAX_SALES_PER_ITEM as int) * (PRICE_LIMIT as int) <= contribution <= (
        MAX_SALES_PER_ITEM as int) * (PRICE_LIMIT as int),
        -PRICE_LIMIT <= iota <= PRICE_LIMIT,
    ensures
        r == if iota + contribution >= 0 {
            iota + contribution
        } else {
            0
        },
        0 <= r <= NEFF_LIMIT,
{
    let total: i128 = contribution + (iota as i128);
    if total >= 0 {
        total as i64
    } else {
        0
    }
}

/// The integral revenue is nonnegative and never exceeds the linear
/// total `p_max * amount`. Holds for any samples of a curve that falls,
/// and falls at most `lambda` per unit — which `e^(-lambda x)` does.
pub proof fn lemma_integral_revenue_bounds(
    base: int,
    env: int,
    amount: int,
    lambda: int,
    e1: int,
    e2: int,
)
    requires
        pricing_inputs_ok(base, env, amount, lambda),
        lambda > 0,
        0 <= e2 <= e1 <= SCALE,
        e1 - e2 <= lambda * amount / (SCALE as int),
    ensures
        0 <= spec_integral_raw(base, env, lambda, e1, e2),
        spec_integral_raw(base, env, lambda, e1, e2) <= spec_linear_total(base, env, amount),
{
    let s = SCALE as int;
    let p = spec_p_max(base, env);
    let d = e1 - e2;
    let m = lambda * amount / s;
    let q = p * d / lambda;
    lemma_p_max_bounds(base, env);
    vstd::arithmetic::mul::lemma_mul_nonnegative(p, d);
    vstd::arithmetic::div_mod::lemma_div_pos_is_pos(p * d, lambda);
    vstd::arithmetic::div_mod::lemma_fundamental_div_mod(lambda * amount, s);
    vstd::arithmetic::div_mod::lemma_mod_division_less_than_divisor(lambda * amount, s);
    assert(p * d * s <= p * (lambda * amount)) by (nonlinear_arith)
        requires
            d <= m,
            s * m <= lambda * amount,
            0 <= p,
            0 < s,
    ;
    vstd::arithmetic::div_mod::lemma_fundamental_div_mod(p * d, lambda);
    vstd::arithmetic::div_mod::lemma_mod_division_less_than_divisor(p * d, lambda);
    assert(q * s <= p * amount) by (nonlinear_arith)
        requires
            p * d == lambda * q + (p * d) % lambda,
            0 <= (p * d) % lambda,
            p * d * s <= p * (lambda * amount),
            0 < s,
            0 < lambda,
    ;
    vstd::arithmetic::div_mod::lemma_div_is_ordered(q * s, p * amount, s);
    vstd::arithmetic::div_mod::lemma_div_multiples_vanish(q, s);
}

/// Pricing is additive over the integration interval: splitting a move
/// at an intermediate sample changes the unrounded total by at most one
/// micro-unit, and never upward.
pub proof fn lemma_integral_revenue_additive(
    base: int,
    env: int,
    lambda: int,
    e1: int,
    e2: int,
    e3: int,
)
    requires
        0 < base,
        0 < env,
        0 < lambda,
        0 <= e3 <= e2 <= e1 <= SCALE,
        base * env <= PMAX_CAP * SCALE,
    ensures
        spec_integral_raw(base, env, lambda, e1, e2) + spec_integral_raw(base, env, lambda, e2, e3)
            <= spec_integral_raw(base, env, lambda, e1, e3),
        spec_integral_raw(base, env, lambda, e1, e3) <= spec_integral_raw(base, env, lambda, e1, e2)
            + spec_integral_raw(base, env, lambda, e2, e3) + 1,
{
    let p = spec_p_max(base, env);
    let x = p * (e1 - e2);
    let y = p * (e2 - e3);
    lemma_p_max_bounds(base, env);
    assert(x + y == p * (e1 - e3)) by (nonlinear_arith)
        requires
            x == p * (e1 - e2),
            y == p * (e2 - e3),
    ;
    let q1 = x / lambda;
    let r1 = x % lambda;
    let q2 = y / lambda;
    let r2 = y % lambda;
    vstd::arithmetic::div_mod::lemma_fundamental_div_mod(x, lambda);
    vstd::arithmetic::div_mod::lemma_mod_division_less_than_divisor(x, lambda);
    vstd::arithmetic::div_mod::lemma_fundamental_div_mod(y, lambda);
    vstd::arithmetic::div_mod::lemma_mod_division_less_than_divisor(y, lambda);
    if r1 + r2 < lambda {
        assert(x + y == (q1 + q2) * lambda + (r1 + r2)) by (nonlinear_arith)
            requires
                x == lambda * q1 + r1,
                y == lambda * q2 + r2,
        ;
        vstd::arithmetic::div_mod::lemma_fundamental_div_mod_converse(
            x + y,
            lambda,
            q1 + q2,
            r1 + r2,
        );
    } else {
        assert(x + y == (q1 + q2 + 1) * lambda + (r1 + r2 - lambda)) by (nonlinear_arith)
            requires
                x == lambda * q1 + r1,
                y == lambda * q2 + r2,
        ;
        vstd::arithmetic::div_mod::lemma_fundamental_div_mod_converse(
            x + y,
            lambda,
            q1 + q2 + 1,
            r1 + r2 - lambda,
        );
    }
}

/// The linear case is the limit of the integral case: with the analytic
/// lower bounds that exponential samples obey — the curve falls at least
/// `lambda * e2` per unit, and the sample at the scaled right endpoint
/// `x2` is at least `1 - x2` — the integral total sits within
/// `p_max * amount * x2 / SCALE^3 + 3` micro-units below the linear
/// total. As `lambda` (and with it `x2`) goes to zero the gap vanishes;
/// at `lambda == 0` the engine returns the linear total itself.
pub proof fn lemma_integral_revenue_linear_limit(
    base: int,
    env: int,
    amount: int,
    lambda: int,
    x2: int,
    e1: int,
    e2: int,
)
    requires
        pricing_inputs_ok(base, env, amount, lambda),
        lambda > 0,
        0 <= e2 <= e1 <= SCALE,
        0 <= x2,
        (e1 - e2) * (SCALE as int) * (SCALE as int) >= lambda * amount * e2,
        e2 * (SCALE as int) >= (SCALE as int) * (SCALE as int) - x2,
    ensures
        spec_linear_total(base, env, amount) - spec_integral_raw(base, env, lambda, e1, e2)
            <= spec_p_max(base, env) * amount * x2 / ((SCALE as int) * (SCALE as int) * (
        SCALE as int)) + 3,
{
    let s = SCALE as int;
    let p = spec_p_max(base, env);
    let d = e1 - e2;
    let q = p * d / lambda;
    let lin = spec_linear_total(base, env, amount);
    lemma_p_max_bounds(base, env);
    vstd::arithmetic::div_mod::lemma_fundamental_div_mod(p * d, lambda);
    vstd::arithmetic::div_mod::lemma_mod_division_less_than_divisor(p * d, lambda);
    vstd::arithmetic::div_mod::lemma_fundamental_div_mod(p * amount, s);
    vstd::arithmetic::div_mod::lemma_mod_division_less_than_divisor(p * amount, s);
    vstd::arithmetic::div_mod::lemma_fundamental_div_mod(p * amount * x2, s * s * s);
    vstd::arithmetic::div_mod::lemma_mod_division_less_than_divisor(p * amount * x2, s * s * s);
    let w = p * amount * x2 / (s * s * s);
    vstd::arithmetic::mul::lemma_mul_nonnegative(p, amount);
    // The quotient loses less than one `lambda` against the product.
    assert(lambda * q >= p * d - lambda + 1);
    // The curve-slope bound, multiplied through by p.
    assert(p * d * (s * s) >= lambda * (p * amount * e2)) by (nonlinear_arith)
        requires
            d * s * s >= lambda * amount * e2,
            0 <= p,
    ;
    // Cancel lambda: the integral covers the linear total scaled by e2.
    assert(q * (s * s) >= p * amount * e2 - s * s) by (nonlinear_arith)
        requires
            lambda * q >= p * d - lambda + 1,
            p * d * (s * s) >= lambda * (p * amount * e2),
            0 < lambda,
            0 < s,
    ;
    // Replace e2 by its endpoint bound.
    assert(q * (s * s * s) >= p * amount * (s * s) - p * amount * x2 - s * s * s)
        by (nonlinear_arith)
        requires
            q * (s * s) >= p * amount * e2 - s * s,
            e2 * s >= s * s - x2,
            0 <= p * amount,
            0 < s,
    ;
    // The linear total, scaled the same way.
    assert(lin * s <= p * amount);
    assert(lin * (s * s * s) <= p * amount * (s * s)) by (nonlinear_arith)
        requires
            lin * s <= p * amount,
            0 < s,
    ;
    // Express the gap bound through the floored quotient w.
    assert(p * amount * x2 <= (s * s * s) * w + (s * s * s) - 1);
    assert(lin - q <= w + 3) by (nonlinear_arith)
        requires
            lin * (s * s * s) <= p * amount * (s * s),
            q * (s * s * s) >= p * amount * (s * s) - p * amount * x2 - s * s * s,
            p * amount * x2 <= (s * s * s) * w + (s * s * s) - 1,
            0 < s,
    ;
}

/// Effective inventory from a history of sells only never falls below
/// the offset, nor below zero.
pub proof fn lemma_effective_n_floor(
    records: Seq<SalesRecord>,
    decays: Seq<i64>,
    iota: int,
    delta: int,
)
    requires
        history_inputs_ok(records, decays),
        forall|i: int| 0 <= i < records.len() ==> #[trigger] records[i].amount >= 0,
    ensures
        spec_effective_n(records, decays, iota, delta) >= 0,
        spec_effective_n(records, decays, iota, delta) >= iota,
{
    if delta == 0 {
        lemma_sum_amounts_nonneg(records);
    } else {
        lemma_weighted_sum_nonneg(records, decays);
        vstd::arithmetic::div_mod::lemma_div_pos_is_pos(
            spec_weighted_sum(records, decays),
            SCALE as int,
        );
    }
}

/// A sum of nonnegative amounts is nonnegative.
proof fn lemma_sum_amounts_nonneg(records: Seq<SalesRecord>)
    requires
        forall|i: int| 0 <= i < records.len() ==> #[trigger] records[i].amount >= 0,
    ensures
        spec_sum_amounts(records) >= 0,
    decreases records.len(),
{
    if records.len() > 0 {
        lemma_sum_amounts_nonneg(records.drop_last());
    }
}

/// A decay-weighted sum of nonnegative amounts is nonnegative.
proof fn lemma_weighted_sum_nonneg(records: Seq<SalesRecord>, decays: Seq<i64>)
    requires
        records.len() <= decays.len(),
        forall|i: int| 0 <= i < records.len() ==> #[trigger] records[i].amount >= 0,
        forall|i: int| 0 <= i < decays.len() ==> 0 <= #[trigger] decays[i],
    ensures
        spec_weighted_sum(records, decays) >= 0,
    decreases records.len(),
{
    if records.len() > 0 && decays.len() > 0 {
        lemma_weighted_sum_nonneg(records.drop_last(), decays.drop_last());
        vstd::arithmetic::mul::lemma_mul_nonnegative(
            records.last().amount as int,
            decays.last() as int,
        );
    }
}

/// Shrinking the amount keeps the pricing inputs in range.
proof fn lemma_pricing_inputs_smaller_amount(
    base: int,
    env: int,
    amount: int,
    smaller: int,
    lambda: int,
)
    requires
        pricing_inputs_ok(base, env, amount, lambda),
        0 < smaller <= amount,
    ensures
        pricing_inputs_ok(base, env, smaller, lambda),
{
    assert(base * env * smaller <= base * env * amount) by (nonlinear_arith)
        requires
            0 < base,
            0 < env,
            0 < smaller <= amount,
    ;
}

/// The peak unit price is nonnegative and at most `PMAX_CAP`.
pub proof fn lemma_p_max_bounds(base: int, env: int)
    requires
        0 < base,
        0 < env,
        base * env <= PMAX_CAP * SCALE,
    ensures
        0 <= spec_p_max(base, env) <= PMAX_CAP,
{
    vstd::arithmetic::div_mod::lemma_div_pos_is_pos(base * env, SCALE as int);
    vstd::arithmetic::div_mod::lemma_div_is_ordered(base * env, PMAX_CAP * SCALE, SCALE as int);
    vstd::arithmetic::div_mod::lemma_div_multiples_vanish(PMAX_CAP as int, SCALE as int);
}

/// The linear total is nonnegative and at most `TOTAL_CAP`.
pub proof fn lemma_linear_total_bounds(base: int, env: int, amount: int)
    requires
        0 < base,
        0 < env,
        0 < amount,
        base * env <= PMAX_CAP * SCALE,
        base * env * amount <= TOTAL_CAP * SCALE * SCALE,
    ensures
        0 <= spec_linear_total(base, env, amount) <= TOTAL_CAP,
{
    let s = SCALE as int;
    let p = spec_p_max(base, env);
    lemma_p_max_bounds(base, env);
    vstd::arithmetic::div_mod::lemma_div_pos_is_pos(p * amount, s);
    vstd::arithmetic::mul::lemma_mul_nonnegative(p, amount);
    // p * s <= base * env, hence p * amount * s <= base * env * amount
    vstd::arithmetic::div_mod::lemma_fundamental_div_mod(base * env, s);
    vstd::arithmetic::div_mod::lemma_mod_division_less_than_divisor(base * env, s);
    assert(p * s <= base * env) by (nonlinear_arith)
        requires
            base * env == s * p + (base * env) % s,
            0 <= (base * env) % s,
    ;
    assert(p * amount * s <= base * env * amount) by (nonlinear_arith)
        requires
            p * s <= base * env,
            0 <= p,
            0 < amount,
    ;
    vstd::arithmetic::div_mod::lemma_div_is_ordered(
        p * amount * s,
        base * env * amount,
        s,
    );
    vstd::arithmetic::div_mod::lemma_div_multiples_vanish(p * amount, s);
    vstd::arithmetic::div_mod::lemma_div_is_ordered(
        base * env * amount,
        TOTAL_CAP * SCALE * SCALE,
        s,
    );
    assert(TOTAL_CAP * SCALE * SCALE == (TOTAL_CAP * SCALE) * s);
    vstd::arithmetic::div_mod::lemma_div_multiples_vanish(TOTAL_CAP * SCALE, s);
    vstd::arithmetic::div_mod::lemma_div_is_ordered(
        p * amount,
        base * env * amount / s,
        s,
    );
    vstd::arithmetic::div_mod::lemma_div_is_ordered(
        base * env * amount / s,
        TOTAL_CAP * SCALE,
        s,
    );
    assert(TOTAL_CAP * SCALE == TOTAL_CAP * s);
    vstd::arithmetic::div_mod::lemma_div_multiples_vanish(TOTAL_CAP as int, s);
}

/// The raw integral revenue is nonnegative and at most one peak unit
/// price above the linear total.
pub proof fn lemma_integral_raw_bounds(
    base: int,
    env: int,
    amount: int,
    lambda: int,
    e1: int,
    e2: int,
)
    requires
        pricing_inputs_ok(base, env, amount, lambda),
        samples_ok(amount, lambda, e1, e2),
        lambda > 0,
    ensures
        0 <= spec_integral_raw(base, env, lambda, e1, e2) <= spec_linear_total(base, env, amount)
            + PMAX_CAP,
{
    let s = SCALE as int;
    let p = spec_p_max(base, env);
    let d = e1 - e2;
    let m = lambda * amount / s;
    lemma_p_max_bounds(base, env);
    lemma_linear_total_bounds(base, env, amount);
    vstd::arithmetic::mul::lemma_mul_nonnegative(p, d);
    vstd::arithmetic::div_mod::lemma_div_pos_is_pos(p * d, lambda);
    // p * d <= p * m + p
    assert(p * d <= p * m + p) by (nonlinear_arith)
        requires
            d <= m + 1,
            0 <= p,
    ;
    // p * m * s <= p * lambda * amount, since m * s <= lambda * amount
    vstd::arithmetic::div_mod::lemma_fundamental_div_mod(lambda * amount, s);
    vstd::arithmetic::div_mod::lemma_mod_division_less_than_divisor(lambda * amount, s);
    assert(p * m * s <= p * (lambda * amount)) by (nonlinear_arith)
        requires
            m * s <= lambda * amount,
            0 <= p,
    ;
    // hence p * m <= p * lambda * amount / s, and dividing by lambda:
    // p * m / lambda <= p * amount / s ... carried out on multiples.
    let q = p * d / lambda;
    vstd::arithmetic::div_mod::lemma_fundamental_div_mod(p * d, lambda);
    vstd::arithmetic::div_mod::lemma_mod_division_less_than_divisor(p * d, lambda);
    // q * lambda <= p * d <= p * m + p <= p * lambda * amount / s + p
    assert(q * lambda * s <= p * (lambda * amount) + p * lambda * s) by (nonlinear_arith)
        requires
            p * d == lambda * q + (p * d) % lambda,
            0 <= (p * d) % lambda,
            p * d <= p * m + p,
            p * m * s <= p * (lambda * amount),
            0 < s,
            0 < lambda,
            0 <= p,
    ;
    // divide by lambda: q * s <= p * amount + p * s
    assert(q * s <= p * amount + p * s) by (nonlinear_arith)
        requires
            q * lambda * s <= p * (lambda * amount) + p * lambda * s,
            0 < lambda,
            0 < s,
    ;
    // divide by s: q <= p * amount / s + p
    vstd::arithmetic::div_mod::lemma_div_is_ordered(q * s, p * amount + p * s, s);
    vstd::arithmetic::div_mod::lemma_div_multiples_vanish(q, s);
    vstd::arithmetic::div_mod::lemma_hoist_over_denominator(p * amount, p, s as nat);
    assert(q <= p * amount / s + p);
}

} // verus!
