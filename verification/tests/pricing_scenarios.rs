//! Pricing scenarios: the linear limit, the integral formula, the buy
//! asymmetry and the recovery kernel, against hand-computed values.

use economy_core::fixed::SCALE;
use economy_core::models::SalesRecord;
use economy_core::pricing::PricingEngine;

/// Micro-unit decay sample of `exp(-u / SCALE^2)` for a scaled curve
/// point `u`, the way the service computes it.
fn sample(u: i128) -> i64 {
    ((-(u as f64) / 1e12).exp() * 1e6).round() as i64
}

fn units(x: f64) -> i64 {
    (x * 1e6).round() as i64
}

#[test]
fn sell_linear_limit_is_flat_price() {
    // base 100, env 1, lambda 0, amount 5: exactly 500.00.
    let r = PricingEngine::integral_revenue(units(100.0), SCALE, units(5.0), 0, SCALE, SCALE);
    assert_eq!(r, units(500.0));
}

#[test]
fn sell_integral_formula_matches_closed_form() {
    // base 100, env 1, lambda 0.1, amount 10 from n_eff 0:
    // (100/0.1)(1 - e^-1) = 632.12 after rounding to cents.
    let lambda = units(0.1);
    let amount = units(10.0);
    let (u1, u2) = PricingEngine::sample_points(0, amount, lambda, false);
    assert_eq!(u1, 0);
    assert_eq!(u2, (lambda as i128) * (amount as i128));
    let e1 = sample(u1);
    let e2 = sample(u2);
    assert_eq!(e1, 1_000_000);
    assert_eq!(e2, 367_879);
    let r = PricingEngine::integral_revenue(units(100.0), SCALE, amount, lambda, e1, e2);
    assert_eq!(r, units(632.12));
}

#[test]
fn buy_walks_left_and_pays_premium_past_stock() {
    // base 100, premium 1.25, env 1, lambda 0.1, n_eff 4, amount 10:
    // R(0,4) at base 125 plus 6 * 125 flat.
    let lambda = units(0.1);
    let amount = units(10.0);
    let n_eff = units(4.0);
    let (u1, u2) = PricingEngine::sample_points(n_eff, amount, lambda, true);
    assert_eq!(u1, 0);
    assert_eq!(u2, (lambda as i128) * (n_eff as i128));
    let e1 = sample(u1);
    let e2 = sample(u2);
    assert_eq!(e2, 670_320);
    let r = PricingEngine::calculate_price(
        units(100.0),
        SCALE,
        n_eff,
        amount,
        lambda,
        units(1.25),
        true,
        e1,
        e2,
    );
    // integral part 412.10, premium part 750.00
    assert_eq!(r, units(1162.10));
}

#[test]
fn buy_fully_covered_by_stock_uses_integral_only() {
    let lambda = units(0.1);
    let amount = units(2.0);
    let n_eff = units(10.0);
    let (u1, u2) = PricingEngine::sample_points(n_eff, amount, lambda, true);
    let e1 = sample(u1);
    let e2 = sample(u2);
    let r = PricingEngine::calculate_price(
        units(100.0),
        SCALE,
        n_eff,
        amount,
        lambda,
        units(1.25),
        true,
        e1,
        e2,
    );
    // 1250 * (e^-0.8 - e^-1.0) = 1250 * (0.449329 - 0.367879)
    let expect = ((1250.0 * ((-0.8f64).exp() - (-1.0f64).exp()) * 100.0).round() / 100.0 * 1e6)
        .round() as i64;
    assert!((r - expect).abs() <= 20_000, "r={r} expect={expect}");
}

#[test]
fn recovery_halves_after_one_time_constant() {
    // delta = ln 2, tau = 3600 s, one sell of 10 one hour ago: the
    // decay sample is exactly one half, the contribution exactly 5.
    let delta = units(2.0f64.ln());
    let record = SalesRecord { timestamp: 0, amount: units(10.0), env_index: SCALE, price: 0 };
    let elapsed_secs = 3600.0f64;
    let tau_secs = 3600.0f64;
    let decay = ((-(delta as f64) / 1e6 * (elapsed_secs / tau_secs)).exp() * 1e6).round() as i64;
    assert_eq!(decay, 500_000);
    let n = PricingEngine::calculate_effective_n(&vec![record], &vec![decay], 0, delta);
    assert_eq!(n, units(5.0));
}

#[test]
fn recovery_zero_delta_keeps_impact_forever() {
    let record = SalesRecord { timestamp: 0, amount: units(10.0), env_index: SCALE, price: 0 };
    // the decay sample is ignored when the recovery rate is zero
    let n = PricingEngine::calculate_effective_n(&vec![record], &vec![0], units(1.5), 0);
    assert_eq!(n, units(11.5));
}

#[test]
fn effective_n_clamps_at_zero() {
    let record = SalesRecord { timestamp: 0, amount: -units(10.0), env_index: SCALE, price: 0 };
    let n = PricingEngine::calculate_effective_n(&vec![record], &vec![SCALE], units(3.0), units(1.0));
    assert_eq!(n, 0);
}

#[test]
fn effective_n_stays_above_offset_for_sell_history() {
    // the floor law on a concrete sells-only history
    let records = vec![
        SalesRecord { timestamp: 0, amount: units(2.0), env_index: SCALE, price: 0 },
        SalesRecord { timestamp: 10, amount: units(7.5), env_index: SCALE, price: 0 },
    ];
    let decays = vec![250_000, 750_000];
    let iota = units(4.0);
    let n = PricingEngine::calculate_effective_n(&records, &decays, iota, units(1.0));
    assert!(n >= iota);
    assert!(n >= 0);
    // 2 * 0.25 + 7.5 * 0.75 + 4 = 10.125
    assert_eq!(n, units(10.125));
}

#[test]
fn integral_never_exceeds_linear_total() {
    // the bounds law on concrete values
    let lambda = units(0.1);
    let amount = units(10.0);
    let e1 = sample(0);
    let e2 = sample((lambda as i128) * (amount as i128));
    let integral = PricingEngine::integral_revenue(units(100.0), SCALE, amount, lambda, e1, e2);
    let linear = PricingEngine::integral_revenue(units(100.0), SCALE, amount, 0, SCALE, SCALE);
    assert!(integral >= 0);
    assert!(integral <= linear);
}

#[test]
fn integral_is_additive_over_the_interval() {
    // splitting 10 units at 5 changes the total by at most a cent of
    // rounding: here the halves sum exactly to the whole.
    let lambda = units(0.1);
    let base = units(100.0);
    let e0 = sample(0);
    let e5 = sample((lambda as i128) * (units(5.0) as i128));
    let e10 = sample((lambda as i128) * (units(10.0) as i128));
    let first = PricingEngine::integral_revenue(base, SCALE, units(5.0), lambda, e0, e5);
    let second = PricingEngine::integral_revenue(base, SCALE, units(5.0), lambda, e5, e10);
    let whole = PricingEngine::integral_revenue(base, SCALE, units(10.0), lambda, e0, e10);
    assert_eq!(first, units(393.47));
    assert_eq!(second, units(238.65));
    assert!((first + second - whole).abs() <= 20_000);
}

#[test]
fn tiny_lambda_approaches_the_linear_price() {
    // lambda of one micro-unit: the integral result equals the linear
    // branch to the cent.
    let lambda = 1i64;
    let amount = units(10.0);
    let e1 = sample(0);
    let e2 = sample((lambda as i128) * (amount as i128));
    let integral = PricingEngine::integral_revenue(units(100.0), SCALE, amount, lambda, e1, e2);
    let linear = PricingEngine::integral_revenue(units(100.0), SCALE, amount, 0, SCALE, SCALE);
    assert_eq!(integral, linear);
}

#[test]
fn guarded_integral_prices_bad_domain_to_zero() {
    let r = PricingEngine::calculate_integral_revenue(0, SCALE, units(5.0), 0, SCALE, SCALE);
    assert_eq!(r, 0);
    let r2 = PricingEngine::calculate_integral_revenue(units(10.0), SCALE, 0, 0, SCALE, SCALE);
    assert_eq!(r2, 0);
}

#[test]
fn round_2_rounds_halves_away_from_zero() {
    assert_eq!(economy_core::fixed::round_2(5_000), 10_000);
    assert_eq!(economy_core::fixed::round_2(4_999), 0);
    assert_eq!(economy_core::fixed::round_2(-5_000), -10_000);
    assert_eq!(economy_core::fixed::round_2(-4_999), 0);
    assert_eq!(economy_core::fixed::round_2(1_234_567), 1_230_000);
    assert_eq!(economy_core::fixed::round_3(1_234_567), 1_235_000);
}
