//! Full trade-pipeline scenarios: validation, identity, the manual
//! override, response shaping and record emission.

use economy_core::fixed::SCALE;
use economy_core::models::{AppConfig, SalesRecord, TradeAction, TradeRequest};
use economy_core::pricing::PricingEngine;
use economy_core::trade::execute_trade_logic;

fn units(x: f64) -> i64 {
    (x * 1e6).round() as i64
}

fn sample(u: i128) -> i64 {
    ((-(u as f64) / 1e12).exp() * 1e6).round() as i64
}

fn request(amount: f64) -> TradeRequest {
    TradeRequest {
        player_id: "0123456789abcdef0123456789abcdef".to_string(),
        player_name: "Steve".to_string(),
        item_id: "stone".to_string(),
        amount: units(amount),
        base_price: units(100.0),
        decay_lambda: 0,
        iota: None,
        manual_env_index: None,
        is_preview: false,
    }
}

fn run(
    req: &TradeRequest,
    config: &AppConfig,
    history: &Vec<SalesRecord>,
    is_buy: bool,
) -> (economy_core::models::TradeResponse, Option<economy_core::models::TransactionRecord>) {
    let iota = req.iota.unwrap_or(config.global_iota);
    let decays: Vec<i64> = history.iter().map(|_| SCALE).collect();
    let n_eff = PricingEngine::calculate_effective_n(history, &decays, iota, config.recovery_delta);
    let lambda = req.decay_lambda.abs();
    let (e1, e2) = if req.amount > 0 {
        let (u1, u2) = PricingEngine::sample_points(n_eff, req.amount, lambda, is_buy);
        (sample(u1), sample(u2))
    } else {
        (SCALE, SCALE)
    };
    execute_trade_logic(
        req,
        config,
        history,
        &decays,
        (SCALE, "Normal".to_string()),
        false,
        e1,
        e2,
        1_700_000_000_000,
        is_buy,
    )
}

#[test]
fn linear_sell_settles_at_flat_price() {
    let mut config = AppConfig::default();
    config.recovery_delta = 0;
    let req = request(5.0);
    let (resp, rec) = run(&req, &config, &Vec::new(), false);
    assert!(resp.success);
    assert_eq!(resp.total_price, units(500.0));
    assert_eq!(resp.final_price, units(500.0));
    assert_eq!(resp.unit_price_avg, units(100.0));
    assert_eq!(resp.env_index, SCALE);
    assert_eq!(resp.effective_n, 0);
    let rec = rec.expect("a settled trade leaves a record");
    assert_eq!(rec.total_price, units(500.0));
    assert_eq!(rec.amount, units(5.0));
    assert!(matches!(rec.action, TradeAction::Sell));
    assert_eq!(rec.player_id, req.player_id);
    assert_eq!(rec.item_id, "stone");
    assert_eq!(rec.note, "Normal");
}

#[test]
fn zero_amount_is_rejected_without_a_record() {
    let config = AppConfig::default();
    let req = request(0.0);
    let (resp, rec) = run(&req, &config, &Vec::new(), false);
    assert!(!resp.success);
    assert_eq!(resp.total_price, 0);
    assert!(rec.is_none());
}

#[test]
fn short_offline_id_fails_identity() {
    let config = AppConfig::default();
    let mut req = request(5.0);
    req.player_id = "short".to_string();
    let (resp, rec) = run(&req, &config, &Vec::new(), false);
    assert!(!resp.success);
    assert!(rec.is_none());
}

#[test]
fn online_mode_defers_to_the_outside_verdict() {
    let mut config = AppConfig::default();
    config.is_online_mode = true;
    let req = request(5.0);
    // the harness passes identity_verified = false
    let (resp, rec) = run(&req, &config, &Vec::new(), false);
    assert!(!resp.success);
    assert!(rec.is_none());
}

#[test]
fn manual_env_index_overrides_and_tags() {
    let mut config = AppConfig::default();
    config.recovery_delta = 0;
    let mut req = request(5.0);
    req.manual_env_index = Some(units(2.0));
    let (resp, rec) = run(&req, &config, &Vec::new(), false);
    assert!(resp.success);
    assert_eq!(resp.env_index, units(2.0));
    assert_eq!(resp.total_price, units(1000.0));
    assert_eq!(rec.expect("record").note, "Manual");
}

#[test]
fn nonpositive_manual_env_falls_back_to_the_engine() {
    let mut config = AppConfig::default();
    config.recovery_delta = 0;
    let mut req = request(5.0);
    req.manual_env_index = Some(0);
    let (resp, _) = run(&req, &config, &Vec::new(), false);
    assert_eq!(resp.env_index, SCALE);
}

#[test]
fn preview_settles_no_record() {
    let mut config = AppConfig::default();
    config.recovery_delta = 0;
    let mut req = request(5.0);
    req.is_preview = true;
    let (resp, rec) = run(&req, &config, &Vec::new(), false);
    assert!(resp.success);
    assert_eq!(resp.total_price, units(500.0));
    assert!(rec.is_none());
}

#[test]
fn negative_amount_prices_to_zero_and_leaves_no_record() {
    let mut config = AppConfig::default();
    config.recovery_delta = 0;
    let req = request(-5.0);
    let (resp, rec) = run(&req, &config, &Vec::new(), false);
    assert!(resp.success);
    assert_eq!(resp.total_price, 0);
    assert_eq!(resp.unit_price_avg, 0);
    assert!(rec.is_none());
}

#[test]
fn history_raises_effective_n_and_lowers_the_sell_price() {
    let mut config = AppConfig::default();
    config.recovery_delta = 0;
    let mut req = request(10.0);
    req.decay_lambda = units(0.1);
    let history = vec![SalesRecord {
        timestamp: 1_699_999_000_000,
        amount: units(5.0),
        env_index: SCALE,
        price: 0,
    }];
    let (resp, _) = run(&req, &config, &history, false);
    assert_eq!(resp.effective_n, units(5.0));
    // (100/0.1) * (e^-0.5 - e^-1.5) = 383.40
    assert_eq!(resp.total_price, units(383.40));
    let (fresh, _) = run(&req, &config, &Vec::new(), false);
    assert!(resp.total_price < fresh.total_price);
}

#[test]
fn validate_rejects_bad_requests() {
    let ok = request(5.0);
    assert!(ok.validate().is_ok());
    let zero = request(0.0);
    assert!(zero.validate().is_err());
    let mut anon = request(5.0);
    anon.player_id = String::new();
    assert!(anon.validate().is_err());
}

#[test]
fn unknown_placeholder_name() {
    assert_eq!(economy_core::models::cow_unknown(), "Unknown");
}

#[test]
fn trade_action_labels() {
    assert_eq!(TradeAction::Buy.label(), "BUY");
    assert_eq!(TradeAction::Sell.label(), "SELL");
}
