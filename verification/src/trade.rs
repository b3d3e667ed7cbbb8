//! The trade orchestrator: one request in, one priced response out, and
//! an audit record when the trade settles.
//!
//! The pipeline validates the request, applies the identity verdict,
//! resolves the environment index (manual override or the engine's
//! reading), computes the effective inventory from the history snapshot,
//! prices the trade, and builds the response and the record. Outside
//! facts — the identity verdict, the environment reading, the decay
//! samples — enter as plain arguments; everything after them is exact.

use vstd::prelude::*;
use vstd::string::StrSliceExecFns;
use vstd::string::StringExecFns;

use crate::fixed::{spec_round_2, spec_round_3, CENT, MICRO_LIMIT, SCALE};
use crate::models::{
    AppConfig, SalesRecord, TradeAction, TradeRequest, TradeResponse, TransactionRecord, ENV_FLOOR,
    ENV_LIMIT, PRICE_LIMIT,
};
use crate::pricing::{
    history_inputs_ok, pricing_inputs_ok, samples_ok, spec_buy_discount, spec_effective_base,
    spec_effective_n, spec_price, PricingEngine, AMOUNT_LIMIT, LAMBDA_LIMIT, PMAX_CAP, TOTAL_CAP,
};

verus! {

/// The shortest player id offline mode accepts: the length of an
/// undashed UUID.
pub const MIN_OFFLINE_ID_LEN: usize = 32;

/// Whether the pipeline accepts the player: in online mode the outside
/// verifier's verdict decides; offline a plausibly UUID-long id does.
pub open spec fn spec_identity_ok(req: TradeRequest, config: AppConfig, outside: bool) -> bool {
    if config.is_online_mode {
        outside
    } else {
        req.player_id@.len() >= MIN_OFFLINE_ID_LEN
    }
}

/// The offset the effective-inventory computation uses: the request's,
/// or the configured global one.
pub open spec fn spec_iota(req: TradeRequest, config: AppConfig) -> int {
    match req.iota {
        Some(v) => v as int,
        None => config.global_iota as int,
    }
}

/// A positive manual index overrides the engine's reading.
pub open spec fn spec_manual_env(req: TradeRequest) -> bool {
    match req.manual_env_index {
        Some(m) => m > 0,
        None => false,
    }
}

pub open spec fn spec_resolved_env(req: TradeRequest, computed: int) -> int {
    match req.manual_env_index {
        Some(m) => if m > 0 {
            m as int
        } else {
            computed
        },
        None => computed,
    }
}

/// The decay rate a request prices at: the magnitude of the field.
pub open spec fn spec_lambda(req: TradeRequest) -> int {
    if req.decay_lambda >= 0 {
        req.decay_lambda as int
    } else {
        -(req.decay_lambda as int)
    }
}

/// The effective inventory of this request's item for this player.
pub open spec fn spec_neff(
    req: TradeRequest,
    config: AppConfig,
    history: Seq<SalesRecord>,
    decays: Seq<i64>,
) -> int {
    spec_effective_n(history, decays, spec_iota(req, config), config.recovery_delta as int)
}

/// The unrounded total of the trade; requests outside the curve's domain
/// (nonpositive base price or amount) price to zero.
pub open spec fn spec_trade_total(
    req: TradeRequest,
    config: AppConfig,
    history: Seq<SalesRecord>,
    decays: Seq<i64>,
    env: int,
    is_buy: bool,
    e1: int,
    e2: int,
) -> int {
    if req.base_price > 0 && req.amount > 0 {
        spec_price(
            req.base_price as int,
            env,
            spec_neff(req, config, history, decays),
            req.amount as int,
            spec_lambda(req),
            config.buy_premium as int,
            is_buy,
            e1,
            e2,
        )
    } else {
        0
    }
}

/// The average unit price reported on the wire: the total spread over
/// the amount, rounded to cents, capped at the largest representable
/// price; zero when the amount is not positive.
pub open spec fn spec_unit_avg(total: int, amount: int) -> int {
    if amount > 0 {
        let u = total * (SCALE as int) / amount;
        if u <= MICRO_LIMIT {
            spec_round_2(u)
        } else {
            spec_round_2(MICRO_LIMIT as int)
        }
    } else {
        0
    }
}

/// Magnitude bounds a request must satisfy before the pipeline prices
/// it; the service rejects requests outside them.
pub open spec fn spec_request_in_range(req: TradeRequest) -> bool {
    &&& -AMOUNT_LIMIT <= req.amount <= AMOUNT_LIMIT
    &&& -PRICE_LIMIT <= req.base_price <= PRICE_LIMIT
    &&& -LAMBDA_LIMIT <= req.decay_lambda <= LAMBDA_LIMIT
    &&& (match req.iota {
        Some(v) => -PRICE_LIMIT <= v <= PRICE_LIMIT,
        None => true,
    })
    &&& (match req.manual_env_index {
        Some(m) => m <= 2 * ENV_LIMIT,
        None => true,
    })
}

/// Whether the player id passes the offline length test.
pub fn offline_player_ok(player_id: &String) -> (r: bool)
    ensures
        r == (player_id@.len() >= MIN_OFFLINE_ID_LEN),
{
    player_id.as_str().unicode_len() >= MIN_OFFLINE_ID_LEN
}

/// Resolves the environment for one request: a positive manual index
/// wins and is tagged `Manual`; otherwise the engine's reading stands.
pub fn resolve_env(req: &TradeRequest, computed: (i64, String)) -> (r: (i64, String))
    ensures
        r.0 == spec_resolved_env(*req, computed.0 as int),
        spec_manual_env(*req) ==> r.1@ == "Manual"@,
        !spec_manual_env(*req) ==> r.1@ == computed.1@,
{
    match req.manual_env_index {
        Some(m) => {
            if m > 0 {
                (m, String::from_str("Manual"))
            } else {
                computed
            }
        },
        None => computed,
    }
}

/// A failure response: no price, the given message, defaults elsewhere.
fn failure_resp(message: &str) -> (r: TradeResponse)
    ensures
        !r.success,
        r.message@ == message@,
        r.final_price == 0,
        r.total_price == 0,
        r.unit_price_avg == 0,
        r.env_index == SCALE,
        r.effective_n == 0,
{
    TradeResponse {
        success: false,
        message: String::from_str(message),
        final_price: 0,
        total_price: 0,
        unit_price_avg: 0,
        env_index: SCALE,
        effective_n: 0,
    }
}

/// Packs a priced trade into the wire response: prices to cents, the
/// index to thousandths.
fn build_resp(total: i64, amount: i64, env: i64, n_eff: i64) -> (r: TradeResponse)
    requires
        0 <= total <= 2 * TOTAL_CAP + PMAX_CAP + CENT,
        -AMOUNT_LIMIT <= amount <= AMOUNT_LIMIT,
        0 < env <= 2 * ENV_LIMIT,
        0 <= n_eff <= MICRO_LIMIT,
    ensures
        r.success,
        r.message@ == Seq::<char>::empty(),
        r.total_price == spec_round_2(total as int),
        r.final_price == r.total_price,
        r.unit_price_avg == spec_unit_avg(total as int, amount as int),
        r.env_index == spec_round_3(env as int),
        r.effective_n == spec_round_2(n_eff as int),
        r.total_price >= 0,
        r.unit_price_avg >= 0,
        r.env_index >= 0,
        r.effective_n >= 0,
{
    proof {
        crate::fixed::lemma_round_to_step_bounds(total as int, CENT as int);
        crate::fixed::lemma_round_to_step_bounds(env as int, crate::fixed::MILLI as int);
        crate::fixed::lemma_round_to_step_bounds(n_eff as int, CENT as int);
        if amount > 0 {
            let u = (total as int) * (SCALE as int) / (amount as int);
            vstd::arithmetic::mul::lemma_mul_nonnegative(total as int, SCALE as int);
            vstd::arithmetic::div_mod::lemma_div_pos_is_pos(
                (total as int) * (SCALE as int),
                amount as int,
            );
            if u <= MICRO_LIMIT {
                crate::fixed::lemma_round_to_step_bounds(u, CENT as int);
            } else {
                crate::fixed::lemma_round_to_step_bounds(MICRO_LIMIT as int, CENT as int);
            }
        }
    }
    let total_rounded = crate::fixed::round_2(total);
    let unit: i64 = if amount > 0 {
        proof {
            vstd::arithmetic::mul::lemma_mul_upper_bound(
                total as int,
                2 * TOTAL_CAP + PMAX_CAP + CENT,
                SCALE as int,
                SCALE as int,
            );
            vstd::arithmetic::mul::lemma_mul_nonnegative(total as int, SCALE as int);
        }
        let wide: i128 = (total as i128) * (SCALE as i128) / (amount as i128);
        proof {
            vstd::arithmetic::div_mod::lemma_div_pos_is_pos(
                (total as int) * (SCALE as int),
                amount as int,
            );
        }
        if wide <= (MICRO_LIMIT as i128) {
            crate::fixed::round_2(wide as i64)
        } else {
            crate::fixed::round_2(MICRO_LIMIT)
        }
    } else {
        0
    };
    let r = TradeResponse {
        success: true,
        message: String::new(),
        final_price: total_rounded,
        total_price: total_rounded,
        unit_price_avg: unit,
        env_index: crate::fixed::round_3(env),
        effective_n: crate::fixed::round_2(n_eff),
    };
    proof {
        assert(r.message@ =~= Seq::<char>::empty());
    }
    r
}

/// The audit record of a settled trade, if one is owed: previews and
/// zero-priced trades leave none.
fn create_record(
    req: &TradeRequest,
    resp: &TradeResponse,
    note: String,
    is_buy: bool,
    now_ms: i64,
) -> (r: Option<TransactionRecord>)
    ensures
        (r is Some) <==> (!req.is_preview && resp.total_price > 0),
        r matches Some(rec) ==> {
            &&& rec.timestamp == now_ms
            &&& rec.amount == req.amount
            &&& rec.total_price == resp.total_price
            &&& rec.avg_price == resp.unit_price_avg
            &&& rec.env_index == resp.env_index
            &&& rec.action == (if is_buy {
                TradeAction::Buy
            } else {
                TradeAction::Sell
            })
            &&& rec.player_id@ == req.player_id@
            &&& rec.player_name@ == req.player_name@
            &&& rec.item_id@ == req.item_id@
            &&& rec.note@ == note@
        },
{
    if req.is_preview || resp.total_price <= 0 {
        return None;
    }
    let mut rec = TransactionRecord::new(
        now_ms,
        req.amount,
        resp.total_price,
        resp.unit_price_avg,
        resp.env_index,
        if is_buy {
            TradeAction::Buy
        } else {
            TradeAction::Sell
        },
        req.player_id.clone(),
        req.player_name.clone(),
        req.item_id.clone(),
    );
    rec.note = note;
    Some(rec)
}

/// The whole pipeline for one trade. `computed_env` is the environment
/// engine's reading, `identity_verified` the outside verifier's verdict
/// (consulted only in online mode), `e1`/`e2` the decay samples at this
/// trade's sample points, and `decays` the per-record recovery samples
/// for the history snapshot.
pub fn execute_trade_logic(
    req: &TradeRequest,
    config: &AppConfig,
    history: &Vec<SalesRecord>,
    decays: &Vec<i64>,
    computed_env: (i64, String),
    identity_verified: bool,
    e1: i64,
    e2: i64,
    now_ms: i64,
    is_buy: bool,
) -> (r: (TradeResponse, Option<TransactionRecord>))
    requires
        config.wf(),
        history_inputs_ok(history@, decays@),
        spec_request_in_range(*req),
        ENV_FLOOR <= computed_env.0 <= 2 * ENV_LIMIT,
        req.base_price > 0 && req.amount > 0 ==> pricing_inputs_ok(
            spec_effective_base(req.base_price as int, config.buy_premium as int, is_buy),
            spec_resolved_env(*req, computed_env.0 as int),
            req.amount as int,
            spec_lambda(*req),
        ),
        req.base_price > 0 && req.amount > 0 ==> samples_ok(
            if is_buy {
                spec_buy_discount(spec_neff(*req, *config, history@, decays@), req.amount as int)
            } else {
                req.amount as int
            },
            spec_lambda(*req),
            e1 as int,
            e2 as int,
        ),
    ensures
        req.amount == 0 ==> !r.0.success && r.1 is None,
        req.amount != 0 && !spec_identity_ok(*req, *config, identity_verified) ==> !r.0.success
            && r.1 is None,
        req.amount != 0 && spec_identity_ok(*req, *config, identity_verified) ==> {
            let env = spec_resolved_env(*req, computed_env.0 as int);
            let note = if spec_manual_env(*req) {
                "Manual"@
            } else {
                computed_env.1@
            };
            let total = spec_trade_total(
                *req,
                *config,
                history@,
                decays@,
                env,
                is_buy,
                e1 as int,
                e2 as int,
            );
            &&& r.0.success
            &&& r.0.total_price >= 0
            &&& r.0.unit_price_avg >= 0
            &&& r.0.env_index >= 0
            &&& r.0.effective_n >= 0
            &&& r.0.total_price == spec_round_2(total)
            &&& r.0.final_price == r.0.total_price
            &&& r.0.unit_price_avg == spec_unit_avg(total, req.amount as int)
            &&& r.0.env_index == spec_round_3(env)
            &&& r.0.effective_n == spec_round_2(spec_neff(*req, *config, history@, decays@))
            &&& r.0.message@ == "trade ok | env: "@ + note
            &&& ((r.1 is Some) <==> (!req.is_preview && r.0.total_price > 0))
            &&& (r.1 matches Some(rec) ==> {
                &&& rec.timestamp == now_ms
                &&& rec.amount == req.amount
                &&& rec.total_price == r.0.total_price
                &&& rec.avg_price == r.0.unit_price_avg
                &&& rec.env_index == r.0.env_index
                &&& rec.action == (if is_buy {
                    TradeAction::Buy
                } else {
                    TradeAction::Sell
                })
                &&& rec.player_id@ == req.player_id@
                &&& rec.player_name@ == req.player_name@
                &&& rec.item_id@ == req.item_id@
                &&& rec.note@ == note
            })
        },
{
    if req.amount == 0 {
        return (failure_resp("invalid trade amount"), None);
    }
    let identity_ok = if config.is_online_mode {
        identity_verified
    } else {
        offline_player_ok(&req.player_id)
    };
    if !identity_ok {
        return (failure_resp("identity check failed"), None);
    }
    let (env_idx, env_note) = resolve_env(req, computed_env);
    let iota_val: i64 = match req.iota {
        Some(v) => v,
        None => config.global_iota,
    };
    let n_eff = PricingEngine::calculate_effective_n(
        history,
        decays,
        iota_val,
        config.recovery_delta,
    );
    let lam: i64 = if req.decay_lambda >= 0 {
        req.decay_lambda
    } else {
        -req.decay_lambda
    };
    let total: i64 = if req.base_price > 0 && req.amount > 0 {
        PricingEngine::calculate_price(
            req.base_price,
            env_idx,
            n_eff,
            req.amount,
            lam,
            config.buy_premium,
            is_buy,
            e1,
            e2,
        )
    } else {
        0
    };
    let mut resp = build_resp(total, req.amount, env_idx, n_eff);
    resp.message = String::from_str("trade ok | env: ").concat(env_note.as_str());
    let record = create_record(req, &resp, env_note, is_buy, now_ms);
    (resp, record)
}

} // verus!
