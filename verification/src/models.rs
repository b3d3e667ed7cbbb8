//! Core data model: configuration, catalog items, trade requests and
//! responses, sales records and the audit transaction record.
//!
//! Every monetary or index field is an `i64` count of micro-units (see
//! `fixed`). Calendar boundaries are month-day pairs; the surrounding
//! service parses its `"MM-DD"` wire strings into them.

use vstd::prelude::*;
use vstd::string::StringExecFns;

use crate::fixed::{spec_round_2, MICRO_LIMIT, SCALE};

verus! {

/// Hard floor of the environment index: 0.05 units in micro-units.
pub const ENV_FLOOR: i64 = 50_000;

/// Largest environment index, premium factor, or calendar penalty the
/// engine accepts, in micro-units (one thousand units).
pub const ENV_LIMIT: i64 = 1_000_000_000;

/// Largest base price or trade amount magnitude the engine accepts, in
/// micro-units (one million units).
pub const PRICE_LIMIT: i64 = 1_000_000_000_000;

/// Most sales records kept per player and item; the oldest is dropped
/// beyond this.
pub const MAX_SALES_PER_ITEM: usize = 100;

/// A day of the calendar year, used for the seasonal ranges.
#[derive(Clone, Copy, Debug, PartialEq, Eq, Structural)]
pub struct MonthDay {
    pub month: u8,
    pub day: u8,
}

impl MonthDay {
    /// Order-preserving encoding of the pair; two month-days compare the
    /// way their zero-padded `"MM-DD"` spellings compare.
    pub open spec fn code(self) -> int {
        self.month * 100 + self.day
    }
}

/// Service configuration. Factors are subtractive micro-unit penalties on
/// the environment index; `recovery_delta` and `recovery_tau` drive the
/// exponential recovery of effective inventory.
#[derive(Clone, Copy, Debug)]
pub struct AppConfig {
    pub global_iota: i64,
    pub base_env_index: i64,
    pub noise_std: i64,
    pub weekend_factor: i64,
    pub holiday_factor: i64,
    pub public_holiday_factor: i64,
    pub buy_premium: i64,
    pub recovery_delta: i64,
    pub recovery_tau: i64,
    pub version: u32,
    pub port: u16,
    pub is_online_mode: bool,
    pub winter_start: MonthDay,
    pub winter_end: MonthDay,
    pub summer_start: MonthDay,
    pub summer_end: MonthDay,
}

impl AppConfig {
    /// Ranges every configuration the engine works on satisfies; the
    /// defaults establish it and the service re-checks it on hot updates.
    pub open spec fn wf(self) -> bool {
        &&& -PRICE_LIMIT <= self.global_iota <= PRICE_LIMIT
        &&& 0 <= self.base_env_index <= ENV_LIMIT
        &&& 0 <= self.noise_std <= ENV_LIMIT
        &&& 0 <= self.weekend_factor <= ENV_LIMIT
        &&& 0 <= self.holiday_factor <= ENV_LIMIT
        &&& 0 <= self.public_holiday_factor <= ENV_LIMIT
        &&& 0 <= self.buy_premium <= ENV_LIMIT
        &&& 0 <= self.recovery_delta
        &&& 0 < self.recovery_tau
    }
}

impl Default for AppConfig {
    /// The configuration the service starts from when no stored one loads.
    fn default() -> (c: Self)
        ensures
            c.wf(),
            c.global_iota == 0,
            c.base_env_index == SCALE,
            c.noise_std == 25_000,
            c.weekend_factor == 20_000,
            c.holiday_factor == 150_000,
            c.public_holiday_factor == 100_000,
            c.buy_premium == 1_250_000,
            c.recovery_delta == 50_000,
            c.recovery_tau == 3_600_000_000,
            c.version == 1,
            c.port == 9981,
            !c.is_online_mode,
            c.winter_start == (MonthDay { month: 1, day: 15 }),
            c.winter_end == (MonthDay { month: 2, day: 20 }),
            c.summer_start == (MonthDay { month: 7, day: 1 }),
            c.summer_end == (MonthDay { month: 8, day: 31 }),
    {
        AppConfig {
            global_iota: 0,
            base_env_index: SCALE,
            noise_std: 25_000,
            weekend_factor: 20_000,
            holiday_factor: 150_000,
            public_holiday_factor: 100_000,
            buy_premium: 1_250_000,
            recovery_delta: 50_000,
            recovery_tau: 3_600_000_000,
            version: 1,
            port: 9981,
            is_online_mode: false,
            winter_start: MonthDay { month: 1, day: 15 },
            winter_end: MonthDay { month: 2, day: 20 },
            summer_start: MonthDay { month: 7, day: 1 },
            summer_end: MonthDay { month: 8, day: 31 },
        }
    }
}

/// One catalog entry. `n` is the static inventory offset the catalog
/// keeps across syncs; `iota` the per-item additive offset.
#[derive(Debug)]
pub struct MarketItem {
    pub id: String,
    pub name: String,
    pub base_price: i64,
    pub lambda: i64,
    pub n: i64,
    pub iota: i64,
}

/// Market snapshot row for one item, prices already rounded to cents.
#[derive(Debug)]
pub struct MarketItemStatus {
    pub price: i64,
    pub buy_price: i64,
    pub neff: i64,
    pub base_price: i64,
}

impl MarketItemStatus {
    pub fn new(price: i64, buy_price: i64, neff: i64, base_price: i64) -> (s: Self)
        requires
            -MICRO_LIMIT <= price <= MICRO_LIMIT,
            -MICRO_LIMIT <= buy_price <= MICRO_LIMIT,
            -MICRO_LIMIT <= neff <= MICRO_LIMIT,
        ensures
            s.price == spec_round_2(price as int),
            s.buy_price == spec_round_2(buy_price as int),
            s.neff == spec_round_2(neff as int),
            s.base_price == base_price,
    {
        MarketItemStatus {
            price: crate::fixed::round_2(price),
            buy_price: crate::fixed::round_2(buy_price),
            neff: crate::fixed::round_2(neff),
            base_price,
        }
    }
}

/// Memoized environment reading, valid for a single unix second.
#[derive(Debug)]
pub struct EnvCache {
    pub index: i64,
    pub last_update: i64,
    pub timestamp: i64,
    pub note: String,
}

impl EnvCache {
    pub open spec fn wf(self) -> bool {
        ENV_FLOOR <= self.index <= 2 * ENV_LIMIT
    }
}

/// One past trade of one item by one player: the signed amount (positive
/// for a sell, negative for a buy), when it happened, and at what price.
#[derive(Clone, Copy, Debug, PartialEq, Eq, Structural)]
pub struct SalesRecord {
    pub timestamp: i64,
    pub amount: i64,
    pub env_index: i64,
    pub price: i64,
}

/// Sales records of one item, newest last.
#[derive(Debug)]
pub struct ItemSales {
    pub item_id: String,
    pub records: Vec<SalesRecord>,
}

/// All sales history of one player, grouped by item.
#[derive(Debug)]
pub struct PlayerSalesHistory {
    pub player_id: String,
    pub player_name: String,
    pub item_sales: Vec<ItemSales>,
}

/// Whether a trade takes stock from the market or returns it.
#[derive(Clone, Copy, Debug, PartialEq, Eq, Structural)]
pub enum TradeAction {
    Buy,
    Sell,
}

impl TradeAction {
    /// Wire spelling of the action.
    pub fn label(self) -> (r: String)
        ensures
            self is Buy ==> r@ == "BUY"@,
            self is Sell ==> r@ == "SELL"@,
    {
        match self {
            TradeAction::Buy => String::from_str("BUY"),
            TradeAction::Sell => String::from_str("SELL"),
        }
    }
}

/// Audit row handed to the persistence pipeline for every settled trade.
#[derive(Debug)]
pub struct TransactionRecord {
    pub timestamp: i64,
    pub amount: i64,
    pub total_price: i64,
    pub avg_price: i64,
    pub env_index: i64,
    pub action: TradeAction,
    pub player_id: String,
    pub player_name: String,
    pub item_id: String,
    pub note: String,
}

/// Mathematical image of a transaction record: integers and character
/// sequences only.
pub struct TransactionView {
    pub timestamp: int,
    pub amount: int,
    pub total_price: int,
    pub avg_price: int,
    pub env_index: int,
    pub action: TradeAction,
    pub player_id: Seq<char>,
    pub player_name: Seq<char>,
    pub item_id: Seq<char>,
    pub note: Seq<char>,
}

impl View for TransactionRecord {
    type V = TransactionView;

    open spec fn view(&self) -> TransactionView {
        TransactionView {
            timestamp: self.timestamp as int,
            amount: self.amount as int,
            total_price: self.total_price as int,
            avg_price: self.avg_price as int,
            env_index: self.env_index as int,
            action: self.action,
            player_id: self.player_id@,
            player_name: self.player_name@,
            item_id: self.item_id@,
            note: self.note@,
        }
    }
}

impl TransactionRecord {
    pub fn new(
        ts: i64,
        amt: i64,
        tp: i64,
        ap: i64,
        ei: i64,
        act: TradeAction,
        pid: String,
        pnm: String,
        iid: String,
    ) -> (r: Self)
        ensures
            r.timestamp == ts,
            r.amount == amt,
            r.total_price == tp,
            r.avg_price == ap,
            r.env_index == ei,
            r.action == act,
            r.player_id@ == pid@,
            r.player_name@ == pnm@,
            r.item_id@ == iid@,
            r.note@ == Seq::<char>::empty(),
    {
        let r = TransactionRecord {
            timestamp: ts,
            amount: amt,
            total_price: tp,
            avg_price: ap,
            env_index: ei,
            action: act,
            player_id: pid,
            player_name: pnm,
            item_id: iid,
            note: String::new(),
        };
        proof {
            assert(r.note@ =~= Seq::<char>::empty());
        }
        r
    }

    /// A copy whose mathematical image equals this record's.
    pub fn duplicate(&self) -> (r: Self)
        ensures
            r@ == self@,
    {
        TransactionRecord {
            timestamp: self.timestamp,
            amount: self.amount,
            total_price: self.total_price,
            avg_price: self.avg_price,
            env_index: self.env_index,
            action: self.action,
            player_id: self.player_id.clone(),
            player_name: self.player_name.clone(),
            item_id: self.item_id.clone(),
            note: self.note.clone(),
        }
    }
}

/// Input-level rejection of a request.
#[derive(Debug)]
pub enum ApiError {
    BadRequest(String),
}

/// Faults a caller can make when building model values.
#[derive(Debug)]
pub enum ModelError {
    InvalidPrice(i64),
    EmptyId,
}

/// One trade to price: who trades how much of what, with the per-request
/// pricing parameters the game server supplies.
#[derive(Debug)]
pub struct TradeRequest {
    pub player_id: String,
    pub player_name: String,
    pub item_id: String,
    pub amount: i64,
    pub base_price: i64,
    pub decay_lambda: i64,
    pub iota: Option<i64>,
    pub manual_env_index: Option<i64>,
    pub is_preview: bool,
}

impl TradeRequest {
    /// Input validation: the amount must be nonzero (at micro-unit
    /// resolution this is the smallest-magnitude test expressible) and the
    /// player id present.
    pub fn validate(&self) -> (r: Result<(), ApiError>)
        ensures
            r is Ok <==> self.amount != 0 && self.player_id@.len() > 0,
            r is Err ==> r->Err_0 is BadRequest,
    {
        if self.amount == 0 {
            return Err(ApiError::BadRequest(String::from_str("trade amount must be nonzero")));
        }
        if self.player_id.as_str().is_empty() {
            return Err(ApiError::BadRequest(String::from_str("player id is missing")));
        }
        Ok(())
    }
}

/// Priced answer to one trade request; prices are rounded to cents, the
/// environment index to thousandths.
#[derive(Debug)]
pub struct TradeResponse {
    pub success: bool,
    pub message: String,
    pub final_price: i64,
    pub total_price: i64,
    pub unit_price_avg: i64,
    pub env_index: i64,
    pub effective_n: i64,
}

/// Several trades submitted together; results come back in input order.
#[derive(Debug)]
pub struct BatchTradeRequest {
    pub player_id: String,
    pub player_name: String,
    pub requests: Vec<TradeRequest>,
}

#[derive(Debug)]
pub struct BatchTradeResponse {
    pub results: Vec<TradeResponse>,
}

/// Item selection for a market snapshot; empty means the whole catalog.
#[derive(Debug)]
pub struct MarketPriceRequest {
    pub item_ids: Vec<String>,
}

/// Placeholder display name of a catalog item.
pub fn cow_unknown() -> (r: String)
    ensures
        r@ == "Unknown"@,
{
    String::from_str("Unknown")
}

} // verus!
