//! The market catalog: syncing it while preserving per-item state, and
//! the server-wide price snapshot rows.

use vstd::prelude::*;

use crate::fixed::{spec_round_2, MICRO_LIMIT, SCALE};
use crate::models::{
    AppConfig, MarketItem, MarketItemStatus, SalesRecord, ENV_LIMIT, MAX_SALES_PER_ITEM,
    PRICE_LIMIT,
};
use crate::pricing::{history_inputs_ok, spec_weighted_sum};

verus! {

/// Most flattened history rows one aggregation accepts.
pub const MAX_SNAPSHOT_ENTRIES: usize = 10_000;

/// Largest per-row contribution to an aggregate: a full history of
/// maximal amounts at full weight.
pub const AGGREGATE_STEP: i64 = 100_000_000_000_000;

/// First catalog entry under this id.
pub open spec fn spec_catalog_find(items: Seq<MarketItem>, id: Seq<char>) -> Option<MarketItem>
    decreases items.len(),
{
    if items.len() == 0 {
        None
    } else if items.first().id@ == id {
        Some(items.first())
    } else {
        spec_catalog_find(items.drop_first(), id)
    }
}

/// Index of the catalog entry under this id.
fn find_catalog(items: &Vec<MarketItem>, id: &String) -> (r: Option<usize>)
    ensures
        match r {
            Some(j) => 0 <= j < items@.len() && items@[j as int].id@ == id@
                && spec_catalog_find(items@, id@) == Some(items@[j as int]),
            None => spec_catalog_find(items@, id@) is None,
        },
{
    let n = items.len();
    let mut i: usize = 0;
    while i < n
        invariant
            0 <= i <= n,
            n == items@.len(),
            forall|j: int| 0 <= j < i ==> (#[trigger] items@[j]).id@ != id@,
        decreases n - i,
    {
        if items[i].id == *id {
            proof {
                lemma_catalog_found(items@, i as int, id@);
            }
            return Some(i);
        }
        i = i + 1;
    }
    proof {
        lemma_catalog_absent(items@, id@);
    }
    None
}

proof fn lemma_catalog_found(items: Seq<MarketItem>, at: int, id: Seq<char>)
    requires
        0 <= at < items.len(),
        items[at].id@ == id,
        forall|j: int| 0 <= j < at ==> (#[trigger] items[j]).id@ != id,
    ensures
        spec_catalog_find(items, id) == Some(items[at]),
    decreases at,
{
    if at > 0 {
        lemma_catalog_found(items.drop_first(), at - 1, id);
    }
}

proof fn lemma_catalog_absent(items: Seq<MarketItem>, id: Seq<char>)
    requires
        forall|j: int| 0 <= j < items.len() ==> (#[trigger] items[j]).id@ != id,
    ensures
        spec_catalog_find(items, id) is None,
    decreases items.len(),
{
    if items.len() > 0 {
        lemma_catalog_absent(items.drop_first(), id);
    }
}

/// Replaces the catalog with the synced items, preserving each id's
/// accumulated `n` and `iota` from the catalog it replaces.
pub fn merge_catalog(old_items: &Vec<MarketItem>, new_items: Vec<MarketItem>) -> (r: Vec<
    MarketItem,
>)
    ensures
        r@.len() == new_items@.len(),
        forall|i: int|
            0 <= i < r@.len() ==> {
                &&& (#[trigger] r@[i]).id@ == new_items@[i].id@
                &&& r@[i].name@ == new_items@[i].name@
                &&& r@[i].base_price == new_items@[i].base_price
                &&& r@[i].lambda == new_items@[i].lambda
                &&& (match spec_catalog_find(old_items@, new_items@[i].id@) {
                    Some(o) => r@[i].n == o.n && r@[i].iota == o.iota,
                    None => r@[i].n == new_items@[i].n && r@[i].iota == new_items@[i].iota,
                })
            },
{
    let ghost orig: Seq<MarketItem> = new_items@;
    let mut rest = new_items;
    let mut out: Vec<MarketItem> = Vec::new();
    proof {
        assert(rest@ =~= orig.skip(0));
    }
    while rest.len() > 0
        invariant
            out@.len() + rest@.len() == orig.len(),
            rest@ =~= orig.skip(out@.len() as int),
            forall|i: int|
                0 <= i < out@.len() ==> {
                    &&& (#[trigger] out@[i]).id@ == orig[i].id@
                    &&& out@[i].name@ == orig[i].name@
                    &&& out@[i].base_price == orig[i].base_price
                    &&& out@[i].lambda == orig[i].lambda
                    &&& (match spec_catalog_find(old_items@, orig[i].id@) {
                        Some(o) => out@[i].n == o.n && out@[i].iota == o.iota,
                        None => out@[i].n == orig[i].n && out@[i].iota == orig[i].iota,
                    })
                },
        decreases rest@.len(),
    {
        let ghost k: int = out@.len() as int;
        let mut item = rest.remove(0);
        proof {
            assert(item == orig[k]);
            assert(rest@ =~= orig.skip(k + 1));
        }
        match find_catalog(old_items, &item.id) {
            Some(j) => {
                item.n = old_items[j].n;
                item.iota = old_items[j].iota;
            },
            None => {},
        }
        out.push(item);
    }
    proof {
        assert(out@.len() == orig.len());
    }
    out
}

/// Decayed contribution of one flattened history row (no offset, no
/// clamp): what the server-wide aggregation sums per item.
pub fn calculate_history_decay(records: &Vec<SalesRecord>, decays: &Vec<i64>) -> (r: i64)
    requires
        history_inputs_ok(records@, decays@),
    ensures
        r == spec_weighted_sum(records@, decays@) / (SCALE as int),
        -AGGREGATE_STEP <= r <= AGGREGATE_STEP,
{
    crate::pricing::PricingEngine::weighted_sum_scaled(records, decays)
}

/// One flattened history row: one player's records of one item, with
/// their decay samples.
#[derive(Debug)]
pub struct ItemSnapshot {
    pub item_id: String,
    pub records: Vec<SalesRecord>,
    pub decays: Vec<i64>,
}

impl ItemSnapshot {
    pub open spec fn wf(self) -> bool {
        history_inputs_ok(self.records@, self.decays@)
    }

    /// This row's contribution to its item's aggregate.
    pub open spec fn contribution(self) -> int {
        spec_weighted_sum(self.records@, self.decays@) / (SCALE as int)
    }
}

/// The server-wide decayed inventory of one item: the sum of every
/// row's contribution under that id.
pub open spec fn spec_aggregate(entries: Seq<ItemSnapshot>, id: Seq<char>) -> int
    decreases entries.len(),
{
    if entries.len() == 0 {
        0
    } else {
        spec_aggregate(entries.drop_first(), id) + if entries.first().item_id@ == id {
            entries.first().contribution()
        } else {
            0
        }
    }
}

/// Adding one row changes only its own id's aggregate, by its own
/// contribution.
proof fn lemma_aggregate_snoc(entries: Seq<ItemSnapshot>, entry: ItemSnapshot, id: Seq<char>)
    ensures
        spec_aggregate(entries.push(entry), id) == spec_aggregate(entries, id) + if entry.item_id@
            == id {
            entry.contribution()
        } else {
            0
        },
    decreases entries.len(),
{
    let news = entries.push(entry);
    assert(news[entries.len() as int] == entry);
    if entries.len() == 0 {
        assert(news.first() == entry);
        assert(news.drop_first() =~= Seq::<ItemSnapshot>::empty());
        assert(spec_aggregate(news.drop_first(), id) == 0);
        assert(spec_aggregate(entries, id) == 0);
    } else {
        lemma_aggregate_snoc(entries.drop_first(), entry, id);
        assert(news.first() == entries.first());
        assert(news.drop_first() =~= entries.drop_first().push(entry));
        assert(spec_aggregate(news, id) == spec_aggregate(news.drop_first(), id) + (
        if news.first().item_id@ == id {
            news.first().contribution()
        } else {
            0
        }));
        assert(spec_aggregate(entries, id) == spec_aggregate(entries.drop_first(), id) + (
        if entries.first().item_id@ == id {
            entries.first().contribution()
        } else {
            0
        }));
    }
}

/// Every aggregate of well-formed rows stays within the envelope.
proof fn lemma_aggregate_bound(entries: Seq<ItemSnapshot>, id: Seq<char>)
    requires
        forall|i: int| 0 <= i < entries.len() ==> (#[trigger] entries[i]).wf(),
    ensures
        -(entries.len() as int) * (AGGREGATE_STEP as int) <= spec_aggregate(entries, id) <= (
        entries.len() as int) * (AGGREGATE_STEP as int),
    decreases entries.len(),
{
    if entries.len() > 0 {
        lemma_aggregate_bound(entries.drop_first(), id);
        crate::pricing::lemma_weighted_sum_scaled_bound(
            entries.first().records@,
            entries.first().decays@,
        );
    }
}

/// First value under this id in the accumulator; zero if absent.
pub open spec fn spec_acc_value(acc: Seq<(String, i64)>, id: Seq<char>) -> int
    decreases acc.len(),
{
    if acc.len() == 0 {
        0
    } else if acc.first().0@ == id {
        acc.first().1 as int
    } else {
        spec_acc_value(acc.drop_first(), id)
    }
}

pub open spec fn spec_acc_has(acc: Seq<(String, i64)>, id: Seq<char>) -> bool {
    exists|k: int| 0 <= k < acc.len() && (#[trigger] acc[k]).0@ == id
}

/// The server-wide aggregation: every row's contribution summed per
/// item id.
pub fn calculate_global_neff(entries: &Vec<ItemSnapshot>) -> (acc: Vec<(String, i64)>)
    requires
        entries@.len() <= MAX_SNAPSHOT_ENTRIES,
        forall|i: int| 0 <= i < entries@.len() ==> (#[trigger] entries@[i]).wf(),
    ensures
        forall|id: Seq<char>| #[trigger] spec_acc_value(acc@, id) == spec_aggregate(entries@, id),
        forall|i: int|
            0 <= i < entries@.len() ==> spec_acc_has(acc@, (#[trigger] entries@[i]).item_id@),
{
    let n = entries.len();
    let mut acc: Vec<(String, i64)> = Vec::new();
    let mut i: usize = 0;
    proof {
        assert(entries@.subrange(0, 0) =~= Seq::<ItemSnapshot>::empty());
        assert forall|id: Seq<char>| #[trigger] spec_acc_value(acc@, id) == spec_aggregate(
            entries@.subrange(0, 0),
            id,
        ) by {
            assert(acc@.len() == 0);
        }
    }
    while i < n
        invariant
            0 <= i <= n,
            n == entries@.len(),
            n <= MAX_SNAPSHOT_ENTRIES,
            forall|t: int| 0 <= t < entries@.len() ==> (#[trigger] entries@[t]).wf(),
            forall|id: Seq<char>| #[trigger] spec_acc_value(acc@, id) == spec_aggregate(
                entries@.subrange(0, i as int),
                id,
            ),
            forall|t: int|
                0 <= t < i ==> spec_acc_has(acc@, (#[trigger] entries@[t]).item_id@),
            forall|k: int, l: int| 0 <= k < l < acc@.len() ==> (#[trigger] acc@[k]).0@ != (
            #[trigger] acc@[l]).0@,
            forall|k: int|
                0 <= k < acc@.len() ==> -((i as int) * (AGGREGATE_STEP as int)) <= (
                #[trigger] acc@[k]).1 <= (i as int) * (AGGREGATE_STEP as int),
        decreases n - i,
    {
        let ghost prefix: Seq<ItemSnapshot> = entries@.subrange(0, i as int);
        let ghost accv: Seq<(String, i64)> = acc@;
        let v = calculate_history_decay(&entries[i].records, &entries[i].decays);
        proof {
            assert(entries@.subrange(0, i + 1).drop_last() =~= prefix);
            assert(entries@.subrange(0, i + 1) =~= prefix.push(entries@[i as int]));
            assert forall|id: Seq<char>| #[trigger] spec_aggregate(
                entries@.subrange(0, i + 1),
                id,
            ) == spec_aggregate(prefix, id) + (if entries@[i as int].item_id@ == id {
                entries@[i as int].contribution()
            } else {
                0
            }) by {
                lemma_aggregate_snoc(prefix, entries@[i as int], id);
            }
        }
        match find_acc(&acc, &entries[i].item_id) {
            Some(k) => {
                proof {
                    lemma_acc_found(acc@, k as int, entries@[i as int].item_id@);
                    lemma_aggregate_bound(prefix, entries@[i as int].item_id@);
                }
                let pair = acc.remove(k);
                let updated: i64 = pair.1 + v;
                acc.insert(k, (pair.0, updated));
                proof {
                    assert(acc@ =~= accv.update(k as int, acc@[k as int]));
                    lemma_acc_update(accv, acc@, k as int, entries@[i as int].item_id@);
                    assert forall|id: Seq<char>| #[trigger] spec_acc_value(acc@, id)
                        == spec_aggregate(entries@.subrange(0, i + 1), id) by {
                        if id == entries@[i as int].item_id@ {
                        } else {
                            assert(spec_acc_value(acc@, id) == spec_acc_value(accv, id));
                        }
                    }
                    assert forall|t: int| 0 <= t < i + 1 implies spec_acc_has(
                        acc@,
                        (#[trigger] entries@[t]).item_id@,
                    ) by {
                        if spec_acc_has(accv, entries@[t].item_id@) {
                            let w = choose|w: int|
                                0 <= w < accv.len() && (#[trigger] accv[w]).0@ == entries@[
                                t].item_id@;
                            assert(acc@[w].0@ == entries@[t].item_id@);
                        }
                    }
                }
            },
            None => {
                proof {
                    lemma_acc_absent(acc@, entries@[i as int].item_id@);
                }
                let key = clone_string(&entries[i].item_id);
                acc.push((key, v));
                proof {
                    lemma_acc_push(accv, acc@[accv.len() as int], entries@[i as int].item_id@);
                    assert(acc@ =~= accv.push(acc@[accv.len() as int]));
                    assert forall|id: Seq<char>| #[trigger] spec_acc_value(acc@, id)
                        == spec_aggregate(entries@.subrange(0, i + 1), id) by {
                        if id == entries@[i as int].item_id@ {
                        } else {
                            assert(spec_acc_value(acc@, id) == spec_acc_value(accv, id));
                        }
                    }
                    assert forall|k: int, l: int| 0 <= k < l < acc@.len() implies (
                    acc@[k]).0@ != (acc@[l]).0@ by {
                        if l == accv.len() {
                            assert(acc@[k] == accv[k]);
                        } else {
                            assert(acc@[k] == accv[k]);
                            assert(acc@[l] == accv[l]);
                        }
                    }
                    assert forall|t: int| 0 <= t < i + 1 implies spec_acc_has(
                        acc@,
                        (#[trigger] entries@[t]).item_id@,
                    ) by {
                        if t < i {
                            let w = choose|w: int|
                                0 <= w < accv.len() && (#[trigger] accv[w]).0@ == entries@[
                                t].item_id@;
                            assert(acc@[w].0@ == entries@[t].item_id@);
                        } else {
                            assert(acc@[accv.len() as int].0@ == entries@[t].item_id@);
                        }
                    }
                }
            },
        }
        i = i + 1;
    }
    proof {
        assert(entries@.subrange(0, n as int) =~= entries@);
    }
    acc
}

/// Index of the accumulator pair under this id.
fn find_acc(acc: &Vec<(String, i64)>, id: &String) -> (r: Option<usize>)
    ensures
        match r {
            Some(k) => 0 <= k < acc@.len() && acc@[k as int].0@ == id@,
            None => forall|k: int| 0 <= k < acc@.len() ==> (#[trigger] acc@[k]).0@ != id@,
        },
{
    let n = acc.len();
    let mut i: usize = 0;
    while i < n
        invariant
            0 <= i <= n,
            n == acc@.len(),
            forall|j: int| 0 <= j < i ==> (#[trigger] acc@[j]).0@ != id@,
        decreases n - i,
    {
        if acc[i].0 == *id {
            return Some(i);
        }
        i = i + 1;
    }
    None
}

/// A fresh string with the same characters.
fn clone_string(s: &String) -> (r: String)
    ensures
        r@ == s@,
{
    s.clone()
}

proof fn lemma_acc_found(acc: Seq<(String, i64)>, at: int, id: Seq<char>)
    requires
        0 <= at < acc.len(),
        acc[at].0@ == id,
        forall|k: int, l: int| 0 <= k < l < acc.len() ==> (#[trigger] acc[k]).0@ != (
        #[trigger] acc[l]).0@,
    ensures
        spec_acc_value(acc, id) == acc[at].1 as int,
    decreases at,
{
    if at > 0 {
        assert(acc.first().0@ != id);
        lemma_acc_found(acc.drop_first(), at - 1, id);
        assert(acc.drop_first()[at - 1] == acc[at]);
    }
}

proof fn lemma_acc_absent(acc: Seq<(String, i64)>, id: Seq<char>)
    requires
        forall|k: int| 0 <= k < acc.len() ==> (#[trigger] acc[k]).0@ != id,
    ensures
        spec_acc_value(acc, id) == 0,
    decreases acc.len(),
{
    if acc.len() > 0 {
        lemma_acc_absent(acc.drop_first(), id);
    }
}

proof fn lemma_acc_update(olds: Seq<(String, i64)>, news: Seq<(String, i64)>, at: int, id: Seq<
    char,
>)
    requires
        0 <= at < olds.len(),
        news.len() == olds.len(),
        olds[at].0@ == id,
        news[at].0@ == id,
        forall|j: int| 0 <= j < olds.len() && j != at ==> #[trigger] news[j] == olds[j],
        forall|k: int, l: int| 0 <= k < l < olds.len() ==> (#[trigger] olds[k]).0@ != (
        #[trigger] olds[l]).0@,
    ensures
        spec_acc_value(news, id) == news[at].1 as int,
        forall|id2: Seq<char>|
            id2 != id ==> #[trigger] spec_acc_value(news, id2) == spec_acc_value(olds, id2),
    decreases olds.len(),
{
    if at == 0 {
        assert forall|id2: Seq<char>| id2 != id implies #[trigger] spec_acc_value(news, id2)
            == spec_acc_value(olds, id2) by {
            assert(news.drop_first() =~= olds.drop_first());
        }
    } else {
        lemma_acc_update(olds.drop_first(), news.drop_first(), at - 1, id);
        assert(news.first() == olds.first());
        assert(olds.first().0@ != id);
        assert(news[at] == news.drop_first()[at - 1]);
        assert forall|id2: Seq<char>| id2 != id implies #[trigger] spec_acc_value(news, id2)
            == spec_acc_value(olds, id2) by {
            if news.first().0@ == id2 {
            } else {
                assert(spec_acc_value(news, id2) == spec_acc_value(news.drop_first(), id2));
                assert(spec_acc_value(olds, id2) == spec_acc_value(olds.drop_first(), id2));
            }
        }
    }
}

proof fn lemma_acc_push(olds: Seq<(String, i64)>, pair: (String, i64), id: Seq<char>)
    requires
        pair.0@ == id,
        forall|k: int| 0 <= k < olds.len() ==> (#[trigger] olds[k]).0@ != id,
    ensures
        spec_acc_value(olds.push(pair), id) == pair.1 as int,
        forall|id2: Seq<char>|
            id2 != id ==> #[trigger] spec_acc_value(olds.push(pair), id2) == spec_acc_value(
                olds,
                id2,
            ),
    decreases olds.len(),
{
    let news = olds.push(pair);
    assert(news[olds.len() as int] == pair);
    if olds.len() == 0 {
        assert(news.first() == pair);
        assert(news.drop_first() =~= Seq::<(String, i64)>::empty());
        assert forall|id2: Seq<char>| id2 != id implies #[trigger] spec_acc_value(news, id2)
            == spec_acc_value(olds, id2) by {
            assert(spec_acc_value(news, id2) == spec_acc_value(news.drop_first(), id2));
        }
    } else {
        lemma_acc_push(olds.drop_first(), pair, id);
        assert(news.first() == olds.first());
        assert(news.drop_first() =~= olds.drop_first().push(pair));
        assert(olds.first().0@ != id);
        assert forall|id2: Seq<char>| id2 != id implies #[trigger] spec_acc_value(news, id2)
            == spec_acc_value(olds, id2) by {
            if news.first().0@ == id2 {
            } else {
                assert(spec_acc_value(news, id2) == spec_acc_value(news.drop_first(), id2));
                assert(spec_acc_value(olds, id2) == spec_acc_value(olds.drop_first(), id2));
            }
        }
    }
}

/// The total effective inventory a snapshot row reports for an item:
/// the aggregated history plus the item's static offsets, clamped at
/// zero.
pub open spec fn spec_market_neff(item: MarketItem, history_n: int, global_iota: int) -> int {
    let raw = history_n + item.n + item.iota + global_iota;
    if raw >= 0 {
        raw
    } else {
        0
    }
}

/// The snapshot row of one catalog item: sell and buy prices at the
/// given decay sample, and the effective inventory they price.
pub fn market_item_status(
    item: &MarketItem,
    history_n: i64,
    config: &AppConfig,
    env: i64,
    e: i64,
) -> (s: MarketItemStatus)
    requires
        config.wf(),
        0 < item.base_price <= PRICE_LIMIT,
        -PRICE_LIMIT <= item.n <= PRICE_LIMIT,
        -PRICE_LIMIT <= item.iota <= PRICE_LIMIT,
        -((MAX_SNAPSHOT_ENTRIES as i64) * AGGREGATE_STEP) <= history_n <= (
        MAX_SNAPSHOT_ENTRIES as i64) * AGGREGATE_STEP,
        0 < env <= 2 * ENV_LIMIT,
        0 <= e <= SCALE,
    ensures
        s.neff == spec_round_2(
            spec_market_neff(*item, history_n as int, config.global_iota as int),
        ),
        s.price == spec_round_2(
            (item.base_price as int) * (env as int) / (SCALE as int) * (e as int) / (SCALE as int),
        ),
        s.buy_price == spec_round_2(
            (item.base_price as int) * (env as int) / (SCALE as int) * (e as int) / (SCALE as int)
                * (config.buy_premium as int) / (SCALE as int),
        ),
        s.base_price == item.base_price,
{
    let raw_neff: i128 = (history_n as i128) + (item.n as i128) + (item.iota as i128) + (
    config.global_iota as i128);
    let neff: i64 = if raw_neff >= 0 {
        raw_neff as i64
    } else {
        0
    };
    proof {
        lemma_status_bounds(
            item.base_price as int,
            env as int,
            e as int,
            config.buy_premium as int,
        );
    }
    let p1: i128 = (item.base_price as i128) * (env as i128) / (SCALE as i128);
    let raw_price: i128 = p1 * (e as i128) / (SCALE as i128);
    let buy_price: i128 = raw_price * (config.buy_premium as i128) / (SCALE as i128);
    MarketItemStatus::new(raw_price as i64, buy_price as i64, neff, item.base_price)
}

/// The snapshot price chain stays nonnegative and within the rounding
/// helpers' range.
proof fn lemma_status_bounds(base: int, env: int, e: int, premium: int)
    requires
        0 < base <= PRICE_LIMIT,
        0 < env <= 2 * ENV_LIMIT,
        0 <= e <= SCALE,
        0 <= premium <= ENV_LIMIT,
    ensures
        0 <= base * env <= 2_000_000_000_000_000_000_000,
        0 <= base * env / (SCALE as int) <= 2_000_000_000_000_000,
        0 <= base * env / (SCALE as int) * e <= 2_000_000_000_000_000_000_000,
        0 <= base * env / (SCALE as int) * e / (SCALE as int) <= 2_000_000_000_000_000,
        0 <= base * env / (SCALE as int) * e / (SCALE as int) * premium
            <= 2_000_000_000_000_000_000_000_000,
        0 <= base * env / (SCALE as int) * e / (SCALE as int) * premium / (SCALE as int)
            <= MICRO_LIMIT as int,
{
    let s = SCALE as int;
    let capv = 2_000_000_000_000_000_000_000int;
    let q = 2_000_000_000_000_000int;
    assert(0 <= base * env <= capv) by (nonlinear_arith)
        requires
            0 < base <= PRICE_LIMIT,
            0 < env <= 2 * ENV_LIMIT,
            capv == 2_000_000_000_000_000_000_000int,
    ;
    vstd::arithmetic::div_mod::lemma_div_pos_is_pos(base * env, s);
    vstd::arithmetic::div_mod::lemma_div_is_ordered(base * env, capv, s);
    vstd::arithmetic::div_mod::lemma_div_multiples_vanish(q, s);
    let p1 = base * env / s;
    assert(0 <= p1 * e <= capv) by (nonlinear_arith)
        requires
            0 <= p1 <= q,
            0 <= e <= s,
            q * s == capv,
    ;
    vstd::arithmetic::div_mod::lemma_div_pos_is_pos(p1 * e, s);
    vstd::arithmetic::div_mod::lemma_div_is_ordered(p1 * e, capv, s);
    let p2 = p1 * e / s;
    assert(0 <= p2 * premium <= 2_000_000_000_000_000_000_000_000) by (nonlinear_arith)
        requires
            0 <= p2 <= q,
            0 <= premium <= ENV_LIMIT,
            q == 2_000_000_000_000_000int,
    ;
    vstd::arithmetic::div_mod::lemma_div_pos_is_pos(p2 * premium, s);
    vstd::arithmetic::div_mod::lemma_div_is_ordered(
        p2 * premium,
        2_000_000_000_000_000_000_000_000,
        s,
    );
    vstd::arithmetic::div_mod::lemma_div_multiples_vanish(2_000_000_000_000_000_000, s);
}

} // verus!
