//! The shared in-memory state the service mutates: per-player sales
//! histories (bounded per item), the rolling transaction ring, and the
//! metrics counters.
//!
//! The service clones snapshots out of this state under short lock
//! holds and computes outside them; the mutating entry points here are
//! exact about what changes and preserve the size bounds.

use vstd::prelude::*;

use crate::fixed::{MICRO_LIMIT, SCALE};
use crate::models::{
    ItemSales, PlayerSalesHistory, SalesRecord, TransactionRecord, MAX_SALES_PER_ITEM, PRICE_LIMIT,
};

use std::collections::VecDeque;

verus! {

/// Most records the rolling transaction ring holds; the oldest is
/// dropped beyond this.
pub const MAX_HISTORY_RING: usize = 1000;

impl ItemSales {
    /// The per-item sequence keeps at most `MAX_SALES_PER_ITEM` records,
    /// each with a bounded amount.
    pub open spec fn wf(self) -> bool {
        &&& self.records@.len() <= MAX_SALES_PER_ITEM
        &&& forall|k: int|
            0 <= k < self.records@.len() ==> -PRICE_LIMIT <= (
            #[trigger] self.records@[k]).amount <= PRICE_LIMIT
    }
}

impl PlayerSalesHistory {
    /// Item ids are unique and every item sequence is bounded.
    pub open spec fn wf(self) -> bool {
        &&& forall|i: int, j: int|
            0 <= i < j < self.item_sales@.len() ==> (#[trigger] self.item_sales@[i]).item_id@ != (
            #[trigger] self.item_sales@[j]).item_id@
        &&& forall|i: int| 0 <= i < self.item_sales@.len() ==> (#[trigger] self.item_sales@[i]).wf()
    }
}

/// All players' histories, keyed by player id.
#[derive(Debug)]
pub struct HistoryStore {
    pub players: Vec<PlayerSalesHistory>,
}

/// First match of `iid` among the item entries: its record sequence, or
/// empty for an unknown item.
pub open spec fn spec_item_records(items: Seq<ItemSales>, iid: Seq<char>) -> Seq<SalesRecord>
    decreases items.len(),
{
    if items.len() == 0 {
        Seq::empty()
    } else if items.first().item_id@ == iid {
        items.first().records@
    } else {
        spec_item_records(items.drop_first(), iid)
    }
}

/// The records the store holds for one player and item; empty when
/// either is unknown.
pub open spec fn spec_find_records(
    players: Seq<PlayerSalesHistory>,
    pid: Seq<char>,
    iid: Seq<char>,
) -> Seq<SalesRecord>
    decreases players.len(),
{
    if players.len() == 0 {
        Seq::empty()
    } else if players.first().player_id@ == pid {
        spec_item_records(players.first().item_sales@, iid)
    } else {
        spec_find_records(players.drop_first(), pid, iid)
    }
}

/// The display name the store holds for one player.
pub open spec fn spec_find_name(players: Seq<PlayerSalesHistory>, pid: Seq<char>) -> Option<
    Seq<char>,
>
    decreases players.len(),
{
    if players.len() == 0 {
        None
    } else if players.first().player_id@ == pid {
        Some(players.first().player_name@)
    } else {
        spec_find_name(players.drop_first(), pid)
    }
}

/// The sales-history entry a settled transaction adds: the signed
/// amount (sells positive, buys negative) and the unit price, capped at
/// the largest representable one.
pub open spec fn spec_sale_of_transaction(rec: TransactionRecord) -> SalesRecord {
    SalesRecord {
        timestamp: rec.timestamp,
        amount: if rec.action is Sell {
            rec.amount
        } else {
            (-rec.amount) as i64
        },
        env_index: rec.env_index,
        price: spec_sale_price(rec.total_price as int, rec.amount as int) as i64,
    }
}

/// Unit price stored with a history entry.
pub open spec fn spec_sale_price(total: int, amount: int) -> int {
    if amount > 0 {
        let u = total * (SCALE as int) / amount;
        if u <= MICRO_LIMIT {
            u
        } else {
            MICRO_LIMIT as int
        }
    } else {
        0
    }
}

/// A record sequence after appending one entry under the length bound:
/// the oldest record falls out when the sequence is full.
pub open spec fn spec_push_bounded(olds: Seq<SalesRecord>, entry: SalesRecord) -> Seq<
    SalesRecord,
> {
    if olds.len() < MAX_SALES_PER_ITEM {
        olds.push(entry)
    } else {
        olds.drop_first().push(entry)
    }
}

/// Bounds `apply_record` needs of the transaction it ingests.
pub open spec fn spec_record_in_range(rec: TransactionRecord) -> bool {
    &&& -PRICE_LIMIT <= rec.amount <= PRICE_LIMIT
    &&& 0 <= rec.total_price <= MICRO_LIMIT
}

impl HistoryStore {
    /// Player ids are unique and every player entry is well-formed.
    pub open spec fn wf(self) -> bool {
        &&& forall|i: int, j: int|
            0 <= i < j < self.players@.len() ==> (#[trigger] self.players@[i]).player_id@ != (
            #[trigger] self.players@[j]).player_id@
        &&& forall|i: int| 0 <= i < self.players@.len() ==> (#[trigger] self.players@[i]).wf()
    }

    pub fn new() -> (s: Self)
        ensures
            s.wf(),
            s.players@.len() == 0,
    {
        HistoryStore { players: Vec::new() }
    }

    /// Ingests one settled transaction: finds or creates the player,
    /// refreshes the player's name, appends the sale to that item's
    /// sequence, and drops the sequence's oldest entry past the bound.
    pub fn apply_record(&mut self, rec: &TransactionRecord)
        requires
            old(self).wf(),
            spec_record_in_range(*rec),
        ensures
            final(self).wf(),
            spec_find_records(final(self).players@, rec.player_id@, rec.item_id@)
                == spec_push_bounded(
                spec_find_records(old(self).players@, rec.player_id@, rec.item_id@),
                spec_sale_of_transaction(*rec),
            ),
            spec_find_name(final(self).players@, rec.player_id@) == Some(rec.player_name@),
            forall|pid2: Seq<char>, iid2: Seq<char>|
                pid2 != rec.player_id@ || iid2 != rec.item_id@ ==> #[trigger] spec_find_records(
                    final(self).players@,
                    pid2,
                    iid2,
                ) == spec_find_records(old(self).players@, pid2, iid2),
            forall|pid2: Seq<char>|
                pid2 != rec.player_id@ ==> #[trigger] spec_find_name(final(self).players@, pid2)
                    == spec_find_name(old(self).players@, pid2),
    {
        let ghost olds: Seq<PlayerSalesHistory> = self.players@;
        let idx = match self.find_player(&rec.player_id) {
            Some(i) => {
                proof {
                    lemma_players_found(self.players@, i as int, rec.player_id@);
                }
                i
            },
            None => {
                let entry = PlayerSalesHistory {
                    player_id: rec.player_id.clone(),
                    player_name: rec.player_name.clone(),
                    item_sales: Vec::new(),
                };
                proof {
                    lemma_players_absent(self.players@, rec.player_id@);
                    lemma_players_push(self.players@, entry);
                }
                let at = self.players.len();
                self.players.push(entry);
                proof {
                    assert forall|i: int, j: int| 0 <= i < j < self.players@.len() implies (
                    self.players@[i]).player_id@ != (self.players@[j]).player_id@ by {
                        if j == olds.len() {
                            assert(self.players@[j] == entry);
                            assert(self.players@[i] == olds[i]);
                        } else {
                            assert(self.players@[i] == olds[i]);
                            assert(self.players@[j] == olds[j]);
                        }
                    }
                    assert forall|iid: Seq<char>| #[trigger] spec_find_records(
                        self.players@,
                        rec.player_id@,
                        iid,
                    ) == Seq::<SalesRecord>::empty() by {
                        lemma_items_absent(entry.item_sales@, iid);
                    }
                }
                at
            },
        };
        let ghost mid: Seq<PlayerSalesHistory> = self.players@;
        proof {
            assert(forall|i: int, j: int|
                0 <= i < j < mid.len() ==> (#[trigger] mid[i]).player_id@ != (
                #[trigger] mid[j]).player_id@);
            assert(mid[idx as int].player_id@ == rec.player_id@);
            assert(spec_find_records(mid, rec.player_id@, rec.item_id@) == spec_item_records(
                mid[idx as int].item_sales@,
                rec.item_id@,
            ));
        }
        let mut entry = self.players.remove(idx);
        entry.player_name = rec.player_name.clone();
        apply_to_items(&mut entry.item_sales, rec);
        self.players.insert(idx, entry);
        proof {
            assert(self.players@ =~= mid.update(idx as int, self.players@[idx as int]));
            lemma_players_update(mid, self.players@, idx as int, rec.player_id@);
            // the freshly inserted entry is what the lookups now see
            assert(self.players@[idx as int].player_id@ == rec.player_id@);
            // chain the unchanged lookups through the intermediate state
            assert forall|pid2: Seq<char>, iid2: Seq<char>|
                pid2 != rec.player_id@ || iid2 != rec.item_id@ implies #[trigger] spec_find_records(
                self.players@,
                pid2,
                iid2,
            ) == spec_find_records(olds, pid2, iid2) by {
                if pid2 != rec.player_id@ {
                    assert(spec_find_records(self.players@, pid2, iid2) == spec_find_records(
                        mid,
                        pid2,
                        iid2,
                    ));
                } else {
                    assert(spec_find_records(self.players@, pid2, iid2) == spec_item_records(
                        self.players@[idx as int].item_sales@,
                        iid2,
                    ));
                }
            }
            assert forall|pid2: Seq<char>| pid2 != rec.player_id@ implies #[trigger] spec_find_name(
                self.players@,
                pid2,
            ) == spec_find_name(olds, pid2) by {
                assert(spec_find_name(self.players@, pid2) == spec_find_name(mid, pid2));
            }
        }
    }

    /// Index of the player with this id, if the store knows one.
    pub fn find_player(&self, pid: &String) -> (r: Option<usize>)
        requires
            self.wf(),
        ensures
            match r {
                Some(i) => 0 <= i < self.players@.len() && self.players@[i as int].player_id@
                    == pid@,
                None => forall|i: int|
                    0 <= i < self.players@.len() ==> (#[trigger] self.players@[i]).player_id@
                        != pid@,
            },
    {
        let n = self.players.len();
        let mut i: usize = 0;
        while i < n
            invariant
                0 <= i <= n,
                n == self.players@.len(),
                forall|j: int| 0 <= j < i ==> (#[trigger] self.players@[j]).player_id@ != pid@,
            decreases n - i,
        {
            if self.players[i].player_id == *pid {
                return Some(i);
            }
            i = i + 1;
        }
        None
    }

    /// A copy of the records the store holds for one player and item,
    /// the snapshot a request prices against.
    pub fn snapshot_records(&self, pid: &String, iid: &String) -> (r: Vec<SalesRecord>)
        requires
            self.wf(),
        ensures
            r@ == spec_find_records(self.players@, pid@, iid@),
            r@.len() <= MAX_SALES_PER_ITEM,
            forall|k: int| 0 <= k < r@.len() ==> -PRICE_LIMIT <= (#[trigger] r@[k]).amount
                <= PRICE_LIMIT,
    {
        match self.find_player(pid) {
            Some(i) => {
                proof {
                    lemma_players_found(self.players@, i as int, pid@);
                }
                let items = &self.players[i].item_sales;
                match find_item(items, iid) {
                    Some(j) => {
                        proof {
                            lemma_items_found(items@, j as int, iid@);
                        }
                        let mut out: Vec<SalesRecord> = Vec::new();
                        let m = items[j].records.len();
                        let mut k: usize = 0;
                        while k < m
                            invariant
                                0 <= k <= m,
                                0 <= j < items@.len(),
                                m == items@[j as int].records@.len(),
                                out@ == items@[j as int].records@.subrange(0, k as int),
                            decreases m - k,
                        {
                            out.push(items[j].records[k]);
                            proof {
                                assert(out@ =~= items@[j as int].records@.subrange(0, k + 1));
                            }
                            k = k + 1;
                        }
                        proof {
                            assert(items@[j as int].records@.subrange(0, m as int) =~= items@[
                                j as int].records@);
                        }
                        out
                    },
                    None => {
                        proof {
                            lemma_items_absent(items@, iid@);
                        }
                        Vec::new()
                    },
                }
            },
            None => {
                proof {
                    lemma_players_absent(self.players@, pid@);
                }
                Vec::new()
            },
        }
    }
}

/// Index of the item entry with this id.
fn find_item(items: &Vec<ItemSales>, iid: &String) -> (r: Option<usize>)
    ensures
        match r {
            Some(j) => 0 <= j < items@.len() && items@[j as int].item_id@ == iid@,
            None => forall|j: int|
                0 <= j < items@.len() ==> (#[trigger] items@[j]).item_id@ != iid@,
        },
{
    let n = items.len();
    let mut i: usize = 0;
    while i < n
        invariant
            0 <= i <= n,
            n == items@.len(),
            forall|j: int| 0 <= j < i ==> (#[trigger] items@[j]).item_id@ != iid@,
        decreases n - i,
    {
        if items[i].item_id == *iid {
            return Some(i);
        }
        i = i + 1;
    }
    None
}

/// Appends the transaction's sale to the right item entry of one
/// player, creating the entry if the item is new.
fn apply_to_items(items: &mut Vec<ItemSales>, rec: &TransactionRecord)
    requires
        forall|i: int, j: int|
            0 <= i < j < old(items)@.len() ==> (#[trigger] old(items)@[i]).item_id@ != (
            #[trigger] old(items)@[j]).item_id@,
        forall|i: int| 0 <= i < old(items)@.len() ==> (#[trigger] old(items)@[i]).wf(),
        spec_record_in_range(*rec),
    ensures
        forall|i: int, j: int|
            0 <= i < j < final(items)@.len() ==> (#[trigger] final(items)@[i]).item_id@ != (
            #[trigger] final(items)@[j]).item_id@,
        forall|i: int| 0 <= i < final(items)@.len() ==> (#[trigger] final(items)@[i]).wf(),
        spec_item_records(final(items)@, rec.item_id@) == spec_push_bounded(
            spec_item_records(old(items)@, rec.item_id@),
            spec_sale_of_transaction(*rec),
        ),
        forall|iid2: Seq<char>|
            iid2 != rec.item_id@ ==> #[trigger] spec_item_records(final(items)@, iid2)
                == spec_item_records(old(items)@, iid2),
{
    let ghost olds: Seq<ItemSales> = items@;
    let jdx = match find_item(items, &rec.item_id) {
        Some(j) => {
            proof {
                lemma_items_found(items@, j as int, rec.item_id@);
            }
            j
        },
        None => {
            let entry = ItemSales { item_id: rec.item_id.clone(), records: Vec::new() };
            proof {
                lemma_items_absent(items@, rec.item_id@);
                lemma_items_push(items@, entry);
            }
            let at = items.len();
            items.push(entry);
            proof {
                assert forall|i: int, j: int| 0 <= i < j < items@.len() implies (
                items@[i]).item_id@ != (items@[j]).item_id@ by {
                    if j == olds.len() {
                        assert(items@[j] == entry);
                        assert(items@[i] == olds[i]);
                    } else {
                        assert(items@[i] == olds[i]);
                        assert(items@[j] == olds[j]);
                    }
                }
                assert(items@[at as int] == entry);
                assert(entry.records@ =~= Seq::<SalesRecord>::empty());
            }
            at
        },
    };
    let ghost mid: Seq<ItemSales> = items@;
    proof {
        assert(forall|i: int, j: int|
            0 <= i < j < mid.len() ==> (#[trigger] mid[i]).item_id@ != (
            #[trigger] mid[j]).item_id@);
        assert(mid[jdx as int].item_id@ == rec.item_id@);
        assert(spec_item_records(mid, rec.item_id@) == mid[jdx as int].records@);
        assert(mid[jdx as int].records@ == spec_item_records(olds, rec.item_id@));
        assert(mid[jdx as int].wf());
    }
    let mut item = items.remove(jdx);
    let sale = sale_of_transaction(rec);
    item.records.push(sale);
    if item.records.len() > MAX_SALES_PER_ITEM {
        let ghost pushed: Seq<SalesRecord> = item.records@;
        item.records.remove(0);
        proof {
            assert(item.records@ =~= pushed.drop_first());
            assert(item.records@ =~= mid[jdx as int].records@.drop_first().push(sale));
        }
    }
    proof {
        assert(item.records@ == spec_push_bounded(
            spec_item_records(olds, rec.item_id@),
            spec_sale_of_transaction(*rec),
        ));
    }
    items.insert(jdx, item);
    proof {
        assert(items@ =~= mid.update(jdx as int, items@[jdx as int]));
        lemma_items_update(mid, items@, jdx as int, rec.item_id@);
        assert forall|iid2: Seq<char>| iid2 != rec.item_id@ implies #[trigger] spec_item_records(
            items@,
            iid2,
        ) == spec_item_records(olds, iid2) by {
            assert(spec_item_records(items@, iid2) == spec_item_records(mid, iid2));
        }
    }
}

/// The executable counterpart of `spec_sale_of_transaction`.
fn sale_of_transaction(rec: &TransactionRecord) -> (s: SalesRecord)
    requires
        spec_record_in_range(*rec),
    ensures
        s == spec_sale_of_transaction(*rec),
{
    let amount: i64 = match rec.action {
        crate::models::TradeAction::Sell => rec.amount,
        crate::models::TradeAction::Buy => -rec.amount,
    };
    let price: i64 = if rec.amount > 0 {
        let wide: i128 = (rec.total_price as i128) * (SCALE as i128) / (rec.amount as i128);
        proof {
            vstd::arithmetic::mul::lemma_mul_nonnegative(rec.total_price as int, SCALE as int);
            vstd::arithmetic::div_mod::lemma_div_pos_is_pos(
                (rec.total_price as int) * (SCALE as int),
                rec.amount as int,
            );
        }
        if wide <= (MICRO_LIMIT as i128) {
            wide as i64
        } else {
            MICRO_LIMIT
        }
    } else {
        0
    };
    SalesRecord { timestamp: rec.timestamp, amount, env_index: rec.env_index, price }
}

// ---------------------------------------------------------------------
// Lookup lemmas: how the recursive lookups react to finding, updating
// and appending entries.
// ---------------------------------------------------------------------

/// A prefix without the key plus a match at `at` pins the item lookup.
proof fn lemma_items_found(items: Seq<ItemSales>, at: int, iid: Seq<char>)
    requires
        0 <= at < items.len(),
        items[at].item_id@ == iid,
        forall|j: int| 0 <= j < at ==> (#[trigger] items[j]).item_id@ != iid,
    ensures
        spec_item_records(items, iid) == items[at].records@,
    decreases at,
{
    if at > 0 {
        lemma_items_found(items.drop_first(), at - 1, iid);
    }
}

/// No key match anywhere: the lookup is empty.
proof fn lemma_items_absent(items: Seq<ItemSales>, iid: Seq<char>)
    requires
        forall|j: int| 0 <= j < items.len() ==> (#[trigger] items[j]).item_id@ != iid,
    ensures
        spec_item_records(items, iid) == Seq::<SalesRecord>::empty(),
    decreases items.len(),
{
    if items.len() > 0 {
        lemma_items_absent(items.drop_first(), iid);
    }
}

/// Updating the unique entry holding a key rewrites that key's lookup
/// and no other.
proof fn lemma_items_update(olds: Seq<ItemSales>, news: Seq<ItemSales>, at: int, iid: Seq<char>)
    requires
        0 <= at < olds.len(),
        news.len() == olds.len(),
        olds[at].item_id@ == iid,
        news[at].item_id@ == iid,
        forall|j: int| 0 <= j < olds.len() && j != at ==> #[trigger] news[j] == olds[j],
        forall|i: int, j: int|
            0 <= i < j < olds.len() ==> (#[trigger] olds[i]).item_id@ != (
            #[trigger] olds[j]).item_id@,
    ensures
        spec_item_records(news, iid) == news[at].records@,
        forall|iid2: Seq<char>|
            iid2 != iid ==> #[trigger] spec_item_records(news, iid2) == spec_item_records(
                olds,
                iid2,
            ),
    decreases olds.len(),
{
    if at == 0 {
        assert forall|iid2: Seq<char>| iid2 != iid implies #[trigger] spec_item_records(news, iid2)
            == spec_item_records(olds, iid2) by {
            assert(news.drop_first() =~= olds.drop_first());
        }
    } else {
        lemma_items_update(olds.drop_first(), news.drop_first(), at - 1, iid);
        assert(news.first() == olds.first());
        assert(olds.first().item_id@ != iid);
        assert(news[at] == news.drop_first()[at - 1]);
        assert forall|iid2: Seq<char>| iid2 != iid implies #[trigger] spec_item_records(news, iid2)
            == spec_item_records(olds, iid2) by {
            if news.first().item_id@ == iid2 {
            } else {
                assert(spec_item_records(news, iid2) == spec_item_records(news.drop_first(), iid2));
                assert(spec_item_records(olds, iid2) == spec_item_records(olds.drop_first(), iid2));
            }
        }
    }
}

/// Appending an entry under a fresh key answers for that key and leaves
/// the rest alone.
proof fn lemma_items_push(olds: Seq<ItemSales>, entry: ItemSales)
    requires
        forall|j: int| 0 <= j < olds.len() ==> (#[trigger] olds[j]).item_id@ != entry.item_id@,
    ensures
        spec_item_records(olds.push(entry), entry.item_id@) == entry.records@,
        forall|iid2: Seq<char>|
            iid2 != entry.item_id@ ==> #[trigger] spec_item_records(olds.push(entry), iid2)
                == spec_item_records(olds, iid2),
    decreases olds.len(),
{
    let news = olds.push(entry);
    assert(news[olds.len() as int] == entry);
    if olds.len() == 0 {
        assert(news.first() == entry);
        assert(news.drop_first() =~= Seq::<ItemSales>::empty());
        assert forall|iid2: Seq<char>| iid2 != entry.item_id@ implies #[trigger] spec_item_records(
            news,
            iid2,
        ) == spec_item_records(olds, iid2) by {
            assert(spec_item_records(news, iid2) == spec_item_records(news.drop_first(), iid2));
        }
    } else {
        lemma_items_push(olds.drop_first(), entry);
        assert(news.first() == olds.first());
        assert(news.drop_first() =~= olds.drop_first().push(entry));
        assert forall|iid2: Seq<char>| iid2 != entry.item_id@ implies #[trigger] spec_item_records(
            news,
            iid2,
        ) == spec_item_records(olds, iid2) by {
            if news.first().item_id@ == iid2 {
            } else {
                assert(spec_item_records(news, iid2) == spec_item_records(news.drop_first(), iid2));
                assert(spec_item_records(olds, iid2) == spec_item_records(olds.drop_first(), iid2));
            }
        }
    }
}

/// A prefix without the key plus a match at `at` pins the player lookup.
proof fn lemma_players_found(players: Seq<PlayerSalesHistory>, at: int, pid: Seq<char>)
    requires
        0 <= at < players.len(),
        players[at].player_id@ == pid,
        forall|j: int| 0 <= j < at ==> (#[trigger] players[j]).player_id@ != pid,
    ensures
        forall|iid: Seq<char>|
            #[trigger] spec_find_records(players, pid, iid) == spec_item_records(
                players[at].item_sales@,
                iid,
            ),
        spec_find_name(players, pid) == Some(players[at].player_name@),
    decreases at,
{
    if at > 0 {
        lemma_players_found(players.drop_first(), at - 1, pid);
        assert(players.first().player_id@ != pid);
        assert(players.drop_first()[at - 1] == players[at]);
        assert forall|iid: Seq<char>| #[trigger] spec_find_records(players, pid, iid)
            == spec_item_records(players[at].item_sales@, iid) by {
            assert(spec_find_records(players, pid, iid) == spec_find_records(
                players.drop_first(),
                pid,
                iid,
            ));
        }
    } else {
        assert(players.first() == players[0]);
        assert forall|iid: Seq<char>| #[trigger] spec_find_records(players, pid, iid)
            == spec_item_records(players[at].item_sales@, iid) by {
            assert(spec_find_records(players, pid, iid) == spec_item_records(
                players.first().item_sales@,
                iid,
            ));
        }
    }
}

/// No player under this id: every lookup for it is empty.
proof fn lemma_players_absent(players: Seq<PlayerSalesHistory>, pid: Seq<char>)
    requires
        forall|j: int| 0 <= j < players.len() ==> (#[trigger] players[j]).player_id@ != pid,
    ensures
        forall|iid: Seq<char>|
            #[trigger] spec_find_records(players, pid, iid) == Seq::<SalesRecord>::empty(),
        spec_find_name(players, pid) is None,
    decreases players.len(),
{
    if players.len() > 0 {
        lemma_players_absent(players.drop_first(), pid);
        assert(players.first() == players[0]);
        assert(players.first().player_id@ != pid);
        assert forall|iid: Seq<char>| #[trigger] spec_find_records(players, pid, iid) == Seq::<
            SalesRecord,
        >::empty() by {
            assert(spec_find_records(players, pid, iid) == spec_find_records(
                players.drop_first(),
                pid,
                iid,
            ));
        }
    } else {
        assert forall|iid: Seq<char>| #[trigger] spec_find_records(players, pid, iid) == Seq::<
            SalesRecord,
        >::empty() by {
            assert(players.len() == 0);
        }
    }
}

/// Updating the unique player entry holding an id rewrites that id's
/// lookups and no other's.
proof fn lemma_players_update(
    olds: Seq<PlayerSalesHistory>,
    news: Seq<PlayerSalesHistory>,
    at: int,
    pid: Seq<char>,
)
    requires
        0 <= at < olds.len(),
        news.len() == olds.len(),
        olds[at].player_id@ == pid,
        news[at].player_id@ == pid,
        forall|j: int| 0 <= j < olds.len() && j != at ==> #[trigger] news[j] == olds[j],
        forall|i: int, j: int|
            0 <= i < j < olds.len() ==> (#[trigger] olds[i]).player_id@ != (
            #[trigger] olds[j]).player_id@,
    ensures
        forall|iid: Seq<char>|
            #[trigger] spec_find_records(news, pid, iid) == spec_item_records(
                news[at].item_sales@,
                iid,
            ),
        spec_find_name(news, pid) == Some(news[at].player_name@),
        forall|pid2: Seq<char>, iid2: Seq<char>|
            pid2 != pid ==> #[trigger] spec_find_records(news, pid2, iid2) == spec_find_records(
                olds,
                pid2,
                iid2,
            ),
        forall|pid2: Seq<char>|
            pid2 != pid ==> #[trigger] spec_find_name(news, pid2) == spec_find_name(olds, pid2),
    decreases olds.len(),
{
    if at == 0 {
        assert(news.first() == news[0]);
        assert forall|iid: Seq<char>| #[trigger] spec_find_records(news, pid, iid)
            == spec_item_records(news[at].item_sales@, iid) by {
            assert(spec_find_records(news, pid, iid) == spec_item_records(
                news.first().item_sales@,
                iid,
            ));
        }
        assert forall|pid2: Seq<char>, iid2: Seq<char>| pid2 != pid implies
            #[trigger] spec_find_records(news, pid2, iid2) == spec_find_records(
            olds,
            pid2,
            iid2,
        ) by {
            assert(news.drop_first() =~= olds.drop_first());
        }
        assert forall|pid2: Seq<char>| pid2 != pid implies #[trigger] spec_find_name(news, pid2)
            == spec_find_name(olds, pid2) by {
            assert(news.drop_first() =~= olds.drop_first());
        }
    } else {
        lemma_players_update(olds.drop_first(), news.drop_first(), at - 1, pid);
        assert(news.first() == olds.first());
        assert(olds.first().player_id@ != pid);
        assert(news[at] == news.drop_first()[at - 1]);
        assert forall|iid: Seq<char>| #[trigger] spec_find_records(news, pid, iid)
            == spec_item_records(news[at].item_sales@, iid) by {
            assert(spec_find_records(news, pid, iid) == spec_find_records(
                news.drop_first(),
                pid,
                iid,
            ));
        }
        assert(spec_find_name(news, pid) == spec_find_name(news.drop_first(), pid));
        assert forall|pid2: Seq<char>, iid2: Seq<char>| pid2 != pid implies
            #[trigger] spec_find_records(news, pid2, iid2) == spec_find_records(
            olds,
            pid2,
            iid2,
        ) by {
            if news.first().player_id@ == pid2 {
            } else {
                assert(spec_find_records(news, pid2, iid2) == spec_find_records(
                    news.drop_first(),
                    pid2,
                    iid2,
                ));
                assert(spec_find_records(olds, pid2, iid2) == spec_find_records(
                    olds.drop_first(),
                    pid2,
                    iid2,
                ));
            }
        }
        assert forall|pid2: Seq<char>| pid2 != pid implies #[trigger] spec_find_name(news, pid2)
            == spec_find_name(olds, pid2) by {
            if news.first().player_id@ == pid2 {
            } else {
                assert(spec_find_name(news, pid2) == spec_find_name(news.drop_first(), pid2));
                assert(spec_find_name(olds, pid2) == spec_find_name(olds.drop_first(), pid2));
            }
        }
    }
}

/// Appending a player entry under a fresh id answers for that id and
/// leaves the rest alone.
proof fn lemma_players_push(olds: Seq<PlayerSalesHistory>, entry: PlayerSalesHistory)
    requires
        forall|j: int|
            0 <= j < olds.len() ==> (#[trigger] olds[j]).player_id@ != entry.player_id@,
    ensures
        forall|iid: Seq<char>|
            #[trigger] spec_find_records(olds.push(entry), entry.player_id@, iid)
                == spec_item_records(entry.item_sales@, iid),
        spec_find_name(olds.push(entry), entry.player_id@) == Some(entry.player_name@),
        forall|pid2: Seq<char>, iid2: Seq<char>|
            pid2 != entry.player_id@ ==> #[trigger] spec_find_records(
                olds.push(entry),
                pid2,
                iid2,
            ) == spec_find_records(olds, pid2, iid2),
        forall|pid2: Seq<char>|
            pid2 != entry.player_id@ ==> #[trigger] spec_find_name(olds.push(entry), pid2)
                == spec_find_name(olds, pid2),
    decreases olds.len(),
{
    let news = olds.push(entry);
    assert(news[olds.len() as int] == entry);
    if olds.len() == 0 {
        assert(news.first() == entry);
        assert(news.drop_first() =~= Seq::<PlayerSalesHistory>::empty());
        assert forall|iid: Seq<char>| #[trigger] spec_find_records(news, entry.player_id@, iid)
            == spec_item_records(entry.item_sales@, iid) by {
            assert(spec_find_records(news, entry.player_id@, iid) == spec_item_records(
                news.first().item_sales@,
                iid,
            ));
        }
        assert forall|pid2: Seq<char>, iid2: Seq<char>| pid2 != entry.player_id@ implies
            #[trigger] spec_find_records(news, pid2, iid2) == spec_find_records(
            olds,
            pid2,
            iid2,
        ) by {
            assert(spec_find_records(news, pid2, iid2) == spec_find_records(
                news.drop_first(),
                pid2,
                iid2,
            ));
        }
        assert forall|pid2: Seq<char>| pid2 != entry.player_id@ implies #[trigger] spec_find_name(
            news,
            pid2,
        ) == spec_find_name(olds, pid2) by {
            assert(spec_find_name(news, pid2) == spec_find_name(news.drop_first(), pid2));
        }
    } else {
        lemma_players_push(olds.drop_first(), entry);
        assert(news.first() == olds.first());
        assert(news.drop_first() =~= olds.drop_first().push(entry));
        assert(olds.first().player_id@ != entry.player_id@);
        assert forall|iid: Seq<char>| #[trigger] spec_find_records(news, entry.player_id@, iid)
            == spec_item_records(entry.item_sales@, iid) by {
            assert(spec_find_records(news, entry.player_id@, iid) == spec_find_records(
                news.drop_first(),
                entry.player_id@,
                iid,
            ));
        }
        assert(spec_find_name(news, entry.player_id@) == spec_find_name(
            news.drop_first(),
            entry.player_id@,
        ));
        assert forall|pid2: Seq<char>, iid2: Seq<char>| pid2 != entry.player_id@ implies
            #[trigger] spec_find_records(news, pid2, iid2) == spec_find_records(
            olds,
            pid2,
            iid2,
        ) by {
            if news.first().player_id@ == pid2 {
            } else {
                assert(spec_find_records(news, pid2, iid2) == spec_find_records(
                    news.drop_first(),
                    pid2,
                    iid2,
                ));
                assert(spec_find_records(olds, pid2, iid2) == spec_find_records(
                    olds.drop_first(),
                    pid2,
                    iid2,
                ));
            }
        }
        assert forall|pid2: Seq<char>| pid2 != entry.player_id@ implies #[trigger] spec_find_name(
            news,
            pid2,
        ) == spec_find_name(olds, pid2) by {
            if news.first().player_id@ == pid2 {
            } else {
                assert(spec_find_name(news, pid2) == spec_find_name(news.drop_first(), pid2));
                assert(spec_find_name(olds, pid2) == spec_find_name(olds.drop_first(), pid2));
            }
        }
    }
}

// ---------------------------------------------------------------------
// The rolling transaction ring and the metrics counters.
// ---------------------------------------------------------------------

/// Bounded ring of recent transactions: drop-oldest past the cap.
#[derive(Debug)]
pub struct HistoryRing {
    pub items: VecDeque<TransactionRecord>,
}

impl HistoryRing {
    pub open spec fn wf(self) -> bool {
        self.items@.len() <= MAX_HISTORY_RING
    }

    pub fn new() -> (r: Self)
        ensures
            r.wf(),
            r.items@.len() == 0,
    {
        HistoryRing { items: VecDeque::new() }
    }

    pub fn len(&self) -> (n: usize)
        ensures
            n == self.items@.len(),
    {
        self.items.len()
    }

    /// Appends a record; when the ring is full the oldest one leaves.
    pub fn push(&mut self, rec: TransactionRecord)
        requires
            old(self).wf(),
        ensures
            final(self).wf(),
            old(self).items@.len() < MAX_HISTORY_RING ==> final(self).items@ == old(
                self,
            ).items@.push(rec),
            old(self).items@.len() >= MAX_HISTORY_RING ==> final(self).items@ == old(
                self,
            ).items@.drop_first().push(rec),
    {
        self.items.push_back(rec);
        if self.items.len() > MAX_HISTORY_RING {
            let ghost pushed: Seq<TransactionRecord> = self.items@;
            self.items.pop_front();
            proof {
                assert(self.items@ =~= pushed.drop_first());
                assert(self.items@ =~= old(self).items@.drop_first().push(rec));
            }
        }
    }
}

/// The service's counters. The surrounding service holds them behind
/// its own synchronization; each bump here is exact, wrapping at the
/// numeric bound the way a relaxed atomic counter does.
#[derive(Debug)]
pub struct SystemMetrics {
    pub total_trades: u64,
    pub write_failures: u64,
    pub channel_dropped: u64,
    pub start_time: i64,
}

impl SystemMetrics {
    pub fn new(start_time: i64) -> (m: Self)
        ensures
            m.total_trades == 0,
            m.write_failures == 0,
            m.channel_dropped == 0,
            m.start_time == start_time,
    {
        SystemMetrics { total_trades: 0, write_failures: 0, channel_dropped: 0, start_time }
    }

    pub fn record_trade(&mut self)
        ensures
            final(self).total_trades == old(self).total_trades.wrapping_add(1),
            final(self).write_failures == old(self).write_failures,
            final(self).channel_dropped == old(self).channel_dropped,
            final(self).start_time == old(self).start_time,
    {
        self.total_trades = self.total_trades.wrapping_add(1);
    }

    pub fn record_write_failure(&mut self)
        ensures
            final(self).write_failures == old(self).write_failures.wrapping_add(1),
            final(self).total_trades == old(self).total_trades,
            final(self).channel_dropped == old(self).channel_dropped,
            final(self).start_time == old(self).start_time,
    {
        self.write_failures = self.write_failures.wrapping_add(1);
    }

    pub fn record_dropped(&mut self)
        ensures
            final(self).channel_dropped == old(self).channel_dropped.wrapping_add(1),
            final(self).total_trades == old(self).total_trades,
            final(self).write_failures == old(self).write_failures,
            final(self).start_time == old(self).start_time,
    {
        self.channel_dropped = self.channel_dropped.wrapping_add(1);
    }

    /// Seconds since the service started.
    pub fn uptime(&self, now: i64) -> (r: i64)
        requires
            self.start_time <= now,
            now - self.start_time <= i64::MAX,
        ensures
            r == now - self.start_time,
    {
        now - self.start_time
    }
}

} // verus!
