//! Shared-state scenarios: history truncation, the rolling ring, the
//! writer state machine, backpressure, catalog sync and aggregation.

use economy_core::fixed::SCALE;
use economy_core::market::{calculate_global_neff, market_item_status, merge_catalog, ItemSnapshot};
use economy_core::models::{AppConfig, MarketItem, SalesRecord, TradeAction, TransactionRecord};
use economy_core::persist::{record_send_failure, writer_step, BatchBuffer, WriterAction, WriterEvent, BATCH_SIZE};
use economy_core::store::{HistoryRing, HistoryStore, SystemMetrics, MAX_HISTORY_RING};

fn units(x: f64) -> i64 {
    (x * 1e6).round() as i64
}

fn record(player: &str, item: &str, amount: f64, total: f64, ts: i64) -> TransactionRecord {
    TransactionRecord::new(
        ts,
        units(amount),
        units(total),
        0,
        SCALE,
        TradeAction::Sell,
        player.to_string(),
        "Steve".to_string(),
        item.to_string(),
    )
}

#[test]
fn per_item_history_never_exceeds_one_hundred() {
    let mut store = HistoryStore::new();
    for k in 0..105 {
        store.apply_record(&record("p1", "stone", 1.0, 10.0, k));
    }
    let records = store.snapshot_records(&"p1".to_string(), &"stone".to_string());
    assert_eq!(records.len(), 100);
    // drop-oldest: the first five fell out
    assert_eq!(records[0].timestamp, 5);
    assert_eq!(records[99].timestamp, 104);
}

#[test]
fn apply_record_converts_action_sign_and_price() {
    let mut store = HistoryStore::new();
    let mut buy = record("p1", "stone", 4.0, 100.0, 7);
    buy.action = TradeAction::Buy;
    store.apply_record(&buy);
    let records = store.snapshot_records(&"p1".to_string(), &"stone".to_string());
    assert_eq!(records.len(), 1);
    assert_eq!(records[0].amount, -units(4.0));
    // unit price 100 / 4 = 25
    assert_eq!(records[0].price, units(25.0));
}

#[test]
fn apply_record_keeps_other_players_and_items() {
    let mut store = HistoryStore::new();
    store.apply_record(&record("p1", "stone", 1.0, 10.0, 1));
    store.apply_record(&record("p2", "dirt", 2.0, 20.0, 2));
    store.apply_record(&record("p1", "dirt", 3.0, 30.0, 3));
    assert_eq!(store.snapshot_records(&"p1".to_string(), &"stone".to_string()).len(), 1);
    assert_eq!(store.snapshot_records(&"p1".to_string(), &"dirt".to_string()).len(), 1);
    assert_eq!(store.snapshot_records(&"p2".to_string(), &"dirt".to_string()).len(), 1);
    assert_eq!(store.snapshot_records(&"p2".to_string(), &"stone".to_string()).len(), 0);
}

#[test]
fn ring_caps_at_one_thousand_dropping_oldest() {
    let mut ring = HistoryRing::new();
    for k in 0..(MAX_HISTORY_RING as i64 + 1) {
        ring.push(record("p", "i", 1.0, 1.0, k));
    }
    assert_eq!(ring.len(), MAX_HISTORY_RING);
    assert_eq!(ring.items[0].timestamp, 1);
}

#[test]
fn writer_flushes_full_batches_in_order() {
    let mut batch = BatchBuffer::new();
    let mut ring = HistoryRing::new();
    for k in 0..(BATCH_SIZE as i64 - 1) {
        let a = writer_step(&mut batch, &mut ring, WriterEvent::Received(record("p", "i", 1.0, 1.0, k)));
        assert!(matches!(a, WriterAction::Idle));
    }
    let a = writer_step(
        &mut batch,
        &mut ring,
        WriterEvent::Received(record("p", "i", 1.0, 1.0, BATCH_SIZE as i64 - 1)),
    );
    match a {
        WriterAction::Flush(out) => {
            assert_eq!(out.len(), BATCH_SIZE);
            for (k, r) in out.iter().enumerate() {
                assert_eq!(r.timestamp, k as i64);
            }
        },
        _ => panic!("expected a flush"),
    }
    assert_eq!(ring.len(), BATCH_SIZE);
}

#[test]
fn writer_timer_flushes_partial_batch_only_when_nonempty() {
    let mut batch = BatchBuffer::new();
    let mut ring = HistoryRing::new();
    let a = writer_step(&mut batch, &mut ring, WriterEvent::TimerTick);
    assert!(matches!(a, WriterAction::Idle));
    writer_step(&mut batch, &mut ring, WriterEvent::Received(record("p", "i", 1.0, 1.0, 42)));
    let a2 = writer_step(&mut batch, &mut ring, WriterEvent::TimerTick);
    match a2 {
        WriterAction::Flush(out) => {
            assert_eq!(out.len(), 1);
            assert_eq!(out[0].timestamp, 42);
        },
        _ => panic!("expected a flush"),
    }
}

#[test]
fn writer_drains_on_close() {
    let mut batch = BatchBuffer::new();
    let mut ring = HistoryRing::new();
    writer_step(&mut batch, &mut ring, WriterEvent::Received(record("p", "i", 1.0, 1.0, 1)));
    writer_step(&mut batch, &mut ring, WriterEvent::Received(record("p", "i", 1.0, 1.0, 2)));
    let a = writer_step(&mut batch, &mut ring, WriterEvent::ChannelClosed);
    match a {
        WriterAction::FlushAndStop(out) => assert_eq!(out.len(), 2),
        _ => panic!("expected the draining flush"),
    }
    assert_eq!(batch.records.len(), 0);
}

#[test]
fn backpressure_counts_and_diverts_each_drop() {
    // a capacity-2 channel under a stalled appender: the first two
    // trades enqueue, the next three each count and land in the
    // emergency ring
    let mut metrics = SystemMetrics::new(0);
    let mut emergency = HistoryRing::new();
    let capacity = 2;
    let mut queued = 0;
    for k in 0..5 {
        metrics.record_trade();
        let rec = record("p", "i", 1.0, 1.0, k);
        if queued < capacity {
            queued += 1;
        } else {
            record_send_failure(&mut metrics, &mut emergency, rec);
        }
    }
    assert_eq!(metrics.total_trades, 5);
    assert_eq!(metrics.channel_dropped, 3);
    assert_eq!(emergency.len(), 3);
    assert_eq!(emergency.items[0].timestamp, 2);
}

#[test]
fn metrics_uptime_counts_from_start() {
    let m = SystemMetrics::new(1_000);
    assert_eq!(m.uptime(4_600), 3_600);
}

#[test]
fn market_sync_preserves_n_and_iota_by_id() {
    let old_items = vec![
        MarketItem {
            id: "stone".to_string(),
            name: "Stone".to_string(),
            base_price: units(10.0),
            lambda: units(0.1),
            n: units(42.0),
            iota: units(7.0),
        },
    ];
    let new_items = vec![
        MarketItem {
            id: "stone".to_string(),
            name: "Smooth Stone".to_string(),
            base_price: units(12.0),
            lambda: units(0.2),
            n: 0,
            iota: 0,
        },
        MarketItem {
            id: "dirt".to_string(),
            name: "Dirt".to_string(),
            base_price: units(1.0),
            lambda: units(0.05),
            n: units(3.0),
            iota: units(1.0),
        },
    ];
    let merged = merge_catalog(&old_items, new_items);
    assert_eq!(merged.len(), 2);
    assert_eq!(merged[0].id, "stone");
    assert_eq!(merged[0].name, "Smooth Stone");
    assert_eq!(merged[0].base_price, units(12.0));
    assert_eq!(merged[0].n, units(42.0));
    assert_eq!(merged[0].iota, units(7.0));
    assert_eq!(merged[1].id, "dirt");
    assert_eq!(merged[1].n, units(3.0));
    assert_eq!(merged[1].iota, units(1.0));
}

#[test]
fn global_aggregation_sums_rows_per_item() {
    let row = |id: &str, amount: f64, decay: i64| ItemSnapshot {
        item_id: id.to_string(),
        records: vec![SalesRecord { timestamp: 0, amount: units(amount), env_index: SCALE, price: 0 }],
        decays: vec![decay],
    };
    let entries = vec![row("stone", 10.0, SCALE), row("dirt", 4.0, 500_000), row("stone", 6.0, 500_000)];
    let acc = calculate_global_neff(&entries);
    let mut stone = None;
    let mut dirt = None;
    for (id, v) in acc.iter() {
        if id == "stone" {
            stone = Some(*v);
        }
        if id == "dirt" {
            dirt = Some(*v);
        }
    }
    assert_eq!(stone, Some(units(13.0)));
    assert_eq!(dirt, Some(units(2.0)));
}

#[test]
fn market_status_prices_at_the_sample() {
    let config = AppConfig::default();
    let item = MarketItem {
        id: "stone".to_string(),
        name: "Stone".to_string(),
        base_price: units(100.0),
        lambda: units(0.1),
        n: units(2.0),
        iota: units(1.0),
    };
    // history contributes 1.0; total n_eff = 1 + 2 + 1 + 0 = 4
    let history_n = units(1.0);
    let e = ((-0.4f64).exp() * 1e6).round() as i64;
    let s = market_item_status(&item, history_n, &config, SCALE, e);
    assert_eq!(s.neff, units(4.0));
    // 100 * e^-0.4 = 67.03
    assert_eq!(s.price, units(67.03));
    // buy price with the 1.25 premium: 83.79
    assert_eq!(s.buy_price, units(83.79));
    assert_eq!(s.base_price, units(100.0));
}
