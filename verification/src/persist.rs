//! Decisions of the batched-persistence pipeline: the background
//! appender's reaction to each event, and the backpressure handling for
//! records the channel would not take.
//!
//! The service's appender task owns the file and the timers; it feeds
//! every event through `writer_step` and performs the returned action
//! (writing a flushed batch out, or exiting). Records reach the rolling
//! ring and the batch buffer exactly as stated here: nothing is lost
//! silently, nothing is reordered.

use vstd::prelude::*;

use crate::models::TransactionRecord;
use crate::store::{HistoryRing, SystemMetrics, MAX_HISTORY_RING};

verus! {

/// Records the appender gathers before one write.
pub const BATCH_SIZE: usize = 50;

/// The appender's pending batch, oldest first.
#[derive(Debug)]
pub struct BatchBuffer {
    pub records: Vec<TransactionRecord>,
}

impl BatchBuffer {
    pub open spec fn wf(self) -> bool {
        self.records@.len() <= BATCH_SIZE
    }

    pub fn new() -> (b: Self)
        ensures
            b.wf(),
            b.records@.len() == 0,
    {
        BatchBuffer { records: Vec::new() }
    }
}

/// What can wake the appender.
#[derive(Debug)]
pub enum WriterEvent {
    /// A record arrived on the channel.
    Received(TransactionRecord),
    /// The periodic flush timer fired.
    TimerTick,
    /// The producer side closed: the service is draining.
    ChannelClosed,
}

/// What the appender must do next.
#[derive(Debug)]
pub enum WriterAction {
    /// Keep waiting.
    Idle,
    /// Write these records out, in order, and flush the file.
    Flush(Vec<TransactionRecord>),
    /// Write these records out, flush, and exit the loop.
    FlushAndStop(Vec<TransactionRecord>),
}

/// One turn of the appender loop: a received record lands in the ring
/// and the batch; a full batch, a timer tick over a non-empty batch, or
/// closure hands the whole batch out for writing, oldest first.
pub fn writer_step(batch: &mut BatchBuffer, ring: &mut HistoryRing, event: WriterEvent) -> (a:
    WriterAction)
    requires
        old(batch).wf(),
        old(ring).wf(),
    ensures
        final(batch).wf(),
        final(ring).wf(),
        match event {
            WriterEvent::Received(rec) => {
                &&& final(ring).items@.len() == if old(ring).items@.len() < MAX_HISTORY_RING {
                    old(ring).items@.len() + 1int
                } else {
                    MAX_HISTORY_RING as int
                }
                &&& final(ring).items@.last()@ == rec@
                &&& (old(ring).items@.len() < MAX_HISTORY_RING ==> forall|k: int|
                    0 <= k < old(ring).items@.len() ==> final(ring).items@[k] == old(
                        ring,
                    ).items@[k])
                &&& (old(ring).items@.len() >= MAX_HISTORY_RING ==> forall|k: int|
                    0 <= k < MAX_HISTORY_RING - 1 ==> final(ring).items@[k] == old(
                        ring,
                    ).items@[k + 1])
                &&& if old(batch).records@.len() + 1 >= BATCH_SIZE {
                    &&& (a matches WriterAction::Flush(out) && out@ == old(
                        batch,
                    ).records@.push(rec))
                    &&& final(batch).records@.len() == 0
                } else {
                    &&& a is Idle
                    &&& final(batch).records@ == old(batch).records@.push(rec)
                }
            },
            WriterEvent::TimerTick => {
                &&& *final(ring) == *old(ring)
                &&& if old(batch).records@.len() == 0 {
                    &&& a is Idle
                    &&& *final(batch) == *old(batch)
                } else {
                    &&& (a matches WriterAction::Flush(out) && out@ == old(batch).records@)
                    &&& final(batch).records@.len() == 0
                }
            },
            WriterEvent::ChannelClosed => {
                &&& *final(ring) == *old(ring)
                &&& (a matches WriterAction::FlushAndStop(out) && out@ == old(batch).records@)
                &&& final(batch).records@.len() == 0
            },
        },
{
    match event {
        WriterEvent::Received(rec) => {
            ring.push(rec.duplicate());
            batch.records.push(rec);
            if batch.records.len() >= BATCH_SIZE {
                let out = batch.records.split_off(0);
                proof {
                    assert(out@ =~= old(batch).records@.push(event->Received_0));
                    assert(batch.records@ =~= Seq::<TransactionRecord>::empty());
                }
                WriterAction::Flush(out)
            } else {
                WriterAction::Idle
            }
        },
        WriterEvent::TimerTick => {
            if batch.records.len() > 0 {
                let out = batch.records.split_off(0);
                proof {
                    assert(out@ =~= old(batch).records@);
                }
                WriterAction::Flush(out)
            } else {
                WriterAction::Idle
            }
        },
        WriterEvent::ChannelClosed => {
            let out = batch.records.split_off(0);
            proof {
                assert(out@ =~= old(batch).records@);
            }
            WriterAction::FlushAndStop(out)
        },
    }
}

/// Backpressure: a record the channel would not take is counted and
/// diverted to the bounded emergency ring — the drop is never silent.
pub fn record_send_failure(
    metrics: &mut SystemMetrics,
    emergency: &mut HistoryRing,
    rec: TransactionRecord,
)
    requires
        old(emergency).wf(),
    ensures
        final(emergency).wf(),
        final(metrics).channel_dropped == old(metrics).channel_dropped.wrapping_add(1),
        final(metrics).total_trades == old(metrics).total_trades,
        final(metrics).write_failures == old(metrics).write_failures,
        final(metrics).start_time == old(metrics).start_time,
        old(emergency).items@.len() < MAX_HISTORY_RING ==> final(emergency).items@ == old(
            emergency,
        ).items@.push(rec),
        old(emergency).items@.len() >= MAX_HISTORY_RING ==> final(emergency).items@ == old(
            emergency,
        ).items@.drop_first().push(rec),
{
    metrics.record_dropped();
    emergency.push(rec);
}

} // verus!
