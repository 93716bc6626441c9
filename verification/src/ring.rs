//! The polling ring: bound read items and the per-tick state machine.
//!
//! A ring owns an ordered list of [`Item`]s, each binding one open file, one
//! fixed buffer capacity and one processor. Each tick the ring is asked to
//! prepare: it gates every item and plans one tagged read for each item that
//! wants one. The platform layer submits the planned reads to its completion
//! queue and hands each completion back to [`Ring::dispatch`], which resolves
//! the tag to its item and lets the item digest the bytes. The ring's
//! accounting guarantees that a tick is over exactly when as many
//! completions were dispatched as operations were submitted.
//!
//! The kernel queue itself, the open files and the buffers live in the
//! platform layer; the ring works on plain values and is the portable
//! contract: gate, batch, submit, drain, demultiplex by tag.

use vstd::prelude::*;

use crate::clock::Instant;
use crate::fixed::Fixed;
use crate::meminfo::MemInfo;
use crate::power::Status;
use crate::read::{BufProcessor, Simple, PSI};
use crate::source::{Gated, LowerRate, MovingAverage, Source, Updateable, WantsProcessing};

verus! {

/// The content of a value cell, as served to the rendering layer.
#[derive(Copy, Clone, PartialEq, Debug)]
pub enum CellValue {
    /// A numeric reading.
    Num(Fixed),
    /// A power-supply charging status.
    Stat(Status),
    /// The memory-information table.
    Mem(MemInfo),
}

/// The processors a read item can be bound to: one tagged union instead of
/// dynamic dispatch, so that every cell keeps its exact meaning.
pub enum Processor {
    /// A rate-limited numeric reading.
    Rate(Simple<LowerRate<Fixed>>),
    /// A rate-limited charging status.
    Stat(Simple<LowerRate<Status>>),
    /// A numeric reading averaged over time, polled only while an outside
    /// condition holds.
    GatedAvg(Simple<Gated<MovingAverage>>),
    /// The ten-minute pressure-stall average, rate limited.
    Pressure(PSI<LowerRate<Fixed>>),
    /// The memory-information table.
    Mem(MemInfo),
}

impl Processor {
    /// Well-formedness of the wrapped processor.
    pub open spec fn spec_wf(self) -> bool {
        match self {
            Processor::Rate(p) => p.spec_wf(),
            Processor::Stat(p) => p.spec_wf(),
            Processor::GatedAvg(p) => p.spec_wf(),
            Processor::Pressure(p) => p.spec_wf(),
            Processor::Mem(p) => p.spec_wf(),
        }
    }

    /// What the want gate answers, for specifications.
    pub open spec fn spec_wants(self, before: Instant) -> bool {
        match self {
            Processor::Rate(p) => p.spec_wants(before),
            Processor::Stat(p) => p.spec_wants(before),
            Processor::GatedAvg(p) => p.spec_wants(before),
            Processor::Pressure(p) => p.spec_wants(before),
            Processor::Mem(p) => p.spec_wants(before),
        }
    }

    /// Whether a fresh reading is wanted before the instant `before`.
    pub fn wants_processing(&self, before: Instant) -> (r: bool)
        ensures
            r == self.spec_wants(before),
    {
        match self {
            Processor::Rate(p) => p.wants_processing(before),
            Processor::Stat(p) => p.wants_processing(before),
            Processor::GatedAvg(p) => p.wants_processing(before),
            Processor::Pressure(p) => p.wants_processing(before),
            Processor::Mem(p) => p.wants_processing(before),
        }
    }

    /// The processor state after digesting `buf` at `now`, for
    /// specifications.
    pub open spec fn spec_processed(self, buf: Seq<u8>, now: Instant) -> Processor {
        match self {
            Processor::Rate(p) => Processor::Rate(p.spec_processed(buf, now)),
            Processor::Stat(p) => Processor::Stat(p.spec_processed(buf, now)),
            Processor::GatedAvg(p) => Processor::GatedAvg(p.spec_processed(buf, now)),
            Processor::Pressure(p) => Processor::Pressure(p.spec_processed(buf, now)),
            Processor::Mem(p) => Processor::Mem(p.spec_processed(buf, now)),
        }
    }

    /// Digest the bytes of one completed read, observed at `now`.
    pub fn process(&mut self, buf: &[u8], now: Instant)
        requires
            old(self).spec_wf(),
        ensures
            *final(self) == (*old(self)).spec_processed(buf@, now),
            final(self).spec_wf(),
    {
        match self {
            Processor::Rate(p) => p.process(buf, now),
            Processor::Stat(p) => p.process(buf, now),
            Processor::GatedAvg(p) => p.process(buf, now),
            Processor::Pressure(p) => p.process(buf, now),
            Processor::Mem(p) => p.process(buf, now),
        }
    }

    /// The served cell content, for specifications.
    pub open spec fn spec_value(self) -> Option<CellValue> {
        match self {
            Processor::Rate(p) => match p.spec_value() {
                Some(v) => Some(CellValue::Num(v)),
                None => None,
            },
            Processor::Stat(p) => match p.spec_value() {
                Some(v) => Some(CellValue::Stat(v)),
                None => None,
            },
            Processor::GatedAvg(p) => match p.spec_value() {
                Some(v) => Some(CellValue::Num(v)),
                None => None,
            },
            Processor::Pressure(p) => match p.spec_value() {
                Some(v) => Some(CellValue::Num(v)),
                None => None,
            },
            Processor::Mem(p) => match p.spec_value() {
                Some(v) => Some(CellValue::Mem(v)),
                None => None,
            },
        }
    }

    /// The served cell content.
    pub fn value(&self) -> (r: Option<CellValue>)
        ensures
            r == self.spec_value(),
    {
        match self {
            Processor::Rate(p) => match p.value() {
                Some(v) => Some(CellValue::Num(v)),
                None => None,
            },
            Processor::Stat(p) => match p.value() {
                Some(v) => Some(CellValue::Stat(v)),
                None => None,
            },
            Processor::GatedAvg(p) => match p.value() {
                Some(v) => Some(CellValue::Num(v)),
                None => None,
            },
            Processor::Pressure(p) => match p.value() {
                Some(v) => Some(CellValue::Num(v)),
                None => None,
            },
            Processor::Mem(p) => match p.value() {
                Some(v) => Some(CellValue::Mem(v)),
                None => None,
            },
        }
    }

    /// The processor with its outside condition re-supplied, for
    /// specifications; only a gated processor carries one.
    pub open spec fn spec_with_condition(self, condition: bool) -> Processor {
        match self {
            Processor::GatedAvg(p) => Processor::GatedAvg(
                Simple {
                    source: Gated { inner: p.source.inner, condition },
                    split: p.split,
                },
            ),
            _ => self,
        }
    }

    /// Re-supply the outside condition of a gated processor; anything else
    /// is left untouched.
    pub fn set_condition(&mut self, condition: bool)
        ensures
            *final(self) == (*old(self)).spec_with_condition(condition),
    {
        match self {
            Processor::GatedAvg(p) => p.source.set_condition(condition),
            _ => {},
        }
    }

    /// Whether `self` and `other` wrap the same kind of processor.
    pub open spec fn spec_same_kind(self, other: Processor) -> bool {
        match (self, other) {
            (Processor::Rate(_), Processor::Rate(_)) => true,
            (Processor::Stat(_), Processor::Stat(_)) => true,
            (Processor::GatedAvg(_), Processor::GatedAvg(_)) => true,
            (Processor::Pressure(_), Processor::Pressure(_)) => true,
            (Processor::Mem(_), Processor::Mem(_)) => true,
            _ => false,
        }
    }

    /// Whether `self` and `other` wrap the same kind of processor.
    pub fn same_kind(&self, other: &Processor) -> (r: bool)
        ensures
            r == self.spec_same_kind(*other),
    {
        match (self, other) {
            (Processor::Rate(_), Processor::Rate(_)) => true,
            (Processor::Stat(_), Processor::Stat(_)) => true,
            (Processor::GatedAvg(_), Processor::GatedAvg(_)) => true,
            (Processor::Pressure(_), Processor::Pressure(_)) => true,
            (Processor::Mem(_), Processor::Mem(_)) => true,
            _ => false,
        }
    }
}

/// What went wrong digesting one completion at its item.
#[derive(Copy, Clone, PartialEq, Eq, Structural, Debug)]
pub enum ItemFault {
    /// The read itself failed with a platform error number.
    Failed {
        /// The platform error number.
        errno: i32,
    },
    /// The reported length exceeds the buffer capacity: the contract at the
    /// kernel boundary is broken.
    TooLong {
        /// The reported read length.
        length: usize,
        /// The item's buffer capacity.
        capacity: usize,
    },
}

/// What aborts a tick. Every fault here is fatal to the whole run: there is
/// no per-item retry.
#[derive(Copy, Clone, PartialEq, Eq, Structural, Debug)]
pub enum TickError {
    /// A completion could not be digested by its item.
    Item {
        /// The position of the failing item.
        id: usize,
        /// What went wrong there.
        fault: ItemFault,
    },
    /// A completion carried a tag that no outstanding operation has.
    UnknownTag {
        /// The unrecognised tag.
        tag: u64,
    },
}

/// A recurring read of one file.
///
/// An item binds one open file handle, one fixed buffer capacity and one
/// processor. The platform layer keeps the actual buffer; the item knows
/// how long it is and which bytes of a completed read are meaningful.
pub struct Item {
    /// The platform file handle the reads come from.
    pub fd: i32,
    /// The fixed capacity of the item's read buffer.
    pub capacity: usize,
    /// The processor digesting each completed read.
    pub processor: Processor,
}

/// One planned read operation: read `capacity` bytes from the start of the
/// file behind `fd`, correlated by `tag`.
#[derive(Copy, Clone, PartialEq, Eq, Structural, Debug)]
pub struct ReadOp {
    /// The file handle to read from.
    pub fd: i32,
    /// How many bytes to read, from offset zero.
    pub capacity: usize,
    /// The completion-correlation tag: the item's position in the ring.
    pub tag: u64,
}

impl Item {
    /// An item reading the file behind `fd` into a buffer of `capacity`
    /// bytes for `processor`.
    pub fn new(fd: i32, capacity: usize, processor: Processor) -> (r: Item)
        ensures
            r.fd == fd,
            r.capacity == capacity,
            r.processor == processor,
    {
        Item { fd, capacity, processor }
    }

    /// Well-formedness of the bound processor.
    pub open spec fn spec_wf(self) -> bool {
        self.processor.spec_wf()
    }

    /// Whether the bound processor wants a fresh read before `before`.
    pub fn wants_processing(&self, before: Instant) -> (r: bool)
        ensures
            r == self.processor.spec_wants(before),
    {
        self.processor.wants_processing(before)
    }

    /// Digest the outcome of one read: `result` is the reported length or a
    /// platform error number, `buf` the item's whole buffer.
    ///
    /// A reported length beyond the capacity is an invariant violation at
    /// the kernel boundary and fatal, not a soft error. On success only the
    /// first `length` bytes reach the processor: stale tail bytes of an
    /// earlier read never leak into decoding.
    pub fn process(&mut self, result: Result<u32, i32>, buf: &[u8], now: Instant) -> (r: Result<
        (),
        ItemFault,
    >)
        requires
            old(self).spec_wf(),
            buf@.len() == old(self).capacity,
        ensures
            final(self).fd == old(self).fd,
            final(self).capacity == old(self).capacity,
            final(self).spec_wf(),
            match result {
                Result::Err(errno) => r == Result::<(), ItemFault>::Err(
                    ItemFault::Failed { errno },
                ) && *final(self) == *old(self),
                Result::Ok(length) => if length > old(self).capacity {
                    r == Result::<(), ItemFault>::Err(
                        ItemFault::TooLong {
                            length: length as usize,
                            capacity: old(self).capacity,
                        },
                    ) && *final(self) == *old(self)
                } else {
                    r is Ok && final(self).processor == old(self).processor.spec_processed(
                        buf@.take(length as int),
                        now,
                    )
                },
            },
    {
        let length = match result {
            Result::Ok(l) => l,
            Result::Err(errno) => {
                return Result::Err(ItemFault::Failed { errno });
            },
        };
        if length as usize > self.capacity {
            return Result::Err(
                ItemFault::TooLong { length: length as usize, capacity: self.capacity },
            );
        }
        let meaningful = &buf[0..length as usize];
        proof {
            assert(meaningful@ =~= buf@.take(length as int));
        }
        self.processor.process(meaningful, now);
        Result::Ok(())
    }
}

/// How many entries of `s` are set.
pub open spec fn count_true(s: Seq<bool>) -> int
    decreases s.len(),
{
    if s.len() == 0 {
        0
    } else {
        count_true(s.drop_last()) + if s.last() {
            1int
        } else {
            0int
        }
    }
}

/// Clearing a set entry lowers the count by one.
pub proof fn lemma_count_true_clear(s: Seq<bool>, i: int)
    requires
        0 <= i < s.len(),
        s[i],
    ensures
        count_true(s.update(i, false)) == count_true(s) - 1,
    decreases s.len(),
{
    lemma_count_true_nonneg(s);
    if i == s.len() - 1 {
        assert(s.update(i, false).drop_last() =~= s.drop_last());
    } else {
        assert(s.update(i, false).drop_last() =~= s.drop_last().update(i, false));
        lemma_count_true_clear(s.drop_last(), i);
    }
}

/// A count of entries is never negative.
pub proof fn lemma_count_true_nonneg(s: Seq<bool>)
    ensures
        count_true(s) >= 0,
    decreases s.len(),
{
    if s.len() > 0 {
        lemma_count_true_nonneg(s.drop_last());
    }
}

/// The reads planned for the items from position `i` on: one per item
/// whose gate is open, tagged with the item's position.
pub open spec fn spec_plan_from(items: Seq<Item>, estimate: Instant, i: int) -> Seq<ReadOp>
    decreases items.len() - i,
{
    if i < 0 || i >= items.len() {
        Seq::empty()
    } else {
        let rest = spec_plan_from(items, estimate, i + 1);
        if items[i].processor.spec_wants(estimate) {
            seq![ReadOp { fd: items[i].fd, capacity: items[i].capacity, tag: i as u64 }] + rest
        } else {
            rest
        }
    }
}

/// The reads planned for a whole item list.
pub open spec fn spec_plan(items: Seq<Item>, estimate: Instant) -> Seq<ReadOp> {
    spec_plan_from(items, estimate, 0)
}

/// Every tick the control loop estimates the next processing to be roughly
/// one second ahead; the surplus absorbs scheduling jitter, so a source
/// read this tick is not read again next tick by accident.
pub const LOOKAHEAD_MILLIS: u64 = 1100;

/// The instant that gates are asked about when preparing at `now`.
pub open spec fn spec_estimate(now: Instant) -> Instant {
    now.spec_saturating_add_millis(LOOKAHEAD_MILLIS)
}

/// The ring: the ordered item list and the accounting of one tick.
///
/// An item's position is its completion-correlation tag. The counters tie
/// one tick together: `submitted` many operations were planned, `dispatched`
/// many completions were digested, and an entry of `outstanding` is set
/// while its item's completion is still missing.
pub struct Ring {
    /// The bound read items, in tag order.
    pub items: Vec<Item>,
    /// Which items' completions are still missing this tick.
    pub outstanding: Vec<bool>,
    /// How many completions are still missing this tick.
    pub pending: usize,
    /// How many operations this tick submitted.
    pub submitted: usize,
    /// How many completions this tick dispatched.
    pub dispatched: usize,
}

impl Ring {
    /// The ring invariant: the accounting is consistent — outstanding flags
    /// match the item list, and what was submitted is exactly what was
    /// dispatched plus what is still outstanding.
    pub open spec fn spec_wf(self) -> bool {
        &&& self.outstanding@.len() == self.items@.len()
        &&& self.pending == count_true(self.outstanding@)
        &&& self.submitted == self.dispatched + self.pending
        &&& forall|i: int|
            0 <= i < self.items@.len() ==> (#[trigger] self.items@[i]).spec_wf()
    }

    /// Between ticks: nothing is outstanding.
    pub open spec fn spec_idle(self) -> bool {
        self.pending == 0
    }

    /// A ring over `items`, idle, with nothing submitted or dispatched.
    pub fn new(items: Vec<Item>) -> (r: Ring)
        requires
            forall|i: int| 0 <= i < items@.len() ==> (#[trigger] items@[i]).spec_wf(),
        ensures
            r.spec_wf(),
            r.spec_idle(),
            r.items == items,
            r.submitted == 0,
            r.dispatched == 0,
    {
        let mut outstanding: Vec<bool> = Vec::new();
        let mut i: usize = 0;
        while i < items.len()
            invariant
                0 <= i <= items@.len(),
                outstanding@.len() == i,
                count_true(outstanding@) == 0,
                forall|j: int| 0 <= j < i ==> !(#[trigger] outstanding@[j]),
            decreases items@.len() - i,
        {
            let ghost prev = outstanding@;
            outstanding.push(false);
            proof {
                assert(outstanding@.drop_last() =~= prev);
            }
            i = i + 1;
        }
        Ring { items, outstanding, pending: 0, submitted: 0, dispatched: 0 }
    }

    /// Plan this tick's reads: one tagged operation per item whose gate
    /// reports a want for the estimated next processing instant. The
    /// operations are handed to the platform layer for submission; the
    /// accounting starts a fresh tick.
    pub fn prepare(&mut self, now: Instant) -> (ops: Vec<ReadOp>)
        requires
            old(self).spec_wf(),
            old(self).spec_idle(),
        ensures
            final(self).spec_wf(),
            final(self).items == old(self).items,
            ops@ == spec_plan(old(self).items@, spec_estimate(now)),
            final(self).submitted == ops@.len(),
            final(self).dispatched == 0,
            final(self).pending == ops@.len(),
            forall|i: int|
                0 <= i < old(self).items@.len() ==> final(self).outstanding@[i]
                    == (#[trigger] old(self).items@[i]).processor.spec_wants(
                    spec_estimate(now),
                ),
    {
        let estimate = now.saturating_add_millis(LOOKAHEAD_MILLIS);
        let ghost est = spec_estimate(now);
        let mut ops: Vec<ReadOp> = Vec::new();
        let mut outstanding: Vec<bool> = Vec::new();
        let mut pending: usize = 0;
        let mut i: usize = 0;
        while i < self.items.len()
            invariant
                0 <= i <= self.items@.len(),
                estimate == est,
                outstanding@.len() == i,
                pending == count_true(outstanding@),
                pending <= i,
                ops@.len() == pending,
                spec_plan_from(self.items@, est, 0) == ops@ + spec_plan_from(
                    self.items@,
                    est,
                    i as int,
                ),
                forall|j: int|
                    0 <= j < i ==> outstanding@[j] == (#[trigger] self.items@[j]).processor
                        .spec_wants(est),
            decreases self.items@.len() - i,
        {
            let wants = self.items[i].wants_processing(estimate);
            proof {
                assert((outstanding@.push(wants)).drop_last() =~= outstanding@);
            }
            if wants {
                let op = ReadOp {
                    fd: self.items[i].fd,
                    capacity: self.items[i].capacity,
                    tag: i as u64,
                };
                ops.push(op);
                pending = pending + 1;
            }
            outstanding.push(wants);
            proof {
                assert(spec_plan_from(self.items@, est, 0) =~= ops@ + spec_plan_from(
                    self.items@,
                    est,
                    i + 1,
                ));
            }
            i = i + 1;
        }
        proof {
            assert(spec_plan_from(self.items@, est, i as int) =~= Seq::<ReadOp>::empty());
            assert(spec_plan_from(self.items@, est, 0) =~= ops@);
        }
        self.outstanding = outstanding;
        self.pending = pending;
        self.submitted = pending;
        self.dispatched = 0;
        ops
    }

    /// Whether an outstanding operation carries this tag.
    pub open spec fn spec_valid_tag(self, tag: u64) -> bool {
        tag < self.items@.len() && self.outstanding@[tag as int]
    }

    /// Digest one completion: resolve `tag` to its item, decode `code` —
    /// a non-negative code is the read length, a negative one a platform
    /// error number — and let the item process the first bytes of `buf`,
    /// its whole read buffer.
    ///
    /// An unrecognised tag, a failed read and an over-long read each abort
    /// the tick with the ring unchanged; the platform layer treats every
    /// such error as fatal.
    pub fn dispatch(&mut self, tag: u64, code: i32, buf: &[u8], now: Instant) -> (r: Result<
        (),
        TickError,
    >)
        requires
            old(self).spec_wf(),
            old(self).spec_valid_tag(tag) ==> buf@.len() == old(self).items@[tag as int].capacity,
        ensures
            final(self).spec_wf(),
            final(self).items@.len() == old(self).items@.len(),
            final(self).submitted == old(self).submitted,
            !old(self).spec_valid_tag(tag) ==> r == Result::<(), TickError>::Err(
                TickError::UnknownTag { tag },
            ) && *final(self) == *old(self),
            old(self).spec_valid_tag(tag) ==> {
                let item = old(self).items@[tag as int];
                let decoded = spec_decode_code(code);
                match decoded {
                    Result::Err(errno) => r == Result::<(), TickError>::Err(
                        TickError::Item { id: tag as usize, fault: ItemFault::Failed { errno } },
                    ) && *final(self) == *old(self),
                    Result::Ok(length) => if length > item.capacity {
                        r == Result::<(), TickError>::Err(
                            TickError::Item {
                                id: tag as usize,
                                fault: ItemFault::TooLong {
                                    length: length as usize,
                                    capacity: item.capacity,
                                },
                            },
                        ) && *final(self) == *old(self)
                    } else {
                        &&& r is Ok
                        &&& final(self).dispatched == old(self).dispatched + 1
                        &&& final(self).pending == old(self).pending - 1
                        &&& final(self).outstanding@ == old(self).outstanding@.update(
                            tag as int,
                            false,
                        )
                        &&& final(self).items@[tag as int].processor == item.processor
                            .spec_processed(buf@.take(length as int), now)
                        &&& final(self).items@[tag as int].fd == item.fd
                        &&& final(self).items@[tag as int].capacity == item.capacity
                        &&& forall|j: int|
                            0 <= j < old(self).items@.len() && j != tag
                                ==> final(self).items@[j] == #[trigger] old(self).items@[j]
                    },
                }
            },
    {
        if !(tag < self.items.len() as u64 && self.outstanding[tag as usize]) {
            return Result::Err(TickError::UnknownTag { tag });
        }
        let idx = tag as usize;
        let result: Result<u32, i32> = if code >= 0 {
            Result::Ok(code as u32)
        } else if code == i32::MIN {
            Result::Err(i32::MIN)
        } else {
            Result::Err(-code)
        };
        // Validate before mutating, so that an aborted tick leaves the ring
        // as it was.
        let length = match result {
            Result::Ok(l) => l,
            Result::Err(errno) => {
                return Result::Err(
                    TickError::Item { id: idx, fault: ItemFault::Failed { errno } },
                );
            },
        };
        if length as usize > self.items[idx].capacity {
            return Result::Err(
                TickError::Item {
                    id: idx,
                    fault: ItemFault::TooLong {
                        length: length as usize,
                        capacity: self.items[idx].capacity,
                    },
                },
            );
        }
        let mut item = self.items.remove(idx);
        let fault = item.process(result, buf, now);
        proof {
            assert(fault is Ok);
        }
        self.items.insert(idx, item);
        self.outstanding.set(idx, false);
        proof {
            lemma_count_true_clear(old(self).outstanding@, idx as int);
            lemma_count_true_nonneg(old(self).outstanding@.update(idx as int, false));
        }
        self.pending = self.pending - 1;
        self.dispatched = self.dispatched + 1;
        proof {
            assert(final(self).items@ =~= old(self).items@.update(
                idx as int,
                final(self).items@[idx as int],
            ));
        }
        Result::Ok(())
    }

    /// Whether this tick is over: every submitted operation's completion
    /// has been dispatched.
    pub fn tick_done(&self) -> (r: bool)
        requires
            self.spec_wf(),
        ensures
            r == self.spec_idle(),
            r ==> self.submitted == self.dispatched,
    {
        proof {
            lemma_count_true_nonneg(self.outstanding@);
        }
        self.pending == 0
    }

    /// The cell content served for the item installed at `handle`, or
    /// nothing for a handle the ring does not know. Reading never blocks
    /// and never touches the platform layer.
    pub fn value(&self, handle: usize) -> (r: Option<CellValue>)
        ensures
            r == if handle < self.items@.len() {
                self.items@[handle as int].processor.spec_value()
            } else {
                None
            },
    {
        if handle < self.items.len() {
            self.items[handle].value_here()
        } else {
            None
        }
    }

    /// Re-supply the outside condition of the processor at `handle`.
    pub fn set_condition(&mut self, handle: usize, condition: bool)
        requires
            handle < old(self).items@.len(),
            old(self).spec_wf(),
        ensures
            final(self).spec_wf(),
            final(self).items@[handle as int].processor == old(
                self,
            ).items@[handle as int].processor.spec_with_condition(condition),
            final(self).items@[handle as int].fd == old(self).items@[handle as int].fd,
            final(self).items@[handle as int].capacity == old(
                self,
            ).items@[handle as int].capacity,
            forall|j: int|
                0 <= j < old(self).items@.len() && j != handle ==> final(self).items@[j]
                    == #[trigger] old(self).items@[j],
            final(self).items@.len() == old(self).items@.len(),
            final(self).outstanding == old(self).outstanding,
            final(self).pending == old(self).pending,
            final(self).submitted == old(self).submitted,
            final(self).dispatched == old(self).dispatched,
    {
        let mut item = self.items.remove(handle);
        item.processor.set_condition(condition);
        proof {
            assert(item.spec_wf()) by {
                match old(self).items@[handle as int].processor {
                    Processor::GatedAvg(_) => {},
                    _ => {},
                }
            }
        }
        self.items.insert(handle, item);
        proof {
            assert(final(self).items@ =~= old(self).items@.update(
                handle as int,
                final(self).items@[handle as int],
            ));
        }
    }
}

impl Item {
    /// The served cell content of this item's processor.
    pub fn value_here(&self) -> (r: Option<CellValue>)
        ensures
            r == self.processor.spec_value(),
    {
        self.processor.value()
    }
}

/// How a raw completion code is read: a non-negative code is the read
/// length, a negative one carries the platform error number negated.
pub open spec fn spec_decode_code(code: i32) -> Result<u32, i32> {
    if code >= 0 {
        Result::Ok(code as u32)
    } else if code == i32::MIN {
        Result::Err(i32::MIN)
    } else {
        Result::Err((-code) as i32)
    }
}

/// How many items from position `i` on want processing before `estimate`.
pub open spec fn count_wanting_from(items: Seq<Item>, estimate: Instant, i: int) -> int
    decreases items.len() - i,
{
    if i < 0 || i >= items.len() {
        0
    } else {
        (if items[i].processor.spec_wants(estimate) {
            1int
        } else {
            0int
        }) + count_wanting_from(items, estimate, i + 1)
    }
}

/// One operation is planned for each wanting item, whatever subset of the
/// items wants processing.
pub proof fn lemma_plan_counts_wanting(items: Seq<Item>, estimate: Instant, i: int)
    requires
        0 <= i <= items.len(),
    ensures
        spec_plan_from(items, estimate, i).len() == count_wanting_from(items, estimate, i),
    decreases items.len() - i,
{
    if i < items.len() {
        lemma_plan_counts_wanting(items, estimate, i + 1);
    }
}

/// The tick invariant, stated once for every reachable ring: operations
/// submitted this tick equal completions dispatched plus completions still
/// outstanding — so the moment nothing is outstanding, as many completions
/// were dispatched as operations were submitted, for any subset of wanting
/// items.
pub proof fn lemma_tick_balance(r: Ring)
    requires
        r.spec_wf(),
    ensures
        r.submitted == r.dispatched + count_true(r.outstanding@),
        count_true(r.outstanding@) == 0 ==> r.submitted == r.dispatched,
{
}

/// Why installing a processor can fail.
#[derive(Copy, Clone, PartialEq, Eq, Structural, Debug)]
pub enum InstallError {
    /// The file already has an item, but its processor is of another kind.
    IncompatibleProcessor {
        /// The handle of the existing item.
        handle: usize,
    },
}

/// The first position carrying the file identity `(dev, ino)`, or the
/// length if none does.
pub open spec fn spec_find_key(keys: Seq<(u64, u64)>, dev: u64, ino: u64) -> int
    decreases keys.len(),
{
    if keys.len() == 0 {
        0
    } else if keys[0].0 == dev && keys[0].1 == ino {
        0
    } else {
        1 + spec_find_key(keys.drop_first(), dev, ino)
    }
}

proof fn lemma_find_key_at(keys: Seq<(u64, u64)>, dev: u64, ino: u64, p: int)
    requires
        0 <= p <= keys.len(),
        forall|i: int|
            0 <= i < p ==> !((#[trigger] keys[i]).0 == dev && keys[i].1 == ino),
        p < keys.len() ==> keys[p].0 == dev && keys[p].1 == ino,
    ensures
        spec_find_key(keys, dev, ino) == p,
    decreases keys.len(),
{
    if keys.len() == 0 {
    } else if keys[0].0 == dev && keys[0].1 == ino {
        assert(p == 0);
    } else {
        assert(p >= 1);
        assert(forall|i: int|
            0 <= i < p - 1 ==> !((#[trigger] keys.drop_first()[i]).0 == dev
                && keys.drop_first()[i].1 == ino));
        if p < keys.len() {
            assert(keys.drop_first()[p - 1] == keys[p]);
        }
        lemma_find_key_at(keys.drop_first(), dev, ino, p - 1);
    }
}

/// Installer for read items: one item per underlying file.
///
/// Two logical entries reading the same file — identified by device and
/// inode, not by path — share one item, one processor and one read per
/// tick. Installing hands back the item's handle, the position it will
/// have in the ring.
pub struct ReadItemInstaller {
    /// The items installed so far, in handle order.
    pub items: Vec<Item>,
    /// The file identity of each installed item, in handle order.
    pub keys: Vec<(u64, u64)>,
}

impl ReadItemInstaller {
    /// The installer invariant: one file identity per item, every
    /// processor well formed.
    pub open spec fn spec_wf(self) -> bool {
        &&& self.keys@.len() == self.items@.len()
        &&& forall|i: int| 0 <= i < self.items@.len() ==> (#[trigger] self.items@[i]).spec_wf()
    }

    /// An installer with no items yet.
    pub fn new() -> (r: ReadItemInstaller)
        ensures
            r.spec_wf(),
            r.items@.len() == 0,
            r.keys@.len() == 0,
    {
        ReadItemInstaller { items: Vec::new(), keys: Vec::new() }
    }

    /// Install a processor for the open file behind `fd` with identity
    /// `(dev, ino)`, reading `capacity` bytes per tick.
    ///
    /// If the file already has an item, its handle is returned and the
    /// offered processor is discarded — unless it is of another kind than
    /// the installed one, which is an error. Otherwise a new item is bound.
    #[verifier::loop_isolation(false)]
    pub fn install_file(
        &mut self,
        fd: i32,
        dev: u64,
        ino: u64,
        capacity: usize,
        processor: Processor,
    ) -> (r: Result<usize, InstallError>)
        requires
            old(self).spec_wf(),
            processor.spec_wf(),
        ensures
            final(self).spec_wf(),
            ({
                let j = spec_find_key(old(self).keys@, dev, ino);
                if j < old(self).keys@.len() {
                    if old(self).items@[j].processor.spec_same_kind(processor) {
                        r == Result::<usize, InstallError>::Ok(j as usize) && *final(self)
                            == *old(self)
                    } else {
                        r == Result::<usize, InstallError>::Err(
                            InstallError::IncompatibleProcessor { handle: j as usize },
                        ) && *final(self) == *old(self)
                    }
                } else {
                    r == Result::<usize, InstallError>::Ok(old(self).items@.len() as usize)
                        && final(self).items@ == old(self).items@.push(
                        Item { fd, capacity, processor },
                    ) && final(self).keys@ == old(self).keys@.push((dev, ino))
                }
            }),
    {
        let mut i: usize = 0;
        while i < self.keys.len()
            invariant
                0 <= i <= self.keys@.len(),
                self.keys@.len() == self.items@.len(),
                forall|j: int|
                    0 <= j < i ==> !((#[trigger] self.keys@[j]).0 == dev && self.keys@[j].1
                        == ino),
            decreases self.keys@.len() - i,
        {
            let key = self.keys[i];
            if key.0 == dev && key.1 == ino {
                proof {
                    lemma_find_key_at(self.keys@, dev, ino, i as int);
                }
                if self.items[i].processor.same_kind(&processor) {
                    return Result::Ok(i);
                } else {
                    return Result::Err(InstallError::IncompatibleProcessor { handle: i });
                }
            }
            i = i + 1;
        }
        proof {
            lemma_find_key_at(self.keys@, dev, ino, i as int);
        }
        let handle = self.items.len();
        self.items.push(Item { fd, capacity, processor });
        self.keys.push((dev, ino));
        Result::Ok(handle)
    }

    /// Turn the installed items into a ring, consuming the installer.
    pub fn into_ring(self) -> (r: Ring)
        requires
            self.spec_wf(),
        ensures
            r.spec_wf(),
            r.spec_idle(),
            r.items == self.items,
            r.submitted == 0,
            r.dispatched == 0,
    {
        Ring::new(self.items)
    }
}

} // verus!
