//! A per-(task, pattern) FIFO of records.
//!
//! The runner owns every queue and pushes matching publishes into it;
//! the owning task receives the drained contents as its inputs.

use vstd::prelude::*;
use crate::info::TaskInfo;
use crate::record::{Record, RecordView};

verus! {

/// A FIFO of records for one subscription.
pub struct SubscriptionQueue {
    task_info: TaskInfo,
    topic_pattern: String,
    queue: Vec<Record>,
}

/// The mathematical model of a subscription queue.
#[verifier::ext_equal]
pub struct QueueView {
    pub task_id: u32,
    pub pattern: Seq<char>,
    pub records: Seq<RecordView>,
}

impl View for SubscriptionQueue {
    type V = QueueView;

    closed spec fn view(&self) -> QueueView {
        QueueView {
            task_id: self.task_info.id,
            pattern: self.topic_pattern@,
            records: Seq::new(self.queue@.len(), |i: int| self.queue@[i]@),
        }
    }
}

impl QueueView {
    /// Every queued record is well formed.
    pub open spec fn wf(self) -> bool {
        forall|i: int| 0 <= i < self.records.len() ==> (#[trigger] self.records[i]).wf()
    }
}

impl SubscriptionQueue {
    /// An empty queue for `task_info` and `topic_pattern`.
    pub fn new(task_info: TaskInfo, topic_pattern: String) -> (r: SubscriptionQueue)
        ensures
            r@.task_id == task_info.id,
            r@.pattern == topic_pattern@,
            r@.records =~= Seq::<RecordView>::empty(),
            r@.wf(),
    {
        SubscriptionQueue { task_info, topic_pattern, queue: Vec::new() }
    }

    /// Append a record at the back.
    pub fn push(&mut self, record: Record)
        requires
            old(self)@.wf(),
            record@.wf(),
        ensures
            final(self)@.wf(),
            final(self)@.task_id == old(self)@.task_id,
            final(self)@.pattern == old(self)@.pattern,
            final(self)@.records == old(self)@.records.push(record@),
    {
        self.queue.push(record);
        proof {
            assert(self@.records =~= old(self)@.records.push(record@));
        }
    }

    /// Take every queued record, front first, leaving the queue empty.
    pub fn drain(&mut self) -> (r: Vec<Record>)
        requires
            old(self)@.wf(),
        ensures
            final(self)@.wf(),
            final(self)@.task_id == old(self)@.task_id,
            final(self)@.pattern == old(self)@.pattern,
            final(self)@.records =~= Seq::<RecordView>::empty(),
            r@.len() == old(self)@.records.len(),
            forall|i: int| 0 <= i < r@.len() ==> (#[trigger] r@[i])@ == old(self)@.records[i],
    {
        let mut out: Vec<Record> = Vec::new();
        core::mem::swap(&mut out, &mut self.queue);
        proof {
            assert(self@.records =~= Seq::<RecordView>::empty());
        }
        out
    }

    /// Whether the queue holds no records.
    pub fn is_empty(&self) -> (r: bool)
        ensures
            r == (self@.records.len() == 0),
    {
        self.queue.len() == 0
    }

    /// How many records the queue holds.
    pub fn len(&self) -> (n: usize)
        ensures
            n == self@.records.len(),
    {
        self.queue.len()
    }

    /// The identity of the task this subscription belongs to.
    pub fn task_info(&self) -> (r: &TaskInfo)
        ensures
            r.id == self@.task_id,
    {
        &self.task_info
    }

    /// The topic pattern this subscription was registered with.
    pub fn topic_pattern(&self) -> (r: &str)
        ensures
            r@ == self@.pattern,
    {
        self.topic_pattern.as_str()
    }
}

} // verus!
