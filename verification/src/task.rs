//! The contract every schedulable unit of work implements.
//!
//! A task talks to the runner only through the two out-vectors it is
//! handed: records (publishes and subscription requests) and meta
//! commands (spawn and kill). The runner drains both after each call.

use vstd::prelude::*;
use crate::info::{MetaMessage, TaskInfo};
use crate::record::{Record, RecordError};

verus! {

/// Every record of the sequence is well formed.
pub open spec fn all_wf(records: Seq<Record>) -> bool {
    forall|i: int| 0 <= i < records.len() ==> (#[trigger] records[i])@.wf()
}

/// A unit of work the runner schedules cooperatively.
pub trait Task {
    /// One-shot setup: may publish records, request subscriptions and
    /// issue meta commands by appending to the two out-vectors.
    fn init(&mut self, tx: &mut Vec<Record>, meta_tx: &mut Vec<MetaMessage>) -> (r: Result<
        (),
        RecordError,
    >)
        requires
            all_wf(old(tx)@),
        ensures
            all_wf(final(tx)@),
    ;

    /// Polled each tick before `run`; a task that answers false is
    /// skipped this tick.
    fn should_run(&self) -> Result<bool, RecordError>;

    /// One cooperative step, with the drained subscription queues as
    /// `inputs`.
    fn run(
        &mut self,
        inputs: Vec<Record>,
        tx: &mut Vec<Record>,
        meta_tx: &mut Vec<MetaMessage>,
    ) -> (r: Result<(), RecordError>)
        requires
            all_wf(inputs@),
            all_wf(old(tx)@),
        ensures
            all_wf(final(tx)@),
    ;

    /// One-shot teardown at runner shutdown.
    fn cleanup(&mut self) -> Result<(), RecordError>;

    /// The task's stable identity.
    fn get_task_info(&self) -> &TaskInfo;
}

} // verus!

verus! {

/// Append a well-formed record to an out-vector, keeping the vector
/// well formed.
pub fn push_record(tx: &mut Vec<Record>, r: Record)
    requires
        all_wf(old(tx)@),
        r@.wf(),
    ensures
        all_wf(final(tx)@),
        final(tx)@.len() == old(tx)@.len() + 1,
        forall|i: int| 0 <= i < old(tx)@.len() ==> final(tx)@[i] == old(tx)@[i],
        final(tx)@.last() == r,
{
    let ghost before = tx@;
    tx.push(r);
    proof {
        assert forall|i: int| 0 <= i < tx@.len() implies (#[trigger] tx@[i])@.wf() by {
            if i < before.len() {
                assert(tx@[i] == before[i]);
            }
        }
    }
}

} // verus!
