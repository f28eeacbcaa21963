//! Two demonstration tasks: a talker that publishes a random value each
//! tick and a listener subscribed to every `test_` topic.

use vstd::prelude::*;
use crate::builders::{publish_value, subscribe_to};
use crate::info::{MetaMessage, TaskInfo};
use crate::json::JsonVal;
use crate::record::{Record, RecordError};
use crate::task::{Task, all_wf, push_record};

verus! {

/// Relies on rand's `random`: a value drawn from the thread-local
/// generator; nothing is promised about which. The generator's first
/// seeding panics if the operating system's randomness source fails,
/// an environmental failure on par with running out of memory.
#[verifier::external_body]
fn random_i32() -> (r: i32) {
    rand::random::<i32>()
}

/// Publishes `{value: <random>}` on `test_pub` every tick.
pub struct TestTaskTalker {
    pub value: i32,
    pub task_info: TaskInfo,
}

impl TestTaskTalker {
    /// A fresh talker.
    pub fn new() -> (r: TestTaskTalker)
        ensures
            r.value == 0,
    {
        TestTaskTalker { value: 0, task_info: TaskInfo::new("TestTaskTalker") }
    }
}

impl Task for TestTaskTalker {
    fn init(&mut self, _tx: &mut Vec<Record>, _meta_tx: &mut Vec<MetaMessage>) -> (r: Result<
        (),
        RecordError,
    >) {
        Ok(())
    }

    fn should_run(&self) -> Result<bool, RecordError> {
        Ok(true)
    }

    fn run(
        &mut self,
        _inputs: Vec<Record>,
        tx: &mut Vec<Record>,
        _meta_tx: &mut Vec<MetaMessage>,
    ) -> (r: Result<(), RecordError>) {
        let drawn = random_i32();
        self.value = drawn;
        let mut fields: Vec<(String, JsonVal)> = Vec::new();
        fields.push((String::from_str("value"), JsonVal::Int(drawn as i64)));
        let msg = JsonVal::Obj(fields);
        match publish_value("test_pub", &msg) {
            Ok(rec) => {
                push_record(tx, rec);
            },
            Err(_) => {},
        }
        Ok(())
    }

    fn cleanup(&mut self) -> Result<(), RecordError> {
        Ok(())
    }

    fn get_task_info(&self) -> &TaskInfo {
        &self.task_info
    }
}

/// Counts the records arriving on `test_` topics.
pub struct TestTaskListener {
    pub task_info: TaskInfo,
    pub received: usize,
}

impl TestTaskListener {
    /// A fresh listener.
    pub fn new() -> (r: TestTaskListener)
        ensures
            r.received == 0,
    {
        TestTaskListener { task_info: TaskInfo::new("TestTaskListener"), received: 0 }
    }
}

impl Task for TestTaskListener {
    fn init(&mut self, tx: &mut Vec<Record>, _meta_tx: &mut Vec<MetaMessage>) -> (r: Result<
        (),
        RecordError,
    >) {
        push_record(tx, subscribe_to("test_*"));
        Ok(())
    }

    fn should_run(&self) -> Result<bool, RecordError> {
        Ok(true)
    }

    fn run(
        &mut self,
        inputs: Vec<Record>,
        _tx: &mut Vec<Record>,
        _meta_tx: &mut Vec<MetaMessage>,
    ) -> (r: Result<(), RecordError>) {
        let n = inputs.len();
        if self.received <= usize::MAX - n {
            self.received = self.received + n;
        }
        Ok(())
    }

    fn cleanup(&mut self) -> Result<(), RecordError> {
        Ok(())
    }

    fn get_task_info(&self) -> &TaskInfo {
        &self.task_info
    }
}

} // verus!
