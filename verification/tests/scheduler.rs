use std::cell::RefCell;
use std::rc::Rc;

use pubsub::builders::{PublishBuilder, RecordBuilder, SubscribeBuilder};
use pubsub::exec_stage::{ExecConfig, ExecRunner, ExecStage, ExecStageMessage};
use pubsub::info::{MetaCommand, MetaMessage, TaskInfo};
use pubsub::json::JsonVal;
use pubsub::record::{Record, RecordError};
use pubsub::runner::Runner;
use pubsub::task::Task;

fn obj(fields: Vec<(&str, JsonVal)>) -> JsonVal {
    JsonVal::Obj(fields.into_iter().map(|(k, v)| (k.to_string(), v)).collect())
}

fn publish(topic: &str, value: JsonVal) -> Record {
    PublishBuilder::new(topic.to_string())
        .with_value_content(&value)
        .unwrap()
        .build()
}

struct Probe {
    info: TaskInfo,
    subscribe: Option<String>,
    publish_each_tick: Option<(String, JsonVal)>,
    kill_self_once: bool,
    killed: bool,
    muted: Rc<RefCell<bool>>,
    inputs_seen: Rc<RefCell<Vec<Vec<Record>>>>,
    runs: Rc<RefCell<usize>>,
    cleanups: Rc<RefCell<usize>>,
}

impl Probe {
    fn new(name: &str) -> Probe {
        Probe {
            info: TaskInfo::new(name).with_insta_spawn(),
            subscribe: None,
            publish_each_tick: None,
            kill_self_once: false,
            killed: false,
            muted: Rc::new(RefCell::new(false)),
            inputs_seen: Rc::new(RefCell::new(Vec::new())),
            runs: Rc::new(RefCell::new(0)),
            cleanups: Rc::new(RefCell::new(0)),
        }
    }
}

impl Task for Probe {
    fn init(
        &mut self,
        tx: &mut Vec<Record>,
        _meta_tx: &mut Vec<MetaMessage>,
    ) -> Result<(), RecordError> {
        if let Some(pattern) = &self.subscribe {
            tx.push(SubscribeBuilder::new(pattern.clone()).build());
        }
        Ok(())
    }

    fn should_run(&self) -> Result<bool, RecordError> {
        Ok(true)
    }

    fn run(
        &mut self,
        inputs: Vec<Record>,
        tx: &mut Vec<Record>,
        meta_tx: &mut Vec<MetaMessage>,
    ) -> Result<(), RecordError> {
        *self.runs.borrow_mut() += 1;
        self.inputs_seen.borrow_mut().push(inputs);
        if let Some((topic, value)) = &self.publish_each_tick {
            if !*self.muted.borrow() {
                tx.push(publish(topic, value.clone()));
            }
        }
        if self.kill_self_once && !self.killed {
            self.killed = true;
            meta_tx.push(MetaMessage::new(MetaCommand::KillTask, self.info.clone()));
        }
        Ok(())
    }

    fn cleanup(&mut self) -> Result<(), RecordError> {
        *self.cleanups.borrow_mut() += 1;
        Ok(())
    }

    fn get_task_info(&self) -> &TaskInfo {
        &self.info
    }
}

#[test]
fn test_echo_one_tick() {
    // task A subscribes foo/*, task B publishes foo/bar {v: 7}; A's
    // inputs on the next tick hold exactly that one record
    let mut runner: Runner<Probe> = Runner::new();

    let mut a = Probe::new("A");
    a.subscribe = Some("foo/*".to_string());
    let a_inputs = a.inputs_seen.clone();

    let mut b = Probe::new("B");
    b.publish_each_tick = Some(("foo/bar".to_string(), obj(vec![("v", JsonVal::Int(7))])));

    runner.add_task(a);
    runner.add_task(b);
    runner.init().unwrap();

    let _ = runner.run(); // B publishes; A saw nothing yet
    let _ = runner.run(); // A drains the routed record

    let seen = a_inputs.borrow();
    assert_eq!(seen[0].len(), 0);
    assert_eq!(seen[1].len(), 1);
    let rows = seen[1][0].to_values().unwrap();
    assert_eq!(rows.len(), 1);
    assert_eq!(rows[0], obj(vec![("v", JsonVal::Int(7))]));
    assert_eq!(seen[1][0].try_get_topic().unwrap(), "foo/bar");
}

#[test]
fn test_late_subscribe_snapshot() {
    // B publishes three records to x/y; then A subscribes x/* and first
    // receives exactly one one-row snapshot record, and nothing more
    // until B publishes again
    let mut runner: Runner<Probe> = Runner::new();

    let mut b = Probe::new("B");
    b.publish_each_tick = Some(("x/y".to_string(), obj(vec![("v", JsonVal::Int(1))])));
    let b_muted = b.muted.clone();
    runner.add_task(b);
    runner.init().unwrap();
    let _ = runner.run();
    let _ = runner.run();
    let _ = runner.run();

    // B falls silent before A subscribes
    *b_muted.borrow_mut() = true;

    let mut a = Probe::new("A");
    a.subscribe = Some("x/*".to_string());
    let a_inputs = a.inputs_seen.clone();
    runner.add_task(a);

    // registering the subscription seeds the queue with the snapshot
    let a_info = TaskInfo::new("A");
    runner.add_subscription(&a_info, "x/*".to_string());
    runner.start_task(&a_info).unwrap();

    // A's first inputs hold exactly the one-row snapshot
    let _ = runner.run();
    {
        let seen = a_inputs.borrow();
        assert_eq!(seen[0].len(), 1);
        assert_eq!(seen[0][0].num_rows(), 1);
    }
    // and nothing more arrives until B publishes again
    let _ = runner.run();
    {
        let seen = a_inputs.borrow();
        assert_eq!(seen[1].len(), 0);
    }
    *b_muted.borrow_mut() = false;
    let _ = runner.run();
    let _ = runner.run();
    {
        let seen = a_inputs.borrow();
        assert!(seen[2].len() + seen[3].len() >= 1);
    }
}

#[test]
fn test_stage_reconciliation() {
    // config: S1 -> {T1, T2}, S2 -> {T2, T3}; in S1 with T1 and T2
    // spawned, receiving S2 kills T1 and spawns T3
    let config = ExecConfig::new()
        .with_stage_tasks(
            ExecStage::AwaitingData,
            vec!["T1".to_string(), "T2".to_string()],
        )
        .with_stage_tasks(
            ExecStage::AwaitingHealthy,
            vec!["T2".to_string(), "T3".to_string()],
        );
    let mut controller = ExecRunner::new(config);

    // adopt stage S1 and spawn its tasks
    let s1 = publish(
        "exec/stage",
        ExecStageMessage::new(ExecStage::AwaitingData).to_value(),
    );
    let mut tx: Vec<Record> = Vec::new();
    let mut meta: Vec<MetaMessage> = Vec::new();
    controller.run(vec![s1], &mut tx, &mut meta).unwrap();
    let spawned: Vec<String> = meta.iter().map(|m| m.task_info.name.clone()).collect();
    assert_eq!(spawned, vec!["T1".to_string(), "T2".to_string()]);
    assert!(meta.iter().all(|m| matches!(m.command, MetaCommand::SpawnTask)));

    // adopt stage S2: T1 is killed, T3 is spawned, T2 stays
    let s2 = publish(
        "exec/stage",
        ExecStageMessage::new(ExecStage::AwaitingHealthy).to_value(),
    );
    let mut tx2: Vec<Record> = Vec::new();
    let mut meta2: Vec<MetaMessage> = Vec::new();
    controller.run(vec![s2], &mut tx2, &mut meta2).unwrap();

    let spawns: Vec<String> = meta2
        .iter()
        .filter(|m| matches!(m.command, MetaCommand::SpawnTask))
        .map(|m| m.task_info.name.clone())
        .collect();
    let kills: Vec<String> = meta2
        .iter()
        .filter(|m| matches!(m.command, MetaCommand::KillTask))
        .map(|m| m.task_info.name.clone())
        .collect();
    assert_eq!(spawns, vec!["T3".to_string()]);
    assert_eq!(kills, vec!["T1".to_string()]);
}

#[test]
fn test_meta_kill_during_tick() {
    // X issues Kill(X) on its own meta channel: it finishes this tick,
    // is not invoked next tick, and cleanup waits for shutdown
    let mut runner: Runner<Probe> = Runner::new();
    let mut x = Probe::new("X");
    x.kill_self_once = true;
    let runs = x.runs.clone();
    let cleanups = x.cleanups.clone();
    runner.add_task(x);
    runner.init().unwrap();

    let _ = runner.run();
    assert_eq!(*runs.borrow(), 1);
    assert!(!runner.is_task_running(&TaskInfo::new("X")));

    let _ = runner.run();
    assert_eq!(*runs.borrow(), 1);
    assert_eq!(*cleanups.borrow(), 0);

    let _ = runner.cleanup();
    assert_eq!(*cleanups.borrow(), 1);
}

#[test]
fn test_start_stop_task() {
    let mut runner: Runner<Probe> = Runner::new();
    let p = Probe::new("P");
    let info = p.info.clone();
    runner.add_task(p);

    assert!(runner.start_task(&info).is_ok());
    assert!(runner.is_task_running(&info));
    assert!(runner.stop_task(&info).is_ok());
    assert!(!runner.is_task_running(&info));

    let unknown = TaskInfo::new("nobody");
    assert_eq!(runner.start_task(&unknown).unwrap_err(), RecordError::TaskNotFound);
}

#[test]
fn test_self_subscription_loopback() {
    // a task that subscribes to its own publish pattern receives its own
    // messages on a later tick
    let mut runner: Runner<Probe> = Runner::new();
    let mut p = Probe::new("Loop");
    p.subscribe = Some("loop/self".to_string());
    p.publish_each_tick = Some(("loop/self".to_string(), obj(vec![("n", JsonVal::Int(1))])));
    let seen = p.inputs_seen.clone();
    runner.add_task(p);
    runner.init().unwrap();

    let _ = runner.run();
    let _ = runner.run();
    let seen = seen.borrow();
    assert_eq!(seen[0].len(), 0);
    assert_eq!(seen[1].len(), 1);
}

#[test]
fn test_add_task_replaces_same_id() {
    // two tasks with the same name hash to the same id: the second
    // registration replaces the first, so one tick runs one task once
    let mut runner: Runner<Probe> = Runner::new();
    let first = Probe::new("X");
    let first_runs = first.runs.clone();
    let second = Probe::new("X");
    let second_runs = second.runs.clone();
    runner.add_task(first);
    runner.add_task(second);
    runner.init().unwrap();
    let _ = runner.run();
    assert_eq!(*first_runs.borrow(), 0);
    assert_eq!(*second_runs.borrow(), 1);
}

#[test]
fn test_exec_runner_spawns_default_tasks() {
    // init emits one spawn per always-on task, in order, and subscribes
    // to the stage topic
    let config = ExecConfig::new()
        .with_default_task("A".to_string())
        .with_default_task("B".to_string());
    let mut controller = ExecRunner::new(config);
    let mut tx: Vec<Record> = Vec::new();
    let mut meta: Vec<MetaMessage> = Vec::new();
    controller.init(&mut tx, &mut meta).unwrap();
    let names: Vec<String> = meta.iter().map(|m| m.task_info.name.clone()).collect();
    assert_eq!(names, vec!["A".to_string(), "B".to_string()]);
    assert!(meta.iter().all(|m| matches!(m.command, MetaCommand::SpawnTask)));
    assert!(meta.iter().all(|m| m.task_info.insta_spawn));
    assert_eq!(tx.len(), 1);
    assert_eq!(tx[0].try_get_topic().unwrap(), "exec/stage");
}

#[test]
fn test_exec_runner_keeps_default_tasks() {
    // always-on tasks stay desired in every stage: a step in a stage
    // with no configured entry emits nothing for them, and a stage
    // change spawns its tasks without killing the always-on ones
    let config = ExecConfig::new()
        .with_default_task("A".to_string())
        .with_stage_tasks(ExecStage::AwaitingData, vec!["T1".to_string()]);
    let mut controller = ExecRunner::new(config);
    let mut tx: Vec<Record> = Vec::new();
    let mut meta: Vec<MetaMessage> = Vec::new();
    controller.init(&mut tx, &mut meta).unwrap();
    assert_eq!(meta.len(), 1);

    // still in AwaitConnection, which has no entry: nothing is killed
    let mut tx1: Vec<Record> = Vec::new();
    let mut meta1: Vec<MetaMessage> = Vec::new();
    controller.run(Vec::new(), &mut tx1, &mut meta1).unwrap();
    assert!(meta1.is_empty());

    // adopting a stage spawns its task and leaves the always-on one
    let s1 = publish(
        "exec/stage",
        ExecStageMessage::new(ExecStage::AwaitingData).to_value(),
    );
    let mut tx2: Vec<Record> = Vec::new();
    let mut meta2: Vec<MetaMessage> = Vec::new();
    controller.run(vec![s1], &mut tx2, &mut meta2).unwrap();
    let names: Vec<String> = meta2.iter().map(|m| m.task_info.name.clone()).collect();
    assert_eq!(names, vec!["T1".to_string()]);
    assert!(meta2.iter().all(|m| matches!(m.command, MetaCommand::SpawnTask)));
}
