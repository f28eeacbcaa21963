use pubsub::auto_stage::{AutoConfig, AutoRunner, AutoStage, AutoStageMessage,
    get_example_script_json};
use pubsub::builders::{PublishBuilder, RecordBuilder};
use pubsub::exec_stage::ExecStage;
use pubsub::info::{MetaCommand, MetaMessage};
use pubsub::json::JsonVal;
use pubsub::record::Record;
use pubsub::task::Task;
use pubsub::watchdogs::{decode_mode_flag, ExecTaskArmWatchdog, ExecTaskDataWatchdog,
    ExecTaskHealthWatchdog, ExecTaskLockWatchdog, ExecTaskWatchdog};

fn obj(fields: Vec<(&str, JsonVal)>) -> JsonVal {
    JsonVal::Obj(fields.into_iter().map(|(k, v)| (k.to_string(), v)).collect())
}

fn publish(topic: &str, value: JsonVal) -> Record {
    PublishBuilder::new(topic.to_string())
        .with_value_content(&value)
        .unwrap()
        .build()
}

#[test]
fn test_stage_names_round_trip() {
    for s in [
        ExecStage::AwaitConnection,
        ExecStage::AwaitingData,
        ExecStage::AwaitingHealthy,
        ExecStage::AwaitingLock,
        ExecStage::HealthyUnarmed,
        ExecStage::HealthyArmed,
        ExecStage::HealthyGuided,
        ExecStage::Unhealthy,
        ExecStage::Fatal,
    ] {
        assert_eq!(ExecStage::parse(s.name()), Some(s));
    }
    for s in [
        AutoStage::AutoShadow,
        AutoStage::AutoStart,
        AutoStage::AutoTakeoff,
        AutoStage::AutoHover,
        AutoStage::AutoGuided,
        AutoStage::AutoLand,
    ] {
        assert_eq!(AutoStage::parse(s.name()), Some(s));
    }
    assert_eq!(ExecStage::parse("NotAStage"), None);
}

#[test]
fn test_auto_runner_script_task() {
    // in the start stage the script task joins the desired set
    let config = AutoConfig::new()
        .with_stage_tasks(AutoStage::AutoStart, vec!["Mission".to_string()])
        .with_script_task("Script".to_string());
    let mut controller = AutoRunner::new(config);

    let update = publish(
        "auto/stage",
        AutoStageMessage::new(AutoStage::AutoStart).to_value(),
    );
    let mut tx: Vec<Record> = Vec::new();
    let mut meta: Vec<MetaMessage> = Vec::new();
    controller.run(vec![update], &mut tx, &mut meta).unwrap();

    let spawned: Vec<String> = meta
        .iter()
        .filter(|m| matches!(m.command, MetaCommand::SpawnTask))
        .map(|m| m.task_info.name.clone())
        .collect();
    assert_eq!(spawned, vec!["Mission".to_string(), "Script".to_string()]);
    assert_eq!(controller.stage, AutoStage::AutoStart);
}

#[test]
fn test_decode_mode_flag_bits() {
    let all = decode_mode_flag(0xFF);
    assert!(all.custom_mode_enabled);
    assert!(all.safety_armed);
    let armed_only = decode_mode_flag(128);
    assert!(armed_only.safety_armed);
    assert!(!armed_only.guided_enabled);
    let guided = decode_mode_flag(8);
    assert!(guided.guided_enabled);
    assert!(!guided.safety_armed);
}

#[test]
fn test_connection_watchdog_promotes() {
    let mut dog = ExecTaskWatchdog::new();
    let mut tx: Vec<Record> = Vec::new();
    let mut meta: Vec<MetaMessage> = Vec::new();
    let up = publish("mavlink/connected", obj(vec![("connected", JsonVal::Bool(true))]));
    dog.run(vec![up], &mut tx, &mut meta).unwrap();
    assert!(dog.connection_detected);
    assert_eq!(tx.len(), 1);
    assert_eq!(tx[0].try_get_topic().unwrap(), "exec/stage");
    let rows = tx[0].to_values().unwrap();
    assert_eq!(
        rows[0],
        obj(vec![("stage", JsonVal::Text("AwaitingData".to_string()))])
    );
}

#[test]
fn test_data_watchdog_promotes_once() {
    let mut dog = ExecTaskDataWatchdog::new();
    let mut tx: Vec<Record> = Vec::new();
    let mut meta: Vec<MetaMessage> = Vec::new();
    let status = publish("mavlink/sys_status", obj(vec![("errors_comm", JsonVal::Int(0))]));
    dog.run(vec![status.clone()], &mut tx, &mut meta).unwrap();
    assert!(dog.data_received);
    assert_eq!(tx.len(), 1);

    let mut tx2: Vec<Record> = Vec::new();
    dog.run(vec![status], &mut tx2, &mut meta).unwrap();
    assert_eq!(tx2.len(), 0);
}

#[test]
fn test_arm_watchdog() {
    let mut dog = ExecTaskArmWatchdog::new();
    let mut tx: Vec<Record> = Vec::new();
    dog.handle_armed_status(false, &mut tx);
    assert!(!dog.is_armed);
    assert_eq!(tx.len(), 0);
    dog.handle_armed_status(true, &mut tx);
    assert!(dog.is_armed);
    assert_eq!(tx.len(), 1);
    let rows = tx[0].to_values().unwrap();
    assert_eq!(
        rows[0],
        obj(vec![("stage", JsonVal::Text("HealthyArmed".to_string()))])
    );
}

#[test]
fn test_health_checks() {
    let dog = ExecTaskHealthWatchdog::new();
    assert!(dog.check_ekf_health(35));
    assert!(dog.check_ekf_health(0xFF));
    assert!(!dog.check_ekf_health(3));
    assert!(dog.check_system_health(0, -1));
    assert!(dog.check_system_health(99, 50));
    assert!(!dog.check_system_health(100, 50));
    assert!(!dog.check_system_health(0, 10));

    let lock = ExecTaskLockWatchdog::new();
    assert!(lock.check_ekf_lock(3 | 8));
    assert!(lock.check_ekf_lock(3 | 16));
    assert!(!lock.check_ekf_lock(3));
    assert!(!lock.check_ekf_lock(8));
}

#[test]
fn test_example_script_is_nonempty() {
    assert!(!get_example_script_json().is_empty());
}
