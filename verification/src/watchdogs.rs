//! The domain watchdog tasks that drive the execution stage machine:
//! they watch transport-derived topics and publish stage promotions, or
//! send periodic commands toward the transport.

use vstd::prelude::*;
use crate::auto_stage::{AutoStage, AutoStageMessage};
use crate::builders::{publish_value, subscribe_to};
use crate::clock::{elapsed_millis, instant_now};
use crate::exec_stage::{ExecStage, publish_exec_stage};
use crate::info::{MetaMessage, TaskInfo};
use crate::json::JsonVal;
use crate::record::{Record, RecordError};
use crate::stage_control::obj_field;
use crate::task::{Task, all_wf, push_record};
use crate::text::str_eq;

verus! {

/// Transport connection state as published on `mavlink/connected`.
pub struct ConnectionStatus {
    pub connected: bool,
}

/// A reprocessed heartbeat bit as published on
/// `mavlink/reproc/heartbeat_armed`.
pub struct HeartbeatFlag {
    pub value: bool,
}

/// A raw transport message as republished on `mavlink/<type>`.
pub struct MavlinkMessageWrapper {
    /// The message body as its textual encoding.
    pub message: String,
    /// The message kind.
    pub message_type: String,
}

/// A status text as republished on `mavlink/reproc/statustext`.
pub struct StatusTextMessage {
    pub text: String,
    pub severity: u8,
}

/// The autopilot mode bits of a heartbeat's base mode.
pub struct AutopilotStatus {
    pub custom_mode_enabled: bool,
    pub test_enabled: bool,
    pub auto_enabled: bool,
    pub guided_enabled: bool,
    pub stabilize_enabled: bool,
    pub hil_enabled: bool,
    pub manual_input_enabled: bool,
    pub safety_armed: bool,
}

/// Decode a heartbeat's base-mode bit field into its named flags.
pub fn decode_mode_flag(base_mode: u8) -> (r: AutopilotStatus)
    ensures
        r.custom_mode_enabled == (base_mode & 1 == 1),
        r.test_enabled == (base_mode & 2 == 2),
        r.auto_enabled == (base_mode & 4 == 4),
        r.guided_enabled == (base_mode & 8 == 8),
        r.stabilize_enabled == (base_mode & 16 == 16),
        r.hil_enabled == (base_mode & 32 == 32),
        r.manual_input_enabled == (base_mode & 64 == 64),
        r.safety_armed == (base_mode & 128 == 128),
{
    AutopilotStatus {
        custom_mode_enabled: base_mode & 1 == 1,
        test_enabled: base_mode & 2 == 2,
        auto_enabled: base_mode & 4 == 4,
        guided_enabled: base_mode & 8 == 8,
        stabilize_enabled: base_mode & 16 == 16,
        hil_enabled: base_mode & 32 == 32,
        manual_input_enabled: base_mode & 64 == 64,
        safety_armed: base_mode & 128 == 128,
    }
}

/// The boolean field `name` of a record's first row, if present.
pub(crate) fn first_row_bool(rec: &Record, name: &str) -> (r: Option<bool>)
    requires
        rec@.wf(),
{
    let rows = match rec.to_values() {
        Ok(v) => v,
        Err(_) => {
            return None;
        },
    };
    if rows.len() == 0 {
        return None;
    }
    match obj_field(&rows[0], name) {
        Some(JsonVal::Bool(b)) => Some(*b),
        _ => None,
    }
}

/// The integer field `name` of a row object, if present.
pub(crate) fn row_int(row: &JsonVal, name: &str) -> (r: Option<i64>) {
    match obj_field(row, name) {
        Some(JsonVal::Int(v)) => Some(*v),
        _ => None,
    }
}

/// Whether a record's topic equals `name`.
pub(crate) fn topic_is(rec: &Record, name: &str) -> (r: bool) {
    match rec.try_get_topic() {
        Ok(t) => str_eq(t.as_str(), name),
        Err(_) => false,
    }
}

/// Watches `mavlink/connected` and promotes the execution stage to
/// `AwaitingData` on connection, or back to `AwaitConnection` on loss.
pub struct ExecTaskWatchdog {
    pub info: TaskInfo,
    pub connection_detected: bool,
}

impl ExecTaskWatchdog {
    /// A fresh watchdog that has seen no connection.
    pub fn new() -> (r: ExecTaskWatchdog)
        ensures
            !r.connection_detected,
    {
        ExecTaskWatchdog { info: TaskInfo::new("ExecTaskWatchdog"), connection_detected: false }
    }
}

impl Task for ExecTaskWatchdog {
    fn init(&mut self, tx: &mut Vec<Record>, _meta_tx: &mut Vec<MetaMessage>) -> (r: Result<
        (),
        RecordError,
    >) {
        push_record(tx, subscribe_to("mavlink/connected"));
        Ok(())
    }

    fn should_run(&self) -> Result<bool, RecordError> {
        Ok(true)
    }

    fn run(
        &mut self,
        inputs: Vec<Record>,
        tx: &mut Vec<Record>,
        _meta_tx: &mut Vec<MetaMessage>,
    ) -> (r: Result<(), RecordError>) {
        let mut i: usize = 0;
        while i < inputs.len()
            invariant
                all_wf(inputs@),
                all_wf(tx@),
                i <= inputs@.len(),
            decreases inputs@.len() - i,
        {
            proof {
                assert((#[trigger] inputs@[i as int])@.wf());
            }
            if topic_is(&inputs[i], "mavlink/connected") {
                match first_row_bool(&inputs[i], "connected") {
                    Some(true) => {
                        if !self.connection_detected {
                            self.connection_detected = true;
                            publish_exec_stage(tx, "exec/stage", ExecStage::AwaitingData);
                        }
                    },
                    Some(false) => {
                        if self.connection_detected {
                            self.connection_detected = false;
                            publish_exec_stage(tx, "exec/stage", ExecStage::AwaitConnection);
                        }
                    },
                    None => {},
                }
            }
            i = i + 1;
        }
        Ok(())
    }

    fn cleanup(&mut self) -> Result<(), RecordError> {
        Ok(())
    }

    fn get_task_info(&self) -> &TaskInfo {
        &self.info
    }
}

/// Watches `mavlink/sys_status` and promotes the execution stage to
/// `AwaitingHealthy` once any system-status data arrives.
pub struct ExecTaskDataWatchdog {
    pub info: TaskInfo,
    pub data_received: bool,
}

impl ExecTaskDataWatchdog {
    /// A fresh watchdog that has seen no data.
    pub fn new() -> (r: ExecTaskDataWatchdog)
        ensures
            !r.data_received,
    {
        ExecTaskDataWatchdog { info: TaskInfo::new("ExecTaskDataWatchdog"), data_received: false }
    }
}

impl Task for ExecTaskDataWatchdog {
    fn init(&mut self, tx: &mut Vec<Record>, _meta_tx: &mut Vec<MetaMessage>) -> (r: Result<
        (),
        RecordError,
    >) {
        push_record(tx, subscribe_to("mavlink/sys_status"));
        Ok(())
    }

    fn should_run(&self) -> Result<bool, RecordError> {
        Ok(true)
    }

    fn run(
        &mut self,
        inputs: Vec<Record>,
        tx: &mut Vec<Record>,
        _meta_tx: &mut Vec<MetaMessage>,
    ) -> (r: Result<(), RecordError>) {
        if self.data_received {
            return Ok(());
        }
        let mut i: usize = 0;
        while i < inputs.len()
            invariant
                all_wf(inputs@),
                all_wf(tx@),
                i <= inputs@.len(),
            decreases inputs@.len() - i,
        {
            proof {
                assert((#[trigger] inputs@[i as int])@.wf());
            }
            if topic_is(&inputs[i], "mavlink/sys_status") && !self.data_received {
                self.data_received = true;
                publish_exec_stage(tx, "exec/stage", ExecStage::AwaitingHealthy);
                return Ok(());
            }
            i = i + 1;
        }
        Ok(())
    }

    fn cleanup(&mut self) -> Result<(), RecordError> {
        Ok(())
    }

    fn get_task_info(&self) -> &TaskInfo {
        &self.info
    }
}

/// Watches the reprocessed armed bit and promotes the execution stage to
/// `HealthyArmed` once the vehicle arms.
pub struct ExecTaskArmWatchdog {
    pub info: TaskInfo,
    pub is_armed: bool,
}

impl ExecTaskArmWatchdog {
    /// A fresh watchdog that has seen the vehicle disarmed.
    pub fn new() -> (r: ExecTaskArmWatchdog)
        ensures
            !r.is_armed,
            r.info.name@ == "ExecArmWatchdog"@,
            r.info.id == crate::info::name_hash("ExecArmWatchdog"@),
            !r.info.insta_spawn,
    {
        ExecTaskArmWatchdog { info: TaskInfo::new("ExecArmWatchdog"), is_armed: false }
    }

    /// Adopt an armed-bit report: on arming, mark it and publish
    /// exactly one promotion record to `HealthyArmed` on the stage
    /// topic; a disarmed report changes and emits nothing.
    pub fn handle_armed_status(&mut self, is_armed: bool, tx: &mut Vec<Record>)
        requires
            all_wf(old(tx)@),
        ensures
            all_wf(final(tx)@),
            final(self).is_armed == (old(self).is_armed || is_armed),
            final(self).info == old(self).info,
            !is_armed ==> final(tx)@ == old(tx)@ && *final(self) == *old(self),
            is_armed ==> final(tx)@.len() == old(tx)@.len() + 1
                && (forall|i: int| 0 <= i < old(tx)@.len()
                    ==> #[trigger] final(tx)@[i] == old(tx)@[i])
                && crate::record::flag_of(final(tx)@.last()@)
                    == Some(crate::record::RecordFlag::PublishPacket)
                && crate::record::topic_of(final(tx)@.last()@) == Some("exec/stage"@)
                && final(tx)@.last()@.schema == seq![
                    (crate::json::GField { name: "stage"@, ty: crate::json::GTy::Text }),
                ]
                && final(tx)@.last()@.rows == seq![
                    seq![crate::json::GVal::Text(ExecStage::HealthyArmed.spec_name())],
                ],
    {
        if is_armed {
            self.is_armed = true;
            publish_exec_stage(tx, "exec/stage", ExecStage::HealthyArmed);
        }
    }
}

impl Task for ExecTaskArmWatchdog {
    fn init(&mut self, tx: &mut Vec<Record>, _meta_tx: &mut Vec<MetaMessage>) -> (r: Result<
        (),
        RecordError,
    >) {
        push_record(tx, subscribe_to("mavlink/reproc/heartbeat_armed"));
        Ok(())
    }

    fn should_run(&self) -> Result<bool, RecordError> {
        Ok(true)
    }

    fn run(
        &mut self,
        inputs: Vec<Record>,
        tx: &mut Vec<Record>,
        _meta_tx: &mut Vec<MetaMessage>,
    ) -> (r: Result<(), RecordError>) {
        let mut i: usize = 0;
        while i < inputs.len()
            invariant
                all_wf(inputs@),
                all_wf(tx@),
                i <= inputs@.len(),
            decreases inputs@.len() - i,
        {
            proof {
                assert((#[trigger] inputs@[i as int])@.wf());
            }
            let is_armed_topic = match inputs[i].try_get_topic() {
                Ok(t) => crate::text::str_contains(t.as_str(), "mavlink/reproc/heartbeat_armed"),
                Err(_) => false,
            };
            if is_armed_topic {
                match first_row_bool(&inputs[i], "value") {
                    Some(b) => {
                        self.handle_armed_status(b, tx);
                    },
                    None => {},
                }
            }
            i = i + 1;
        }
        Ok(())
    }

    fn cleanup(&mut self) -> Result<(), RecordError> {
        Ok(())
    }

    fn get_task_info(&self) -> &TaskInfo {
        &self.info
    }
}

} // verus!

verus! {

/// The flag bits a healthy filter must report: attitude, horizontal
/// velocity and absolute vertical position.
pub const EKF_HEALTH_FLAGS: u32 = 35;

/// Attitude and horizontal-velocity bits.
pub const EKF_ATT_VEL_FLAGS: u32 = 3;

/// Relative and absolute horizontal-position bits.
pub const EKF_HORIZ_POS_FLAGS: u32 = 24;

/// Watches filter and system status and promotes the execution stage to
/// `AwaitingLock` once both report healthy.
pub struct ExecTaskHealthWatchdog {
    pub info: TaskInfo,
    pub is_healthy: bool,
    pub last_check_time: std::time::Instant,
    pub check_interval_millis: u64,
    pub has_ekf_data: bool,
    pub has_sys_status_data: bool,
    pub ekf_healthy: bool,
    pub system_healthy: bool,
}

impl ExecTaskHealthWatchdog {
    /// A fresh watchdog that has seen no data, polling twice a second.
    pub fn new() -> (r: ExecTaskHealthWatchdog)
        ensures
            !r.is_healthy,
            !r.has_ekf_data,
            !r.has_sys_status_data,
    {
        ExecTaskHealthWatchdog {
            info: TaskInfo::new("ExecTaskHealthWatchdog"),
            is_healthy: false,
            last_check_time: instant_now(),
            check_interval_millis: 500,
            has_ekf_data: false,
            has_sys_status_data: false,
            ekf_healthy: false,
            system_healthy: false,
        }
    }

    /// Whether a filter report is healthy: all required bits set.
    pub fn check_ekf_health(&self, flags: u32) -> (r: bool)
        ensures
            r == (flags & EKF_HEALTH_FLAGS == EKF_HEALTH_FLAGS),
    {
        flags & EKF_HEALTH_FLAGS == EKF_HEALTH_FLAGS
    }

    /// Whether a system report is healthy: few communication errors, and
    /// a battery that is unreported or above a fifth.
    pub fn check_system_health(&self, errors_comm: i64, battery_remaining: i64) -> (r: bool)
        ensures
            r == (errors_comm < 100 && (battery_remaining == -1 || battery_remaining > 20)),
    {
        errors_comm < 100 && (battery_remaining == -1 || battery_remaining > 20)
    }
}

impl Task for ExecTaskHealthWatchdog {
    fn init(&mut self, tx: &mut Vec<Record>, _meta_tx: &mut Vec<MetaMessage>) -> (r: Result<
        (),
        RecordError,
    >) {
        push_record(tx, subscribe_to("mavlink/ekf_status_report"));
        push_record(tx, subscribe_to("mavlink/sys_status"));
        Ok(())
    }

    fn should_run(&self) -> Result<bool, RecordError> {
        Ok(!self.is_healthy || elapsed_millis(&self.last_check_time) >= self.check_interval_millis)
    }

    fn run(
        &mut self,
        inputs: Vec<Record>,
        tx: &mut Vec<Record>,
        _meta_tx: &mut Vec<MetaMessage>,
    ) -> (r: Result<(), RecordError>) {
        self.last_check_time = instant_now();
        let mut i: usize = 0;
        while i < inputs.len()
            invariant
                all_wf(inputs@),
                i <= inputs@.len(),
            decreases inputs@.len() - i,
        {
            proof {
                assert((#[trigger] inputs@[i as int])@.wf());
            }
            if topic_is(&inputs[i], "mavlink/ekf_status_report") {
                match inputs[i].to_values() {
                    Ok(rows) => {
                        let mut k: usize = 0;
                        while k < rows.len()
                            decreases rows@.len() - k,
                        {
                            match row_int(&rows[k], "flags") {
                                Some(f) => {
                                    self.has_ekf_data = true;
                                    let flags: u32 = if 0 <= f && f <= u32::MAX as i64 {
                                        f as u32
                                    } else {
                                        0
                                    };
                                    self.ekf_healthy = self.check_ekf_health(flags);
                                },
                                None => {},
                            }
                            k = k + 1;
                        }
                    },
                    Err(_) => {},
                }
            }
            if topic_is(&inputs[i], "mavlink/sys_status") {
                match inputs[i].to_values() {
                    Ok(rows) => {
                        let mut k: usize = 0;
                        while k < rows.len()
                            decreases rows@.len() - k,
                        {
                            let errors = row_int(&rows[k], "errors_comm");
                            let battery = row_int(&rows[k], "battery_remaining");
                            match (errors, battery) {
                                (Some(e), Some(b)) => {
                                    self.has_sys_status_data = true;
                                    self.system_healthy = self.check_system_health(e, b);
                                },
                                _ => {},
                            }
                            k = k + 1;
                        }
                    },
                    Err(_) => {},
                }
            }
            i = i + 1;
        }
        if self.has_ekf_data && self.has_sys_status_data {
            let all_healthy = self.ekf_healthy && self.system_healthy;
            if all_healthy && !self.is_healthy {
                self.is_healthy = true;
                publish_exec_stage(tx, "exec/stage", ExecStage::AwaitingLock);
            } else if !all_healthy && self.is_healthy {
                self.is_healthy = false;
            }
        }
        Ok(())
    }

    fn cleanup(&mut self) -> Result<(), RecordError> {
        Ok(())
    }

    fn get_task_info(&self) -> &TaskInfo {
        &self.info
    }
}

/// Watches the filter's position lock and promotes the execution stage
/// to `HealthyUnarmed` once lock is achieved.
pub struct ExecTaskLockWatchdog {
    pub info: TaskInfo,
    pub has_lock: bool,
    pub last_check_time: std::time::Instant,
    pub check_interval_millis: u64,
    pub has_ekf_data: bool,
}

impl ExecTaskLockWatchdog {
    /// A fresh watchdog without lock, polling twice a second.
    pub fn new() -> (r: ExecTaskLockWatchdog)
        ensures
            !r.has_lock,
            !r.has_ekf_data,
    {
        ExecTaskLockWatchdog {
            info: TaskInfo::new("ExecTaskLockWatchdog"),
            has_lock: false,
            last_check_time: instant_now(),
            check_interval_millis: 500,
            has_ekf_data: false,
        }
    }

    /// Whether a filter report shows position lock: attitude and
    /// horizontal velocity, plus some horizontal position bit.
    pub fn check_ekf_lock(&self, flags: u32) -> (r: bool)
        ensures
            r == (flags & EKF_ATT_VEL_FLAGS == EKF_ATT_VEL_FLAGS
                && flags & EKF_HORIZ_POS_FLAGS != 0),
    {
        flags & EKF_ATT_VEL_FLAGS == EKF_ATT_VEL_FLAGS && flags & EKF_HORIZ_POS_FLAGS != 0
    }
}

impl Task for ExecTaskLockWatchdog {
    fn init(&mut self, tx: &mut Vec<Record>, _meta_tx: &mut Vec<MetaMessage>) -> (r: Result<
        (),
        RecordError,
    >) {
        push_record(tx, subscribe_to("mavlink/ekf_status_report"));
        Ok(())
    }

    fn should_run(&self) -> Result<bool, RecordError> {
        Ok(!self.has_lock || elapsed_millis(&self.last_check_time) >= self.check_interval_millis)
    }

    fn run(
        &mut self,
        inputs: Vec<Record>,
        tx: &mut Vec<Record>,
        _meta_tx: &mut Vec<MetaMessage>,
    ) -> (r: Result<(), RecordError>) {
        self.last_check_time = instant_now();
        let mut i: usize = 0;
        while i < inputs.len()
            invariant
                all_wf(inputs@),
                all_wf(tx@),
                i <= inputs@.len(),
            decreases inputs@.len() - i,
        {
            proof {
                assert((#[trigger] inputs@[i as int])@.wf());
            }
            if topic_is(&inputs[i], "mavlink/ekf_status_report") {
                match inputs[i].to_values() {
                    Ok(rows) => {
                        let mut k: usize = 0;
                        while k < rows.len()
                            invariant
                                all_wf(tx@),
                            decreases rows@.len() - k,
                        {
                            match row_int(&rows[k], "flags") {
                                Some(f) => {
                                    self.has_ekf_data = true;
                                    let flags: u32 = if 0 <= f && f <= u32::MAX as i64 {
                                        f as u32
                                    } else {
                                        0
                                    };
                                    let locked = self.check_ekf_lock(flags);
                                    if locked && !self.has_lock {
                                        self.has_lock = true;
                                        publish_exec_stage(tx, "exec/stage",
                                            ExecStage::HealthyUnarmed);
                                    } else if !locked && self.has_lock {
                                        self.has_lock = false;
                                    }
                                },
                                None => {},
                            }
                            k = k + 1;
                        }
                    },
                    Err(_) => {},
                }
            }
            i = i + 1;
        }
        Ok(())
    }

    fn cleanup(&mut self) -> Result<(), RecordError> {
        Ok(())
    }

    fn get_task_info(&self) -> &TaskInfo {
        &self.info
    }
}

} // verus!

verus! {

/// A heartbeat as sent toward the transport on `mavlink/send/heartbeat`.
pub struct HeartbeatMessage {
    pub custom_mode: u32,
    pub mavtype: u8,
    pub autopilot: u8,
    pub base_mode: u8,
    pub system_status: u8,
    pub mavlink_version: u8,
}

impl HeartbeatMessage {
    /// The heartbeat as a row value.
    pub fn to_value(&self) -> (r: JsonVal) {
        let mut fields: Vec<(String, JsonVal)> = Vec::new();
        fields.push((String::from_str("custom_mode"), JsonVal::Int(self.custom_mode as i64)));
        fields.push((String::from_str("mavtype"), JsonVal::Int(self.mavtype as i64)));
        fields.push((String::from_str("autopilot"), JsonVal::Int(self.autopilot as i64)));
        fields.push((String::from_str("base_mode"), JsonVal::Int(self.base_mode as i64)));
        fields.push((String::from_str("system_status"), JsonVal::Int(self.system_status as i64)));
        fields.push((
            String::from_str("mavlink_version"),
            JsonVal::Int(self.mavlink_version as i64),
        ));
        JsonVal::Obj(fields)
    }
}

/// Sends a heartbeat toward the transport once a second.
pub struct ExecTaskHeartbeat {
    pub info: TaskInfo,
    pub last_heartbeat_time: std::time::Instant,
    pub heartbeat_interval_millis: u64,
}

impl ExecTaskHeartbeat {
    /// A heartbeat sender at one-second pace.
    pub fn new() -> (r: ExecTaskHeartbeat)
        ensures
            r.heartbeat_interval_millis == 1000,
    {
        ExecTaskHeartbeat {
            info: TaskInfo::new("ExecHeartbeatTask"),
            last_heartbeat_time: instant_now(),
            heartbeat_interval_millis: 1000,
        }
    }
}

impl Task for ExecTaskHeartbeat {
    fn init(&mut self, _tx: &mut Vec<Record>, _meta_tx: &mut Vec<MetaMessage>) -> (r: Result<
        (),
        RecordError,
    >) {
        self.last_heartbeat_time = instant_now();
        Ok(())
    }

    fn should_run(&self) -> Result<bool, RecordError> {
        Ok(elapsed_millis(&self.last_heartbeat_time) >= self.heartbeat_interval_millis)
    }

    fn run(
        &mut self,
        _inputs: Vec<Record>,
        tx: &mut Vec<Record>,
        _meta_tx: &mut Vec<MetaMessage>,
    ) -> (r: Result<(), RecordError>) {
        let heartbeat = HeartbeatMessage {
            custom_mode: 0,
            mavtype: 6,
            autopilot: 8,
            base_mode: 0,
            system_status: 4,
            mavlink_version: 3,
        };
        match publish_value("mavlink/send/heartbeat", &heartbeat.to_value()) {
            Ok(rec) => {
                push_record(tx, rec);
            },
            Err(_) => {},
        }
        self.last_heartbeat_time = instant_now();
        Ok(())
    }

    fn cleanup(&mut self) -> Result<(), RecordError> {
        Ok(())
    }

    fn get_task_info(&self) -> &TaskInfo {
        &self.info
    }
}

/// Sends the arm command toward the transport, retrying a few times.
pub struct ExecTaskSendArm {
    pub info: TaskInfo,
    pub command_sent: bool,
    pub last_attempt_time: std::time::Instant,
    pub retry_interval_millis: u64,
    pub max_attempts: u32,
    pub attempt_count: u32,
}

impl ExecTaskSendArm {
    /// An arm sender: five attempts, two seconds apart.
    pub fn new() -> (r: ExecTaskSendArm)
        ensures
            !r.command_sent,
            r.max_attempts == 5,
            r.attempt_count == 0,
            r.retry_interval_millis == 2000,
    {
        ExecTaskSendArm {
            info: TaskInfo::new("ExecTaskSendArm"),
            command_sent: false,
            last_attempt_time: instant_now(),
            retry_interval_millis: 2000,
            max_attempts: 5,
            attempt_count: 0,
        }
    }

    /// The arm command as a row value: component arm with the force code,
    /// parameters carried as their textual numbers.
    pub fn build_arm_message(&self) -> (r: JsonVal) {
        let mut fields: Vec<(String, JsonVal)> = Vec::new();
        fields.push((String::from_str("command"), JsonVal::Text(
            String::from_str("MAV_CMD_COMPONENT_ARM_DISARM"),
        )));
        fields.push((String::from_str("param1"), JsonVal::Real(String::from_str("1.0"))));
        fields.push((String::from_str("param2"), JsonVal::Real(String::from_str("21196.0"))));
        fields.push((String::from_str("target_system"), JsonVal::Int(0)));
        fields.push((String::from_str("target_component"), JsonVal::Int(0)));
        fields.push((String::from_str("confirmation"), JsonVal::Int(0)));
        JsonVal::Obj(fields)
    }
}

impl Task for ExecTaskSendArm {
    fn init(&mut self, _tx: &mut Vec<Record>, _meta_tx: &mut Vec<MetaMessage>) -> (r: Result<
        (),
        RecordError,
    >) {
        self.command_sent = false;
        self.attempt_count = 0;
        self.last_attempt_time = instant_now();
        Ok(())
    }

    fn should_run(&self) -> Result<bool, RecordError> {
        Ok(!self.command_sent && self.attempt_count < self.max_attempts
            && elapsed_millis(&self.last_attempt_time) >= self.retry_interval_millis)
    }

    fn run(
        &mut self,
        _inputs: Vec<Record>,
        tx: &mut Vec<Record>,
        _meta_tx: &mut Vec<MetaMessage>,
    ) -> (r: Result<(), RecordError>) {
        if self.attempt_count < u32::MAX {
            self.attempt_count = self.attempt_count + 1;
        }
        self.last_attempt_time = instant_now();
        let arm = self.build_arm_message();
        match publish_value("mavlink/send/command", &arm) {
            Ok(rec) => {
                push_record(tx, rec);
            },
            Err(_) => {},
        }
        if self.attempt_count >= self.max_attempts {
            self.command_sent = true;
        }
        Ok(())
    }

    fn cleanup(&mut self) -> Result<(), RecordError> {
        Ok(())
    }

    fn get_task_info(&self) -> &TaskInfo {
        &self.info
    }
}

/// Kicks the autonomy machine out of shadow mode by publishing the start
/// stage while shadow is still observed.
pub struct ExecTaskStartAuto {
    pub info: TaskInfo,
    pub auto_stage: AutoStage,
}

impl ExecTaskStartAuto {
    /// A starter that has seen only shadow mode.
    pub fn new() -> (r: ExecTaskStartAuto)
        ensures
            r.auto_stage == AutoStage::AutoShadow,
    {
        ExecTaskStartAuto { info: TaskInfo::new("ExecTaskStartAuto"), auto_stage: AutoStage::AutoShadow }
    }
}

impl Task for ExecTaskStartAuto {
    fn init(&mut self, tx: &mut Vec<Record>, _meta_tx: &mut Vec<MetaMessage>) -> (r: Result<
        (),
        RecordError,
    >) {
        push_record(tx, subscribe_to("auto/stage"));
        Ok(())
    }

    fn should_run(&self) -> Result<bool, RecordError> {
        Ok(true)
    }

    fn run(
        &mut self,
        inputs: Vec<Record>,
        tx: &mut Vec<Record>,
        _meta_tx: &mut Vec<MetaMessage>,
    ) -> (r: Result<(), RecordError>) {
        let mut i: usize = 0;
        while i < inputs.len()
            invariant
                all_wf(inputs@),
                all_wf(tx@),
                i <= inputs@.len(),
            decreases inputs@.len() - i,
        {
            proof {
                assert((#[trigger] inputs@[i as int])@.wf());
            }
            if topic_is(&inputs[i], "auto/stage") {
                let texts = crate::stage_control::stage_texts(&inputs[i]);
                let mut k: usize = 0;
                while k < texts.len()
                    decreases texts@.len() - k,
                {
                    match AutoStage::parse(texts[k].as_str()) {
                        Some(s) => {
                            self.auto_stage = s;
                        },
                        None => {},
                    }
                    k = k + 1;
                }
            }
            i = i + 1;
        }
        match self.auto_stage {
            AutoStage::AutoShadow => {
                let msg = AutoStageMessage::new(AutoStage::AutoStart);
                match publish_value("auto/stage", &msg.to_value()) {
                    Ok(rec) => {
                        push_record(tx, rec);
                    },
                    Err(_) => {},
                }
            },
            _ => {},
        }
        Ok(())
    }

    fn cleanup(&mut self) -> Result<(), RecordError> {
        Ok(())
    }

    fn get_task_info(&self) -> &TaskInfo {
        &self.info
    }
}

/// Asks the transport, once, to enable its data streams.
pub struct ExecTaskRequestStream {
    pub info: TaskInfo,
    pub has_run: bool,
}

impl ExecTaskRequestStream {
    /// A fresh request sender.
    pub fn new() -> (r: ExecTaskRequestStream)
        ensures
            !r.has_run,
    {
        ExecTaskRequestStream { info: TaskInfo::new("ExecRequestStreamTask"), has_run: false }
    }

    /// The stream request as a row value: all streams, twenty a second.
    pub fn build_request_stream() -> (r: JsonVal) {
        let mut fields: Vec<(String, JsonVal)> = Vec::new();
        fields.push((String::from_str("target_system"), JsonVal::Int(0)));
        fields.push((String::from_str("target_component"), JsonVal::Int(0)));
        fields.push((String::from_str("req_stream_id"), JsonVal::Int(0)));
        fields.push((String::from_str("req_message_rate"), JsonVal::Int(20)));
        fields.push((String::from_str("start_stop"), JsonVal::Int(1)));
        JsonVal::Obj(fields)
    }
}

impl Task for ExecTaskRequestStream {
    fn init(&mut self, _tx: &mut Vec<Record>, _meta_tx: &mut Vec<MetaMessage>) -> (r: Result<
        (),
        RecordError,
    >) {
        Ok(())
    }

    fn should_run(&self) -> Result<bool, RecordError> {
        Ok(!self.has_run)
    }

    fn run(
        &mut self,
        _inputs: Vec<Record>,
        tx: &mut Vec<Record>,
        _meta_tx: &mut Vec<MetaMessage>,
    ) -> (r: Result<(), RecordError>) {
        self.has_run = true;
        let req = Self::build_request_stream();
        match publish_value("mavlink/send/request_data_stream", &req) {
            Ok(rec) => {
                push_record(tx, rec);
            },
            Err(_) => {},
        }
        Ok(())
    }

    fn cleanup(&mut self) -> Result<(), RecordError> {
        Ok(())
    }

    fn get_task_info(&self) -> &TaskInfo {
        &self.info
    }
}

/// An idle execution task: it holds an identity and takes no action on
/// its ticks.
pub struct ExecTask {
    pub info: TaskInfo,
}

impl ExecTask {
    /// An idle task under the execution supervisor's name space.
    pub fn new() -> (r: ExecTask)
        ensures
            r.info.insta_spawn,
    {
        ExecTask { info: TaskInfo::new("ExecTask").with_insta_spawn() }
    }
}

impl Task for ExecTask {
    fn init(&mut self, _tx: &mut Vec<Record>, _meta_tx: &mut Vec<MetaMessage>) -> (r: Result<
        (),
        RecordError,
    >) {
        Ok(())
    }

    fn should_run(&self) -> Result<bool, RecordError> {
        Ok(true)
    }

    fn run(
        &mut self,
        _inputs: Vec<Record>,
        _tx: &mut Vec<Record>,
        _meta_tx: &mut Vec<MetaMessage>,
    ) -> (r: Result<(), RecordError>) {
        Ok(())
    }

    fn cleanup(&mut self) -> Result<(), RecordError> {
        Ok(())
    }

    fn get_task_info(&self) -> &TaskInfo {
        &self.info
    }
}

} // verus!
