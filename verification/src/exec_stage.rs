//! The low-level execution stage machine: the stage enumeration, the
//! message that carries stage updates, the stage-to-task configuration,
//! and the supervisor task that reconciles the running set to the stage.

use vstd::prelude::*;
use crate::builders::{publish_value, subscribe_to};
use crate::info::{MetaCommand, MetaMessage, TaskInfo};
use crate::json::JsonVal;
use crate::record::{Record, RecordError};
use crate::stage_control::{clone_names, info_pairs, info_pairs_names, kill_fold, missing_names,
    names_contain, names_view, reconcile_tasks, remove_first_id_pairs, remove_info_by_id,
    row_objs, spawn_pairs, stage_texts, stage_texts_vals, stale_pairs};
use crate::task::{Task, all_wf, push_record};
use crate::text::{str_eq, str_starts_with};

verus! {

/// The stages of bringing the vehicle to guided flight.
#[derive(Debug, Clone, Copy, PartialEq, Eq, Hash, Structural)]
pub enum ExecStage {
    /// Waiting for the transport connection.
    AwaitConnection,
    /// Waiting for data streams.
    AwaitingData,
    /// Waiting for health checks to pass.
    AwaitingHealthy,
    /// Waiting for position lock.
    AwaitingLock,
    /// Healthy but not armed.
    HealthyUnarmed,
    /// Healthy and armed.
    HealthyArmed,
    /// Healthy, armed and in guided mode.
    HealthyGuided,
    /// Unhealthy but recoverable.
    Unhealthy,
    /// Unrecoverable.
    Fatal,
}

impl ExecStage {
    /// The name the stage travels under in stage messages.
    pub open spec fn spec_name(self) -> Seq<char> {
        match self {
            ExecStage::AwaitConnection => "AwaitConnection"@,
            ExecStage::AwaitingData => "AwaitingData"@,
            ExecStage::AwaitingHealthy => "AwaitingHealthy"@,
            ExecStage::AwaitingLock => "AwaitingLock"@,
            ExecStage::HealthyUnarmed => "HealthyUnarmed"@,
            ExecStage::HealthyArmed => "HealthyArmed"@,
            ExecStage::HealthyGuided => "HealthyGuided"@,
            ExecStage::Unhealthy => "Unhealthy"@,
            ExecStage::Fatal => "Fatal"@,
        }
    }

    /// The name the stage travels under in stage messages.
    pub fn name(&self) -> (r: &'static str)
        ensures
            r@ == self.spec_name(),
    {
        match self {
            ExecStage::AwaitConnection => "AwaitConnection",
            ExecStage::AwaitingData => "AwaitingData",
            ExecStage::AwaitingHealthy => "AwaitingHealthy",
            ExecStage::AwaitingLock => "AwaitingLock",
            ExecStage::HealthyUnarmed => "HealthyUnarmed",
            ExecStage::HealthyArmed => "HealthyArmed",
            ExecStage::HealthyGuided => "HealthyGuided",
            ExecStage::Unhealthy => "Unhealthy",
            ExecStage::Fatal => "Fatal",
        }
    }

    /// The stage a name stands for, if any.
    pub open spec fn spec_parse(s: Seq<char>) -> Option<ExecStage> {
        if s == "AwaitConnection"@ {
            Some(ExecStage::AwaitConnection)
        } else if s == "AwaitingData"@ {
            Some(ExecStage::AwaitingData)
        } else if s == "AwaitingHealthy"@ {
            Some(ExecStage::AwaitingHealthy)
        } else if s == "AwaitingLock"@ {
            Some(ExecStage::AwaitingLock)
        } else if s == "HealthyUnarmed"@ {
            Some(ExecStage::HealthyUnarmed)
        } else if s == "HealthyArmed"@ {
            Some(ExecStage::HealthyArmed)
        } else if s == "HealthyGuided"@ {
            Some(ExecStage::HealthyGuided)
        } else if s == "Unhealthy"@ {
            Some(ExecStage::Unhealthy)
        } else if s == "Fatal"@ {
            Some(ExecStage::Fatal)
        } else {
            None
        }
    }

    /// The stage a name stands for, if any.
    pub fn parse(s: &str) -> (r: Option<ExecStage>)
        ensures
            r == ExecStage::spec_parse(s@),
            r matches Some(st) ==> s@ == st.spec_name(),
    {
        if str_eq(s, "AwaitConnection") {
            Some(ExecStage::AwaitConnection)
        } else if str_eq(s, "AwaitingData") {
            Some(ExecStage::AwaitingData)
        } else if str_eq(s, "AwaitingHealthy") {
            Some(ExecStage::AwaitingHealthy)
        } else if str_eq(s, "AwaitingLock") {
            Some(ExecStage::AwaitingLock)
        } else if str_eq(s, "HealthyUnarmed") {
            Some(ExecStage::HealthyUnarmed)
        } else if str_eq(s, "HealthyArmed") {
            Some(ExecStage::HealthyArmed)
        } else if str_eq(s, "HealthyGuided") {
            Some(ExecStage::HealthyGuided)
        } else if str_eq(s, "Unhealthy") {
            Some(ExecStage::Unhealthy)
        } else if str_eq(s, "Fatal") {
            Some(ExecStage::Fatal)
        } else {
            None
        }
    }
}

/// Parsing a stage's own name yields that stage.
pub proof fn lemma_exec_stage_parse_name(st: ExecStage)
    ensures
        ExecStage::spec_parse(st.spec_name()) == Some(st),
{
    reveal_strlit("AwaitConnection");
    reveal_strlit("AwaitingData");
    reveal_strlit("AwaitingHealthy");
    reveal_strlit("AwaitingLock");
    reveal_strlit("HealthyUnarmed");
    reveal_strlit("HealthyArmed");
    reveal_strlit("HealthyGuided");
    reveal_strlit("Unhealthy");
    reveal_strlit("Fatal");
    assert("AwaitConnection"@.len() == 15);
    assert("AwaitingData"@.len() == 12);
    assert("AwaitingHealthy"@.len() == 15);
    assert("AwaitingLock"@.len() == 12);
    assert("HealthyUnarmed"@.len() == 14);
    assert("HealthyArmed"@.len() == 12);
    assert("HealthyGuided"@.len() == 13);
    assert("Unhealthy"@.len() == 9);
    assert("Fatal"@.len() == 5);
    assert("AwaitConnection"@[5] != "AwaitingHealthy"@[5]);
    assert("AwaitingData"@[8] != "AwaitingLock"@[8]);
    assert("AwaitingData"@[0] != "HealthyArmed"@[0]);
    assert("AwaitingLock"@[0] != "HealthyArmed"@[0]);
    match st {
        ExecStage::AwaitConnection => {
            assert(ExecStage::spec_parse(st.spec_name()) == Some(st));
        },
        ExecStage::AwaitingData => {
            assert(ExecStage::spec_parse(st.spec_name()) == Some(st));
        },
        ExecStage::AwaitingHealthy => {
            assert(ExecStage::spec_parse(st.spec_name()) == Some(st));
        },
        ExecStage::AwaitingLock => {
            assert(ExecStage::spec_parse(st.spec_name()) == Some(st));
        },
        ExecStage::HealthyUnarmed => {
            assert(ExecStage::spec_parse(st.spec_name()) == Some(st));
        },
        ExecStage::HealthyArmed => {
            assert(ExecStage::spec_parse(st.spec_name()) == Some(st));
        },
        ExecStage::HealthyGuided => {
            assert(ExecStage::spec_parse(st.spec_name()) == Some(st));
        },
        ExecStage::Unhealthy => {
            assert(ExecStage::spec_parse(st.spec_name()) == Some(st));
        },
        ExecStage::Fatal => {
            assert(ExecStage::spec_parse(st.spec_name()) == Some(st));
        },
    }
}

/// A stage update as it travels on the `exec/stage` topic.
pub struct ExecStageMessage {
    pub stage: ExecStage,
}

impl ExecStageMessage {
    /// A message carrying `stage`.
    pub fn new(stage: ExecStage) -> (r: ExecStageMessage)
        ensures
            r.stage == stage,
    {
        ExecStageMessage { stage }
    }

    /// The message as a row value: an object with one `stage` text field.
    pub fn to_value(&self) -> (r: JsonVal)
        ensures
            r@ == crate::json::GVal::Obj(
                seq![("stage"@, crate::json::GVal::Text(self.stage.spec_name()))],
            ),
    {
        let mut fields: Vec<(String, JsonVal)> = Vec::new();
        fields.push((
            String::from_str("stage"),
            JsonVal::Text(String::from_str(self.stage.name())),
        ));
        let v = JsonVal::Obj(fields);
        proof {
            crate::json::lemma_gpairs_of(fields@);
            assert(crate::json::gpairs_of(fields@)
                =~= seq![("stage"@, crate::json::GVal::Text(self.stage.spec_name()))]);
        }
        v
    }
}

/// Which task names each stage wants running, and the tasks that are
/// always spawned at start.
pub struct ExecConfig {
    pub stage_task_names: Vec<(ExecStage, Vec<String>)>,
    pub default_tasks: Vec<String>,
}

impl ExecConfig {
    /// An empty configuration.
    pub fn new() -> (r: ExecConfig)
        ensures
            r.stage_task_names@.len() == 0,
            r.default_tasks@.len() == 0,
    {
        ExecConfig { stage_task_names: Vec::new(), default_tasks: Vec::new() }
    }

    /// The configuration with `stage`'s task list set to `tasks`: the
    /// first entry carrying the stage is replaced, and a stage with no
    /// entry yet gains one at the back.
    pub fn with_stage_tasks(self, stage: ExecStage, tasks: Vec<String>) -> (r: ExecConfig)
        ensures
            r.default_tasks == self.default_tasks,
            (forall|k: int| 0 <= k < self.stage_task_names@.len()
                ==> (#[trigger] self.stage_task_names@[k]).0 != stage)
                ==> r.stage_task_names@ == self.stage_task_names@.push((stage, tasks)),
            forall|j: int| 0 <= j < self.stage_task_names@.len()
                && (#[trigger] self.stage_task_names@[j]).0 == stage
                && (forall|k: int| 0 <= k < j
                    ==> (#[trigger] self.stage_task_names@[k]).0 != stage)
                ==> r.stage_task_names@ == self.stage_task_names@.update(j, (stage, tasks)),
    {
        let mut c = self;
        c.add_stage_tasks(stage, tasks);
        c
    }

    /// The configuration with `task_name` appended to `stage`'s tasks,
    /// creating the stage's one-name list at the back when it has none.
    pub fn with_stage_task(self, stage: ExecStage, task_name: String) -> (r: ExecConfig)
        ensures
            r.default_tasks == self.default_tasks,
            (forall|k: int| 0 <= k < self.stage_task_names@.len()
                ==> (#[trigger] self.stage_task_names@[k]).0 != stage)
                ==> r.stage_task_names@.len() == self.stage_task_names@.len() + 1
                    && (forall|k: int| 0 <= k < self.stage_task_names@.len()
                        ==> #[trigger] r.stage_task_names@[k] == self.stage_task_names@[k])
                    && r.stage_task_names@.last().0 == stage
                    && r.stage_task_names@.last().1@ == seq![task_name],
            forall|j: int| 0 <= j < self.stage_task_names@.len()
                && (#[trigger] self.stage_task_names@[j]).0 == stage
                && (forall|k: int| 0 <= k < j
                    ==> (#[trigger] self.stage_task_names@[k]).0 != stage)
                ==> r.stage_task_names@.len() == self.stage_task_names@.len()
                    && (forall|k: int| 0 <= k < self.stage_task_names@.len() && k != j
                        ==> #[trigger] r.stage_task_names@[k] == self.stage_task_names@[k])
                    && r.stage_task_names@[j].0 == stage
                    && r.stage_task_names@[j].1@
                        == self.stage_task_names@[j].1@.push(task_name),
    {
        let mut c = self;
        c.add_stage_task(stage, task_name);
        c
    }

    /// The configuration with its always-on tasks set to `tasks`.
    pub fn with_default_tasks(self, tasks: Vec<String>) -> (r: ExecConfig)
        ensures
            r.default_tasks == tasks,
            r.stage_task_names == self.stage_task_names,
    {
        ExecConfig { default_tasks: tasks, ..self }
    }

    /// The configuration with `task_name` appended to the always-on
    /// tasks.
    pub fn with_default_task(self, task_name: String) -> (r: ExecConfig)
        ensures
            r.default_tasks@ == self.default_tasks@.push(task_name),
            r.stage_task_names == self.stage_task_names,
    {
        let mut c = self;
        c.add_default_task(task_name);
        c
    }

    /// Append `task_name` to the always-on tasks.
    pub fn add_default_task(&mut self, task_name: String)
        ensures
            final(self).default_tasks@ == old(self).default_tasks@.push(task_name),
            final(self).stage_task_names == old(self).stage_task_names,
    {
        self.default_tasks.push(task_name);
    }

    /// Set `stage`'s task list to `tasks`: the first entry carrying the
    /// stage is replaced, and a stage with no entry yet gains one at the
    /// back.
    pub fn add_stage_tasks(&mut self, stage: ExecStage, tasks: Vec<String>)
        ensures
            final(self).default_tasks == old(self).default_tasks,
            (forall|k: int| 0 <= k < old(self).stage_task_names@.len()
                ==> (#[trigger] old(self).stage_task_names@[k]).0 != stage)
                ==> final(self).stage_task_names@
                    == old(self).stage_task_names@.push((stage, tasks)),
            forall|j: int| 0 <= j < old(self).stage_task_names@.len()
                && (#[trigger] old(self).stage_task_names@[j]).0 == stage
                && (forall|k: int| 0 <= k < j
                    ==> (#[trigger] old(self).stage_task_names@[k]).0 != stage)
                ==> final(self).stage_task_names@
                    == old(self).stage_task_names@.update(j, (stage, tasks)),
    {
        let mut i: usize = 0;
        while i < self.stage_task_names.len()
            invariant
                i <= self.stage_task_names@.len(),
                self.stage_task_names == old(self).stage_task_names,
                self.default_tasks == old(self).default_tasks,
                forall|k: int| 0 <= k < i
                    ==> (#[trigger] self.stage_task_names@[k]).0 != stage,
            decreases self.stage_task_names@.len() - i,
        {
            if self.stage_task_names[i].0 == stage {
                let ghost gi = i as int;
                self.stage_task_names.set(i, (stage, tasks));
                proof {
                    assert forall|j: int| 0 <= j < old(self).stage_task_names@.len()
                        && (#[trigger] old(self).stage_task_names@[j]).0 == stage
                        && (forall|k: int| 0 <= k < j
                            ==> (#[trigger] old(self).stage_task_names@[k]).0 != stage)
                        implies self.stage_task_names@
                            == old(self).stage_task_names@.update(j, (stage, tasks)) by {
                        if j < gi {
                            assert(old(self).stage_task_names@[j].0 != stage);
                        } else if j > gi {
                            assert(old(self).stage_task_names@[gi].0 != stage);
                        }
                    }
                }
                return;
            }
            i = i + 1;
        }
        self.stage_task_names.push((stage, tasks));
    }

    /// Append `task_name` to `stage`'s tasks: the first entry carrying
    /// the stage grows by the name at the back, and a stage with no entry
    /// yet gains a one-name list at the back.
    pub fn add_stage_task(&mut self, stage: ExecStage, task_name: String)
        ensures
            final(self).default_tasks == old(self).default_tasks,
            (forall|k: int| 0 <= k < old(self).stage_task_names@.len()
                ==> (#[trigger] old(self).stage_task_names@[k]).0 != stage)
                ==> final(self).stage_task_names@.len()
                        == old(self).stage_task_names@.len() + 1
                    && (forall|k: int| 0 <= k < old(self).stage_task_names@.len()
                        ==> #[trigger] final(self).stage_task_names@[k]
                            == old(self).stage_task_names@[k])
                    && final(self).stage_task_names@.last().0 == stage
                    && final(self).stage_task_names@.last().1@ == seq![task_name],
            forall|j: int| 0 <= j < old(self).stage_task_names@.len()
                && (#[trigger] old(self).stage_task_names@[j]).0 == stage
                && (forall|k: int| 0 <= k < j
                    ==> (#[trigger] old(self).stage_task_names@[k]).0 != stage)
                ==> final(self).stage_task_names@.len() == old(self).stage_task_names@.len()
                    && (forall|k: int| 0 <= k < old(self).stage_task_names@.len() && k != j
                        ==> #[trigger] final(self).stage_task_names@[k]
                            == old(self).stage_task_names@[k])
                    && final(self).stage_task_names@[j].0 == stage
                    && final(self).stage_task_names@[j].1@
                        == old(self).stage_task_names@[j].1@.push(task_name),
    {
        let mut i: usize = 0;
        while i < self.stage_task_names.len()
            invariant
                i <= self.stage_task_names@.len(),
                self.stage_task_names == old(self).stage_task_names,
                self.default_tasks == old(self).default_tasks,
                forall|k: int| 0 <= k < i
                    ==> (#[trigger] self.stage_task_names@[k]).0 != stage,
            decreases self.stage_task_names@.len() - i,
        {
            if self.stage_task_names[i].0 == stage {
                let ghost gi = i as int;
                self.stage_task_names[i].1.push(task_name);
                proof {
                    assert forall|j: int| 0 <= j < old(self).stage_task_names@.len()
                        && (#[trigger] old(self).stage_task_names@[j]).0 == stage
                        && (forall|k: int| 0 <= k < j
                            ==> (#[trigger] old(self).stage_task_names@[k]).0 != stage)
                        implies j == gi by {
                        if j < gi {
                            assert(old(self).stage_task_names@[j].0 != stage);
                        } else if j > gi {
                            assert(old(self).stage_task_names@[gi].0 != stage);
                        }
                    }
                }
                return;
            }
            i = i + 1;
        }
        let mut tasks: Vec<String> = Vec::new();
        tasks.push(task_name);
        self.stage_task_names.push((stage, tasks));
    }

    /// The task list configured for `stage`, if any: the first entry with
    /// that stage.
    pub fn get_stage_tasks(&self, stage: ExecStage) -> (r: Option<&Vec<String>>)
        ensures
            (match r {
                Some(v) => exists|i: int| 0 <= i < self.stage_task_names@.len()
                    && (#[trigger] self.stage_task_names@[i]).0 == stage
                    && self.stage_task_names@[i].1 == v
                    && (forall|k: int| 0 <= k < i
                        ==> (#[trigger] self.stage_task_names@[k]).0 != stage),
                None => forall|i: int| 0 <= i < self.stage_task_names@.len()
                    ==> (#[trigger] self.stage_task_names@[i]).0 != stage,
            }),
    {
        let mut i: usize = 0;
        while i < self.stage_task_names.len()
            invariant
                i <= self.stage_task_names@.len(),
                forall|k: int| 0 <= k < i ==> (#[trigger] self.stage_task_names@[k]).0 != stage,
            decreases self.stage_task_names@.len() - i,
        {
            if self.stage_task_names[i].0 == stage {
                return Some(&self.stage_task_names[i].1);
            }
            i = i + 1;
        }
        None
    }
}

/// Whether an input record carries an execution-stage update: its topic
/// starts with the stage topic.
pub open spec fn is_exec_stage_update(rec: Record) -> bool {
    match crate::record::topic_of(rec@) {
        Some(t) => crate::text::is_prefix_of("exec/stage"@, t),
        None => false,
    }
}

/// The stage adopted after folding a list of stage texts over `st`: the
/// last text that parses as a stage wins.
pub open spec fn fold_exec_stage_texts(st: ExecStage, texts: Seq<Seq<char>>) -> ExecStage
    decreases texts.len(),
{
    if texts.len() == 0 {
        st
    } else {
        match ExecStage::spec_parse(texts.last()) {
            Some(s) => s,
            None => fold_exec_stage_texts(st, texts.drop_last()),
        }
    }
}

/// The stage adopted after a list of input records, in order: each
/// stage-update record folds its rows' stage texts over the stage so
/// far.
pub open spec fn exec_stage_after(st: ExecStage, inputs: Seq<Record>) -> ExecStage
    decreases inputs.len(),
{
    if inputs.len() == 0 {
        st
    } else {
        let prev = exec_stage_after(st, inputs.drop_last());
        if is_exec_stage_update(inputs.last()) {
            fold_exec_stage_texts(
                prev,
                crate::stage_control::stage_texts_vals(
                    crate::stage_control::row_objs(inputs.last()@),
                ),
            )
        } else {
            prev
        }
    }
}

/// The task names the first configured entry for `st` holds; a stage
/// with no entry wants none.
pub open spec fn spec_stage_tasks(m: Seq<(ExecStage, Vec<String>)>, st: ExecStage) -> Seq<
    Seq<char>,
>
    decreases m.len(),
{
    if m.len() == 0 {
        Seq::<Seq<char>>::empty()
    } else if m[0].0 == st {
        crate::stage_control::names_view(m[0].1@)
    } else {
        spec_stage_tasks(m.subrange(1, m.len() as int), st)
    }
}

/// The lookup finds the first matching entry.
proof fn lemma_spec_stage_tasks_at(m: Seq<(ExecStage, Vec<String>)>, j: int, st: ExecStage)
    requires
        0 <= j < m.len(),
        m[j].0 == st,
        forall|k: int| 0 <= k < j ==> (#[trigger] m[k]).0 != st,
    ensures
        spec_stage_tasks(m, st) == crate::stage_control::names_view(m[j].1@),
    decreases j,
{
    if j > 0 {
        lemma_spec_stage_tasks_at(m.subrange(1, m.len() as int), j - 1, st);
    }
}

/// The lookup misses when no entry carries the stage.
proof fn lemma_spec_stage_tasks_none(m: Seq<(ExecStage, Vec<String>)>, st: ExecStage)
    requires
        forall|k: int| 0 <= k < m.len() ==> (#[trigger] m[k]).0 != st,
    ensures
        spec_stage_tasks(m, st) == Seq::<Seq<char>>::empty(),
    decreases m.len(),
{
    if m.len() > 0 {
        lemma_spec_stage_tasks_none(m.subrange(1, m.len() as int), st);
    }
}

/// `base` joined with the names of `extra`, in order: each name not
/// already present is appended.
pub open spec fn with_extra_names(base: Seq<Seq<char>>, extra: Seq<Seq<char>>) -> Seq<Seq<char>>
    decreases extra.len(),
{
    if extra.len() == 0 {
        base
    } else {
        let prev = with_extra_names(base, extra.drop_last());
        if prev.contains(extra.last()) {
            prev
        } else {
            prev.push(extra.last())
        }
    }
}

/// The task names an execution stage wants running: the stage's
/// configured list joined with the always-on tasks.
pub open spec fn exec_desired(cfg: ExecConfig, st: ExecStage) -> Seq<Seq<char>> {
    with_extra_names(
        spec_stage_tasks(cfg.stage_task_names@, st),
        names_view(cfg.default_tasks@),
    )
}

/// The supervisor that reconciles the running set to the observed
/// execution stage: it subscribes to `exec/stage`, adopts each update,
/// and spawns or kills the difference between the configured and the
/// spawned task sets.
pub struct ExecRunner {
    pub config: ExecConfig,
    pub stage: ExecStage,
    pub spawned_tasks: Vec<TaskInfo>,
    pub info: TaskInfo,
}

impl ExecRunner {
    /// A supervisor for `config`, starting at `AwaitConnection` with
    /// nothing spawned.
    pub fn new(config: ExecConfig) -> (r: ExecRunner)
        ensures
            r.config == config,
            r.stage == ExecStage::AwaitConnection,
            r.spawned_tasks@.len() == 0,
            r.info.name@ == "ExecRunner"@,
            r.info.id == crate::info::name_hash("ExecRunner"@),
            r.info.insta_spawn,
    {
        ExecRunner {
            config,
            stage: ExecStage::AwaitConnection,
            spawned_tasks: Vec::new(),
            info: TaskInfo::new("ExecRunner").with_insta_spawn(),
        }
    }

    /// One-shot setup: one spawn command per configured always-on task,
    /// in order, each joining the spawned set with its name's stable
    /// hash, then one subscription request for the stage topic appended
    /// to `tx`. Stage, configuration and identity are untouched.
    pub fn setup(&mut self, tx: &mut Vec<Record>, meta_tx: &mut Vec<MetaMessage>)
        requires
            all_wf(old(tx)@),
        ensures
            all_wf(final(tx)@),
            final(self).config == old(self).config,
            final(self).info == old(self).info,
            final(self).stage == old(self).stage,
            info_pairs(final(self).spawned_tasks@) == info_pairs(old(self).spawned_tasks@)
                + spawn_pairs(names_view(old(self).config.default_tasks@)),
            final(meta_tx)@.len() == old(meta_tx)@.len()
                + old(self).config.default_tasks@.len(),
            forall|i: int| 0 <= i < old(meta_tx)@.len()
                ==> #[trigger] final(meta_tx)@[i] == old(meta_tx)@[i],
            forall|i: int| 0 <= i < old(self).config.default_tasks@.len()
                ==> (#[trigger] final(meta_tx)@[old(meta_tx)@.len() + i]).command
                        == MetaCommand::SpawnTask
                    && final(meta_tx)@[old(meta_tx)@.len() + i].task_info.name@
                        == old(self).config.default_tasks@[i]@
                    && final(meta_tx)@[old(meta_tx)@.len() + i].task_info.id
                        == crate::info::name_hash(old(self).config.default_tasks@[i]@)
                    && final(meta_tx)@[old(meta_tx)@.len() + i].task_info.insta_spawn,
            final(tx)@.len() == old(tx)@.len() + 1,
            forall|i: int| 0 <= i < old(tx)@.len() ==> #[trigger] final(tx)@[i] == old(tx)@[i],
            crate::record::flag_of(final(tx)@.last()@)
                == Some(crate::record::RecordFlag::SubscribePacket),
            crate::record::topic_of(final(tx)@.last()@) == Some("exec/stage"@),
    {
        let ghost names = names_view(self.config.default_tasks@);
        let ghost s0p = info_pairs(self.spawned_tasks@);
        let ghost mtx0 = meta_tx@;
        proof {
            assert(info_pairs(self.spawned_tasks@)
                =~= s0p + spawn_pairs(names.subrange(0, 0)));
        }
        let mut i: usize = 0;
        while i < self.config.default_tasks.len()
            invariant
                i <= self.config.default_tasks@.len(),
                names == names_view(self.config.default_tasks@),
                names.len() == self.config.default_tasks@.len(),
                self.config == old(self).config,
                self.info == old(self).info,
                self.stage == old(self).stage,
                info_pairs(self.spawned_tasks@) == s0p + spawn_pairs(names.subrange(0, i as int)),
                meta_tx@.len() == mtx0.len() + i,
                forall|k: int| 0 <= k < mtx0.len() ==> #[trigger] meta_tx@[k] == mtx0[k],
                forall|k: int| 0 <= k < i
                    ==> (#[trigger] meta_tx@[mtx0.len() + k]).command == MetaCommand::SpawnTask
                        && meta_tx@[mtx0.len() + k].task_info.name@ == names[k]
                        && meta_tx@[mtx0.len() + k].task_info.id
                            == crate::info::name_hash(names[k])
                        && meta_tx@[mtx0.len() + k].task_info.insta_spawn,
            decreases self.config.default_tasks@.len() - i,
        {
            let ghost gi = i as int;
            proof {
                assert(names[gi] == self.config.default_tasks@[gi]@);
            }
            let info = TaskInfo::new(self.config.default_tasks[i].as_str()).with_insta_spawn();
            let ghost sb = self.spawned_tasks@;
            self.spawned_tasks.push(info.clone());
            meta_tx.push(MetaMessage::new(MetaCommand::SpawnTask, info));
            proof {
                assert(info_pairs(self.spawned_tasks@)
                    =~= info_pairs(sb).push((names[gi], crate::info::name_hash(names[gi]))));
                assert(spawn_pairs(names.subrange(0, gi + 1))
                    =~= spawn_pairs(names.subrange(0, gi)).push((
                    names[gi],
                    crate::info::name_hash(names[gi]),
                )));
                assert(info_pairs(self.spawned_tasks@)
                    =~= s0p + spawn_pairs(names.subrange(0, gi + 1)));
            }
            i = i + 1;
        }
        proof {
            assert(names.subrange(0, names.len() as int) =~= names);
        }
        push_record(tx, subscribe_to("exec/stage"));
    }

    /// One supervisor step: adopt the stage updates among `inputs` in
    /// order (within each, the last row text that parses as a stage
    /// wins), then reconcile the spawned set to the adopted stage's
    /// desired task names — the stage's configured list joined with the
    /// always-on tasks. One spawn command per missing name, in order,
    /// each joining the spawned set with its name's stable hash, then
    /// one kill command per stale identity, in order, each dropping the
    /// first spawned entry carrying its id.
    pub fn step(&mut self, inputs: Vec<Record>, meta_tx: &mut Vec<MetaMessage>)
        requires
            all_wf(inputs@),
        ensures
            final(self).config == old(self).config,
            final(self).info == old(self).info,
            final(self).stage == exec_stage_after(old(self).stage, inputs@),
            ({
                let desired = exec_desired(
                    old(self).config,
                    exec_stage_after(old(self).stage, inputs@),
                );
                let have = info_pairs(old(self).spawned_tasks@);
                let spawns = missing_names(
                    desired,
                    info_pairs_names(old(self).spawned_tasks@),
                );
                let kills = stale_pairs(have, desired);
                final(meta_tx)@.len() == old(meta_tx)@.len() + spawns.len() + kills.len()
                    && (forall|i: int| 0 <= i < old(meta_tx)@.len()
                        ==> #[trigger] final(meta_tx)@[i] == old(meta_tx)@[i])
                    && (forall|i: int| 0 <= i < spawns.len()
                        ==> (#[trigger] final(meta_tx)@[old(meta_tx)@.len() + i]).command
                                == MetaCommand::SpawnTask
                            && final(meta_tx)@[old(meta_tx)@.len() + i].task_info.name@
                                == spawns[i]
                            && final(meta_tx)@[old(meta_tx)@.len() + i].task_info.id
                                == crate::info::name_hash(spawns[i])
                            && final(meta_tx)@[old(meta_tx)@.len() + i].task_info.insta_spawn)
                    && (forall|i: int| 0 <= i < kills.len()
                        ==> (#[trigger] final(meta_tx)@[old(meta_tx)@.len() + spawns.len()
                                + i]).command == MetaCommand::KillTask
                            && final(meta_tx)@[old(meta_tx)@.len() + spawns.len()
                                + i].task_info.name@ == kills[i].0
                            && final(meta_tx)@[old(meta_tx)@.len() + spawns.len()
                                + i].task_info.id == kills[i].1)
                    && info_pairs(final(self).spawned_tasks@)
                        == kill_fold(have + spawn_pairs(spawns), kills)
            }),
    {
        let ghost st_in = self.stage;
        proof {
            assert(inputs@.subrange(0, 0) =~= Seq::<Record>::empty());
        }
        let mut i: usize = 0;
        while i < inputs.len()
            invariant
                all_wf(inputs@),
                i <= inputs@.len(),
                st_in == old(self).stage,
                self.config == old(self).config,
                self.info == old(self).info,
                self.spawned_tasks == old(self).spawned_tasks,
                self.stage == exec_stage_after(st_in, inputs@.subrange(0, i as int)),
            decreases inputs@.len() - i,
        {
            let ghost gi = i as int;
            let ghost stv = self.stage;
            proof {
                assert((#[trigger] inputs@[gi])@.wf());
                assert(inputs@.subrange(0, gi + 1).drop_last() =~= inputs@.subrange(0, gi));
                assert(inputs@.subrange(0, gi + 1).last() == inputs@[gi]);
            }
            let is_stage = match inputs[i].try_get_topic() {
                Ok(t) => str_starts_with(t.as_str(), "exec/stage"),
                Err(_) => false,
            };
            if is_stage {
                proof {
                    assert(is_exec_stage_update(inputs@[gi]));
                }
                let texts = stage_texts(&inputs[i]);
                let ghost tv = names_view(texts@);
                proof {
                    assert(tv == stage_texts_vals(row_objs(inputs@[gi]@)));
                    assert(tv.subrange(0, 0) =~= Seq::<Seq<char>>::empty());
                }
                let mut k: usize = 0;
                while k < texts.len()
                    invariant
                        k <= texts@.len(),
                        tv == names_view(texts@),
                        tv.len() == texts@.len(),
                        self.config == old(self).config,
                        self.info == old(self).info,
                        self.spawned_tasks == old(self).spawned_tasks,
                        self.stage == fold_exec_stage_texts(stv, tv.subrange(0, k as int)),
                    decreases texts@.len() - k,
                {
                    let ghost gk = k as int;
                    proof {
                        assert(tv.subrange(0, gk + 1).drop_last() =~= tv.subrange(0, gk));
                        assert(tv.subrange(0, gk + 1).last() == tv[gk]);
                        assert(tv[gk] == texts@[gk]@);
                    }
                    match ExecStage::parse(texts[k].as_str()) {
                        Some(s) => {
                            self.stage = s;
                        },
                        None => {},
                    }
                    k = k + 1;
                }
                proof {
                    assert(tv.subrange(0, tv.len() as int) =~= tv);
                    assert(self.stage == exec_stage_after(st_in, inputs@.subrange(0, gi + 1)));
                }
            } else {
                proof {
                    assert(!is_exec_stage_update(inputs@[gi]));
                    assert(self.stage == exec_stage_after(st_in, inputs@.subrange(0, gi + 1)));
                }
            }
            i = i + 1;
        }
        proof {
            assert(inputs@.subrange(0, inputs@.len() as int) =~= inputs@);
        }
        let ghost m = self.config.stage_task_names@;
        let ghost stf = self.stage;
        let mut desired: Vec<String>;
        match self.config.get_stage_tasks(self.stage) {
            Some(v) => {
                proof {
                    let j = choose|j: int| 0 <= j < m.len() && (#[trigger] m[j]).0 == stf
                        && m[j].1 == v && (forall|k: int| 0 <= k < j
                        ==> (#[trigger] m[k]).0 != stf);
                    lemma_spec_stage_tasks_at(m, j, stf);
                }
                desired = clone_names(v);
            },
            None => {
                proof {
                    lemma_spec_stage_tasks_none(m, stf);
                }
                desired = Vec::new();
            },
        }
        let ghost base = names_view(desired@);
        let ghost defs = names_view(self.config.default_tasks@);
        proof {
            assert(base == spec_stage_tasks(m, stf));
            assert(defs.subrange(0, 0) =~= Seq::<Seq<char>>::empty());
        }
        let mut di: usize = 0;
        while di < self.config.default_tasks.len()
            invariant
                di <= self.config.default_tasks@.len(),
                defs == names_view(self.config.default_tasks@),
                defs.len() == self.config.default_tasks@.len(),
                self.config == old(self).config,
                self.info == old(self).info,
                self.stage == stf,
                self.spawned_tasks == old(self).spawned_tasks,
                names_view(desired@) == with_extra_names(base, defs.subrange(0, di as int)),
            decreases self.config.default_tasks@.len() - di,
        {
            let ghost gdi = di as int;
            proof {
                assert(defs.subrange(0, gdi + 1).drop_last() =~= defs.subrange(0, gdi));
                assert(defs.subrange(0, gdi + 1).last() == defs[gdi]);
                assert(defs[gdi] == self.config.default_tasks@[gdi]@);
            }
            if !names_contain(&desired, self.config.default_tasks[di].as_str()) {
                let ghost db = desired@;
                desired.push(self.config.default_tasks[di].clone());
                proof {
                    assert(names_view(desired@) =~= names_view(db).push(defs[gdi]));
                }
            }
            di = di + 1;
        }
        proof {
            assert(defs.subrange(0, defs.len() as int) =~= defs);
            assert(names_view(desired@) == exec_desired(self.config, stf));
        }
        let ghost des = names_view(desired@);
        let ghost have = info_pairs(self.spawned_tasks@);
        let (to_spawn, to_kill) = reconcile_tasks(&desired, &self.spawned_tasks);
        let ghost spawns = names_view(to_spawn@);
        let ghost kills = info_pairs(to_kill@);
        let ghost mtx0 = meta_tx@;
        proof {
            assert(spawns == missing_names(des, info_pairs_names(self.spawned_tasks@)));
            assert(kills == stale_pairs(have, des));
            assert(info_pairs(self.spawned_tasks@)
                =~= have + spawn_pairs(spawns.subrange(0, 0)));
        }
        let mut k: usize = 0;
        while k < to_spawn.len()
            invariant
                k <= to_spawn@.len(),
                spawns == names_view(to_spawn@),
                spawns.len() == to_spawn@.len(),
                self.config == old(self).config,
                self.info == old(self).info,
                self.stage == stf,
                info_pairs(self.spawned_tasks@) == have + spawn_pairs(
                    spawns.subrange(0, k as int),
                ),
                meta_tx@.len() == mtx0.len() + k,
                forall|t: int| 0 <= t < mtx0.len() ==> #[trigger] meta_tx@[t] == mtx0[t],
                forall|t: int| 0 <= t < k
                    ==> (#[trigger] meta_tx@[mtx0.len() + t]).command == MetaCommand::SpawnTask
                        && meta_tx@[mtx0.len() + t].task_info.name@ == spawns[t]
                        && meta_tx@[mtx0.len() + t].task_info.id
                            == crate::info::name_hash(spawns[t])
                        && meta_tx@[mtx0.len() + t].task_info.insta_spawn,
            decreases to_spawn@.len() - k,
        {
            let ghost gk = k as int;
            proof {
                assert(spawns[gk] == to_spawn@[gk]@);
            }
            let info = TaskInfo::new(to_spawn[k].as_str()).with_insta_spawn();
            meta_tx.push(MetaMessage::new(MetaCommand::SpawnTask, info.clone()));
            let ghost sb = self.spawned_tasks@;
            self.spawned_tasks.push(info);
            proof {
                assert(info_pairs(self.spawned_tasks@)
                    =~= info_pairs(sb).push((spawns[gk], crate::info::name_hash(spawns[gk]))));
                assert(spawn_pairs(spawns.subrange(0, gk + 1))
                    =~= spawn_pairs(spawns.subrange(0, gk)).push((
                    spawns[gk],
                    crate::info::name_hash(spawns[gk]),
                )));
                assert(info_pairs(self.spawned_tasks@)
                    =~= have + spawn_pairs(spawns.subrange(0, gk + 1)));
            }
            k = k + 1;
        }
        proof {
            assert(spawns.subrange(0, spawns.len() as int) =~= spawns);
        }
        let ghost s1p = have + spawn_pairs(spawns);
        let ghost mtx1 = meta_tx@;
        proof {
            assert(kill_fold(s1p, kills.subrange(0, 0)) =~= s1p) by {
                assert(kills.subrange(0, 0) =~= Seq::<(Seq<char>, u32)>::empty());
            }
            assert(info_pairs(self.spawned_tasks@) == kill_fold(s1p, kills.subrange(0, 0)));
        }
        let mut k: usize = 0;
        while k < to_kill.len()
            invariant
                k <= to_kill@.len(),
                kills == info_pairs(to_kill@),
                kills.len() == to_kill@.len(),
                mtx1.len() == mtx0.len() + spawns.len(),
                self.config == old(self).config,
                self.info == old(self).info,
                self.stage == stf,
                info_pairs(self.spawned_tasks@) == kill_fold(s1p, kills.subrange(0, k as int)),
                meta_tx@.len() == mtx1.len() + k,
                forall|t: int| 0 <= t < mtx1.len() ==> #[trigger] meta_tx@[t] == mtx1[t],
                forall|t: int| 0 <= t < k
                    ==> (#[trigger] meta_tx@[mtx1.len() + t]).command == MetaCommand::KillTask
                        && meta_tx@[mtx1.len() + t].task_info.name@ == kills[t].0
                        && meta_tx@[mtx1.len() + t].task_info.id == kills[t].1,
            decreases to_kill@.len() - k,
        {
            let ghost gk = k as int;
            proof {
                assert(kills[gk] == (to_kill@[gk].name@, to_kill@[gk].id));
                assert(kills.subrange(0, gk + 1).drop_last() =~= kills.subrange(0, gk));
                assert(kills.subrange(0, gk + 1).last() == kills[gk]);
            }
            let info = to_kill[k].clone();
            remove_info_by_id(&mut self.spawned_tasks, info.id);
            meta_tx.push(MetaMessage::new(MetaCommand::KillTask, info));
            proof {
                assert(info_pairs(self.spawned_tasks@)
                    == remove_first_id_pairs(kill_fold(s1p, kills.subrange(0, gk)), kills[gk].1));
                assert(info_pairs(self.spawned_tasks@)
                    == kill_fold(s1p, kills.subrange(0, gk + 1)));
            }
            k = k + 1;
        }
        proof {
            assert(kills.subrange(0, kills.len() as int) =~= kills);
        }
    }
}

impl Task for ExecRunner {
    /// Spawn the always-on tasks and subscribe to the stage topic, as
    /// `setup` states.
    fn init(&mut self, tx: &mut Vec<Record>, meta_tx: &mut Vec<MetaMessage>) -> (r: Result<
        (),
        RecordError,
    >) {
        self.setup(tx, meta_tx);
        Ok(())
    }

    /// Always ready.
    fn should_run(&self) -> Result<bool, RecordError> {
        Ok(true)
    }

    /// Adopt any stage updates, then reconcile the spawned set to the
    /// stage's configured task names, as `step` states.
    fn run(
        &mut self,
        inputs: Vec<Record>,
        tx: &mut Vec<Record>,
        meta_tx: &mut Vec<MetaMessage>,
    ) -> (r: Result<(), RecordError>) {
        self.step(inputs, meta_tx);
        Ok(())
    }

    /// Nothing to tear down.
    fn cleanup(&mut self) -> Result<(), RecordError> {
        Ok(())
    }

    /// The supervisor's identity.
    fn get_task_info(&self) -> &TaskInfo {
        &self.info
    }
}

/// Publish helper for stage updates: exactly one one-row publish record
/// on `topic` holding `{stage: <name>}` is appended to `tx`.
pub fn publish_exec_stage(tx: &mut Vec<Record>, topic: &str, stage: ExecStage)
    requires
        all_wf(old(tx)@),
    ensures
        all_wf(final(tx)@),
        final(tx)@.len() == old(tx)@.len() + 1,
        forall|i: int| 0 <= i < old(tx)@.len() ==> #[trigger] final(tx)@[i] == old(tx)@[i],
        crate::record::flag_of(final(tx)@.last()@)
            == Some(crate::record::RecordFlag::PublishPacket),
        crate::record::topic_of(final(tx)@.last()@) == Some(topic@),
        final(tx)@.last()@.schema == seq![
            (crate::json::GField { name: "stage"@, ty: crate::json::GTy::Text }),
        ],
        final(tx)@.last()@.rows == seq![seq![crate::json::GVal::Text(stage.spec_name())]],
{
    let msg = ExecStageMessage::new(stage);
    let value = msg.to_value();
    proof {
        let g = seq![("stage"@, crate::json::GVal::Text(stage.spec_name()))];
        let gobj = crate::json::GVal::Obj(g);
        let fs = seq![(crate::json::GField { name: "stage"@, ty: crate::json::GTy::Text })];
        assert(value@ == gobj);
        assert(crate::json::g_infer_fields(Seq::<(Seq<char>, crate::json::GVal)>::empty())
            == Some(Seq::<crate::json::GField>::empty()));
        assert(crate::json::g_infer(g[0].1) == Some(crate::json::GTy::Text));
        assert(g.subrange(1, g.len() as int) =~= Seq::<(Seq<char>, crate::json::GVal)>::empty());
        assert(crate::json::g_infer_fields(g) is Some);
        assert(crate::json::g_infer_fields(g)->Some_0 =~= fs);
        assert(crate::json::g_infer(gobj) == Some(crate::json::GTy::Struct(fs)));
        assert(crate::record::fv_items(gobj) =~= seq![gobj]);
        assert(crate::json::g_obj_ty(g, fs)) by {
            assert(g[0].0 == fs[0].name);
            assert(crate::json::g_has_ty(g[0].1, fs[0].ty));
            assert(g.subrange(1, g.len() as int)
                =~= Seq::<(Seq<char>, crate::json::GVal)>::empty());
            assert(fs.subrange(1, 1) =~= Seq::<crate::json::GField>::empty());
            assert(crate::json::g_obj_ty(
                Seq::<(Seq<char>, crate::json::GVal)>::empty(),
                Seq::<crate::json::GField>::empty(),
            ));
        }
        assert(crate::json::g_has_ty(gobj, crate::json::GTy::Struct(fs)));
        assert(crate::json::g_all_ty(seq![gobj], crate::json::GTy::Struct(fs))) by {
            assert(seq![gobj].subrange(1, 1) =~= Seq::<crate::json::GVal>::empty());
            assert(seq![gobj][0] == gobj);
            assert(crate::json::g_all_ty(
                Seq::<crate::json::GVal>::empty(),
                crate::json::GTy::Struct(fs),
            ));
        }
        assert(crate::record::fv_ok(gobj));
        assert(crate::record::fv_schema(gobj) == fs);
        assert(crate::record::obj_vals(gobj)
            =~= seq![crate::json::GVal::Text(stage.spec_name())]);
        assert(crate::record::fv_rows(gobj) =~= seq![crate::record::obj_vals(gobj)]);
        assert(crate::record::fv_rows(gobj)
            == seq![seq![crate::json::GVal::Text(stage.spec_name())]]);
    }
    match publish_value(topic, &value) {
        Ok(rec) => {
            push_record(tx, rec);
        },
        Err(_) => {
            proof {
                assert(false);
            }
        },
    }
}

} // verus!
