//! The high-level autonomy stage machine: the stage enumeration, the
//! message that carries stage updates, the stage-to-task configuration,
//! and the supervisor task that reconciles the running set to the stage.

use vstd::prelude::*;
use crate::info::{MetaCommand, MetaMessage, TaskInfo};
use crate::json::JsonVal;
use crate::record::{Record, RecordError};
use crate::stage_control::{clone_names, info_pairs, info_pairs_names, kill_fold, missing_names,
    names_view, reconcile_tasks, remove_first_id_pairs, remove_info_by_id, row_objs, spawn_pairs,
    stage_texts, stage_texts_vals, stale_pairs};
use crate::task::{Task, all_wf, push_record};
use crate::text::{str_eq, str_starts_with};

verus! {

/// The stages of an autonomous flight.
#[derive(Debug, Clone, Copy, PartialEq, Eq, Hash, Structural)]
pub enum AutoStage {
    /// Disabled, waiting for an external command to start.
    AutoShadow,
    /// Starting: the scripted mission is launched.
    AutoStart,
    /// Taking off.
    AutoTakeoff,
    /// Hovering, initializing guided flight.
    AutoHover,
    /// Guided flight, following position guidance.
    AutoGuided,
    /// Landing.
    AutoLand,
}

impl AutoStage {
    /// The name the stage travels under in stage messages.
    pub open spec fn spec_name(self) -> Seq<char> {
        match self {
            AutoStage::AutoShadow => "AutoShadow"@,
            AutoStage::AutoStart => "AutoStart"@,
            AutoStage::AutoTakeoff => "AutoTakeoff"@,
            AutoStage::AutoHover => "AutoHover"@,
            AutoStage::AutoGuided => "AutoGuided"@,
            AutoStage::AutoLand => "AutoLand"@,
        }
    }

    /// The name the stage travels under in stage messages.
    pub fn name(&self) -> (r: &'static str)
        ensures
            r@ == self.spec_name(),
    {
        match self {
            AutoStage::AutoShadow => "AutoShadow",
            AutoStage::AutoStart => "AutoStart",
            AutoStage::AutoTakeoff => "AutoTakeoff",
            AutoStage::AutoHover => "AutoHover",
            AutoStage::AutoGuided => "AutoGuided",
            AutoStage::AutoLand => "AutoLand",
        }
    }

    /// The stage a name stands for, if any.
    pub open spec fn spec_parse(s: Seq<char>) -> Option<AutoStage> {
        if s == "AutoShadow"@ {
            Some(AutoStage::AutoShadow)
        } else if s == "AutoStart"@ {
            Some(AutoStage::AutoStart)
        } else if s == "AutoTakeoff"@ {
            Some(AutoStage::AutoTakeoff)
        } else if s == "AutoHover"@ {
            Some(AutoStage::AutoHover)
        } else if s == "AutoGuided"@ {
            Some(AutoStage::AutoGuided)
        } else if s == "AutoLand"@ {
            Some(AutoStage::AutoLand)
        } else {
            None
        }
    }

    /// The stage a name stands for, if any.
    pub fn parse(s: &str) -> (r: Option<AutoStage>)
        ensures
            r == AutoStage::spec_parse(s@),
            r matches Some(st) ==> s@ == st.spec_name(),
    {
        if str_eq(s, "AutoShadow") {
            Some(AutoStage::AutoShadow)
        } else if str_eq(s, "AutoStart") {
            Some(AutoStage::AutoStart)
        } else if str_eq(s, "AutoTakeoff") {
            Some(AutoStage::AutoTakeoff)
        } else if str_eq(s, "AutoHover") {
            Some(AutoStage::AutoHover)
        } else if str_eq(s, "AutoGuided") {
            Some(AutoStage::AutoGuided)
        } else if str_eq(s, "AutoLand") {
            Some(AutoStage::AutoLand)
        } else {
            None
        }
    }
}

/// Parsing a stage's own name yields that stage.
pub proof fn lemma_auto_stage_parse_name(st: AutoStage)
    ensures
        AutoStage::spec_parse(st.spec_name()) == Some(st),
{
    reveal_strlit("AutoShadow");
    reveal_strlit("AutoStart");
    reveal_strlit("AutoTakeoff");
    reveal_strlit("AutoHover");
    reveal_strlit("AutoGuided");
    reveal_strlit("AutoLand");
    assert("AutoShadow"@.len() == 10);
    assert("AutoStart"@.len() == 9);
    assert("AutoTakeoff"@.len() == 11);
    assert("AutoHover"@.len() == 9);
    assert("AutoGuided"@.len() == 10);
    assert("AutoLand"@.len() == 8);
    assert("AutoShadow"@[4] != "AutoGuided"@[4]);
    assert("AutoStart"@[4] != "AutoHover"@[4]);
    match st {
        AutoStage::AutoShadow => {
            assert(AutoStage::spec_parse(st.spec_name()) == Some(st));
        },
        AutoStage::AutoStart => {
            assert(AutoStage::spec_parse(st.spec_name()) == Some(st));
        },
        AutoStage::AutoTakeoff => {
            assert(AutoStage::spec_parse(st.spec_name()) == Some(st));
        },
        AutoStage::AutoHover => {
            assert(AutoStage::spec_parse(st.spec_name()) == Some(st));
        },
        AutoStage::AutoGuided => {
            assert(AutoStage::spec_parse(st.spec_name()) == Some(st));
        },
        AutoStage::AutoLand => {
            assert(AutoStage::spec_parse(st.spec_name()) == Some(st));
        },
    }
}

/// A stage update as it travels on the `auto/stage` topic.
pub struct AutoStageMessage {
    pub stage: AutoStage,
}

impl AutoStageMessage {
    /// A message carrying `stage`.
    pub fn new(stage: AutoStage) -> (r: AutoStageMessage)
        ensures
            r.stage == stage,
    {
        AutoStageMessage { stage }
    }

    /// The message as a row value: an object with one `stage` text field.
    pub fn to_value(&self) -> (r: JsonVal)
        ensures
            r@ == crate::json::GVal::Obj(
                seq![("stage"@, crate::json::GVal::Text(self.stage.spec_name()))],
            ),
    {
        let mut fields: Vec<(String, JsonVal)> = Vec::new();
        fields.push((
            String::from_str("stage"),
            JsonVal::Text(String::from_str(self.stage.name())),
        ));
        let v = JsonVal::Obj(fields);
        proof {
            crate::json::lemma_gpairs_of(fields@);
            assert(crate::json::gpairs_of(fields@)
                =~= seq![("stage"@, crate::json::GVal::Text(self.stage.spec_name()))]);
        }
        v
    }
}

/// Which task names each autonomy stage wants running, and the name of
/// the scripted-mission task that joins the start stage.
pub struct AutoConfig {
    pub stage_task_names: Vec<(AutoStage, Vec<String>)>,
    pub script_task_name: String,
}

impl AutoConfig {
    /// An empty configuration with no script task.
    pub fn new() -> (r: AutoConfig)
        ensures
            r.stage_task_names@.len() == 0,
            r.script_task_name@.len() == 0,
    {
        AutoConfig { stage_task_names: Vec::new(), script_task_name: String::new() }
    }

    /// The configuration with `stage`'s task list set to `tasks`: the
    /// first entry carrying the stage is replaced, and a stage with no
    /// entry yet gains one at the back.
    pub fn with_stage_tasks(self, stage: AutoStage, tasks: Vec<String>) -> (r: AutoConfig)
        ensures
            r.script_task_name == self.script_task_name,
            (forall|k: int| 0 <= k < self.stage_task_names@.len()
                ==> (#[trigger] self.stage_task_names@[k]).0 != stage)
                ==> r.stage_task_names@ == self.stage_task_names@.push((stage, tasks)),
            forall|j: int| 0 <= j < self.stage_task_names@.len()
                && (#[trigger] self.stage_task_names@[j]).0 == stage
                && (forall|k: int| 0 <= k < j
                    ==> (#[trigger] self.stage_task_names@[k]).0 != stage)
                ==> r.stage_task_names@ == self.stage_task_names@.update(j, (stage, tasks)),
    {
        let mut c = self;
        c.add_stage_tasks(stage, tasks);
        c
    }

    /// The configuration with `task_name` appended to `stage`'s tasks,
    /// creating the stage's one-name list at the back when it has none.
    pub fn with_stage_task(self, stage: AutoStage, task_name: String) -> (r: AutoConfig)
        ensures
            r.script_task_name == self.script_task_name,
            (forall|k: int| 0 <= k < self.stage_task_names@.len()
                ==> (#[trigger] self.stage_task_names@[k]).0 != stage)
                ==> r.stage_task_names@.len() == self.stage_task_names@.len() + 1
                    && (forall|k: int| 0 <= k < self.stage_task_names@.len()
                        ==> #[trigger] r.stage_task_names@[k] == self.stage_task_names@[k])
                    && r.stage_task_names@.last().0 == stage
                    && r.stage_task_names@.last().1@ == seq![task_name],
            forall|j: int| 0 <= j < self.stage_task_names@.len()
                && (#[trigger] self.stage_task_names@[j]).0 == stage
                && (forall|k: int| 0 <= k < j
                    ==> (#[trigger] self.stage_task_names@[k]).0 != stage)
                ==> r.stage_task_names@.len() == self.stage_task_names@.len()
                    && (forall|k: int| 0 <= k < self.stage_task_names@.len() && k != j
                        ==> #[trigger] r.stage_task_names@[k] == self.stage_task_names@[k])
                    && r.stage_task_names@[j].0 == stage
                    && r.stage_task_names@[j].1@
                        == self.stage_task_names@[j].1@.push(task_name),
    {
        let mut c = self;
        c.add_stage_task(stage, task_name);
        c
    }

    /// The configuration with its script task set to `task_name`.
    pub fn with_script_task(self, task_name: String) -> (r: AutoConfig)
        ensures
            r.script_task_name == task_name,
            r.stage_task_names == self.stage_task_names,
    {
        let mut c = self;
        c.set_script_task(task_name);
        c
    }

    /// Set the script task's name.
    pub fn set_script_task(&mut self, task_name: String)
        ensures
            final(self).script_task_name == task_name,
            final(self).stage_task_names == old(self).stage_task_names,
    {
        self.script_task_name = task_name;
    }

    /// Set `stage`'s task list to `tasks`: the first entry carrying the
    /// stage is replaced, and a stage with no entry yet gains one at the
    /// back.
    pub fn add_stage_tasks(&mut self, stage: AutoStage, tasks: Vec<String>)
        ensures
            final(self).script_task_name == old(self).script_task_name,
            (forall|k: int| 0 <= k < old(self).stage_task_names@.len()
                ==> (#[trigger] old(self).stage_task_names@[k]).0 != stage)
                ==> final(self).stage_task_names@
                    == old(self).stage_task_names@.push((stage, tasks)),
            forall|j: int| 0 <= j < old(self).stage_task_names@.len()
                && (#[trigger] old(self).stage_task_names@[j]).0 == stage
                && (forall|k: int| 0 <= k < j
                    ==> (#[trigger] old(self).stage_task_names@[k]).0 != stage)
                ==> final(self).stage_task_names@
                    == old(self).stage_task_names@.update(j, (stage, tasks)),
    {
        let mut i: usize = 0;
        while i < self.stage_task_names.len()
            invariant
                i <= self.stage_task_names@.len(),
                self.stage_task_names == old(self).stage_task_names,
                self.script_task_name == old(self).script_task_name,
                forall|k: int| 0 <= k < i
                    ==> (#[trigger] self.stage_task_names@[k]).0 != stage,
            decreases self.stage_task_names@.len() - i,
        {
            if self.stage_task_names[i].0 == stage {
                let ghost gi = i as int;
                self.stage_task_names.set(i, (stage, tasks));
                proof {
                    assert forall|j: int| 0 <= j < old(self).stage_task_names@.len()
                        && (#[trigger] old(self).stage_task_names@[j]).0 == stage
                        && (forall|k: int| 0 <= k < j
                            ==> (#[trigger] old(self).stage_task_names@[k]).0 != stage)
                        implies self.stage_task_names@
                            == old(self).stage_task_names@.update(j, (stage, tasks)) by {
                        if j < gi {
                            assert(old(self).stage_task_names@[j].0 != stage);
                        } else if j > gi {
                            assert(old(self).stage_task_names@[gi].0 != stage);
                        }
                    }
                }
                return;
            }
            i = i + 1;
        }
        self.stage_task_names.push((stage, tasks));
    }

    /// Append `task_name` to `stage`'s tasks: the first entry carrying
    /// the stage grows by the name at the back, and a stage with no entry
    /// yet gains a one-name list at the back.
    pub fn add_stage_task(&mut self, stage: AutoStage, task_name: String)
        ensures
            final(self).script_task_name == old(self).script_task_name,
            (forall|k: int| 0 <= k < old(self).stage_task_names@.len()
                ==> (#[trigger] old(self).stage_task_names@[k]).0 != stage)
                ==> final(self).stage_task_names@.len()
                        == old(self).stage_task_names@.len() + 1
                    && (forall|k: int| 0 <= k < old(self).stage_task_names@.len()
                        ==> #[trigger] final(self).stage_task_names@[k]
                            == old(self).stage_task_names@[k])
                    && final(self).stage_task_names@.last().0 == stage
                    && final(self).stage_task_names@.last().1@ == seq![task_name],
            forall|j: int| 0 <= j < old(self).stage_task_names@.len()
                && (#[trigger] old(self).stage_task_names@[j]).0 == stage
                && (forall|k: int| 0 <= k < j
                    ==> (#[trigger] old(self).stage_task_names@[k]).0 != stage)
                ==> final(self).stage_task_names@.len() == old(self).stage_task_names@.len()
                    && (forall|k: int| 0 <= k < old(self).stage_task_names@.len() && k != j
                        ==> #[trigger] final(self).stage_task_names@[k]
                            == old(self).stage_task_names@[k])
                    && final(self).stage_task_names@[j].0 == stage
                    && final(self).stage_task_names@[j].1@
                        == old(self).stage_task_names@[j].1@.push(task_name),
    {
        let mut i: usize = 0;
        while i < self.stage_task_names.len()
            invariant
                i <= self.stage_task_names@.len(),
                self.stage_task_names == old(self).stage_task_names,
                self.script_task_name == old(self).script_task_name,
                forall|k: int| 0 <= k < i
                    ==> (#[trigger] self.stage_task_names@[k]).0 != stage,
            decreases self.stage_task_names@.len() - i,
        {
            if self.stage_task_names[i].0 == stage {
                let ghost gi = i as int;
                self.stage_task_names[i].1.push(task_name);
                proof {
                    assert forall|j: int| 0 <= j < old(self).stage_task_names@.len()
                        && (#[trigger] old(self).stage_task_names@[j]).0 == stage
                        && (forall|k: int| 0 <= k < j
                            ==> (#[trigger] old(self).stage_task_names@[k]).0 != stage)
                        implies j == gi by {
                        if j < gi {
                            assert(old(self).stage_task_names@[j].0 != stage);
                        } else if j > gi {
                            assert(old(self).stage_task_names@[gi].0 != stage);
                        }
                    }
                }
                return;
            }
            i = i + 1;
        }
        let mut tasks: Vec<String> = Vec::new();
        tasks.push(task_name);
        self.stage_task_names.push((stage, tasks));
    }

    /// The task list configured for `stage`, if any: the first entry with
    /// that stage.
    pub fn get_stage_tasks(&self, stage: AutoStage) -> (r: Option<&Vec<String>>)
        ensures
            (match r {
                Some(v) => exists|i: int| 0 <= i < self.stage_task_names@.len()
                    && (#[trigger] self.stage_task_names@[i]).0 == stage
                    && self.stage_task_names@[i].1 == v
                    && (forall|k: int| 0 <= k < i
                        ==> (#[trigger] self.stage_task_names@[k]).0 != stage),
                None => forall|i: int| 0 <= i < self.stage_task_names@.len()
                    ==> (#[trigger] self.stage_task_names@[i]).0 != stage,
            }),
    {
        let mut i: usize = 0;
        while i < self.stage_task_names.len()
            invariant
                i <= self.stage_task_names@.len(),
                forall|k: int| 0 <= k < i ==> (#[trigger] self.stage_task_names@[k]).0 != stage,
            decreases self.stage_task_names@.len() - i,
        {
            if self.stage_task_names[i].0 == stage {
                return Some(&self.stage_task_names[i].1);
            }
            i = i + 1;
        }
        None
    }
}

/// Whether an input record carries an autonomy-stage update: its topic
/// starts with the stage topic.
pub open spec fn is_auto_stage_update(rec: Record) -> bool {
    match crate::record::topic_of(rec@) {
        Some(t) => crate::text::is_prefix_of("auto/stage"@, t),
        None => false,
    }
}

/// The stage adopted after folding a list of stage texts over `st`: the
/// last text that parses as a stage wins.
pub open spec fn fold_auto_stage_texts(st: AutoStage, texts: Seq<Seq<char>>) -> AutoStage
    decreases texts.len(),
{
    if texts.len() == 0 {
        st
    } else {
        match AutoStage::spec_parse(texts.last()) {
            Some(s) => s,
            None => fold_auto_stage_texts(st, texts.drop_last()),
        }
    }
}

/// The stage adopted after a list of input records, in order: each
/// stage-update record folds its rows' stage texts over the stage so
/// far.
pub open spec fn auto_stage_after(st: AutoStage, inputs: Seq<Record>) -> AutoStage
    decreases inputs.len(),
{
    if inputs.len() == 0 {
        st
    } else {
        let prev = auto_stage_after(st, inputs.drop_last());
        if is_auto_stage_update(inputs.last()) {
            fold_auto_stage_texts(prev, stage_texts_vals(row_objs(inputs.last()@)))
        } else {
            prev
        }
    }
}

/// The task names the first configured entry for `st` holds; a stage
/// with no entry wants none.
pub open spec fn spec_stage_tasks(m: Seq<(AutoStage, Vec<String>)>, st: AutoStage) -> Seq<
    Seq<char>,
>
    decreases m.len(),
{
    if m.len() == 0 {
        Seq::<Seq<char>>::empty()
    } else if m[0].0 == st {
        names_view(m[0].1@)
    } else {
        spec_stage_tasks(m.subrange(1, m.len() as int), st)
    }
}

/// The lookup finds the first matching entry.
proof fn lemma_spec_stage_tasks_at(m: Seq<(AutoStage, Vec<String>)>, j: int, st: AutoStage)
    requires
        0 <= j < m.len(),
        m[j].0 == st,
        forall|k: int| 0 <= k < j ==> (#[trigger] m[k]).0 != st,
    ensures
        spec_stage_tasks(m, st) == names_view(m[j].1@),
    decreases j,
{
    if j > 0 {
        lemma_spec_stage_tasks_at(m.subrange(1, m.len() as int), j - 1, st);
    }
}

/// The lookup misses when no entry carries the stage.
proof fn lemma_spec_stage_tasks_none(m: Seq<(AutoStage, Vec<String>)>, st: AutoStage)
    requires
        forall|k: int| 0 <= k < m.len() ==> (#[trigger] m[k]).0 != st,
    ensures
        spec_stage_tasks(m, st) == Seq::<Seq<char>>::empty(),
    decreases m.len(),
{
    if m.len() > 0 {
        lemma_spec_stage_tasks_none(m.subrange(1, m.len() as int), st);
    }
}

/// The task names an autonomy stage wants running: the stage's
/// configured list, with the script task joining the start stage when it
/// is named and not already listed.
pub open spec fn auto_desired(cfg: AutoConfig, st: AutoStage) -> Seq<Seq<char>> {
    let base = spec_stage_tasks(cfg.stage_task_names@, st);
    if st == AutoStage::AutoStart && cfg.script_task_name@.len() > 0 && !base.contains(
        cfg.script_task_name@,
    ) {
        base.push(cfg.script_task_name@)
    } else {
        base
    }
}

/// The supervisor that reconciles the running set to the observed
/// autonomy stage. It starts in shadow mode and waits for stage updates
/// on `auto/stage`; in the start stage the configured script task joins
/// the desired set.
pub struct AutoRunner {
    pub config: AutoConfig,
    pub stage: AutoStage,
    pub spawned_tasks: Vec<TaskInfo>,
    pub info: TaskInfo,
}

impl AutoRunner {
    /// A supervisor for `config`, starting in shadow mode with nothing
    /// spawned.
    pub fn new(config: AutoConfig) -> (r: AutoRunner)
        ensures
            r.config == config,
            r.stage == AutoStage::AutoShadow,
            r.spawned_tasks@.len() == 0,
            r.info.name@ == "AutoRunner"@,
            r.info.id == crate::info::name_hash("AutoRunner"@),
            r.info.insta_spawn,
    {
        AutoRunner {
            config,
            stage: AutoStage::AutoShadow,
            spawned_tasks: Vec::new(),
            info: TaskInfo::new("AutoRunner").with_insta_spawn(),
        }
    }

    /// One-shot setup: one subscription request for the stage topic
    /// appended to `tx`; nothing is spawned up front, and stage,
    /// configuration and identity are untouched.
    pub fn setup(&mut self, tx: &mut Vec<Record>)
        requires
            all_wf(old(tx)@),
        ensures
            all_wf(final(tx)@),
            *final(self) == *old(self),
            final(tx)@.len() == old(tx)@.len() + 1,
            forall|i: int| 0 <= i < old(tx)@.len() ==> #[trigger] final(tx)@[i] == old(tx)@[i],
            crate::record::flag_of(final(tx)@.last()@)
                == Some(crate::record::RecordFlag::SubscribePacket),
            crate::record::topic_of(final(tx)@.last()@) == Some("auto/stage"@),
    {
        push_record(tx, crate::builders::subscribe_to("auto/stage"));
    }

    /// One supervisor step: adopt the stage updates among `inputs` in
    /// order (within each, the last row text that parses as a stage
    /// wins), then reconcile the spawned set to the adopted stage's
    /// desired task names — the configured list, with the script task
    /// joining the start stage. One spawn command per missing name, in
    /// order, each joining the spawned set with its name's stable hash,
    /// then one kill command per stale identity, in order, each dropping
    /// the first spawned entry carrying its id.
    pub fn step(&mut self, inputs: Vec<Record>, meta_tx: &mut Vec<MetaMessage>)
        requires
            all_wf(inputs@),
        ensures
            final(self).config == old(self).config,
            final(self).info == old(self).info,
            final(self).stage == auto_stage_after(old(self).stage, inputs@),
            ({
                let desired = auto_desired(
                    old(self).config,
                    auto_stage_after(old(self).stage, inputs@),
                );
                let have = info_pairs(old(self).spawned_tasks@);
                let spawns = missing_names(
                    desired,
                    info_pairs_names(old(self).spawned_tasks@),
                );
                let kills = stale_pairs(have, desired);
                final(meta_tx)@.len() == old(meta_tx)@.len() + spawns.len() + kills.len()
                    && (forall|i: int| 0 <= i < old(meta_tx)@.len()
                        ==> #[trigger] final(meta_tx)@[i] == old(meta_tx)@[i])
                    && (forall|i: int| 0 <= i < spawns.len()
                        ==> (#[trigger] final(meta_tx)@[old(meta_tx)@.len() + i]).command
                                == MetaCommand::SpawnTask
                            && final(meta_tx)@[old(meta_tx)@.len() + i].task_info.name@
                                == spawns[i]
                            && final(meta_tx)@[old(meta_tx)@.len() + i].task_info.id
                                == crate::info::name_hash(spawns[i])
                            && final(meta_tx)@[old(meta_tx)@.len() + i].task_info.insta_spawn)
                    && (forall|i: int| 0 <= i < kills.len()
                        ==> (#[trigger] final(meta_tx)@[old(meta_tx)@.len() + spawns.len()
                                + i]).command == MetaCommand::KillTask
                            && final(meta_tx)@[old(meta_tx)@.len() + spawns.len()
                                + i].task_info.name@ == kills[i].0
                            && final(meta_tx)@[old(meta_tx)@.len() + spawns.len()
                                + i].task_info.id == kills[i].1)
                    && info_pairs(final(self).spawned_tasks@)
                        == kill_fold(have + spawn_pairs(spawns), kills)
            }),
    {
        self.adopt(&inputs);
        self.reconcile(meta_tx);
    }

    /// Adopt the stage updates among `inputs`, in order: within each,
    /// the last row text that parses as a stage wins. Nothing else
    /// moves.
    fn adopt(&mut self, inputs: &Vec<Record>)
        requires
            all_wf(inputs@),
        ensures
            final(self).config == old(self).config,
            final(self).info == old(self).info,
            final(self).spawned_tasks == old(self).spawned_tasks,
            final(self).stage == auto_stage_after(old(self).stage, inputs@),
    {
        let ghost st_in = self.stage;
        proof {
            assert(inputs@.subrange(0, 0) =~= Seq::<Record>::empty());
        }
        let mut i: usize = 0;
        while i < inputs.len()
            invariant
                all_wf(inputs@),
                i <= inputs@.len(),
                st_in == old(self).stage,
                self.config == old(self).config,
                self.info == old(self).info,
                self.spawned_tasks == old(self).spawned_tasks,
                self.stage == auto_stage_after(st_in, inputs@.subrange(0, i as int)),
            decreases inputs@.len() - i,
        {
            let ghost gi = i as int;
            let ghost stv = self.stage;
            proof {
                assert((#[trigger] inputs@[gi])@.wf());
                assert(inputs@.subrange(0, gi + 1).drop_last() =~= inputs@.subrange(0, gi));
                assert(inputs@.subrange(0, gi + 1).last() == inputs@[gi]);
            }
            let is_stage = match inputs[i].try_get_topic() {
                Ok(t) => str_starts_with(t.as_str(), "auto/stage"),
                Err(_) => false,
            };
            if is_stage {
                proof {
                    assert(is_auto_stage_update(inputs@[gi]));
                }
                let texts = stage_texts(&inputs[i]);
                let ghost tv = names_view(texts@);
                proof {
                    assert(tv == stage_texts_vals(row_objs(inputs@[gi]@)));
                    assert(tv.subrange(0, 0) =~= Seq::<Seq<char>>::empty());
                }
                let mut k: usize = 0;
                while k < texts.len()
                    invariant
                        k <= texts@.len(),
                        tv == names_view(texts@),
                        tv.len() == texts@.len(),
                        self.config == old(self).config,
                        self.info == old(self).info,
                        self.spawned_tasks == old(self).spawned_tasks,
                        self.stage == fold_auto_stage_texts(stv, tv.subrange(0, k as int)),
                    decreases texts@.len() - k,
                {
                    let ghost gk = k as int;
                    proof {
                        assert(tv.subrange(0, gk + 1).drop_last() =~= tv.subrange(0, gk));
                        assert(tv.subrange(0, gk + 1).last() == tv[gk]);
                        assert(tv[gk] == texts@[gk]@);
                    }
                    match AutoStage::parse(texts[k].as_str()) {
                        Some(s) => {
                            self.stage = s;
                        },
                        None => {},
                    }
                    k = k + 1;
                }
                proof {
                    assert(tv.subrange(0, tv.len() as int) =~= tv);
                    assert(self.stage == auto_stage_after(st_in, inputs@.subrange(0, gi + 1)));
                }
            } else {
                proof {
                    assert(!is_auto_stage_update(inputs@[gi]));
                    assert(self.stage == auto_stage_after(st_in, inputs@.subrange(0, gi + 1)));
                }
            }
            i = i + 1;
        }
        proof {
            assert(inputs@.subrange(0, inputs@.len() as int) =~= inputs@);
        }
    }

    /// Reconcile the spawned set to the current stage's desired task
    /// names, emitting the spawn and kill commands for the difference.
    fn reconcile(&mut self, meta_tx: &mut Vec<MetaMessage>)
        ensures
            final(self).config == old(self).config,
            final(self).info == old(self).info,
            final(self).stage == old(self).stage,
            ({
                let desired = auto_desired(old(self).config, old(self).stage);
                let have = info_pairs(old(self).spawned_tasks@);
                let spawns = missing_names(
                    desired,
                    info_pairs_names(old(self).spawned_tasks@),
                );
                let kills = stale_pairs(have, desired);
                final(meta_tx)@.len() == old(meta_tx)@.len() + spawns.len() + kills.len()
                    && (forall|i: int| 0 <= i < old(meta_tx)@.len()
                        ==> #[trigger] final(meta_tx)@[i] == old(meta_tx)@[i])
                    && (forall|i: int| 0 <= i < spawns.len()
                        ==> (#[trigger] final(meta_tx)@[old(meta_tx)@.len() + i]).command
                                == MetaCommand::SpawnTask
                            && final(meta_tx)@[old(meta_tx)@.len() + i].task_info.name@
                                == spawns[i]
                            && final(meta_tx)@[old(meta_tx)@.len() + i].task_info.id
                                == crate::info::name_hash(spawns[i])
                            && final(meta_tx)@[old(meta_tx)@.len() + i].task_info.insta_spawn)
                    && (forall|i: int| 0 <= i < kills.len()
                        ==> (#[trigger] final(meta_tx)@[old(meta_tx)@.len() + spawns.len()
                                + i]).command == MetaCommand::KillTask
                            && final(meta_tx)@[old(meta_tx)@.len() + spawns.len()
                                + i].task_info.name@ == kills[i].0
                            && final(meta_tx)@[old(meta_tx)@.len() + spawns.len()
                                + i].task_info.id == kills[i].1)
                    && info_pairs(final(self).spawned_tasks@)
                        == kill_fold(have + spawn_pairs(spawns), kills)
            }),
    {
        let ghost m = self.config.stage_task_names@;
        let ghost stf = self.stage;
        let mut desired: Vec<String>;
        match self.config.get_stage_tasks(self.stage) {
            Some(v) => {
                proof {
                    let j = choose|j: int| 0 <= j < m.len() && (#[trigger] m[j]).0 == stf
                        && m[j].1 == v && (forall|k: int| 0 <= k < j
                        ==> (#[trigger] m[k]).0 != stf);
                    lemma_spec_stage_tasks_at(m, j, stf);
                }
                desired = clone_names(v);
            },
            None => {
                proof {
                    lemma_spec_stage_tasks_none(m, stf);
                }
                desired = Vec::new();
            },
        }
        let ghost base = names_view(desired@);
        proof {
            assert(base == spec_stage_tasks(m, stf));
        }
        let script_due = match self.stage {
            AutoStage::AutoStart => self.config.script_task_name.as_str().unicode_len() > 0,
            _ => false,
        };
        if script_due {
            let ghost script = self.config.script_task_name@;
            let mut has_script = false;
            let mut k: usize = 0;
            while k < desired.len()
                invariant
                    k <= desired@.len(),
                    base == names_view(desired@),
                    base.len() == desired@.len(),
                    script == self.config.script_task_name@,
                    has_script == (exists|j: int| 0 <= j < k
                        && (#[trigger] desired@[j])@ == script),
                decreases desired@.len() - k,
            {
                let ghost gk = k as int;
                if str_eq(desired[k].as_str(), self.config.script_task_name.as_str()) {
                    has_script = true;
                    proof {
                        assert(desired@[gk]@ == script);
                    }
                }
                k = k + 1;
            }
            proof {
                assert(has_script == base.contains(script)) by {
                    if has_script {
                        let j = choose|j: int| 0 <= j < desired@.len()
                            && (#[trigger] desired@[j])@ == script;
                        assert(base[j] == script);
                    } else {
                        if base.contains(script) {
                            let j = choose|j: int| 0 <= j < base.len() && base[j] == script;
                            assert(desired@[j]@ == script);
                        }
                    }
                }
            }
            if !has_script {
                let ghost db = desired@;
                desired.push(self.config.script_task_name.clone());
                proof {
                    assert(names_view(desired@) =~= names_view(db).push(script));
                    assert(names_view(desired@) == auto_desired(self.config, stf));
                }
            } else {
                proof {
                    assert(names_view(desired@) == auto_desired(self.config, stf));
                }
            }
        } else {
            proof {
                assert(self.config.script_task_name@.len() == 0 || stf != AutoStage::AutoStart);
                assert(names_view(desired@) == auto_desired(self.config, stf));
            }
        }
        let ghost des = names_view(desired@);
        let ghost have = info_pairs(self.spawned_tasks@);
        let (to_spawn, to_kill) = reconcile_tasks(&desired, &self.spawned_tasks);
        let ghost spawns = names_view(to_spawn@);
        let ghost kills = info_pairs(to_kill@);
        let ghost mtx0 = meta_tx@;
        proof {
            assert(spawns == missing_names(des, info_pairs_names(self.spawned_tasks@)));
            assert(kills == stale_pairs(have, des));
            assert(info_pairs(self.spawned_tasks@)
                =~= have + spawn_pairs(spawns.subrange(0, 0)));
        }
        let mut k: usize = 0;
        while k < to_spawn.len()
            invariant
                k <= to_spawn@.len(),
                spawns == names_view(to_spawn@),
                spawns.len() == to_spawn@.len(),
                self.config == old(self).config,
                self.info == old(self).info,
                self.stage == stf,
                info_pairs(self.spawned_tasks@) == have + spawn_pairs(
                    spawns.subrange(0, k as int),
                ),
                meta_tx@.len() == mtx0.len() + k,
                forall|t: int| 0 <= t < mtx0.len() ==> #[trigger] meta_tx@[t] == mtx0[t],
                forall|t: int| 0 <= t < k
                    ==> (#[trigger] meta_tx@[mtx0.len() + t]).command == MetaCommand::SpawnTask
                        && meta_tx@[mtx0.len() + t].task_info.name@ == spawns[t]
                        && meta_tx@[mtx0.len() + t].task_info.id
                            == crate::info::name_hash(spawns[t])
                        && meta_tx@[mtx0.len() + t].task_info.insta_spawn,
            decreases to_spawn@.len() - k,
        {
            let ghost gk = k as int;
            proof {
                assert(spawns[gk] == to_spawn@[gk]@);
            }
            let info = TaskInfo::new(to_spawn[k].as_str()).with_insta_spawn();
            meta_tx.push(MetaMessage::new(MetaCommand::SpawnTask, info.clone()));
            let ghost sb = self.spawned_tasks@;
            self.spawned_tasks.push(info);
            proof {
                assert(info_pairs(self.spawned_tasks@)
                    =~= info_pairs(sb).push((spawns[gk], crate::info::name_hash(spawns[gk]))));
                assert(spawn_pairs(spawns.subrange(0, gk + 1))
                    =~= spawn_pairs(spawns.subrange(0, gk)).push((
                    spawns[gk],
                    crate::info::name_hash(spawns[gk]),
                )));
                assert(info_pairs(self.spawned_tasks@)
                    =~= have + spawn_pairs(spawns.subrange(0, gk + 1)));
            }
            k = k + 1;
        }
        proof {
            assert(spawns.subrange(0, spawns.len() as int) =~= spawns);
        }
        let ghost s1p = have + spawn_pairs(spawns);
        let ghost mtx1 = meta_tx@;
        proof {
            assert(kill_fold(s1p, kills.subrange(0, 0)) =~= s1p) by {
                assert(kills.subrange(0, 0) =~= Seq::<(Seq<char>, u32)>::empty());
            }
            assert(info_pairs(self.spawned_tasks@) == kill_fold(s1p, kills.subrange(0, 0)));
        }
        let mut k: usize = 0;
        while k < to_kill.len()
            invariant
                k <= to_kill@.len(),
                kills == info_pairs(to_kill@),
                kills.len() == to_kill@.len(),
                mtx1.len() == mtx0.len() + spawns.len(),
                self.config == old(self).config,
                self.info == old(self).info,
                self.stage == stf,
                info_pairs(self.spawned_tasks@) == kill_fold(s1p, kills.subrange(0, k as int)),
                meta_tx@.len() == mtx1.len() + k,
                forall|t: int| 0 <= t < mtx1.len() ==> #[trigger] meta_tx@[t] == mtx1[t],
                forall|t: int| 0 <= t < k
                    ==> (#[trigger] meta_tx@[mtx1.len() + t]).command == MetaCommand::KillTask
                        && meta_tx@[mtx1.len() + t].task_info.name@ == kills[t].0
                        && meta_tx@[mtx1.len() + t].task_info.id == kills[t].1,
            decreases to_kill@.len() - k,
        {
            let ghost gk = k as int;
            proof {
                assert(kills[gk] == (to_kill@[gk].name@, to_kill@[gk].id));
                assert(kills.subrange(0, gk + 1).drop_last() =~= kills.subrange(0, gk));
                assert(kills.subrange(0, gk + 1).last() == kills[gk]);
            }
            let info = to_kill[k].clone();
            remove_info_by_id(&mut self.spawned_tasks, info.id);
            meta_tx.push(MetaMessage::new(MetaCommand::KillTask, info));
            proof {
                assert(info_pairs(self.spawned_tasks@)
                    == remove_first_id_pairs(kill_fold(s1p, kills.subrange(0, gk)), kills[gk].1));
                assert(info_pairs(self.spawned_tasks@)
                    == kill_fold(s1p, kills.subrange(0, gk + 1)));
            }
            k = k + 1;
        }
        proof {
            assert(kills.subrange(0, kills.len() as int) =~= kills);
        }
    }
}

impl Task for AutoRunner {
    /// Subscribe to the stage topic, as `setup` states; nothing is
    /// spawned up front.
    fn init(&mut self, tx: &mut Vec<Record>, meta_tx: &mut Vec<MetaMessage>) -> (r: Result<
        (),
        RecordError,
    >) {
        self.setup(tx);
        Ok(())
    }

    /// Always ready.
    fn should_run(&self) -> Result<bool, RecordError> {
        Ok(true)
    }

    /// Adopt any stage updates, then reconcile the spawned set to the
    /// stage's desired task names, with the script task joining the
    /// start stage, as `step` states.
    fn run(
        &mut self,
        inputs: Vec<Record>,
        tx: &mut Vec<Record>,
        meta_tx: &mut Vec<MetaMessage>,
    ) -> (r: Result<(), RecordError>) {
        self.step(inputs, meta_tx);
        Ok(())
    }

    /// Nothing to tear down.
    fn cleanup(&mut self) -> Result<(), RecordError> {
        Ok(())
    }

    /// The supervisor's identity.
    fn get_task_info(&self) -> &TaskInfo {
        &self.info
    }
}

/// An example mission script: an array of `[time, topic, message]`
/// entries, as the scripted-mission runner reads them from disk.
pub fn get_example_script_json() -> (r: String)
    ensures
        r@.len() > 0,
{
    proof {
        reveal_strlit("[\n  [0.0, \"auto/command\", \"{height: 5.0}\"],\n  [5.0, \"auto/position\", \"{x: 1.0, y: 0.0, z: 2.0}\"],\n  [10.0, \"auto/position\", \"{x: 0.0, y: 1.0, z: 2.5}\"],\n  [15.0, \"auto/command\", \"{land: true}\"]\n]");
    }
    String::from_str("[\n  [0.0, \"auto/command\", \"{height: 5.0}\"],\n  [5.0, \"auto/position\", \"{x: 1.0, y: 0.0, z: 2.0}\"],\n  [10.0, \"auto/position\", \"{x: 0.0, y: 1.0, z: 2.5}\"],\n  [15.0, \"auto/command\", \"{land: true}\"]\n]")
}

} // verus!
