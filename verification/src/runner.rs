//! The cooperative scheduler: task registration and lifecycle,
//! per-subscription delivery queues, topic-pattern routing into them,
//! persistent topic state, and the tick loop.
//!
//! The runner performs no I/O itself. Each tick ends by planning the
//! spills that are due; the caller writes those files and reports the
//! outcomes back, and the runner's sink trims the spilled histories.

use vstd::prelude::*;
use crate::info::{MetaCommand, MetaMessage, TaskInfo};
use crate::logging::{OutputFormat, RunnerLogger, SpillRequest};
use crate::matcher::{matches_spec, topic_matches};
use crate::record::{Record, RecordError, RecordFlag, RecordView};
use crate::state::{RunnerState, StateView, matching_keys, store_get, snapshot_views_ok,
    rec_views};
use crate::subscription_queue::{QueueView, SubscriptionQueue};
use crate::task::{Task, all_wf};

verus! {

broadcast use vstd::std_specs::vec::group_vec_axioms, vstd::seq::group_seq_axioms;

/// The ids of a list of task identities.
pub open spec fn ids_of(v: Seq<TaskInfo>) -> Seq<u32> {
    Seq::new(v.len(), |i: int| v[i].id)
}

/// No value occurs twice.
pub open spec fn no_dups(s: Seq<u32>) -> bool {
    forall|a: int, b: int| 0 <= a < b < s.len() ==> s[a] != s[b]
}

/// The queues after one publish on `topic` is fanned out: exactly the
/// queues whose pattern matches grow by the record at the back.
pub open spec fn routed_queues(qs: Seq<QueueView>, topic: Seq<char>, rv: RecordView) -> Seq<
    QueueView,
> {
    Seq::new(qs.len(), |i: int| if matches_spec(qs[i].pattern, topic) {
        (QueueView { records: qs[i].records.push(rv), ..qs[i] })
    } else {
        qs[i]
    })
}

/// Whether a publish record can be appended to its topic's history: it
/// carries a topic, and the topic is new or stored with the same schema.
pub open spec fn publish_applies(st: StateView, rv: RecordView) -> bool {
    match crate::record::topic_of(rv) {
        None => false,
        Some(t) => match st.get(t) {
            None => true,
            Some(ex) => ex.schema == rv.schema,
        },
    }
}

/// How a successful append leaves the store: a new topic holds the
/// record, an existing one keeps its schema, gains the record's rows at
/// the back and keeps its metadata (the record's entries fill gaps), and
/// every other topic is untouched.
pub open spec fn store_after_publish(pre: StateView, post: StateView, rv: RecordView) -> bool {
    match crate::record::topic_of(rv) {
        None => false,
        Some(t) => match pre.get(t) {
            None => post.get(t) == Some(rv) && (forall|q: Seq<char>|
                q != t ==> post.get(q) == pre.get(q)),
            Some(ex) => (post.get(t) matches Some(nv)
                && nv.schema == ex.schema
                && nv.rows == ex.rows + rv.rows
                && (forall|q2: Seq<char>| #[trigger] crate::record::meta_get(nv.meta, q2)
                    == (match crate::record::meta_get(ex.meta, q2) {
                        Some(x) => Some(x),
                        None => crate::record::meta_get(rv.meta, q2),
                    }))) && (forall|q: Seq<char>| q != t ==> post.get(q) == pre.get(q)),
        },
    }
}

/// What one emitted record does to the store and the queues: a publish
/// that applies is appended to its topic's history and fanned out to
/// exactly the matching queues; any other record leaves both as they
/// are.
pub open spec fn record_step_ok(
    st: StateView,
    qs: Seq<QueueView>,
    rec: Record,
    st2: StateView,
    qs2: Seq<QueueView>,
) -> bool {
    if crate::record::flag_of(rec@) == Some(RecordFlag::PublishPacket) && publish_applies(
        st,
        rec@,
    ) {
        store_after_publish(st, st2, rec@) && qs2 == routed_queues(
            qs,
            crate::record::topic_of(rec@)->Some_0,
            rec@,
        )
    } else {
        st2 == st && qs2 == qs
    }
}

/// A valid application chain for a list of emitted records: one
/// store-and-queues state per position, with each record stepping its
/// state to the next as `record_step_ok` says.
pub open spec fn records_chain_ok(
    chain: Seq<(StateView, Seq<QueueView>)>,
    recs: Seq<Record>,
) -> bool {
    chain.len() == recs.len() + 1 && forall|i: int| 0 <= i < recs.len()
        ==> record_step_ok(
            chain[i].0,
            chain[i].1,
            #[trigger] recs[i],
            chain[i + 1].0,
            chain[i + 1].1,
        )
}

/// The store and the queues after a list of emitted records, applied in
/// order: some chain of intermediate states links the initial pair to
/// the final one, one `record_step_ok` step per record.
pub open spec fn records_post(
    st0: StateView,
    qs0: Seq<QueueView>,
    recs: Seq<Record>,
    st: StateView,
    qs: Seq<QueueView>,
) -> bool {
    exists|chain: Seq<(StateView, Seq<QueueView>)>|
        #[trigger] records_chain_ok(chain, recs) && chain.first() == (st0, qs0) && chain.last()
            == (st, qs)
}

/// The subscription topic one emitted record defers, if any: a subscribe
/// packet carrying a topic defers exactly that topic.
pub open spec fn def_topic_of(rec: Record) -> Seq<Seq<char>> {
    if crate::record::flag_of(rec@) == Some(RecordFlag::SubscribePacket)
        && crate::record::topic_of(rec@) is Some {
        seq![crate::record::topic_of(rec@)->Some_0]
    } else {
        Seq::<Seq<char>>::empty()
    }
}

/// The subscription topics a list of emitted records defers, in order.
pub open spec fn def_topics(recs: Seq<Record>) -> Seq<Seq<char>>
    decreases recs.len(),
{
    if recs.len() == 0 {
        Seq::<Seq<char>>::empty()
    } else {
        def_topics(recs.drop_last()) + def_topic_of(recs.last())
    }
}

/// The queued records of the subscriptions owned by `id`, concatenated
/// in registration order.
pub open spec fn drained_concat(qs: Seq<QueueView>, id: u32) -> Seq<RecordView>
    decreases qs.len(),
{
    if qs.len() == 0 {
        Seq::<RecordView>::empty()
    } else {
        drained_concat(qs.drop_last(), id) + (if qs.last().task_id == id {
            qs.last().records
        } else {
            Seq::<RecordView>::empty()
        })
    }
}

/// The set of ids a sequence holds.
pub open spec fn ids_set(s: Seq<u32>) -> Set<u32> {
    Set::new(|x: u32| s.contains(x))
}

/// Whether `x` is in the running set after the first `k` of a drained
/// batch of meta commands: a kill takes effect at once, and a spawn
/// never touches the running set.
pub open spec fn meta_running_after(
    r0: Set<u32>,
    msgs: Seq<MetaMessage>,
    k: int,
    x: u32,
) -> bool
    decreases k,
{
    if k <= 0 {
        r0.contains(x)
    } else {
        meta_running_after(r0, msgs, k - 1, x) && !(msgs[k - 1].command == MetaCommand::KillTask
            && msgs[k - 1].task_info.id == x)
    }
}

/// Whether `x` is in the pending-spawn set after the first `k` of an
/// init drain's meta commands: a spawn is recorded only for a task not
/// running at that moment.
pub open spec fn init_spawned_after(
    r0: Set<u32>,
    s0: Set<u32>,
    msgs: Seq<MetaMessage>,
    k: int,
    x: u32,
) -> bool
    decreases k,
{
    if k <= 0 {
        s0.contains(x)
    } else {
        init_spawned_after(r0, s0, msgs, k - 1, x) || (msgs[k - 1].command
            == MetaCommand::SpawnTask && msgs[k - 1].task_info.id == x && !meta_running_after(
            r0,
            msgs,
            k - 1,
            x,
        ))
    }
}

/// Whether some command in the list kills `x`.
pub open spec fn metas_kill(metas: Seq<MetaMessage>, x: u32) -> bool {
    exists|j: int| 0 <= j < metas.len() && (#[trigger] metas[j]).command == MetaCommand::KillTask
        && metas[j].task_info.id == x
}

/// Whether some command in the list spawns `x`.
pub open spec fn metas_spawn(metas: Seq<MetaMessage>, x: u32) -> bool {
    exists|j: int| 0 <= j < metas.len() && (#[trigger] metas[j]).command
        == MetaCommand::SpawnTask && metas[j].task_info.id == x
}

/// The queues with those owned by `id` emptied.
pub open spec fn drained_queues(qs: Seq<QueueView>, id: u32) -> Seq<QueueView> {
    Seq::new(qs.len(), |i: int| if qs[i].task_id == id {
        (QueueView { records: Seq::<RecordView>::empty(), ..qs[i] })
    } else {
        qs[i]
    })
}

/// The deferred `(owner id, pattern)` pairs a task's emitted records
/// contribute, in order.
pub open spec fn def_pairs(id: u32, recs: Seq<Record>) -> Seq<(u32, Seq<char>)> {
    Seq::new(def_topics(recs).len(), |i: int| (id, def_topics(recs)[i]))
}

/// One task's observable behaviour during a tick: whether it was
/// scheduled and agreed to run, whether its run call succeeded, and the
/// records and meta commands it emitted.
pub struct TickStep {
    pub ran: bool,
    pub ok: bool,
    pub recs: Seq<Record>,
    pub metas: Seq<MetaMessage>,
}

/// The scheduler state one tick evolves: the running and pending id
/// sets, the queue models, the topic store, and the deferred
/// subscriptions gathered so far as `(owner id, pattern)` pairs.
#[verifier::ext_equal]
pub struct TickView {
    pub running: Set<u32>,
    pub pending: Set<u32>,
    pub queues: Seq<QueueView>,
    pub store: StateView,
    pub deferred: Seq<(u32, Seq<char>)>,
}

/// How one scheduled task evolves the tick state. A task neither
/// running nor pending is skipped. A pending one first moves into the
/// running set. One that declines to run changes nothing more. One that
/// runs first has its queues drained — so it never sees its own
/// publishes of this tick — and, when its run call succeeds, its records
/// are applied in order (`records_post`), its subscription requests are
/// deferred, its kills leave the running set and its spawns join the
/// pending set. A failed run call drains the queues but applies nothing,
/// and the task stays in the running set.
pub open spec fn tick_task_step(pre: TickView, id: u32, step: TickStep, post: TickView) -> bool {
    if !pre.running.contains(id) && !pre.pending.contains(id) {
        !step.ran && post == pre
    } else {
        let promoted = (TickView {
            running: pre.running.insert(id),
            pending: pre.pending.remove(id),
            ..pre
        });
        if !step.ran {
            post == promoted
        } else {
            let drained = (TickView { queues: drained_queues(promoted.queues, id), ..promoted });
            if !step.ok {
                post == drained
            } else {
                records_post(drained.store, drained.queues, step.recs, post.store, post.queues)
                    && post.deferred == drained.deferred + def_pairs(id, step.recs)
                    && post.running == Set::new(|x: u32|
                        drained.running.contains(x) && !metas_kill(step.metas, x))
                    && post.pending == Set::new(|x: u32|
                        drained.pending.contains(x) || metas_spawn(step.metas, x))
            }
        }
    }
}

/// A valid tick trace: one state per position, with the task of each id
/// stepping its state to the next as `tick_task_step` says, in
/// registration order.
pub open spec fn tick_chain_ok(
    chain: Seq<TickView>,
    ids: Seq<u32>,
    steps: Seq<TickStep>,
) -> bool {
    chain.len() == ids.len() + 1 && steps.len() == ids.len() && forall|i: int| 0 <= i < ids.len()
        ==> tick_task_step(chain[i], #[trigger] ids[i], steps[i], chain[i + 1])
}

/// How one task's init call evolves the state: when it succeeds, its
/// records are applied in order, its subscription requests are deferred,
/// and its meta commands move the running and pending sets as
/// `meta_running_after` and `init_spawned_after` say; a failed call
/// changes nothing.
pub open spec fn init_task_step(pre: TickView, id: u32, step: TickStep, post: TickView) -> bool {
    if !step.ok {
        post == pre
    } else {
        records_post(pre.store, pre.queues, step.recs, post.store, post.queues)
            && post.deferred == pre.deferred + def_pairs(id, step.recs)
            && post.running == Set::new(|x: u32|
                meta_running_after(pre.running, step.metas, step.metas.len() as int, x))
            && post.pending == Set::new(|x: u32|
                init_spawned_after(
                    pre.running,
                    pre.pending,
                    step.metas,
                    step.metas.len() as int,
                    x,
                ))
    }
}

/// A valid init trace: one state per position, with each task's init
/// call stepping its state to the next as `init_task_step` says, in
/// registration order.
pub open spec fn init_chain_ok(
    chain: Seq<TickView>,
    ids: Seq<u32>,
    steps: Seq<TickStep>,
) -> bool {
    chain.len() == ids.len() + 1 && steps.len() == ids.len() && forall|i: int| 0 <= i < ids.len()
        ==> init_task_step(chain[i], #[trigger] ids[i], steps[i], chain[i + 1])
}

/// The deferred subscriptions registered at a tick's end: one new queue
/// per pair, in order, owned by the pair's id, on the pair's pattern,
/// seeded with a one-row snapshot of every stored topic the pattern
/// matches; the earlier queues are untouched.
pub open spec fn subs_registered(
    st: StateView,
    qs0: Seq<QueueView>,
    defs: Seq<(u32, Seq<char>)>,
    qs: Seq<QueueView>,
) -> bool {
    qs.len() == qs0.len() + defs.len() && (forall|i: int| 0 <= i < qs0.len()
        ==> #[trigger] qs[i] == qs0[i]) && (forall|i: int| 0 <= i < defs.len()
        ==> (#[trigger] qs[qs0.len() + i]).task_id == defs[i].0
            && qs[qs0.len() + i].pattern == defs[i].1
            && snapshot_views_ok(st.topics, defs[i].1, qs[qs0.len() + i].records))
}

/// The `(owner id, pattern)` pairs of a deferred-subscription list.
pub open spec fn def_view(d: Seq<(TaskInfo, String)>) -> Seq<(u32, Seq<char>)> {
    Seq::new(d.len(), |i: int| (d[i].0.id, d[i].1@))
}

/// One more task extends a tick trace.
proof fn lemma_tick_chain_snoc(
    chain: Seq<TickView>,
    ids: Seq<u32>,
    steps: Seq<TickStep>,
    id: u32,
    step: TickStep,
    post: TickView,
)
    requires
        tick_chain_ok(chain, ids, steps),
        tick_task_step(chain.last(), id, step, post),
    ensures
        tick_chain_ok(chain.push(post), ids.push(id), steps.push(step)),
{
    let c1 = chain.push(post);
    let s1 = steps.push(step);
    let i1 = ids.push(id);
    assert forall|i: int| 0 <= i < i1.len() implies tick_task_step(
        c1[i],
        #[trigger] i1[i],
        s1[i],
        c1[i + 1],
    ) by {
        if i < ids.len() {
            assert(c1[i] == chain[i]);
            assert(c1[i + 1] == chain[i + 1]);
            assert(s1[i] == steps[i]);
            assert(i1[i] == ids[i]);
            assert(tick_task_step(chain[i], ids[i], steps[i], chain[i + 1]));
        } else {
            assert(c1[i] == chain.last());
            assert(c1[i + 1] == post);
            assert(s1[i] == step);
            assert(i1[i] == id);
        }
    }
}

/// One more task extends an init trace.
proof fn lemma_init_chain_snoc(
    chain: Seq<TickView>,
    ids: Seq<u32>,
    steps: Seq<TickStep>,
    id: u32,
    step: TickStep,
    post: TickView,
)
    requires
        init_chain_ok(chain, ids, steps),
        init_task_step(chain.last(), id, step, post),
    ensures
        init_chain_ok(chain.push(post), ids.push(id), steps.push(step)),
{
    let c1 = chain.push(post);
    let s1 = steps.push(step);
    let i1 = ids.push(id);
    assert forall|i: int| 0 <= i < i1.len() implies init_task_step(
        c1[i],
        #[trigger] i1[i],
        s1[i],
        c1[i + 1],
    ) by {
        if i < ids.len() {
            assert(c1[i] == chain[i]);
            assert(c1[i + 1] == chain[i + 1]);
            assert(s1[i] == steps[i]);
            assert(i1[i] == ids[i]);
            assert(init_task_step(chain[i], ids[i], steps[i], chain[i + 1]));
        } else {
            assert(c1[i] == chain.last());
            assert(c1[i + 1] == post);
            assert(s1[i] == step);
            assert(i1[i] == id);
        }
    }
}

/// The cooperative scheduler.
pub struct Runner<T: Task> {
    tasks: Vec<(TaskInfo, T)>,
    spawn_tasks: Vec<TaskInfo>,
    running_tasks: Vec<TaskInfo>,
    state: RunnerState,
    subscription_queues: Vec<SubscriptionQueue>,
    logger: RunnerLogger,
}

impl<T: Task> Runner<T> {
    /// The models of the subscription queues, in registration order.
    pub closed spec fn queues(&self) -> Seq<QueueView> {
        Seq::new(self.subscription_queues@.len(), |i: int| self.subscription_queues@[i]@)
    }

    /// The model of the topic-history store.
    pub closed spec fn state_view(&self) -> StateView {
        self.state@
    }

    /// The ids of the registered tasks, in registration order.
    pub closed spec fn task_ids(&self) -> Seq<u32> {
        Seq::new(self.tasks@.len(), |i: int| self.tasks@[i].0.id)
    }

    /// The ids of the currently running tasks.
    pub closed spec fn running_ids(&self) -> Seq<u32> {
        ids_of(self.running_tasks@)
    }

    /// The ids of the tasks pending spawn.
    pub closed spec fn spawn_ids(&self) -> Seq<u32> {
        ids_of(self.spawn_tasks@)
    }

    /// The sink's configuration.
    pub closed spec fn sink(&self) -> RunnerLogger {
        self.logger
    }

    /// The runner's state as a tick or init trace starts on it: the
    /// running and pending id sets, the queues, the store, and no
    /// deferred subscriptions yet.
    pub open spec fn tick_view(&self) -> TickView {
        TickView {
            running: ids_set(self.running_ids()),
            pending: ids_set(self.spawn_ids()),
            queues: self.queues(),
            store: self.state_view(),
            deferred: Seq::<(u32, Seq<char>)>::empty(),
        }
    }

    /// The store is well formed and every queued record is well formed.
    pub open spec fn wf(&self) -> bool {
        self.state_view().wf()
            && no_dups(self.running_ids())
            && no_dups(self.spawn_ids())
            && forall|i: int| 0 <= i < self.queues().len() ==> (#[trigger] self.queues()[i]).wf()
    }

    /// A runner with no tasks, no queues, an empty store, and a sink
    /// spilling under `logs` at five thousand rows, keeping ten.
    pub fn new() -> (r: Runner<T>)
        ensures
            r.wf(),
            r.queues() =~= Seq::<QueueView>::empty(),
            r.task_ids() =~= Seq::<u32>::empty(),
            r.running_ids() =~= Seq::<u32>::empty(),
            r.spawn_ids() =~= Seq::<u32>::empty(),
            r.state_view().topics =~= Seq::<(Seq<char>, RecordView)>::empty(),
    {
        let mut formats: Vec<OutputFormat> = Vec::new();
        formats.push(OutputFormat::Parquet);
        formats.push(OutputFormat::Csv);
        Runner {
            tasks: Vec::new(),
            spawn_tasks: Vec::new(),
            running_tasks: Vec::new(),
            state: RunnerState::new(),
            subscription_queues: Vec::new(),
            logger: RunnerLogger::new(String::from_str("logs"), 5000, 10, formats, None),
        }
    }

    /// A runner with the given sink.
    pub fn with_logger(logger: RunnerLogger) -> (r: Runner<T>)
        ensures
            r.wf(),
            r.queues() =~= Seq::<QueueView>::empty(),
            r.task_ids() =~= Seq::<u32>::empty(),
            r.running_ids() =~= Seq::<u32>::empty(),
            r.spawn_ids() =~= Seq::<u32>::empty(),
            r.state_view().topics =~= Seq::<(Seq<char>, RecordView)>::empty(),
            r.sink() == logger,
    {
        Runner {
            tasks: Vec::new(),
            spawn_tasks: Vec::new(),
            running_tasks: Vec::new(),
            state: RunnerState::new(),
            subscription_queues: Vec::new(),
            logger,
        }
    }

    /// Whether some identity in the list carries this id.
    fn contains_id(v: &Vec<TaskInfo>, id: u32) -> (r: bool)
        ensures
            r == ids_of(v@).contains(id),
    {
        let mut i: usize = 0;
        while i < v.len()
            invariant
                i <= v@.len(),
                forall|k: int| 0 <= k < i ==> (#[trigger] v@[k]).id != id,
            decreases v@.len() - i,
        {
            if v[i].id == id {
                proof {
                    assert(ids_of(v@)[i as int] == id);
                }
                return true;
            }
            i = i + 1;
        }
        proof {
            assert forall|k: int| 0 <= k < ids_of(v@).len()
                implies #[trigger] ids_of(v@)[k] != id by {
                assert(v@[k].id != id);
            }
        }
        false
    }

    /// Remove the identity with this id from the list, which holds each
    /// id at most once.
    fn remove_id(v: &mut Vec<TaskInfo>, id: u32)
        requires
            no_dups(ids_of(old(v)@)),
        ensures
            no_dups(ids_of(final(v)@)),
            !ids_of(final(v)@).contains(id),
            forall|x: u32| x != id
                ==> (ids_of(final(v)@).contains(x) == ids_of(old(v)@).contains(x)),
    {
        let ghost gold = v@;
        let mut i: usize = 0;
        while i < v.len()
            invariant
                v@ == gold,
                gold == old(v)@,
                no_dups(ids_of(gold)),
                i <= gold.len(),
                forall|k: int| 0 <= k < i ==> (#[trigger] gold[k]).id != id,
            decreases gold.len() - i,
        {
            if v[i].id == id {
                v.remove(i);
                proof {
                    let now = v@;
                    assert(now =~= gold.remove(i as int));
                    assert forall|k: int| 0 <= k < now.len()
                        implies (#[trigger] now[k]).id != id by {
                        if k < i {
                            assert(now[k] == gold[k]);
                        } else {
                            assert(now[k] == gold[k + 1]);
                            assert(ids_of(gold)[i as int] == id);
                            assert(ids_of(gold)[k + 1] == gold[k + 1].id);
                        }
                    }
                    assert forall|x: u32| ids_of(now).contains(x) && x != id
                        implies ids_of(gold).contains(x) by {
                        let k = choose|k: int| 0 <= k < ids_of(now).len()
                            && ids_of(now)[k] == x;
                        let k2: int = if k < i { k } else { k + 1 };
                        assert(ids_of(gold)[k2] == x);
                    }
                    assert forall|x: u32| ids_of(gold).contains(x) && x != id
                        implies ids_of(now).contains(x) by {
                        let k = choose|k: int| 0 <= k < ids_of(gold).len()
                            && ids_of(gold)[k] == x;
                        assert(gold[k].id == x);
                        let k2: int = if k < i { k } else { k - 1 };
                        assert(ids_of(now)[k2] == x);
                    }
                    if ids_of(now).contains(id) {
                        let k = choose|k: int| 0 <= k < ids_of(now).len()
                            && ids_of(now)[k] == id;
                        assert(now[k].id == id);
                        assert(false);
                    }
                    assert forall|a: int, b: int| 0 <= a < b < ids_of(now).len()
                        implies ids_of(now)[a] != ids_of(now)[b] by {
                        let a2: int = if a < i { a } else { a + 1 };
                        let b2: int = if b < i { b } else { b + 1 };
                        assert(ids_of(gold)[a2] == now[a].id);
                        assert(ids_of(gold)[b2] == now[b].id);
                    }
                }
                return;
            }
            i = i + 1;
        }
        proof {
            if ids_of(gold).contains(id) {
                let k = choose|k: int| 0 <= k < ids_of(gold).len() && ids_of(gold)[k] == id;
                assert(gold[k].id == id);
                assert(false);
            }
        }
    }

    /// Whether `task_info`'s task is currently running.
    pub fn is_task_running(&self, task_info: &TaskInfo) -> (r: bool)
        ensures
            r == self.running_ids().contains(task_info.id),
    {
        Self::contains_id(&self.running_tasks, task_info.id)
    }

    /// Mark a registered task as running; unknown tasks are refused.
    pub fn start_task(&mut self, task_info: &TaskInfo) -> (r: Result<(), RecordError>)
        requires
            old(self).wf(),
        ensures
            final(self).wf(),
            r is Ok <==> old(self).task_ids().contains(task_info.id),
            r is Err ==> r->Err_0 == RecordError::TaskNotFound && *final(self) == *old(self),
            r is Ok ==> final(self).running_ids().contains(task_info.id)
                && (forall|x: u32| x != task_info.id
                    ==> final(self).running_ids().contains(x)
                        == old(self).running_ids().contains(x)),
            final(self).task_ids() == old(self).task_ids(),
            final(self).spawn_ids() == old(self).spawn_ids(),
            final(self).queues() == old(self).queues(),
            final(self).state_view() == old(self).state_view(),
    {
        let mut found = false;
        let mut i: usize = 0;
        while i < self.tasks.len()
            invariant
                i <= self.tasks@.len(),
                self.task_ids().len() == self.tasks@.len(),
                forall|k: int| 0 <= k < self.tasks@.len()
                    ==> self.task_ids()[k] == self.tasks@[k].0.id,
                found ==> self.task_ids().contains(task_info.id),
                !found ==> forall|k: int| 0 <= k < i
                    ==> (#[trigger] self.tasks@[k]).0.id != task_info.id,
            decreases self.tasks@.len() - i,
        {
            if self.tasks[i].0.id == task_info.id {
                proof {
                    assert(self.task_ids()[i as int] == task_info.id);
                }
                found = true;
            }
            i = i + 1;
        }
        if !found {
            proof {
                assert forall|k: int| 0 <= k < self.task_ids().len()
                    implies #[trigger] self.task_ids()[k] != task_info.id by {
                    assert(self.tasks@[k].0.id != task_info.id);
                }
            }
            return Err(RecordError::TaskNotFound);
        }
        if !Self::contains_id(&self.running_tasks, task_info.id) {
            let ghost before = self.running_tasks@;
            self.running_tasks.push(task_info.clone());
            proof {
                assert(self.queues() =~= old(self).queues());
                assert(self.task_ids() =~= old(self).task_ids());
                assert(self.spawn_ids() =~= old(self).spawn_ids());
                assert forall|a: int, b: int| 0 <= a < b < ids_of(self.running_tasks@).len()
                    implies ids_of(self.running_tasks@)[a] != ids_of(self.running_tasks@)[b] by {
                    if b < before.len() {
                        assert(ids_of(before)[a] == self.running_tasks@[a].id);
                        assert(ids_of(before)[b] == self.running_tasks@[b].id);
                    } else {
                        assert(self.running_tasks@[b].id == task_info.id);
                        assert(ids_of(before)[a] == self.running_tasks@[a].id);
                        if self.running_tasks@[a].id == task_info.id {
                            assert(ids_of(before).contains(task_info.id));
                            assert(false);
                        }
                    }
                }
            }
            proof {
                assert(ids_of(self.running_tasks@)[before.len() as int] == task_info.id);
                assert forall|x: u32| x != task_info.id
                    implies ids_of(self.running_tasks@).contains(x) == ids_of(before).contains(x)
                by {
                    if ids_of(self.running_tasks@).contains(x) {
                        let k = choose|k: int| 0 <= k < ids_of(self.running_tasks@).len()
                            && ids_of(self.running_tasks@)[k] == x;
                        assert(k < before.len());
                        assert(ids_of(before)[k] == x);
                    }
                    if ids_of(before).contains(x) {
                        let k = choose|k: int| 0 <= k < ids_of(before).len()
                            && ids_of(before)[k] == x;
                        assert(ids_of(self.running_tasks@)[k] == x);
                    }
                }
            }
        }
        Ok(())
    }

    /// Take a task out of the running set; unknown or stopped tasks are
    /// left as they are.
    pub fn stop_task(&mut self, task_info: &TaskInfo) -> (r: Result<(), RecordError>)
        requires
            old(self).wf(),
        ensures
            final(self).wf(),
            r is Ok,
            !final(self).running_ids().contains(task_info.id),
            forall|x: u32| x != task_info.id
                ==> final(self).running_ids().contains(x) == old(self).running_ids().contains(x),
            final(self).task_ids() == old(self).task_ids(),
            final(self).spawn_ids() == old(self).spawn_ids(),
            final(self).queues() == old(self).queues(),
            final(self).state_view() == old(self).state_view(),
    {
        Self::remove_id(&mut self.running_tasks, task_info.id);
        proof {
            assert(self.queues() =~= old(self).queues());
            assert(self.task_ids() =~= old(self).task_ids());
            assert(self.spawn_ids() =~= old(self).spawn_ids());
        }
        Ok(())
    }
}

} // verus!

verus! {

impl<T: Task> Runner<T> {
    /// Register a task under the identity it reports, as
    /// `add_task_as` states; nothing links the reported identity to the
    /// task's type, so the exact effect is stated there.
    pub fn add_task(&mut self, task: T)
        requires
            old(self).wf(),
        ensures
            final(self).wf(),
            final(self).queues() == old(self).queues(),
            final(self).state_view() == old(self).state_view(),
            final(self).running_ids() == old(self).running_ids(),
            final(self).sink() == old(self).sink(),
            old(self).task_ids().len() <= final(self).task_ids().len()
                <= old(self).task_ids().len() + 1,
            forall|k: int| 0 <= k < old(self).task_ids().len()
                ==> #[trigger] final(self).task_ids()[k] == old(self).task_ids()[k],
    {
        let info = task.get_task_info().clone();
        self.add_task_as(info, task);
    }

    /// Register `task` under `info`, replacing any earlier task with the
    /// same id; an insta-spawn identity joins the pending-spawn set so
    /// the task runs from the next tick on. The running set, the queues,
    /// the store and the sink are untouched.
    pub fn add_task_as(&mut self, info: TaskInfo, task: T)
        requires
            old(self).wf(),
        ensures
            final(self).wf(),
            final(self).queues() == old(self).queues(),
            final(self).state_view() == old(self).state_view(),
            final(self).running_ids() == old(self).running_ids(),
            final(self).sink() == old(self).sink(),
            old(self).task_ids().contains(info.id)
                ==> final(self).task_ids() == old(self).task_ids(),
            !old(self).task_ids().contains(info.id)
                ==> final(self).task_ids() == old(self).task_ids().push(info.id),
            final(self).task_ids().contains(info.id),
            final(self).spawn_ids().contains(info.id)
                == (old(self).spawn_ids().contains(info.id) || info.insta_spawn),
            forall|x: u32| x != info.id
                ==> final(self).spawn_ids().contains(x) == old(self).spawn_ids().contains(x),
    {
        let id = info.id;
        if info.insta_spawn && !Self::contains_id(&self.spawn_tasks, id) {
            let ghost before = self.spawn_tasks@;
            self.spawn_tasks.push(info.clone());
            proof {
                assert(self.queues() =~= old(self).queues());
                assert forall|a: int, b: int| 0 <= a < b < ids_of(self.spawn_tasks@).len()
                    implies ids_of(self.spawn_tasks@)[a] != ids_of(self.spawn_tasks@)[b] by {
                    if b < before.len() {
                        assert(ids_of(before)[a] == self.spawn_tasks@[a].id);
                        assert(ids_of(before)[b] == self.spawn_tasks@[b].id);
                    } else {
                        assert(self.spawn_tasks@[b].id == id);
                        assert(ids_of(before)[a] == self.spawn_tasks@[a].id);
                        if self.spawn_tasks@[a].id == id {
                            assert(ids_of(before).contains(id));
                            assert(false);
                        }
                    }
                }
                assert(ids_of(self.spawn_tasks@)[before.len() as int] == id);
                assert forall|x: u32| x != id
                    implies ids_of(self.spawn_tasks@).contains(x) == ids_of(before).contains(x)
                by {
                    if ids_of(self.spawn_tasks@).contains(x) {
                        let k = choose|k: int| 0 <= k < ids_of(self.spawn_tasks@).len()
                            && ids_of(self.spawn_tasks@)[k] == x;
                        assert(k < before.len());
                        assert(ids_of(before)[k] == x);
                    }
                    if ids_of(before).contains(x) {
                        let k = choose|k: int| 0 <= k < ids_of(before).len()
                            && ids_of(before)[k] == x;
                        assert(ids_of(self.spawn_tasks@)[k] == x);
                    }
                }
            }
        }
        let mut idx: Option<usize> = None;
        let mut i: usize = 0;
        while i < self.tasks.len()
            invariant
                i <= self.tasks@.len(),
                idx matches Some(j) ==> j < self.tasks@.len() && self.tasks@[j as int].0.id == id,
                idx is None ==> forall|k: int| 0 <= k < i
                    ==> (#[trigger] self.tasks@[k]).0.id != id,
            decreases self.tasks@.len() - i,
        {
            if self.tasks[i].0.id == id {
                idx = Some(i);
                i = self.tasks.len();
            } else {
                i = i + 1;
            }
        }
        let ghost gq = self.queues();
        let ghost gids = self.task_ids();
        match idx {
            Some(j) => {
                proof {
                    assert(gids[j as int] == id);
                }
                self.tasks.set(j, (info, task));
                proof {
                    assert(self.queues() =~= gq);
                    assert(self.task_ids() =~= gids);
                }
            },
            None => {
                proof {
                    assert forall|k: int| 0 <= k < gids.len()
                        implies #[trigger] gids[k] != id by {
                        assert(self.tasks@[k].0.id != id);
                    }
                }
                self.tasks.push((info, task));
                proof {
                    assert(self.queues() =~= gq);
                    assert(self.task_ids() =~= gids.push(id));
                    assert(self.task_ids().last() == id);
                }
            },
        }
    }

    /// Push a publish on `topic` into every queue whose pattern matches
    /// it: exactly the matching queues grow by this one record at the
    /// back, every other queue is unchanged, and nothing else moves.
    pub fn route_message_to_subscribers(&mut self, topic: &str, message: &Record)
        requires
            old(self).wf(),
            message@.wf(),
        ensures
            final(self).wf(),
            final(self).queues().len() == old(self).queues().len(),
            forall|i: int| 0 <= i < old(self).queues().len()
                ==> #[trigger] final(self).queues()[i]
                    == (if matches_spec(old(self).queues()[i].pattern, topic@) {
                        (QueueView {
                            records: old(self).queues()[i].records.push(message@),
                            ..old(self).queues()[i]
                        })
                    } else {
                        old(self).queues()[i]
                    }),
            final(self).task_ids() == old(self).task_ids(),
            final(self).running_ids() == old(self).running_ids(),
            final(self).spawn_ids() == old(self).spawn_ids(),
            final(self).state_view() == old(self).state_view(),
            final(self).sink() == old(self).sink(),
    {
        let ghost gq = old(self).queues();
        let mut i: usize = 0;
        while i < self.subscription_queues.len()
            invariant
                message@.wf(),
                self.state_view().wf(),
                no_dups(self.running_ids()),
                no_dups(self.spawn_ids()),
                gq == old(self).queues(),
                self.queues().len() == gq.len(),
                i <= gq.len(),
                forall|k: int| 0 <= k < i
                    ==> #[trigger] self.queues()[k]
                        == (if matches_spec(gq[k].pattern, topic@) {
                            (QueueView { records: gq[k].records.push(message@), ..gq[k] })
                        } else {
                            gq[k]
                        }),
                forall|k: int| i <= k < gq.len() ==> #[trigger] self.queues()[k] == gq[k],
                forall|k: int| 0 <= k < self.queues().len()
                    ==> (#[trigger] self.queues()[k]).wf(),
                self.task_ids() == old(self).task_ids(),
                self.running_ids() == old(self).running_ids(),
                self.spawn_ids() == old(self).spawn_ids(),
                self.state_view() == old(self).state_view(),
                self.sink() == old(self).sink(),
            decreases gq.len() - i,
        {
            let hit = {
                let pattern = self.subscription_queues[i].topic_pattern();
                topic_matches(pattern, topic)
            };
            if hit {
                let ghost qbefore = self.queues();
                proof {
                    assert((#[trigger] self.queues()[i as int]).wf());
                    assert(self.subscription_queues@[i as int]@ == self.queues()[i as int]);
                    assert(self.queues()[i as int] == gq[i as int]);
                }
                self.subscription_queues[i].push(message.clone());
                proof {
                    assert(self.subscription_queues@[i as int]@ == self.queues()[i as int]);
                }
                proof {
                    assert forall|k: int| 0 <= k < self.queues().len() && k != i
                        implies #[trigger] self.queues()[k] == qbefore[k] by {
                        assert(self.subscription_queues@[k] == old(self).subscription_queues@[k]
                            || true);
                    }
                    assert(self.queues()[i as int].records
                        =~= gq[i as int].records.push(message@));
                    assert(self.queues()[i as int]
                        == (QueueView {
                            records: gq[i as int].records.push(message@),
                            ..gq[i as int]
                        }));
                    assert(self.task_ids() =~= old(self).task_ids());
                }
            }
            i = i + 1;
        }
    }

    /// Register a new subscription queue for `(task_info, topic)` and
    /// seed it with a one-row snapshot of every stored topic matching the
    /// pattern, so a late subscriber sees the current state.
    pub fn add_subscription(&mut self, task_info: &TaskInfo, topic: String)
        requires
            old(self).wf(),
        ensures
            final(self).wf(),
            final(self).queues().len() == old(self).queues().len() + 1,
            forall|i: int| 0 <= i < old(self).queues().len()
                ==> #[trigger] final(self).queues()[i] == old(self).queues()[i],
            final(self).queues().last().task_id == task_info.id,
            final(self).queues().last().pattern == topic@,
            snapshot_views_ok(
                old(self).state_view().topics,
                topic@,
                final(self).queues().last().records,
            ),
            final(self).task_ids() == old(self).task_ids(),
            final(self).running_ids() == old(self).running_ids(),
            final(self).spawn_ids() == old(self).spawn_ids(),
            final(self).state_view() == old(self).state_view(),
            final(self).sink() == old(self).sink(),
    {
        let snapshot = self.state.query_latest_topic_data(topic.as_str());
        let ghost gt = topic@;
        let ghost gtopics = self.state_view().topics;
        let mut q = SubscriptionQueue::new(task_info.clone(), topic);
        let mut i: usize = 0;
        let ghost gsnap = snapshot@;
        while i < snapshot.len()
            invariant
                snapshot@ == gsnap,
                i <= gsnap.len(),
                q@.task_id == task_info.id,
                q@.pattern == gt,
                q@.wf(),
                q@.records.len() == i,
                snapshot_views_ok(gtopics, gt, rec_views(gsnap)),
                forall|k: int| 0 <= k < i ==> #[trigger] q@.records[k] == gsnap[k]@,
            decreases gsnap.len() - i,
        {
            proof {
                assert(rec_views(gsnap)[i as int] == gsnap[i as int]@);
                assert((rec_views(gsnap)[i as int]).wf());
            }
            q.push(snapshot[i].clone());
            i = i + 1;
        }
        let ghost gq = self.queues();
        let ghost gqv = q@;
        self.subscription_queues.push(q);
        proof {
            assert(self.queues().len() == gq.len() + 1);
            assert forall|k: int| 0 <= k < gq.len()
                implies #[trigger] self.queues()[k] == gq[k] by {}
            assert(self.queues().last() == self.queues()[gq.len() as int]);
            assert(self.queues().last() == gqv);
            assert(self.task_ids() =~= old(self).task_ids());
            assert(gqv.records =~= rec_views(gsnap));
        }
    }

    /// Record the spawn and kill commands a task issued during its tick:
    /// a spawned id joins the pending set, a killed id leaves the running
    /// set, and nothing else moves.
    fn apply_meta_tick(&mut self, msgs: Vec<MetaMessage>)
        requires
            old(self).wf(),
        ensures
            final(self).wf(),
            final(self).queues() == old(self).queues(),
            final(self).state_view() == old(self).state_view(),
            final(self).task_ids() == old(self).task_ids(),
            final(self).sink() == old(self).sink(),
            forall|x: u32| final(self).running_ids().contains(x)
                == (old(self).running_ids().contains(x)
                    && !(exists|j: int| 0 <= j < msgs@.len()
                        && (#[trigger] msgs@[j]).command == MetaCommand::KillTask
                        && msgs@[j].task_info.id == x)),
            forall|x: u32| final(self).spawn_ids().contains(x)
                == (old(self).spawn_ids().contains(x)
                    || (exists|j: int| 0 <= j < msgs@.len()
                        && (#[trigger] msgs@[j]).command == MetaCommand::SpawnTask
                        && msgs@[j].task_info.id == x)),
    {
        let mut k: usize = 0;
        while k < msgs.len()
            invariant
                self.wf(),
                k <= msgs@.len(),
                self.queues() == old(self).queues(),
                self.state_view() == old(self).state_view(),
                self.task_ids() == old(self).task_ids(),
                self.sink() == old(self).sink(),
                forall|x: u32| self.running_ids().contains(x)
                    == (old(self).running_ids().contains(x)
                        && !(exists|j: int| 0 <= j < k
                            && (#[trigger] msgs@[j]).command == MetaCommand::KillTask
                            && msgs@[j].task_info.id == x)),
                forall|x: u32| self.spawn_ids().contains(x)
                    == (old(self).spawn_ids().contains(x)
                        || (exists|j: int| 0 <= j < k
                            && (#[trigger] msgs@[j]).command == MetaCommand::SpawnTask
                            && msgs@[j].task_info.id == x)),
            decreases msgs@.len() - k,
        {
            let ghost gk = k as int;
            let ghost runb = self.running_ids();
            let ghost spawnb = self.spawn_ids();
            let msg = &msgs[k];
            match msg.command {
                MetaCommand::SpawnTask => {
                    if !Self::contains_id(&self.spawn_tasks, msg.task_info.id) {
                        let ghost before = self.spawn_tasks@;
                        self.spawn_tasks.push(msg.task_info.clone());
                        proof {
                            assert(self.queues() =~= old(self).queues());
                            assert(self.task_ids() =~= old(self).task_ids());
                            assert forall|a: int, b: int|
                                0 <= a < b < ids_of(self.spawn_tasks@).len()
                                implies ids_of(self.spawn_tasks@)[a]
                                    != ids_of(self.spawn_tasks@)[b] by {
                                if b < before.len() {
                                    assert(ids_of(before)[a] == self.spawn_tasks@[a].id);
                                    assert(ids_of(before)[b] == self.spawn_tasks@[b].id);
                                } else {
                                    assert(self.spawn_tasks@[b].id == msg.task_info.id);
                                    assert(ids_of(before)[a] == self.spawn_tasks@[a].id);
                                    if self.spawn_tasks@[a].id == msg.task_info.id {
                                        assert(ids_of(before).contains(msg.task_info.id));
                                        assert(false);
                                    }
                                }
                            }
                            assert(ids_of(self.spawn_tasks@)[before.len() as int]
                                == msg.task_info.id);
                            assert forall|x: u32| x != msg.task_info.id
                                implies ids_of(self.spawn_tasks@).contains(x)
                                    == ids_of(before).contains(x) by {
                                if ids_of(self.spawn_tasks@).contains(x) {
                                    let a = choose|a: int|
                                        0 <= a < ids_of(self.spawn_tasks@).len()
                                        && ids_of(self.spawn_tasks@)[a] == x;
                                    assert(a < before.len());
                                    assert(ids_of(before)[a] == x);
                                }
                                if ids_of(before).contains(x) {
                                    let a = choose|a: int| 0 <= a < ids_of(before).len()
                                        && ids_of(before)[a] == x;
                                    assert(ids_of(self.spawn_tasks@)[a] == x);
                                }
                            }
                        }
                    }
                },
                MetaCommand::KillTask => {
                    Self::remove_id(&mut self.running_tasks, msg.task_info.id);
                    proof {
                        assert(self.queues() =~= old(self).queues());
                        assert(self.task_ids() =~= old(self).task_ids());
                    }
                },
            }
            proof {
                assert forall|x: u32| self.running_ids().contains(x)
                    == (old(self).running_ids().contains(x)
                        && !(exists|j: int| 0 <= j < gk + 1
                            && (#[trigger] msgs@[j]).command == MetaCommand::KillTask
                            && msgs@[j].task_info.id == x)) by {
                    if msgs@[gk].command == MetaCommand::KillTask
                        && msgs@[gk].task_info.id == x {
                        assert(!self.running_ids().contains(x));
                    } else {
                        assert(self.running_ids().contains(x) == runb.contains(x));
                        assert((exists|j: int| 0 <= j < gk + 1
                            && (#[trigger] msgs@[j]).command == MetaCommand::KillTask
                            && msgs@[j].task_info.id == x)
                            == (exists|j: int| 0 <= j < gk
                                && (#[trigger] msgs@[j]).command == MetaCommand::KillTask
                                && msgs@[j].task_info.id == x)) by {
                            if exists|j: int| 0 <= j < gk + 1
                                && (#[trigger] msgs@[j]).command == MetaCommand::KillTask
                                && msgs@[j].task_info.id == x {
                                let j = choose|j: int| 0 <= j < gk + 1
                                    && (#[trigger] msgs@[j]).command == MetaCommand::KillTask
                                    && msgs@[j].task_info.id == x;
                                assert(j < gk);
                            }
                        }
                    }
                }
                assert forall|x: u32| self.spawn_ids().contains(x)
                    == (old(self).spawn_ids().contains(x)
                        || (exists|j: int| 0 <= j < gk + 1
                            && (#[trigger] msgs@[j]).command == MetaCommand::SpawnTask
                            && msgs@[j].task_info.id == x)) by {
                    if msgs@[gk].command == MetaCommand::SpawnTask
                        && msgs@[gk].task_info.id == x {
                        assert(self.spawn_ids().contains(x));
                    } else {
                        assert(self.spawn_ids().contains(x) == spawnb.contains(x));
                        assert((exists|j: int| 0 <= j < gk + 1
                            && (#[trigger] msgs@[j]).command == MetaCommand::SpawnTask
                            && msgs@[j].task_info.id == x)
                            == (exists|j: int| 0 <= j < gk
                                && (#[trigger] msgs@[j]).command == MetaCommand::SpawnTask
                                && msgs@[j].task_info.id == x)) by {
                            if exists|j: int| 0 <= j < gk + 1
                                && (#[trigger] msgs@[j]).command == MetaCommand::SpawnTask
                                && msgs@[j].task_info.id == x {
                                let j = choose|j: int| 0 <= j < gk + 1
                                    && (#[trigger] msgs@[j]).command == MetaCommand::SpawnTask
                                    && msgs@[j].task_info.id == x;
                                assert(j < gk);
                            }
                        }
                    }
                }
            }
            k = k + 1;
        }
    }

    /// Record the meta commands a task issued during its init, in order:
    /// a kill leaves the running set at once, and a spawn is recorded as
    /// pending only for a task not running at that moment, as
    /// `meta_running_after` and `init_spawned_after` state step by step.
    fn apply_meta_init(&mut self, msgs: &Vec<MetaMessage>)
        requires
            old(self).wf(),
        ensures
            final(self).wf(),
            final(self).queues() == old(self).queues(),
            final(self).state_view() == old(self).state_view(),
            final(self).task_ids() == old(self).task_ids(),
            final(self).sink() == old(self).sink(),
            forall|x: u32| final(self).running_ids().contains(x)
                == meta_running_after(
                    ids_set(old(self).running_ids()),
                    msgs@,
                    msgs@.len() as int,
                    x,
                ),
            forall|x: u32| final(self).spawn_ids().contains(x)
                == init_spawned_after(
                    ids_set(old(self).running_ids()),
                    ids_set(old(self).spawn_ids()),
                    msgs@,
                    msgs@.len() as int,
                    x,
                ),
    {
        let ghost r0 = ids_set(old(self).running_ids());
        let ghost s0 = ids_set(old(self).spawn_ids());
        let mut k: usize = 0;
        while k < msgs.len()
            invariant
                self.wf(),
                k <= msgs@.len(),
                r0 == ids_set(old(self).running_ids()),
                s0 == ids_set(old(self).spawn_ids()),
                self.queues() == old(self).queues(),
                self.state_view() == old(self).state_view(),
                self.task_ids() == old(self).task_ids(),
                self.sink() == old(self).sink(),
                forall|x: u32| self.running_ids().contains(x)
                    == meta_running_after(r0, msgs@, k as int, x),
                forall|x: u32| self.spawn_ids().contains(x)
                    == init_spawned_after(r0, s0, msgs@, k as int, x),
            decreases msgs@.len() - k,
        {
            let ghost gk = k as int;
            let ghost runb = self.running_ids();
            let ghost spawnb = self.spawn_ids();
            let msg = &msgs[k];
            match msg.command {
                MetaCommand::SpawnTask => {
                    if !Self::contains_id(&self.running_tasks, msg.task_info.id)
                        && !Self::contains_id(&self.spawn_tasks, msg.task_info.id) {
                        let ghost before = self.spawn_tasks@;
                        self.spawn_tasks.push(msg.task_info.clone());
                        proof {
                            assert(self.queues() =~= old(self).queues());
                            assert(self.task_ids() =~= old(self).task_ids());
                            assert forall|a: int, b: int|
                                0 <= a < b < ids_of(self.spawn_tasks@).len()
                                implies ids_of(self.spawn_tasks@)[a]
                                    != ids_of(self.spawn_tasks@)[b] by {
                                if b < before.len() {
                                    assert(ids_of(before)[a] == self.spawn_tasks@[a].id);
                                    assert(ids_of(before)[b] == self.spawn_tasks@[b].id);
                                } else {
                                    assert(self.spawn_tasks@[b].id == msg.task_info.id);
                                    assert(ids_of(before)[a] == self.spawn_tasks@[a].id);
                                    if self.spawn_tasks@[a].id == msg.task_info.id {
                                        assert(ids_of(before).contains(msg.task_info.id));
                                        assert(false);
                                    }
                                }
                            }
                            assert(ids_of(self.spawn_tasks@)[before.len() as int]
                                == msg.task_info.id);
                            assert forall|x: u32| x != msg.task_info.id
                                implies ids_of(self.spawn_tasks@).contains(x)
                                    == ids_of(before).contains(x) by {
                                if ids_of(self.spawn_tasks@).contains(x) {
                                    let a = choose|a: int|
                                        0 <= a < ids_of(self.spawn_tasks@).len()
                                        && ids_of(self.spawn_tasks@)[a] == x;
                                    assert(a < before.len());
                                    assert(ids_of(before)[a] == x);
                                }
                                if ids_of(before).contains(x) {
                                    let a = choose|a: int| 0 <= a < ids_of(before).len()
                                        && ids_of(before)[a] == x;
                                    assert(ids_of(self.spawn_tasks@)[a] == x);
                                }
                            }
                        }
                    }
                },
                MetaCommand::KillTask => {
                    Self::remove_id(&mut self.running_tasks, msg.task_info.id);
                    proof {
                        assert(self.queues() =~= old(self).queues());
                        assert(self.task_ids() =~= old(self).task_ids());
                    }
                },
            }
            proof {
                assert forall|x: u32| self.running_ids().contains(x)
                    == meta_running_after(r0, msgs@, gk + 1, x) by {
                    assert(runb.contains(x) == meta_running_after(r0, msgs@, gk, x));
                    if msgs@[gk].command == MetaCommand::KillTask
                        && msgs@[gk].task_info.id == x {
                        assert(!self.running_ids().contains(x));
                    } else {
                        assert(self.running_ids().contains(x) == runb.contains(x));
                    }
                }
                assert forall|x: u32| self.spawn_ids().contains(x)
                    == init_spawned_after(r0, s0, msgs@, gk + 1, x) by {
                    assert(spawnb.contains(x) == init_spawned_after(r0, s0, msgs@, gk, x));
                    assert(runb.contains(x) == meta_running_after(r0, msgs@, gk, x));
                    if msgs@[gk].command == MetaCommand::SpawnTask
                        && msgs@[gk].task_info.id == x {
                        if runb.contains(x) {
                            assert(self.spawn_ids().contains(x) == spawnb.contains(x));
                        } else if spawnb.contains(x) {
                            assert(self.spawn_ids().contains(x));
                        } else {
                            assert(self.spawn_ids().contains(x));
                        }
                    } else {
                        assert(self.spawn_ids().contains(x) == spawnb.contains(x));
                    }
                }
            }
            k = k + 1;
        }
    }

    /// Apply the records a task emitted, in order: a subscribe packet
    /// defers a new queue registration for its owner, a publish packet is
    /// appended to the topic's history and fanned out to every matching
    /// queue, as `records_post` states step by step. Malformed records
    /// and failed appends are skipped; they never stop the runner.
    fn process_records(
        &mut self,
        owner: &TaskInfo,
        records: Vec<Record>,
        deferred: &mut Vec<(TaskInfo, String)>,
    )
        requires
            old(self).wf(),
            all_wf(records@),
        ensures
            final(self).wf(),
            final(self).task_ids() == old(self).task_ids(),
            final(self).running_ids() == old(self).running_ids(),
            final(self).spawn_ids() == old(self).spawn_ids(),
            final(self).sink() == old(self).sink(),
            records_post(
                old(self).state_view(),
                old(self).queues(),
                records@,
                final(self).state_view(),
                final(self).queues(),
            ),
            final(deferred)@.len() == old(deferred)@.len() + def_topics(records@).len(),
            forall|i: int| 0 <= i < old(deferred)@.len()
                ==> #[trigger] final(deferred)@[i] == old(deferred)@[i],
            forall|i: int| 0 <= i < def_topics(records@).len()
                ==> (#[trigger] final(deferred)@[old(deferred)@.len() + i]).0.id == owner.id
                    && final(deferred)@[old(deferred)@.len() + i].0.name@ == owner.name@
                    && final(deferred)@[old(deferred)@.len() + i].1@
                        == def_topics(records@)[i],
    {
        let ghost st0 = self.state_view();
        let ghost qs0 = self.queues();
        let ghost d0 = deferred@;
        let ghost mut chain: Seq<(StateView, Seq<QueueView>)> = seq![(st0, qs0)];
        proof {
            assert(records@.subrange(0, 0) =~= Seq::<Record>::empty());
        }
        let mut k: usize = 0;
        while k < records.len()
            invariant
                self.wf(),
                all_wf(records@),
                k <= records@.len(),
                st0 == old(self).state_view(),
                qs0 == old(self).queues(),
                d0 == old(deferred)@,
                self.task_ids() == old(self).task_ids(),
                self.running_ids() == old(self).running_ids(),
                self.spawn_ids() == old(self).spawn_ids(),
                self.sink() == old(self).sink(),
                records_chain_ok(chain, records@.subrange(0, k as int)),
                chain.first() == (st0, qs0),
                chain.last() == (self.state_view(), self.queues()),
                deferred@.len() == d0.len() + def_topics(records@.subrange(0, k as int)).len(),
                forall|i: int| 0 <= i < d0.len() ==> #[trigger] deferred@[i] == d0[i],
                forall|i: int| 0 <= i < def_topics(records@.subrange(0, k as int)).len()
                    ==> (#[trigger] deferred@[d0.len() + i]).0.id == owner.id
                        && deferred@[d0.len() + i].0.name@ == owner.name@
                        && deferred@[d0.len() + i].1@
                            == def_topics(records@.subrange(0, k as int))[i],
            decreases records@.len() - k,
        {
            let ghost gk = k as int;
            let ghost pre = records@.subrange(0, gk);
            let ghost stp = self.state_view();
            let ghost qsp = self.queues();
            let ghost dp = def_topics(pre);
            proof {
                assert(records@.subrange(0, gk + 1).drop_last() =~= pre);
                assert(records@.subrange(0, gk + 1).last() == records@[gk]);
            }
            let rec = &records[k];
            match rec.get_flag() {
                Ok(RecordFlag::SubscribePacket) => {
                    match rec.try_get_topic() {
                        Ok(t) => {
                            proof {
                                assert(def_topic_of(records@[gk]) =~= seq![t@]);
                            }
                            deferred.push((owner.clone(), t));
                        },
                        Err(_) => {
                            proof {
                                assert(def_topic_of(records@[gk])
                                    =~= Seq::<Seq<char>>::empty());
                            }
                        },
                    }
                },
                Ok(RecordFlag::PublishPacket) => {
                    proof {
                        assert((#[trigger] records@[gk])@.wf());
                        assert(def_topic_of(records@[gk]) =~= Seq::<Seq<char>>::empty());
                    }
                    match rec.try_get_topic() {
                        Ok(t) => {
                            let ghost qsnap = self.queues();
                            let ghost rsnap = self.running_ids();
                            let ghost ssnap = self.spawn_ids();
                            let ghost tsnap = self.task_ids();
                            let applied = self.state.apply_record(rec);
                            proof {
                                assert(self.queues() =~= qsnap);
                                assert(self.running_ids() =~= rsnap);
                                assert(self.spawn_ids() =~= ssnap);
                                assert(self.task_ids() =~= tsnap);
                                assert(self.wf());
                            }
                            if applied.is_ok() {
                                proof {
                                    assert(publish_applies(stp, records@[gk]@));
                                    assert(store_after_publish(
                                        stp,
                                        self.state_view(),
                                        records@[gk]@,
                                    ));
                                }
                                let ghost stmid = self.state_view();
                                self.route_message_to_subscribers(t.as_str(), rec);
                                proof {
                                    assert(self.state_view() == stmid);
                                    assert(self.queues() =~= routed_queues(
                                        qsp,
                                        t@,
                                        records@[gk]@,
                                    ));
                                    assert(record_step_ok(
                                        stp,
                                        qsp,
                                        records@[gk],
                                        self.state_view(),
                                        self.queues(),
                                    ));
                                }
                            } else {
                                proof {
                                    assert(!publish_applies(stp, records@[gk]@));
                                }
                            }
                        },
                        Err(_) => {
                            proof {
                                assert(!publish_applies(stp, records@[gk]@));
                            }
                        },
                    }
                },
                Err(_) => {
                    proof {
                        assert(def_topic_of(records@[gk]) =~= Seq::<Seq<char>>::empty());
                    }
                },
            }
            proof {
                assert(record_step_ok(stp, qsp, records@[gk], self.state_view(), self.queues()));
                let ghost prev = chain;
                chain = chain.push((self.state_view(), self.queues()));
                assert(records_chain_ok(chain, records@.subrange(0, gk + 1))) by {
                    assert(chain.len() == gk + 2);
                    assert forall|i: int| 0 <= i < gk + 1 implies record_step_ok(
                        chain[i].0,
                        chain[i].1,
                        #[trigger] records@.subrange(0, gk + 1)[i],
                        chain[i + 1].0,
                        chain[i + 1].1,
                    ) by {
                        assert(records@.subrange(0, gk + 1)[i] == records@[i]);
                        if i < gk {
                            assert(chain[i] == prev[i]);
                            assert(chain[i + 1] == prev[i + 1]);
                            assert(records@.subrange(0, gk)[i] == records@[i]);
                            assert(record_step_ok(
                                prev[i].0,
                                prev[i].1,
                                records@.subrange(0, gk)[i],
                                prev[i + 1].0,
                                prev[i + 1].1,
                            ));
                        } else {
                            assert(chain[i] == prev.last());
                            assert(prev.last() == (stp, qsp));
                            assert(chain[i + 1] == (self.state_view(), self.queues()));
                        }
                    }
                }
                assert(def_topics(records@.subrange(0, gk + 1))
                    =~= dp + def_topic_of(records@[gk]));
            }
            k = k + 1;
        }
        proof {
            assert(records@.subrange(0, records@.len() as int) =~= records@);
            assert(records_chain_ok(chain, records@));
            assert(chain.last() == (self.state_view(), self.queues()));
        }
    }

    /// Move a pending task into the running set: its id leaves the
    /// pending-spawn set and joins the running set, and nothing else
    /// moves.
    fn promote_task(&mut self, info: TaskInfo)
        requires
            old(self).wf(),
        ensures
            final(self).wf(),
            final(self).queues() == old(self).queues(),
            final(self).state_view() == old(self).state_view(),
            final(self).task_ids() == old(self).task_ids(),
            final(self).sink() == old(self).sink(),
            !final(self).spawn_ids().contains(info.id),
            forall|x: u32| x != info.id
                ==> final(self).spawn_ids().contains(x) == old(self).spawn_ids().contains(x),
            final(self).running_ids().contains(info.id),
            forall|x: u32| x != info.id
                ==> final(self).running_ids().contains(x)
                    == old(self).running_ids().contains(x),
    {
        let id = info.id;
        Self::remove_id(&mut self.spawn_tasks, id);
        proof {
            assert(self.queues() =~= old(self).queues());
            assert(self.state_view() =~= old(self).state_view());
            assert(self.task_ids() =~= old(self).task_ids());
        }
        if !Self::contains_id(&self.running_tasks, id) {
            let ghost before = self.running_tasks@;
            self.running_tasks.push(info);
            proof {
                assert(self.queues() =~= old(self).queues());
                assert(self.state_view() =~= old(self).state_view());
                assert(self.task_ids() =~= old(self).task_ids());
                assert forall|a: int, b: int| 0 <= a < b < ids_of(self.running_tasks@).len()
                    implies ids_of(self.running_tasks@)[a] != ids_of(self.running_tasks@)[b] by {
                    if b < before.len() {
                        assert(ids_of(before)[a] == self.running_tasks@[a].id);
                        assert(ids_of(before)[b] == self.running_tasks@[b].id);
                    } else {
                        assert(self.running_tasks@[b].id == id);
                        assert(ids_of(before)[a] == self.running_tasks@[a].id);
                        if self.running_tasks@[a].id == id {
                            assert(ids_of(before).contains(id));
                            assert(false);
                        }
                    }
                }
                assert(ids_of(self.running_tasks@)[before.len() as int] == id);
                assert forall|x: u32| x != id
                    implies ids_of(self.running_tasks@).contains(x) == ids_of(before).contains(x)
                by {
                    if ids_of(self.running_tasks@).contains(x) {
                        let a = choose|a: int| 0 <= a < ids_of(self.running_tasks@).len()
                            && ids_of(self.running_tasks@)[a] == x;
                        assert(a < before.len());
                        assert(ids_of(before)[a] == x);
                    }
                    if ids_of(before).contains(x) {
                        let a = choose|a: int| 0 <= a < ids_of(before).len()
                            && ids_of(before)[a] == x;
                        assert(ids_of(self.running_tasks@)[a] == x);
                    }
                }
            }
        }
    }

    /// Drain every subscription queue owned by `id`: the handed-back
    /// records are their contents concatenated in registration order,
    /// those queues are left empty, and every other queue is untouched.
    fn drain_inputs(&mut self, id: u32) -> (inputs: Vec<Record>)
        requires
            old(self).wf(),
        ensures
            final(self).wf(),
            all_wf(inputs@),
            rec_views(inputs@) == drained_concat(old(self).queues(), id),
            final(self).queues().len() == old(self).queues().len(),
            forall|i: int| 0 <= i < old(self).queues().len()
                ==> #[trigger] final(self).queues()[i] == (if old(self).queues()[i].task_id
                    == id {
                    (QueueView {
                        records: Seq::<RecordView>::empty(),
                        ..old(self).queues()[i]
                    })
                } else {
                    old(self).queues()[i]
                }),
            final(self).task_ids() == old(self).task_ids(),
            final(self).running_ids() == old(self).running_ids(),
            final(self).spawn_ids() == old(self).spawn_ids(),
            final(self).state_view() == old(self).state_view(),
            final(self).sink() == old(self).sink(),
    {
        let ghost gq = old(self).queues();
        let mut inputs: Vec<Record> = Vec::new();
        proof {
            assert(gq.subrange(0, 0) =~= Seq::<QueueView>::empty());
            assert(rec_views(inputs@) =~= Seq::<RecordView>::empty());
        }
        let mut qi: usize = 0;
        while qi < self.subscription_queues.len()
            invariant
                self.wf(),
                gq == old(self).queues(),
                self.queues().len() == gq.len(),
                qi <= gq.len(),
                all_wf(inputs@),
                rec_views(inputs@) == drained_concat(gq.subrange(0, qi as int), id),
                forall|i: int| 0 <= i < qi
                    ==> #[trigger] self.queues()[i] == (if gq[i].task_id == id {
                        (QueueView { records: Seq::<RecordView>::empty(), ..gq[i] })
                    } else {
                        gq[i]
                    }),
                forall|i: int| qi <= i < gq.len() ==> #[trigger] self.queues()[i] == gq[i],
                self.task_ids() == old(self).task_ids(),
                self.running_ids() == old(self).running_ids(),
                self.spawn_ids() == old(self).spawn_ids(),
                self.state_view() == old(self).state_view(),
                self.sink() == old(self).sink(),
            decreases gq.len() - qi,
        {
            let ghost gqi = qi as int;
            let ghost pre = gq.subrange(0, gqi);
            proof {
                assert(gq.subrange(0, gqi + 1).drop_last() =~= pre);
                assert(gq.subrange(0, gqi + 1).last() == gq[gqi]);
            }
            let mine = self.subscription_queues[qi].task_info().id == id;
            if mine {
                let ghost qbefore = self.queues();
                proof {
                    assert((#[trigger] self.queues()[gqi]).wf());
                    assert(self.subscription_queues@[gqi]@ == self.queues()[gqi]);
                    assert(self.queues()[gqi] == gq[gqi]);
                }
                let mut drained = self.subscription_queues[qi].drain();
                proof {
                    assert(self.subscription_queues@[gqi]@ == self.queues()[gqi]);
                    assert forall|i: int| 0 <= i < self.queues().len() && i != gqi
                        implies #[trigger] self.queues()[i] == qbefore[i] by {}
                    assert(self.queues()[gqi]
                        =~= (QueueView { records: Seq::<RecordView>::empty(), ..gq[gqi] }));
                    assert forall|i: int| 0 <= i < self.queues().len()
                        implies (#[trigger] self.queues()[i]).wf() by {
                        if i != gqi {
                            assert(self.queues()[i] == qbefore[i]);
                        }
                    }
                    assert(self.task_ids() =~= old(self).task_ids());
                    assert(rec_views(drained@) =~= gq[gqi].records);
                }
                let ghost inb = rec_views(inputs@);
                while drained.len() > 0
                    invariant
                        all_wf(inputs@),
                        all_wf(drained@),
                        rec_views(inputs@) + rec_views(drained@) == inb + gq[gqi].records,
                    decreases drained@.len(),
                {
                    let ghost ib = inputs@;
                    let ghost db = drained@;
                    proof {
                        assert((#[trigger] drained@[0])@.wf());
                    }
                    let x = drained.remove(0);
                    inputs.push(x);
                    proof {
                        assert(drained@ =~= db.subrange(1, db.len() as int));
                        assert(rec_views(inputs@) =~= rec_views(ib).push(db[0]@));
                        assert(rec_views(drained@)
                            =~= rec_views(db).subrange(1, db.len() as int));
                        assert(rec_views(db)[0] == db[0]@);
                        assert(rec_views(inputs@) + rec_views(drained@)
                            =~= rec_views(ib) + rec_views(db));
                        assert forall|i: int| 0 <= i < inputs@.len()
                            implies (#[trigger] inputs@[i])@.wf() by {
                            if i < ib.len() {
                                assert(inputs@[i] == ib[i]);
                            }
                        }
                    }
                }
                proof {
                    assert(rec_views(drained@) =~= Seq::<RecordView>::empty());
                    assert(rec_views(inputs@) =~= inb + gq[gqi].records);
                    assert(drained_concat(gq.subrange(0, gqi + 1), id)
                        == drained_concat(pre, id) + gq[gqi].records);
                }
            } else {
                proof {
                    assert(self.subscription_queues@[gqi]@ == self.queues()[gqi]);
                    assert(self.queues()[gqi] == gq[gqi]);
                    assert(gq[gqi].task_id != id);
                    assert(drained_concat(gq.subrange(0, gqi + 1), id)
                        =~= drained_concat(pre, id) + Seq::<RecordView>::empty());
                    assert(drained_concat(gq.subrange(0, gqi + 1), id)
                        =~= drained_concat(pre, id));
                }
            }
            qi = qi + 1;
        }
        proof {
            assert(gq.subrange(0, gq.len() as int) =~= gq);
        }
        inputs
    }

    /// Drain both channels of every registered task once: subscriptions
    /// are registered (seeded with current state), publishes are stored
    /// and fanned out, and meta commands update the lifecycle sets. The
    /// init trace in the contract pins the evolution: some per-task
    /// trace of emissions links the starting state to the final one
    /// through `init_task_step`, and the deferred subscriptions are
    /// registered at the end against the final store.
    pub fn init(&mut self) -> (r: Result<(), RecordError>)
        requires
            old(self).wf(),
        ensures
            final(self).wf(),
            r is Ok,
            final(self).task_ids() == old(self).task_ids(),
            final(self).sink() == old(self).sink(),
            exists|chain: Seq<TickView>, steps: Seq<TickStep>|
                #[trigger] init_chain_ok(chain, old(self).task_ids(), steps)
                && chain.first() == old(self).tick_view()
                && final(self).state_view() == chain.last().store
                && ids_set(final(self).running_ids()) == chain.last().running
                && ids_set(final(self).spawn_ids()) == chain.last().pending
                && subs_registered(
                    chain.last().store,
                    chain.last().queues,
                    chain.last().deferred,
                    final(self).queues(),
                ),
    {
        let mut deferred: Vec<(TaskInfo, String)> = Vec::new();
        let ghost n = self.tasks@.len();
        let ghost idsq = old(self).task_ids();
        let ghost mut chain: Seq<TickView> = seq![self.tick_view()];
        let ghost mut steps: Seq<TickStep> = Seq::<TickStep>::empty();
        proof {
            assert(def_view(deferred@) =~= Seq::<(u32, Seq<char>)>::empty());
            assert(idsq.subrange(0, 0) =~= Seq::<u32>::empty());
        }
        let mut ti: usize = 0;
        while ti < self.tasks.len()
            invariant
                self.wf(),
                self.tasks@.len() == n,
                ti <= n,
                idsq == old(self).task_ids(),
                idsq.len() == n,
                self.task_ids() == old(self).task_ids(),
                self.sink() == old(self).sink(),
                chain.len() == ti as int + 1,
                steps.len() == ti as int,
                init_chain_ok(chain, idsq.subrange(0, ti as int), steps),
                chain.first() == old(self).tick_view(),
                chain.last().store == self.state_view(),
                chain.last().queues == self.queues(),
                chain.last().running == ids_set(self.running_ids()),
                chain.last().pending == ids_set(self.spawn_ids()),
                chain.last().deferred == def_view(deferred@),
            decreases n - ti,
        {
            let ghost gti = ti as int;
            let ghost pre = chain.last();
            let ghost id = self.tasks@[gti].0.id;
            proof {
                assert(self.task_ids()[gti] == id);
                assert(idsq[gti] == id);
                assert(idsq.subrange(0, gti + 1) =~= idsq.subrange(0, gti).push(id));
            }
            let mut out_r: Vec<Record> = Vec::new();
            let mut out_m: Vec<MetaMessage> = Vec::new();
            let ghost gids = self.task_ids();
            let ghost st0 = self.state_view();
            let ghost q0 = self.queues();
            let ghost r0 = self.running_ids();
            let ghost s0 = self.spawn_ids();
            let ok = {
                let t = &mut self.tasks[ti];
                t.1.init(&mut out_r, &mut out_m)
            };
            proof {
                assert(self.task_ids() =~= gids);
                assert(self.state_view() =~= st0);
                assert(self.queues() =~= q0);
                assert(self.running_ids() =~= r0);
                assert(self.spawn_ids() =~= s0);
                assert(self.wf());
            }
            if ok.is_ok() {
                let owner = self.tasks[ti].0.clone();
                let ghost d0 = deferred@;
                self.process_records(&owner, out_r, &mut deferred);
                let ghost st_mid = self.state_view();
                let ghost qs_mid = self.queues();
                self.apply_meta_init(&out_m);
                proof {
                    let stepv = TickStep { ran: true, ok: true, recs: out_r@, metas: out_m@ };
                    let post = TickView {
                        running: ids_set(self.running_ids()),
                        pending: ids_set(self.spawn_ids()),
                        queues: self.queues(),
                        store: self.state_view(),
                        deferred: def_view(deferred@),
                    };
                    assert(self.state_view() == st_mid);
                    assert(self.queues() == qs_mid);
                    assert(records_post(pre.store, pre.queues, out_r@, post.store, post.queues));
                    assert(post.deferred =~= pre.deferred + def_pairs(id, out_r@)) by {
                        assert(owner.id == id);
                        assert(def_view(d0) == pre.deferred);
                        assert(def_view(deferred@).len()
                            == d0.len() + def_topics(out_r@).len());
                        assert forall|k: int| 0 <= k < def_view(deferred@).len()
                            implies #[trigger] def_view(deferred@)[k]
                                == (pre.deferred + def_pairs(id, out_r@))[k] by {
                            if k < d0.len() {
                                assert(deferred@[k] == d0[k]);
                                assert(def_view(d0)[k] == pre.deferred[k]);
                            } else {
                                let i = k - d0.len();
                                assert((#[trigger] deferred@[d0.len() + i]).0.id == owner.id);
                                assert(deferred@[d0.len() + i].1@ == def_topics(out_r@)[i]);
                                assert(def_pairs(id, out_r@)[i]
                                    == (id, def_topics(out_r@)[i]));
                            }
                        }
                    }
                    assert(ids_set(r0) =~= pre.running);
                    assert(ids_set(s0) =~= pre.pending);
                    assert(post.running =~= Set::new(|x: u32|
                        meta_running_after(pre.running, out_m@, out_m@.len() as int, x)));
                    assert(post.pending =~= Set::new(|x: u32|
                        init_spawned_after(
                            pre.running,
                            pre.pending,
                            out_m@,
                            out_m@.len() as int,
                            x,
                        )));
                    assert(init_task_step(pre, id, stepv, post));
                    lemma_init_chain_snoc(chain, idsq.subrange(0, gti), steps, id, stepv, post);
                    chain = chain.push(post);
                    steps = steps.push(stepv);
                }
            } else {
                proof {
                    let stepv = TickStep { ran: true, ok: false, recs: out_r@, metas: out_m@ };
                    let post = TickView {
                        running: ids_set(self.running_ids()),
                        pending: ids_set(self.spawn_ids()),
                        queues: self.queues(),
                        store: self.state_view(),
                        deferred: def_view(deferred@),
                    };
                    assert(post =~= pre);
                    assert(init_task_step(pre, id, stepv, post));
                    lemma_init_chain_snoc(chain, idsq.subrange(0, gti), steps, id, stepv, post);
                    chain = chain.push(post);
                    steps = steps.push(stepv);
                }
            }
            ti = ti + 1;
        }
        proof {
            assert(idsq.subrange(0, n as int) =~= idsq);
        }
        let ghost endv = chain.last();
        let mut d: usize = 0;
        while d < deferred.len()
            invariant
                self.wf(),
                d <= deferred@.len(),
                endv == chain.last(),
                endv.deferred == def_view(deferred@),
                self.task_ids() == old(self).task_ids(),
                self.sink() == old(self).sink(),
                self.state_view() == endv.store,
                ids_set(self.running_ids()) == endv.running,
                ids_set(self.spawn_ids()) == endv.pending,
                self.queues().len() == endv.queues.len() + d,
                forall|i: int| 0 <= i < endv.queues.len()
                    ==> #[trigger] self.queues()[i] == endv.queues[i],
                forall|i: int| 0 <= i < d
                    ==> (#[trigger] self.queues()[endv.queues.len() + i]).task_id
                            == endv.deferred[i].0
                        && self.queues()[endv.queues.len() + i].pattern == endv.deferred[i].1
                        && snapshot_views_ok(
                            endv.store.topics,
                            endv.deferred[i].1,
                            self.queues()[endv.queues.len() + i].records,
                        ),
            decreases deferred@.len() - d,
        {
            let ghost gd = d as int;
            let info = deferred[d].0.clone();
            let t = deferred[d].1.clone();
            proof {
                assert(info.id == endv.deferred[gd].0);
                assert(t@ == endv.deferred[gd].1);
            }
            self.add_subscription(&info, t);
            proof {
                assert(ids_set(self.running_ids()) =~= endv.running);
                assert(ids_set(self.spawn_ids()) =~= endv.pending);
            }
            d = d + 1;
        }
        proof {
            assert(subs_registered(endv.store, endv.queues, endv.deferred, self.queues()));
            assert(init_chain_ok(chain, idsq, steps));
        }
        Ok(())
    }

    /// One tick: every registered task in registration order is skipped
    /// unless running or pending; a pending task starts running; a task
    /// that agrees to run receives its drained queue contents, and its
    /// publishes, subscriptions and meta commands are applied. The tick
    /// trace in the contract pins the evolution: some per-task trace of
    /// emissions links the starting state to the final one through
    /// `tick_task_step`, so a publish is routed before later-scheduled
    /// tasks drain (and after its publisher drained), a task whose run
    /// call fails stays in the running set, kills and spawns move the id
    /// sets, and the deferred subscriptions are registered at the end
    /// against the final store. The spills now due are handed back for
    /// the caller to write.
    pub fn run(&mut self) -> (spills: Vec<SpillRequest>)
        requires
            old(self).wf(),
        ensures
            final(self).wf(),
            final(self).task_ids() == old(self).task_ids(),
            final(self).sink() == old(self).sink(),
            exists|chain: Seq<TickView>, steps: Seq<TickStep>|
                #[trigger] tick_chain_ok(chain, old(self).task_ids(), steps)
                && chain.first() == old(self).tick_view()
                && final(self).state_view() == chain.last().store
                && ids_set(final(self).running_ids()) == chain.last().running
                && ids_set(final(self).spawn_ids()) == chain.last().pending
                && subs_registered(
                    chain.last().store,
                    chain.last().queues,
                    chain.last().deferred,
                    final(self).queues(),
                ),
            forall|k: int| 0 <= k < spills@.len()
                ==> crate::logging::plan_entry_ok(
                    #[trigger] spills@[k],
                    final(self).state_view(),
                    final(self).sink().spec_root(),
                    final(self).sink().spec_session(),
                    Seq::<char>::empty(),
                )
                    && (store_get(final(self).state_view().topics, spills@[k].topic@)->Some_0)
                        .rows.len() >= final(self).sink().spec_trigger()
                    && final(self).sink().spec_formats().contains(spills@[k].format),
            final(self).sink().spec_formats().contains(OutputFormat::Parquet)
                ==> forall|i: int| 0 <= i < final(self).state_view().topics.len()
                    && (#[trigger] final(self).state_view().topics[i]).1.rows.len()
                        >= final(self).sink().spec_trigger()
                    ==> exists|k: int| 0 <= k < spills@.len()
                        && (#[trigger] spills@[k]).topic@ == final(self).state_view().topics[i].0
                        && spills@[k].format == OutputFormat::Parquet,
            final(self).sink().spec_formats().contains(OutputFormat::Csv)
                ==> forall|i: int| 0 <= i < final(self).state_view().topics.len()
                    && (#[trigger] final(self).state_view().topics[i]).1.rows.len()
                        >= final(self).sink().spec_trigger()
                    && crate::flatten::flatten_ok(final(self).state_view().topics[i].1.schema)
                    ==> exists|k: int| 0 <= k < spills@.len()
                        && (#[trigger] spills@[k]).topic@ == final(self).state_view().topics[i].0
                        && spills@[k].format == OutputFormat::Csv,
    {
        let mut deferred: Vec<(TaskInfo, String)> = Vec::new();
        let ghost n = self.tasks@.len();
        let ghost idsq = old(self).task_ids();
        let ghost mut chain: Seq<TickView> = seq![self.tick_view()];
        let ghost mut steps: Seq<TickStep> = Seq::<TickStep>::empty();
        proof {
            assert(def_view(deferred@) =~= Seq::<(u32, Seq<char>)>::empty());
            assert(idsq.subrange(0, 0) =~= Seq::<u32>::empty());
        }
        let mut ti: usize = 0;
        while ti < self.tasks.len()
            invariant
                self.wf(),
                self.tasks@.len() == n,
                ti <= n,
                idsq == old(self).task_ids(),
                idsq.len() == n,
                self.task_ids() == old(self).task_ids(),
                self.sink() == old(self).sink(),
                chain.len() == ti as int + 1,
                steps.len() == ti as int,
                tick_chain_ok(chain, idsq.subrange(0, ti as int), steps),
                chain.first() == old(self).tick_view(),
                chain.last().store == self.state_view(),
                chain.last().queues == self.queues(),
                chain.last().running == ids_set(self.running_ids()),
                chain.last().pending == ids_set(self.spawn_ids()),
                chain.last().deferred == def_view(deferred@),
            decreases n - ti,
        {
            let ghost gti = ti as int;
            let ghost pre = chain.last();
            let id = self.tasks[ti].0.id;
            proof {
                assert(self.task_ids()[gti] == id);
                assert(idsq[gti] == id);
                assert(idsq.subrange(0, gti + 1) =~= idsq.subrange(0, gti).push(id));
            }
            let pending = Self::contains_id(&self.spawn_tasks, id);
            let runn = Self::contains_id(&self.running_tasks, id);
            if !runn && !pending {
                proof {
                    let stepv = TickStep {
                        ran: false,
                        ok: false,
                        recs: Seq::<Record>::empty(),
                        metas: Seq::<MetaMessage>::empty(),
                    };
                    assert(!pre.running.contains(id) && !pre.pending.contains(id));
                    assert(tick_task_step(pre, id, stepv, pre));
                    lemma_tick_chain_snoc(chain, idsq.subrange(0, gti), steps, id, stepv, pre);
                    chain = chain.push(pre);
                    steps = steps.push(stepv);
                }
                ti = ti + 1;
                continue;
            }
            proof {
                assert(pre.running.contains(id) || pre.pending.contains(id));
            }
            if pending {
                let info = self.tasks[ti].0.clone();
                self.promote_task(info);
                proof {
                    assert(self.tasks@.len() == self.task_ids().len());
                }
            }
            let ghost promoted = (TickView {
                running: pre.running.insert(id),
                pending: pre.pending.remove(id),
                ..pre
            });
            proof {
                assert(ids_set(self.running_ids()) =~= promoted.running);
                assert(ids_set(self.spawn_ids()) =~= promoted.pending);
                assert(self.queues() == pre.queues);
                assert(self.state_view() == pre.store);
            }
            let should = {
                let t = &self.tasks[ti];
                t.1.should_run()
            };
            let should_go = match should {
                Ok(b) => b,
                Err(_) => false,
            };
            if !should_go {
                proof {
                    let stepv = TickStep {
                        ran: false,
                        ok: false,
                        recs: Seq::<Record>::empty(),
                        metas: Seq::<MetaMessage>::empty(),
                    };
                    let post = TickView {
                        running: ids_set(self.running_ids()),
                        pending: ids_set(self.spawn_ids()),
                        queues: self.queues(),
                        store: self.state_view(),
                        deferred: def_view(deferred@),
                    };
                    assert(post =~= promoted);
                    assert(tick_task_step(pre, id, stepv, post));
                    lemma_tick_chain_snoc(chain, idsq.subrange(0, gti), steps, id, stepv, post);
                    chain = chain.push(post);
                    steps = steps.push(stepv);
                }
                ti = ti + 1;
                continue;
            }
            let inputs = self.drain_inputs(id);
            let ghost drained = (TickView {
                queues: drained_queues(promoted.queues, id),
                ..promoted
            });
            proof {
                assert(self.tasks@.len() == self.task_ids().len());
                assert(self.queues() =~= drained.queues);
                assert(ids_set(self.running_ids()) =~= drained.running);
                assert(ids_set(self.spawn_ids()) =~= drained.pending);
                assert(self.state_view() == drained.store);
            }
            let mut out_r: Vec<Record> = Vec::new();
            let mut out_m: Vec<MetaMessage> = Vec::new();
            let ghost gids = self.task_ids();
            let ghost st0 = self.state_view();
            let ghost q0 = self.queues();
            let ghost r0 = self.running_ids();
            let ghost s0 = self.spawn_ids();
            let res = {
                let t = &mut self.tasks[ti];
                t.1.run(inputs, &mut out_r, &mut out_m)
            };
            proof {
                assert(self.task_ids() =~= gids);
                assert(self.state_view() =~= st0);
                assert(self.queues() =~= q0);
                assert(self.running_ids() =~= r0);
                assert(self.spawn_ids() =~= s0);
                assert(self.wf());
            }
            if res.is_ok() {
                let owner = self.tasks[ti].0.clone();
                let ghost d0 = deferred@;
                self.process_records(&owner, out_r, &mut deferred);
                let ghost st_mid = self.state_view();
                let ghost qs_mid = self.queues();
                self.apply_meta_tick(out_m);
                proof {
                    let stepv = TickStep { ran: true, ok: true, recs: out_r@, metas: out_m@ };
                    let post = TickView {
                        running: ids_set(self.running_ids()),
                        pending: ids_set(self.spawn_ids()),
                        queues: self.queues(),
                        store: self.state_view(),
                        deferred: def_view(deferred@),
                    };
                    assert(self.state_view() == st_mid);
                    assert(self.queues() == qs_mid);
                    assert(records_post(drained.store, drained.queues, out_r@, post.store,
                        post.queues));
                    assert(post.deferred =~= drained.deferred + def_pairs(id, out_r@)) by {
                        assert(owner.id == id);
                        assert(def_view(d0) == drained.deferred);
                        assert(def_view(deferred@).len()
                            == d0.len() + def_topics(out_r@).len());
                        assert forall|k: int| 0 <= k < def_view(deferred@).len()
                            implies #[trigger] def_view(deferred@)[k]
                                == (drained.deferred + def_pairs(id, out_r@))[k] by {
                            if k < d0.len() {
                                assert(deferred@[k] == d0[k]);
                                assert(def_view(d0)[k] == drained.deferred[k]);
                            } else {
                                let i = k - d0.len();
                                assert((#[trigger] deferred@[d0.len() + i]).0.id == owner.id);
                                assert(deferred@[d0.len() + i].1@ == def_topics(out_r@)[i]);
                                assert(def_pairs(id, out_r@)[i]
                                    == (id, def_topics(out_r@)[i]));
                            }
                        }
                    }
                    assert(post.running =~= Set::new(|x: u32|
                        drained.running.contains(x) && !metas_kill(out_m@, x)));
                    assert(post.pending =~= Set::new(|x: u32|
                        drained.pending.contains(x) || metas_spawn(out_m@, x)));
                    assert(tick_task_step(pre, id, stepv, post));
                    lemma_tick_chain_snoc(chain, idsq.subrange(0, gti), steps, id, stepv, post);
                    chain = chain.push(post);
                    steps = steps.push(stepv);
                }
            } else {
                proof {
                    let stepv = TickStep { ran: true, ok: false, recs: out_r@, metas: out_m@ };
                    let post = TickView {
                        running: ids_set(self.running_ids()),
                        pending: ids_set(self.spawn_ids()),
                        queues: self.queues(),
                        store: self.state_view(),
                        deferred: def_view(deferred@),
                    };
                    assert(post =~= drained);
                    assert(tick_task_step(pre, id, stepv, post));
                    lemma_tick_chain_snoc(chain, idsq.subrange(0, gti), steps, id, stepv, post);
                    chain = chain.push(post);
                    steps = steps.push(stepv);
                }
            }
            ti = ti + 1;
        }
        proof {
            assert(idsq.subrange(0, n as int) =~= idsq);
        }
        let ghost endv = chain.last();
        let mut d: usize = 0;
        while d < deferred.len()
            invariant
                self.wf(),
                d <= deferred@.len(),
                endv == chain.last(),
                endv.deferred == def_view(deferred@),
                self.task_ids() == old(self).task_ids(),
                self.sink() == old(self).sink(),
                self.state_view() == endv.store,
                ids_set(self.running_ids()) == endv.running,
                ids_set(self.spawn_ids()) == endv.pending,
                self.queues().len() == endv.queues.len() + d,
                forall|i: int| 0 <= i < endv.queues.len()
                    ==> #[trigger] self.queues()[i] == endv.queues[i],
                forall|i: int| 0 <= i < d
                    ==> (#[trigger] self.queues()[endv.queues.len() + i]).task_id
                            == endv.deferred[i].0
                        && self.queues()[endv.queues.len() + i].pattern == endv.deferred[i].1
                        && snapshot_views_ok(
                            endv.store.topics,
                            endv.deferred[i].1,
                            self.queues()[endv.queues.len() + i].records,
                        ),
            decreases deferred@.len() - d,
        {
            let ghost gd = d as int;
            let info = deferred[d].0.clone();
            let t = deferred[d].1.clone();
            proof {
                assert(info.id == endv.deferred[gd].0);
                assert(t@ == endv.deferred[gd].1);
            }
            self.add_subscription(&info, t);
            proof {
                assert(ids_set(self.running_ids()) =~= endv.running);
                assert(ids_set(self.spawn_ids()) =~= endv.pending);
            }
            d = d + 1;
        }
        proof {
            assert(subs_registered(endv.store, endv.queues, endv.deferred, self.queues()));
            assert(tick_chain_ok(chain, idsq, steps));
        }
        self.logger.plan_spills(&self.state)
    }

    /// Trim the history of every topic whose spill round wrote at least
    /// one file, as the sink's configuration directs.
    pub fn report_spill_outcomes(&mut self, outcomes: &Vec<(String, bool)>)
        requires
            old(self).wf(),
            forall|a: int, b: int| 0 <= a < b < outcomes@.len()
                ==> (#[trigger] outcomes@[a]).0@ != (#[trigger] outcomes@[b]).0@,
        ensures
            final(self).wf(),
            forall|k: int| 0 <= k < outcomes@.len()
                ==> final(self).state_view().get((#[trigger] outcomes@[k]).0@)
                    == crate::logging::after_spill(
                    old(self).state_view().get(outcomes@[k].0@),
                    outcomes@[k].1,
                    old(self).sink().spec_history(),
                ),
            forall|q: Seq<char>| (forall|k: int| 0 <= k < outcomes@.len()
                ==> (#[trigger] outcomes@[k]).0@ != q)
                ==> final(self).state_view().get(q) == old(self).state_view().get(q),
            final(self).queues() == old(self).queues(),
            final(self).task_ids() == old(self).task_ids(),
            final(self).running_ids() == old(self).running_ids(),
            final(self).spawn_ids() == old(self).spawn_ids(),
            final(self).sink() == old(self).sink(),
    {
        self.logger.apply_spill_outcomes(&mut self.state, outcomes);
        proof {
            assert(self.queues() =~= old(self).queues());
            assert(self.task_ids() =~= old(self).task_ids());
        }
    }

    /// Shutdown: plan one final spill of every non-empty topic, call
    /// every task's `cleanup`, and drop the subscription queues. The
    /// plans are handed back for the caller to write.
    pub fn cleanup(&mut self) -> (plans: Vec<SpillRequest>)
        requires
            old(self).wf(),
        ensures
            final(self).wf(),
            final(self).queues() =~= Seq::<QueueView>::empty(),
            final(self).state_view() == old(self).state_view(),
            final(self).sink() == old(self).sink(),
            forall|k: int| 0 <= k < plans@.len()
                ==> crate::logging::plan_entry_ok(
                    #[trigger] plans@[k],
                    final(self).state_view(),
                    final(self).sink().spec_root(),
                    final(self).sink().spec_session(),
                    "_final"@,
                )
                    && (store_get(final(self).state_view().topics, plans@[k].topic@)->Some_0)
                        .rows.len() > 0
                    && final(self).sink().spec_formats().contains(plans@[k].format),
            final(self).sink().spec_formats().contains(OutputFormat::Parquet)
                ==> forall|i: int| 0 <= i < final(self).state_view().topics.len()
                    && (#[trigger] final(self).state_view().topics[i]).1.rows.len() > 0
                    ==> exists|k: int| 0 <= k < plans@.len()
                        && (#[trigger] plans@[k]).topic@ == final(self).state_view().topics[i].0
                        && plans@[k].format == OutputFormat::Parquet,
            final(self).sink().spec_formats().contains(OutputFormat::Csv)
                ==> forall|i: int| 0 <= i < final(self).state_view().topics.len()
                    && (#[trigger] final(self).state_view().topics[i]).1.rows.len() > 0
                    && crate::flatten::flatten_ok(final(self).state_view().topics[i].1.schema)
                    ==> exists|k: int| 0 <= k < plans@.len()
                        && (#[trigger] plans@[k]).topic@ == final(self).state_view().topics[i].0
                        && plans@[k].format == OutputFormat::Csv,
    {
        let plans = self.logger.plan_final_dump(&self.state);
        let ghost n = self.tasks@.len();
        let mut ti: usize = 0;
        while ti < self.tasks.len()
            invariant
                self.wf(),
                self.tasks@.len() == n,
                ti <= n,
                self.state_view() == old(self).state_view(),
                self.sink() == old(self).sink(),
            decreases n - ti,
        {
            let ghost qit = self.queues();
            let ghost stit = self.state_view();
            let _ = {
                let t = &mut self.tasks[ti];
                t.1.cleanup()
            };
            proof {
                assert(self.queues() =~= qit);
                assert(self.state_view() =~= stit);
            }
            ti = ti + 1;
        }
        self.subscription_queues = Vec::new();
        proof {
            assert(self.queues() =~= Seq::<QueueView>::empty());
        }
        plans
    }
}

} // verus!
