//! The persistence sink: plans row-count-triggered spills of topic
//! history to files and trims the history once a spill has been written.
//!
//! The sink itself performs no I/O. `plan_spills` says which files are
//! due and with what contents; the caller writes them and reports back
//! per topic, and `apply_spill_outcomes` trims the histories whose
//! topics had at least one successful write.

use vstd::prelude::*;
use crate::flatten::{flat_fields, flat_row, flatten_ok};
use crate::record::{Record, RecordError, RecordView};
use crate::state::{RunnerState, StateView, store_get, lemma_store_self,
    lemma_store_get_some_index};
use crate::text::str_eq;

verus! {

broadcast use vstd::std_specs::vec::group_vec_axioms, vstd::seq::group_seq_axioms;

/// An on-disk format for a topic's history.
#[derive(Debug, Clone, Copy, PartialEq, Eq, Hash, Structural)]
pub enum OutputFormat {
    Parquet,
    Csv,
}

/// The file extension a format uses.
pub open spec fn ext_of(f: OutputFormat) -> Seq<char> {
    match f {
        OutputFormat::Parquet => "parquet"@,
        OutputFormat::Csv => "csv"@,
    }
}

/// The file path a spill goes to: the topic's segments below the root
/// and the session directory, with a suffix before the extension.
pub open spec fn spill_path(
    root: Seq<char>,
    session: Seq<char>,
    topic: Seq<char>,
    suffix: Seq<char>,
    f: OutputFormat,
) -> Seq<char> {
    root + seq!['/'] + session + seq!['/'] + topic + suffix + seq!['.'] + ext_of(f)
}

/// The flattened form of a record's model.
pub open spec fn flat_view(rv: RecordView) -> RecordView {
    RecordView {
        schema: flat_fields(Seq::<char>::empty(), rv.schema),
        rows: Seq::new(rv.rows.len(), |i: int| flat_row(rv.schema, rv.rows[i])),
        meta: rv.meta,
    }
}

/// One file the sink asks its caller to write.
pub struct SpillRequest {
    pub topic: String,
    pub path: String,
    pub format: OutputFormat,
    pub record: Record,
}

/// The sink's configuration.
pub struct RunnerLogger {
    output_path: String,
    session_id: String,
    trigger_rows: usize,
    history_rows: usize,
    formats: Vec<OutputFormat>,
}

/// Relies on chrono's `Local::now` and `DateTime::format`: a compact
/// local-time stamp, used as the default session id. `Local::now`
/// panics when the system clock precedes the Unix epoch, an
/// environmental failure on par with running out of memory.
#[verifier::external_body]
fn default_session_id() -> (s: String) {
    chrono::Local::now().format("%Y%m%d_%H%M%S").to_string()
}

impl RunnerLogger {
    /// The root directory for all sessions.
    pub closed spec fn spec_root(&self) -> Seq<char> {
        self.output_path@
    }

    /// The directory name of this run.
    pub closed spec fn spec_session(&self) -> Seq<char> {
        self.session_id@
    }

    /// The row count at which a topic's history is spilled.
    pub closed spec fn spec_trigger(&self) -> nat {
        self.trigger_rows as nat
    }

    /// The rows retained after a spill; zero drops the topic.
    pub closed spec fn spec_history(&self) -> nat {
        self.history_rows as nat
    }

    /// The enabled formats.
    pub closed spec fn spec_formats(&self) -> Seq<OutputFormat> {
        self.formats@
    }

    /// A sink writing under `output_path`, spilling any topic whose
    /// history reaches `trigger_rows` rows and retaining `history_rows`
    /// rows after a spill, in the given formats. Without a session id the
    /// local-time stamp of the moment is used.
    pub fn new(
        output_path: String,
        trigger_rows: usize,
        history_rows: usize,
        formats: Vec<OutputFormat>,
        session_id: Option<String>,
    ) -> (r: RunnerLogger)
        ensures
            r.spec_root() == output_path@,
            r.spec_trigger() == trigger_rows as nat,
            r.spec_history() == history_rows as nat,
            r.spec_formats() == formats@,
            session_id matches Some(s) ==> r.spec_session() == s@,
    {
        let session_id = match session_id {
            Some(s) => s,
            None => default_session_id(),
        };
        RunnerLogger { output_path, session_id, trigger_rows, history_rows, formats }
    }

    /// The configured trigger threshold.
    pub fn trigger_rows(&self) -> (n: usize)
        ensures
            n as nat == self.spec_trigger(),
    {
        self.trigger_rows
    }

    /// The configured retained history length.
    pub fn history_rows(&self) -> (n: usize)
        ensures
            n as nat == self.spec_history(),
    {
        self.history_rows
    }

    /// The session directory name.
    pub fn session_id(&self) -> (s: &str)
        ensures
            s@ == self.spec_session(),
    {
        self.session_id.as_str()
    }

    /// The file path for one spill of `topic`.
    fn build_path(&self, topic: &str, fin: bool, fmt: OutputFormat) -> (p: String)
        ensures
            p@ == spill_path(
                self.spec_root(),
                self.spec_session(),
                topic@,
                if fin { "_final"@ } else { Seq::<char>::empty() },
                fmt,
            ),
    {
        proof {
            reveal_strlit("/");
            reveal_strlit(".");
            reveal_strlit("_final");
            reveal_strlit("");
            assert("/"@ =~= seq!['/']);
            assert("."@ =~= seq!['.']);
            assert(""@ =~= Seq::<char>::empty());
        }
        let mut p = self.output_path.clone();
        p.append("/");
        p.append(self.session_id.as_str());
        p.append("/");
        p.append(topic);
        if fin {
            p.append("_final");
        }
        p.append(".");
        match fmt {
            OutputFormat::Parquet => p.append("parquet"),
            OutputFormat::Csv => p.append("csv"),
        }
        p
    }
}

/// What one planned spill promises: its topic is stored, its path is the
/// spill path, and its record is the stored history (flattened for the
/// tabular format).
pub open spec fn plan_entry_ok(
    p: SpillRequest,
    st: StateView,
    root: Seq<char>,
    session: Seq<char>,
    suffix: Seq<char>,
) -> bool {
    store_get(st.topics, p.topic@) matches Some(sv)
        && p.path@ == spill_path(root, session, p.topic@, suffix, p.format)
        && (match p.format {
            OutputFormat::Parquet => p.record@ == sv,
            OutputFormat::Csv => flatten_ok(sv.schema) && p.record@ == flat_view(sv),
        })
}

impl RunnerLogger {
    /// Plan one spill for every enabled format of every topic whose
    /// history has reached the trigger threshold, and for no other
    /// format. A topic's tabular spill is omitted when its schema cannot
    /// be flattened; with the columnar format enabled, every topic at or
    /// over the threshold gets a columnar file, and with the tabular
    /// format enabled, every such topic whose schema flattens gets a
    /// tabular file.
    pub fn plan_spills(&self, state: &RunnerState) -> (plans: Vec<SpillRequest>)
        requires
            state@.wf(),
        ensures
            forall|k: int| 0 <= k < plans@.len()
                ==> plan_entry_ok(
                    #[trigger] plans@[k],
                    state@,
                    self.spec_root(),
                    self.spec_session(),
                    Seq::<char>::empty(),
                )
                    && (store_get(state@.topics, plans@[k].topic@)->Some_0).rows.len()
                        >= self.spec_trigger()
                    && self.spec_formats().contains(plans@[k].format),
            self.spec_formats().contains(OutputFormat::Parquet)
                ==> forall|i: int| 0 <= i < state@.topics.len()
                    && (#[trigger] state@.topics[i]).1.rows.len() >= self.spec_trigger()
                    ==> exists|k: int| 0 <= k < plans@.len()
                        && (#[trigger] plans@[k]).topic@ == state@.topics[i].0
                        && plans@[k].format == OutputFormat::Parquet,
            self.spec_formats().contains(OutputFormat::Csv)
                ==> forall|i: int| 0 <= i < state@.topics.len()
                    && (#[trigger] state@.topics[i]).1.rows.len() >= self.spec_trigger()
                    && flatten_ok(state@.topics[i].1.schema)
                    ==> exists|k: int| 0 <= k < plans@.len()
                        && (#[trigger] plans@[k]).topic@ == state@.topics[i].0
                        && plans@[k].format == OutputFormat::Csv,
    {
        let topics = state.get_topics();
        let mut plans: Vec<SpillRequest> = Vec::new();
        let mut i: usize = 0;
        while i < topics.len()
            invariant
                state@.wf(),
                topics@.len() == state@.topics.len(),
                forall|k: int| 0 <= k < topics@.len()
                    ==> (#[trigger] topics@[k])@ == state@.topics[k].0,
                i <= topics@.len(),
                forall|k: int| 0 <= k < plans@.len()
                    ==> plan_entry_ok(
                        #[trigger] plans@[k],
                        state@,
                        self.spec_root(),
                        self.spec_session(),
                        Seq::<char>::empty(),
                    )
                        && (store_get(state@.topics, plans@[k].topic@)->Some_0).rows.len()
                            >= self.spec_trigger()
                        && self.spec_formats().contains(plans@[k].format),
                self.spec_formats().contains(OutputFormat::Parquet)
                    ==> forall|q: int| 0 <= q < i
                        && (#[trigger] state@.topics[q]).1.rows.len() >= self.spec_trigger()
                        ==> exists|k: int| 0 <= k < plans@.len()
                            && (#[trigger] plans@[k]).topic@ == state@.topics[q].0
                            && plans@[k].format == OutputFormat::Parquet,
                self.spec_formats().contains(OutputFormat::Csv)
                    ==> forall|q: int| 0 <= q < i
                        && (#[trigger] state@.topics[q]).1.rows.len() >= self.spec_trigger()
                        && flatten_ok(state@.topics[q].1.schema)
                        ==> exists|k: int| 0 <= k < plans@.len()
                            && (#[trigger] plans@[k]).topic@ == state@.topics[q].0
                            && plans@[k].format == OutputFormat::Csv,
            decreases topics@.len() - i,
        {
            let topic = &topics[i];
            proof {
                lemma_store_self(state@.topics, i as int);
            }
            let due = match state.get_topic_row_count(topic.as_str()) {
                Some(n) => n >= self.trigger_rows,
                None => false,
            };
            if due {
                let mut f: usize = 0;
                while f < self.formats.len()
                    invariant
                        state@.wf(),
                        0 <= i < state@.topics.len(),
                        topic@ == state@.topics[i as int].0,
                        store_get(state@.topics, topic@) == Some(state@.topics[i as int].1),
                        state@.topics[i as int].1.rows.len() >= self.spec_trigger(),
                        f <= self.formats@.len(),
                        self.spec_formats() == self.formats@,
                        forall|k: int| 0 <= k < plans@.len()
                            ==> plan_entry_ok(
                                #[trigger] plans@[k],
                                state@,
                                self.spec_root(),
                                self.spec_session(),
                                Seq::<char>::empty(),
                            )
                                && (store_get(state@.topics, plans@[k].topic@)->Some_0)
                                    .rows.len() >= self.spec_trigger()
                                && self.spec_formats().contains(plans@[k].format),
                        self.spec_formats().contains(OutputFormat::Parquet)
                            ==> forall|q: int| 0 <= q < i
                                && (#[trigger] state@.topics[q]).1.rows.len()
                                    >= self.spec_trigger()
                                ==> exists|k: int| 0 <= k < plans@.len()
                                    && (#[trigger] plans@[k]).topic@ == state@.topics[q].0
                                    && plans@[k].format == OutputFormat::Parquet,
                        self.spec_formats().contains(OutputFormat::Csv)
                            ==> forall|q: int| 0 <= q < i
                                && (#[trigger] state@.topics[q]).1.rows.len()
                                    >= self.spec_trigger()
                                && flatten_ok(state@.topics[q].1.schema)
                                ==> exists|k: int| 0 <= k < plans@.len()
                                    && (#[trigger] plans@[k]).topic@ == state@.topics[q].0
                                    && plans@[k].format == OutputFormat::Csv,
                        (exists|g: int| 0 <= g < f
                            && self.formats@[g] == OutputFormat::Parquet)
                            ==> exists|k: int| 0 <= k < plans@.len()
                                && (#[trigger] plans@[k]).topic@ == state@.topics[i as int].0
                                && plans@[k].format == OutputFormat::Parquet,
                        (exists|g: int| 0 <= g < f
                            && self.formats@[g] == OutputFormat::Csv)
                            && flatten_ok(state@.topics[i as int].1.schema)
                            ==> exists|k: int| 0 <= k < plans@.len()
                                && (#[trigger] plans@[k]).topic@ == state@.topics[i as int].0
                                && plans@[k].format == OutputFormat::Csv,
                    decreases self.formats@.len() - f,
                {
                    let rec = match state.get_topic_record(topic.as_str()) {
                        Some(r) => r,
                        None => {
                            proof {
                                assert(false);
                            }
                            continue;
                        },
                    };
                    match self.formats[f] {
                        OutputFormat::Parquet => {
                            let ghost opl = plans@;
                            let path = self.build_path(topic.as_str(), false, OutputFormat::Parquet);
                            plans.push(SpillRequest {
                                topic: topic.clone(),
                                path,
                                format: OutputFormat::Parquet,
                                record: rec.clone(),
                            });
                            proof {
                                assert(self.spec_formats()[f as int] == OutputFormat::Parquet);
                                assert forall|k: int| 0 <= k < plans@.len()
                                    implies plan_entry_ok(
                                        #[trigger] plans@[k],
                                        state@,
                                        self.spec_root(),
                                        self.spec_session(),
                                        Seq::<char>::empty(),
                                    )
                                        && (store_get(state@.topics, plans@[k].topic@)->Some_0)
                                            .rows.len() >= self.spec_trigger()
                                        && self.spec_formats().contains(plans@[k].format) by {
                                    if k < opl.len() {
                                        assert(plans@[k] == opl[k]);
                                    } else {
                                        assert(plans@[k] == plans@.last());
                                    }
                                }
                                assert forall|q: int| 0 <= q < i
                                    && (#[trigger] state@.topics[q]).1.rows.len() >= self.spec_trigger()
                                    && self.spec_formats().contains(OutputFormat::Parquet)
                                    implies exists|k: int| 0 <= k < plans@.len()
                                        && (#[trigger] plans@[k]).topic@ == state@.topics[q].0
                                        && plans@[k].format == OutputFormat::Parquet by {
                                    let k0 = choose|k0: int| 0 <= k0 < opl.len()
                                        && (#[trigger] opl[k0]).topic@ == state@.topics[q].0
                                        && opl[k0].format == OutputFormat::Parquet;
                                    assert(plans@[k0] == opl[k0]);
                                }
                                assert forall|q: int| 0 <= q < i
                                    && (#[trigger] state@.topics[q]).1.rows.len() >= self.spec_trigger()
                                    && flatten_ok(state@.topics[q].1.schema)
                                    && self.spec_formats().contains(OutputFormat::Csv)
                                    implies exists|k: int| 0 <= k < plans@.len()
                                        && (#[trigger] plans@[k]).topic@ == state@.topics[q].0
                                        && plans@[k].format == OutputFormat::Csv by {
                                    let k0 = choose|k0: int| 0 <= k0 < opl.len()
                                        && (#[trigger] opl[k0]).topic@ == state@.topics[q].0
                                        && opl[k0].format == OutputFormat::Csv;
                                    assert(plans@[k0] == opl[k0]);
                                }
                                if exists|k0: int| 0 <= k0 < opl.len()
                                    && (#[trigger] opl[k0]).topic@ == state@.topics[i as int].0
                                    && opl[k0].format == OutputFormat::Csv {
                                    let k0 = choose|k0: int| 0 <= k0 < opl.len()
                                        && (#[trigger] opl[k0]).topic@ == state@.topics[i as int].0
                                        && opl[k0].format == OutputFormat::Csv;
                                    assert(plans@[k0] == opl[k0]);
                                    assert(exists|k: int| 0 <= k < plans@.len()
                                        && (#[trigger] plans@[k]).topic@
                                            == state@.topics[i as int].0
                                        && plans@[k].format == OutputFormat::Csv);
                                }
                                assert((#[trigger] plans@[plans@.len() - 1]).topic@
                                    == state@.topics[i as int].0);
                                assert(plans@[plans@.len() - 1].format == OutputFormat::Parquet);
                            }
                        },
                        OutputFormat::Csv => {
                            match rec.flatten() {
                                Ok(fl) => {
                                    let ghost opl = plans@;
                                    let path = self.build_path(topic.as_str(), false,
                                        OutputFormat::Csv);
                                    plans.push(SpillRequest {
                                        topic: topic.clone(),
                                        path,
                                        format: OutputFormat::Csv,
                                        record: fl,
                                    });
                                    proof {
                                        assert(self.spec_formats()[f as int] == OutputFormat::Csv);
                                        let sv = store_get(state@.topics, topic@)->Some_0;
                                        assert(plans@.last().record@ =~= flat_view(sv));
                                        assert forall|k: int| 0 <= k < plans@.len()
                                            implies plan_entry_ok(
                                                #[trigger] plans@[k],
                                                state@,
                                                self.spec_root(),
                                                self.spec_session(),
                                                Seq::<char>::empty(),
                                            )
                                                && (store_get(state@.topics, plans@[k].topic@)
                                                    ->Some_0).rows.len() >= self.spec_trigger()
                                                && self.spec_formats().contains(plans@[k].format)
                                            by {
                                            if k < opl.len() {
                                                assert(plans@[k] == opl[k]);
                                            } else {
                                                assert(plans@[k] == plans@.last());
                                            }
                                        }
                                        assert forall|q: int| 0 <= q < i
                                            && (#[trigger] state@.topics[q]).1.rows.len() >= self.spec_trigger()
                                            && self.spec_formats().contains(OutputFormat::Parquet)
                                            implies exists|k: int| 0 <= k < plans@.len()
                                                && (#[trigger] plans@[k]).topic@
                                                    == state@.topics[q].0
                                                && plans@[k].format == OutputFormat::Parquet by {
                                            let k0 = choose|k0: int| 0 <= k0 < opl.len()
                                                && (#[trigger] opl[k0]).topic@
                                                    == state@.topics[q].0
                                                && opl[k0].format == OutputFormat::Parquet;
                                            assert(plans@[k0] == opl[k0]);
                                        }
                                        assert forall|q: int| 0 <= q < i
                                            && (#[trigger] state@.topics[q]).1.rows.len() >= self.spec_trigger()
                                            && flatten_ok(state@.topics[q].1.schema)
                                            && self.spec_formats().contains(OutputFormat::Csv)
                                            implies exists|k: int| 0 <= k < plans@.len()
                                                && (#[trigger] plans@[k]).topic@
                                                    == state@.topics[q].0
                                                && plans@[k].format == OutputFormat::Csv by {
                                            let k0 = choose|k0: int| 0 <= k0 < opl.len()
                                                && (#[trigger] opl[k0]).topic@
                                                    == state@.topics[q].0
                                                && opl[k0].format == OutputFormat::Csv;
                                            assert(plans@[k0] == opl[k0]);
                                        }
                                        if exists|k0: int| 0 <= k0 < opl.len()
                                            && (#[trigger] opl[k0]).topic@
                                                == state@.topics[i as int].0
                                            && opl[k0].format == OutputFormat::Parquet {
                                            let k0 = choose|k0: int| 0 <= k0 < opl.len()
                                                && (#[trigger] opl[k0]).topic@
                                                    == state@.topics[i as int].0
                                                && opl[k0].format == OutputFormat::Parquet;
                                            assert(plans@[k0] == opl[k0]);
                                            assert(exists|k: int| 0 <= k < plans@.len()
                                                && (#[trigger] plans@[k]).topic@
                                                    == state@.topics[i as int].0
                                                && plans@[k].format == OutputFormat::Parquet);
                                        }
                                        assert((#[trigger] plans@[plans@.len() - 1]).topic@
                                            == state@.topics[i as int].0);
                                        assert(plans@[plans@.len() - 1].format
                                            == OutputFormat::Csv);
                                    }
                                },
                                Err(_) => {
                                    proof {
                                        assert(!flatten_ok(
                                            state@.topics[i as int].1.schema));
                                    }
                                },
                            }
                        },
                    }
                    f = f + 1;
                }
                proof {
                    if self.spec_formats().contains(OutputFormat::Parquet) {
                        let g = choose|g: int| 0 <= g < self.formats@.len()
                            && self.formats@[g] == OutputFormat::Parquet;
                        assert(exists|k: int| 0 <= k < plans@.len()
                            && (#[trigger] plans@[k]).topic@ == state@.topics[i as int].0
                            && plans@[k].format == OutputFormat::Parquet);
                    }
                    if self.spec_formats().contains(OutputFormat::Csv)
                        && flatten_ok(state@.topics[i as int].1.schema) {
                        let g = choose|g: int| 0 <= g < self.formats@.len()
                            && self.formats@[g] == OutputFormat::Csv;
                        assert(exists|k: int| 0 <= k < plans@.len()
                            && (#[trigger] plans@[k]).topic@ == state@.topics[i as int].0
                            && plans@[k].format == OutputFormat::Csv);
                    }
                }
            }
            i = i + 1;
        }
        plans
    }

    /// Plan one final spill, with a `_final` suffix, for every enabled
    /// format of every non-empty topic, and for no other format,
    /// regardless of the trigger threshold. A topic's tabular spill is
    /// omitted when its schema cannot be flattened. Nothing is trimmed.
    pub fn plan_final_dump(&self, state: &RunnerState) -> (plans: Vec<SpillRequest>)
        requires
            state@.wf(),
        ensures
            forall|k: int| 0 <= k < plans@.len()
                ==> plan_entry_ok(
                    #[trigger] plans@[k],
                    state@,
                    self.spec_root(),
                    self.spec_session(),
                    "_final"@,
                )
                    && (store_get(state@.topics, plans@[k].topic@)->Some_0).rows.len() > 0
                    && self.spec_formats().contains(plans@[k].format),
            self.spec_formats().contains(OutputFormat::Parquet)
                ==> forall|i: int| 0 <= i < state@.topics.len()
                    && (#[trigger] state@.topics[i]).1.rows.len() > 0
                    ==> exists|k: int| 0 <= k < plans@.len()
                        && (#[trigger] plans@[k]).topic@ == state@.topics[i].0
                        && plans@[k].format == OutputFormat::Parquet,
            self.spec_formats().contains(OutputFormat::Csv)
                ==> forall|i: int| 0 <= i < state@.topics.len()
                    && (#[trigger] state@.topics[i]).1.rows.len() > 0
                    && flatten_ok(state@.topics[i].1.schema)
                    ==> exists|k: int| 0 <= k < plans@.len()
                        && (#[trigger] plans@[k]).topic@ == state@.topics[i].0
                        && plans@[k].format == OutputFormat::Csv,
    {
        let topics = state.get_topics();
        let mut plans: Vec<SpillRequest> = Vec::new();
        let mut i: usize = 0;
        while i < topics.len()
            invariant
                state@.wf(),
                topics@.len() == state@.topics.len(),
                forall|k: int| 0 <= k < topics@.len()
                    ==> (#[trigger] topics@[k])@ == state@.topics[k].0,
                i <= topics@.len(),
                forall|k: int| 0 <= k < plans@.len()
                    ==> plan_entry_ok(
                        #[trigger] plans@[k],
                        state@,
                        self.spec_root(),
                        self.spec_session(),
                        "_final"@,
                    )
                        && (store_get(state@.topics, plans@[k].topic@)->Some_0).rows.len() > 0
                        && self.spec_formats().contains(plans@[k].format),
                self.spec_formats().contains(OutputFormat::Parquet)
                    ==> forall|q: int| 0 <= q < i
                        && (#[trigger] state@.topics[q]).1.rows.len() > 0
                        ==> exists|k: int| 0 <= k < plans@.len()
                            && (#[trigger] plans@[k]).topic@ == state@.topics[q].0
                            && plans@[k].format == OutputFormat::Parquet,
                self.spec_formats().contains(OutputFormat::Csv)
                    ==> forall|q: int| 0 <= q < i
                        && (#[trigger] state@.topics[q]).1.rows.len() > 0
                        && flatten_ok(state@.topics[q].1.schema)
                        ==> exists|k: int| 0 <= k < plans@.len()
                            && (#[trigger] plans@[k]).topic@ == state@.topics[q].0
                            && plans@[k].format == OutputFormat::Csv,
            decreases topics@.len() - i,
        {
            let topic = &topics[i];
            proof {
                lemma_store_self(state@.topics, i as int);
            }
            let due = match state.get_topic_row_count(topic.as_str()) {
                Some(n) => n > 0,
                None => false,
            };
            if due {
                let mut f: usize = 0;
                while f < self.formats.len()
                    invariant
                        state@.wf(),
                        0 <= i < state@.topics.len(),
                        topic@ == state@.topics[i as int].0,
                        store_get(state@.topics, topic@) == Some(state@.topics[i as int].1),
                        state@.topics[i as int].1.rows.len() > 0,
                        f <= self.formats@.len(),
                        self.spec_formats() == self.formats@,
                        forall|k: int| 0 <= k < plans@.len()
                            ==> plan_entry_ok(
                                #[trigger] plans@[k],
                                state@,
                                self.spec_root(),
                                self.spec_session(),
                                "_final"@,
                            )
                                && (store_get(state@.topics, plans@[k].topic@)->Some_0)
                                    .rows.len() > 0
                                && self.spec_formats().contains(plans@[k].format),
                        self.spec_formats().contains(OutputFormat::Parquet)
                            ==> forall|q: int| 0 <= q < i
                                && (#[trigger] state@.topics[q]).1.rows.len() > 0
                                ==> exists|k: int| 0 <= k < plans@.len()
                                    && (#[trigger] plans@[k]).topic@ == state@.topics[q].0
                                    && plans@[k].format == OutputFormat::Parquet,
                        self.spec_formats().contains(OutputFormat::Csv)
                            ==> forall|q: int| 0 <= q < i
                                && (#[trigger] state@.topics[q]).1.rows.len() > 0
                                && flatten_ok(state@.topics[q].1.schema)
                                ==> exists|k: int| 0 <= k < plans@.len()
                                    && (#[trigger] plans@[k]).topic@ == state@.topics[q].0
                                    && plans@[k].format == OutputFormat::Csv,
                        (exists|g: int| 0 <= g < f
                            && self.formats@[g] == OutputFormat::Parquet)
                            ==> exists|k: int| 0 <= k < plans@.len()
                                && (#[trigger] plans@[k]).topic@ == state@.topics[i as int].0
                                && plans@[k].format == OutputFormat::Parquet,
                        (exists|g: int| 0 <= g < f
                            && self.formats@[g] == OutputFormat::Csv)
                            && flatten_ok(state@.topics[i as int].1.schema)
                            ==> exists|k: int| 0 <= k < plans@.len()
                                && (#[trigger] plans@[k]).topic@ == state@.topics[i as int].0
                                && plans@[k].format == OutputFormat::Csv,
                    decreases self.formats@.len() - f,
                {
                    let rec = match state.get_topic_record(topic.as_str()) {
                        Some(r) => r,
                        None => {
                            proof {
                                assert(false);
                            }
                            continue;
                        },
                    };
                    match self.formats[f] {
                        OutputFormat::Parquet => {
                            let ghost opl = plans@;
                            let path = self.build_path(topic.as_str(), true, OutputFormat::Parquet);
                            plans.push(SpillRequest {
                                topic: topic.clone(),
                                path,
                                format: OutputFormat::Parquet,
                                record: rec.clone(),
                            });
                            proof {
                                assert(self.spec_formats()[f as int] == OutputFormat::Parquet);
                                assert forall|k: int| 0 <= k < plans@.len()
                                    implies plan_entry_ok(
                                        #[trigger] plans@[k],
                                        state@,
                                        self.spec_root(),
                                        self.spec_session(),
                                        "_final"@,
                                    )
                                        && (store_get(state@.topics, plans@[k].topic@)->Some_0)
                                            .rows.len() > 0
                                        && self.spec_formats().contains(plans@[k].format) by {
                                    if k < opl.len() {
                                        assert(plans@[k] == opl[k]);
                                    } else {
                                        assert(plans@[k] == plans@.last());
                                    }
                                }
                                assert forall|q: int| 0 <= q < i
                                    && (#[trigger] state@.topics[q]).1.rows.len() > 0
                                    && self.spec_formats().contains(OutputFormat::Parquet)
                                    implies exists|k: int| 0 <= k < plans@.len()
                                        && (#[trigger] plans@[k]).topic@ == state@.topics[q].0
                                        && plans@[k].format == OutputFormat::Parquet by {
                                    let k0 = choose|k0: int| 0 <= k0 < opl.len()
                                        && (#[trigger] opl[k0]).topic@ == state@.topics[q].0
                                        && opl[k0].format == OutputFormat::Parquet;
                                    assert(plans@[k0] == opl[k0]);
                                }
                                assert forall|q: int| 0 <= q < i
                                    && (#[trigger] state@.topics[q]).1.rows.len() > 0
                                    && flatten_ok(state@.topics[q].1.schema)
                                    && self.spec_formats().contains(OutputFormat::Csv)
                                    implies exists|k: int| 0 <= k < plans@.len()
                                        && (#[trigger] plans@[k]).topic@ == state@.topics[q].0
                                        && plans@[k].format == OutputFormat::Csv by {
                                    let k0 = choose|k0: int| 0 <= k0 < opl.len()
                                        && (#[trigger] opl[k0]).topic@ == state@.topics[q].0
                                        && opl[k0].format == OutputFormat::Csv;
                                    assert(plans@[k0] == opl[k0]);
                                }
                                if exists|k0: int| 0 <= k0 < opl.len()
                                    && (#[trigger] opl[k0]).topic@ == state@.topics[i as int].0
                                    && opl[k0].format == OutputFormat::Csv {
                                    let k0 = choose|k0: int| 0 <= k0 < opl.len()
                                        && (#[trigger] opl[k0]).topic@ == state@.topics[i as int].0
                                        && opl[k0].format == OutputFormat::Csv;
                                    assert(plans@[k0] == opl[k0]);
                                    assert(exists|k: int| 0 <= k < plans@.len()
                                        && (#[trigger] plans@[k]).topic@
                                            == state@.topics[i as int].0
                                        && plans@[k].format == OutputFormat::Csv);
                                }
                                assert((#[trigger] plans@[plans@.len() - 1]).topic@
                                    == state@.topics[i as int].0);
                                assert(plans@[plans@.len() - 1].format == OutputFormat::Parquet);
                            }
                        },
                        OutputFormat::Csv => {
                            match rec.flatten() {
                                Ok(fl) => {
                                    let ghost opl = plans@;
                                    let path = self.build_path(topic.as_str(), true,
                                        OutputFormat::Csv);
                                    plans.push(SpillRequest {
                                        topic: topic.clone(),
                                        path,
                                        format: OutputFormat::Csv,
                                        record: fl,
                                    });
                                    proof {
                                        assert(self.spec_formats()[f as int] == OutputFormat::Csv);
                                        let sv = store_get(state@.topics, topic@)->Some_0;
                                        assert(plans@.last().record@ =~= flat_view(sv));
                                        assert forall|k: int| 0 <= k < plans@.len()
                                            implies plan_entry_ok(
                                                #[trigger] plans@[k],
                                                state@,
                                                self.spec_root(),
                                                self.spec_session(),
                                                "_final"@,
                                            )
                                                && (store_get(state@.topics, plans@[k].topic@)
                                                    ->Some_0).rows.len() > 0
                                                && self.spec_formats().contains(plans@[k].format)
                                            by {
                                            if k < opl.len() {
                                                assert(plans@[k] == opl[k]);
                                            } else {
                                                assert(plans@[k] == plans@.last());
                                            }
                                        }
                                        assert forall|q: int| 0 <= q < i
                                            && (#[trigger] state@.topics[q]).1.rows.len() > 0
                                            && self.spec_formats().contains(OutputFormat::Parquet)
                                            implies exists|k: int| 0 <= k < plans@.len()
                                                && (#[trigger] plans@[k]).topic@
                                                    == state@.topics[q].0
                                                && plans@[k].format == OutputFormat::Parquet by {
                                            let k0 = choose|k0: int| 0 <= k0 < opl.len()
                                                && (#[trigger] opl[k0]).topic@
                                                    == state@.topics[q].0
                                                && opl[k0].format == OutputFormat::Parquet;
                                            assert(plans@[k0] == opl[k0]);
                                        }
                                        assert forall|q: int| 0 <= q < i
                                            && (#[trigger] state@.topics[q]).1.rows.len() > 0
                                            && flatten_ok(state@.topics[q].1.schema)
                                            && self.spec_formats().contains(OutputFormat::Csv)
                                            implies exists|k: int| 0 <= k < plans@.len()
                                                && (#[trigger] plans@[k]).topic@
                                                    == state@.topics[q].0
                                                && plans@[k].format == OutputFormat::Csv by {
                                            let k0 = choose|k0: int| 0 <= k0 < opl.len()
                                                && (#[trigger] opl[k0]).topic@
                                                    == state@.topics[q].0
                                                && opl[k0].format == OutputFormat::Csv;
                                            assert(plans@[k0] == opl[k0]);
                                        }
                                        if exists|k0: int| 0 <= k0 < opl.len()
                                            && (#[trigger] opl[k0]).topic@
                                                == state@.topics[i as int].0
                                            && opl[k0].format == OutputFormat::Parquet {
                                            let k0 = choose|k0: int| 0 <= k0 < opl.len()
                                                && (#[trigger] opl[k0]).topic@
                                                    == state@.topics[i as int].0
                                                && opl[k0].format == OutputFormat::Parquet;
                                            assert(plans@[k0] == opl[k0]);
                                            assert(exists|k: int| 0 <= k < plans@.len()
                                                && (#[trigger] plans@[k]).topic@
                                                    == state@.topics[i as int].0
                                                && plans@[k].format == OutputFormat::Parquet);
                                        }
                                        assert((#[trigger] plans@[plans@.len() - 1]).topic@
                                            == state@.topics[i as int].0);
                                        assert(plans@[plans@.len() - 1].format
                                            == OutputFormat::Csv);
                                    }
                                },
                                Err(_) => {
                                    proof {
                                        assert(!flatten_ok(
                                            state@.topics[i as int].1.schema));
                                    }
                                },
                            }
                        },
                    }
                    f = f + 1;
                }
                proof {
                    if self.spec_formats().contains(OutputFormat::Parquet) {
                        let g = choose|g: int| 0 <= g < self.formats@.len()
                            && self.formats@[g] == OutputFormat::Parquet;
                        assert(exists|k: int| 0 <= k < plans@.len()
                            && (#[trigger] plans@[k]).topic@ == state@.topics[i as int].0
                            && plans@[k].format == OutputFormat::Parquet);
                    }
                    if self.spec_formats().contains(OutputFormat::Csv)
                        && flatten_ok(state@.topics[i as int].1.schema) {
                        let g = choose|g: int| 0 <= g < self.formats@.len()
                            && self.formats@[g] == OutputFormat::Csv;
                        assert(exists|k: int| 0 <= k < plans@.len()
                            && (#[trigger] plans@[k]).topic@ == state@.topics[i as int].0
                            && plans@[k].format == OutputFormat::Csv);
                    }
                }
            }
            i = i + 1;
        }
        plans
    }
}

} // verus!

verus! {

/// What a topic's stored history becomes after a spill round: untouched
/// without a successful write; dropped when no history is retained;
/// trimmed to the last `history` rows when longer than that.
pub open spec fn after_spill(prev: Option<RecordView>, wrote: bool, history: nat) -> Option<
    RecordView,
> {
    match prev {
        None => None,
        Some(sv) => if !wrote {
            Some(sv)
        } else if history == 0 {
            None
        } else if sv.rows.len() > history {
            Some(RecordView {
                schema: sv.schema,
                rows: sv.rows.subrange(sv.rows.len() - history, sv.rows.len() as int),
                meta: sv.meta,
            })
        } else {
            Some(sv)
        },
    }
}

impl RunnerLogger {
    /// Trim the history of every topic whose spill round wrote at least
    /// one file: drop it when no history is retained, else keep only the
    /// last `history_rows` rows. Other topics are untouched.
    pub fn apply_spill_outcomes(&self, state: &mut RunnerState, outcomes: &Vec<(String, bool)>)
        requires
            old(state)@.wf(),
            forall|a: int, b: int| 0 <= a < b < outcomes@.len()
                ==> (#[trigger] outcomes@[a]).0@ != (#[trigger] outcomes@[b]).0@,
        ensures
            final(state)@.wf(),
            forall|k: int| 0 <= k < outcomes@.len()
                ==> final(state)@.get((#[trigger] outcomes@[k]).0@) == after_spill(
                    old(state)@.get(outcomes@[k].0@),
                    outcomes@[k].1,
                    self.spec_history(),
                ),
            forall|q: Seq<char>| (forall|k: int| 0 <= k < outcomes@.len()
                ==> (#[trigger] outcomes@[k]).0@ != q)
                ==> final(state)@.get(q) == old(state)@.get(q),
    {
        let mut k: usize = 0;
        while k < outcomes.len()
            invariant
                state@.wf(),
                forall|a: int, b: int| 0 <= a < b < outcomes@.len()
                    ==> (#[trigger] outcomes@[a]).0@ != (#[trigger] outcomes@[b]).0@,
                k <= outcomes@.len(),
                forall|t: int| 0 <= t < k
                    ==> state@.get((#[trigger] outcomes@[t]).0@) == after_spill(
                        old(state)@.get(outcomes@[t].0@),
                        outcomes@[t].1,
                        self.spec_history(),
                    ),
                forall|q: Seq<char>| (forall|t: int| 0 <= t < k
                    ==> (#[trigger] outcomes@[t]).0@ != q)
                    ==> state@.get(q) == old(state)@.get(q),
            decreases outcomes@.len() - k,
        {
            let topic = &outcomes[k].0;
            let wrote = outcomes[k].1;
            proof {
                assert forall|t: int| 0 <= t < k
                    implies (#[trigger] outcomes@[t]).0@ != topic@ by {}
                assert(state@.get(topic@) == old(state)@.get(topic@));
            }
            if wrote {
                let found = match state.get_topic_record(topic.as_str()) {
                    Some(rec) => Some((rec.num_rows(), ())),
                    None => None,
                };
                match found {
                    None => {},
                    Some((n, _)) => {
                        proof {
                            lemma_store_get_some_index(state@.topics, topic@);
                        }
                        if self.history_rows == 0 {
                            self.remove_topic_checked(state, topic.as_str());
                        } else if n > self.history_rows {
                            let trimmedrec = match state.get_topic_record(topic.as_str()) {
                                Some(rec) => rec.get_n_latest_rows(self.history_rows),
                                None => {
                                    proof {
                                        assert(false);
                                    }
                                    Record::new_empty()
                                },
                            };
                            state.replace_topic_record(topic.clone(), trimmedrec);
                        }
                    },
                }
            }
            k = k + 1;
        }
    }

    /// Remove a topic during trimming.
    fn remove_topic_checked(&self, state: &mut RunnerState, topic: &str)
        requires
            old(state)@.wf(),
        ensures
            final(state)@.wf(),
            final(state)@.get(topic@) is None,
            forall|q: Seq<char>| q != topic@ ==> final(state)@.get(q) == old(state)@.get(q),
    {
        let _ = state.remove_topic(topic);
    }
}

} // verus!
