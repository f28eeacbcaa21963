//! The runner's topic-history store: one record per topic, the
//! concatenation of every publish on that topic since the last trim.

use vstd::prelude::*;
use crate::matcher::{matches_spec, topic_matches};
use crate::record::{Record, RecordError, RecordFlag, RecordView, flag_of, meta_get, topic_of};
use crate::text::str_eq;

verus! {

/// The first record stored under topic `k`, if any.
pub open spec fn store_get(m: Seq<(Seq<char>, RecordView)>, k: Seq<char>) -> Option<RecordView>
    decreases m,
{
    if m.len() == 0 {
        None
    } else if m[0].0 == k {
        Some(m[0].1)
    } else {
        store_get(m.subrange(1, m.len() as int), k)
    }
}

/// No two entries share a topic key.
pub open spec fn store_unique(m: Seq<(Seq<char>, RecordView)>) -> bool {
    forall|i: int, j: int| 0 <= i < j < m.len() ==> (#[trigger] m[i]).0 != (#[trigger] m[j]).0
}

/// Lookup at the first matching index.
pub proof fn lemma_store_get_at(m: Seq<(Seq<char>, RecordView)>, j: int, k: Seq<char>)
    requires
        0 <= j < m.len(),
        m[j].0 == k,
        forall|i: int| 0 <= i < j ==> (#[trigger] m[i]).0 != k,
    ensures
        store_get(m, k) == Some(m[j].1),
    decreases m,
{
    if j > 0 {
        lemma_store_get_at(m.subrange(1, m.len() as int), j - 1, k);
    }
}

/// Lookup misses when no entry has the key.
pub proof fn lemma_store_get_none(m: Seq<(Seq<char>, RecordView)>, k: Seq<char>)
    requires
        forall|i: int| 0 <= i < m.len() ==> (#[trigger] m[i]).0 != k,
    ensures
        store_get(m, k) is None,
    decreases m,
{
    if m.len() > 0 {
        lemma_store_get_none(m.subrange(1, m.len() as int), k);
    }
}

/// Appending a fresh entry changes only that key's lookup.
pub proof fn lemma_store_get_push(
    m: Seq<(Seq<char>, RecordView)>,
    k: Seq<char>,
    v: RecordView,
    q: Seq<char>,
)
    requires
        store_get(m, k) is None,
    ensures
        store_get(m.push((k, v)), q) == (if q == k {
            Some(v)
        } else {
            store_get(m, q)
        }),
    decreases m,
{
    let p = m.push((k, v));
    if m.len() == 0 {
        assert(p[0] == (k, v));
        assert(p.subrange(1, p.len() as int) =~= Seq::<(Seq<char>, RecordView)>::empty());
        if q != k {
            assert(p[0].0 != q);
            assert(store_get(p, q) == store_get(p.subrange(1, p.len() as int), q));
        }
    } else {
        let rest = m.subrange(1, m.len() as int);
        lemma_store_get_push(rest, k, v, q);
        assert(p.subrange(1, p.len() as int) =~= rest.push((k, v)));
        assert(p[0] == m[0]);
        assert(store_get(p, q) == (if p[0].0 == q {
            Some(p[0].1)
        } else {
            store_get(rest.push((k, v)), q)
        }));
    }
}

/// Overwriting entry `j`'s record changes only that key's lookup, when no
/// earlier entry shares its key.
pub proof fn lemma_store_get_update(
    m: Seq<(Seq<char>, RecordView)>,
    j: int,
    v: RecordView,
    q: Seq<char>,
)
    requires
        0 <= j < m.len(),
        forall|i: int| 0 <= i < j ==> (#[trigger] m[i]).0 != m[j].0,
    ensures
        store_get(m.update(j, (m[j].0, v)), q) == (if q == m[j].0 {
            Some(v)
        } else {
            store_get(m, q)
        }),
    decreases m,
{
    let m2 = m.update(j, (m[j].0, v));
    if j == 0 {
        assert(m2[0] == (m[j].0, v));
        assert(m2.subrange(1, m2.len() as int) =~= m.subrange(1, m.len() as int));
    } else {
        let rest = m.subrange(1, m.len() as int);
        assert(forall|i: int| 0 <= i < j - 1 ==> (#[trigger] rest[i]).0 != rest[j - 1].0);
        lemma_store_get_update(rest, j - 1, v, q);
        assert(m2[0] == m[0]);
        assert(m2.subrange(1, m2.len() as int) =~= rest.update(j - 1, (rest[j - 1].0, v)));
    }
}

/// Removing entry `j` forgets only that key, when no earlier entry shares
/// its key.
pub proof fn lemma_store_get_remove(m: Seq<(Seq<char>, RecordView)>, j: int, q: Seq<char>)
    requires
        0 <= j < m.len(),
        forall|i: int| 0 <= i < j ==> (#[trigger] m[i]).0 != m[j].0,
        store_get(m.subrange(j + 1, m.len() as int), m[j].0) is None,
    ensures
        store_get(m.remove(j), q) == (if q == m[j].0 {
            None::<RecordView>
        } else {
            store_get(m, q)
        }),
    decreases m,
{
    let m2 = m.remove(j);
    if j == 0 {
        assert(m2 =~= m.subrange(1, m.len() as int));
    } else {
        let rest = m.subrange(1, m.len() as int);
        assert(forall|i: int| 0 <= i < j - 1 ==> (#[trigger] rest[i]).0 != rest[j - 1].0);
        assert(rest.subrange(j, rest.len() as int) =~= m.subrange(j + 1, m.len() as int));
        lemma_store_get_remove(rest, j - 1, q);
        assert(m2[0] == m[0]);
        assert(m2.subrange(1, m2.len() as int) =~= rest.remove(j - 1));
    }
}

/// The topic-history store.
pub struct RunnerState {
    logs: Vec<(String, Record)>,
}

/// The mathematical model of the store: topic keys paired with the
/// stored record, in insertion order, keys unique.
#[verifier::ext_equal]
pub struct StateView {
    pub topics: Seq<(Seq<char>, RecordView)>,
}

impl View for RunnerState {
    type V = StateView;

    closed spec fn view(&self) -> StateView {
        StateView {
            topics: Seq::new(self.logs@.len(), |i: int| (self.logs@[i].0@, self.logs@[i].1@)),
        }
    }
}

impl StateView {
    /// The record stored for `k`, if any.
    pub open spec fn get(self, k: Seq<char>) -> Option<RecordView> {
        store_get(self.topics, k)
    }

    /// Keys are unique, every stored record is well formed, and every
    /// stored record's `topic` metadata equals its storage key.
    pub open spec fn wf(self) -> bool {
        store_unique(self.topics)
            && forall|i: int| 0 <= i < self.topics.len()
                ==> (#[trigger] self.topics[i]).1.wf()
                    && topic_of(self.topics[i].1) == Some(self.topics[i].0)
    }
}

impl RunnerState {
    /// An empty store.
    pub fn new() -> (r: RunnerState)
        ensures
            r@.topics =~= Seq::<(Seq<char>, RecordView)>::empty(),
            r@.wf(),
    {
        RunnerState { logs: Vec::new() }
    }

    /// The stored topic keys, in insertion order.
    pub fn get_topics(&self) -> (r: Vec<String>)
        ensures
            r@.len() == self@.topics.len(),
            forall|i: int| 0 <= i < r@.len() ==> (#[trigger] r@[i])@ == self@.topics[i].0,
    {
        let mut out: Vec<String> = Vec::new();
        let mut i: usize = 0;
        while i < self.logs.len()
            invariant
                self@.topics.len() == self.logs@.len(),
                forall|k: int| 0 <= k < self.logs@.len()
                    ==> self@.topics[k] == (self.logs@[k].0@, self.logs@[k].1@),
                i <= self.logs@.len(),
                out@.len() == i,
                forall|k: int| 0 <= k < i ==> (#[trigger] out@[k])@ == self@.topics[k].0,
            decreases self.logs@.len() - i,
        {
            out.push(self.logs[i].0.clone());
            i = i + 1;
        }
        out
    }

    /// The index of `topic`'s entry, if stored.
    fn find(&self, topic: &str) -> (r: Option<usize>)
        ensures
            (match r {
                Some(j) => j < self@.topics.len() && self@.topics[j as int].0 == topic@
                    && (forall|i: int| 0 <= i < j ==> (#[trigger] self@.topics[i]).0 != topic@)
                    && self@.get(topic@) == Some(self@.topics[j as int].1),
                None => self@.get(topic@) is None,
            }),
    {
        let ghost gt = self@.topics;
        let mut j: usize = 0;
        while j < self.logs.len()
            invariant
                gt == self@.topics,
                gt.len() == self.logs@.len(),
                forall|k: int| 0 <= k < self.logs@.len()
                    ==> gt[k] == (self.logs@[k].0@, self.logs@[k].1@),
                j <= gt.len(),
                forall|k: int| 0 <= k < j ==> (#[trigger] gt[k]).0 != topic@,
            decreases gt.len() - j,
        {
            if str_eq(self.logs[j].0.as_str(), topic) {
                proof {
                    lemma_store_get_at(gt, j as int, topic@);
                }
                return Some(j);
            }
            j = j + 1;
        }
        proof {
            lemma_store_get_none(gt, topic@);
        }
        None
    }

    /// The number of rows stored for `topic`, if stored.
    pub fn get_topic_row_count(&self, topic: &str) -> (r: Option<usize>)
        ensures
            (match r {
                Some(n) => self@.get(topic@) matches Some(rv) && n == rv.rows.len(),
                None => self@.get(topic@) is None,
            }),
    {
        match self.find(topic) {
            Some(j) => Some(self.logs[j].1.num_rows()),
            None => None,
        }
    }

    /// The record stored for `topic`, if stored.
    pub fn get_topic_record(&self, topic: &str) -> (r: Option<&Record>)
        ensures
            (match r {
                Some(rec) => self@.get(topic@) == Some(rec@),
                None => self@.get(topic@) is None,
            }),
    {
        match self.find(topic) {
            Some(j) => Some(&self.logs[j].1),
            None => None,
        }
    }
}

} // verus!

verus! {

/// Lookup misses exactly when no entry has the key.
pub proof fn lemma_store_get_none_all(m: Seq<(Seq<char>, RecordView)>, k: Seq<char>)
    requires
        store_get(m, k) is None,
    ensures
        forall|i: int| 0 <= i < m.len() ==> (#[trigger] m[i]).0 != k,
    decreases m,
{
    if m.len() > 0 {
        lemma_store_get_none_all(m.subrange(1, m.len() as int), k);
        assert forall|i: int| 0 <= i < m.len() implies (#[trigger] m[i]).0 != k by {
            if i > 0 {
                assert(m.subrange(1, m.len() as int)[i - 1] == m[i]);
            }
        }
    }
}

/// The views of a sequence of records.
pub open spec fn rec_views(s: Seq<Record>) -> Seq<RecordView> {
    Seq::new(s.len(), |i: int| s[i]@)
}

/// `views` is the late-subscribe snapshot for pattern `q` over `topics`:
/// one record per matching stored topic, in storage order, each holding
/// that topic's schema and metadata and only its last row.
pub open spec fn snapshot_views_ok(
    topics: Seq<(Seq<char>, RecordView)>,
    q: Seq<char>,
    views: Seq<RecordView>,
) -> bool {
    views.len() == matching_keys(topics, q).len()
        && forall|i: int| 0 <= i < views.len()
            ==> (store_get(topics, matching_keys(topics, q)[i]) matches Some(sv)
                && (#[trigger] views[i]).wf()
                && views[i].schema == sv.schema
                && views[i].meta == sv.meta
                && views[i].rows == sv.rows.subrange(
                    sv.rows.len() - (if 1 <= sv.rows.len() {
                        1int
                    } else {
                        sv.rows.len() as int
                    }),
                    sv.rows.len() as int,
                ))
}

/// The stored keys that match a pattern, in storage order.
pub open spec fn matching_keys(m: Seq<(Seq<char>, RecordView)>, q: Seq<char>) -> Seq<Seq<char>>
    decreases m,
{
    if m.len() == 0 {
        Seq::empty()
    } else {
        (if matches_spec(q, m[0].0) {
            seq![m[0].0]
        } else {
            Seq::empty()
        }) + matching_keys(m.subrange(1, m.len() as int), q)
    }
}

/// `matching_keys` distributes over concatenation.
pub proof fn lemma_matching_keys_append(
    a: Seq<(Seq<char>, RecordView)>,
    b: Seq<(Seq<char>, RecordView)>,
    q: Seq<char>,
)
    ensures
        matching_keys(a + b, q) == matching_keys(a, q) + matching_keys(b, q),
    decreases a,
{
    if a.len() == 0 {
        assert(a + b =~= b);
        assert(matching_keys(a, q) + matching_keys(b, q) =~= matching_keys(b, q));
    } else {
        let rest = a.subrange(1, a.len() as int);
        lemma_matching_keys_append(rest, b, q);
        assert((a + b).subrange(1, (a + b).len() as int) =~= rest + b);
        assert((a + b)[0] == a[0]);
        if matches_spec(q, a[0].0) {
            assert(seq![a[0].0] + (matching_keys(rest, q) + matching_keys(b, q))
                =~= (seq![a[0].0] + matching_keys(rest, q)) + matching_keys(b, q));
        } else {
            assert(Seq::<Seq<char>>::empty() + (matching_keys(rest, q) + matching_keys(b, q))
                =~= (Seq::<Seq<char>>::empty() + matching_keys(rest, q)) + matching_keys(b, q));
        }
    }
}

/// Every matching key is a stored key.
pub proof fn lemma_matching_keys_stored(m: Seq<(Seq<char>, RecordView)>, q: Seq<char>)
    ensures
        forall|i: int| 0 <= i < matching_keys(m, q).len()
            ==> matches_spec(q, #[trigger] matching_keys(m, q)[i])
                && store_get(m, matching_keys(m, q)[i]) is Some,
    decreases m,
{
    if m.len() > 0 {
        let rest = m.subrange(1, m.len() as int);
        lemma_matching_keys_stored(rest, q);
        assert forall|i: int| 0 <= i < matching_keys(m, q).len()
            implies matches_spec(q, #[trigger] matching_keys(m, q)[i])
                && store_get(m, matching_keys(m, q)[i]) is Some by {
            let head_len: int = if matches_spec(q, m[0].0) { 1 } else { 0 };
            if i < head_len {
                assert(matching_keys(m, q)[i] == m[0].0);
            } else {
                let k = matching_keys(m, q)[i];
                assert(k == matching_keys(rest, q)[i - head_len]);
                assert(store_get(rest, k) is Some);
                if m[0].0 != k {
                    assert(store_get(m, k) == store_get(rest, k));
                }
            }
        }
    }
}

impl RunnerState {
    /// Append a publish to its topic's history: concatenate into the
    /// stored record, or insert the record as the first history entry.
    pub fn apply_record(&mut self, record: &Record) -> (r: Result<(), RecordError>)
        requires
            old(self)@.wf(),
            record@.wf(),
        ensures
            final(self)@.wf(),
            (match topic_of(record@) {
                None => r == Err::<(), RecordError>(RecordError::TopicMetadataNotSet)
                    && final(self)@ == old(self)@,
                Some(t) => match old(self)@.get(t) {
                    None => r is Ok
                        && final(self)@.get(t) == Some(record@)
                        && (forall|q: Seq<char>| q != t
                            ==> final(self)@.get(q) == old(self)@.get(q)),
                    Some(ex) => if ex.schema == record@.schema {
                        r is Ok
                        && (final(self)@.get(t) matches Some(nv)
                            && nv.schema == ex.schema
                            && nv.rows == ex.rows + record@.rows
                            && (forall|q2: Seq<char>| #[trigger] meta_get(nv.meta, q2)
                                == (match meta_get(ex.meta, q2) {
                                    Some(x) => Some(x),
                                    None => meta_get(record@.meta, q2),
                                })))
                        && (forall|q: Seq<char>| q != t
                            ==> final(self)@.get(q) == old(self)@.get(q))
                    } else {
                        r == Err::<(), RecordError>(RecordError::IncompatibleAppend)
                            && final(self)@ == old(self)@
                    },
                },
            }),
    {
        let topic = match record.try_get_topic() {
            Ok(t) => t,
            Err(_) => {
                return Err(RecordError::TopicMetadataNotSet);
            },
        };
        let ghost gt = self@.topics;
        match self.find(topic.as_str()) {
            None => {
                proof {
                    lemma_store_get_none_all(gt, topic@);
                }
                self.logs.push((topic, record.clone()));
                proof {
                    assert(self@.topics =~= gt.push((topic@, record@)));
                    assert forall|q: Seq<char>| true
                        implies #[trigger] store_get(self@.topics, q) == (if q == topic@ {
                            Some(record@)
                        } else {
                            store_get(gt, q)
                        }) by {
                        lemma_store_get_push(gt, topic@, record@, q);
                    }
                }
                Ok(())
            },
            Some(j) => {
                let merged = match self.logs[j].1.concat(record) {
                    Ok(m) => m,
                    Err(_) => {
                        return Err(RecordError::IncompatibleAppend);
                    },
                };
                let key = self.logs[j].0.clone();
                let ghost gm = merged@;
                self.logs.set(j, (key, merged));
                proof {
                    assert(self@.topics =~= gt.update(j as int, (gt[j as int].0, gm)));
                    assert forall|q: Seq<char>| true
                        implies #[trigger] store_get(self@.topics, q) == (if q == topic@ {
                            Some(gm)
                        } else {
                            store_get(gt, q)
                        }) by {
                        lemma_store_get_update(gt, j as int, gm, q);
                    }
                    assert(topic_of(gm) == Some(topic@));
                    assert forall|a: int, b: int| 0 <= a < b < self@.topics.len()
                        implies (#[trigger] self@.topics[a]).0 != (#[trigger] self@.topics[b]).0 by {
                        assert(self@.topics[a].0 == gt[a].0);
                        assert(self@.topics[b].0 == gt[b].0);
                    }
                }
                Ok(())
            },
        }
    }

    /// Store `record` under `topic`, replacing any earlier entry.
    pub fn replace_topic_record(&mut self, topic: String, record: Record)
        requires
            old(self)@.wf(),
            record@.wf(),
            topic_of(record@) == Some(topic@),
        ensures
            final(self)@.wf(),
            final(self)@.get(topic@) == Some(record@),
            forall|q: Seq<char>| q != topic@ ==> final(self)@.get(q) == old(self)@.get(q),
    {
        let ghost gt = self@.topics;
        match self.find(topic.as_str()) {
            None => {
                proof {
                    lemma_store_get_none_all(gt, topic@);
                }
                let ghost gtop = topic@;
                let ghost grec = record@;
                self.logs.push((topic, record));
                proof {
                    assert(self@.topics =~= gt.push((gtop, grec)));
                    assert forall|q: Seq<char>| true
                        implies #[trigger] store_get(self@.topics, q) == (if q == gtop {
                            Some(grec)
                        } else {
                            store_get(gt, q)
                        }) by {
                        lemma_store_get_push(gt, gtop, grec, q);
                    }
                    assert forall|a: int, b: int| 0 <= a < b < self@.topics.len()
                        implies (#[trigger] self@.topics[a]).0 != (#[trigger] self@.topics[b]).0 by {
                        if b < gt.len() {
                            assert(gt[a].0 != gt[b].0);
                        } else {
                            assert(gt[a].0 != gtop);
                        }
                    }
                }
            },
            Some(j) => {
                let ghost grec = record@;
                self.logs.set(j, (topic, record));
                proof {
                    assert(self@.topics =~= gt.update(j as int, (gt[j as int].0, grec)));
                    assert forall|q: Seq<char>| true
                        implies #[trigger] store_get(self@.topics, q) == (if q == gt[j as int].0 {
                            Some(grec)
                        } else {
                            store_get(gt, q)
                        }) by {
                        lemma_store_get_update(gt, j as int, grec, q);
                    }
                    assert forall|a: int, b: int| 0 <= a < b < self@.topics.len()
                        implies (#[trigger] self@.topics[a]).0 != (#[trigger] self@.topics[b]).0 by {
                        assert(self@.topics[a].0 == gt[a].0);
                        assert(self@.topics[b].0 == gt[b].0);
                    }
                }
            },
        }
    }

    /// Remove `topic`'s entry and hand back its record, if stored.
    pub fn remove_topic(&mut self, topic: &str) -> (r: Option<Record>)
        requires
            old(self)@.wf(),
        ensures
            final(self)@.wf(),
            final(self)@.get(topic@) is None,
            forall|q: Seq<char>| q != topic@ ==> final(self)@.get(q) == old(self)@.get(q),
            (match r {
                Some(rec) => old(self)@.get(topic@) == Some(rec@),
                None => old(self)@.get(topic@) is None && final(self)@ == old(self)@,
            }),
    {
        let ghost gt = self@.topics;
        match self.find(topic) {
            None => None,
            Some(j) => {
                let (_k, rec) = self.logs.remove(j);
                proof {
                    assert(self@.topics =~= gt.remove(j as int));
                    assert forall|i: int| 0 <= i < gt.len() && i != j
                        implies (#[trigger] gt[i]).0 != gt[j as int].0 by {}
                    assert forall|i: int| 0 <= i < gt.subrange(j as int + 1, gt.len() as int).len()
                        implies (#[trigger] gt.subrange(j as int + 1, gt.len() as int)[i]).0
                            != gt[j as int].0 by {
                        assert(gt.subrange(j as int + 1, gt.len() as int)[i] == gt[i + j + 1]);
                    }
                    lemma_store_get_none(gt.subrange(j as int + 1, gt.len() as int), gt[j as int].0);
                    assert forall|q: Seq<char>| true
                        implies #[trigger] store_get(self@.topics, q) == (if q == gt[j as int].0 {
                            None::<RecordView>
                        } else {
                            store_get(gt, q)
                        }) by {
                        lemma_store_get_remove(gt, j as int, q);
                    }
                    assert forall|a: int, b: int| 0 <= a < b < self@.topics.len()
                        implies (#[trigger] self@.topics[a]).0 != (#[trigger] self@.topics[b]).0 by {
                        let a0: int = if a < j { a } else { a + 1 };
                        let b0: int = if b < j { b } else { b + 1 };
                        assert(self@.topics[a].0 == gt[a0].0);
                        assert(self@.topics[b].0 == gt[b0].0);
                    }
                }
                Some(rec)
            },
        }
    }

    /// The stored keys matching `query`, by the topic-pattern ladder, in
    /// storage order.
    pub fn query_topics(&self, query: &str) -> (r: Vec<String>)
        ensures
            r@.len() == matching_keys(self@.topics, query@).len(),
            forall|i: int| 0 <= i < r@.len()
                ==> (#[trigger] r@[i])@ == matching_keys(self@.topics, query@)[i],
    {
        let ghost gt = self@.topics;
        let mut out: Vec<String> = Vec::new();
        let mut j: usize = 0;
        while j < self.logs.len()
            invariant
                gt == self@.topics,
                gt.len() == self.logs@.len(),
                forall|k: int| 0 <= k < self.logs@.len()
                    ==> gt[k] == (self.logs@[k].0@, self.logs@[k].1@),
                j <= gt.len(),
                out@.len() == matching_keys(gt.subrange(0, j as int), query@).len(),
                forall|i: int| 0 <= i < out@.len()
                    ==> (#[trigger] out@[i])@ == matching_keys(gt.subrange(0, j as int), query@)[i],
            decreases gt.len() - j,
        {
            let ghost pre = gt.subrange(0, j as int);
            let ghost one = gt.subrange(j as int, j as int + 1);
            proof {
                lemma_matching_keys_append(pre, one, query@);
                assert(pre + one =~= gt.subrange(0, j as int + 1));
                assert(one[0] == gt[j as int]);
                assert(one.subrange(1, one.len() as int)
                    =~= Seq::<(Seq<char>, RecordView)>::empty());
                assert(matching_keys(one.subrange(1, one.len() as int), query@)
                    == Seq::<Seq<char>>::empty());
                if matches_spec(query@, gt[j as int].0) {
                    assert(matching_keys(one, query@)
                        == seq![one[0].0] + Seq::<Seq<char>>::empty());
                    assert(matching_keys(one, query@) =~= seq![gt[j as int].0]);
                } else {
                    assert(matching_keys(one, query@)
                        == Seq::<Seq<char>>::empty() + Seq::<Seq<char>>::empty());
                    assert(matching_keys(one, query@) =~= Seq::<Seq<char>>::empty());
                }
            }
            if topic_matches(query, self.logs[j].0.as_str()) {
                out.push(self.logs[j].0.clone());
            }
            j = j + 1;
        }
        proof {
            assert(gt.subrange(0, gt.len() as int) =~= gt);
        }
        out
    }

    /// A one-row record holding the last row stored for `topic`, or
    /// `TopicNotFound`.
    pub fn get_latest_topic_data(&self, topic: &str) -> (r: Result<Record, RecordError>)
        requires
            self@.wf(),
        ensures
            r is Ok <==> self@.get(topic@) is Some,
            r is Err ==> r->Err_0 == RecordError::TopicNotFound,
            r matches Ok(rec) ==> (self@.get(topic@) matches Some(sv)
                && rec@.wf()
                && rec@.schema == sv.schema
                && rec@.meta == sv.meta
                && rec@.rows == sv.rows.subrange(
                    sv.rows.len() - (if 1 <= sv.rows.len() { 1int } else { sv.rows.len() as int }),
                    sv.rows.len() as int,
                )),
    {
        match self.find(topic) {
            Some(j) => Ok(self.logs[j].1.get_n_latest_rows(1)),
            None => Err(RecordError::TopicNotFound),
        }
    }

    /// An `n`-row record holding the last rows stored for `topic`, or
    /// `TopicNotFound`.
    pub fn get_n_latest_topic_data(&self, topic: &str, n: usize) -> (r: Result<
        Record,
        RecordError,
    >)
        requires
            self@.wf(),
        ensures
            r is Ok <==> self@.get(topic@) is Some,
            r is Err ==> r->Err_0 == RecordError::TopicNotFound,
            r matches Ok(rec) ==> (self@.get(topic@) matches Some(sv)
                && rec@.wf()
                && rec@.schema == sv.schema
                && rec@.meta == sv.meta
                && rec@.rows == sv.rows.subrange(
                    sv.rows.len() - (if n <= sv.rows.len() {
                        n as int
                    } else {
                        sv.rows.len() as int
                    }),
                    sv.rows.len() as int,
                )),
    {
        match self.find(topic) {
            Some(j) => Ok(self.logs[j].1.get_n_latest_rows(n)),
            None => Err(RecordError::TopicNotFound),
        }
    }

    /// For every stored topic matching `query`, a one-row record with
    /// that topic's last row, in storage order.
    pub fn query_latest_topic_data(&self, query: &str) -> (r: Vec<Record>)
        requires
            self@.wf(),
        ensures
            snapshot_views_ok(self@.topics, query@, rec_views(r@)),
    {
        let topics = self.query_topics(query);
        proof {
            lemma_matching_keys_stored(self@.topics, query@);
        }
        let mut out: Vec<Record> = Vec::new();
        let mut i: usize = 0;
        while i < topics.len()
            invariant
                self@.wf(),
                topics@.len() == matching_keys(self@.topics, query@).len(),
                forall|k: int| 0 <= k < topics@.len()
                    ==> (#[trigger] topics@[k])@ == matching_keys(self@.topics, query@)[k],
                forall|k: int| 0 <= k < matching_keys(self@.topics, query@).len()
                    ==> store_get(self@.topics,
                        #[trigger] matching_keys(self@.topics, query@)[k]) is Some,
                i <= topics@.len(),
                out@.len() == i,
                forall|k: int| 0 <= k < i
                    ==> (store_get(self@.topics, matching_keys(self@.topics, query@)[k])
                            matches Some(sv)
                        && (#[trigger] out@[k])@.wf()
                        && out@[k]@.schema == sv.schema
                        && out@[k]@.meta == sv.meta
                        && out@[k]@.rows == sv.rows.subrange(
                            sv.rows.len() - (if 1 <= sv.rows.len() {
                                1int
                            } else {
                                sv.rows.len() as int
                            }),
                            sv.rows.len() as int,
                        )),
            decreases topics@.len() - i,
        {
            match self.get_latest_topic_data(topics[i].as_str()) {
                Ok(rec) => {
                    out.push(rec);
                },
                Err(_) => {
                    proof {
                        assert(false);
                    }
                },
            }
            i = i + 1;
        }
        proof {
            assert forall|k: int| 0 <= k < rec_views(out@).len()
                implies (store_get(self@.topics, matching_keys(self@.topics, query@)[k])
                        matches Some(sv)
                    && (#[trigger] rec_views(out@)[k]).wf()
                    && rec_views(out@)[k].schema == sv.schema
                    && rec_views(out@)[k].meta == sv.meta
                    && rec_views(out@)[k].rows == sv.rows.subrange(
                        sv.rows.len() - (if 1 <= sv.rows.len() {
                            1int
                        } else {
                            sv.rows.len() as int
                        }),
                        sv.rows.len() as int,
                    )) by {
                assert(rec_views(out@)[k] == out@[k]@);
            }
        }
        out
    }
}

} // verus!

verus! {

/// In a store with unique keys, every entry is found under its own key.
pub proof fn lemma_store_self(m: Seq<(Seq<char>, RecordView)>, i: int)
    requires
        store_unique(m),
        0 <= i < m.len(),
    ensures
        store_get(m, m[i].0) == Some(m[i].1),
{
    lemma_store_get_at(m, i, m[i].0);
}

} // verus!

verus! {

/// A found record is some entry's record, under its own key.
pub proof fn lemma_store_get_some_index(m: Seq<(Seq<char>, RecordView)>, k: Seq<char>)
    requires
        store_get(m, k) is Some,
    ensures
        exists|i: int| 0 <= i < m.len() && #[trigger] m[i] == (k, store_get(m, k)->Some_0),
    decreases m,
{
    if m[0].0 == k {
        assert(m[0] == (k, store_get(m, k)->Some_0));
    } else {
        let rest = m.subrange(1, m.len() as int);
        lemma_store_get_some_index(rest, k);
        let i = choose|i: int| 0 <= i < rest.len()
            && #[trigger] rest[i] == (k, store_get(rest, k)->Some_0);
        assert(m[i + 1] == (k, store_get(m, k)->Some_0));
    }
}

} // verus!
