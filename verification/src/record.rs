//! The Record data model: an immutable row batch with a schema and a
//! string-keyed metadata map.
//!
//! Reserved metadata keys are `topic` (the routing key) and `flag`
//! (`PublishPacket` or `SubscribePacket`). Every contract speaks of
//! `RecordView`: the schema as a sequence of ghost fields, the rows as
//! sequences of ghost values, and the metadata as an association list
//! with unique keys.

use vstd::prelude::*;
use crate::json::{ColType, Field, GField, GVal, JsonVal, g_has_ty, g_infer, gfields_of, gvals_of,
    lemma_gfields_of, lemma_gvals_of, has_ty, infer_ty, gval_of, gty_of, GTy, g_all_ty, lemma_g_all_ty, lemma_g_obj_ty, gpairs_of, lemma_gpairs_of};
use crate::text::str_eq;

verus! {

broadcast use vstd::std_specs::vec::group_vec_axioms, vstd::seq::group_seq_axioms;

/// What a record is for: a data publish or a subscription request.
#[derive(Debug, Clone, Copy, PartialEq, Eq, Structural)]
pub enum RecordFlag {
    PublishPacket,
    SubscribePacket,
}

/// Errors of the record layer and of the stores built on it.
#[derive(Debug, Clone, Copy, PartialEq, Eq, Structural)]
pub enum RecordError {
    /// The value handed to record construction is not table-shaped.
    SchemaInferenceFailed,
    /// Two records with different schemas cannot be concatenated.
    SchemaMismatch,
    /// A publish could not be appended to a topic's stored history.
    IncompatibleAppend,
    /// The record has no rows to decode.
    Empty,
    /// The queried topic has no stored history.
    TopicNotFound,
    /// The named task is not registered with the runner.
    TaskNotFound,
    /// A field name holds the path separator where flattening would make
    /// the dotted name ambiguous.
    AmbiguousFieldName,
    /// The record has no `topic` metadata entry.
    TopicMetadataNotSet,
    /// The record has no readable `flag` metadata entry.
    FlagMetadataNotSet,
}

impl RecordFlag {
    /// The metadata value that stands for this flag.
    pub open spec fn spec_name(self) -> Seq<char> {
        match self {
            RecordFlag::PublishPacket => "PublishPacket"@,
            RecordFlag::SubscribePacket => "SubscribePacket"@,
        }
    }

    /// The metadata value that stands for this flag.
    pub fn name(&self) -> (r: &'static str)
        ensures
            r@ == self.spec_name(),
    {
        match self {
            RecordFlag::PublishPacket => "PublishPacket",
            RecordFlag::SubscribePacket => "SubscribePacket",
        }
    }

    /// The flag a metadata value stands for, if any.
    pub open spec fn spec_parse(s: Seq<char>) -> Option<RecordFlag> {
        if s == "PublishPacket"@ {
            Some(RecordFlag::PublishPacket)
        } else if s == "SubscribePacket"@ {
            Some(RecordFlag::SubscribePacket)
        } else {
            None
        }
    }

    /// The flag a metadata value stands for, if any.
    pub fn parse(s: &str) -> (r: Option<RecordFlag>)
        ensures
            r == RecordFlag::spec_parse(s@),
    {
        if str_eq(s, "PublishPacket") {
            Some(RecordFlag::PublishPacket)
        } else if str_eq(s, "SubscribePacket") {
            Some(RecordFlag::SubscribePacket)
        } else {
            None
        }
    }
}

/// The first value stored under key `k`, if any.
pub open spec fn meta_get(m: Seq<(Seq<char>, Seq<char>)>, k: Seq<char>) -> Option<Seq<char>>
    decreases m,
{
    if m.len() == 0 {
        None
    } else if m[0].0 == k {
        Some(m[0].1)
    } else {
        meta_get(m.subrange(1, m.len() as int), k)
    }
}

/// The ghost view of a metadata entry list.
pub open spec fn pairs_view(m: Seq<(String, String)>) -> Seq<(Seq<char>, Seq<char>)> {
    Seq::new(m.len(), |k: int| (m[k].0@, m[k].1@))
}

/// No two entries share a key.
pub open spec fn meta_unique(m: Seq<(Seq<char>, Seq<char>)>) -> bool {
    forall|i: int, j: int| 0 <= i < j < m.len() ==> (#[trigger] m[i]).0 != (#[trigger] m[j]).0
}

/// Appending a fresh entry changes only that key's lookup.
pub proof fn lemma_meta_get_push(
    m: Seq<(Seq<char>, Seq<char>)>,
    k: Seq<char>,
    v: Seq<char>,
    q: Seq<char>,
)
    requires
        meta_get(m, k) is None,
    ensures
        meta_get(m.push((k, v)), q) == (if q == k {
            Some(v)
        } else {
            meta_get(m, q)
        }),
    decreases m,
{
    let p = m.push((k, v));
    if m.len() == 0 {
        assert(p[0] == (k, v));
        assert(p.subrange(1, p.len() as int) =~= Seq::<(Seq<char>, Seq<char>)>::empty());
        if q == k {
            assert(meta_get(p, q) == Some(v));
        } else {
            assert(p[0].0 != q);
            assert(meta_get(p, q) == meta_get(p.subrange(1, p.len() as int), q));
        }
    } else {
        let rest = m.subrange(1, m.len() as int);
        lemma_meta_get_push(rest, k, v, q);
        assert(p.subrange(1, p.len() as int) =~= rest.push((k, v)));
        assert(p[0] == m[0]);
        assert(meta_get(p, q) == (if p[0].0 == q {
            Some(p[0].1)
        } else {
            meta_get(rest.push((k, v)), q)
        }));
    }
}

/// Overwriting entry `j`'s value changes only that key's lookup, when no
/// earlier entry shares its key.
pub proof fn lemma_meta_get_update(
    m: Seq<(Seq<char>, Seq<char>)>,
    j: int,
    v: Seq<char>,
    q: Seq<char>,
)
    requires
        0 <= j < m.len(),
        forall|i: int| 0 <= i < j ==> (#[trigger] m[i]).0 != m[j].0,
    ensures
        meta_get(m.update(j, (m[j].0, v)), q) == (if q == m[j].0 {
            Some(v)
        } else {
            meta_get(m, q)
        }),
    decreases m,
{
    let m2 = m.update(j, (m[j].0, v));
    if j == 0 {
        assert(m2[0] == (m[j].0, v));
        assert(m2.subrange(1, m2.len() as int) =~= m.subrange(1, m.len() as int));
    } else {
        let rest = m.subrange(1, m.len() as int);
        assert(forall|i: int| 0 <= i < j - 1 ==> (#[trigger] rest[i]).0 != rest[j - 1].0);
        lemma_meta_get_update(rest, j - 1, v, q);
        assert(m2[0] == m[0]);
        assert(m2.subrange(1, m2.len() as int) =~= rest.update(j - 1, (rest[j - 1].0, v)));
    }
}

/// A record: a schema, the rows that conform to it, and metadata.
pub struct Record {
    schema: Vec<Field>,
    rows: Vec<Vec<JsonVal>>,
    meta: Vec<(String, String)>,
}

/// The mathematical model of a record.
#[verifier::ext_equal]
pub struct RecordView {
    pub schema: Seq<GField>,
    pub rows: Seq<Seq<GVal>>,
    pub meta: Seq<(Seq<char>, Seq<char>)>,
}

/// A row conforms to a schema: one value per field, each of its field's
/// type.
pub open spec fn row_ok(row: Seq<GVal>, schema: Seq<GField>) -> bool {
    row.len() == schema.len()
        && forall|j: int| 0 <= j < row.len() ==> g_has_ty(#[trigger] row[j], schema[j].ty)
}

impl View for Record {
    type V = RecordView;

    closed spec fn view(&self) -> RecordView {
        RecordView {
            schema: gfields_of(self.schema@),
            rows: Seq::new(self.rows@.len(), |i: int| gvals_of(self.rows@[i]@)),
            meta: Seq::new(self.meta@.len(), |i: int| (self.meta@[i].0@, self.meta@[i].1@)),
        }
    }
}

impl RecordView {
    /// Every row conforms to the schema and metadata keys are unique.
    pub open spec fn wf(self) -> bool {
        meta_unique(self.meta)
            && forall|i: int| 0 <= i < self.rows.len() ==> row_ok(#[trigger] self.rows[i], self.schema)
    }
}

impl Record {
    /// A record with no columns, no rows and no metadata.
    pub fn new_empty() -> (r: Record)
        ensures
            r@.schema =~= Seq::<GField>::empty(),
            r@.rows =~= Seq::<Seq<GVal>>::empty(),
            r@.meta =~= Seq::<(Seq<char>, Seq<char>)>::empty(),
            r@.wf(),
    {
        Record { schema: Vec::new(), rows: Vec::new(), meta: Vec::new() }
    }

    /// How many rows the record holds.
    pub fn num_rows(&self) -> (n: usize)
        ensures
            n == self@.rows.len(),
    {
        self.rows.len()
    }

    /// How many columns the record holds.
    pub fn num_columns(&self) -> (n: usize)
        ensures
            n == self@.schema.len(),
    {
        proof {
            lemma_gfields_of(self.schema@);
        }
        self.schema.len()
    }

    /// The field of column `i`.
    pub fn field(&self, i: usize) -> (r: &Field)
        requires
            i < self@.schema.len(),
        ensures
            r@ == self@.schema[i as int],
    {
        proof {
            lemma_gfields_of(self.schema@);
        }
        &self.schema[i]
    }

    /// The name of column `i`.
    pub fn field_name(&self, i: usize) -> (r: &String)
        requires
            i < self@.schema.len(),
        ensures
            r@ == self@.schema[i as int].name,
    {
        proof {
            lemma_gfields_of(self.schema@);
        }
        &self.schema[i].name
    }

    /// The first metadata value stored under `key`, if any.
    pub fn get_meta(&self, key: &str) -> (r: Option<&String>)
        ensures
            (match r {
                Some(v) => meta_get(self@.meta, key@) == Some(v@),
                None => meta_get(self@.meta, key@) is None,
            }),
    {
        let ghost gm = self@.meta;
        let mut j: usize = 0;
        while j < self.meta.len()
            invariant
                gm == self@.meta,
                gm.len() == self.meta@.len(),
                forall|k: int| 0 <= k < gm.len()
                    ==> #[trigger] gm[k] == (self.meta@[k].0@, self.meta@[k].1@),
                j <= gm.len(),
                forall|k: int| 0 <= k < j ==> (#[trigger] gm[k]).0 != key@,
            decreases gm.len() - j,
        {
            if str_eq(self.meta[j].0.as_str(), key) {
                proof {
                    lemma_meta_get_at(gm, j as int, key@);
                }
                return Some(&self.meta[j].1);
            }
            j = j + 1;
        }
        proof {
            lemma_meta_get_none(gm, key@);
        }
        None
    }

    /// Store `value` under `key`, replacing any earlier value of that key
    /// and touching nothing else.
    pub fn set_meta(&mut self, key: &str, value: String)
        requires
            old(self)@.wf(),
        ensures
            final(self)@.wf(),
            final(self)@.schema == old(self)@.schema,
            final(self)@.rows == old(self)@.rows,
            meta_get(final(self)@.meta, key@) == Some(value@),
            forall|q: Seq<char>| q != key@
                ==> meta_get(final(self)@.meta, q) == meta_get(old(self)@.meta, q),
    {
        let ghost gm = self@.meta;
        let ghost oldrec = self@;
        let mut j: usize = 0;
        while j < self.meta.len()
            invariant
                self@ == oldrec,
                oldrec == old(self)@,
                oldrec.wf(),
                gm == self@.meta,
                gm.len() == self.meta@.len(),
                forall|k: int| 0 <= k < gm.len()
                    ==> #[trigger] gm[k] == (self.meta@[k].0@, self.meta@[k].1@),
                j <= gm.len(),
                forall|k: int| 0 <= k < j ==> (#[trigger] gm[k]).0 != key@,
            decreases gm.len() - j,
        {
            if str_eq(self.meta[j].0.as_str(), key) {
                let k_owned = self.meta[j].0.clone();
                self.meta.set(j, (k_owned, value));
                proof {
                    assert(self@.meta =~= gm.update(j as int, (gm[j as int].0, value@)));
                    lemma_meta_get_update_all(oldrec.meta, j as int, value@, key@);
                    assert(self@.schema =~= oldrec.schema);
                    assert(self@.rows =~= oldrec.rows);
                }
                return;
            }
            j = j + 1;
        }
        self.meta.push((String::from_str(key), value));
        proof {
            lemma_meta_get_none(gm, key@);
            assert(self@.meta =~= gm.push((key@, value@)));
            lemma_meta_get_push_all(oldrec.meta, key@, value@);
            assert(self@.schema =~= oldrec.schema);
            assert(self@.rows =~= oldrec.rows);
            assert(meta_unique(self@.meta));
        }
    }
}

/// Lookup at the first matching index.
proof fn lemma_meta_get_at(m: Seq<(Seq<char>, Seq<char>)>, j: int, k: Seq<char>)
    requires
        0 <= j < m.len(),
        m[j].0 == k,
        forall|i: int| 0 <= i < j ==> (#[trigger] m[i]).0 != k,
    ensures
        meta_get(m, k) == Some(m[j].1),
    decreases m,
{
    if j > 0 {
        let rest = m.subrange(1, m.len() as int);
        lemma_meta_get_at(rest, j - 1, k);
    }
}

/// Lookup misses when no entry has the key.
proof fn lemma_meta_get_none(m: Seq<(Seq<char>, Seq<char>)>, k: Seq<char>)
    requires
        forall|i: int| 0 <= i < m.len() ==> (#[trigger] m[i]).0 != k,
    ensures
        meta_get(m, k) is None,
    decreases m,
{
    if m.len() > 0 {
        lemma_meta_get_none(m.subrange(1, m.len() as int), k);
    }
}

/// `lemma_meta_get_push` over all query keys, with uniqueness kept.
proof fn lemma_meta_get_push_all(m: Seq<(Seq<char>, Seq<char>)>, k: Seq<char>, v: Seq<char>)
    requires
        meta_unique(m),
        forall|i: int| 0 <= i < m.len() ==> (#[trigger] m[i]).0 != k,
    ensures
        meta_unique(m.push((k, v))),
        meta_get(m.push((k, v)), k) == Some(v),
        forall|q: Seq<char>| q != k
            ==> meta_get(m.push((k, v)), q) == meta_get(m, q),
{
    lemma_meta_get_none(m, k);
    assert forall|q: Seq<char>| q != k
        implies meta_get(m.push((k, v)), q) == meta_get(m, q) by {
        lemma_meta_get_push(m, k, v, q);
    }
    lemma_meta_get_push(m, k, v, k);
    assert forall|i: int, j: int| 0 <= i < j < m.push((k, v)).len()
        implies (#[trigger] m.push((k, v))[i]).0 != (#[trigger] m.push((k, v))[j]).0 by {
        if j < m.len() {
            assert(m[i].0 != m[j].0);
        } else {
            assert(m[i].0 != k);
        }
    }
}

/// `lemma_meta_get_update` over all query keys, with uniqueness kept.
proof fn lemma_meta_get_update_all(m: Seq<(Seq<char>, Seq<char>)>, j: int, v: Seq<char>, k: Seq<char>)
    requires
        meta_unique(m),
        0 <= j < m.len(),
        m[j].0 == k,
    ensures
        meta_unique(m.update(j, (m[j].0, v))),
        meta_get(m.update(j, (m[j].0, v)), k) == Some(v),
        forall|q: Seq<char>| q != k
            ==> meta_get(m.update(j, (m[j].0, v)), q) == meta_get(m, q),
{
    assert forall|q: Seq<char>| q != k
        implies meta_get(m.update(j, (m[j].0, v)), q) == meta_get(m, q) by {
        lemma_meta_get_update(m, j, v, q);
    }
    lemma_meta_get_update(m, j, v, k);
    let m2 = m.update(j, (m[j].0, v));
    assert forall|a: int, b: int| 0 <= a < b < m2.len()
        implies (#[trigger] m2[a]).0 != (#[trigger] m2[b]).0 by {
        assert(m2[a].0 == m[a].0);
        assert(m2[b].0 == m[b].0);
        assert(m[a].0 != m[b].0);
    }
}

} // verus!

verus! {

/// The routing key stored in a record's metadata, if any.
pub open spec fn topic_of(rv: RecordView) -> Option<Seq<char>> {
    meta_get(rv.meta, "topic"@)
}

/// The flag stored in a record's metadata, if it parses.
pub open spec fn flag_of(rv: RecordView) -> Option<RecordFlag> {
    match meta_get(rv.meta, "flag"@) {
        Some(v) => RecordFlag::spec_parse(v),
        None => None,
    }
}

impl Record {
    /// Store `topic` as the record's routing key.
    pub fn set_topic(&mut self, topic: String)
        requires
            old(self)@.wf(),
        ensures
            final(self)@.wf(),
            final(self)@.schema == old(self)@.schema,
            final(self)@.rows == old(self)@.rows,
            topic_of(final(self)@) == Some(topic@),
            flag_of(final(self)@) == flag_of(old(self)@),
            forall|q: Seq<char>| q != "topic"@
                ==> meta_get(final(self)@.meta, q) == meta_get(old(self)@.meta, q),
    {
        self.set_meta("topic", topic);
        proof {
            reveal_strlit("topic");
            reveal_strlit("flag");
            assert("topic"@.len() == 5);
            assert("flag"@.len() == 4);
            assert("topic"@ != "flag"@);
            assert(meta_get(self@.meta, "flag"@) == meta_get(old(self)@.meta, "flag"@));
        }
    }

    /// The record's routing key, or `TopicMetadataNotSet`.
    pub fn try_get_topic(&self) -> (r: Result<String, RecordError>)
        ensures
            r is Ok <==> topic_of(self@) is Some,
            r is Ok ==> r->Ok_0@ == topic_of(self@)->Some_0,
            r is Err ==> r->Err_0 == RecordError::TopicMetadataNotSet,
    {
        match self.get_meta("topic") {
            Some(v) => Ok(v.clone()),
            None => Err(RecordError::TopicMetadataNotSet),
        }
    }

    /// Store `flag` as the record's kind.
    pub fn set_flag(&mut self, flag: RecordFlag)
        requires
            old(self)@.wf(),
        ensures
            final(self)@.wf(),
            final(self)@.schema == old(self)@.schema,
            final(self)@.rows == old(self)@.rows,
            flag_of(final(self)@) == Some(flag),
            topic_of(final(self)@) == topic_of(old(self)@),
            forall|q: Seq<char>| q != "flag"@
                ==> meta_get(final(self)@.meta, q) == meta_get(old(self)@.meta, q),
    {
        let value = String::from_str(flag.name());
        let ghost gv = value@;
        self.set_meta("flag", value);
        proof {
            reveal_strlit("topic");
            reveal_strlit("flag");
            reveal_strlit("PublishPacket");
            reveal_strlit("SubscribePacket");
            assert("topic"@.len() == 5);
            assert("flag"@.len() == 4);
            assert("PublishPacket"@.len() == 13);
            assert("SubscribePacket"@.len() == 15);
            assert(meta_get(self@.meta, "flag"@) == Some(gv));
            assert(gv == flag.spec_name());
            assert(RecordFlag::spec_parse(gv) == Some(flag));
            assert(flag_of(self@) == Some(flag));
            assert("topic"@ != "flag"@);
            assert(meta_get(self@.meta, "topic"@) == meta_get(old(self)@.meta, "topic"@));
        }
    }

    /// The record's flag, or `FlagMetadataNotSet` when the entry is
    /// missing or holds an unknown value.
    pub fn get_flag(&self) -> (r: Result<RecordFlag, RecordError>)
        ensures
            (match flag_of(self@) {
                Some(f) => r == Ok::<RecordFlag, RecordError>(f),
                None => r == Err::<RecordFlag, RecordError>(RecordError::FlagMetadataNotSet),
            }),
    {
        match self.get_meta("flag") {
            Some(v) => match RecordFlag::parse(v.as_str()) {
                Some(f) => Ok(f),
                None => Err(RecordError::FlagMetadataNotSet),
            },
            None => Err(RecordError::FlagMetadataNotSet),
        }
    }
}

/// A deep copy of a row with the same ghost values.
fn clone_row(row: &Vec<JsonVal>) -> (r: Vec<JsonVal>)
    ensures
        gvals_of(r@) == gvals_of(row@),
{
    let mut out: Vec<JsonVal> = Vec::new();
    let mut j: usize = 0;
    while j < row.len()
        invariant
            j <= row@.len(),
            out@.len() == j,
            forall|k: int| 0 <= k < j ==> gval_of(#[trigger] out@[k]) == gval_of(row@[k]),
        decreases row@.len() - j,
    {
        out.push(row[j].clone());
        j = j + 1;
    }
    proof {
        lemma_gvals_of(row@);
        lemma_gvals_of(out@);
        assert(gvals_of(out@) =~= gvals_of(row@));
    }
    out
}

/// A deep copy of a field list with the same ghost fields.
fn clone_fields(fs: &Vec<Field>) -> (r: Vec<Field>)
    ensures
        gfields_of(r@) == gfields_of(fs@),
{
    let mut out: Vec<Field> = Vec::new();
    let mut j: usize = 0;
    while j < fs.len()
        invariant
            j <= fs@.len(),
            out@.len() == j,
            forall|k: int| 0 <= k < j
                ==> (#[trigger] out@[k]).name@ == fs@[k].name@
                    && gty_of(out@[k].ty) == gty_of(fs@[k].ty),
        decreases fs@.len() - j,
    {
        out.push(fs[j].clone());
        j = j + 1;
    }
    proof {
        lemma_gfields_of(fs@);
        lemma_gfields_of(out@);
        assert(gfields_of(out@) =~= gfields_of(fs@));
    }
    out
}

impl Clone for Record {
    /// A deep copy that stands for the same record.
    fn clone(&self) -> (r: Self)
        ensures
            r@ == self@,
    {
        let schema = clone_fields(&self.schema);
        let mut rows: Vec<Vec<JsonVal>> = Vec::new();
        let mut i: usize = 0;
        while i < self.rows.len()
            invariant
                i <= self.rows@.len(),
                rows@.len() == i,
                forall|k: int| 0 <= k < i
                    ==> gvals_of((#[trigger] rows@[k])@) == gvals_of(self.rows@[k]@),
            decreases self.rows@.len() - i,
        {
            rows.push(clone_row(&self.rows[i]));
            i = i + 1;
        }
        let mut meta: Vec<(String, String)> = Vec::new();
        let mut j: usize = 0;
        while j < self.meta.len()
            invariant
                j <= self.meta@.len(),
                meta@.len() == j,
                forall|k: int| 0 <= k < j
                    ==> (#[trigger] meta@[k]).0@ == self.meta@[k].0@
                        && meta@[k].1@ == self.meta@[k].1@,
            decreases self.meta@.len() - j,
        {
            let e = &self.meta[j];
            meta.push((e.0.clone(), e.1.clone()));
            j = j + 1;
        }
        let r = Record { schema, rows, meta };
        proof {
            assert(r@.schema == self@.schema);
            assert(r@.rows =~= self@.rows);
            assert(r@.meta =~= self@.meta);
            assert(r@ =~= self@);
        }
        r
    }
}

} // verus!

verus! {

/// The row values a single input value stands for: a non-empty array is
/// one row per element, anything else is one row.
pub open spec fn fv_items(v: GVal) -> Seq<GVal> {
    match v {
        GVal::Arr(items) => items,
        _ => seq![v],
    }
}

/// The input is table-shaped: at least one row, a struct type inferred
/// from the first row, and every row conforming to it.
pub open spec fn fv_ok(v: GVal) -> bool {
    let items = fv_items(v);
    items.len() > 0
        && (g_infer(items[0]) matches Some(GTy::Struct(_)))
        && g_all_ty(items, g_infer(items[0])->Some_0)
}

/// The schema inferred from the first row.
pub open spec fn fv_schema(v: GVal) -> Seq<GField> {
    match g_infer(fv_items(v)[0]) {
        Some(GTy::Struct(fs)) => fs,
        _ => Seq::empty(),
    }
}

/// An object's values, in field order.
pub open spec fn obj_vals(r: GVal) -> Seq<GVal> {
    match r {
        GVal::Obj(kvs) => Seq::new(kvs.len(), |j: int| kvs[j].1),
        _ => Seq::empty(),
    }
}

/// The rows a value stands for, as plain value sequences.
pub open spec fn fv_rows(v: GVal) -> Seq<Seq<GVal>> {
    Seq::new(fv_items(v).len(), |i: int| obj_vals(fv_items(v)[i]))
}

/// A value that conforms to a struct type yields a conforming row.
pub proof fn lemma_row_from_obj(r: GVal, fs: Seq<GField>)
    requires
        g_has_ty(r, GTy::Struct(fs)),
    ensures
        row_ok(obj_vals(r), fs),
{
    match r {
        GVal::Obj(kvs) => {
            lemma_g_obj_ty(kvs, fs);
        },
        _ => {},
    }
}

impl Record {
    /// Build a record from a value. A non-empty array of `n` like-shaped
    /// objects yields `n` rows; a single object yields one row; anything
    /// else is not table-shaped and is rejected.
    pub fn from_value(v: &JsonVal) -> (r: Result<Record, RecordError>)
        ensures
            r is Ok <==> fv_ok(v@),
            r matches Ok(rec) ==> rec@.wf()
                && rec@.schema == fv_schema(v@)
                && rec@.rows == fv_rows(v@)
                && rec@.meta == Seq::<(Seq<char>, Seq<char>)>::empty(),
            r is Err ==> r->Err_0 == RecordError::SchemaInferenceFailed,
    {
        let single: Vec<JsonVal>;
        let items: &Vec<JsonVal> = match v {
            JsonVal::Arr(arr) => arr,
            _ => {
                single = vec![v.clone()];
                &single
            },
        };
        proof {
            lemma_gvals_of(items@);
            if !(v@ matches GVal::Arr(_)) {
                assert(gvals_of(items@) =~= fv_items(v@));
            }
            assert(gvals_of(items@) == fv_items(v@));
        }
        let ghost gitems = fv_items(v@);
        if items.len() == 0 {
            return Err(RecordError::SchemaInferenceFailed);
        }
        let st = match infer_ty(&items[0]) {
            None => {
                return Err(RecordError::SchemaInferenceFailed);
            },
            Some(t) => t,
        };
        match &st {
            ColType::Struct(_) => {},
            _ => {
                return Err(RecordError::SchemaInferenceFailed);
            },
        }
        let mut i: usize = 0;
        while i < items.len()
            invariant
                gitems == gvals_of(items@),
                gitems == fv_items(v@),
                gitems.len() == items@.len(),
                forall|k: int| 0 <= k < items@.len() ==> gitems[k] == gval_of(items@[k]),
                0 < items@.len(),
                i <= items@.len(),
                g_infer(gitems[0]) == Some(st@),
                st@ matches GTy::Struct(_),
                forall|k: int| 0 <= k < i ==> g_has_ty(gitems[k], st@),
            decreases items@.len() - i,
        {
            if !has_ty(&items[i], &st) {
                proof {
                    lemma_g_all_ty(gitems, st@);
                    assert(!g_has_ty(gitems[i as int], st@));
                    assert(!g_all_ty(gitems, st@));
                    assert(!fv_ok(v@));
                }
                return Err(RecordError::SchemaInferenceFailed);
            }
            i = i + 1;
        }
        proof {
            lemma_g_all_ty(gitems, st@);
            assert(fv_ok(v@));
        }
        // every row conforms to a struct type, so every row is an object
        let ghost gfs = match st@ {
            GTy::Struct(fs) => fs,
            _ => Seq::empty(),
        };
        let mut rows: Vec<Vec<JsonVal>> = Vec::new();
        let mut i: usize = 0;
        while i < items.len()
            invariant
                gitems == gvals_of(items@),
                gitems == fv_items(v@),
                gitems.len() == items@.len(),
                forall|k: int| 0 <= k < items@.len() ==> gitems[k] == gval_of(items@[k]),
                i <= items@.len(),
                0 < items@.len(),
                fv_ok(v@),
                g_infer(gitems[0]) == Some(GTy::Struct(gfs)),
                forall|k: int| 0 <= k < items@.len() ==> g_has_ty(gitems[k], GTy::Struct(gfs)),
                rows@.len() == i,
                forall|k: int| 0 <= k < i
                    ==> gvals_of((#[trigger] rows@[k])@) == obj_vals(gitems[k]),
            decreases items@.len() - i,
        {
            match &items[i] {
                JsonVal::Obj(kvs) => {
                    proof {
                        lemma_gpairs_of(kvs@);
                    }
                    let mut vals: Vec<JsonVal> = Vec::new();
                    let mut j: usize = 0;
                    while j < kvs.len()
                        invariant
                            items@[i as int] == JsonVal::Obj(*kvs),
                            j <= kvs@.len(),
                            vals@.len() == j,
                            forall|q: int| 0 <= q < kvs@.len()
                                ==> gpairs_of(kvs@)[q] == (kvs@[q].0@, gval_of(kvs@[q].1)),
                            gpairs_of(kvs@).len() == kvs@.len(),
                            forall|q: int| 0 <= q < j
                                ==> gval_of(#[trigger] vals@[q]) == gpairs_of(kvs@)[q].1,
                        decreases kvs@.len() - j,
                    {
                        vals.push(kvs[j].1.clone());
                        j = j + 1;
                    }
                    proof {
                        lemma_gvals_of(vals@);
                        assert(gval_of(items@[i as int]) == GVal::Obj(gpairs_of(kvs@)));
                        assert(gvals_of(vals@) =~= obj_vals(gitems[i as int]));
                    }
                    rows.push(vals);
                },
                _ => {
                    proof {
                        assert(g_has_ty(gitems[i as int], GTy::Struct(gfs)));
                        assert(gitems[i as int] == gval_of(items@[i as int]));
                        assert(false);
                    }
                    return Err(RecordError::SchemaInferenceFailed);
                },
            }
            i = i + 1;
        }
        let schema = match st {
            ColType::Struct(fs) => fs,
            _ => Vec::new(),
        };
        let rec = Record { schema, rows, meta: Vec::new() };
        proof {
            assert(gfields_of(schema@) == gfs);
            assert(rec@.schema == fv_schema(v@));
            assert(rec@.rows =~= fv_rows(v@));
            assert(rec@.meta =~= Seq::<(Seq<char>, Seq<char>)>::empty());
            assert forall|k: int| 0 <= k < rec@.rows.len()
                implies row_ok(#[trigger] rec@.rows[k], rec@.schema) by {
                lemma_row_from_obj(gitems[k], gfs);
            }
        }
        Ok(rec)
    }
}

} // verus!

verus! {

/// The object a row decodes to: field names paired with the row's values.
pub open spec fn row_obj(schema: Seq<GField>, row: Seq<GVal>) -> GVal {
    GVal::Obj(Seq::new(row.len(), |j: int| (schema[j].name, row[j])))
}

/// Lookup distributes over appending one entry, with the earlier entries
/// winning.
pub proof fn lemma_meta_get_snoc(
    m: Seq<(Seq<char>, Seq<char>)>,
    k: Seq<char>,
    v: Seq<char>,
    q: Seq<char>,
)
    ensures
        meta_get(m.push((k, v)), q) == (match meta_get(m, q) {
            Some(x) => Some(x),
            None => if q == k {
                Some(v)
            } else {
                None
            },
        }),
    decreases m,
{
    let p = m.push((k, v));
    if m.len() == 0 {
        assert(p[0] == (k, v));
        assert(p.subrange(1, p.len() as int) =~= Seq::<(Seq<char>, Seq<char>)>::empty());
        if q == k {
            assert(meta_get(p, q) == Some(v));
        } else {
            assert(p[0].0 != q);
            assert(meta_get(p, q) == meta_get(p.subrange(1, p.len() as int), q));
        }
    } else {
        let rest = m.subrange(1, m.len() as int);
        lemma_meta_get_snoc(rest, k, v, q);
        assert(p.subrange(1, p.len() as int) =~= rest.push((k, v)));
        assert(p[0] == m[0]);
        assert(meta_get(p, q) == (if p[0].0 == q {
            Some(p[0].1)
        } else {
            meta_get(rest.push((k, v)), q)
        }));
    }
}

/// Whether two field lists stand for the same schema: same names in the
/// same order, with element-wise equal types.
pub fn schemas_compatible(a: &Vec<Field>, b: &Vec<Field>) -> (r: bool)
    ensures
        r == (gfields_of(a@) == gfields_of(b@)),
{
    proof {
        lemma_gfields_of(a@);
        lemma_gfields_of(b@);
    }
    if a.len() != b.len() {
        proof {
            assert(gfields_of(a@).len() != gfields_of(b@).len());
        }
        return false;
    }
    let mut j: usize = 0;
    while j < a.len()
        invariant
            a@.len() == b@.len(),
            j <= a@.len(),
            gfields_of(a@).len() == a@.len(),
            gfields_of(b@).len() == b@.len(),
            forall|k: int| 0 <= k < a@.len()
                ==> gfields_of(a@)[k] == (GField { name: a@[k].name@, ty: gty_of(a@[k].ty) }),
            forall|k: int| 0 <= k < b@.len()
                ==> gfields_of(b@)[k] == (GField { name: b@[k].name@, ty: gty_of(b@[k].ty) }),
            forall|k: int| 0 <= k < j ==> gfields_of(a@)[k] == gfields_of(b@)[k],
        decreases a@.len() - j,
    {
        if !(a[j].name == b[j].name) || !crate::json::ty_eq(&a[j].ty, &b[j].ty) {
            proof {
                assert(gfields_of(a@)[j as int] != gfields_of(b@)[j as int]);
            }
            return false;
        }
        j = j + 1;
    }
    proof {
        assert(gfields_of(a@) =~= gfields_of(b@));
    }
    true
}

impl Record {
    /// Decode every row back to an object value. Fails with `Empty` on a
    /// record with no rows.
    pub fn to_values(&self) -> (r: Result<Vec<JsonVal>, RecordError>)
        requires
            self@.wf(),
        ensures
            r is Ok <==> self@.rows.len() > 0,
            r matches Ok(vals) ==> vals@.len() == self@.rows.len()
                && (forall|i: int| 0 <= i < vals@.len()
                    ==> gval_of(#[trigger] vals@[i]) == row_obj(self@.schema, self@.rows[i])),
            r is Err ==> r->Err_0 == RecordError::Empty,
    {
        if self.rows.len() == 0 {
            return Err(RecordError::Empty);
        }
        proof {
            lemma_gfields_of(self.schema@);
        }
        let mut out: Vec<JsonVal> = Vec::new();
        let mut i: usize = 0;
        while i < self.rows.len()
            invariant
                self@.wf(),
                self@.rows.len() == self.rows@.len(),
                forall|k: int| 0 <= k < self.rows@.len()
                    ==> self@.rows[k] == gvals_of(self.rows@[k]@),
                self@.schema.len() == self.schema@.len(),
                forall|k: int| 0 <= k < self.schema@.len()
                    ==> self@.schema[k]
                        == (GField { name: self.schema@[k].name@, ty: gty_of(self.schema@[k].ty) }),
                i <= self.rows@.len(),
                out@.len() == i,
                forall|k: int| 0 <= k < i
                    ==> gval_of(#[trigger] out@[k]) == row_obj(self@.schema, self@.rows[k]),
            decreases self.rows@.len() - i,
        {
            let row = &self.rows[i];
            proof {
                lemma_gvals_of(row@);
                assert(row_ok(self@.rows[i as int], self@.schema));
            }
            let mut pairs: Vec<(String, JsonVal)> = Vec::new();
            let mut j: usize = 0;
            while j < row.len()
                invariant
                    row@ == self.rows@[i as int]@,
                    0 <= i < self.rows@.len(),
                    gvals_of(row@) == self@.rows[i as int],
                    gvals_of(row@).len() == row@.len(),
                    forall|q: int| 0 <= q < row@.len()
                        ==> gvals_of(row@)[q] == gval_of(row@[q]),
                    row@.len() == self.schema@.len(),
                    self@.schema.len() == self.schema@.len(),
                    forall|k: int| 0 <= k < self.schema@.len()
                        ==> self@.schema[k]
                            == (GField {
                                name: self.schema@[k].name@,
                                ty: gty_of(self.schema@[k].ty),
                            }),
                    j <= row@.len(),
                    pairs@.len() == j,
                    forall|q: int| 0 <= q < j
                        ==> (#[trigger] pairs@[q]).0@ == self@.schema[q].name
                            && gval_of(pairs@[q].1) == gvals_of(row@)[q],
                decreases row@.len() - j,
            {
                pairs.push((self.schema[j].name.clone(), row[j].clone()));
                j = j + 1;
            }
            proof {
                lemma_gpairs_of(pairs@);
                assert(gpairs_of(pairs@) =~= Seq::new(
                    self@.rows[i as int].len(),
                    |q: int| (self@.schema[q].name, self@.rows[i as int][q]),
                ));
            }
            out.push(JsonVal::Obj(pairs));
            i = i + 1;
        }
        Ok(out)
    }

    /// Concatenate two records with equal schemas: the rows of `other`
    /// follow the rows of `self`, and on a metadata key collision `self`
    /// wins. Fails with `SchemaMismatch` on different schemas.
    pub fn concat(&self, other: &Record) -> (r: Result<Record, RecordError>)
        requires
            self@.wf(),
            other@.wf(),
        ensures
            r is Ok <==> self@.schema == other@.schema,
            r matches Ok(rec) ==> rec@.wf()
                && rec@.schema == self@.schema
                && rec@.rows == self@.rows + other@.rows
                && (forall|q: Seq<char>| #[trigger] meta_get(rec@.meta, q)
                    == (match meta_get(self@.meta, q) {
                        Some(x) => Some(x),
                        None => meta_get(other@.meta, q),
                    })),
            r is Err ==> r->Err_0 == RecordError::SchemaMismatch,
    {
        if !schemas_compatible(&self.schema, &other.schema) {
            return Err(RecordError::SchemaMismatch);
        }
        let schema = clone_fields(&self.schema);
        let mut rows: Vec<Vec<JsonVal>> = Vec::new();
        let mut i: usize = 0;
        while i < self.rows.len()
            invariant
                self@.rows.len() == self.rows@.len(),
                forall|k: int| 0 <= k < self.rows@.len()
                    ==> self@.rows[k] == gvals_of(self.rows@[k]@),
                i <= self.rows@.len(),
                rows@.len() == i,
                forall|k: int| 0 <= k < i
                    ==> gvals_of((#[trigger] rows@[k])@) == self@.rows[k],
            decreases self.rows@.len() - i,
        {
            rows.push(clone_row(&self.rows[i]));
            i = i + 1;
        }
        let mut i: usize = 0;
        while i < other.rows.len()
            invariant
                self@.rows.len() == self.rows@.len(),
                other@.rows.len() == other.rows@.len(),
                forall|k: int| 0 <= k < other.rows@.len()
                    ==> other@.rows[k] == gvals_of(other.rows@[k]@),
                i <= other.rows@.len(),
                rows@.len() == self@.rows.len() + i,
                forall|k: int| 0 <= k < self@.rows.len()
                    ==> gvals_of((#[trigger] rows@[k])@) == self@.rows[k],
                forall|k: int| 0 <= k < i
                    ==> gvals_of((#[trigger] rows@[self@.rows.len() + k])@) == other@.rows[k],
            decreases other.rows@.len() - i,
        {
            rows.push(clone_row(&other.rows[i]));
            i = i + 1;
        }
        let mut meta: Vec<(String, String)> = Vec::new();
        let mut j: usize = 0;
        while j < self.meta.len()
            invariant
                self@.meta.len() == self.meta@.len(),
                forall|k: int| 0 <= k < self.meta@.len()
                    ==> self@.meta[k] == (self.meta@[k].0@, self.meta@[k].1@),
                j <= self.meta@.len(),
                meta@.len() == j,
                forall|k: int| 0 <= k < j
                    ==> ((#[trigger] meta@[k]).0@, meta@[k].1@) == self@.meta[k],
            decreases self.meta@.len() - j,
        {
            let e = &self.meta[j];
            meta.push((e.0.clone(), e.1.clone()));
            j = j + 1;
        }
        let ghost base = pairs_view(meta@);
        proof {
            assert(base =~= self@.meta);
        }
        let mut j: usize = 0;
        while j < other.meta.len()
            invariant
                self@.wf(),
                other@.wf(),
                other@.meta.len() == other.meta@.len(),
                forall|k: int| 0 <= k < other.meta@.len()
                    ==> other@.meta[k] == (other.meta@[k].0@, other.meta@[k].1@),
                j <= other.meta@.len(),
                meta_unique(pairs_view(meta@)),
                forall|q: Seq<char>|
                    #[trigger] meta_get(pairs_view(meta@), q)
                        == (match meta_get(self@.meta, q) {
                            Some(x) => Some(x),
                            None => meta_get(other@.meta.subrange(0, j as int), q),
                        }),
            decreases other.meta@.len() - j,
        {
            let ghost cur = pairs_view(meta@);
            let key = &other.meta[j].0;
            let mut present = false;
            let mut p: usize = 0;
            while p < meta.len()
                invariant
                    cur == pairs_view(meta@),
                    cur.len() == meta@.len(),
                    forall|k: int| 0 <= k < meta@.len()
                        ==> cur[k] == (meta@[k].0@, meta@[k].1@),
                    p <= meta@.len(),
                    !present ==> forall|k: int| 0 <= k < p ==> (#[trigger] cur[k]).0 != key@,
                    present ==> meta_get(cur, key@) is Some,
                decreases meta@.len() - p,
            {
                if str_eq(meta[p].0.as_str(), key.as_str()) {
                    proof {
                        assert((#[trigger] cur[p as int]).0 == key@);
                        lemma_meta_get_at_first(cur, key@);
                    }
                    present = true;
                    p = meta.len();
                } else {
                    p = p + 1;
                }
            }
            if !present {
                proof {
                    lemma_meta_get_none(cur, key@);
                }
                let e = &other.meta[j];
                meta.push((e.0.clone(), e.1.clone()));
                proof {
                    let now = pairs_view(meta@);
                    assert(now =~= cur.push((other@.meta[j as int].0, other@.meta[j as int].1)));
                    assert forall|q: Seq<char>| #[trigger] meta_get(now, q)
                        == (match meta_get(self@.meta, q) {
                            Some(x) => Some(x),
                            None => meta_get(other@.meta.subrange(0, j as int + 1), q),
                        }) by {
                        lemma_meta_get_snoc(cur, other@.meta[j as int].0,
                            other@.meta[j as int].1, q);
                        lemma_meta_get_snoc(other@.meta.subrange(0, j as int),
                            other@.meta[j as int].0, other@.meta[j as int].1, q);
                        assert(other@.meta.subrange(0, j as int).push(
                            (other@.meta[j as int].0, other@.meta[j as int].1))
                            =~= other@.meta.subrange(0, j as int + 1));
                    }
                    assert forall|a: int, b: int| 0 <= a < b < now.len()
                        implies (#[trigger] now[a]).0 != (#[trigger] now[b]).0 by {
                        if b < cur.len() {
                            assert(cur[a].0 != cur[b].0);
                        } else {
                            assert(now[b].0 == key@);
                            if cur[a].0 == key@ {
                                lemma_meta_get_at_first(cur, key@);
                            }
                        }
                    }
                }
            } else {
                proof {
                    let now = pairs_view(meta@);
                    assert(now =~= cur);
                    assert forall|q: Seq<char>| #[trigger] meta_get(now, q)
                        == (match meta_get(self@.meta, q) {
                            Some(x) => Some(x),
                            None => meta_get(other@.meta.subrange(0, j as int + 1), q),
                        }) by {
                        lemma_meta_get_snoc(other@.meta.subrange(0, j as int),
                            other@.meta[j as int].0, other@.meta[j as int].1, q);
                        assert(other@.meta.subrange(0, j as int).push(
                            (other@.meta[j as int].0, other@.meta[j as int].1))
                            =~= other@.meta.subrange(0, j as int + 1));
                        if q == key@ && meta_get(self@.meta, q) is None
                            && meta_get(other@.meta.subrange(0, j as int), q) is None {
                            assert(meta_get(cur, q) is Some);
                            assert(false);
                        }
                    }
                }
            }
            j = j + 1;
        }
        let rec = Record { schema, rows, meta };
        proof {
            assert(other@.meta.subrange(0, other@.meta.len() as int) =~= other@.meta);
            assert(rec@.schema == self@.schema);
            assert(rows@.len() == self@.rows.len() + other@.rows.len());
            assert forall|k: int| 0 <= k < rec@.rows.len()
                implies #[trigger] rec@.rows[k] == (self@.rows + other@.rows)[k] by {
                if k < self@.rows.len() {
                    assert(gvals_of((#[trigger] rows@[k])@) == self@.rows[k]);
                } else {
                    let k2 = k - self@.rows.len();
                    assert(gvals_of((#[trigger] rows@[self@.rows.len() + k2])@)
                        == other@.rows[k2]);
                }
            }
            assert(rec@.rows =~= self@.rows + other@.rows);
            assert(rec@.meta =~= pairs_view(meta@));
            assert forall|k: int| 0 <= k < rec@.rows.len()
                implies row_ok(#[trigger] rec@.rows[k], rec@.schema) by {
                if k < self@.rows.len() {
                    assert(rec@.rows[k] == self@.rows[k]);
                } else {
                    assert(rec@.rows[k] == other@.rows[k - self@.rows.len()]);
                }
            }
        }
        Ok(rec)
    }

    /// The last `n` rows, or all rows when fewer than `n` exist; the
    /// schema and metadata are kept.
    pub fn get_n_latest_rows(&self, n: usize) -> (r: Record)
        requires
            self@.wf(),
        ensures
            r@.wf(),
            r@.schema == self@.schema,
            r@.meta == self@.meta,
            r@.rows == self@.rows.subrange(
                self@.rows.len() - (if n <= self@.rows.len() {
                    n as int
                } else {
                    self@.rows.len() as int
                }),
                self@.rows.len() as int,
            ),
    {
        let total = self.rows.len();
        let keep = if n <= total {
            n
        } else {
            total
        };
        let start = total - keep;
        let schema = clone_fields(&self.schema);
        let mut rows: Vec<Vec<JsonVal>> = Vec::new();
        let mut i: usize = start;
        while i < total
            invariant
                total == self.rows@.len(),
                start <= total,
                self@.rows.len() == self.rows@.len(),
                forall|k: int| 0 <= k < self.rows@.len()
                    ==> self@.rows[k] == gvals_of(self.rows@[k]@),
                start <= i <= total,
                rows@.len() == i - start,
                forall|k: int| 0 <= k < i - start
                    ==> gvals_of((#[trigger] rows@[k])@) == self@.rows[start + k],
            decreases total - i,
        {
            rows.push(clone_row(&self.rows[i]));
            i = i + 1;
        }
        let mut meta: Vec<(String, String)> = Vec::new();
        let mut j: usize = 0;
        while j < self.meta.len()
            invariant
                self@.meta.len() == self.meta@.len(),
                forall|k: int| 0 <= k < self.meta@.len()
                    ==> self@.meta[k] == (self.meta@[k].0@, self.meta@[k].1@),
                j <= self.meta@.len(),
                meta@.len() == j,
                forall|k: int| 0 <= k < j
                    ==> ((#[trigger] meta@[k]).0@, meta@[k].1@) == self@.meta[k],
            decreases self.meta@.len() - j,
        {
            let e = &self.meta[j];
            meta.push((e.0.clone(), e.1.clone()));
            j = j + 1;
        }
        let rec = Record { schema, rows, meta };
        proof {
            assert(rec@.schema == self@.schema);
            assert(rec@.meta =~= self@.meta);
            assert(rec@.rows =~= self@.rows.subrange(start as int, total as int));
            assert forall|k: int| 0 <= k < rec@.rows.len()
                implies row_ok(#[trigger] rec@.rows[k], rec@.schema) by {
                assert(rec@.rows[k] == self@.rows[start + k]);
            }
        }
        rec
    }
}

/// Lookup succeeds when some entry has the key.
proof fn lemma_meta_get_at_first(m: Seq<(Seq<char>, Seq<char>)>, k: Seq<char>)
    requires
        exists|i: int| 0 <= i < m.len() && (#[trigger] m[i]).0 == k,
    ensures
        meta_get(m, k) is Some,
    decreases m,
{
    if m[0].0 != k {
        let i = choose|i: int| 0 <= i < m.len() && (#[trigger] m[i]).0 == k;
        let rest = m.subrange(1, m.len() as int);
        assert(rest[i - 1].0 == k);
        lemma_meta_get_at_first(rest, k);
    }
}

} // verus!

verus! {

impl Record {
    /// Replace every struct column by one column per leaf field, named by
    /// the dotted path down to it. Row order and metadata are kept. Fails
    /// with `AmbiguousFieldName` when a struct field's name, or a name
    /// inside one, holds a dot; a record with no struct columns flattens
    /// to itself.
    pub fn flatten(&self) -> (r: Result<Record, RecordError>)
        requires
            self@.wf(),
        ensures
            r is Ok <==> crate::flatten::flatten_ok(self@.schema),
            r matches Ok(rec) ==> rec@.wf()
                && rec@.schema == crate::flatten::flat_fields(Seq::<char>::empty(), self@.schema)
                && rec@.rows.len() == self@.rows.len()
                && (forall|i: int| 0 <= i < rec@.rows.len()
                    ==> rec@.rows[i] == crate::flatten::flat_row(self@.schema, self@.rows[i]))
                && rec@.meta == self@.meta,
            r is Err ==> r->Err_0 == RecordError::AmbiguousFieldName,
    {
        if !crate::flatten::fields_flatten_ok(&self.schema) {
            return Err(RecordError::AmbiguousFieldName);
        }
        let empty_prefix = String::new();
        let schema = crate::flatten::flatten_fields_exec(&empty_prefix, &self.schema);
        let mut rows: Vec<Vec<JsonVal>> = Vec::new();
        let mut i: usize = 0;
        while i < self.rows.len()
            invariant
                self@.wf(),
                self@.rows.len() == self.rows@.len(),
                forall|k: int| 0 <= k < self.rows@.len()
                    ==> self@.rows[k] == gvals_of(self.rows@[k]@),
                self@.schema == gfields_of(self.schema@),
                i <= self.rows@.len(),
                rows@.len() == i,
                forall|k: int| 0 <= k < i
                    ==> gvals_of((#[trigger] rows@[k])@)
                        == crate::flatten::flat_row(self@.schema, self@.rows[k]),
            decreases self.rows@.len() - i,
        {
            proof {
                assert(row_ok(self@.rows[i as int], self@.schema));
            }
            rows.push(crate::flatten::flatten_row_exec(&self.schema, &self.rows[i]));
            i = i + 1;
        }
        let mut meta: Vec<(String, String)> = Vec::new();
        let mut j: usize = 0;
        while j < self.meta.len()
            invariant
                self@.meta.len() == self.meta@.len(),
                forall|k: int| 0 <= k < self.meta@.len()
                    ==> self@.meta[k] == (self.meta@[k].0@, self.meta@[k].1@),
                j <= self.meta@.len(),
                meta@.len() == j,
                forall|k: int| 0 <= k < j
                    ==> ((#[trigger] meta@[k]).0@, meta@[k].1@) == self@.meta[k],
            decreases self.meta@.len() - j,
        {
            let e = &self.meta[j];
            meta.push((e.0.clone(), e.1.clone()));
            j = j + 1;
        }
        let rec = Record { schema, rows, meta };
        proof {
            assert(rec@.schema == crate::flatten::flat_fields(Seq::<char>::empty(), self@.schema));
            assert(rec@.meta =~= self@.meta);
            assert(rec@.rows.len() == self@.rows.len());
            assert forall|k: int| 0 <= k < rec@.rows.len()
                implies #[trigger] rec@.rows[k]
                    == crate::flatten::flat_row(self@.schema, self@.rows[k]) by {
                assert(gvals_of(rows@[k]@) == crate::flatten::flat_row(self@.schema, self@.rows[k]));
            }
            assert forall|k: int| 0 <= k < rec@.rows.len()
                implies row_ok(#[trigger] rec@.rows[k], rec@.schema) by {
                crate::flatten::lemma_flat_conforms(
                    Seq::<char>::empty(),
                    self@.schema,
                    self@.rows[k],
                );
            }
        }
        Ok(rec)
    }
}

} // verus!

verus! {

impl Record {
    /// The inverse of `flatten`: group columns by the segment before the
    /// first dot of their names, recursively, placing each struct column
    /// at its root's first occurrence. Row order and metadata are kept;
    /// a record with no dotted names comes back unchanged in substance.
    pub fn unflatten(&self) -> (r: Record)
        requires
            self@.wf(),
        ensures
            r@.wf(),
            r@.meta == self@.meta,
            r@.schema == crate::flatten::unflat_schema(self@.schema),
            r@.rows.len() == self@.rows.len(),
            forall|i: int| 0 <= i < r@.rows.len()
                ==> r@.rows[i] == crate::flatten::pairs_vals(
                    crate::flatten::unflat(
                        crate::flatten::row_pairs(self@.schema, self@.rows[i]),
                    ),
                ),
    {
        proof {
            lemma_gfields_of(self.schema@);
        }
        let ghost gfs = self@.schema;
        // the unflattened schema, from the fields paired with null values
        let mut spairs: Vec<(Field, JsonVal)> = Vec::new();
        let mut j: usize = 0;
        while j < self.schema.len()
            invariant
                gfs == self@.schema,
                gfs == gfields_of(self.schema@),
                gfs.len() == self.schema@.len(),
                forall|k: int| 0 <= k < self.schema@.len()
                    ==> gfs[k] == (GField {
                        name: self.schema@[k].name@,
                        ty: gty_of(self.schema@[k].ty),
                    }),
                j <= self.schema@.len(),
                spairs@.len() == j,
                forall|k: int| 0 <= k < j
                    ==> (#[trigger] crate::flatten::pview(spairs@)[k]) == (gfs[k], GVal::Null),
            decreases self.schema@.len() - j,
        {
            let ghost before = spairs@;
            spairs.push((self.schema[j].clone(), JsonVal::Null));
            proof {
                assert forall|k: int| 0 <= k < spairs@.len()
                    implies (#[trigger] crate::flatten::pview(spairs@)[k])
                        == (gfs[k], GVal::Null) by {
                    if k < before.len() {
                        assert(spairs@[k] == before[k]);
                        assert(crate::flatten::pview(before)[k] == (gfs[k], GVal::Null));
                    } else {
                        assert(spairs@[k] == spairs@.last());
                    }
                }
            }
            j = j + 1;
        }
        proof {
            assert(crate::flatten::pview(spairs@) =~= crate::flatten::schema_pairs(gfs));
        }
        let sflat = crate::flatten::unflat_pairs(spairs);
        let mut schema: Vec<Field> = Vec::new();
        let mut j: usize = 0;
        let ghost gs = crate::flatten::pview(sflat@);
        while j < sflat.len()
            invariant
                gs == crate::flatten::pview(sflat@),
                gs.len() == sflat@.len(),
                j <= sflat@.len(),
                schema@.len() == j,
                forall|k: int| 0 <= k < j
                    ==> gfields_of(schema@)[k] == gs[k].0,
                gfields_of(schema@).len() == j,
            decreases sflat@.len() - j,
        {
            let ghost before = schema@;
            schema.push(sflat[j].0.clone());
            proof {
                lemma_gfields_of(schema@);
                lemma_gfields_of(before);
                assert forall|k: int| 0 <= k < schema@.len()
                    implies gfields_of(schema@)[k] == gs[k].0 by {
                    if k < before.len() {
                        assert(schema@[k] == before[k]);
                        assert(gfields_of(before)[k] == gs[k].0);
                        assert(gfields_of(schema@)[k] == gfields_of(before)[k]);
                    } else {
                        assert(schema@[k] == schema@.last());
                        assert(gs[k] == (sflat@[k].0@, crate::json::gval_of(sflat@[k].1)));
                    }
                }
            }
            j = j + 1;
        }
        proof {
            assert(gfields_of(schema@) =~= crate::flatten::pairs_fields(gs));
            assert(gfields_of(schema@) == crate::flatten::unflat_schema(gfs));
        }
        // each row, paired with the fields, unflattened
        let mut rows: Vec<Vec<JsonVal>> = Vec::new();
        let mut i: usize = 0;
        while i < self.rows.len()
            invariant
                gfs == self@.schema,
                gfs == gfields_of(self.schema@),
                gfs.len() == self.schema@.len(),
                forall|k: int| 0 <= k < self.schema@.len()
                    ==> gfs[k] == (GField {
                        name: self.schema@[k].name@,
                        ty: gty_of(self.schema@[k].ty),
                    }),
                self@.wf(),
                self@.rows.len() == self.rows@.len(),
                forall|k: int| 0 <= k < self.rows@.len()
                    ==> self@.rows[k] == gvals_of(self.rows@[k]@),
                i <= self.rows@.len(),
                rows@.len() == i,
                forall|k: int| 0 <= k < i
                    ==> gvals_of((#[trigger] rows@[k])@) == crate::flatten::pairs_vals(
                        crate::flatten::unflat(crate::flatten::row_pairs(gfs, self@.rows[k])),
                    ),
            decreases self.rows@.len() - i,
        {
            let row = &self.rows[i];
            proof {
                lemma_gvals_of(row@);
                assert(row_ok(self@.rows[i as int], gfs));
            }
            let mut rpairs: Vec<(Field, JsonVal)> = Vec::new();
            let mut j: usize = 0;
            while j < self.schema.len()
                invariant
                    gfs == gfields_of(self.schema@),
                    gfs.len() == self.schema@.len(),
                    forall|k: int| 0 <= k < self.schema@.len()
                        ==> gfs[k] == (GField {
                            name: self.schema@[k].name@,
                            ty: gty_of(self.schema@[k].ty),
                        }),
                    0 <= i < self.rows@.len(),
                    row@ == self.rows@[i as int]@,
                    gvals_of(row@).len() == row@.len(),
                    forall|q: int| 0 <= q < row@.len()
                        ==> gvals_of(row@)[q] == gval_of(row@[q]),
                    row@.len() == self.schema@.len(),
                    j <= self.schema@.len(),
                    rpairs@.len() == j,
                    forall|k: int| 0 <= k < j
                        ==> (#[trigger] crate::flatten::pview(rpairs@)[k])
                            == (gfs[k], gvals_of(row@)[k]),
                decreases self.schema@.len() - j,
            {
                let ghost before = rpairs@;
                rpairs.push((self.schema[j].clone(), row[j].clone()));
                proof {
                    assert forall|k: int| 0 <= k < rpairs@.len()
                        implies (#[trigger] crate::flatten::pview(rpairs@)[k])
                            == (gfs[k], gvals_of(row@)[k]) by {
                        if k < before.len() {
                            assert(rpairs@[k] == before[k]);
                            assert(crate::flatten::pview(before)[k]
                                == (gfs[k], gvals_of(row@)[k]));
                        } else {
                            assert(rpairs@[k] == rpairs@.last());
                        }
                    }
                }
                j = j + 1;
            }
            proof {
                assert(crate::flatten::pview(rpairs@)
                    =~= crate::flatten::row_pairs(gfs, self@.rows[i as int]));
            }
            let uf = crate::flatten::unflat_pairs(rpairs);
            let ghost gu = crate::flatten::pview(uf@);
            let mut vals: Vec<JsonVal> = Vec::new();
            let mut q: usize = 0;
            while q < uf.len()
                invariant
                    gu == crate::flatten::pview(uf@),
                    gu.len() == uf@.len(),
                    q <= uf@.len(),
                    vals@.len() == q,
                    forall|k: int| 0 <= k < q
                        ==> gval_of(#[trigger] vals@[k]) == gu[k].1,
                decreases uf@.len() - q,
            {
                vals.push(uf[q].1.clone());
                proof {
                    assert(gu[q as int] == (uf@[q as int].0@, gval_of(uf@[q as int].1)));
                }
                q = q + 1;
            }
            proof {
                lemma_gvals_of(vals@);
                assert(gvals_of(vals@) =~= crate::flatten::pairs_vals(gu));
            }
            rows.push(vals);
            i = i + 1;
        }
        let mut meta: Vec<(String, String)> = Vec::new();
        let mut j: usize = 0;
        while j < self.meta.len()
            invariant
                self@.meta.len() == self.meta@.len(),
                forall|k: int| 0 <= k < self.meta@.len()
                    ==> self@.meta[k] == (self.meta@[k].0@, self.meta@[k].1@),
                j <= self.meta@.len(),
                meta@.len() == j,
                forall|k: int| 0 <= k < j
                    ==> ((#[trigger] meta@[k]).0@, meta@[k].1@) == self@.meta[k],
            decreases self.meta@.len() - j,
        {
            let e = &self.meta[j];
            meta.push((e.0.clone(), e.1.clone()));
            j = j + 1;
        }
        let rec = Record { schema, rows, meta };
        proof {
            assert(rec@.meta =~= self@.meta);
            assert(rec@.schema == crate::flatten::unflat_schema(gfs));
            assert(rec@.rows.len() == self@.rows.len());
            assert forall|k: int| 0 <= k < rec@.rows.len()
                implies #[trigger] rec@.rows[k] == crate::flatten::pairs_vals(
                    crate::flatten::unflat(crate::flatten::row_pairs(gfs, self@.rows[k])),
                ) by {
                assert(rec@.rows[k] == gvals_of(rows@[k]@));
            }
            assert forall|k: int| 0 <= k < rec@.rows.len()
                implies row_ok(#[trigger] rec@.rows[k], rec@.schema) by {
                let rp = crate::flatten::row_pairs(gfs, self@.rows[k]);
                let sp = crate::flatten::schema_pairs(gfs);
                assert(crate::flatten::pairs_fields(rp) =~= gfs);
                assert(crate::flatten::pairs_fields(sp) =~= gfs);
                crate::flatten::lemma_unflat_fields_indep(rp, sp);
                assert(row_ok(self@.rows[k], gfs));
                assert forall|q: int| 0 <= q < rp.len()
                    implies g_has_ty((#[trigger] rp[q]).1, rp[q].0.ty) by {
                    assert(g_has_ty(self@.rows[k][q], gfs[q].ty));
                }
                crate::flatten::lemma_unflat_conforms(rp);
                let urp = crate::flatten::unflat(rp);
                assert(rec@.rows[k].len() == urp.len()) by {
                    assert(crate::flatten::pairs_vals(urp).len() == urp.len());
                }
                assert(rec@.schema.len() == urp.len()) by {
                    assert(crate::flatten::pairs_fields(crate::flatten::unflat(sp)).len()
                        == crate::flatten::unflat(sp).len());
                    assert(crate::flatten::pairs_fields(urp).len() == urp.len());
                }
                assert forall|q: int| 0 <= q < rec@.rows[k].len()
                    implies g_has_ty(#[trigger] rec@.rows[k][q], rec@.schema[q].ty) by {
                    assert(rec@.rows[k][q] == crate::flatten::pairs_vals(urp)[q]);
                    assert(crate::flatten::pairs_vals(urp)[q] == urp[q].1);
                    assert(rec@.schema[q] == crate::flatten::pairs_fields(
                        crate::flatten::unflat(sp))[q]);
                    assert(crate::flatten::pairs_fields(urp)[q]
                        == crate::flatten::pairs_fields(crate::flatten::unflat(sp))[q]);
                    assert(urp[q].0 == crate::flatten::pairs_fields(urp)[q]);
                    assert(g_has_ty(urp[q].1, urp[q].0.ty));
                }
            }
        }
        rec
    }
}

} // verus!
