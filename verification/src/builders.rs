//! Builders that assemble publish and subscribe records.

use vstd::prelude::*;
use crate::json::{GField, GTy, GVal, JsonVal};
use crate::record::{Record, RecordError, RecordFlag, RecordView, flag_of, fv_items, fv_ok,
    fv_rows, fv_schema, topic_of};

verus! {

/// Something that finishes into a record.
pub trait RecordBuilder {
    /// The builder's own well-formedness.
    spec fn inv(&self) -> bool;

    /// The assembled record.
    fn build(self) -> (r: Record)
        requires
            self.inv(),
        ensures
            r@.wf(),
    ;
}

/// Assembles a publish record: content, routing key and flag.
pub struct PublishBuilder {
    topic: String,
    task_id: u32,
    task_name: String,
    content: Option<Record>,
}

impl PublishBuilder {
    /// The routing key the built record will carry.
    pub closed spec fn spec_topic(&self) -> Seq<char> {
        self.topic@
    }

    /// The content record, if one was given.
    pub closed spec fn spec_content(&self) -> Option<RecordView> {
        match self.content {
            Some(c) => Some(c@),
            None => None,
        }
    }

    /// A publish builder for `topic` with no content yet.
    pub fn new(topic: String) -> (r: PublishBuilder)
        ensures
            r.spec_topic() == topic@,
            r.spec_content() is None,
            r.inv(),
    {
        PublishBuilder {
            topic,
            task_id: 0,
            task_name: String::from_str("unset"),
            content: None,
        }
    }

    /// Tag the builder with the publishing task's id.
    pub fn with_task_id(self, task_id: u32) -> (r: PublishBuilder)
        ensures
            r.spec_topic() == self.spec_topic(),
            r.spec_content() == self.spec_content(),
            self.inv() ==> r.inv(),
    {
        PublishBuilder { task_id, ..self }
    }

    /// Tag the builder with the publishing task's name.
    pub fn with_task_name(self, task_name: String) -> (r: PublishBuilder)
        ensures
            r.spec_topic() == self.spec_topic(),
            r.spec_content() == self.spec_content(),
            self.inv() ==> r.inv(),
    {
        PublishBuilder { task_name, ..self }
    }

    /// Build the content record from a value, which must be table-shaped.
    pub fn with_value_content(self, content: &JsonVal) -> (r: Result<PublishBuilder, RecordError>)
        ensures
            r is Ok <==> fv_ok(content@),
            r matches Ok(b) ==> b.inv() && b.spec_topic() == self.spec_topic()
                && (b.spec_content() matches Some(cv)
                    && cv.wf()
                    && cv.schema == fv_schema(content@)
                    && cv.rows == fv_rows(content@)
                    && cv.meta == Seq::<(Seq<char>, Seq<char>)>::empty()),
            r is Err ==> r->Err_0 == RecordError::SchemaInferenceFailed,
    {
        match Record::from_value(content) {
            Ok(rec) => Ok(PublishBuilder { content: Some(rec), ..self }),
            Err(e) => Err(e),
        }
    }
}

impl RecordBuilder for PublishBuilder {
    /// The content record, if any, is well formed.
    closed spec fn inv(&self) -> bool {
        match self.content {
            Some(c) => c@.wf(),
            None => true,
        }
    }

    /// The content (or an empty record), carrying the publish flag and
    /// the builder's topic.
    fn build(self) -> (r: Record)
        ensures
            r@.wf(),
            flag_of(r@) == Some(RecordFlag::PublishPacket),
            topic_of(r@) == Some(self.spec_topic()),
            (match self.spec_content() {
                Some(cv) => r@.schema == cv.schema && r@.rows == cv.rows,
                None => r@.schema == Seq::<crate::json::GField>::empty()
                    && r@.rows == Seq::<Seq<GVal>>::empty(),
            }),
    {
        let mut record = match self.content {
            Some(c) => c,
            None => Record::new_empty(),
        };
        record.set_flag(RecordFlag::PublishPacket);
        record.set_topic(self.topic);
        record
    }
}

/// The identity a subscription request carries.
pub struct SubscribePacket {
    pub topic: String,
    pub task_id: u32,
    pub task_name: String,
}

/// Assembles a subscription-request record.
pub struct SubscribeBuilder {
    packet: SubscribePacket,
}

impl SubscribeBuilder {
    /// The pattern the built record subscribes to.
    pub closed spec fn spec_topic(&self) -> Seq<char> {
        self.packet.topic@
    }

    /// The subscribing task's id the request carries.
    pub closed spec fn spec_task_id(&self) -> u32 {
        self.packet.task_id
    }

    /// The subscribing task's name the request carries.
    pub closed spec fn spec_task_name(&self) -> Seq<char> {
        self.packet.task_name@
    }

    /// A subscribe builder for `topic`, with id zero and the placeholder
    /// task name.
    pub fn new(topic: String) -> (r: SubscribeBuilder)
        ensures
            r.spec_topic() == topic@,
            r.spec_task_id() == 0u32,
            r.spec_task_name() == "unset"@,
            r.inv(),
    {
        SubscribeBuilder {
            packet: SubscribePacket {
                topic,
                task_id: 0,
                task_name: String::from_str("unset"),
            },
        }
    }

    /// Tag the request with the subscribing task's id.
    pub fn with_task_id(self, task_id: u32) -> (r: SubscribeBuilder)
        ensures
            r.spec_topic() == self.spec_topic(),
            r.spec_task_id() == task_id,
            r.spec_task_name() == self.spec_task_name(),
            r.inv(),
    {
        SubscribeBuilder { packet: SubscribePacket { task_id, ..self.packet } }
    }

    /// Tag the request with the subscribing task's name.
    pub fn with_task_name(self, task_name: String) -> (r: SubscribeBuilder)
        ensures
            r.spec_topic() == self.spec_topic(),
            r.spec_task_id() == self.spec_task_id(),
            r.spec_task_name() == task_name@,
            r.inv(),
    {
        SubscribeBuilder { packet: SubscribePacket { task_name, ..self.packet } }
    }
}

impl RecordBuilder for SubscribeBuilder {
    /// A subscribe builder is always fit to build.
    closed spec fn inv(&self) -> bool {
        true
    }

    /// A one-row record of the request's fields — the pattern, the
    /// task's id and the task's name — carrying the subscribe flag and
    /// the requested pattern as its topic.
    fn build(self) -> (r: Record)
        ensures
            r@.wf(),
            flag_of(r@) == Some(RecordFlag::SubscribePacket),
            topic_of(r@) == Some(self.spec_topic()),
            r@.schema == seq![
                (GField { name: "topic"@, ty: GTy::Text }),
                (GField { name: "task_id"@, ty: GTy::Int }),
                (GField { name: "task_name"@, ty: GTy::Text }),
            ],
            r@.rows == seq![
                seq![
                    GVal::Text(self.spec_topic()),
                    GVal::Int(self.spec_task_id() as int),
                    GVal::Text(self.spec_task_name()),
                ],
            ],
    {
        let mut fields: Vec<(String, JsonVal)> = Vec::new();
        fields.push((String::from_str("topic"), JsonVal::Text(self.packet.topic.clone())));
        fields.push((String::from_str("task_id"), JsonVal::Int(self.packet.task_id as i64)));
        fields.push((String::from_str("task_name"), JsonVal::Text(self.packet.task_name)));
        let value = JsonVal::Obj(fields);
        proof {
            crate::json::lemma_gpairs_of(fields@);
            let g = crate::json::gpairs_of(fields@);
            let gobj = GVal::Obj(g);
            assert(g =~= seq![
                ("topic"@, GVal::Text(self.spec_topic())),
                ("task_id"@, GVal::Int(self.spec_task_id() as int)),
                ("task_name"@, GVal::Text(self.spec_task_name())),
            ]);
            let fs = seq![
                (GField { name: "topic"@, ty: GTy::Text }),
                (GField { name: "task_id"@, ty: GTy::Int }),
                (GField { name: "task_name"@, ty: GTy::Text }),
            ];
            let rest1 = g.subrange(1, 3);
            let rest2 = rest1.subrange(1, 2);
            assert(rest1.len() == 2 && rest2.len() == 1);
            assert(rest1[0] == g[1] && rest1[1] == g[2]);
            assert(rest2[0] == g[2]);
            assert(rest2.subrange(1, 1) =~= Seq::<(Seq<char>, GVal)>::empty());
            assert(crate::json::g_infer_fields(Seq::<(Seq<char>, GVal)>::empty())
                == Some(Seq::<GField>::empty()));
            assert(crate::json::g_infer(rest2[0].1) == Some(GTy::Text));
            assert(rest2.subrange(1, rest2.len() as int) =~= Seq::<(Seq<char>, GVal)>::empty());
            assert(crate::json::g_infer_fields(rest2) is Some);
            assert(crate::json::g_infer_fields(rest2)->Some_0
                =~= seq![(GField { name: "task_name"@, ty: GTy::Text })]);
            assert(crate::json::g_infer(rest1[0].1) == Some(GTy::Int));
            assert(rest1.subrange(1, rest1.len() as int) =~= rest2);
            assert(crate::json::g_infer_fields(rest1) is Some);
            assert(crate::json::g_infer_fields(rest1)->Some_0 =~= fs.subrange(1, 3));
            assert(crate::json::g_infer(g[0].1) == Some(GTy::Text));
            assert(g.subrange(1, g.len() as int) =~= rest1);
            assert(crate::json::g_infer_fields(g) is Some);
            assert(crate::json::g_infer_fields(g)->Some_0 =~= fs);
            assert(crate::json::g_infer(gobj) == Some(GTy::Struct(fs)));
            assert(fv_items(gobj) =~= seq![gobj]);
            assert(crate::json::g_obj_ty(rest2, fs.subrange(2, 3))) by {
                assert(fs.subrange(2, 3).len() == 1);
                assert(fs.subrange(2, 3)[0] == fs[2]);
                assert(rest2[0].0 == fs[2].name);
                assert(crate::json::g_has_ty(rest2[0].1, fs[2].ty));
                assert(rest2.subrange(1, rest2.len() as int)
                    =~= Seq::<(Seq<char>, GVal)>::empty());
                assert(fs.subrange(2, 3).subrange(1, 1) =~= Seq::<GField>::empty());
                assert(crate::json::g_obj_ty(
                    Seq::<(Seq<char>, GVal)>::empty(),
                    Seq::<GField>::empty(),
                ));
            }
            assert(crate::json::g_obj_ty(rest1, fs.subrange(1, 3))) by {
                assert(fs.subrange(1, 3).len() == 2);
                assert(fs.subrange(1, 3)[0] == fs[1]);
                assert(rest1[0].0 == fs[1].name);
                assert(crate::json::g_has_ty(rest1[0].1, fs[1].ty));
                assert(rest1.subrange(1, rest1.len() as int) =~= rest2);
                assert(fs.subrange(1, 3).subrange(1, 2) =~= fs.subrange(2, 3));
            }
            assert(crate::json::g_obj_ty(g, fs)) by {
                assert(g[0].0 == fs[0].name);
                assert(crate::json::g_has_ty(g[0].1, fs[0].ty));
                assert(g.subrange(1, g.len() as int) =~= rest1);
                assert(fs.subrange(1, fs.len() as int) =~= fs.subrange(1, 3));
            }
            assert(crate::json::g_has_ty(gobj, GTy::Struct(fs)));
            assert(crate::json::g_all_ty(seq![gobj], GTy::Struct(fs))) by {
                assert(seq![gobj].subrange(1, 1) =~= Seq::<GVal>::empty());
                assert(seq![gobj][0] == gobj);
                assert(crate::json::g_all_ty(Seq::<GVal>::empty(), GTy::Struct(fs)));
            }
            assert(fv_ok(gobj));
            assert(fv_schema(gobj) == fs);
            assert(crate::record::obj_vals(gobj) =~= seq![
                GVal::Text(self.spec_topic()),
                GVal::Int(self.spec_task_id() as int),
                GVal::Text(self.spec_task_name()),
            ]);
            assert(fv_rows(gobj) =~= seq![crate::record::obj_vals(gobj)]);
            assert(fv_rows(gobj) == seq![
                seq![
                    GVal::Text(self.spec_topic()),
                    GVal::Int(self.spec_task_id() as int),
                    GVal::Text(self.spec_task_name()),
                ],
            ]);
        }
        let mut record = match Record::from_value(&value) {
            Ok(rec) => rec,
            Err(_) => Record::new_empty(),
        };
        record.set_flag(RecordFlag::SubscribePacket);
        record.set_topic(self.packet.topic);
        record
    }
}

/// A one-row publish record for `topic` holding `value`, when `value` is
/// table-shaped; the common way a task emits data.
pub fn publish_value(topic: &str, value: &JsonVal) -> (r: Result<Record, RecordError>)
    ensures
        r is Ok <==> fv_ok(value@),
        r matches Ok(rec) ==> rec@.wf()
            && flag_of(rec@) == Some(RecordFlag::PublishPacket)
            && topic_of(rec@) == Some(topic@)
            && rec@.schema == fv_schema(value@)
            && rec@.rows == fv_rows(value@),
        r is Err ==> r->Err_0 == RecordError::SchemaInferenceFailed,
{
    let builder = PublishBuilder::new(String::from_str(topic));
    match builder.with_value_content(value) {
        Ok(b) => Ok(b.build()),
        Err(e) => Err(e),
    }
}

/// A subscription-request record for `topic`.
pub fn subscribe_to(topic: &str) -> (r: Record)
    ensures
        r@.wf(),
        flag_of(r@) == Some(RecordFlag::SubscribePacket),
        topic_of(r@) == Some(topic@),
{
    SubscribeBuilder::new(String::from_str(topic)).build()
}

} // verus!
