use pubsub::json::JsonVal;
use pubsub::record::{Record, RecordError, RecordFlag};
use pubsub::builders::{PublishBuilder, RecordBuilder, SubscribeBuilder};

fn obj(fields: Vec<(&str, JsonVal)>) -> JsonVal {
    JsonVal::Obj(fields.into_iter().map(|(k, v)| (k.to_string(), v)).collect())
}

fn test_struct_value() -> JsonVal {
    // id, name, value, last_pose {x, y, z}, poses: list of poses
    obj(vec![
        ("id", JsonVal::Int(0)),
        ("name", JsonVal::Text(String::new())),
        ("value", JsonVal::Real("0.0".to_string())),
        (
            "last_pose",
            obj(vec![
                ("x", JsonVal::Real("0.0".to_string())),
                ("y", JsonVal::Real("0.0".to_string())),
                ("z", JsonVal::Real("0.0".to_string())),
            ]),
        ),
        (
            "poses",
            JsonVal::Arr(vec![obj(vec![
                ("x", JsonVal::Real("0.0".to_string())),
                ("y", JsonVal::Real("0.0".to_string())),
                ("z", JsonVal::Real("0.0".to_string())),
            ])]),
        ),
    ])
}

#[test]
fn test_from_serde() {
    let record = Record::from_value(&test_struct_value());
    assert!(record.is_ok());
}

#[test]
fn test_from_record_batch() {
    let record_serde = Record::from_value(&test_struct_value()).unwrap();
    let record = record_serde.clone();
    assert_eq!(record.num_rows(), record_serde.num_rows());
    assert_eq!(record.num_columns(), record_serde.num_columns());
    assert_eq!(
        record.to_values().unwrap(),
        record_serde.to_values().unwrap()
    );
}

#[test]
fn test_topics() {
    let mut record = Record::from_value(&test_struct_value()).unwrap();
    match record.try_get_topic() {
        Ok(_) => panic!("topic answered before it was set"),
        Err(e) => assert_eq!(e, RecordError::TopicMetadataNotSet),
    }
    record.set_topic("test_topic".to_string());
    assert_eq!(record.try_get_topic().unwrap(), "test_topic");

    let record2 = record.clone();
    assert_eq!(record2.try_get_topic().unwrap(), "test_topic");
}

#[test]
fn test_flag() {
    let mut record = Record::from_value(&test_struct_value()).unwrap();
    match record.get_flag() {
        Ok(_) => panic!("flag answered before it was set"),
        Err(e) => assert_eq!(e, RecordError::FlagMetadataNotSet),
    }
    record.set_flag(RecordFlag::PublishPacket);
    assert_eq!(record.get_flag().unwrap(), RecordFlag::PublishPacket);
}

#[test]
fn test_publish_macro() {
    let content = obj(vec![
        ("id", JsonVal::Int(0)),
        ("name", JsonVal::Text(String::new())),
    ]);
    let record = PublishBuilder::new("test_topic".to_string())
        .with_value_content(&content)
        .unwrap()
        .build();
    assert_eq!(record.try_get_topic().unwrap(), "test_topic");
    assert_eq!(record.get_flag().unwrap(), RecordFlag::PublishPacket);
}

#[test]
fn test_publish_with_info() {
    let content = obj(vec![
        ("id", JsonVal::Int(0)),
        ("name", JsonVal::Text(String::new())),
    ]);
    let record = PublishBuilder::new("test_topic".to_string())
        .with_task_id(42)
        .with_value_content(&content)
        .unwrap()
        .build();
    assert_eq!(record.try_get_topic().unwrap(), "test_topic");
    assert_eq!(record.get_flag().unwrap(), RecordFlag::PublishPacket);

    let record = PublishBuilder::new("test_topic".to_string())
        .with_task_id(42)
        .with_task_name("my_task".to_string())
        .with_value_content(&content)
        .unwrap()
        .build();
    assert_eq!(record.try_get_topic().unwrap(), "test_topic");
    assert_eq!(record.get_flag().unwrap(), RecordFlag::PublishPacket);
}

#[test]
fn test_subscribe_macro() {
    let record = SubscribeBuilder::new("test_topic".to_string())
        .with_task_id(42)
        .build();
    assert_eq!(record.try_get_topic().unwrap(), "test_topic");
    assert_eq!(record.get_flag().unwrap(), RecordFlag::SubscribePacket);

    let record = SubscribeBuilder::new("test_topic".to_string())
        .with_task_id(42)
        .build();
    assert_eq!(record.try_get_topic().unwrap(), "test_topic");
    assert_eq!(record.get_flag().unwrap(), RecordFlag::SubscribePacket);

    let record = SubscribeBuilder::new("test_topic".to_string())
        .with_task_id(42)
        .with_task_name("my_task".to_string())
        .build();
    assert_eq!(record.try_get_topic().unwrap(), "test_topic");
}

#[test]
fn test_concat_and_latest_rows() {
    let a = Record::from_value(&obj(vec![("v", JsonVal::Int(1))])).unwrap();
    let b = Record::from_value(&obj(vec![("v", JsonVal::Int(2))])).unwrap();
    let ab = a.concat(&b).unwrap();
    assert_eq!(ab.num_rows(), 2);

    let last = ab.get_n_latest_rows(1);
    assert_eq!(last.num_rows(), 1);
    assert_eq!(
        last.to_values().unwrap(),
        vec![obj(vec![("v", JsonVal::Int(2))])]
    );

    // asking for more rows than exist hands back everything
    let all = ab.get_n_latest_rows(10);
    assert_eq!(all.num_rows(), 2);

    // zero keeps the schema with no rows
    let none = ab.get_n_latest_rows(0);
    assert_eq!(none.num_rows(), 0);
    assert_eq!(none.num_columns(), 1);
    assert_eq!(none.to_values().unwrap_err(), RecordError::Empty);
}

#[test]
fn test_concat_schema_mismatch() {
    let a = Record::from_value(&obj(vec![("v", JsonVal::Int(1))])).unwrap();
    let b = Record::from_value(&obj(vec![("w", JsonVal::Int(2))])).unwrap();
    match a.concat(&b) {
        Ok(_) => panic!("concat accepted different field names"),
        Err(e) => assert_eq!(e, RecordError::SchemaMismatch),
    }
    let c = Record::from_value(&obj(vec![("v", JsonVal::Text("x".to_string()))])).unwrap();
    match a.concat(&c) {
        Ok(_) => panic!("concat accepted different field types"),
        Err(e) => assert_eq!(e, RecordError::SchemaMismatch),
    }
}

fn rejects(v: &JsonVal) -> bool {
    match Record::from_value(v) {
        Ok(_) => false,
        Err(e) => e == RecordError::SchemaInferenceFailed,
    }
}

#[test]
fn test_from_value_rejections() {
    // a bare scalar is not table-shaped
    assert!(rejects(&JsonVal::Int(5)));
    // an empty array has no witness row
    assert!(rejects(&JsonVal::Arr(vec![])));
    // mixed row shapes are rejected
    let mixed = JsonVal::Arr(vec![
        obj(vec![("v", JsonVal::Int(1))]),
        obj(vec![("w", JsonVal::Int(2))]),
    ]);
    assert!(rejects(&mixed));
    // a null-only column has no type
    let nullcol = obj(vec![("v", JsonVal::Null)]);
    assert!(rejects(&nullcol));
}

#[test]
fn test_from_value_rows() {
    let three = JsonVal::Arr(vec![
        obj(vec![("v", JsonVal::Int(1))]),
        obj(vec![("v", JsonVal::Int(2))]),
        obj(vec![("v", JsonVal::Int(3))]),
    ]);
    let rec = Record::from_value(&three).unwrap();
    assert_eq!(rec.num_rows(), 3);
    assert_eq!(rec.num_columns(), 1);
    assert_eq!(rec.field_name(0), "v");
}

#[test]
fn test_subscribe_packet_row_content() {
    // the one-row request holds the pattern, the id and the name, in
    // that field order
    let record = SubscribeBuilder::new("foo/*".to_string())
        .with_task_id(7)
        .with_task_name("listener".to_string())
        .build();
    assert_eq!(
        record.to_values().unwrap(),
        vec![obj(vec![
            ("topic", JsonVal::Text("foo/*".to_string())),
            ("task_id", JsonVal::Int(7)),
            ("task_name", JsonVal::Text("listener".to_string())),
        ])]
    );
}
