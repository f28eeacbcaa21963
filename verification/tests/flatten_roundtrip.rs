use pubsub::json::{ColType, JsonVal};
use pubsub::record::{Record, RecordError};

fn obj(fields: Vec<(&str, JsonVal)>) -> JsonVal {
    JsonVal::Obj(fields.into_iter().map(|(k, v)| (k.to_string(), v)).collect())
}

fn field_names(rec: &Record) -> Vec<String> {
    let mut names = Vec::new();
    for i in 0..rec.num_columns() {
        names.push(rec.field_name(i).clone());
    }
    names
}

#[test]
fn test_flatten_record_batch_simple() {
    let rows = JsonVal::Arr(vec![
        obj(vec![
            ("id", JsonVal::Int(1)),
            (
                "inner",
                obj(vec![
                    ("a", JsonVal::Int(10)),
                    ("b", JsonVal::Text("hello".to_string())),
                ]),
            ),
            ("value", JsonVal::Real("1.1".to_string())),
        ]),
        obj(vec![
            ("id", JsonVal::Int(2)),
            (
                "inner",
                obj(vec![
                    ("a", JsonVal::Int(20)),
                    ("b", JsonVal::Text("world".to_string())),
                ]),
            ),
            ("value", JsonVal::Real("2.2".to_string())),
        ]),
    ]);
    let original = Record::from_value(&rows).unwrap();
    let flattened = original.flatten().expect("Flattening failed");

    assert_eq!(flattened.num_columns(), 4);
    assert_eq!(flattened.num_rows(), 2);
    assert_eq!(field_names(&flattened), vec!["id", "inner.a", "inner.b", "value"]);

    assert_eq!(flattened.field(0).ty, ColType::Int);
    assert_eq!(flattened.field(1).ty, ColType::Int);
    assert_eq!(flattened.field(2).ty, ColType::Text);
    assert_eq!(flattened.field(3).ty, ColType::Real);

    let vals = flattened.to_values().unwrap();
    assert_eq!(
        vals[0],
        obj(vec![
            ("id", JsonVal::Int(1)),
            ("inner.a", JsonVal::Int(10)),
            ("inner.b", JsonVal::Text("hello".to_string())),
            ("value", JsonVal::Real("1.1".to_string())),
        ])
    );
    assert_eq!(
        vals[1],
        obj(vec![
            ("id", JsonVal::Int(2)),
            ("inner.a", JsonVal::Int(20)),
            ("inner.b", JsonVal::Text("world".to_string())),
            ("value", JsonVal::Real("2.2".to_string())),
        ])
    );
}

#[test]
fn test_flatten_record_batch_nested() {
    let rows = JsonVal::Arr(vec![
        obj(vec![
            ("id", JsonVal::Int(1)),
            (
                "inner",
                obj(vec![
                    ("a", JsonVal::Int(10)),
                    ("deep", obj(vec![("x", JsonVal::Real("100.1".to_string()))])),
                ]),
            ),
        ]),
        obj(vec![
            ("id", JsonVal::Int(2)),
            (
                "inner",
                obj(vec![
                    ("a", JsonVal::Int(20)),
                    ("deep", obj(vec![("x", JsonVal::Real("200.2".to_string()))])),
                ]),
            ),
        ]),
    ]);
    let original = Record::from_value(&rows).unwrap();
    let flattened = original.flatten().expect("Flattening failed");

    assert_eq!(flattened.num_columns(), 3);
    assert_eq!(flattened.num_rows(), 2);
    assert_eq!(field_names(&flattened), vec!["id", "inner.a", "inner.deep.x"]);
    assert_eq!(flattened.field(0).ty, ColType::Int);
    assert_eq!(flattened.field(1).ty, ColType::Int);
    assert_eq!(flattened.field(2).ty, ColType::Real);
}

#[test]
fn test_flatten_record_batch_no_structs() {
    let rows = JsonVal::Arr(vec![
        obj(vec![
            ("a", JsonVal::Int(1)),
            ("b", JsonVal::Text("x".to_string())),
        ]),
        obj(vec![("a", JsonVal::Int(2)), ("b", JsonVal::Null)]),
    ]);
    let batch = Record::from_value(&rows).unwrap();
    let flattened = batch.flatten().expect("Flattening failed");

    assert_eq!(field_names(&flattened), field_names(&batch));
    assert_eq!(flattened.num_columns(), 2);
    assert_eq!(flattened.num_rows(), 2);
    assert_eq!(flattened.to_values().unwrap(), batch.to_values().unwrap());
}

#[test]
fn test_unflatten_record_batch_simple() {
    // a flattened record built directly with dotted column names
    let rows = JsonVal::Arr(vec![
        obj(vec![
            ("id", JsonVal::Int(1)),
            ("inner.a", JsonVal::Int(10)),
            ("inner.b", JsonVal::Text("hello".to_string())),
            ("value", JsonVal::Real("1.1".to_string())),
        ]),
        obj(vec![
            ("id", JsonVal::Int(2)),
            ("inner.a", JsonVal::Int(20)),
            ("inner.b", JsonVal::Text("world".to_string())),
            ("value", JsonVal::Real("2.2".to_string())),
        ]),
    ]);
    let record = Record::from_value(&rows).expect("Failed to create flattened batch");
    let unflattened = record.unflatten();

    assert_eq!(unflattened.num_columns(), 3);
    match &unflattened.field(1).ty {
        ColType::Struct(fields) => {
            assert_eq!(fields.len(), 2);
            assert!(fields.iter().any(|f| f.name == "a"));
            assert!(fields.iter().any(|f| f.name == "b"));
        }
        _ => panic!("Expected inner to be a struct"),
    }

    // round-trip flattened -> unflattened -> flattened
    let reflattened = unflattened.flatten().expect("Re-flattening failed");
    assert_eq!(reflattened.num_columns(), 4);

    let mut original_names = field_names(&record);
    let mut round_trip_names = field_names(&reflattened);
    original_names.sort();
    round_trip_names.sort();
    assert_eq!(original_names, round_trip_names);
}

#[test]
fn test_unflatten_record_batch_nested() {
    let rows = JsonVal::Arr(vec![
        obj(vec![
            ("id", JsonVal::Int(1)),
            ("inner.a", JsonVal::Int(10)),
            ("inner.deep.x", JsonVal::Real("100.1".to_string())),
        ]),
        obj(vec![
            ("id", JsonVal::Int(2)),
            ("inner.a", JsonVal::Int(20)),
            ("inner.deep.x", JsonVal::Real("200.2".to_string())),
        ]),
    ]);
    let record = Record::from_value(&rows).expect("Failed to create flattened batch");
    assert_eq!(record.num_columns(), 3);

    let unflattened = record.unflatten();
    assert_eq!(unflattened.num_columns(), 2);

    match &unflattened.field(1).ty {
        ColType::Struct(fields) => {
            assert_eq!(fields.len(), 2);
            assert!(fields.iter().any(|f| f.name == "a"));
            let deep = fields.iter().find(|f| f.name == "deep").unwrap();
            match &deep.ty {
                ColType::Struct(deep_fields) => {
                    assert_eq!(deep_fields.len(), 1);
                    assert!(deep_fields.iter().any(|f| f.name == "x"));
                }
                _ => panic!("Expected deep to be a struct"),
            }
        }
        _ => panic!("Expected inner to be a struct"),
    }

    // the record's own flatten and unflatten agree with each other
    let flattened_record = record.flatten().expect("Failed to flatten record");
    let unflattened_record = flattened_record.unflatten();
    assert_eq!(unflattened_record.num_columns(), 2);
}

#[test]
fn test_partial_unflatten() {
    let rows = JsonVal::Arr(vec![
        obj(vec![
            ("id", JsonVal::Int(1)),
            ("regular_field", JsonVal::Text("regular".to_string())),
            ("nested.a", JsonVal::Int(10)),
            ("nested.b", JsonVal::Text("nested_a".to_string())),
        ]),
        obj(vec![
            ("id", JsonVal::Int(2)),
            ("regular_field", JsonVal::Null),
            ("nested.a", JsonVal::Int(20)),
            ("nested.b", JsonVal::Text("nested_b".to_string())),
        ]),
    ]);
    let batch = Record::from_value(&rows).unwrap();
    let unflattened = batch.unflatten();

    assert_eq!(unflattened.num_columns(), 3);
    match &unflattened.field(2).ty {
        ColType::Struct(fields) => {
            assert_eq!(fields.len(), 2);
            assert!(fields.iter().any(|f| f.name == "a"));
            assert!(fields.iter().any(|f| f.name == "b"));
        }
        _ => panic!("Expected nested to be a struct"),
    }

    let reflattened = unflattened.flatten().expect("Re-flattening failed");
    assert_eq!(reflattened.num_columns(), 4);
}

#[test]
fn test_flatten_unflatten_round_trip_values() {
    // input row {id: 1, inner: {a: 10, deep: {x: 1.5}}} flattens to the
    // columns id, inner.a, inner.deep.x and unflattens back
    let row = obj(vec![
        ("id", JsonVal::Int(1)),
        (
            "inner",
            obj(vec![
                ("a", JsonVal::Int(10)),
                ("deep", obj(vec![("x", JsonVal::Real("1.5".to_string()))])),
            ]),
        ),
    ]);
    let rec = Record::from_value(&row).unwrap();
    let flat = rec.flatten().unwrap();
    assert_eq!(field_names(&flat), vec!["id", "inner.a", "inner.deep.x"]);

    let back = flat.unflatten();
    assert_eq!(back.to_values().unwrap(), rec.to_values().unwrap());
    assert_eq!(field_names(&back), field_names(&rec));

    // the flattened form also round-trips through unflatten and flatten
    let reflat = back.flatten().unwrap();
    assert_eq!(reflat.to_values().unwrap(), flat.to_values().unwrap());
    assert_eq!(field_names(&reflat), field_names(&flat));
}

#[test]
fn test_flatten_dotted_struct_name_rejected() {
    let row = obj(vec![
        ("bad.name", obj(vec![("a", JsonVal::Int(1))])),
    ]);
    let rec = Record::from_value(&row).unwrap();
    match rec.flatten() {
        Ok(_) => panic!("flatten accepted an ambiguous name"),
        Err(e) => assert_eq!(e, RecordError::AmbiguousFieldName),
    }
}

#[test]
fn test_lists_pass_through_flatten() {
    let row = obj(vec![
        ("xs", JsonVal::Arr(vec![JsonVal::Int(1), JsonVal::Int(2)])),
        ("s", obj(vec![("y", JsonVal::Int(3))])),
    ]);
    let rec = Record::from_value(&row).unwrap();
    let flat = rec.flatten().unwrap();
    assert_eq!(field_names(&flat), vec!["xs", "s.y"]);
    let vals = flat.to_values().unwrap();
    assert_eq!(
        vals[0],
        obj(vec![
            ("xs", JsonVal::Arr(vec![JsonVal::Int(1), JsonVal::Int(2)])),
            ("s.y", JsonVal::Int(3)),
        ])
    );
}
