use pubsub::builders::{PublishBuilder, RecordBuilder};
use pubsub::json::JsonVal;
use pubsub::record::RecordError;
use pubsub::state::RunnerState;

fn obj(fields: Vec<(&str, JsonVal)>) -> JsonVal {
    JsonVal::Obj(fields.into_iter().map(|(k, v)| (k.to_string(), v)).collect())
}

fn publish(topic: &str, value: JsonVal) -> pubsub::record::Record {
    PublishBuilder::new(topic.to_string())
        .with_value_content(&value)
        .unwrap()
        .build()
}

#[test]
fn test_new_runner_state() {
    let state = RunnerState::new();
    assert_eq!(state.get_topics().len(), 0);
}

#[test]
fn test_apply_packet_publish() {
    let mut state = RunnerState::new();
    let packet = publish("test_topic", obj(vec![("value", JsonVal::Int(0))]));

    let result = state.apply_record(&packet);
    assert!(result.is_ok());

    let topic_data = state.get_topic_record("test_topic").unwrap();
    assert_eq!(topic_data.num_rows(), 1);

    let topic = topic_data.try_get_topic().unwrap();
    assert_eq!(topic, "test_topic");
}

#[test]
fn test_get_latest_topic_data() {
    let mut state = RunnerState::new();
    for i in 1..=3 {
        let packet = publish("test_topic", obj(vec![("value", JsonVal::Int(i))]));
        state.apply_record(&packet).unwrap();
    }

    let result = state.get_latest_topic_data("test_topic");
    assert!(result.is_ok());

    let latest = result.unwrap();
    assert_eq!(latest.num_rows(), 1);

    let read_value = latest.to_values().unwrap();
    assert_eq!(read_value[0], obj(vec![("value", JsonVal::Int(3))]));
}

#[test]
fn test_get_n_latest_topic_data() {
    let mut state = RunnerState::new();
    for i in 1..=5 {
        let packet = publish("test_topic", obj(vec![("value", JsonVal::Int(i))]));
        state.apply_record(&packet).unwrap();
    }

    let result = state.get_n_latest_topic_data("test_topic", 3);
    assert!(result.is_ok());

    let latest = result.unwrap();
    assert_eq!(latest.num_rows(), 3);

    let read_values = latest.to_values().unwrap();
    assert_eq!(read_values.len(), 3);
    assert_eq!(read_values[0], obj(vec![("value", JsonVal::Int(3))]));
    assert_eq!(read_values[1], obj(vec![("value", JsonVal::Int(4))]));
    assert_eq!(read_values[2], obj(vec![("value", JsonVal::Int(5))]));
}

#[test]
fn test_topic_not_found() {
    let state = RunnerState::new();

    match state.get_latest_topic_data("nonexistent_topic") {
        Ok(_) => panic!("missing topic answered"),
        Err(e) => assert_eq!(e, RecordError::TopicNotFound),
    }
    match state.get_n_latest_topic_data("nonexistent_topic", 3) {
        Ok(_) => panic!("missing topic answered"),
        Err(e) => assert_eq!(e, RecordError::TopicNotFound),
    }
}

#[test]
fn test_append_multiple_record_batches() {
    let mut state = RunnerState::new();

    for i in 1..=3 {
        let packet = publish("test_topic", obj(vec![("value", JsonVal::Int(i))]));
        state.apply_record(&packet).unwrap();
    }
    for i in 4..=6 {
        let packet = publish("test_topic", obj(vec![("value", JsonVal::Int(i))]));
        state.apply_record(&packet).unwrap();
    }

    let topic_data = state.get_topic_record("test_topic").unwrap();
    assert_eq!(topic_data.num_rows(), 6);

    let read_values = topic_data.to_values().unwrap();
    for i in 0..6 {
        assert_eq!(read_values[i], obj(vec![("value", JsonVal::Int(i as i64 + 1))]));
    }
}

#[test]
fn test_append_row_count_grows() {
    // after an append, the stored row count is the sum of the parts
    let mut state = RunnerState::new();
    let two = JsonVal::Arr(vec![
        obj(vec![("v", JsonVal::Int(1))]),
        obj(vec![("v", JsonVal::Int(2))]),
    ]);
    state.apply_record(&publish("t", two)).unwrap();
    assert_eq!(state.get_topic_row_count("t"), Some(2));

    state
        .apply_record(&publish("t", obj(vec![("v", JsonVal::Int(3))])))
        .unwrap();
    assert_eq!(state.get_topic_row_count("t"), Some(3));
}

#[test]
fn test_incompatible_append() {
    let mut state = RunnerState::new();
    state
        .apply_record(&publish("t", obj(vec![("v", JsonVal::Int(1))])))
        .unwrap();
    let other = publish("t", obj(vec![("w", JsonVal::Int(2))]));
    assert_eq!(
        state.apply_record(&other).unwrap_err(),
        RecordError::IncompatibleAppend
    );
    // the stored history is untouched
    assert_eq!(state.get_topic_row_count("t"), Some(1));
}

#[test]
fn test_query_topics_ladder() {
    let mut state = RunnerState::new();
    state
        .apply_record(&publish("foo/bar", obj(vec![("v", JsonVal::Int(1))])))
        .unwrap();
    state
        .apply_record(&publish("foo/baz", obj(vec![("v", JsonVal::Int(2))])))
        .unwrap();
    state
        .apply_record(&publish("other", obj(vec![("v", JsonVal::Int(3))])))
        .unwrap();

    let hits = state.query_topics("foo/*");
    assert_eq!(hits, vec!["foo/bar".to_string(), "foo/baz".to_string()]);

    let all = state.query_topics("");
    assert_eq!(all.len(), 3);

    let latest = state.query_latest_topic_data("foo/*");
    assert_eq!(latest.len(), 2);
    assert_eq!(latest[0].num_rows(), 1);
    assert_eq!(latest[1].num_rows(), 1);
}
