use pubsub::builders::{PublishBuilder, RecordBuilder};
use pubsub::json::JsonVal;
use pubsub::logging::{OutputFormat, RunnerLogger};
use pubsub::state::RunnerState;

fn obj(fields: Vec<(&str, JsonVal)>) -> JsonVal {
    JsonVal::Obj(fields.into_iter().map(|(k, v)| (k.to_string(), v)).collect())
}

fn publish(topic: &str, value: JsonVal) -> pubsub::record::Record {
    PublishBuilder::new(topic.to_string())
        .with_value_content(&value)
        .unwrap()
        .build()
}

#[test]
fn test_persistence_spill_plan_and_trim() {
    // trigger_rows = 3, history_rows = 1, columnar format only: after
    // three rows on t/a one file <out>/<session>/t/a.parquet is planned,
    // and after the write is reported the stored row count drops to one
    let logger = RunnerLogger::new(
        "out".to_string(),
        3,
        1,
        vec![OutputFormat::Parquet],
        Some("sess".to_string()),
    );
    let mut state = RunnerState::new();
    for i in 1..=3 {
        state
            .apply_record(&publish("t/a", obj(vec![("v", JsonVal::Int(i))])))
            .unwrap();
    }

    let plans = logger.plan_spills(&state);
    assert_eq!(plans.len(), 1);
    assert_eq!(plans[0].topic, "t/a");
    assert_eq!(plans[0].path, "out/sess/t/a.parquet");
    assert_eq!(plans[0].format, OutputFormat::Parquet);
    assert_eq!(plans[0].record.num_rows(), 3);

    logger.apply_spill_outcomes(&mut state, &vec![("t/a".to_string(), true)]);
    assert_eq!(state.get_topic_row_count("t/a"), Some(1));
    // the kept row is the last one
    let kept = state.get_topic_record("t/a").unwrap();
    assert_eq!(
        kept.to_values().unwrap(),
        vec![obj(vec![("v", JsonVal::Int(3))])]
    );
}

#[test]
fn test_spill_below_trigger_plans_nothing() {
    let logger = RunnerLogger::new(
        "out".to_string(),
        3,
        1,
        vec![OutputFormat::Parquet],
        Some("sess".to_string()),
    );
    let mut state = RunnerState::new();
    state
        .apply_record(&publish("t/a", obj(vec![("v", JsonVal::Int(1))])))
        .unwrap();
    assert_eq!(logger.plan_spills(&state).len(), 0);
}

#[test]
fn test_spill_failed_write_keeps_history() {
    let logger = RunnerLogger::new(
        "out".to_string(),
        2,
        1,
        vec![OutputFormat::Parquet],
        Some("sess".to_string()),
    );
    let mut state = RunnerState::new();
    for i in 1..=2 {
        state
            .apply_record(&publish("t/a", obj(vec![("v", JsonVal::Int(i))])))
            .unwrap();
    }
    // a failed write trims nothing
    logger.apply_spill_outcomes(&mut state, &vec![("t/a".to_string(), false)]);
    assert_eq!(state.get_topic_row_count("t/a"), Some(2));
}

#[test]
fn test_spill_zero_history_drops_topic() {
    let logger = RunnerLogger::new(
        "out".to_string(),
        2,
        0,
        vec![OutputFormat::Parquet],
        Some("sess".to_string()),
    );
    let mut state = RunnerState::new();
    for i in 1..=2 {
        state
            .apply_record(&publish("t/a", obj(vec![("v", JsonVal::Int(i))])))
            .unwrap();
    }
    logger.apply_spill_outcomes(&mut state, &vec![("t/a".to_string(), true)]);
    assert_eq!(state.get_topic_row_count("t/a"), None);
}

#[test]
fn test_csv_spill_is_flattened() {
    let logger = RunnerLogger::new(
        "logs".to_string(),
        1,
        1,
        vec![OutputFormat::Csv],
        Some("s1".to_string()),
    );
    let mut state = RunnerState::new();
    let nested = obj(vec![
        ("id", JsonVal::Int(1)),
        ("inner", obj(vec![("a", JsonVal::Int(10))])),
    ]);
    state.apply_record(&publish("top", nested)).unwrap();

    let plans = logger.plan_spills(&state);
    assert_eq!(plans.len(), 1);
    assert_eq!(plans[0].path, "logs/s1/top.csv");
    assert_eq!(plans[0].record.num_columns(), 2);
    assert_eq!(plans[0].record.field_name(1), "inner.a");
}

#[test]
fn test_final_dump_paths() {
    let logger = RunnerLogger::new(
        "out".to_string(),
        100,
        1,
        vec![OutputFormat::Parquet],
        Some("sess".to_string()),
    );
    let mut state = RunnerState::new();
    state
        .apply_record(&publish("t/a", obj(vec![("v", JsonVal::Int(1))])))
        .unwrap();

    // below the trigger nothing is planned, but the final dump writes it
    assert_eq!(logger.plan_spills(&state).len(), 0);
    let finals = logger.plan_final_dump(&state);
    assert_eq!(finals.len(), 1);
    assert_eq!(finals[0].path, "out/sess/t/a_final.parquet");
}

#[test]
fn test_spill_plans_only_enabled_formats() {
    // tabular format only: a triggered topic with a flat schema gets
    // exactly one tabular plan and no columnar file
    let logger = RunnerLogger::new(
        "out".to_string(),
        2,
        1,
        vec![OutputFormat::Csv],
        Some("sess".to_string()),
    );
    let mut state = RunnerState::new();
    for i in 1..=2 {
        state
            .apply_record(&publish("t/b", obj(vec![("v", JsonVal::Int(i))])))
            .unwrap();
    }
    let plans = logger.plan_spills(&state);
    assert_eq!(plans.len(), 1);
    assert_eq!(plans[0].format, OutputFormat::Csv);
    assert_eq!(plans[0].path, "out/sess/t/b.csv");

    let finals = logger.plan_final_dump(&state);
    assert_eq!(finals.len(), 1);
    assert_eq!(finals[0].format, OutputFormat::Csv);
    assert_eq!(finals[0].path, "out/sess/t/b_final.csv");
}
