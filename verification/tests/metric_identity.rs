//! Metric identity: validation and the order-independent hashes.

use rusty_advisor::errors::Error;
use rusty_advisor::metric::MetricDescription;

fn tags(pairs: &[(&str, &str)]) -> Vec<(String, String)> {
    pairs.iter().map(|(n, v)| (n.to_string(), v.to_string())).collect()
}

#[test]
fn same_def_id_when_same_names_and_same_tag_names() {
    let metric_1 = MetricDescription::from(
        "metric_name".into(),
        "some description".into(),
        tags(&[("tag_1", "tag_value_1"), ("tag_2", "tag_value_2")]),
    )
    .unwrap();
    let metric_2 = MetricDescription::from(
        "metric_name".into(),
        "some description".into(),
        tags(&[("tag_1", "tag_value_1"), ("tag_2", "tag_value_2")]),
    )
    .unwrap();

    assert_eq!(metric_1.definition_hash(), metric_2.definition_hash());
}

#[test]
fn diff_def_id_when_diff_name() {
    let metric_1 = MetricDescription::from(
        "metric_name_1".into(),
        "some description".into(),
        tags(&[("tag_1", "tag_value_1"), ("tag_2", "tag_value_2")]),
    )
    .unwrap();
    let metric_2 = MetricDescription::from(
        "metric_name_2".into(),
        "some description".into(),
        tags(&[("tag_1", "tag_value_1"), ("tag_2", "tag_value_2")]),
    )
    .unwrap();

    assert_ne!(metric_1.definition_hash(), metric_2.definition_hash());
}

#[test]
fn diff_def_id_when_same_name_and_diff_description() {
    let metric_1 = MetricDescription::from(
        "metric_name".into(),
        "some description".into(),
        tags(&[("tag_1", "tag_value_1"), ("tag_2", "tag_value_2")]),
    )
    .unwrap();
    let metric_2 = MetricDescription::from(
        "metric_name".into(),
        "another description".into(),
        tags(&[("tag_1", "tag_value_1"), ("tag_2", "tag_value_2")]),
    )
    .unwrap();

    assert_ne!(metric_1.definition_hash(), metric_2.definition_hash());
}

#[test]
fn diff_def_id_when_diff_tag_names() {
    let metric_1 = MetricDescription::from(
        "metric_name_1".into(),
        "some description".into(),
        tags(&[("tag_1", "tag_value_1"), ("tag_2", "tag_value_2")]),
    )
    .unwrap();
    let metric_2 = MetricDescription::from(
        "metric_name_1".into(),
        "some description".into(),
        tags(&[("tag_1", "tag_value_1"), ("tag_3", "tag_value_2")]),
    )
    .unwrap();

    assert_ne!(metric_1.definition_hash(), metric_2.definition_hash());
}

#[test]
fn same_def_id_ignoring_order() {
    let metric_1 = MetricDescription::from(
        "metric_name_1".into(),
        "some description".into(),
        tags(&[("tag_1", "tag_value_1"), ("tag_2", "tag_value_2")]),
    )
    .unwrap();
    let metric_2 = MetricDescription::from(
        "metric_name_1".into(),
        "some description".into(),
        tags(&[("tag_2", "tag_value_2"), ("tag_1", "tag_value_1")]),
    )
    .unwrap();

    assert_eq!(metric_1.definition_hash(), metric_2.definition_hash());
}

#[test]
fn same_metric_id_when_same_names_and_same_tags() {
    let metric_1 = MetricDescription::from(
        "metric_name_1".into(),
        "some description".into(),
        tags(&[("tag_1", "tag_value_1"), ("tag_2", "tag_value_2")]),
    )
    .unwrap();
    let metric_2 = MetricDescription::from(
        "metric_name_1".into(),
        "some description".into(),
        tags(&[("tag_1", "tag_value_1"), ("tag_2", "tag_value_2")]),
    )
    .unwrap();

    assert_eq!(metric_1.definition_hash(), metric_2.definition_hash());
    assert_eq!(metric_1.id, metric_2.id);
}

#[test]
fn same_metric_id_ignoring_order() {
    let metric_1 = MetricDescription::from(
        "metric_name_1".into(),
        "some description".into(),
        tags(&[("tag_1", "tag_value_1"), ("tag_2", "tag_value_2")]),
    )
    .unwrap();
    let metric_2 = MetricDescription::from(
        "metric_name_1".into(),
        "some description".into(),
        tags(&[("tag_2", "tag_value_2"), ("tag_1", "tag_value_1")]),
    )
    .unwrap();

    assert_eq!(metric_1.definition_hash(), metric_2.definition_hash());
    assert_eq!(metric_1.id, metric_2.id);
}

#[test]
fn same_def_id_and_diff_metric_id_when_same_names_and_diff_tag_valuss() {
    let metric_1 = MetricDescription::from(
        "metric_name_1".into(),
        "some description".into(),
        tags(&[("tag_1", "tag_value_1"), ("tag_2", "tag_value_2")]),
    )
    .unwrap();
    let metric_2 = MetricDescription::from(
        "metric_name_1".into(),
        "some description".into(),
        tags(&[("tag_1", "tag_value_1"), ("tag_2", "tag_value_3")]),
    )
    .unwrap();

    assert_eq!(metric_1.definition_hash(), metric_2.definition_hash());
    assert_ne!(metric_1.id, metric_2.id);
}

#[test]
fn invalid_name_is_rejected() {
    let result = MetricDescription::from("1bad".into(), "d".into(), Vec::new());
    assert!(matches!(result, Err(Error::Msg(_))));
}

#[test]
fn invalid_tag_name_is_rejected() {
    let result = MetricDescription::from(
        "metric".into(),
        "d".into(),
        tags(&[("9bad", "value")]),
    );
    assert!(matches!(result, Err(Error::Msg(_))));
}

#[test]
fn invalid_tag_value_is_rejected() {
    let result = MetricDescription::from(
        "metric".into(),
        "d".into(),
        tags(&[("tag", "bad value")]),
    );
    assert!(matches!(result, Err(Error::Msg(_))));
}

#[test]
fn duplicate_tag_name_is_rejected() {
    let result = MetricDescription::from(
        "metric".into(),
        "d".into(),
        tags(&[("tag", "a"), ("tag", "b")]),
    );
    assert!(matches!(result, Err(Error::Msg(_))));
}

#[test]
fn empty_name_is_rejected() {
    let result = MetricDescription::from("".into(), "d".into(), Vec::new());
    assert!(matches!(result, Err(Error::Msg(_))));
}

#[test]
fn colon_and_underscore_names_are_accepted() {
    assert!(MetricDescription::from(":a_b:".into(), "d".into(), Vec::new()).is_ok());
    assert!(MetricDescription::from("_x9".into(), "".into(), Vec::new()).is_ok());
}
