//! Registration semantics: dedup by identity, conflict rejection.

use rusty_advisor::errors::Error;
use rusty_advisor::histogram::HistogramBuilder;
use rusty_advisor::histogram::HistogramSettings;
use rusty_advisor::registry::Registry;

#[test]
fn test_register_new_metric_properly() {
    let mut registry = Registry::new("GlobalMetricRegistry".into());
    let builder = HistogramBuilder::new("metric_name".into(), "some description".into())
        .with_tags("tag_1".into(), "tag_value_1".into());
    let result = registry.get_or_register_histogram(builder);
    assert!(
        result.is_ok(),
        "Result from get_or_registry should be Ok(MetricRecorder)"
    );
    assert_eq!(
        result.unwrap().measurement_unit,
        HistogramSettings::default().measurement_unit
    );
}

#[test]
fn test_register_metric_already_registered_with_same_values_throws_metric_already_reg() {
    let mut registry = Registry::new("GlobalMetricRegistry".to_string());
    let builder = HistogramBuilder::new("metric_name".to_string(), "some description".into())
        .with_tags("tag_1".into(), "tag_value_1".into());
    registry
        .get_or_register_histogram(builder.clone())
        .expect("It should have been accepted the first attempt to register a metric");
    let result = registry.get_or_register_histogram(builder);
    assert!(
        result.is_ok(),
        "Result from get_or_registry should be Ok(MetricRecorder)"
    );
    assert_eq!(
        result.unwrap().measurement_unit,
        HistogramSettings::default().measurement_unit
    );
}

#[test]
fn test_register_metric_already_registered_with_different_tag_values_is_ok() {
    let mut registry = Registry::new("GlobalMetricRegistry".to_string());
    let builder = HistogramBuilder::new(
        "metric_name".to_string(),
        "some description".to_string(),
    )
    .with_tags("tag_1".into(), "tag_value_1".into());
    registry
        .get_or_register_histogram(builder)
        .expect("It should accept the first attempt to register a metric with test purposes");
    let builder = HistogramBuilder::new(
        "metric_name".to_string(),
        "some description".to_string(),
    )
    .with_tags("tag_1".into(), "tag_value_2".into());
    let result = registry.get_or_register_histogram(builder);
    assert!(
        result.is_ok(),
        "Result from get_or_registry should be Ok(MetricRecorder)"
    );
    assert_eq!(
        result.unwrap().measurement_unit,
        HistogramSettings::default().measurement_unit
    );
}

#[test]
fn test_register_metric_already_registered_with_different_description_throws_metric_already_reg()
{
    let mut registry = Registry::new("GlobalMetricRegistry".to_string());
    let builder = HistogramBuilder::new(
        "metric_name".to_string(),
        "some description".to_string(),
    )
    .with_tags("tag_1".into(), "tag_value_1".into());
    registry
        .get_or_register_histogram(builder)
        .expect("It should accept the first attempt to register a metric with test purposes");
    let builder = HistogramBuilder::new(
        "metric_name".to_string(),
        "another description".to_string(),
    )
    .with_tags("tag_1".into(), "tag_value_2".into());
    let result = registry.get_or_register_histogram(builder);
    match result {
        Err(Error::MetricAlreadyRegDifferently()) => (), // no more assert is required
        other => panic!(
            "Result from get_or_registry should be Error(MetricAlreadyRegDifferently). Received: {:?}",
            other.is_ok()
        ),
    };
}

#[test]
fn registering_permuted_tags_reuses_the_same_metric() {
    let mut registry = Registry::new("registry".to_string());
    let builder_1 = HistogramBuilder::new("m".to_string(), "d".to_string())
        .with_tags("t1".into(), "v1".into())
        .with_tags("t2".into(), "v2".into());
    let builder_2 = HistogramBuilder::new("m".to_string(), "d".to_string())
        .with_tags("t2".into(), "v2".into())
        .with_tags("t1".into(), "v1".into());
    let desc_1 = builder_1.metric_description().unwrap();
    let desc_2 = builder_2.metric_description().unwrap();
    assert_eq!(desc_1.id, desc_2.id);

    registry.get_or_register_histogram(builder_1).unwrap();
    let result = registry.get_or_register_histogram(builder_2);
    assert!(result.is_ok());
    // No second histogram was created for the permuted registration.
    assert_eq!(registry.histograms_storage.len(), 1);
    assert_eq!(registry.histograms_storage[0].1.metrics.len(), 1);
}

#[test]
fn invalid_name_is_rejected_at_registration() {
    let mut registry = Registry::new("registry".to_string());
    let builder = HistogramBuilder::new("1bad".to_string(), "d".to_string());
    let result = registry.get_or_register_histogram(builder);
    assert!(matches!(result, Err(Error::Msg(_))));
}
