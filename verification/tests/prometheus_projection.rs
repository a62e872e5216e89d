//! Folding samples into cumulative buckets, on the concrete scenarios.

use hdrhistogram::Histogram as HdrHistogram;
use rusty_advisor::histogram::HistogramSettings;
use rusty_advisor::measurement_unit::MeasurementUnits;
use rusty_advisor::metric::MetricDescription;
use rusty_advisor::prometheus_histogram::BucketBound;
use rusty_advisor::prometheus_histogram::PrometheusHistogram;
use rusty_advisor::prometheus_settings::PrometheusSettings;
use rusty_advisor::snapshot::HistogramSample;

const SECOND: u64 = 1_000_000_000;

fn default_description() -> MetricDescription {
    MetricDescription::from(
        "metric_name_1".to_string(),
        "some description".to_string(),
        vec![
            ("tag_1".to_string(), "tag_value_1".to_string()),
            ("tag_2".to_string(), "tag_value_2".to_string()),
        ],
    )
    .unwrap()
}

fn recorded_pairs(h: &HdrHistogram<u64>) -> Vec<(u64, u64)> {
    h.iter_recorded()
        .map(|v| (v.value_iterated_to(), v.count_at_value()))
        .collect()
}

fn second_buckets() -> PrometheusSettings {
    let mut settings = PrometheusSettings::default();
    settings.metrics.histograms.buckets.default_buckets =
        vec![2 * SECOND, 4 * SECOND, 6 * SECOND, 8 * SECOND, 10 * SECOND];
    settings
}

#[test]
fn test_translate_histogram_snapshot_with_zeros_to_prometheus_histogram() {
    let metric_description = default_description();
    let units = MeasurementUnits::new();
    let histogram_settings = HistogramSettings::from(1, 10, 0, units.time.nanos);
    let hdr_histogram = HdrHistogram::<u64>::new_with_bounds(
        histogram_settings.low,
        histogram_settings.high,
        histogram_settings.precision,
    )
    .unwrap();
    let histogram_sample =
        HistogramSample::new(recorded_pairs(&hdr_histogram), histogram_settings);
    let mut prometheus_histogram =
        PrometheusHistogram::new(metric_description, &PrometheusSettings::default());
    let before = prometheus_histogram.timestamp_ms();
    prometheus_histogram.add_snapshot(&histogram_sample, before + 1);

    assert_eq!(prometheus_histogram.buckets().len(), 10);
    for bucket in prometheus_histogram.buckets() {
        assert_eq!(bucket.count, 0);
    }
    assert_eq!(prometheus_histogram.sum(), 0);
    assert_eq!(prometheus_histogram.count(), 0);
    assert_eq!(prometheus_histogram.timestamp_ms(), before + 1);
}

#[test]
fn test_add_snapshot_with_one_tick_records_to_prometheus_histogram() {
    let settings = second_buckets();
    let metric_description = default_description();
    let units = MeasurementUnits::new();
    let histogram_settings = HistogramSettings::from(1, 1000, 2, units.time.seconds);
    let mut hdr_histogram = HdrHistogram::<u64>::new_with_bounds(
        histogram_settings.low,
        histogram_settings.high,
        histogram_settings.precision,
    )
    .unwrap();
    hdr_histogram.record_n(0, 3).unwrap();
    hdr_histogram.record_n(1, 5).unwrap();
    hdr_histogram.record_n(3, 1).unwrap();
    hdr_histogram.record_n(5, 10).unwrap();
    hdr_histogram.record_n(6, 7).unwrap();
    let histogram_sample =
        HistogramSample::new(recorded_pairs(&hdr_histogram), histogram_settings);
    let mut prometheus_histogram =
        PrometheusHistogram::new(metric_description, &settings);
    prometheus_histogram.add_snapshot(&histogram_sample, 1000);

    assert_eq!(prometheus_histogram.buckets().len(), 6);
    assert_eq!(prometheus_histogram.buckets()[0].count, 8); // 2
    assert_eq!(prometheus_histogram.buckets()[1].count, 9); // 4
    assert_eq!(prometheus_histogram.buckets()[2].count, 26); // 6
    assert_eq!(prometheus_histogram.buckets()[3].count, 26); // 8
    assert_eq!(prometheus_histogram.buckets()[4].count, 26); // 10
    assert_eq!(prometheus_histogram.buckets()[5].count, 26); // Inf
    assert_eq!(prometheus_histogram.buckets()[5].upper_bound, BucketBound::Inf);
    assert_eq!(prometheus_histogram.count(), 26);
    assert_eq!(prometheus_histogram.sum(), 100 * SECOND as u128);
}

#[test]
fn test_add_multiple_snapshots_with_new_records_to_prometheus_histogram() {
    let settings = second_buckets();
    let metric_description = default_description();
    let units = MeasurementUnits::new();
    let histogram_settings = HistogramSettings::from(1, 1000, 2, units.time.seconds);
    let mut prometheus_histogram =
        PrometheusHistogram::new(metric_description, &settings);

    let mut hdr_histogram = HdrHistogram::<u64>::new_with_bounds(
        histogram_settings.low,
        histogram_settings.high,
        histogram_settings.precision,
    )
    .unwrap();
    hdr_histogram.record_n(0, 3).unwrap();
    hdr_histogram.record_n(1, 5).unwrap();
    hdr_histogram.record_n(3, 1).unwrap();
    hdr_histogram.record_n(5, 10).unwrap();
    hdr_histogram.record_n(6, 7).unwrap();
    let histogram_sample = HistogramSample::new(
        recorded_pairs(&hdr_histogram),
        histogram_settings.duplicate(),
    );
    prometheus_histogram.add_snapshot(&histogram_sample, 1000);

    hdr_histogram.reset();
    hdr_histogram.record_n(0, 3).unwrap();
    hdr_histogram.record_n(1, 20).unwrap();
    hdr_histogram.record_n(3, 13).unwrap();
    hdr_histogram.record_n(4, 45).unwrap();
    hdr_histogram.record_n(5, 71).unwrap();
    hdr_histogram.record_n(6, 51).unwrap();
    hdr_histogram.record_n(7, 27).unwrap();
    hdr_histogram.record_n(8, 35).unwrap();
    hdr_histogram.record_n(9, 115).unwrap();
    hdr_histogram.record_n(12, 23).unwrap();
    let histogram_sample =
        HistogramSample::new(recorded_pairs(&hdr_histogram), histogram_settings);
    prometheus_histogram.add_snapshot(&histogram_sample, 1000);

    assert_eq!(prometheus_histogram.buckets().len(), 6);
    assert_eq!(prometheus_histogram.buckets()[0].count, 31); // 2
    assert_eq!(prometheus_histogram.buckets()[1].count, 90); // 4
    assert_eq!(prometheus_histogram.buckets()[2].count, 229); // 6
    assert_eq!(prometheus_histogram.buckets()[3].count, 291); // 8
    assert_eq!(prometheus_histogram.buckets()[4].count, 406); // 10
    assert_eq!(prometheus_histogram.buckets()[5].count, 429); // Inf
    assert_eq!(prometheus_histogram.count(), 429);
    assert_eq!(prometheus_histogram.sum(), 2780 * SECOND as u128);
}

#[test]
fn bucket_counts_stay_cumulative_and_monotone() {
    let settings = second_buckets();
    let units = MeasurementUnits::new();
    let histogram_settings = HistogramSettings::from(1, 1000, 2, units.time.seconds);
    let mut prometheus_histogram =
        PrometheusHistogram::new(default_description(), &settings);

    let mut hdr_histogram = HdrHistogram::<u64>::new_with_bounds(1, 1000, 2).unwrap();
    hdr_histogram.record_n(3, 4).unwrap();
    hdr_histogram.record_n(9, 2).unwrap();
    let sample = HistogramSample::new(
        recorded_pairs(&hdr_histogram),
        histogram_settings.duplicate(),
    );
    prometheus_histogram.add_snapshot(&sample, 5);
    let first: Vec<u64> =
        prometheus_histogram.buckets().iter().map(|b| b.count).collect();
    prometheus_histogram.add_snapshot(&sample, 6);
    let second: Vec<u64> =
        prometheus_histogram.buckets().iter().map(|b| b.count).collect();

    // Monotone across snapshots, monotone across buckets, final bucket is
    // the total count.
    for (a, b) in first.iter().zip(second.iter()) {
        assert!(a <= b);
    }
    for w in second.windows(2) {
        assert!(w[0] <= w[1]);
    }
    assert_eq!(*second.last().unwrap(), prometheus_histogram.count());
    assert_eq!(prometheus_histogram.count(), 12);
}
