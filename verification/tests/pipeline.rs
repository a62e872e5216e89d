//! The whole pipeline on real distributions: register, record, snapshot,
//! project, expose.

use rusty_advisor::errors::Error;
use rusty_advisor::histogram::HistogramBuilder;
use rusty_advisor::histogram::HistogramSettings;
use rusty_advisor::measurement_unit::MeasurementUnits;
use rusty_advisor::metric::MetricDescription;
use rusty_advisor::prometheus_counter::PrometheusCounter;
use rusty_advisor::prometheus_reporter::PrometheusExporter;
use rusty_advisor::prometheus_settings::PrometheusSettings;
use rusty_advisor::registry::Registry;
use rusty_advisor::snapshot::CounterSample;
use rusty_advisor::snapshot::MetricSample;
use rusty_advisor::snapshot::MetricsExporter;
use rusty_advisor::snapshot::MetricsSnapshot;

#[test]
fn recorded_values_flow_into_the_exposition() {
    let mut registry = Registry::new("registry".to_string());
    let units = MeasurementUnits::new();
    let builder = HistogramBuilder::new(
        "pipeline_metric".to_string(),
        "a pipeline metric".to_string(),
    )
    .with_settings(HistogramSettings::from(1, 1_000_000, 2, units.time.nanos));
    let mut recorder = registry.get_or_register_histogram(builder).unwrap();
    recorder.record(5).unwrap();
    recorder.record(5).unwrap();
    recorder.record(700).unwrap();
    // Dropping the writer hands its values over for the next refresh.
    drop(recorder);

    let snapshot = MetricsExporter::tick(&mut registry, 77);
    assert_eq!(snapshot.timestamp_in_millis(), 77);
    assert_eq!(snapshot.samples().len(), 1);
    match &snapshot.samples()[0] {
        MetricSample::Histogram(desc, sample) => {
            assert_eq!(desc.name(), "pipeline_metric");
            let total: u64 = sample.records().iter().map(|r| r.1).sum();
            assert_eq!(total, 3);
        }
        _ => panic!("expected a histogram sample"),
    }

    let mut exporter = PrometheusExporter::new(PrometheusSettings::default());
    exporter.consume_snapshot(&snapshot).unwrap();
    assert_eq!(exporter.metrics_holder.histograms.len(), 1);
    let projected = &exporter.metrics_holder.histograms[0].1;
    assert_eq!(projected.count(), 3);
    assert_eq!(projected.timestamp_ms(), 77);
    // The final bucket always carries the whole count.
    assert_eq!(projected.buckets().last().unwrap().count, 3);

    let text = exporter.metrics_holder.encode_metrics();
    assert!(text.contains("# TYPE pipeline_metric histogram"));
    assert!(text.contains("pipeline_metric_count 3 77"));

    // A second, empty interval: the sampler was reset, the cumulative
    // counts do not move, the timestamp does.
    let snapshot = MetricsExporter::tick(&mut registry, 88);
    exporter.consume_snapshot(&snapshot).unwrap();
    let projected = &exporter.metrics_holder.histograms[0].1;
    assert_eq!(projected.count(), 3);
    assert_eq!(projected.timestamp_ms(), 88);
}

#[test]
fn counter_samples_are_not_implemented() {
    let desc = MetricDescription::from("c".to_string(), "d".to_string(), Vec::new()).unwrap();
    let snapshot = MetricsSnapshot::new(
        vec![MetricSample::Counter(desc, CounterSample::new(1))],
        5,
    );
    let mut exporter = PrometheusExporter::new(PrometheusSettings::default());
    assert_eq!(exporter.consume_snapshot(&snapshot), Err(Error::NotImplemented()));
}

#[test]
fn prometheus_counter_add_snapshot_is_not_implemented() {
    let desc = MetricDescription::from("c".to_string(), "d".to_string(), Vec::new()).unwrap();
    let mut counter = PrometheusCounter::new(desc, &PrometheusSettings::default());
    assert_eq!(counter.add_snapshot(9), Err(Error::NotImplemented()));
    assert_eq!(counter.count(), 0);
}

#[test]
fn histogram_creation_rejects_unusable_settings() {
    let units = MeasurementUnits::new();
    let mut registry = Registry::new("registry".to_string());
    let builder = HistogramBuilder::new("m".to_string(), "d".to_string())
        .with_settings(HistogramSettings::from(0, 10, 2, units.time.nanos));
    assert!(matches!(
        registry.get_or_register_histogram(builder),
        Err(Error::Msg(_))
    ));
    let builder = HistogramBuilder::new("m".to_string(), "d".to_string())
        .with_settings(HistogramSettings::from(1, 10, 9, units.time.seconds));
    assert!(matches!(
        registry.get_or_register_histogram(builder),
        Err(Error::Msg(_))
    ));
}

#[test]
fn default_settings_cover_the_spec_defaults() {
    let prometheus = PrometheusSettings::default();
    assert_eq!(prometheus.port, 9096);
    assert_eq!(prometheus.path, "/metrics");
    assert_eq!(prometheus.host, "0.0.0.0");
    let hiccup_ladder = prometheus
        .metrics
        .histograms
        .buckets
        .from(&"hiccups_duration_seconds".to_string())
        .clone();
    assert_eq!(
        hiccup_ladder,
        vec![50, 100, 250, 500, 1_000, 2_500, 5_000, 10_000, 25_000, 50_000, 100_000]
    );
    let fallback = prometheus
        .metrics
        .histograms
        .buckets
        .from(&"anything_else".to_string())
        .clone();
    assert_eq!(fallback.len(), 9);

    let hiccups = rusty_advisor::hiccup::HiccupsMonitorSettings::default();
    assert_eq!(hiccups.name, "hiccups_duration_seconds");
    assert_eq!(hiccups.resolution_nanos, 1_000_000);
    assert_eq!(hiccups.histogram_settings.min, 1);
    assert_eq!(hiccups.histogram_settings.max, 1_000_000);
    assert_eq!(hiccups.histogram_settings.precision, 0);
}

#[test]
fn exposition_order_follows_registration_order() {
    let mut registry = Registry::new("registry".to_string());
    let units = MeasurementUnits::new();
    for name in ["zed_metric", "alpha_metric", "mid_metric"] {
        let builder = HistogramBuilder::new(name.to_string(), "d".to_string())
            .with_settings(HistogramSettings::from(
                1,
                1_000_000,
                2,
                units.time.nanos.duplicate(),
            ));
        let mut recorder = registry.get_or_register_histogram(builder).unwrap();
        recorder.record(10).unwrap();
        drop(recorder);
    }
    let snapshot = MetricsExporter::tick(&mut registry, 1);
    assert_eq!(snapshot.samples().len(), 3);
    let mut exporter = PrometheusExporter::new(PrometheusSettings::default());
    exporter.consume_snapshot(&snapshot).unwrap();
    let text = exporter.metrics_holder.encode_metrics();
    let zed = text.find("# TYPE zed_metric histogram").unwrap();
    let alpha = text.find("# TYPE alpha_metric histogram").unwrap();
    let mid = text.find("# TYPE mid_metric histogram").unwrap();
    assert!(zed < alpha && alpha < mid);

    // A second identical pass keeps the same deterministic order.
    let snapshot = MetricsExporter::tick(&mut registry, 2);
    exporter.consume_snapshot(&snapshot).unwrap();
    let text_again = exporter.metrics_holder.encode_metrics();
    let zed = text_again.find("# TYPE zed_metric histogram").unwrap();
    let alpha = text_again.find("# TYPE alpha_metric histogram").unwrap();
    let mid = text_again.find("# TYPE mid_metric histogram").unwrap();
    assert!(zed < alpha && alpha < mid);
}

#[test]
fn sampler_loop_fills_the_snapshot_and_exposition() {
    // The sampler's loop body, iterated without its thread: measure,
    // observe, record with coordinated-omission correction.
    let resolution: u64 = 1000;
    let mut registry = Registry::new("registry".to_string());
    let units = MeasurementUnits::new();
    let builder = HistogramBuilder::new(
        "hiccups_duration_seconds".to_string(),
        "Hiccups detected in the VM expressed in nanoseconds.".to_string(),
    )
    .with_settings(HistogramSettings::from(1, 1_000_000, 0, units.time.nanos));
    let mut recorder = registry.get_or_register_histogram(builder).unwrap();
    let mut state = rusty_advisor::hiccup::HiccupState::new();
    for _ in 0..200 {
        let start = rusty_advisor::time::monotonic_now();
        let elapsed = rusty_advisor::time::elapsed_nanos(&start);
        let hiccup = state.observe(elapsed);
        rusty_advisor::hiccup::record_with_correction(&mut recorder, hiccup, resolution);
    }
    drop(recorder);

    let snapshot = MetricsExporter::tick(&mut registry, 1);
    let total: u64 = match &snapshot.samples()[0] {
        MetricSample::Histogram(_, sample) => sample.records().iter().map(|r| r.1).sum(),
        _ => panic!("expected a histogram sample"),
    };
    assert!(total > 0);

    let mut exporter = PrometheusExporter::new(PrometheusSettings::default());
    exporter.consume_snapshot(&snapshot).unwrap();
    let text = exporter.metrics_holder.encode_metrics();
    // The emitted block parses: every bucket line carries a bound and a count.
    let bucket_lines: Vec<&str> = text
        .lines()
        .filter(|l| !l.starts_with('#') && l.contains("_bucket{"))
        .collect();
    // The configured hiccup ladder plus the infinite bucket.
    assert_eq!(bucket_lines.len(), 12);
    for line in bucket_lines {
        assert!(line.contains("le=\""));
        let after = line.rsplit(' ').nth(1).unwrap();
        let _count: u64 = after.parse().unwrap();
    }
}
