//! The text exposition format: decimals, escaping, whole blocks, and the
//! encode-then-parse round trip on the bucket tuples.

use hdrhistogram::Histogram as HdrHistogram;
use rusty_advisor::histogram::HistogramSettings;
use rusty_advisor::measurement_unit::MeasurementUnits;
use rusty_advisor::metric::MetricDescription;
use rusty_advisor::prometheus_encoder::encode_histogram;
use rusty_advisor::prometheus_encoder::escape_string;
use rusty_advisor::prometheus_encoder::nanos_to_dec;
use rusty_advisor::prometheus_encoder::u128_to_dec;
use rusty_advisor::prometheus_histogram::BucketBound;
use rusty_advisor::prometheus_histogram::PrometheusHistogram;
use rusty_advisor::prometheus_settings::PrometheusSettings;
use rusty_advisor::snapshot::HistogramSample;

const SECOND: u64 = 1_000_000_000;

#[test]
fn decimals_render_canonically() {
    assert_eq!(u128_to_dec(0), "0");
    assert_eq!(u128_to_dec(7), "7");
    assert_eq!(u128_to_dec(1203), "1203");
    assert_eq!(nanos_to_dec(2 * SECOND as u128), "2");
    assert_eq!(nanos_to_dec(2_500_000_000), "2.5");
    assert_eq!(nanos_to_dec(50), "0.00000005");
    assert_eq!(nanos_to_dec(0), "0");
    assert_eq!(nanos_to_dec(1025), "0.000001025");
    assert_eq!(nanos_to_dec(100 * SECOND as u128), "100");
}

#[test]
fn escaping_replaces_backslash_newline_and_quote() {
    assert_eq!(escape_string("plain", false), "plain");
    assert_eq!(escape_string("a\\b", false), "a\\\\b");
    assert_eq!(escape_string("a\nb", false), "a\\nb");
    assert_eq!(escape_string("a\"b", false), "a\"b");
    assert_eq!(escape_string("a\"b", true), "a\\\"b");
    assert_eq!(escape_string("\\\n\"", true), "\\\\\\n\\\"");
}

fn one_bucket_histogram() -> PrometheusHistogram {
    let desc = MetricDescription::from(
        "m".to_string(),
        "d".to_string(),
        vec![("a".to_string(), "x".to_string())],
    )
    .unwrap();
    let mut settings = PrometheusSettings::default();
    settings.metrics.histograms.buckets.default_buckets = vec![2 * SECOND];
    let mut h = PrometheusHistogram::new(desc, &settings);

    let units = MeasurementUnits::new();
    let histogram_settings = HistogramSettings::from(1, 1000, 2, units.time.seconds);
    let mut hdr = HdrHistogram::<u64>::new_with_bounds(1, 1000, 2).unwrap();
    hdr.record_n(1, 2).unwrap();
    let records: Vec<(u64, u64)> = hdr
        .iter_recorded()
        .map(|v| (v.value_iterated_to(), v.count_at_value()))
        .collect();
    let sample = HistogramSample::new(records, histogram_settings);
    h.add_snapshot(&sample, 1000);
    h
}

#[test]
fn whole_exposition_block_is_exact() {
    let h = one_bucket_histogram();
    let expected = "# HELP m d\n\
                    # TYPE m histogram\n\
                    m_bucket{a=\"x\",le=\"2\"} 2 1000\n\
                    m_bucket{a=\"x\",le=\"+Inf\"} 2 1000\n\
                    m_sum{a=\"x\"} 2 1000\n\
                    m_count{a=\"x\"} 2 1000\n";
    assert_eq!(encode_histogram(&h), expected);
}

/// Pull the (le, count) tuples back out of an exposition block.
fn parse_bucket_tuples(block: &str) -> Vec<(String, u64)> {
    block
        .lines()
        .filter(|line| line.contains("_bucket{"))
        .map(|line| {
            let le_start = line.find("le=\"").unwrap() + 4;
            let le_end = line[le_start..].find('"').unwrap() + le_start;
            let le = line[le_start..le_end].to_string();
            let rest = &line[le_end..];
            let after_brace = rest.find("} ").unwrap() + 2;
            let mut parts = rest[after_brace..].split(' ');
            let count: u64 = parts.next().unwrap().parse().unwrap();
            (le, count)
        })
        .collect()
}

#[test]
fn encoding_then_parsing_yields_the_same_bucket_tuples() {
    let h = one_bucket_histogram();
    let parsed = parse_bucket_tuples(&encode_histogram(&h));
    let expected: Vec<(String, u64)> = h
        .buckets()
        .iter()
        .map(|b| {
            let le = match b.upper_bound {
                BucketBound::Finite(v) => nanos_to_dec(v as u128),
                BucketBound::Inf => "+Inf".to_string(),
            };
            (le, b.count)
        })
        .collect();
    assert_eq!(parsed, expected);
}

#[test]
fn empty_description_omits_the_help_line() {
    let desc = MetricDescription::from("m".to_string(), "".to_string(), Vec::new()).unwrap();
    let settings = PrometheusSettings::default();
    let h = PrometheusHistogram::new(desc, &settings);
    let encoded = encode_histogram(&h);
    assert!(!encoded.contains("# HELP"));
    assert!(encoded.starts_with("# TYPE m histogram\n"));
    // No tags: the brace block holds only the le label.
    assert!(encoded.contains("m_bucket{le=\""));
    assert!(encoded.contains("\nm_sum 0 "));
    assert!(encoded.contains("\nm_count 0 "));
}

#[test]
fn help_line_escapes_the_description() {
    let desc = MetricDescription::from(
        "m".to_string(),
        "line one\nline two \\ done".to_string(),
        Vec::new(),
    )
    .unwrap();
    let settings = PrometheusSettings::default();
    let h = PrometheusHistogram::new(desc, &settings);
    let encoded = encode_histogram(&h);
    assert!(encoded.starts_with("# HELP m line one\\nline two \\\\ done\n"));
}
