//! Configuration of the Prometheus projection.
//!
//! Bucket upper bounds are kept as exact integers in billionths of the
//! canonical unit of their dimension (nanoseconds for time), so a bound of
//! fifty nanoseconds is stored as 50.

use vstd::prelude::*;

verus! {

/// Billionths of a canonical unit, the domain of bucket upper bounds.
pub type BucketValues = Vec<u64>;

/// A bound list is usable when its bounds strictly increase.
pub open spec fn spec_strictly_increasing(s: Seq<u64>) -> bool {
    forall|i: int, j: int| 0 <= i < j < s.len() ==> s[i] < s[j]
}

/// The bucket ladders, selected per metric name with a default fallback.
#[derive(Clone, Debug)]
pub struct Buckets {
    pub default_buckets: BucketValues,
    pub custom_buckets: Vec<(String, BucketValues)>,
}

impl Buckets {
    /// Every ladder, the default and each custom one, strictly increases.
    pub open spec fn wf(&self) -> bool {
        &&& spec_strictly_increasing(self.default_buckets@)
        &&& forall|i: int|
            0 <= i < self.custom_buckets@.len() ==> spec_strictly_increasing(
                #[trigger] self.custom_buckets@[i].1@,
            )
    }

    /// The ladder configured for `name`: the first custom entry whose name
    /// matches, or the default ladder.
    pub open spec fn spec_for_name(&self, name: Seq<char>) -> Seq<u64> {
        if exists|i: int|
            0 <= i < self.custom_buckets@.len() && #[trigger] self.custom_buckets@[i].0@
                == name {
            let i = choose|i: int|
                0 <= i < self.custom_buckets@.len() && #[trigger] self.custom_buckets@[i].0@
                    == name && forall|j: int|
                    0 <= j < i ==> #[trigger] self.custom_buckets@[j].0@ != name;
            self.custom_buckets@[i].1@
        } else {
            self.default_buckets@
        }
    }

    /// Look up the bucket ladder for a metric name.
    pub fn from(&self, name: &String) -> (r: &BucketValues)
        ensures
            r@ == self.spec_for_name(name@),
            self.wf() ==> spec_strictly_increasing(r@),
    {
        let mut k: usize = 0;
        while k < self.custom_buckets.len()
            invariant
                k <= self.custom_buckets@.len(),
                forall|j: int| 0 <= j < k ==> #[trigger] self.custom_buckets@[j].0@ != name@,
            decreases self.custom_buckets@.len() - k,
        {
            if self.custom_buckets[k].0.eq(name) {
                return &self.custom_buckets[k].1;
            }
            k += 1;
        }
        &self.default_buckets
    }
}

/// Settings of the Prometheus exposition endpoint.
#[derive(Clone, Debug)]
pub struct PrometheusSettings {
    pub host: String,
    pub port: u16,
    pub path: String,
    pub metrics: PrometheusMetricsSettings,
}

/// Settings of the metrics the endpoint exposes.
#[derive(Clone, Debug)]
pub struct PrometheusMetricsSettings {
    pub histograms: PrometheusHistogramSettings,
}

/// Settings of the projected histograms.
#[derive(Clone, Debug)]
pub struct PrometheusHistogramSettings {
    pub buckets: Buckets,
}

impl Default for PrometheusSettings {
    fn default() -> (r: PrometheusSettings)
        ensures
            r.host@ == "0.0.0.0"@,
            r.port == 9096,
            r.path@ == "/metrics"@,
            r.metrics.histograms.buckets.wf(),
    {
        PrometheusSettings {
            host: String::from_str("0.0.0.0"),
            port: 9096,
            path: String::from_str("/metrics"),
            metrics: PrometheusMetricsSettings { histograms: PrometheusHistogramSettings {
                buckets: Buckets::default(),
            } },
        }
    }
}

impl Default for Buckets {
    /// The builtin ladders: a generic default, a nanosecond ladder for the
    /// hiccup metric, and a sub-millisecond-to-seconds ladder for the
    /// endpoint's self-observation metric.
    fn default() -> (r: Buckets)
        ensures
            r.wf(),
            r.custom_buckets@.len() == 2,
            r.custom_buckets@[0].0@ == "hiccups_duration_seconds"@,
            r.custom_buckets@[1].0@ == "prometheus_http_request_duration_seconds"@,
            r.default_buckets@.len() == 9,
            r.custom_buckets@[0].1@.len() == 11,
            r.custom_buckets@[1].1@.len() == 14,
    {
        let hiccup_bounds: Vec<u64> = make_bounds_vec(
            &[50, 100, 250, 500, 1_000, 2_500, 5_000, 10_000, 25_000, 50_000, 100_000],
        );
        let http_bounds: Vec<u64> = make_bounds_vec(
            &[
                500_000,
                1_000_000,
                2_500_000,
                5_000_000,
                10_000_000,
                25_000_000,
                50_000_000,
                100_000_000,
                250_000_000,
                500_000_000,
                1_000_000_000,
                2_500_000_000,
                5_000_000_000,
                10_000_000_000,
            ],
        );
        let default_buckets: Vec<u64> = make_bounds_vec(
            &[
                10_000_000_000,
                30_000_000_000,
                100_000_000_000,
                300_000_000_000,
                1_000_000_000_000,
                3_000_000_000_000,
                10_000_000_000_000,
                30_000_000_000_000,
                100_000_000_000_000,
            ],
        );
        let mut custom_buckets: Vec<(String, BucketValues)> = Vec::new();
        custom_buckets.push((String::from_str("hiccups_duration_seconds"), hiccup_bounds));
        custom_buckets.push(
            (String::from_str("prometheus_http_request_duration_seconds"), http_bounds),
        );
        Buckets { default_buckets, custom_buckets }
    }
}

/// Copy a strictly increasing slice of bounds into a vector.
fn make_bounds_vec(bounds: &[u64]) -> (r: Vec<u64>)
    requires
        spec_strictly_increasing(bounds@),
    ensures
        r@ == bounds@,
        spec_strictly_increasing(r@),
{
    let mut r: Vec<u64> = Vec::new();
    let mut k: usize = 0;
    while k < bounds.len()
        invariant
            k <= bounds@.len(),
            r@ == bounds@.subrange(0, k as int),
        decreases bounds@.len() - k,
    {
        r.push(bounds[k]);
        k += 1;
    }
    proof {
        assert(r@ =~= bounds@);
    }
    r
}

} // verus!
