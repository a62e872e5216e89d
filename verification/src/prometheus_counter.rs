//! Cumulative Prometheus state for one counter metric.
//!
//! Counters are reserved in this release: consuming a snapshot reports
//! that the operation is not implemented instead of silently dropping it.

use vstd::prelude::*;

use crate::errors::Error;
use crate::metric::MetricDescription;
use crate::prometheus_settings::PrometheusSettings;
use crate::time::current_millis;

verus! {

/// Cumulative Prometheus state for one counter.
#[derive(Clone, Debug)]
pub struct PrometheusCounter {
    pub metric_description: MetricDescription,
    pub count: u64,
    pub timestamp_ms: u64,
}

impl PrometheusCounter {
    pub fn new(metric_description: MetricDescription, _settings: &PrometheusSettings) -> (r:
        PrometheusCounter)
        ensures
            r.metric_description == metric_description,
            r.count == 0,
    {
        PrometheusCounter { metric_description, count: 0, timestamp_ms: current_millis() }
    }

    /// Counter samples are a reserved case in this release: the state is
    /// left untouched and the call reports that it is not implemented.
    pub fn add_snapshot(&mut self, _timestamp_in_millis: u64) -> (r: Result<(), Error>)
        ensures
            r matches Err(e) && e == Error::NotImplemented(),
            *final(self) == *old(self),
    {
        Err(Error::NotImplemented())
    }

    pub fn metric_description(&self) -> (r: &MetricDescription)
        ensures
            r == &self.metric_description,
    {
        &self.metric_description
    }

    pub fn count(&self) -> (r: u64)
        ensures
            r == self.count,
    {
        self.count
    }

    pub fn timestamp_ms(&self) -> (r: u64)
        ensures
            r == self.timestamp_ms,
    {
        self.timestamp_ms
    }
}

} // verus!
