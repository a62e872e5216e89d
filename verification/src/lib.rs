//! An in-process observability library: it measures scheduler hiccups with a
//! coordinated-omission-corrected sampler, keeps the resulting latency
//! distributions in a registry of named histograms, folds periodic snapshots
//! into Prometheus-style cumulative buckets, and renders them in the
//! Prometheus text exposition format.

pub mod errors;
pub mod hdr;
pub mod hiccup;
pub mod histogram;
pub mod lex;
pub mod measurement_unit;
pub mod metric;
pub mod prometheus_counter;
pub mod prometheus_encoder;
pub mod prometheus_histogram;
pub mod prometheus_parser;
pub mod prometheus_reporter;
pub mod prometheus_settings;
pub mod registry;
pub mod settings;
pub mod snapshot;
pub mod time;

use vstd::prelude::*;

verus! {

} // verus!
