//! Error values surfaced by the metrics core.

use vstd::prelude::*;

verus! {

/// The error kinds of this library.
#[derive(Clone, Debug, PartialEq, Eq)]
pub enum Error {
    /// A free-form failure, carrying a human-readable reason.
    Msg(String),
    /// An I/O failure reported by the surrounding runtime, carried as text.
    Io(String),
    /// A metric was registered twice under one name with a different
    /// definition (another description or other tag names).
    MetricAlreadyRegDifferently(),
    /// The requested operation is reserved but not available in this release.
    NotImplemented(),
}

impl Error {
    /// A short human-readable rendering of the error.
    pub fn message(&self) -> String {
        match self {
            Error::Msg(m) => m.clone(),
            Error::Io(m) => m.clone(),
            Error::MetricAlreadyRegDifferently() => String::from_str(
                "attempt to register a metric already registered with a different definition",
            ),
            Error::NotImplemented() => String::from_str("not implemented"),
        }
    }
}

} // verus!
