//! A harness that declares named, weighted probes against an HTTP service,
//! turns their transport results into outcomes, and scores them into a report.

pub mod json;
pub mod probe;
pub mod report;
pub mod target;
pub mod executor;
pub mod timing;
