//! Core of a telemetry query and correction service.
//!
//! Time-stamped sensor readings are filtered, cleaned of outliers,
//! normalized against reference values, restricted to daily time windows,
//! resampled into fixed time buckets and adjusted by user-defined
//! correction rules.  A statistical detector scans raw series for sudden
//! jumps and data gaps and proposes correction rules.
//!
//! Sample values are carried as fixed-point integers (the caller chooses
//! the scale when it converts its readings); timestamps are UTC
//! milliseconds.  All transforms are pure functions over sample
//! sequences, specified and verified here; storage and transport live
//! outside the library.

pub mod anomaly;
pub mod external;
pub mod mathx;
pub mod outlier;
pub mod overlay;
pub mod parsing;
pub mod pipeline;
pub mod requests;
pub mod resample;
pub mod stages;
pub mod stream;
pub mod strutil;
pub mod timeutil;
pub mod types;
