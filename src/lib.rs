//! Merge engine of a metrics push gateway: successive batches of metric
//! families are folded into a running state keyed by family name.
pub mod number;
pub mod labels;
pub mod model;
pub mod clear_mode;
pub mod buckets;
pub mod error;
pub mod merge;
pub mod family;
pub mod aggregator;
