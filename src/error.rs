//! Why a merge was refused.
use vstd::prelude::*;

verus! {

#[derive(Clone, Copy, Debug, PartialEq, Eq, Structural)]
pub enum AggregationError {
    /// The incoming family has another name than the stored one.
    NameMismatch,
    /// The incoming family has another type than the stored one.
    TypeMismatch,
    /// A sample's value has another kind than the stored sample of the same labels.
    ValueTypeMismatch,
    /// Summary values cannot be merged.
    UnsupportedMerge,
}

} // verus!
