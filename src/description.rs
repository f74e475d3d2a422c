//! The record of a pack handed to the plotting side: identifiers, labels, settings and,
//! per target, how many sizes it reached.
use vstd::prelude::*;

verus! {

/// One target of a pack.
pub struct TargetDescription {
    pub filename: String,
    pub description: String,
    pub max_size_number: usize,
}

/// A pack: identifiers, sweep, axis labels, settings and its targets.
#[verifier::reject_recursive_types(GenArgT)]
pub struct PackMeasuresDescription<GenArgT> {
    pub description: String,
    pub filename: String,
    pub sizes: Vec<GenArgT>,
    pub x_label: String,
    pub y_label: String,
    pub iterations_amount: u64,
    pub threshold_nanos: u128,
    pub target_descriptions: Vec<TargetDescription>,
}

} // verus!
