use vstd::prelude::*;

verus! {

/// An activation as an immutable pair of pure unary functions: the forward
/// transform, and the derivative computed from the forward transform's own
/// output (not from the raw pre-activation input). Only activations whose
/// derivative can be written over their own output fit this pair.
pub struct Activation<F, D> {
    pub function: F,
    pub derivative: D,
}

} // verus!
