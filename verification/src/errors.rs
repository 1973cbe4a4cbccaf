use vstd::prelude::*;

verus! {

/// The error kinds the solver can surface to a caller.
#[derive(Clone, Copy, Debug, PartialEq, Eq, Structural)]
pub enum GaError {
    /// Population size 0, bit length 0, or a malformed mutation rate.
    ConfigurationError,
    /// Total fitness across the population is 0 during selection.
    DegenerateFitnessError,
    /// Candidate bit length does not equal the dataset size.
    DatasetMismatchError,
}

impl GaError {
    /// A short human-readable description of the error.
    pub fn message(&self) -> (r: &'static str)
        ensures
            (*self is ConfigurationError) ==> r@ == "invalid configuration"@,
            (*self is DegenerateFitnessError) ==> r@ == "total fitness is zero"@,
            (*self is DatasetMismatchError) ==> r@ == "bit length does not match dataset size"@,
    {
        match self {
            GaError::ConfigurationError => "invalid configuration",
            GaError::DegenerateFitnessError => "total fitness is zero",
            GaError::DatasetMismatchError => "bit length does not match dataset size",
        }
    }
}

} // verus!
