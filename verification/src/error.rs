//! The errors of building a circuit.

use crate::constraint_system::ConfigurationError;
use crate::layouter::AssignmentError;
use vstd::prelude::*;

verus! {

/// Why a circuit could not be built.
#[derive(Clone, Copy, Debug, PartialEq, Eq)]
pub enum Error {
    /// A configuration step was refused.
    Configuration(ConfigurationError),
    /// An assignment step was refused.
    Assignment(AssignmentError),
}

} // verus!
