//! Errors of the service.

use vstd::prelude::*;

verus! {

/// An error that stops the service from starting.
#[derive(Debug)]
pub enum SystemError {
    /// The command-line arguments do not describe a consistent service.
    ArgsValidationFailed { msg: String },
}

} // verus!
