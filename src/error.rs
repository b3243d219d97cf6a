//! The error of a command-line run.
use vstd::prelude::*;

verus! {

/// A command-line run failed: its input could not be read or its output not
/// written. The details travel as attachments of the report that carries it.
#[derive(Debug, Clone, Copy, PartialEq, Eq, Structural)]
pub struct AppError;

} // verus!
