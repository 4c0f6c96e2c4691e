//! The same error type under the module name that some callers use.

pub use crate::errors::OperationError;
