//! The error taxonomy of a copy operation.

use vstd::prelude::*;

verus! {

/// Why a copy operation failed.
#[derive(Clone, Copy, Debug, PartialEq, Eq, Structural)]
pub enum CopyError {
    /// Growing the memo table or the retention buffer failed.
    AllocationFailure,
    /// No override hook and no usable decomposition exist for an object.
    Uncopyable,
    /// A decomposition tuple has more than five elements.
    ProtocolViolation,
    /// Calling the constructor of a decomposition failed.
    ReconstructionFailure,
    /// A user hook (override or decomposition) raised an error of its own.
    HookFailed,
    /// The reference chain is longer than the supported recursion depth.
    DepthExceeded,
}

impl CopyError {
    /// A short human-readable description of the error.
    pub fn message(&self) -> (r: &'static str) {
        match self {
            CopyError::AllocationFailure => "memo table or retention buffer growth failed",
            CopyError::Uncopyable => "un(deep)copyable object",
            CopyError::ProtocolViolation => "decomposition exceeds maximum supported arity",
            CopyError::ReconstructionFailure => "reconstruction call failed",
            CopyError::HookFailed => "copy or decomposition hook raised",
            CopyError::DepthExceeded => "maximum recursion depth exceeded",
        }
    }
}

} // verus!
