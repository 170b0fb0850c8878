use vstd::prelude::*;

verus! {

/// Failures of the operations built on externally counted handles.
#[derive(Debug)]
pub enum WiseError {
    /// An external constructor handed back a null reference.
    CouldNotCreateCFObject,
    /// A call that promises a non-null reference handed back null.
    UnexpectedNull,
    /// A condition reported to the user, with its message.
    Whatever { message: String },
}

} // verus!
