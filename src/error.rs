use vstd::prelude::*;

use crate::value::{MetaMethod, Value};

verus! {

/// Errors that a call into a scope-bound resource can surface to script code.
#[derive(Clone, Copy, Debug, PartialEq, Eq, Structural)]
pub enum Error {
    /// The callback's scope has ended: its hidden payload is inert.
    CallbackDestructed,
    /// The userdata's scope has ended: its hidden payload is inert.
    UserDataDestructed,
    /// A mutable callback or method was invoked while a previous invocation of it
    /// was still running.
    RecursiveMutCallback,
    /// A shared borrow of an object was requested while it was mutably borrowed.
    UserDataBorrowError,
    /// A mutable borrow of an object was requested while it was borrowed.
    UserDataBorrowMutError,
    /// A method was given a `self` that is not the object it was built for, or an
    /// object was read back as a type it has no identity for.
    UserDataTypeMismatch,
    /// A meta field that must be nil, a table or a function was given another value.
    MetaMethodTypeError { method: MetaMethod, value: Value },
    /// A value could not be converted at a call boundary; passed through unchanged.
    ConversionError { code: u32 },
}

} // verus!
