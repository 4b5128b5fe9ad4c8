//! The `getauxval`-style lookup interface.
//!
//! The native `getauxval` C function is a platform extension: present in some
//! libc implementations, absent in others, and callable only through foreign
//! code. Access therefore goes through the [`Getauxval`] trait; the caller
//! picks an implementation. [`NotAvailableGetauxval`] is the stub that always
//! reports the function unavailable — a safe default anywhere. A binding to
//! the real C function lives with the I/O code outside this library and
//! implements the trait there.

use vstd::prelude::*;

use crate::AuxvType;

verus! {

/// Errors from a `getauxval`-style lookup.
#[derive(Debug, Clone, Copy, PartialEq, Eq, Structural)]
pub enum GetauxvalError {
    /// The lookup function is not available at runtime.
    FunctionNotAvailable,
    /// The lookup function found no entry for the requested key.
    NotFound,
    /// The lookup function failed in some other way.
    UnknownError,
}

/// A capability that looks up one auxv value by key.
pub trait Getauxval {
    /// Look up the value stored under `key`, or say why it cannot be had.
    fn getauxval(&self, key: AuxvType) -> Result<AuxvType, GetauxvalError>;
}

/// A stub lookup that always reports the function unavailable.
///
/// Use it where a [`Getauxval`] is wanted but the native function does not
/// exist, or as a placeholder in tests.
pub struct NotAvailableGetauxval {}

impl Getauxval for NotAvailableGetauxval {
    fn getauxval(&self, _key: AuxvType) -> (r: Result<AuxvType, GetauxvalError>)
        ensures
            r == Err::<AuxvType, GetauxvalError>(GetauxvalError::FunctionNotAvailable),
    {
        Err(GetauxvalError::FunctionNotAvailable)
    }
}

} // verus!
