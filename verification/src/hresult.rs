//! Result codes of the component interfaces.

use vstd::prelude::*;

verus! {

/// A result code: negative for a failure.
pub type HRESULT = i32;

/// Success.
pub const S_OK: HRESULT = 0;

/// Success, with nothing done.
pub const S_FALSE: HRESULT = 1;

/// A pointer is missing.
pub const E_POINTER: HRESULT = -2147467261;

/// Failure without a more exact reason.
pub const E_FAIL: HRESULT = -2147467259;

/// An argument is not acceptable.
pub const E_INVALIDARG: HRESULT = -2147024809;

/// The class is not one that this library serves.
pub const CLASS_E_CLASSNOTAVAILABLE: HRESULT = -2147221231;

/// Whether a result code stands for a failure.
pub fn failed(hr: HRESULT) -> (r: bool)
    ensures
        r == (hr < 0),
{
    hr < 0
}

} // verus!
