//! Error type of the enum conversions.

use vstd::prelude::*;

verus! {

/// The error returned when a string names no variant of an enum.
#[derive(Debug, Clone, Copy, PartialEq, Eq, Structural)]
pub struct EnumConversionError;

impl EnumConversionError {
    /// The message this error displays.
    pub fn message(&self) -> (s: String)
        ensures
            s@ == "failed to convert enum"@,
    {
        crate::text::owned("failed to convert enum")
    }

    /// The message this error displays (what `Display` writes).
    pub fn to_string(&self) -> (s: String)
        ensures
            s@ == "failed to convert enum"@,
    {
        self.message()
    }
}

} // verus!
