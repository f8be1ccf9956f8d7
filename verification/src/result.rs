//! Operating-system result codes and their error type.

use vstd::prelude::*;

verus! {

/// An error reported by the operating system: the non-zero result code.
#[derive(Debug, Clone, Copy, PartialEq, Eq, Structural, Hash)]
pub enum LibnxError {
    /// A non-zero system result code.
    System(u32),
}

impl LibnxError {
    /// The raw result code carried by the error.
    pub fn code(&self) -> (c: u32)
        ensures
            self == LibnxError::System(c),
    {
        match self {
            LibnxError::System(c) => *c,
        }
    }
}

/// Turns a raw result code into a result: zero is success, anything
/// else is the error carrying that very code.
pub fn code_to_result(code: u32) -> (r: Result<(), LibnxError>)
    ensures
        r is Ok <==> code == 0,
        code != 0 ==> r == Result::<(), LibnxError>::Err(LibnxError::System(code)),
{
    if code == 0 {
        Ok(())
    } else {
        Err(LibnxError::System(code))
    }
}

/// Conversion of a raw return value into a result.
pub trait IntoResult<T> {
    /// Reads the value as success or as an operating-system error.
    fn into_result(self) -> Result<T, LibnxError>;
}

impl IntoResult<()> for u32 {
    fn into_result(self) -> (r: Result<(), LibnxError>)
        ensures
            r is Ok <==> self == 0,
            self != 0 ==> r == Result::<(), LibnxError>::Err(LibnxError::System(self)),
    {
        code_to_result(self)
    }
}

} // verus!
