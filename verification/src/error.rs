//! The error kinds surfaced by fallible operations of this library.

use vstd::prelude::*;

verus! {

/// Why an attribute read or parse failed.
///
/// `NotFound` is expected for device-type-dependent optional attributes and
/// must not be treated as fatal by callers.  `Parse` means the attribute file
/// was read but its text did not match the expected numeric shape.
#[derive(Clone, Copy, Debug, PartialEq, Eq, Structural)]
pub enum Error {
    /// The attribute file, subdirectory or class root does not exist.
    NotFound,
    /// The path exists but may not be read.
    PermissionDenied,
    /// Any other I/O failure, e.g. reading a directory as a file.
    Io,
    /// The attribute text does not match the expected format.
    Parse,
}

} // verus!
