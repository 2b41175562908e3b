//! Items of the standard library that the library names without a
//! specification from vstd.

use vstd::prelude::*;

verus! {

/// `std::io::Error`, carried through the library's error types.
#[verifier::external_type_specification]
#[verifier::external_body]
pub struct ExIoError(std::io::Error);

/// `std::str::Utf8Error`, carried through the library's error types.
#[verifier::external_type_specification]
#[verifier::external_body]
pub struct ExUtf8Error(std::str::Utf8Error);

/// Calls `std::io::Error::new` with the `InvalidInput` kind and the message that
/// the standard library gives when a C string would hold an interior nul byte.
/// Nothing is claimed of the error value.
#[verifier::external_body]
pub(crate) fn nul_byte_error() -> (e: std::io::Error) {
    std::io::Error::new(std::io::ErrorKind::InvalidInput, "data provided contains a nul byte")
}

/// Calls `std::io::Error::new` with the `NotFound` kind and, as the message,
/// the given path bytes read as UTF-8 (`String::from_utf8_lossy`). Nothing is
/// claimed of the error value.
#[verifier::external_body]
pub(crate) fn not_found_error(path: &[u8]) -> (e: std::io::Error) {
    std::io::Error::new(std::io::ErrorKind::NotFound, String::from_utf8_lossy(path).into_owned())
}

} // verus!
