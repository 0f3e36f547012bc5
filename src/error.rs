use vstd::prelude::*;

verus! {

/// Host stack status: input/output error.
pub const ERROR_IO: i32 = -1;
/// Host stack status: access denied (insufficient permissions).
pub const ERROR_ACCESS: i32 = -3;
/// Host stack status: the device has been disconnected.
pub const ERROR_NO_DEVICE: i32 = -4;
/// Host stack status: the requested entity was not found.
pub const ERROR_NOT_FOUND: i32 = -5;
/// Host stack status: some other error.
pub const ERROR_OTHER: i32 = -99;

/// The ways an operation on a device can fail.
#[derive(Debug, Clone, Copy, PartialEq, Eq, Structural)]
pub enum Error {
    /// The host stack reported a failure status (the code it reported).
    HostQueryError(i32),
    /// The requested configuration does not exist.
    NotFound,
    /// Insufficient permission to open the device.
    AccessDenied,
    /// The device was disconnected.
    NoDevice,
}

/// The error that a failed descriptor query reports: `NotFound` for the host stack's
/// not-found status, a host error for any other.
pub open spec fn query_error_of(code: i32) -> Error {
    if code == ERROR_NOT_FOUND {
        Error::NotFound
    } else {
        Error::HostQueryError(code)
    }
}

/// The error that a failed open reports: `AccessDenied` or `NoDevice` for those
/// statuses, a host error for any other.
pub open spec fn open_error_of(code: i32) -> Error {
    if code == ERROR_ACCESS {
        Error::AccessDenied
    } else if code == ERROR_NO_DEVICE {
        Error::NoDevice
    } else {
        Error::HostQueryError(code)
    }
}

/// Maps the status of a failed descriptor query to its error.
pub fn query_error(code: i32) -> (r: Error)
    ensures
        r == query_error_of(code),
{
    if code == ERROR_NOT_FOUND {
        Error::NotFound
    } else {
        Error::HostQueryError(code)
    }
}

/// Maps the status of a failed open to its error.
pub fn open_error(code: i32) -> (r: Error)
    ensures
        r == open_error_of(code),
{
    if code == ERROR_ACCESS {
        Error::AccessDenied
    } else if code == ERROR_NO_DEVICE {
        Error::NoDevice
    } else {
        Error::HostQueryError(code)
    }
}

} // verus!
