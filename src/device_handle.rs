use vstd::prelude::*;

use crate::context::ContextToken;

verus! {

/// An open session to a device. It carries the token of the session that the device
/// came from, and its foreign handle is handed back exactly once, by `close`.
pub struct DeviceHandle {
    context: ContextToken,
    handle: u64,
}

impl DeviceHandle {
    /// The token of the session the handle belongs to.
    pub closed spec fn token(&self) -> ContextToken {
        self.context
    }

    /// The foreign handle this value wraps.
    pub closed spec fn raw(&self) -> u64 {
        self.handle
    }

    /// The token of the session the handle belongs to.
    pub fn context(&self) -> (r: ContextToken)
        ensures
            r == self.token(),
    {
        self.context
    }

    /// The foreign handle, for use by the transfer layer.
    pub fn as_raw(&self) -> (r: u64)
        ensures
            r == self.raw(),
    {
        self.handle
    }

    /// Ends the session: consumes the handle and gives back the foreign handle, which
    /// the caller closes. No other path yields it, so it is closed once.
    pub fn close(self) -> (r: u64)
        ensures
            r == self.raw(),
    {
        self.handle
    }
}

/// Wraps a foreign handle that the host stack opened for the session `context`.
pub fn from_libusb(context: ContextToken, handle: u64) -> (r: DeviceHandle)
    ensures
        r.token() == context,
        r.raw() == handle,
{
    DeviceHandle { context, handle }
}

} // verus!
