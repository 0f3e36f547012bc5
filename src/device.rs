use vstd::prelude::*;

use crate::config_descriptor::{
    self, config_bytes, config_encodes, config_well_formed, ConfigDescriptor,
};
use crate::context::ContextToken;
use crate::device_descriptor::{self, device_descriptor_of, DeviceDescriptor, DEVICE_DESCRIPTOR_LEN};
use crate::device_handle::{self, DeviceHandle};
use crate::error::{open_error, open_error_of, query_error, query_error_of, Error, ERROR_OTHER};
use crate::fields::{self, speed_of, Speed};
use crate::refcount::{constructs, destroys, RefCounts};

verus! {

/// The most tiers a port path can have.
pub const MAX_PORT_DEPTH: usize = 7;

/// The identity the host stack reports where there is no device (a null reference).
pub const NO_DEVICE: u64 = 0;

/// How many port numbers a path holds when the host stack reports `reported` of them:
/// what it reports, capped at the maximum tier depth, none for a negative report.
pub open spec fn port_count(reported: i32) -> int {
    if reported <= 0 {
        0
    } else if reported > MAX_PORT_DEPTH {
        MAX_PORT_DEPTH as int
    } else {
        reported as int
    }
}

/// What a configuration query comes to once the host stack has answered with `status`
/// and the buffer `raw`: on failure `NotFound` or a host error; else the decoded record exactly when
/// the buffer encodes a well-formed one, and a host error when it does not.
pub open spec fn config_outcome(status: i32, raw: Seq<u8>, r: Result<ConfigDescriptor, Error>) -> bool {
    if status < 0 {
        r == Err::<ConfigDescriptor, Error>(query_error_of(status))
    } else {
        &&& (r is Ok <==> config_encodes(raw))
        &&& match r {
            Ok(c) => config_bytes(c) == raw && config_well_formed(c),
            Err(e) => e == Error::HostQueryError(ERROR_OTHER),
        }
    }
}

/// A counted reference to a foreign device. Each value holds one reference on its
/// identity, taken when it is made and given back by `release`.
pub struct Device {
    context: ContextToken,
    device: u64,
}

impl Device {
    /// The foreign identity this reference names.
    pub closed spec fn identity(&self) -> u64 {
        self.device
    }

    /// The token of the session the device came from.
    pub closed spec fn token(&self) -> ContextToken {
        self.context
    }

    /// The foreign identity this reference names.
    pub fn as_raw(&self) -> (r: u64)
        ensures
            r == self.identity(),
    {
        self.device
    }

    /// The token of the session the device came from.
    pub fn context(&self) -> (r: ContextToken)
        ensures
            r == self.token(),
    {
        self.context
    }

    /// Gives back this value's reference on its identity; the caller releases the
    /// foreign reference in the same step.
    pub fn release(self, refs: &mut RefCounts)
        requires
            old(refs).live(self.identity()) > 0,
        ensures
            destroys(*old(refs), *final(refs), self.identity()),
    {
        refs.release(self.device);
    }

    /// The device descriptor, from the host stack's answer: its status and the
    /// descriptor's 18 bytes. A failed query is a host error.
    pub fn device_descriptor(&self, status: i32, raw: &[u8]) -> (r: Result<DeviceDescriptor, Error>)
        requires
            status >= 0 ==> raw@.len() == DEVICE_DESCRIPTOR_LEN,
        ensures
            status < 0 ==> r == Err::<DeviceDescriptor, Error>(Error::HostQueryError(status)),
            status >= 0 ==> r == Ok::<DeviceDescriptor, Error>(device_descriptor_of(raw@)),
    {
        if status < 0 {
            Err(Error::HostQueryError(status))
        } else {
            Ok(device_descriptor::from_libusb(raw))
        }
    }

    /// The configuration descriptor at `config_index`, for a device with
    /// `num_configurations` configurations, from the host stack's answer: its status
    /// and the descriptor's bytes. An index past the last configuration is `NotFound`
    /// whatever the host stack answered.
    pub fn config_descriptor(
        &self,
        config_index: u8,
        num_configurations: u8,
        status: i32,
        raw: &[u8],
    ) -> (r: Result<ConfigDescriptor, Error>)
        ensures
            config_index >= num_configurations ==> r == Err::<ConfigDescriptor, Error>(
                Error::NotFound,
            ),
            config_index < num_configurations ==> config_outcome(status, raw@, r),
    {
        if config_index >= num_configurations {
            return Err(Error::NotFound);
        }
        decode_config(status, raw)
    }

    /// The descriptor of the active configuration, from the host stack's answer: its
    /// status (`NotFound` when the device is unconfigured) and the descriptor's bytes.
    pub fn active_config_descriptor(&self, status: i32, raw: &[u8]) -> (r: Result<
        ConfigDescriptor,
        Error,
    >)
        ensures
            config_outcome(status, raw@, r),
    {
        decode_config(status, raw)
    }

    /// The port path from the root hub to the device, from what the host stack wrote
    /// into a buffer of the maximum depth and the length it reported.
    pub fn port_numbers(&self, ports: &[u8], reported: i32) -> (r: Vec<u8>)
        requires
            ports@.len() == MAX_PORT_DEPTH,
        ensures
            r@ == ports@.take(port_count(reported)),
            r@.len() <= MAX_PORT_DEPTH,
    {
        let n: usize = if reported <= 0 {
            0
        } else if reported as usize > MAX_PORT_DEPTH {
            MAX_PORT_DEPTH
        } else {
            reported as usize
        };
        let mut nums: Vec<u8> = Vec::new();
        let mut i: usize = 0;
        while i < n
            invariant
                n == port_count(reported),
                n <= ports@.len(),
                i <= n,
                nums@ == ports@.take(i as int),
            decreases n - i,
        {
            nums.push(ports[i]);
            assert(nums@ =~= ports@.take(i + 1));
            i = i + 1;
        }
        nums
    }

    /// The connection speed, from the host stack's speed code; a code it does not
    /// know is `Unknown`.
    pub fn speed(&self, code: i32) -> (r: Speed)
        ensures
            r == speed_of(code),
    {
        fields::speed_from_libusb(code)
    }

    /// Opens the device, from the host stack's answer: its status and the handle it
    /// opened. It fails with `AccessDenied`, `NoDevice` or a host error; the handle
    /// carries this device's session token.
    pub fn open(&self, status: i32, handle: u64) -> (r: Result<DeviceHandle, Error>)
        ensures
            status < 0 ==> r is Err && r->Err_0 == open_error_of(status),
            status >= 0 ==> r is Ok && r->Ok_0.raw() == handle && r->Ok_0.token()
                == self.token(),
    {
        if status < 0 {
            Err(open_error(status))
        } else {
            Ok(device_handle::from_libusb(self.context, handle))
        }
    }

    /// The parent hub, from the identity the host stack reported for it (`NO_DEVICE`
    /// for a root hub). A parent is a new reference of its own, counted in `refs`.
    pub fn parent(&self, refs: &mut RefCounts, raw_parent: u64) -> (r: Option<Device>)
        requires
            raw_parent != NO_DEVICE ==> old(refs).live(raw_parent) < u64::MAX,
        ensures
            raw_parent == NO_DEVICE ==> r is None && final(refs)@ == old(refs)@,
            raw_parent != NO_DEVICE ==> r is Some && r->0.identity() == raw_parent
                && r->0.token() == self.token() && constructs(*old(refs), *final(refs), raw_parent),
    {
        if raw_parent == NO_DEVICE {
            None
        } else {
            Some(from_libusb(refs, self.context, raw_parent))
        }
    }
}

/// Decodes a configuration descriptor once the host stack has answered.
fn decode_config(status: i32, raw: &[u8]) -> (r: Result<ConfigDescriptor, Error>)
    ensures
        config_outcome(status, raw@, r),
{
    if status < 0 {
        Err(query_error(status))
    } else {
        match config_descriptor::from_libusb(raw) {
            Some(c) => Ok(c),
            None => Err(Error::HostQueryError(ERROR_OTHER)),
        }
    }
}

/// Makes a device reference for a foreign identity of the session `context`, taking
/// one reference on it.
pub fn from_libusb(refs: &mut RefCounts, context: ContextToken, device: u64) -> (r: Device)
    requires
        old(refs).live(device) < u64::MAX,
    ensures
        r.identity() == device,
        r.token() == context,
        constructs(*old(refs), *final(refs), device),
{
    refs.acquire(device);
    Device { context, device }
}

} // verus!
