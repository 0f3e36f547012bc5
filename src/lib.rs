//! Ownership-tracked access to USB devices of a host stack: counted device references,
//! decoded descriptors, open handles, and the device topology.

pub mod bytes;
pub mod config_descriptor;
pub mod context;
pub mod device;
pub mod device_descriptor;
pub mod device_handle;
pub mod error;
pub mod fields;
pub mod refcount;
