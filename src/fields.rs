use vstd::prelude::*;

verus! {

/// Connection speed of a device, as the host stack classifies it.
#[derive(Debug, Clone, Copy, PartialEq, Eq, Structural)]
pub enum Speed {
    Unknown,
    Low,
    Full,
    High,
    Super,
    SuperPlus,
}

/// Host stack code for a device of unknown speed.
pub const SPEED_UNKNOWN: i32 = 0;
/// Host stack code for a low-speed (1.5 Mbit/s) device.
pub const SPEED_LOW: i32 = 1;
/// Host stack code for a full-speed (12 Mbit/s) device.
pub const SPEED_FULL: i32 = 2;
/// Host stack code for a high-speed (480 Mbit/s) device.
pub const SPEED_HIGH: i32 = 3;
/// Host stack code for a super-speed (5 Gbit/s) device.
pub const SPEED_SUPER: i32 = 4;
/// Host stack code for a super-speed-plus (10 Gbit/s) device.
pub const SPEED_SUPER_PLUS: i32 = 5;

/// The speed class that a host stack speed code stands for.
pub open spec fn speed_of(code: i32) -> Speed {
    if code == SPEED_LOW {
        Speed::Low
    } else if code == SPEED_FULL {
        Speed::Full
    } else if code == SPEED_HIGH {
        Speed::High
    } else if code == SPEED_SUPER {
        Speed::Super
    } else if code == SPEED_SUPER_PLUS {
        Speed::SuperPlus
    } else {
        Speed::Unknown
    }
}

/// Decodes a host stack speed code; codes it does not know map to `Unknown`.
pub fn speed_from_libusb(code: i32) -> (r: Speed)
    ensures
        r == speed_of(code),
        !(SPEED_LOW <= code <= SPEED_SUPER_PLUS) ==> r == Speed::Unknown,
{
    if code == SPEED_LOW {
        Speed::Low
    } else if code == SPEED_FULL {
        Speed::Full
    } else if code == SPEED_HIGH {
        Speed::High
    } else if code == SPEED_SUPER {
        Speed::Super
    } else if code == SPEED_SUPER_PLUS {
        Speed::SuperPlus
    } else {
        Speed::Unknown
    }
}

} // verus!
