use vstd::prelude::*;

use crate::bytes::{
    hi_byte, le16, lemma_bytes_of_le16, lemma_le16_of_bytes, lo_byte, read_le16, write_le16,
};

verus! {

/// Size in bytes of an encoded device descriptor.
pub const DEVICE_DESCRIPTOR_LEN: usize = 18;

/// A decoded device descriptor: the device-level fields, owned and immutable.
#[derive(Debug, Clone, Copy, PartialEq, Eq, Structural)]
pub struct DeviceDescriptor {
    pub length: u8,
    pub descriptor_type: u8,
    pub usb_version: u16,
    pub class_code: u8,
    pub sub_class_code: u8,
    pub protocol_code: u8,
    pub max_packet_size: u8,
    pub vendor_id: u16,
    pub product_id: u16,
    pub device_version: u16,
    pub manufacturer_string_index: u8,
    pub product_string_index: u8,
    pub serial_number_string_index: u8,
    pub num_configurations: u8,
}

/// The device descriptor that an 18-byte buffer encodes.
pub open spec fn device_descriptor_of(b: Seq<u8>) -> DeviceDescriptor
    recommends
        b.len() == DEVICE_DESCRIPTOR_LEN,
{
    DeviceDescriptor {
        length: b[0],
        descriptor_type: b[1],
        usb_version: le16(b[2], b[3]),
        class_code: b[4],
        sub_class_code: b[5],
        protocol_code: b[6],
        max_packet_size: b[7],
        vendor_id: le16(b[8], b[9]),
        product_id: le16(b[10], b[11]),
        device_version: le16(b[12], b[13]),
        manufacturer_string_index: b[14],
        product_string_index: b[15],
        serial_number_string_index: b[16],
        num_configurations: b[17],
    }
}

/// The 18 bytes that encode a device descriptor.
pub open spec fn device_descriptor_bytes(d: DeviceDescriptor) -> Seq<u8> {
    seq![
        d.length,
        d.descriptor_type,
        lo_byte(d.usb_version),
        hi_byte(d.usb_version),
        d.class_code,
        d.sub_class_code,
        d.protocol_code,
        d.max_packet_size,
        lo_byte(d.vendor_id),
        hi_byte(d.vendor_id),
        lo_byte(d.product_id),
        hi_byte(d.product_id),
        lo_byte(d.device_version),
        hi_byte(d.device_version),
        d.manufacturer_string_index,
        d.product_string_index,
        d.serial_number_string_index,
        d.num_configurations,
    ]
}

/// Decodes an 18-byte device descriptor buffer into an owned record.
pub fn from_libusb(b: &[u8]) -> (r: DeviceDescriptor)
    requires
        b@.len() == DEVICE_DESCRIPTOR_LEN,
    ensures
        r == device_descriptor_of(b@),
{
    DeviceDescriptor {
        length: b[0],
        descriptor_type: b[1],
        usb_version: read_le16(b[2], b[3]),
        class_code: b[4],
        sub_class_code: b[5],
        protocol_code: b[6],
        max_packet_size: b[7],
        vendor_id: read_le16(b[8], b[9]),
        product_id: read_le16(b[10], b[11]),
        device_version: read_le16(b[12], b[13]),
        manufacturer_string_index: b[14],
        product_string_index: b[15],
        serial_number_string_index: b[16],
        num_configurations: b[17],
    }
}

impl DeviceDescriptor {
    /// Encodes the descriptor as its 18 bytes.
    pub fn to_bytes(&self) -> (r: Vec<u8>)
        ensures
            r@ == device_descriptor_bytes(*self),
    {
        let usb = write_le16(self.usb_version);
        let vendor = write_le16(self.vendor_id);
        let product = write_le16(self.product_id);
        let device = write_le16(self.device_version);
        let r = vec![
            self.length,
            self.descriptor_type,
            usb.0,
            usb.1,
            self.class_code,
            self.sub_class_code,
            self.protocol_code,
            self.max_packet_size,
            vendor.0,
            vendor.1,
            product.0,
            product.1,
            device.0,
            device.1,
            self.manufacturer_string_index,
            self.product_string_index,
            self.serial_number_string_index,
            self.num_configurations,
        ];
        assert(r@ =~= device_descriptor_bytes(*self));
        r
    }
}

/// Decoding an 18-byte buffer and encoding the record gives back the buffer.
pub proof fn lemma_device_descriptor_round_trip(b: Seq<u8>)
    requires
        b.len() == DEVICE_DESCRIPTOR_LEN,
    ensures
        device_descriptor_bytes(device_descriptor_of(b)) == b,
{
    lemma_bytes_of_le16(b[2], b[3]);
    lemma_bytes_of_le16(b[8], b[9]);
    lemma_bytes_of_le16(b[10], b[11]);
    lemma_bytes_of_le16(b[12], b[13]);
    assert(device_descriptor_bytes(device_descriptor_of(b)) =~= b);
}

/// Encoding a record and decoding the bytes gives back the record.
pub proof fn lemma_device_descriptor_encode_decode(d: DeviceDescriptor)
    ensures
        device_descriptor_bytes(d).len() == DEVICE_DESCRIPTOR_LEN,
        device_descriptor_of(device_descriptor_bytes(d)) == d,
{
    lemma_le16_of_bytes(d.usb_version);
    lemma_le16_of_bytes(d.vendor_id);
    lemma_le16_of_bytes(d.product_id);
    lemma_le16_of_bytes(d.device_version);
}

} // verus!
