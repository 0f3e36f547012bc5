use libusb::config_descriptor::{
    self, ConfigDescriptor, Direction, EndpointDescriptor, InterfaceDescriptor, TransferType,
};
use libusb::device_descriptor;

fn device_bytes(vendor: u16, product: u16) -> Vec<u8> {
    vec![
        18,
        1,
        0x00,
        0x02,
        0xff,
        0x01,
        0x02,
        64,
        (vendor & 0xff) as u8,
        (vendor >> 8) as u8,
        (product & 0xff) as u8,
        (product >> 8) as u8,
        0x10,
        0x01,
        1,
        2,
        3,
        1,
    ]
}

fn sample_config() -> Vec<u8> {
    let mut b: Vec<u8> = vec![9, 2, 0, 0, 2, 1, 0, 0x80, 50];
    // interface 0, setting 0, two endpoints
    b.extend_from_slice(&[9, 4, 0, 0, 2, 0xff, 0, 0, 0]);
    b.extend_from_slice(&[7, 5, 0x81, 2, 0x00, 0x02, 0]);
    b.extend_from_slice(&[7, 5, 0x02, 2, 0x40, 0x00, 1]);
    // interface 1, setting 0, one endpoint
    b.extend_from_slice(&[9, 4, 1, 0, 1, 3, 1, 2, 4]);
    b.extend_from_slice(&[7, 5, 0x83, 3, 0x08, 0x00, 10]);
    let n = b.len() as u16;
    b[2] = (n & 0xff) as u8;
    b[3] = (n >> 8) as u8;
    b
}

#[test]
fn device_descriptor_reads_vendor_and_product() {
    let raw = device_bytes(0x1234, 0x5678);
    let d = device_descriptor::from_libusb(&raw);
    assert_eq!(d.vendor_id, 0x1234);
    assert_eq!(d.product_id, 0x5678);
    assert_eq!(d.usb_version, 0x0200);
    assert_eq!(d.device_version, 0x0110);
    assert_eq!(d.max_packet_size, 64);
    assert_eq!(d.class_code, 0xff);
    assert_eq!(d.num_configurations, 1);
    assert_eq!(d.serial_number_string_index, 3);
}

#[test]
fn device_descriptor_round_trip() {
    let raw = device_bytes(0xabcd, 0x0102);
    let d = device_descriptor::from_libusb(&raw);
    assert_eq!(d.to_bytes(), raw);
}

#[test]
fn config_decodes_interfaces_and_endpoints_in_order() {
    let raw = sample_config();
    let c = config_descriptor::from_libusb(&raw).unwrap();
    assert_eq!(c.total_length as usize, raw.len());
    assert_eq!(c.num_interfaces, 2);
    assert_eq!(c.number, 1);
    assert_eq!(c.attributes, 0x80);
    assert_eq!(c.max_power, 50);
    assert_eq!(c.interfaces.len(), 2);
    assert_eq!(c.interfaces[0].interface_number, 0);
    assert_eq!(c.interfaces[0].class_code, 0xff);
    assert_eq!(c.interfaces[0].endpoints.len(), 2);
    assert_eq!(c.interfaces[0].endpoints[0].address, 0x81);
    assert_eq!(c.interfaces[0].endpoints[0].max_packet_size, 512);
    assert_eq!(c.interfaces[0].endpoints[1].address, 0x02);
    assert_eq!(c.interfaces[0].endpoints[1].max_packet_size, 64);
    assert_eq!(c.interfaces[1].interface_number, 1);
    assert_eq!(c.interfaces[1].description_string_index, 4);
    assert_eq!(c.interfaces[1].endpoints.len(), 1);
    assert_eq!(c.interfaces[1].endpoints[0].interval, 10);
}

#[test]
fn config_decode_then_encode_reproduces_buffer() {
    let raw = sample_config();
    let c = config_descriptor::from_libusb(&raw).unwrap();
    assert_eq!(c.to_bytes(), raw);
}

#[test]
fn config_encode_then_decode_gives_record() {
    let c = ConfigDescriptor {
        total_length: 9 + 9 + 7,
        num_interfaces: 1,
        number: 3,
        description_string_index: 0,
        attributes: 0xc0,
        max_power: 1,
        extra: vec![],
        interfaces: vec![InterfaceDescriptor {
            interface_number: 0,
            setting_number: 1,
            class_code: 8,
            sub_class_code: 6,
            protocol_code: 0x50,
            description_string_index: 0,
            endpoints: vec![EndpointDescriptor {
                address: 0x81,
                attributes: 2,
                max_packet_size: 1024,
                interval: 0,
                extra: vec![],
            }],
            extra: vec![],
        }],
    };
    let bytes = c.to_bytes();
    assert_eq!(bytes.len(), 25);
    assert_eq!(config_descriptor::from_libusb(&bytes), Some(c));
}

#[test]
fn config_header_only_has_no_interfaces() {
    let raw: Vec<u8> = vec![9, 2, 9, 0, 0, 1, 0, 0x80, 0];
    let c = config_descriptor::from_libusb(&raw).unwrap();
    assert!(c.interfaces.is_empty());
}

#[test]
fn config_rejects_malformed_buffers() {
    assert_eq!(config_descriptor::from_libusb(&[]), None);
    assert_eq!(config_descriptor::from_libusb(&[9, 2, 9]), None);
    let mut wrong_total = sample_config();
    wrong_total[2] = wrong_total[2] + 1;
    assert_eq!(config_descriptor::from_libusb(&wrong_total), None);
    let mut truncated = sample_config();
    truncated.pop();
    let n = truncated.len() as u8;
    truncated[2] = n;
    assert_eq!(config_descriptor::from_libusb(&truncated), None);
    let mut wrong_type = sample_config();
    wrong_type[10] = 5;
    assert_eq!(config_descriptor::from_libusb(&wrong_type), None);
}

fn with_total(mut b: Vec<u8>) -> Vec<u8> {
    let n = b.len() as u16;
    b[2] = (n & 0xff) as u8;
    b[3] = (n >> 8) as u8;
    b
}

#[test]
fn config_keeps_hid_descriptor_between_interface_and_endpoint() {
    let mut b: Vec<u8> = vec![9, 2, 0, 0, 1, 1, 0, 0xa0, 50];
    b.extend_from_slice(&[9, 4, 0, 0, 1, 3, 1, 1, 0]);
    let hid: [u8; 9] = [9, 0x21, 0x11, 0x01, 0, 1, 0x22, 0x3f, 0];
    b.extend_from_slice(&hid);
    b.extend_from_slice(&[7, 5, 0x81, 3, 8, 0, 10]);
    let raw = with_total(b);
    let c = config_descriptor::from_libusb(&raw).unwrap();
    assert!(c.extra.is_empty());
    assert_eq!(c.interfaces.len(), 1);
    assert_eq!(c.interfaces[0].extra, hid.to_vec());
    assert_eq!(c.interfaces[0].endpoints.len(), 1);
    assert_eq!(c.interfaces[0].endpoints[0].address, 0x81);
    assert!(c.interfaces[0].endpoints[0].extra.is_empty());
    assert_eq!(c.to_bytes(), raw);
}

#[test]
fn config_keeps_extra_descriptors_at_every_level() {
    let mut b: Vec<u8> = vec![9, 2, 0, 0, 1, 1, 0, 0x80, 50];
    let otg: [u8; 3] = [3, 9, 3];
    b.extend_from_slice(&otg);
    b.extend_from_slice(&[9, 4, 0, 0, 1, 1, 2, 0, 0]);
    b.extend_from_slice(&[7, 5, 0x01, 1, 0x40, 0, 1]);
    let class_endpoint: [u8; 7] = [7, 0x25, 1, 0, 0, 0, 0];
    b.extend_from_slice(&class_endpoint);
    let raw = with_total(b);
    let c = config_descriptor::from_libusb(&raw).unwrap();
    assert_eq!(c.extra, otg.to_vec());
    assert!(c.interfaces[0].extra.is_empty());
    assert_eq!(c.interfaces[0].endpoints[0].extra, class_endpoint.to_vec());
    assert_eq!(c.to_bytes(), raw);
}

#[test]
fn config_header_with_only_an_otg_descriptor() {
    let raw: Vec<u8> = vec![9, 2, 12, 0, 0, 1, 0, 0x80, 0, 3, 9, 3];
    let c = config_descriptor::from_libusb(&raw).unwrap();
    assert_eq!(c.extra, vec![3, 9, 3]);
    assert!(c.interfaces.is_empty());
    assert_eq!(c.to_bytes(), raw);
}

#[test]
fn config_rejects_broken_extra_descriptor() {
    // a length byte below two
    let raw = with_total(vec![9, 2, 0, 0, 0, 1, 0, 0x80, 0, 1, 9]);
    assert_eq!(config_descriptor::from_libusb(&raw), None);
    // a length running past the buffer
    let raw = with_total(vec![9, 2, 0, 0, 0, 1, 0, 0x80, 0, 5, 9, 3]);
    assert_eq!(config_descriptor::from_libusb(&raw), None);
    // an endpoint outside any interface
    let raw = with_total(vec![9, 2, 0, 0, 0, 1, 0, 0x80, 0, 7, 5, 0x81, 2, 0, 2, 0]);
    assert_eq!(config_descriptor::from_libusb(&raw), None);
}

#[test]
fn endpoint_field_meanings() {
    let e = EndpointDescriptor { address: 0x82, attributes: 0x02, max_packet_size: 512, interval: 0, extra: vec![] };
    assert_eq!(e.number(), 2);
    assert_eq!(e.direction(), Direction::In);
    assert_eq!(e.transfer_type(), TransferType::Bulk);
    let e = EndpointDescriptor { address: 0x01, attributes: 0x0d, max_packet_size: 64, interval: 1, extra: vec![] };
    assert_eq!(e.number(), 1);
    assert_eq!(e.direction(), Direction::Out);
    assert_eq!(e.transfer_type(), TransferType::Isochronous);
    let e = EndpointDescriptor { address: 0x80, attributes: 0x03, max_packet_size: 8, interval: 10, extra: vec![] };
    assert_eq!(e.transfer_type(), TransferType::Interrupt);
    let e = EndpointDescriptor { address: 0x00, attributes: 0x00, max_packet_size: 64, interval: 0, extra: vec![] };
    assert_eq!(e.transfer_type(), TransferType::Control);
}

#[test]
fn config_attribute_meanings() {
    let raw: Vec<u8> = vec![9, 2, 9, 0, 0, 1, 0, 0xe0, 250];
    let c = config_descriptor::from_libusb(&raw).unwrap();
    assert!(c.self_powered());
    assert!(c.remote_wakeup());
    assert_eq!(c.max_power_ma(), 500);
    let raw: Vec<u8> = vec![9, 2, 9, 0, 0, 1, 0, 0x80, 50];
    let c = config_descriptor::from_libusb(&raw).unwrap();
    assert!(!c.self_powered());
    assert!(!c.remote_wakeup());
    assert_eq!(c.max_power_ma(), 100);
}
