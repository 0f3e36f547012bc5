use libusb::context::ContextToken;
use libusb::device::{self, Device, MAX_PORT_DEPTH, NO_DEVICE};
use libusb::error::{self, open_error, query_error, Error};
use libusb::fields::{speed_from_libusb, Speed};
use libusb::refcount::RefCounts;

const TOKEN: ContextToken = ContextToken { id: 7 };

fn device_bytes(vendor: u16, product: u16, configs: u8) -> Vec<u8> {
    vec![
        18,
        1,
        0x00,
        0x02,
        0,
        0,
        0,
        64,
        (vendor & 0xff) as u8,
        (vendor >> 8) as u8,
        (product & 0xff) as u8,
        (product >> 8) as u8,
        0x00,
        0x01,
        0,
        0,
        0,
        configs,
    ]
}

fn one_config() -> Vec<u8> {
    vec![9, 2, 25, 0, 1, 1, 0, 0x80, 50, 9, 4, 0, 0, 1, 0xff, 0, 0, 0, 7, 5, 0x81, 2, 0x40, 0, 0]
}

fn make(refs: &mut RefCounts, id: u64) -> Device {
    device::from_libusb(refs, TOKEN, id)
}

#[test]
fn stubbed_device_descriptor_and_disconnected_open() {
    let mut refs = RefCounts::new();
    let dev = make(&mut refs, 0x1000);
    let raw = device_bytes(0x1234, 0x5678, 1);
    let d = dev.device_descriptor(0, &raw).unwrap();
    assert_eq!(d.vendor_id, 0x1234);
    assert_eq!(d.product_id, 0x5678);
    assert_eq!(dev.open(error::ERROR_NO_DEVICE, 0).err(), Some(Error::NoDevice));
    dev.release(&mut refs);
}

#[test]
fn device_descriptor_failure_is_host_error() {
    let mut refs = RefCounts::new();
    let dev = make(&mut refs, 0x1000);
    assert_eq!(dev.device_descriptor(-1, &[]), Err(Error::HostQueryError(-1)));
    assert_eq!(dev.device_descriptor(-4, &[]), Err(Error::HostQueryError(-4)));
    assert_eq!(dev.device_descriptor(-5, &[]), Err(Error::HostQueryError(-5)));
    dev.release(&mut refs);
}

#[test]
fn open_success_carries_token_and_handle() {
    let mut refs = RefCounts::new();
    let dev = make(&mut refs, 0x1000);
    let h = dev.open(0, 0xbeef).unwrap();
    assert_eq!(h.context(), TOKEN);
    assert_eq!(h.as_raw(), 0xbeef);
    assert_eq!(h.close(), 0xbeef);
    assert_eq!(dev.open(error::ERROR_ACCESS, 0).err(), Some(Error::AccessDenied));
    assert_eq!(dev.open(-6, 0).err(), Some(Error::HostQueryError(-6)));
    assert_eq!(dev.open(error::ERROR_NOT_FOUND, 0).err(), Some(Error::HostQueryError(-5)));
    dev.release(&mut refs);
}

#[test]
fn root_hub_has_no_parent() {
    let mut refs = RefCounts::new();
    let root = make(&mut refs, 1);
    assert!(root.parent(&mut refs, NO_DEVICE).is_none());
    assert_eq!(refs.count(1), 1);
    root.release(&mut refs);
    assert_eq!(refs.count(1), 0);
}

#[test]
fn two_tier_parent_chain() {
    let mut refs = RefCounts::new();
    let leaf = make(&mut refs, 3);
    let hub = leaf.parent(&mut refs, 2).unwrap();
    assert_eq!(hub.as_raw(), 2);
    assert_eq!(hub.context(), TOKEN);
    assert!(hub.parent(&mut refs, NO_DEVICE).is_none());
    assert_eq!(refs.count(2), 1);
    assert_eq!(refs.count(3), 1);
    hub.release(&mut refs);
    leaf.release(&mut refs);
    assert_eq!(refs.count(2), 0);
    assert_eq!(refs.count(3), 0);
}

#[test]
fn reference_count_tracks_constructions_and_releases() {
    let mut refs = RefCounts::new();
    let a = make(&mut refs, 10);
    let b = make(&mut refs, 10);
    let p1 = a.parent(&mut refs, 20).unwrap();
    let p2 = b.parent(&mut refs, 20).unwrap();
    assert_eq!(refs.count(10), 2);
    assert_eq!(refs.count(20), 2);
    p1.release(&mut refs);
    assert_eq!(refs.count(20), 1);
    a.release(&mut refs);
    assert_eq!(refs.count(10), 1);
    p2.release(&mut refs);
    b.release(&mut refs);
    assert_eq!(refs.count(10), 0);
    assert_eq!(refs.count(20), 0);
    assert_eq!(refs.count(30), 0);
}

#[test]
fn config_index_past_count_is_not_found() {
    let mut refs = RefCounts::new();
    let dev = make(&mut refs, 5);
    let raw = one_config();
    assert_eq!(dev.config_descriptor(1, 1, 0, &raw), Err(Error::NotFound));
    assert_eq!(dev.config_descriptor(200, 1, 0, &raw), Err(Error::NotFound));
    assert_eq!(dev.config_descriptor(0, 0, 0, &raw), Err(Error::NotFound));
    let c = dev.config_descriptor(0, 1, 0, &raw).unwrap();
    assert_eq!(c.interfaces[0].endpoints[0].max_packet_size, 64);
    assert_eq!(dev.config_descriptor(0, 1, -1, &raw), Err(Error::HostQueryError(-1)));
    assert_eq!(dev.config_descriptor(0, 1, -3, &raw), Err(Error::HostQueryError(-3)));
    assert_eq!(dev.config_descriptor(0, 1, 0, &raw[..20]), Err(Error::HostQueryError(error::ERROR_OTHER)));
    dev.release(&mut refs);
}

#[test]
fn unconfigured_device_has_no_active_config() {
    let mut refs = RefCounts::new();
    let dev = make(&mut refs, 5);
    assert_eq!(dev.active_config_descriptor(error::ERROR_NOT_FOUND, &[]), Err(Error::NotFound));
    let c = dev.active_config_descriptor(0, &one_config()).unwrap();
    assert_eq!(c.max_power, 50);
    dev.release(&mut refs);
}

#[test]
fn port_path_of_three_tiers() {
    let mut refs = RefCounts::new();
    let dev = make(&mut refs, 5);
    let ports: [u8; 7] = [1, 4, 2, 0, 0, 0, 0];
    assert_eq!(dev.port_numbers(&ports, 3), vec![1, 4, 2]);
    dev.release(&mut refs);
}

#[test]
fn port_path_is_capped_at_seven() {
    let mut refs = RefCounts::new();
    let dev = make(&mut refs, 5);
    let ports: [u8; 7] = [1, 2, 3, 4, 5, 6, 7];
    let path = dev.port_numbers(&ports, 9);
    assert_eq!(path.len(), MAX_PORT_DEPTH);
    assert_eq!(path, vec![1, 2, 3, 4, 5, 6, 7]);
    assert!(dev.port_numbers(&ports, 0).is_empty());
    assert!(dev.port_numbers(&ports, -8).is_empty());
    dev.release(&mut refs);
}

#[test]
fn speed_codes_decode() {
    assert_eq!(speed_from_libusb(0), Speed::Unknown);
    assert_eq!(speed_from_libusb(1), Speed::Low);
    assert_eq!(speed_from_libusb(2), Speed::Full);
    assert_eq!(speed_from_libusb(3), Speed::High);
    assert_eq!(speed_from_libusb(4), Speed::Super);
    assert_eq!(speed_from_libusb(5), Speed::SuperPlus);
}

#[test]
fn unknown_speed_code_is_unknown() {
    let mut refs = RefCounts::new();
    let dev = make(&mut refs, 5);
    assert_eq!(dev.speed(42), Speed::Unknown);
    assert_eq!(dev.speed(-3), Speed::Unknown);
    assert_eq!(dev.speed(3), Speed::High);
    dev.release(&mut refs);
}

#[test]
fn status_codes_map_to_errors() {
    assert_eq!(query_error(-5), Error::NotFound);
    assert_eq!(query_error(-4), Error::HostQueryError(-4));
    assert_eq!(query_error(-99), Error::HostQueryError(-99));
    assert_eq!(open_error(-3), Error::AccessDenied);
    assert_eq!(open_error(-4), Error::NoDevice);
    assert_eq!(open_error(-5), Error::HostQueryError(-5));
    assert_eq!(open_error(-7), Error::HostQueryError(-7));
}

#[test]
fn config_with_extra_descriptor_is_ok() {
    let mut refs = RefCounts::new();
    let dev = make(&mut refs, 5);
    let raw: Vec<u8> = vec![9, 2, 12, 0, 0, 1, 0, 0x80, 0, 3, 9, 3];
    let c = dev.config_descriptor(0, 1, 0, &raw).unwrap();
    assert_eq!(c.extra, vec![3, 9, 3]);
    let c = dev.active_config_descriptor(0, &raw).unwrap();
    assert_eq!(c.to_bytes(), raw);
    dev.release(&mut refs);
}
