use vstd::prelude::*;

use crate::bytes::{
    hi_byte, le16, lemma_bytes_of_le16, lemma_le16_of_bytes, lo_byte, read_le16, write_le16,
};

verus! {

/// Size in bytes of a configuration descriptor's header.
pub const CONFIG_HEADER_LEN: usize = 9;
/// Size in bytes of an interface descriptor.
pub const INTERFACE_LEN: usize = 9;
/// Size in bytes of an endpoint descriptor.
pub const ENDPOINT_LEN: usize = 7;
/// Descriptor type of a configuration descriptor.
pub const CONFIG_TYPE: u8 = 2;
/// Descriptor type of an interface descriptor.
pub const INTERFACE_TYPE: u8 = 4;
/// Descriptor type of an endpoint descriptor.
pub const ENDPOINT_TYPE: u8 = 5;

/// How an endpoint moves data.
#[derive(Debug, Clone, Copy, PartialEq, Eq, Structural)]
pub enum TransferType {
    Control,
    Isochronous,
    Bulk,
    Interrupt,
}

/// Which way an endpoint moves data, seen from the host.
#[derive(Debug, Clone, Copy, PartialEq, Eq, Structural)]
pub enum Direction {
    In,
    Out,
}

/// A decoded endpoint descriptor, with the class- or vendor-specific descriptors that
/// follow it, as bytes.
#[derive(Debug, Clone, PartialEq, Eq)]
pub struct EndpointDescriptor {
    pub address: u8,
    pub attributes: u8,
    pub max_packet_size: u16,
    pub interval: u8,
    pub extra: Vec<u8>,
}

/// A decoded interface descriptor (one alternate setting), with the class- or
/// vendor-specific descriptors that follow it and its endpoints, in buffer order.
#[derive(Debug, Clone, PartialEq, Eq)]
pub struct InterfaceDescriptor {
    pub interface_number: u8,
    pub setting_number: u8,
    pub class_code: u8,
    pub sub_class_code: u8,
    pub protocol_code: u8,
    pub description_string_index: u8,
    pub extra: Vec<u8>,
    pub endpoints: Vec<EndpointDescriptor>,
}

/// A decoded configuration descriptor, with the class- or vendor-specific descriptors
/// that follow its header and its interfaces, in buffer order.
#[derive(Debug, Clone, PartialEq, Eq)]
pub struct ConfigDescriptor {
    pub total_length: u16,
    pub num_interfaces: u8,
    pub number: u8,
    pub description_string_index: u8,
    pub attributes: u8,
    pub max_power: u8,
    pub extra: Vec<u8>,
    pub interfaces: Vec<InterfaceDescriptor>,
}

/// A run of descriptors other than interface and endpoint descriptors, each led by its
/// own length (at least two) and its type.
pub open spec fn extra_ok(x: Seq<u8>) -> bool
    decreases x.len(),
{
    if x.len() == 0 {
        true
    } else if x.len() < 2 || x[0] < 2 || x[0] > x.len() || x[1] == INTERFACE_TYPE || x[1]
        == ENDPOINT_TYPE {
        false
    } else {
        extra_ok(x.subrange(x[0] as int, x.len() as int))
    }
}

/// Position `p` of `b` is where a run of extra descriptors stops: the end of the buffer,
/// or the start of an interface or endpoint descriptor.
pub open spec fn boundary(b: Seq<u8>, p: int) -> bool {
    p == b.len() || (p + 2 <= b.len() && (b[p + 1] == INTERFACE_TYPE || b[p + 1] == ENDPOINT_TYPE))
}

/// The fixed bytes of an endpoint descriptor.
pub open spec fn endpoint_header_bytes(e: EndpointDescriptor) -> Seq<u8> {
    seq![
        ENDPOINT_LEN as u8,
        ENDPOINT_TYPE,
        e.address,
        e.attributes,
        lo_byte(e.max_packet_size),
        hi_byte(e.max_packet_size),
        e.interval,
    ]
}

/// The bytes that encode an endpoint descriptor and its extra descriptors.
pub open spec fn endpoint_bytes(e: EndpointDescriptor) -> Seq<u8> {
    endpoint_header_bytes(e) + e.extra@
}

/// The bytes that encode a sequence of endpoint descriptors, one after another.
pub open spec fn endpoints_bytes(es: Seq<EndpointDescriptor>) -> Seq<u8>
    decreases es.len(),
{
    if es.len() == 0 {
        Seq::empty()
    } else {
        endpoints_bytes(es.drop_last()) + endpoint_bytes(es.last())
    }
}

/// The fixed bytes of an interface descriptor.
pub open spec fn interface_header_bytes(i: InterfaceDescriptor) -> Seq<u8> {
    seq![
        INTERFACE_LEN as u8,
        INTERFACE_TYPE,
        i.interface_number,
        i.setting_number,
        i.endpoints@.len() as u8,
        i.class_code,
        i.sub_class_code,
        i.protocol_code,
        i.description_string_index,
    ]
}

/// The bytes that encode an interface descriptor, its extra descriptors, then its
/// endpoints.
pub open spec fn interface_bytes(i: InterfaceDescriptor) -> Seq<u8> {
    interface_header_bytes(i) + i.extra@ + endpoints_bytes(i.endpoints@)
}

/// The bytes that encode a sequence of interfaces, one after another.
pub open spec fn interfaces_bytes(is: Seq<InterfaceDescriptor>) -> Seq<u8>
    decreases is.len(),
{
    if is.len() == 0 {
        Seq::empty()
    } else {
        interfaces_bytes(is.drop_last()) + interface_bytes(is.last())
    }
}

/// The header bytes of a configuration descriptor.
pub open spec fn config_header_bytes(c: ConfigDescriptor) -> Seq<u8> {
    seq![
        CONFIG_HEADER_LEN as u8,
        CONFIG_TYPE,
        lo_byte(c.total_length),
        hi_byte(c.total_length),
        c.num_interfaces,
        c.number,
        c.description_string_index,
        c.attributes,
        c.max_power,
    ]
}

/// The bytes that encode a configuration descriptor: its header, its extra
/// descriptors, then each interface with its endpoints.
pub open spec fn config_bytes(c: ConfigDescriptor) -> Seq<u8> {
    config_header_bytes(c) + c.extra@ + interfaces_bytes(c.interfaces@)
}

/// An endpoint whose extra bytes are a run of extra descriptors.
pub open spec fn endpoint_well_formed(e: EndpointDescriptor) -> bool {
    extra_ok(e.extra@)
}

/// An interface whose extra bytes are a run of extra descriptors, which counts its
/// endpoints in a byte, and whose endpoints are well formed.
pub open spec fn interface_well_formed(i: InterfaceDescriptor) -> bool {
    &&& extra_ok(i.extra@)
    &&& i.endpoints@.len() <= 255
    &&& forall|j: int| 0 <= j < i.endpoints@.len() ==> endpoint_well_formed(#[trigger] i.endpoints@[j])
}

/// A configuration record that its own encoding describes faithfully: the extra bytes
/// at every level are runs of extra descriptors, each interface counts its endpoints in
/// a byte, and the total length is the encoding's length.
pub open spec fn config_well_formed(c: ConfigDescriptor) -> bool {
    &&& extra_ok(c.extra@)
    &&& forall|i: int| 0 <= i < c.interfaces@.len() ==> interface_well_formed(#[trigger] c.interfaces@[i])
    &&& c.total_length as int == config_bytes(c).len()
}

/// A buffer that encodes some well-formed configuration record.
pub open spec fn config_encodes(b: Seq<u8>) -> bool {
    exists|c: ConfigDescriptor| config_well_formed(c) && #[trigger] config_bytes(c) == b
}

/// The transfer type that the low two bits of an endpoint's attributes give.
pub open spec fn transfer_type_of(attributes: u8) -> TransferType {
    let t = attributes % 4;
    if t == 0 {
        TransferType::Control
    } else if t == 1 {
        TransferType::Isochronous
    } else if t == 2 {
        TransferType::Bulk
    } else {
        TransferType::Interrupt
    }
}

impl EndpointDescriptor {
    /// The endpoint's number: the low four bits of its address.
    pub fn number(&self) -> (r: u8)
        ensures
            r == self.address % 16,
    {
        self.address % 16
    }

    /// The direction: `In` when the address's top bit is set.
    pub fn direction(&self) -> (r: Direction)
        ensures
            r == (if self.address >= 128 {
                Direction::In
            } else {
                Direction::Out
            }),
    {
        if self.address >= 128 {
            Direction::In
        } else {
            Direction::Out
        }
    }

    /// The transfer type, from the low two bits of the attributes.
    pub fn transfer_type(&self) -> (r: TransferType)
        ensures
            r == transfer_type_of(self.attributes),
    {
        let t = self.attributes % 4;
        if t == 0 {
            TransferType::Control
        } else if t == 1 {
            TransferType::Isochronous
        } else if t == 2 {
            TransferType::Bulk
        } else {
            TransferType::Interrupt
        }
    }
}

impl ConfigDescriptor {
    /// Whether the device powers itself in this configuration (attribute bit 6).
    pub fn self_powered(&self) -> (r: bool)
        ensures
            r == ((self.attributes / 64) % 2 == 1),
    {
        (self.attributes / 64) % 2 == 1
    }

    /// Whether the device can wake the host in this configuration (attribute bit 5).
    pub fn remote_wakeup(&self) -> (r: bool)
        ensures
            r == ((self.attributes / 32) % 2 == 1),
    {
        (self.attributes / 32) % 2 == 1
    }

    /// The most current the device draws in this configuration, in milliamperes (the
    /// descriptor counts units of 2 mA).
    pub fn max_power_ma(&self) -> (r: u16)
        ensures
            r == 2 * self.max_power,
    {
        2 * (self.max_power as u16)
    }
}

/// One more extra descriptor appended to a run of them leaves a run of them.
proof fn lemma_extra_append(x: Seq<u8>, d: Seq<u8>)
    requires
        extra_ok(x),
        d.len() >= 2,
        d[0] == d.len(),
        d[1] != INTERFACE_TYPE && d[1] != ENDPOINT_TYPE,
    ensures
        extra_ok(x + d),
    decreases x.len(),
{
    if x.len() == 0 {
        assert(x + d =~= d);
        assert(d.subrange(d[0] as int, d.len() as int) =~= Seq::<u8>::empty());
        assert(extra_ok(Seq::<u8>::empty()));
    } else {
        let l = x[0] as int;
        assert((x + d)[0] == x[0] && (x + d)[1] == x[1]);
        lemma_extra_append(x.subrange(l, x.len() as int), d);
        assert((x + d).subrange(l, (x + d).len() as int) =~= x.subrange(l, x.len() as int) + d);
    }
}

/// The encoding of the first `k` endpoints is followed by endpoint `k`'s encoding.
proof fn lemma_endpoints_prefix(es: Seq<EndpointDescriptor>, k: int)
    requires
        0 <= k < es.len(),
    ensures
        endpoints_bytes(es.take(k)).len() + endpoint_bytes(es[k]).len() <= endpoints_bytes(es).len(),
        endpoints_bytes(es).subrange(
            endpoints_bytes(es.take(k)).len() as int,
            (endpoints_bytes(es.take(k)).len() + endpoint_bytes(es[k]).len()) as int,
        ) == endpoint_bytes(es[k]),
    decreases es.len(),
{
    let d = es.drop_last();
    let lo = endpoints_bytes(es.take(k)).len() as int;
    let hi = lo + endpoint_bytes(es[k]).len();
    if k == es.len() - 1 {
        assert(es.take(k) =~= d);
        assert(endpoints_bytes(es).subrange(lo, hi) =~= endpoint_bytes(es[k]));
    } else {
        lemma_endpoints_prefix(d, k);
        assert(es.take(k) =~= d.take(k));
        assert(endpoints_bytes(es).subrange(lo, hi) =~= endpoints_bytes(d).subrange(lo, hi));
    }
}

/// How the encoding of the first `k` endpoints grows with `k`.
proof fn lemma_endpoints_grow(es: Seq<EndpointDescriptor>, k: int)
    requires
        0 <= k <= es.len(),
    ensures
        k == es.len() ==> endpoints_bytes(es.take(k)) == endpoints_bytes(es),
        k < es.len() ==> endpoints_bytes(es.take(k + 1)) == endpoints_bytes(es.take(k))
            + endpoint_bytes(es[k]),
{
    if k == es.len() {
        assert(es.take(k) =~= es);
    } else {
        assert(es.take(k + 1).drop_last() =~= es.take(k));
    }
}

/// The encoding of the first `k` interfaces is followed by interface `k`'s encoding.
proof fn lemma_interfaces_prefix(is: Seq<InterfaceDescriptor>, k: int)
    requires
        0 <= k < is.len(),
    ensures
        interfaces_bytes(is.take(k)).len() + interface_bytes(is[k]).len() <= interfaces_bytes(is).len(),
        interfaces_bytes(is).subrange(
            interfaces_bytes(is.take(k)).len() as int,
            (interfaces_bytes(is.take(k)).len() + interface_bytes(is[k]).len()) as int,
        ) == interface_bytes(is[k]),
    decreases is.len(),
{
    let d = is.drop_last();
    let lo = interfaces_bytes(is.take(k)).len() as int;
    let hi = lo + interface_bytes(is[k]).len();
    if k == is.len() - 1 {
        assert(is.take(k) =~= d);
        assert(interfaces_bytes(is).subrange(lo, hi) =~= interface_bytes(is[k]));
    } else {
        lemma_interfaces_prefix(d, k);
        assert(is.take(k) =~= d.take(k));
        assert(interfaces_bytes(is).subrange(lo, hi) =~= interfaces_bytes(d).subrange(lo, hi));
    }
}

/// How the encoding of the first `k` interfaces grows with `k`.
proof fn lemma_interfaces_grow(is: Seq<InterfaceDescriptor>, k: int)
    requires
        0 <= k <= is.len(),
    ensures
        k == is.len() ==> interfaces_bytes(is.take(k)) == interfaces_bytes(is),
        k < is.len() ==> interfaces_bytes(is.take(k + 1)) == interfaces_bytes(is.take(k))
            + interface_bytes(is[k]),
{
    if k == is.len() {
        assert(is.take(k) =~= is);
    } else {
        assert(is.take(k + 1).drop_last() =~= is.take(k));
    }
}

/// Copies `b[from..to]`.
fn copy_bytes(b: &[u8], from: usize, to: usize) -> (r: Vec<u8>)
    requires
        from <= to <= b@.len(),
    ensures
        r@ == b@.subrange(from as int, to as int),
{
    let mut r: Vec<u8> = Vec::new();
    let mut i = from;
    while i < to
        invariant
            from <= i <= to,
            to <= b@.len(),
            r@ == b@.subrange(from as int, i as int),
        decreases to - i,
    {
        r.push(b[i]);
        assert(r@ =~= b@.subrange(from as int, i + 1));
        i = i + 1;
    }
    r
}

/// Walks the extra descriptors that start at `pos`, up to the next interface or
/// endpoint descriptor or the end; returns where they stop. `want` is a run that the
/// caller expects there.
fn scan_extra(b: &[u8], pos: usize, Ghost(want): Ghost<Seq<u8>>) -> (r: Option<usize>)
    requires
        pos <= b@.len(),
    ensures
        r matches Some(end) ==> pos <= end <= b@.len() && extra_ok(b@.subrange(pos as int, end as int))
            && boundary(b@, end as int),
        pos + want.len() <= b@.len() && b@.subrange(pos as int, pos + want.len()) == want
            && extra_ok(want) && boundary(b@, pos + want.len()) ==> r == Some((pos + want.len()) as usize),
{
    let ghost expect = pos + want.len() <= b@.len() && b@.subrange(pos as int, pos + want.len())
        == want && extra_ok(want) && boundary(b@, pos + want.len());
    let ghost stop = pos + want.len();
    let len = b.len();
    let mut cur = pos;
    proof {
        assert(b@.subrange(pos as int, pos as int) =~= Seq::<u8>::empty());
    }
    while cur < len
        invariant
            len == b@.len(),
            pos <= cur <= len,
            extra_ok(b@.subrange(pos as int, cur as int)),
            stop == pos + want.len(),
            expect == (pos + want.len() <= b@.len() && b@.subrange(pos as int, pos + want.len())
                == want && extra_ok(want) && boundary(b@, pos + want.len())),
            expect ==> cur <= stop && extra_ok(b@.subrange(cur as int, stop)),
        decreases len - cur,
    {
        let ghost y = b@.subrange(cur as int, stop);
        proof {
            if expect && cur < stop {
                assert(y[0] == b@[cur as int] && y[1] == b@[cur + 1]);
            }
        }
        if len - cur < 2 {
            return None;
        }
        let t = b[cur + 1];
        if t == INTERFACE_TYPE || t == ENDPOINT_TYPE {
            return Some(cur);
        }
        let l = b[cur] as usize;
        if l < 2 || l > len - cur {
            return None;
        }
        proof {
            let d = b@.subrange(cur as int, cur + l);
            lemma_extra_append(b@.subrange(pos as int, cur as int), d);
            assert(b@.subrange(pos as int, cur as int) + d =~= b@.subrange(pos as int, cur + l));
            if expect {
                assert(y.subrange(l as int, y.len() as int) =~= b@.subrange(cur + l, stop));
            }
        }
        cur = cur + l;
    }
    Some(cur)
}

/// Decodes one endpoint descriptor and its extra descriptors at `pos`; returns it with
/// the position just past it. `want` is an endpoint that the caller expects there.
fn decode_endpoint(b: &[u8], pos: usize, Ghost(want): Ghost<EndpointDescriptor>) -> (r: Option<
    (EndpointDescriptor, usize),
>)
    requires
        pos <= b@.len(),
    ensures
        r matches Some((e, end)) ==> pos < end <= b@.len() && endpoint_bytes(e) == b@.subrange(
            pos as int,
            end as int,
        ) && endpoint_well_formed(e) && boundary(b@, end as int),
        endpoint_well_formed(want) && pos + endpoint_bytes(want).len() <= b@.len() && b@.subrange(
            pos as int,
            pos + endpoint_bytes(want).len(),
        ) == endpoint_bytes(want) && boundary(b@, pos + endpoint_bytes(want).len()) ==> (r matches Some(
            (_, end),
        ) && end == pos + endpoint_bytes(want).len()),
{
    let ghost eb = endpoint_bytes(want);
    let ghost expect = endpoint_well_formed(want) && pos + eb.len() <= b@.len() && b@.subrange(
        pos as int,
        pos + eb.len(),
    ) == eb && boundary(b@, pos + eb.len());
    proof {
        if expect {
            assert(b@[pos as int] == eb[0] && b@[pos + 1] == eb[1]);
            assert(b@.subrange(pos + ENDPOINT_LEN, pos + eb.len()) =~= eb.subrange(
                ENDPOINT_LEN as int,
                eb.len() as int,
            ));
            assert(eb.subrange(ENDPOINT_LEN as int, eb.len() as int) =~= want.extra@);
        }
    }
    if b.len() - pos < ENDPOINT_LEN || b[pos] != ENDPOINT_LEN as u8 || b[pos + 1] != ENDPOINT_TYPE {
        return None;
    }
    let start = pos + ENDPOINT_LEN;
    let end = match scan_extra(b, start, Ghost(want.extra@)) {
        Some(end) => end,
        None => {
            return None;
        },
    };
    let e = EndpointDescriptor {
        address: b[pos + 2],
        attributes: b[pos + 3],
        max_packet_size: read_le16(b[pos + 4], b[pos + 5]),
        interval: b[pos + 6],
        extra: copy_bytes(b, start, end),
    };
    proof {
        lemma_bytes_of_le16(b@[pos + 4], b@[pos + 5]);
        assert(endpoint_header_bytes(e) =~= b@.subrange(pos as int, start as int));
        assert(b@.subrange(pos as int, start as int) + b@.subrange(start as int, end as int)
            =~= b@.subrange(pos as int, end as int));
    }
    Some((e, end))
}

/// Decodes one interface descriptor, its extra descriptors and the endpoints that follow
/// it, starting at `pos`; returns it with the position just past it. `want` is an
/// interface that the caller expects there.
fn decode_interface(b: &[u8], pos: usize, Ghost(want): Ghost<InterfaceDescriptor>) -> (r: Option<
    (InterfaceDescriptor, usize),
>)
    requires
        pos <= b@.len(),
    ensures
        r matches Some((i, end)) ==> pos < end <= b@.len() && interface_bytes(i) == b@.subrange(
            pos as int,
            end as int,
        ) && interface_well_formed(i),
        interface_well_formed(want) && pos + interface_bytes(want).len() <= b@.len()
            && b@.subrange(pos as int, pos + interface_bytes(want).len()) == interface_bytes(want)
            && boundary(b@, pos + interface_bytes(want).len()) ==> (r matches Some((_, e)) && e
            == pos + interface_bytes(want).len()),
{
    let ghost ib = interface_bytes(want);
    let ghost es = want.endpoints@;
    let ghost estart = pos + INTERFACE_LEN + want.extra@.len();
    let ghost expect = interface_well_formed(want) && pos + ib.len() <= b@.len() && b@.subrange(
        pos as int,
        pos + ib.len(),
    ) == ib && boundary(b@, pos + ib.len());
    proof {
        if expect {
            assert(b@[pos as int] == ib[0]);
            assert(b@[pos + 1] == ib[1]);
            assert(b@[pos + 4] == ib[4]);
            assert(b@.subrange(pos + INTERFACE_LEN, estart) =~= ib.subrange(
                INTERFACE_LEN as int,
                INTERFACE_LEN + want.extra@.len(),
            ));
            assert(ib.subrange(INTERFACE_LEN as int, INTERFACE_LEN + want.extra@.len()) =~= want.extra@);
            assert(b@.subrange(estart, pos + ib.len()) =~= ib.subrange(
                INTERFACE_LEN + want.extra@.len(),
                ib.len() as int,
            ));
            assert(ib.subrange(INTERFACE_LEN + want.extra@.len(), ib.len() as int) =~= endpoints_bytes(es));
            if es.len() > 0 {
                lemma_endpoints_prefix(es, 0);
                assert(es.take(0) =~= Seq::<EndpointDescriptor>::empty());
                let e0 = endpoint_bytes(es[0]);
                assert(endpoints_bytes(es).subrange(0, e0.len() as int)[1] == e0[1]);
                assert(b@[estart + 1] == endpoints_bytes(es)[1]);
            } else {
                assert(estart == pos + ib.len());
            }
        }
    }
    if b.len() - pos < INTERFACE_LEN || b[pos] != INTERFACE_LEN as u8 || b[pos + 1]
        != INTERFACE_TYPE {
        return None;
    }
    let n = b[pos + 4];
    let extra_start = pos + INTERFACE_LEN;
    let start = match scan_extra(b, extra_start, Ghost(want.extra@)) {
        Some(end) => end,
        None => {
            return None;
        },
    };
    let extra = copy_bytes(b, extra_start, start);
    let mut endpoints: Vec<EndpointDescriptor> = Vec::new();
    let mut cur = start;
    let mut k: u8 = 0;
    let len = b.len();
    proof {
        if expect {
            assert(es.take(0) =~= Seq::<EndpointDescriptor>::empty());
        }
    }
    while k < n
        invariant
            len == b@.len(),
            start <= cur <= b@.len(),
            k <= n,
            endpoints@.len() == k,
            endpoints_bytes(endpoints@) == b@.subrange(start as int, cur as int),
            forall|j: int| 0 <= j < endpoints@.len() ==> endpoint_well_formed(#[trigger] endpoints@[j]),
            boundary(b@, cur as int),
            es == want.endpoints@,
            ib == interface_bytes(want),
            estart == pos + INTERFACE_LEN + want.extra@.len(),
            ib.len() == INTERFACE_LEN + want.extra@.len() + endpoints_bytes(es).len(),
            expect == (interface_well_formed(want) && pos + ib.len() <= b@.len() && b@.subrange(
                pos as int,
                pos + ib.len(),
            ) == ib && boundary(b@, pos + ib.len())),
            expect ==> n as int == es.len() && start == estart && cur == estart + endpoints_bytes(
                es.take(k as int),
            ).len() && b@.subrange(estart, pos + ib.len()) == endpoints_bytes(es),
        decreases n - k,
    {
        let ghost want_e = if expect {
            es[k as int]
        } else {
            vstd::pervasive::arbitrary()
        };
        proof {
            if expect {
                let kk = k as int;
                lemma_endpoints_prefix(es, kk);
                lemma_endpoints_grow(es, kk);
                lemma_endpoints_grow(es, kk + 1);
                let all = endpoints_bytes(es);
                let lo = endpoints_bytes(es.take(kk)).len() as int;
                let hi = lo + endpoint_bytes(es[kk]).len();
                let whole = b@.subrange(estart, pos + ib.len());
                assert(whole == all);
                assert(all.len() == pos + ib.len() - estart);
                assert(hi <= all.len());
                assert(cur == estart + lo);
                assert(endpoints_bytes(es.take(kk + 1)).len() == hi);
                assert forall|t: int| 0 <= t < hi - lo implies #[trigger] b@[cur + t] == all.subrange(lo, hi)[t] by {
                    assert(whole[lo + t] == b@[estart + lo + t]);
                }
                assert(b@.subrange(cur as int, cur + endpoint_bytes(want_e).len()) =~= all.subrange(lo, hi));
                assert(endpoint_well_formed(es[kk]));
                if kk + 1 < es.len() {
                    lemma_endpoints_prefix(es, kk + 1);
                    let nb = endpoint_bytes(es[kk + 1]);
                    assert(all.subrange(hi, hi + nb.len())[1] == nb[1]);
                    assert(whole[hi + 1] == b@[estart + hi + 1]);
                } else {
                    assert(es.take(kk + 1) =~= es);
                }
            }
        }
        let decoded = decode_endpoint(b, cur, Ghost(want_e));
        match decoded {
            Some((e, end)) => {
                let ghost before = endpoints@;
                endpoints.push(e);
                proof {
                    assert(endpoints@.drop_last() =~= before);
                    assert(b@.subrange(start as int, cur as int) + b@.subrange(cur as int, end as int)
                        =~= b@.subrange(start as int, end as int));
                }
                cur = end;
                k = k + 1;
            },
            None => {
                return None;
            },
        }
    }
    let i = InterfaceDescriptor {
        interface_number: b[pos + 2],
        setting_number: b[pos + 3],
        class_code: b[pos + 5],
        sub_class_code: b[pos + 6],
        protocol_code: b[pos + 7],
        description_string_index: b[pos + 8],
        extra,
        endpoints,
    };
    proof {
        if expect {
            lemma_endpoints_grow(es, es.len() as int);
        }
        assert(interface_header_bytes(i) =~= b@.subrange(pos as int, extra_start as int));
        assert(b@.subrange(pos as int, extra_start as int) + b@.subrange(extra_start as int, start as int)
            + b@.subrange(start as int, cur as int) =~= b@.subrange(pos as int, cur as int));
        assert(interface_bytes(i) =~= b@.subrange(pos as int, cur as int));
    }
    Some((i, cur))
}

/// Decodes a configuration descriptor buffer into an owned record: the header, the
/// extra descriptors after it, then its interfaces, each with its extra descriptors and
/// its endpoints, in buffer order. `Some` exactly when the buffer encodes a well-formed
/// record; then encoding the record gives back the buffer exactly.
pub fn from_libusb(b: &[u8]) -> (r: Option<ConfigDescriptor>)
    ensures
        r is Some <==> config_encodes(b@),
        r matches Some(c) ==> config_bytes(c) == b@ && config_well_formed(c),
{
    let ghost has = config_encodes(b@);
    let ghost c0 = choose|c: ConfigDescriptor| config_well_formed(c) && config_bytes(c) == b@;
    let ghost cs = c0.interfaces@;
    let ghost istart = CONFIG_HEADER_LEN + c0.extra@.len();
    proof {
        if has {
            let hb = config_header_bytes(c0);
            assert(b@[0] == hb[0]);
            assert(b@[1] == hb[1]);
            assert(b@[2] == hb[2]);
            assert(b@[3] == hb[3]);
            lemma_le16_of_bytes(c0.total_length);
            assert(b@.subrange(CONFIG_HEADER_LEN as int, istart) =~= c0.extra@);
            assert(b@.subrange(istart, b@.len() as int) =~= interfaces_bytes(cs));
            lemma_interfaces_grow(cs, 0);
            assert(cs.take(0) =~= Seq::<InterfaceDescriptor>::empty());
            if cs.len() > 0 {
                lemma_interfaces_prefix(cs, 0);
                let i0 = interface_bytes(cs[0]);
                assert(interfaces_bytes(cs).subrange(0, i0.len() as int)[1] == i0[1]);
                assert(b@[istart + 1] == interfaces_bytes(cs)[1]);
            } else {
                lemma_interfaces_grow(cs, 0);
            }
        }
    }
    if b.len() < CONFIG_HEADER_LEN || b[0] != CONFIG_HEADER_LEN as u8 || b[1] != CONFIG_TYPE {
        return None;
    }
    let total_length = read_le16(b[2], b[3]);
    if total_length as usize != b.len() {
        return None;
    }
    let start = match scan_extra(b, CONFIG_HEADER_LEN, Ghost(c0.extra@)) {
        Some(end) => end,
        None => {
            return None;
        },
    };
    let extra = copy_bytes(b, CONFIG_HEADER_LEN, start);
    let mut interfaces: Vec<InterfaceDescriptor> = Vec::new();
    let mut pos = start;
    while pos < b.len()
        invariant
            start <= pos <= b@.len(),
            interfaces_bytes(interfaces@) == b@.subrange(start as int, pos as int),
            forall|i: int| 0 <= i < interfaces@.len() ==> interface_well_formed(#[trigger] interfaces@[i]),
            cs == c0.interfaces@,
            has == config_encodes(b@),
            has ==> c0.total_length as int == b@.len() && config_well_formed(c0) && start == istart
                && b@.subrange(istart, b@.len() as int) == interfaces_bytes(cs),
            has ==> interfaces@.len() <= cs.len() && pos == istart + interfaces_bytes(
                cs.take(interfaces@.len() as int),
            ).len(),
        decreases b@.len() - pos,
    {
        let ghost k = interfaces@.len() as int;
        let ghost want = if has && k < cs.len() {
            cs[k]
        } else {
            vstd::pervasive::arbitrary()
        };
        proof {
            if has {
                lemma_interfaces_grow(cs, k);
                assert(k < cs.len());
                lemma_interfaces_prefix(cs, k);
                lemma_interfaces_grow(cs, k + 1);
                let all = interfaces_bytes(cs);
                let lo = interfaces_bytes(cs.take(k)).len() as int;
                let hi = lo + interface_bytes(cs[k]).len();
                assert(b@.subrange(pos as int, pos + interface_bytes(want).len()) =~= all.subrange(lo, hi));
                assert(interface_well_formed(cs[k]));
                if k + 1 < cs.len() {
                    lemma_interfaces_prefix(cs, k + 1);
                    let nb = interface_bytes(cs[k + 1]);
                    assert(all.subrange(hi, hi + nb.len())[1] == nb[1]);
                    assert(b@[istart + hi + 1] == all[hi + 1]);
                } else {
                    assert(cs.take(k + 1) =~= cs);
                }
            }
        }
        let decoded = decode_interface(b, pos, Ghost(want));
        match decoded {
            Some((i, end)) => {
                let ghost before = interfaces@;
                interfaces.push(i);
                proof {
                    assert(interfaces@.drop_last() =~= before);
                    assert(b@.subrange(start as int, pos as int) + b@.subrange(pos as int, end as int)
                        =~= b@.subrange(start as int, end as int));
                }
                pos = end;
            },
            None => {
                return None;
            },
        }
    }
    let c = ConfigDescriptor {
        total_length,
        num_interfaces: b[4],
        number: b[5],
        description_string_index: b[6],
        attributes: b[7],
        max_power: b[8],
        extra,
        interfaces,
    };
    proof {
        lemma_bytes_of_le16(b@[2], b@[3]);
        assert(config_header_bytes(c) =~= b@.subrange(0, CONFIG_HEADER_LEN as int));
        assert(b@.subrange(0, CONFIG_HEADER_LEN as int) + b@.subrange(CONFIG_HEADER_LEN as int, start as int)
            + b@.subrange(start as int, b@.len() as int) =~= b@);
        assert(config_well_formed(c) && config_bytes(c) == b@ ==> config_encodes(b@));
    }
    Some(c)
}

/// Appends bytes.
fn push_all(out: &mut Vec<u8>, bytes: &Vec<u8>)
    ensures
        final(out)@ == old(out)@ + bytes@,
{
    let ghost head = out@;
    let mut k: usize = 0;
    while k < bytes.len()
        invariant
            k <= bytes@.len(),
            out@ == head + bytes@.take(k as int),
        decreases bytes@.len() - k,
    {
        out.push(bytes[k]);
        assert(out@ =~= head + bytes@.take(k + 1));
        k = k + 1;
    }
    assert(bytes@.take(k as int) =~= bytes@);
}

/// Appends the bytes of one endpoint descriptor.
fn push_endpoint(out: &mut Vec<u8>, e: &EndpointDescriptor)
    ensures
        final(out)@ == old(out)@ + endpoint_bytes(*e),
{
    let mps = write_le16(e.max_packet_size);
    out.push(ENDPOINT_LEN as u8);
    out.push(ENDPOINT_TYPE);
    out.push(e.address);
    out.push(e.attributes);
    out.push(mps.0);
    out.push(mps.1);
    out.push(e.interval);
    assert(out@ =~= old(out)@ + endpoint_header_bytes(*e));
    push_all(out, &e.extra);
    assert(final(out)@ =~= old(out)@ + endpoint_bytes(*e));
}

/// Appends the bytes of one interface descriptor and its endpoints.
fn push_interface(out: &mut Vec<u8>, i: &InterfaceDescriptor)
    ensures
        final(out)@ == old(out)@ + interface_bytes(*i),
{
    out.push(INTERFACE_LEN as u8);
    out.push(INTERFACE_TYPE);
    out.push(i.interface_number);
    out.push(i.setting_number);
    out.push(#[verifier::truncate] (i.endpoints.len() as u8));
    out.push(i.class_code);
    out.push(i.sub_class_code);
    out.push(i.protocol_code);
    out.push(i.description_string_index);
    assert(out@ =~= old(out)@ + interface_header_bytes(*i));
    push_all(out, &i.extra);
    let ghost head = out@;
    let mut k: usize = 0;
    while k < i.endpoints.len()
        invariant
            k <= i.endpoints@.len(),
            out@ == head + endpoints_bytes(i.endpoints@.take(k as int)),
        decreases i.endpoints@.len() - k,
    {
        let ghost before = out@;
        push_endpoint(out, &i.endpoints[k]);
        proof {
            let t = i.endpoints@.take(k + 1);
            assert(t.drop_last() =~= i.endpoints@.take(k as int));
            assert(t.last() == i.endpoints@[k as int]);
            assert(out@ =~= head + endpoints_bytes(t));
        }
        k = k + 1;
    }
    assert(i.endpoints@.take(k as int) =~= i.endpoints@);
    assert(out@ =~= old(out)@ + interface_bytes(*i));
}

impl ConfigDescriptor {
    /// Encodes the configuration descriptor: its header and extra descriptors, then each
    /// interface followed by its extra descriptors and its endpoints, in order.
    pub fn to_bytes(&self) -> (r: Vec<u8>)
        ensures
            r@ == config_bytes(*self),
    {
        let total = write_le16(self.total_length);
        let mut out: Vec<u8> = Vec::new();
        out.push(CONFIG_HEADER_LEN as u8);
        out.push(CONFIG_TYPE);
        out.push(total.0);
        out.push(total.1);
        out.push(self.num_interfaces);
        out.push(self.number);
        out.push(self.description_string_index);
        out.push(self.attributes);
        out.push(self.max_power);
        assert(out@ =~= config_header_bytes(*self));
        push_all(&mut out, &self.extra);
        let mut k: usize = 0;
        while k < self.interfaces.len()
            invariant
                k <= self.interfaces@.len(),
                out@ == config_header_bytes(*self) + self.extra@ + interfaces_bytes(
                    self.interfaces@.take(k as int),
                ),
            decreases self.interfaces@.len() - k,
        {
            push_interface(&mut out, &self.interfaces[k]);
            proof {
                let t = self.interfaces@.take(k + 1);
                assert(t.drop_last() =~= self.interfaces@.take(k as int));
                assert(t.last() == self.interfaces@[k as int]);
                assert(out@ =~= config_header_bytes(*self) + self.extra@ + interfaces_bytes(t));
            }
            k = k + 1;
        }
        assert(self.interfaces@.take(k as int) =~= self.interfaces@);
        out
    }
}

} // verus!
