use neighdns::addr::IpAddress;
use neighdns::dns::{name_from_hostname, synthesize, DnsResourceRecord};
use neighdns::neigh::{NeighbourRecord, ReachabilityState, RouteKind};

fn neighbour(inet: IpAddress) -> NeighbourRecord {
    NeighbourRecord {
        ifindex: 2,
        state: ReachabilityState::Reachable,
        kind: RouteKind::Unicast,
        inet,
        mac: String::from("00:11:22:33:44:55"),
    }
}

#[test]
fn hostname_splits_into_labels() {
    let labels = name_from_hostname(&b"toaster.lan".to_vec()).unwrap();
    assert_eq!(labels, vec![b"toaster".to_vec(), b"lan".to_vec()]);
}

#[test]
fn hostname_rejects_bad_labels() {
    assert!(name_from_hostname(&b"".to_vec()).is_none());
    assert!(name_from_hostname(&b".lan".to_vec()).is_none());
    assert!(name_from_hostname(&b"toaster.".to_vec()).is_none());
    assert!(name_from_hostname(&b"a..b".to_vec()).is_none());
    assert!(name_from_hostname(&vec![b'x'; 64]).is_none());
    assert!(name_from_hostname(&vec![b'x'; 63]).is_some());
}

#[test]
fn synthesize_a_record() {
    let rec = synthesize(&neighbour(IpAddress::V4([192, 168, 1, 50])), "toaster.lan", 3600)
        .unwrap();
    assert_eq!(rec.name, vec![b"toaster".to_vec(), b"lan".to_vec()]);
    assert_eq!(rec.rtype, 1);
    assert_eq!(rec.class, 1);
    assert_eq!(rec.ttl, 3600);
    assert_eq!(rec.rdata, vec![192, 168, 1, 50]);
}

#[test]
fn synthesize_aaaa_record() {
    let rec = synthesize(
        &neighbour(IpAddress::V6([0xfe80, 0, 0, 0, 0x1234, 0x5678, 0x9abc, 0xdef0])),
        "cam.iot",
        60,
    )
    .unwrap();
    assert_eq!(rec.rtype, 28);
    assert_eq!(
        rec.rdata,
        vec![
            0xfe, 0x80, 0, 0, 0, 0, 0, 0, 0x12, 0x34, 0x56, 0x78, 0x9a, 0xbc, 0xde, 0xf0
        ]
    );
}

#[test]
fn synthesize_rejects_bad_hostname() {
    assert!(synthesize(&neighbour(IpAddress::V4([10, 0, 0, 1])), "bad..name", 60).is_none());
}

#[test]
fn encode_exact_wire_bytes() {
    let rec = synthesize(&neighbour(IpAddress::V4([192, 168, 1, 50])), "toaster.lan", 3600)
        .unwrap();
    let bytes = rec.encode();
    let mut expected: Vec<u8> = Vec::new();
    expected.push(7);
    expected.extend_from_slice(b"toaster");
    expected.push(3);
    expected.extend_from_slice(b"lan");
    expected.push(0);
    expected.extend_from_slice(&[0, 1]); // TYPE A
    expected.extend_from_slice(&[0, 1]); // CLASS IN
    expected.extend_from_slice(&[0, 0, 0x0e, 0x10]); // TTL 3600
    expected.extend_from_slice(&[0, 4]); // RDLENGTH
    expected.extend_from_slice(&[192, 168, 1, 50]);
    assert_eq!(bytes, expected);
}

#[test]
fn round_trip_a_record() {
    let rec = synthesize(&neighbour(IpAddress::V4([192, 168, 1, 50])), "toaster.lan", 3600)
        .unwrap();
    let bytes = rec.encode();
    let back = DnsResourceRecord::decode(&bytes).unwrap();
    assert_eq!(back.name, rec.name);
    assert_eq!(back.rtype, rec.rtype);
    assert_eq!(back.class, rec.class);
    assert_eq!(back.ttl, rec.ttl);
    assert_eq!(back.rdata, rec.rdata);
}

#[test]
fn round_trip_aaaa_record() {
    let rec = synthesize(
        &neighbour(IpAddress::V6([0xfd12, 0x3456, 0, 0, 0, 0, 0, 9])),
        "cam.example.iot",
        86400,
    )
    .unwrap();
    let bytes = rec.encode();
    let back = DnsResourceRecord::decode(&bytes).unwrap();
    assert_eq!(back.name, rec.name);
    assert_eq!(back.rtype, rec.rtype);
    assert_eq!(back.class, rec.class);
    assert_eq!(back.ttl, rec.ttl);
    assert_eq!(back.rdata, rec.rdata);
}

#[test]
fn decode_rejects_malformed_bytes() {
    // empty input
    assert!(DnsResourceRecord::decode(&vec![]).is_none());
    // a compressed-name pointer, which the plain record form does not use
    assert!(DnsResourceRecord::decode(&vec![0xc0, 0x04]).is_none());
    // truncated after the name
    assert!(DnsResourceRecord::decode(&vec![1, b'a', 0]).is_none());
    // rdata length larger than what follows
    assert!(
        DnsResourceRecord::decode(&vec![1, b'a', 0, 0, 1, 0, 1, 0, 0, 0, 60, 0, 4, 10, 0])
            .is_none()
    );
    // trailing bytes past the rdata
    assert!(
        DnsResourceRecord::decode(&vec![
            1, b'a', 0, 0, 1, 0, 1, 0, 0, 0, 60, 0, 1, 10, 99
        ])
        .is_none()
    );
}
