use neighdns::addr::{if_ipv4_in_private_subnet, if_ipv6_in_private_subnet, IpAddress};
use neighdns::neigh::{
    classify, collect_hosts, format_mac, is_multicast_or_broadcast_route_type, EventKind,
    NeighbourField, RawNeighbourEvent, ReachabilityState, RouteKind,
};
use neighdns::nl_mgrp;

fn event(
    state: ReachabilityState,
    route_kind: RouteKind,
    attributes: Vec<NeighbourField>,
) -> RawNeighbourEvent {
    RawNeighbourEvent {
        kind: EventKind::New,
        ifindex: 2,
        state,
        route_kind,
        attributes,
    }
}

#[test]
fn ipv4_private_ranges() {
    assert!(if_ipv4_in_private_subnet(&[10, 0, 0, 1]));
    assert!(if_ipv4_in_private_subnet(&[10, 255, 255, 255]));
    assert!(if_ipv4_in_private_subnet(&[172, 16, 0, 1]));
    assert!(if_ipv4_in_private_subnet(&[172, 31, 255, 255]));
    assert!(if_ipv4_in_private_subnet(&[192, 168, 1, 50]));
    assert!(if_ipv4_in_private_subnet(&[127, 0, 0, 1]));
}

#[test]
fn ipv4_public_addresses() {
    assert!(!if_ipv4_in_private_subnet(&[8, 8, 8, 8]));
    assert!(!if_ipv4_in_private_subnet(&[11, 0, 0, 1]));
    assert!(!if_ipv4_in_private_subnet(&[172, 15, 255, 255]));
    assert!(!if_ipv4_in_private_subnet(&[172, 32, 0, 1]));
    assert!(!if_ipv4_in_private_subnet(&[192, 169, 0, 1]));
    assert!(!if_ipv4_in_private_subnet(&[128, 0, 0, 1]));
}

#[test]
fn ipv6_private_ranges() {
    assert!(if_ipv6_in_private_subnet(&[0xfc00, 0, 0, 0, 0, 0, 0, 1]));
    assert!(if_ipv6_in_private_subnet(&[0xfd12, 0x3456, 0, 0, 0, 0, 0, 1]));
    assert!(if_ipv6_in_private_subnet(&[0xfe80, 0, 0, 0, 0, 0, 0, 1]));
    assert!(if_ipv6_in_private_subnet(&[0xfebf, 0xffff, 0, 0, 0, 0, 0, 1]));
}

#[test]
fn ipv6_public_addresses() {
    assert!(!if_ipv6_in_private_subnet(&[0x2001, 0xdb8, 0, 0, 0, 0, 0, 1]));
    assert!(!if_ipv6_in_private_subnet(&[0xfe00, 0, 0, 0, 0, 0, 0, 1]));
    assert!(!if_ipv6_in_private_subnet(&[0xfec0, 0, 0, 0, 0, 0, 0, 1]));
}

#[test]
fn format_mac_six_bytes() {
    let s = format_mac(vec![0xaa, 0xbb, 0xcc, 0xdd, 0xee, 0xff]);
    assert_eq!(s, "aa:bb:cc:dd:ee:ff");
}

#[test]
fn format_mac_edges() {
    assert_eq!(format_mac(vec![]), "");
    assert_eq!(format_mac(vec![0x07]), "07");
    assert_eq!(format_mac(vec![0x00, 0x11, 0x22, 0x33, 0x44, 0x55]), "00:11:22:33:44:55");
}

#[test]
fn classify_rejects_permanent() {
    let ev = event(
        ReachabilityState::Permanent,
        RouteKind::Unicast,
        vec![
            NeighbourField::Destination(IpAddress::V4([192, 168, 1, 50])),
            NeighbourField::LinkLayerAddress(vec![0, 0x11, 0x22, 0x33, 0x44, 0x55]),
        ],
    );
    assert!(classify(&ev, false).is_none());
}

#[test]
fn classify_rejects_missing_destination() {
    let ev = event(
        ReachabilityState::Reachable,
        RouteKind::Unicast,
        vec![NeighbourField::LinkLayerAddress(vec![0, 0x11, 0x22, 0x33, 0x44, 0x55])],
    );
    assert!(classify(&ev, false).is_none());
}

#[test]
fn classify_rejects_missing_link_layer_address() {
    let ev = event(
        ReachabilityState::Reachable,
        RouteKind::Unicast,
        vec![NeighbourField::Destination(IpAddress::V4([192, 168, 1, 50]))],
    );
    assert!(classify(&ev, false).is_none());
}

#[test]
fn classify_applies_private_subnet_policy() {
    let attrs = vec![
        NeighbourField::Destination(IpAddress::V4([8, 8, 8, 8])),
        NeighbourField::LinkLayerAddress(vec![0, 0x11, 0x22, 0x33, 0x44, 0x55]),
    ];
    let ev = event(ReachabilityState::Reachable, RouteKind::Unicast, attrs.clone());
    assert!(classify(&ev, true).is_none());
    assert!(classify(&ev, false).is_some());
}

#[test]
fn classify_extracts_fields() {
    let ev = event(
        ReachabilityState::Reachable,
        RouteKind::Unicast,
        vec![
            NeighbourField::Other,
            NeighbourField::Destination(IpAddress::V4([192, 168, 1, 50])),
            NeighbourField::LinkLayerAddress(vec![0, 0x11, 0x22, 0x33, 0x44, 0x55]),
        ],
    );
    let rec = classify(&ev, true).unwrap();
    assert_eq!(rec.ifindex, 2);
    assert_eq!(rec.state, ReachabilityState::Reachable);
    assert_eq!(rec.kind, RouteKind::Unicast);
    assert_eq!(rec.inet, IpAddress::V4([192, 168, 1, 50]));
    assert_eq!(rec.mac, "00:11:22:33:44:55");
}

#[test]
fn group_route_kinds() {
    assert!(is_multicast_or_broadcast_route_type(RouteKind::Multicast));
    assert!(is_multicast_or_broadcast_route_type(RouteKind::Broadcast));
    assert!(!is_multicast_or_broadcast_route_type(RouteKind::Unicast));
    assert!(!is_multicast_or_broadcast_route_type(RouteKind::Local));
}

#[test]
fn collect_hosts_filters_group_addresses() {
    let lla = vec![0, 0x11, 0x22, 0x33, 0x44, 0x55];
    let events = vec![
        event(
            ReachabilityState::Reachable,
            RouteKind::Unicast,
            vec![
                NeighbourField::Destination(IpAddress::V4([192, 168, 1, 50])),
                NeighbourField::LinkLayerAddress(lla.clone()),
            ],
        ),
        event(
            ReachabilityState::Reachable,
            RouteKind::Broadcast,
            vec![
                NeighbourField::Destination(IpAddress::V4([192, 168, 1, 255])),
                NeighbourField::LinkLayerAddress(vec![0xff; 6]),
            ],
        ),
        event(ReachabilityState::Permanent, RouteKind::Unicast, vec![]),
    ];
    let hosts = collect_hosts(events, true);
    assert_eq!(hosts.len(), 1);
    assert_eq!(hosts[0].inet, IpAddress::V4([192, 168, 1, 50]));
}

#[test]
fn nl_mgrp_values() {
    assert_eq!(nl_mgrp(0), 0);
    assert_eq!(nl_mgrp(1), 1);
    assert_eq!(nl_mgrp(3), 4);
    assert_eq!(nl_mgrp(31), 1 << 30);
}
