use vstd::prelude::*;
use vstd::string::StringExecFns;

use crate::addr::{IpAddress, ip_in_private_subnet, spec_ip_private};

verus! {

/// Kernel-tracked confidence level for a neighbour-table entry.
#[derive(Clone, Copy, Debug, PartialEq, Eq, Structural)]
pub enum ReachabilityState {
    Incomplete,
    Reachable,
    Stale,
    Delay,
    Probe,
    Failed,
    NoArp,
    Permanent,
    Unset,
}

/// Classification of a neighbour-table entry by destination address type.
#[derive(Clone, Copy, Debug, PartialEq, Eq, Structural)]
pub enum RouteKind {
    Unspec,
    Unicast,
    Local,
    Broadcast,
    Anycast,
    Multicast,
    Other,
}

/// Whether a raw event announced a new entry or removed one.
#[derive(Clone, Copy, Debug, PartialEq, Eq, Structural)]
pub enum EventKind {
    New,
    Delete,
}

/// One attribute attached to a raw neighbour message.
#[derive(Clone, Debug)]
pub enum NeighbourField {
    Destination(IpAddress),
    LinkLayerAddress(Vec<u8>),
    Other,
}

/// A raw neighbour-table change event, as handed in by the feed:
/// header fields plus the attribute list in message order.
#[derive(Clone, Debug)]
pub struct RawNeighbourEvent {
    pub kind: EventKind,
    pub ifindex: u32,
    pub state: ReachabilityState,
    pub route_kind: RouteKind,
    pub attributes: Vec<NeighbourField>,
}

/// A neighbour accepted by the classifier, with the link-layer address
/// rendered as colon-separated lowercase hex.
#[derive(Clone, Debug)]
pub struct NeighbourRecord {
    pub ifindex: u32,
    pub state: ReachabilityState,
    pub kind: RouteKind,
    pub inet: IpAddress,
    pub mac: String,
}

/// Mathematical image of a `NeighbourRecord`.
pub struct NeighbourView {
    pub ifindex: u32,
    pub state: ReachabilityState,
    pub kind: RouteKind,
    pub inet: IpAddress,
    pub mac: Seq<char>,
}

impl View for NeighbourRecord {
    type V = NeighbourView;

    open spec fn view(&self) -> NeighbourView {
        NeighbourView {
            ifindex: self.ifindex,
            state: self.state,
            kind: self.kind,
            inet: self.inet,
            mac: self.mac@,
        }
    }
}

/// The first destination-address attribute of the list, if any.
pub open spec fn first_destination(attrs: Seq<NeighbourField>) -> Option<IpAddress>
    decreases attrs.len(),
{
    if attrs.len() == 0 {
        Option::None
    } else {
        match attrs[0] {
            NeighbourField::Destination(a) => Option::Some(a),
            _ => first_destination(attrs.drop_first()),
        }
    }
}

/// The first link-layer-address attribute of the list, if any.
pub open spec fn first_link_layer(attrs: Seq<NeighbourField>) -> Option<Seq<u8>>
    decreases attrs.len(),
{
    if attrs.len() == 0 {
        Option::None
    } else {
        match attrs[0] {
            NeighbourField::LinkLayerAddress(m) => Option::Some(m@),
            _ => first_link_layer(attrs.drop_first()),
        }
    }
}

/// The hex digit for a value below sixteen.
pub open spec fn hex_char(n: int) -> char {
    if n == 0 { '0' } else if n == 1 { '1' } else if n == 2 { '2' } else if n == 3 { '3' }
    else if n == 4 { '4' } else if n == 5 { '5' } else if n == 6 { '6' } else if n == 7 { '7' }
    else if n == 8 { '8' } else if n == 9 { '9' } else if n == 10 { 'a' } else if n == 11 { 'b' }
    else if n == 12 { 'c' } else if n == 13 { 'd' } else if n == 14 { 'e' } else { 'f' }
}

/// The colon-separated lowercase hex rendering of a byte sequence:
/// two digits per byte, one `:` between adjacent bytes.
pub open spec fn mac_chars(bytes: Seq<u8>) -> Seq<char>
    decreases bytes.len(),
{
    if bytes.len() == 0 {
        Seq::empty()
    } else if bytes.len() == 1 {
        seq![hex_char(bytes[0] as int / 16), hex_char(bytes[0] as int % 16)]
    } else {
        mac_chars(bytes.drop_last()) + seq![
            ':',
            hex_char(bytes.last() as int / 16),
            hex_char(bytes.last() as int % 16),
        ]
    }
}

/// One lowercase hex digit as a string slice.
fn hex_str(n: u8) -> (r: &'static str)
    requires
        n < 16,
    ensures
        r@ == seq![hex_char(n as int)],
{
    let s: &'static str = match n {
        0 => "0",
        1 => "1",
        2 => "2",
        3 => "3",
        4 => "4",
        5 => "5",
        6 => "6",
        7 => "7",
        8 => "8",
        9 => "9",
        10 => "a",
        11 => "b",
        12 => "c",
        13 => "d",
        14 => "e",
        _ => "f",
    };
    proof {
        reveal_strlit("0");
        reveal_strlit("1");
        reveal_strlit("2");
        reveal_strlit("3");
        reveal_strlit("4");
        reveal_strlit("5");
        reveal_strlit("6");
        reveal_strlit("7");
        reveal_strlit("8");
        reveal_strlit("9");
        reveal_strlit("a");
        reveal_strlit("b");
        reveal_strlit("c");
        reveal_strlit("d");
        reveal_strlit("e");
        reveal_strlit("f");
        assert(s@ =~= seq![hex_char(n as int)]);
    }
    s
}

/// Renders a link-layer address as colon-separated lowercase hex,
/// for example `aa:bb:cc:dd:ee:ff`.
pub fn format_mac(mac: Vec<u8>) -> (r: String)
    ensures
        r@ == mac_chars(mac@),
{
    let mut mac_str = String::new();
    let mut i: usize = 0;
    while i < mac.len()
        invariant
            i <= mac.len(),
            mac_str@ == mac_chars(mac@.take(i as int)),
        decreases mac.len() - i,
    {
        if i > 0 {
            proof {
                reveal_strlit(":");
            }
            mac_str.append(":");
        }
        mac_str.append(hex_str(mac[i] / 16));
        mac_str.append(hex_str(mac[i] % 16));
        proof {
            assert(mac@.take(i + 1).drop_last() =~= mac@.take(i as int));
            assert(mac@.take(i + 1).last() == mac@[i as int]);
            assert(mac_str@ =~= mac_chars(mac@.take(i + 1)));
        }
        i += 1;
    }
    proof {
        assert(mac@.take(mac@.len() as int) =~= mac@);
    }
    mac_str
}

/// Copies a byte vector.
fn copy_bytes(src: &Vec<u8>) -> (r: Vec<u8>)
    ensures
        r@ == src@,
{
    let mut out: Vec<u8> = Vec::new();
    let mut i: usize = 0;
    while i < src.len()
        invariant
            i <= src.len(),
            out@ == src@.take(i as int),
        decreases src.len() - i,
    {
        out.push(src[i]);
        proof {
            assert(src@.take(i + 1) =~= src@.take(i as int).push(src@[i as int]));
        }
        i += 1;
    }
    proof {
        assert(src@.take(src@.len() as int) =~= src@);
    }
    out
}

/// Finds the first destination-address attribute at or after `i`.
fn find_destination(attrs: &Vec<NeighbourField>, i: usize) -> (r: Option<IpAddress>)
    requires
        i <= attrs.len(),
    ensures
        r == first_destination(attrs@.skip(i as int)),
    decreases attrs.len() - i,
{
    if i == attrs.len() {
        proof {
            assert(attrs@.skip(i as int) =~= Seq::<NeighbourField>::empty());
        }
        None
    } else {
        proof {
            assert(attrs@.skip(i as int)[0] == attrs@[i as int]);
            assert(attrs@.skip(i as int).drop_first() =~= attrs@.skip(i + 1));
        }
        match &attrs[i] {
            NeighbourField::Destination(a) => Some(*a),
            _ => find_destination(attrs, i + 1),
        }
    }
}

/// Finds the first link-layer-address attribute at or after `i`.
fn find_link_layer(attrs: &Vec<NeighbourField>, i: usize) -> (r: Option<Vec<u8>>)
    requires
        i <= attrs.len(),
    ensures
        match r {
            Some(m) => first_link_layer(attrs@.skip(i as int)) == Some(m@),
            None => first_link_layer(attrs@.skip(i as int)) is None,
        },
    decreases attrs.len() - i,
{
    if i == attrs.len() {
        proof {
            assert(attrs@.skip(i as int) =~= Seq::<NeighbourField>::empty());
        }
        None
    } else {
        proof {
            assert(attrs@.skip(i as int)[0] == attrs@[i as int]);
            assert(attrs@.skip(i as int).drop_first() =~= attrs@.skip(i + 1));
        }
        match &attrs[i] {
            NeighbourField::LinkLayerAddress(m) => Some(copy_bytes(m)),
            _ => find_link_layer(attrs, i + 1),
        }
    }
}

/// Whether the classifier accepts the event: the entry is learned rather
/// than administratively permanent, a destination address is present and,
/// under the private-subnet policy, private, and a link-layer address is
/// present.
pub open spec fn spec_accepts(ev: RawNeighbourEvent, private_subnet_only: bool) -> bool {
    &&& ev.state != ReachabilityState::Permanent
    &&& first_destination(ev.attributes@) is Some
    &&& (private_subnet_only ==> spec_ip_private(first_destination(ev.attributes@)->Some_0))
    &&& first_link_layer(ev.attributes@) is Some
}

/// The mathematical record the classifier produces for an accepted event.
pub open spec fn spec_classified(ev: RawNeighbourEvent) -> NeighbourView {
    NeighbourView {
        ifindex: ev.ifindex,
        state: ev.state,
        kind: ev.route_kind,
        inet: first_destination(ev.attributes@)->Some_0,
        mac: mac_chars(first_link_layer(ev.attributes@)->Some_0),
    }
}

/// Decides whether a raw neighbour event is worth acting on and, when it
/// is, extracts the fields the rest of the pipeline needs. Accepts the
/// event exactly when it is not administratively permanent, carries a
/// destination address (private, when the policy asks for that) and a
/// link-layer address.
pub fn classify(ev: &RawNeighbourEvent, private_subnet_only: bool) -> (r: Option<NeighbourRecord>)
    ensures
        r is Some <==> spec_accepts(*ev, private_subnet_only),
        r matches Some(rec) ==> rec@ == spec_classified(*ev),
{
    if ev.state == ReachabilityState::Permanent {
        return None;
    }
    let addr: IpAddress = match find_destination(&ev.attributes, 0) {
        Some(a) => a,
        None => {
            proof {
                assert(ev.attributes@.skip(0) =~= ev.attributes@);
            }
            return None;
        },
    };
    proof {
        assert(ev.attributes@.skip(0) =~= ev.attributes@);
    }
    if private_subnet_only {
        if !ip_in_private_subnet(&addr) {
            return None;
        }
    }
    let mac: Vec<u8> = match find_link_layer(&ev.attributes, 0) {
        Some(m) => m,
        None => {
            return None;
        },
    };
    Some(NeighbourRecord {
        ifindex: ev.ifindex,
        state: ev.state,
        kind: ev.route_kind,
        inet: addr,
        mac: format_mac(mac),
    })
}

/// Whether a route kind names a group address rather than a single host.
pub open spec fn spec_group_route(kind: RouteKind) -> bool {
    kind == RouteKind::Multicast || kind == RouteKind::Broadcast
}

pub fn is_multicast_or_broadcast_route_type(route_type: RouteKind) -> (r: bool)
    ensures
        r == spec_group_route(route_type),
{
    match route_type {
        RouteKind::Multicast => true,
        RouteKind::Broadcast => true,
        _ => false,
    }
}

pub fn is_multicast_or_broadcast(neigh: &NeighbourRecord) -> (r: bool)
    ensures
        r == spec_group_route(neigh.kind),
{
    is_multicast_or_broadcast_route_type(neigh.kind)
}

/// The classified, host-addressed records of an event sequence, in order:
/// accepted events whose route kind is not a group address.
pub open spec fn spec_hosts(evs: Seq<RawNeighbourEvent>, private_subnet_only: bool) -> Seq<
    NeighbourView,
>
    decreases evs.len(),
{
    if evs.len() == 0 {
        Seq::empty()
    } else {
        spec_hosts(evs.drop_last(), private_subnet_only) + (
        if spec_accepts(evs.last(), private_subnet_only) && !spec_group_route(
            evs.last().route_kind,
        ) {
            seq![spec_classified(evs.last())]
        } else {
            Seq::empty()
        })
    }
}

/// Classifies a batch of raw events, keeping the individual-host records:
/// what a full neighbour-table enumeration hands downstream.
pub fn collect_hosts(events: Vec<RawNeighbourEvent>, private_subnet_only: bool) -> (r: Vec<
    NeighbourRecord,
>)
    ensures
        r@.map_values(|rec: NeighbourRecord| rec@) == spec_hosts(events@, private_subnet_only),
{
    let mut out: Vec<NeighbourRecord> = Vec::new();
    let mut i: usize = 0;
    while i < events.len()
        invariant
            i <= events.len(),
            out@.map_values(|rec: NeighbourRecord| rec@) == spec_hosts(
                events@.take(i as int),
                private_subnet_only,
            ),
        decreases events.len() - i,
    {
        let ghost pre = out@.map_values(|rec: NeighbourRecord| rec@);
        proof {
            assert(events@.take(i + 1).drop_last() =~= events@.take(i as int));
            assert(events@.take(i + 1).last() == events@[i as int]);
        }
        if let Some(rec) = classify(&events[i], private_subnet_only) {
            if !is_multicast_or_broadcast(&rec) {
                out.push(rec);
                proof {
                    assert(out@.map_values(|rec: NeighbourRecord| rec@) =~= pre + seq![
                        spec_classified(events@[i as int]),
                    ]);
                }
            }
        }
        proof {
            assert(out@.map_values(|rec: NeighbourRecord| rec@) =~= spec_hosts(
                events@.take(i + 1),
                private_subnet_only,
            ));
        }
        i += 1;
    }
    proof {
        assert(events@.take(events@.len() as int) =~= events@);
    }
    out
}

} // verus!
