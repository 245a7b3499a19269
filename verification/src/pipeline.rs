use vstd::prelude::*;
use vstd::utf8::encode_utf8;

use crate::dns::{
    DnsRecordView, spec_addr_rdata, spec_encode, spec_rtype, split_labels, synthesize, wf_name,
};
use crate::lease::{LeaseTable, spec_lookup};
use crate::log::{EventLog, PersistedEntryView, SerialSequencer};
use crate::neigh::{
    RawNeighbourEvent, classify, first_destination, first_link_layer, is_multicast_or_broadcast,
    mac_chars, spec_accepts, spec_group_route,
};

verus! {

/// Why a worth-persisting event could not be persisted. Either way the
/// log and the serial counter are untouched: the caller decides whether
/// to retry or to escalate.
#[derive(Clone, Copy, Debug, PartialEq, Eq, Structural)]
pub enum PipelineError {
    /// Every row id of the log has been used.
    LogFull,
    /// Every 32-bit zone serial has been handed out.
    SerialExhausted,
}

/// The hostname the lease snapshot gives the event's link-layer
/// address, which it keys by the address's colon-separated lowercase
/// hex rendering.
pub open spec fn spec_event_hostname(
    ev: RawNeighbourEvent,
    leases: Seq<(Seq<char>, Seq<char>)>,
) -> Option<Seq<char>> {
    spec_lookup(leases, mac_chars(first_link_layer(ev.attributes@)->Some_0))
}

/// Whether one raw event ends up in the durable log: the classifier
/// accepts it, its route kind addresses a single host, the lease
/// snapshot resolves its link-layer address, and the hostname splits
/// into wire-encodable labels.
pub open spec fn spec_should_persist(
    ev: RawNeighbourEvent,
    private_subnet_only: bool,
    leases: Seq<(Seq<char>, Seq<char>)>,
) -> bool {
    &&& spec_accepts(ev, private_subnet_only)
    &&& !spec_group_route(ev.route_kind)
    &&& spec_event_hostname(ev, leases) matches Some(h) && wf_name(split_labels(encode_utf8(h)))
}

/// The address record a persisted event contributes to the zone.
pub open spec fn spec_event_record(
    ev: RawNeighbourEvent,
    leases: Seq<(Seq<char>, Seq<char>)>,
    ttl: u32,
) -> DnsRecordView {
    DnsRecordView {
        name: split_labels(encode_utf8(spec_event_hostname(ev, leases)->Some_0)),
        rtype: spec_rtype(first_destination(ev.attributes@)->Some_0),
        class: 1u16,
        ttl: ttl,
        rdata: spec_addr_rdata(first_destination(ev.attributes@)->Some_0),
    }
}

/// Drives one raw neighbour event through the whole pipeline:
/// classification, the group-address exclusion, hostname resolution,
/// record synthesis, serial assignment and the durable append.
///
/// An event the policy rejects — including one whose link-layer address
/// has no lease, a deliberate skip rather than a failure — leaves the
/// log and the serial counter untouched and returns `Ok(None)`. A
/// persisted event returns its fresh row id, with the serial counter
/// advanced by exactly one.
pub fn process_event(
    log: &mut EventLog,
    serial: &mut SerialSequencer,
    leases: &LeaseTable,
    ev: &RawNeighbourEvent,
    private_subnet_only: bool,
    ttl: u32,
    timestamp: i64,
    client_id: i64,
) -> (r: Result<Option<i64>, PipelineError>)
    requires
        old(log).wf(),
    ensures
        final(log).wf(),
        r matches Ok(Some(id)) ==> {
            &&& spec_should_persist(*ev, private_subnet_only, leases@)
            &&& final(serial).current == old(serial).current + 1
            &&& id == old(log)@.len() + 1
            &&& final(log)@ == old(log)@.push(
                (PersistedEntryView {
                    row_id: id,
                    client_id: client_id,
                    soa_serial: (old(serial).current + 1) as u32,
                    timestamp: timestamp,
                    encoded_record: spec_encode(spec_event_record(*ev, leases@, ttl)),
                }),
            )
        },
        r matches Ok(Some(_)) <==> spec_should_persist(*ev, private_subnet_only, leases@)
            && old(serial).current < u32::MAX && old(log)@.len() + 2 <= i64::MAX,
        r is Ok ==> (r matches Ok(Some(_)) <==> spec_should_persist(
            *ev,
            private_subnet_only,
            leases@,
        )),
        r matches Ok(None) ==> final(log)@ == old(log)@ && *final(serial) == *old(serial),
        r is Err ==> final(log)@ == old(log)@ && *final(serial) == *old(serial)
            && spec_should_persist(*ev, private_subnet_only, leases@),
        r matches Err(e) ==> (e == PipelineError::SerialExhausted <==> old(serial).current
            == u32::MAX),
{
    let rec = match classify(ev, private_subnet_only) {
        Some(rec) => rec,
        None => {
            return Ok(None);
        },
    };
    if is_multicast_or_broadcast(&rec) {
        return Ok(None);
    }
    let hostname = match leases.resolve(&rec.mac) {
        Some(h) => h,
        None => {
            return Ok(None);
        },
    };
    let dns_rec = match synthesize(&rec, hostname.as_str(), ttl) {
        Some(d) => d,
        None => {
            return Ok(None);
        },
    };
    proof {
        assert(dns_rec@ =~= spec_event_record(*ev, leases@, ttl));
    }
    if serial.current == u32::MAX {
        return Err(PipelineError::SerialExhausted);
    }
    if log.len() as u64 >= (i64::MAX - 1) as u64 {
        return Err(PipelineError::LogFull);
    }
    let soa = serial.next();
    match log.append(client_id, soa, timestamp, &dns_rec) {
        Ok(id) => Ok(Some(id)),
        Err(_) => {
            proof {
                assert(false);
            }
            Err(PipelineError::LogFull)
        },
    }
}

} // verus!
