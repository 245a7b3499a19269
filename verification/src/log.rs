use vstd::prelude::*;

use crate::dns::{DnsRecordView, DnsResourceRecord, lemma_encode_decode, spec_decode, spec_encode, wf_record};

verus! {

/// One durable row of the append-only log: the provenance tag, the zone
/// serial, the UTC instant of insertion (seconds since the Unix epoch)
/// and the wire-format bytes of the record, keyed by the row id the
/// store assigned.
#[derive(Clone, Debug)]
pub struct PersistedEntry {
    pub row_id: i64,
    pub client_id: i64,
    pub soa_serial: u32,
    pub timestamp: i64,
    pub encoded_record: Vec<u8>,
}

/// Mathematical image of a `PersistedEntry`.
#[verifier::ext_equal]
pub struct PersistedEntryView {
    pub row_id: i64,
    pub client_id: i64,
    pub soa_serial: u32,
    pub timestamp: i64,
    pub encoded_record: Seq<u8>,
}

impl View for PersistedEntry {
    type V = PersistedEntryView;

    open spec fn view(&self) -> PersistedEntryView {
        PersistedEntryView {
            row_id: self.row_id,
            client_id: self.client_id,
            soa_serial: self.soa_serial,
            timestamp: self.timestamp,
            encoded_record: self.encoded_record@,
        }
    }
}

/// Why an append was refused.
#[derive(Clone, Copy, Debug, PartialEq, Eq, Structural)]
pub enum StoreError {
    /// Every row id has been used.
    Full,
}

/// The strictly append-only event log: entries keyed by an
/// ever-increasing row id, readable from a cursor. Row ids start at 1
/// and are consecutive — assigned on insert, never reused.
pub struct EventLog {
    entries: Vec<PersistedEntry>,
}

/// The log's entries carry the consecutive row ids `1, 2, ...` and
/// every stored byte sequence decodes back to a record.
pub open spec fn wf_log(s: Seq<PersistedEntryView>) -> bool {
    &&& s.len() + 1 <= i64::MAX
    &&& forall|i: int| 0 <= i < s.len() ==> #[trigger] s[i].row_id == i + 1
    &&& forall|i: int| 0 <= i < s.len() ==> #[trigger] spec_decode(s[i].encoded_record) is Some
}

/// The entry `read_from` owes: the one with the smallest row id at or
/// past the cursor, if any.
pub open spec fn spec_read_from(s: Seq<PersistedEntryView>, cursor: int) -> Option<
    PersistedEntryView,
> {
    let idx = if cursor <= 1 { 0int } else { cursor - 1 };
    if 0 <= idx < s.len() {
        Some(s[idx])
    } else {
        None
    }
}

impl View for EventLog {
    type V = Seq<PersistedEntryView>;

    closed spec fn view(&self) -> Seq<PersistedEntryView> {
        self.entries@.map_values(|e: PersistedEntry| e@)
    }
}

impl EventLog {
    pub open spec fn wf(&self) -> bool {
        wf_log(self@)
    }

    /// An empty log; the first append will get row id 1.
    pub fn new() -> (r: EventLog)
        ensures
            r.wf(),
            r@ == Seq::<PersistedEntryView>::empty(),
    {
        let log = EventLog { entries: Vec::new() };
        proof {
            assert(log@ =~= Seq::<PersistedEntryView>::empty());
        }
        log
    }

    /// How many entries the log holds.
    pub fn len(&self) -> (r: usize)
        ensures
            r == self@.len(),
    {
        self.entries.len()
    }

    /// Appends one record: encodes it to wire form and stores it with
    /// the caller's provenance tag, zone serial and timestamp under the
    /// next row id, which it returns. Exactly one new row becomes
    /// visible, or none on failure, which only the exhaustion of the
    /// 63-bit row-id space can cause.
    pub fn append(
        &mut self,
        client_id: i64,
        soa_serial: u32,
        timestamp: i64,
        record: &DnsResourceRecord,
    ) -> (r: Result<i64, StoreError>)
        requires
            old(self).wf(),
            wf_record(record@),
        ensures
            final(self).wf(),
            r matches Ok(id) ==> {
                &&& id == old(self)@.len() + 1
                &&& final(self)@ == old(self)@.push(
                    (PersistedEntryView {
                        row_id: id,
                        client_id: client_id,
                        soa_serial: soa_serial,
                        timestamp: timestamp,
                        encoded_record: spec_encode(record@),
                    }),
                )
                &&& forall|i: int|
                    0 <= i < old(self)@.len() ==> #[trigger] old(self)@[i].row_id < id
            },
            r is Err ==> final(self)@ == old(self)@,
            r is Ok <==> old(self)@.len() + 2 <= i64::MAX,
    {
        if self.entries.len() as u64 >= (i64::MAX - 1) as u64 {
            return Err(StoreError::Full);
        }
        let id = self.entries.len() as i64 + 1;
        let encoded = record.encode();
        let entry = PersistedEntry {
            row_id: id,
            client_id,
            soa_serial,
            timestamp,
            encoded_record: encoded,
        };
        proof {
            lemma_encode_decode(record@);
        }
        let ghost pre = self@;
        self.entries.push(entry);
        proof {
            assert(self@ =~= pre.push(entry@));
        }
        Ok(id)
    }

    /// Returns the entry with the smallest row id at or past `cursor`,
    /// or nothing when every row id is below it. The sole retrieval
    /// primitive: a consumer replays the log by advancing its cursor
    /// past each entry it has seen.
    pub fn read_from(&self, cursor: i64) -> (r: Option<&PersistedEntry>)
        requires
            self.wf(),
        ensures
            match r {
                Some(e) => {
                    &&& spec_read_from(self@, cursor as int) == Some(e@)
                    &&& e@.row_id >= cursor
                    &&& exists|i: int| 0 <= i < self@.len() && self@[i] == e@
                    &&& forall|i: int|
                        0 <= i < self@.len() && #[trigger] self@[i].row_id >= cursor
                            ==> e@.row_id <= self@[i].row_id
                },
                None => spec_read_from(self@, cursor as int) is None,
            },
            r is None <==> (forall|i: int|
                0 <= i < self@.len() ==> #[trigger] self@[i].row_id < cursor),
    {
        if cursor <= 1 {
            if self.entries.len() > 0 {
                let e = &self.entries[0];
                proof {
                    assert(self@[0] == e@);
                    assert(self@[0].row_id == 1);
                    assert(!(self@[0].row_id < cursor));
                }
                Some(e)
            } else {
                None
            }
        } else {
            let wanted = (cursor - 1) as u64;
            if wanted < self.entries.len() as u64 {
                let idx = wanted as usize;
                let e = &self.entries[idx];
                proof {
                    assert(self@[idx as int] == e@);
                    assert(self@[idx as int].row_id == idx + 1);
                    assert(!(self@[idx as int].row_id < cursor));
                }
                Some(e)
            } else {
                None
            }
        }
    }
}

/// An append read straight back: in a well-formed log extended by an
/// entry carrying the next row id and the wire form of a well-formed
/// record, reading from that row id yields exactly that entry, and its
/// bytes decode to the record that was appended.
pub proof fn lemma_append_read_back(
    s: Seq<PersistedEntryView>,
    e: PersistedEntryView,
    rec: DnsRecordView,
)
    requires
        e.row_id == s.len() + 1,
        e.encoded_record == spec_encode(rec),
        wf_record(rec),
    ensures
        spec_read_from(s.push(e), e.row_id as int) == Some(e),
        spec_decode(e.encoded_record) == Some(rec),
{
    lemma_encode_decode(rec);
}

/// In a well-formed log the row ids are strictly increasing in storage
/// order: no repeats, no reordering.
pub proof fn lemma_row_ids_strictly_increasing(s: Seq<PersistedEntryView>)
    requires
        wf_log(s),
    ensures
        forall|i: int, j: int|
            0 <= i < j < s.len() ==> #[trigger] s[i].row_id < #[trigger] s[j].row_id,
{
}

/// The monotonic zone-serial counter: one fresh, strictly larger
/// serial for each record that changes the zone's content.
pub struct SerialSequencer {
    pub current: u32,
}

impl SerialSequencer {
    /// A sequencer that will hand out serials above `start`.
    pub fn new(start: u32) -> (r: SerialSequencer)
        ensures
            r.current == start,
    {
        SerialSequencer { current: start }
    }

    /// The next zone serial: one more than every serial handed out
    /// before.
    pub fn next(&mut self) -> (r: u32)
        requires
            old(self).current < u32::MAX,
        ensures
            final(self).current == old(self).current + 1,
            r == final(self).current,
    {
        self.current = self.current + 1;
        self.current
    }
}

/// Relies on `time::OffsetDateTime::now_utc` and `unix_timestamp`: the
/// current UTC instant as whole seconds since the Unix epoch. Nothing
/// is promised of the clock's reading.
#[verifier::external_body]
pub fn now_unix() -> i64 {
    time::OffsetDateTime::now_utc().unix_timestamp()
}

impl EventLog {
    /// `append` stamped with the current UTC time, as the store writes
    /// rows in production.
    pub fn append_now(
        &mut self,
        client_id: i64,
        soa_serial: u32,
        record: &DnsResourceRecord,
    ) -> (r: Result<i64, StoreError>)
        requires
            old(self).wf(),
            wf_record(record@),
        ensures
            final(self).wf(),
            r matches Ok(id) ==> {
                &&& id == old(self)@.len() + 1
                &&& final(self)@.len() == old(self)@.len() + 1
                &&& final(self)@.drop_last() == old(self)@
                &&& final(self)@.last().row_id == id
                &&& final(self)@.last().client_id == client_id
                &&& final(self)@.last().soa_serial == soa_serial
                &&& final(self)@.last().encoded_record == spec_encode(record@)
            },
            r is Err ==> final(self)@ == old(self)@,
            r is Ok <==> old(self)@.len() + 2 <= i64::MAX,
    {
        let timestamp = now_unix();
        let r = self.append(client_id, soa_serial, timestamp, record);
        proof {
            if r is Ok {
                assert(self@.drop_last() =~= old(self)@);
            }
        }
        r
    }
}

} // verus!
