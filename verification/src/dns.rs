use vstd::prelude::*;
use vstd::string::StringSliceAdditionalSpecFns;

use crate::addr::IpAddress;
use crate::neigh::NeighbourRecord;

verus! {

/// The byte value of the label separator `.` in a hostname.
pub open spec fn dot() -> u8 {
    46
}

/// A DNS resource record, kept as plain values: the owner name as its
/// label sequence, and numeric type, class and time-to-live, with the
/// rdata as raw bytes. `encode` turns it into the standard wire form
/// (name, type, class, TTL, rdata length, rdata) and `decode` reads
/// that form back.
#[derive(Clone, Debug)]
pub struct DnsResourceRecord {
    pub name: Vec<Vec<u8>>,
    pub rtype: u16,
    pub class: u16,
    pub ttl: u32,
    pub rdata: Vec<u8>,
}

/// Mathematical image of a `DnsResourceRecord`.
#[verifier::ext_equal]
pub struct DnsRecordView {
    pub name: Seq<Seq<u8>>,
    pub rtype: u16,
    pub class: u16,
    pub ttl: u32,
    pub rdata: Seq<u8>,
}

impl View for DnsResourceRecord {
    type V = DnsRecordView;

    open spec fn view(&self) -> DnsRecordView {
        DnsRecordView {
            name: self.name@.map_values(|l: Vec<u8>| l@),
            rtype: self.rtype,
            class: self.class,
            ttl: self.ttl,
            rdata: self.rdata@,
        }
    }
}

/// Every label of a wire-encodable name is between 1 and 63 bytes long.
pub open spec fn wf_name(labels: Seq<Seq<u8>>) -> bool {
    forall|i: int| 0 <= i < labels.len() ==> 1 <= #[trigger] labels[i].len() <= 63
}

/// A record is wire-encodable when its name is and its rdata length
/// fits the 16-bit length field.
pub open spec fn wf_record(r: DnsRecordView) -> bool {
    &&& wf_name(r.name)
    &&& r.rdata.len() <= 0xffff
}

/// Big-endian bytes of a 16-bit value.
pub open spec fn enc_u16(x: u16) -> Seq<u8> {
    seq![(x as int / 256) as u8, (x as int % 256) as u8]
}

/// Big-endian bytes of a 32-bit value.
pub open spec fn enc_u32(x: u32) -> Seq<u8> {
    enc_u16((x as int / 0x10000) as u16) + enc_u16((x as int % 0x10000) as u16)
}

/// The label part of a wire-format name: each label as one length byte
/// followed by its bytes, without the closing root label.
pub open spec fn enc_labels(labels: Seq<Seq<u8>>) -> Seq<u8>
    decreases labels.len(),
{
    if labels.len() == 0 {
        Seq::empty()
    } else {
        seq![labels[0].len() as u8] + labels[0] + enc_labels(labels.drop_first())
    }
}

/// A wire-format name: the labels, closed by the zero-length root label.
pub open spec fn enc_name(labels: Seq<Seq<u8>>) -> Seq<u8> {
    enc_labels(labels) + seq![0u8]
}

/// The wire form of a record: name, type, class, TTL, rdata length, rdata.
pub open spec fn spec_encode(r: DnsRecordView) -> Seq<u8> {
    enc_name(r.name) + enc_u16(r.rtype) + enc_u16(r.class) + enc_u32(r.ttl) + enc_u16(
        r.rdata.len() as u16,
    ) + r.rdata
}

/// Reads a name from the front of `s`: the labels up to and including
/// the root label, and the number of bytes they occupy. Rejects label
/// lengths above 63 (the compressed forms of the wire format are not
/// produced by `spec_encode`) and truncated input.
pub open spec fn dec_name(s: Seq<u8>) -> Option<(Seq<Seq<u8>>, int)>
    decreases s.len(),
{
    if s.len() == 0 {
        Option::None
    } else if s[0] == 0 {
        Option::Some((Seq::empty(), 1))
    } else if s[0] > 63 || s.len() < 1 + s[0] as int {
        Option::None
    } else {
        match dec_name(s.skip(1 + s[0] as int)) {
            Option::None => Option::None,
            Option::Some((rest, n)) => Option::Some(
                (seq![s.subrange(1, 1 + s[0] as int)] + rest, 1 + s[0] as int + n),
            ),
        }
    }
}

/// The big-endian 16-bit value at offset `off`.
pub open spec fn dec_u16(s: Seq<u8>, off: int) -> int {
    s[off] as int * 256 + s[off + 1] as int
}

/// The big-endian 32-bit value at offset `off`.
pub open spec fn dec_u32(s: Seq<u8>, off: int) -> int {
    dec_u16(s, off) * 0x10000 + dec_u16(s, off + 2)
}

/// Reads a whole record back from its wire form: the name, then type,
/// class, TTL and rdata length, then exactly that much rdata.
pub open spec fn spec_decode(s: Seq<u8>) -> Option<DnsRecordView> {
    match dec_name(s) {
        Option::None => Option::None,
        Option::Some((labels, n)) => {
            if s.len() < n + 10 {
                Option::None
            } else if s.len() != n + 10 + dec_u16(s, n + 8) {
                Option::None
            } else {
                Option::Some(
                    DnsRecordView {
                        name: labels,
                        rtype: dec_u16(s, n) as u16,
                        class: dec_u16(s, n + 2) as u16,
                        ttl: dec_u32(s, n + 4) as u32,
                        rdata: s.subrange(n + 10, s.len() as int),
                    },
                )
            }
        },
    }
}

/// Appending one label extends the label encoding at its end.
proof fn lemma_enc_labels_push(labels: Seq<Seq<u8>>, x: Seq<u8>)
    ensures
        enc_labels(labels.push(x)) == enc_labels(labels) + seq![x.len() as u8] + x,
    decreases labels.len(),
{
    if labels.len() == 0 {
        assert(labels.push(x).drop_first() =~= Seq::<Seq<u8>>::empty());
        assert(labels.push(x)[0] == x);
        assert(enc_labels(labels.push(x)) == seq![x.len() as u8] + x + enc_labels(
            labels.push(x).drop_first(),
        ));
        assert(enc_labels(labels.push(x)) =~= enc_labels(labels) + seq![x.len() as u8] + x);
    } else {
        assert(labels.push(x).drop_first() =~= labels.drop_first().push(x));
        lemma_enc_labels_push(labels.drop_first(), x);
        assert(enc_labels(labels.push(x)) =~= enc_labels(labels) + seq![x.len() as u8] + x);
    }
}

/// Appends the bytes of `src` to `out`.
fn extend_bytes(out: &mut Vec<u8>, src: &Vec<u8>)
    ensures
        final(out)@ == old(out)@ + src@,
{
    let mut i: usize = 0;
    while i < src.len()
        invariant
            i <= src.len(),
            out@ == old(out)@ + src@.take(i as int),
        decreases src.len() - i,
    {
        out.push(src[i]);
        proof {
            assert(old(out)@ + src@.take(i + 1) =~= (old(out)@ + src@.take(i as int)).push(
                src@[i as int],
            ));
        }
        i += 1;
    }
    proof {
        assert(old(out)@ + src@.take(src@.len() as int) =~= old(out)@ + src@);
    }
}

/// Appends a 16-bit value in big-endian order.
fn push_u16(out: &mut Vec<u8>, x: u16)
    ensures
        final(out)@ == old(out)@ + enc_u16(x),
{
    out.push((x / 256) as u8);
    out.push((x % 256) as u8);
    proof {
        assert(out@ =~= old(out)@ + enc_u16(x));
    }
}

/// Appends a 32-bit value in big-endian order.
fn push_u32(out: &mut Vec<u8>, x: u32)
    ensures
        final(out)@ == old(out)@ + enc_u32(x),
{
    push_u16(out, (x / 0x10000) as u16);
    push_u16(out, (x % 0x10000) as u16);
    proof {
        assert(out@ =~= old(out)@ + enc_u32(x));
    }
}

/// A name's wire form, followed by anything, reads back as exactly
/// that name, consuming exactly the name's bytes.
proof fn lemma_dec_name_enc(labels: Seq<Seq<u8>>, rest: Seq<u8>)
    requires
        wf_name(labels),
    ensures
        dec_name(enc_name(labels) + rest) == Some((labels, enc_name(labels).len() as int)),
    decreases labels.len(),
{
    let s = enc_name(labels) + rest;
    if labels.len() == 0 {
        assert(enc_name(labels) =~= seq![0u8]);
        assert(s[0] == 0);
        assert(labels =~= Seq::<Seq<u8>>::empty());
        assert(dec_name(s) == Some((labels, enc_name(labels).len() as int)));
    } else {
        let lab0 = labels[0];
        let tail_labels = labels.drop_first();
        assert(1 <= lab0.len() <= 63);
        assert(wf_name(tail_labels)) by {
            assert(forall|i: int|
                0 <= i < tail_labels.len() ==> #[trigger] tail_labels[i] == labels[i + 1]);
        }
        assert(enc_labels(labels) == seq![lab0.len() as u8] + lab0 + enc_labels(tail_labels));
        assert(s =~= seq![lab0.len() as u8] + lab0 + (enc_name(tail_labels) + rest));
        assert(s[0] == lab0.len() as u8);
        assert(s[0] as int == lab0.len());
        lemma_dec_name_enc(tail_labels, rest);
        assert(s.skip(1 + s[0] as int) =~= enc_name(tail_labels) + rest);
        assert(s.subrange(1, 1 + s[0] as int) =~= lab0);
        assert(seq![lab0] + tail_labels =~= labels);
        assert(enc_name(labels).len() == 1 + lab0.len() + enc_name(tail_labels).len());
        assert(dec_name(s) == Some((labels, enc_name(labels).len() as int)));
    }
}

/// Encoding a well-formed record and decoding the bytes yields the
/// record again: the wire codec loses nothing.
pub proof fn lemma_encode_decode(r: DnsRecordView)
    requires
        wf_record(r),
    ensures
        spec_decode(spec_encode(r)) == Some(r),
{
    let tail = enc_u16(r.rtype) + enc_u16(r.class) + enc_u32(r.ttl) + enc_u16(
        r.rdata.len() as u16,
    ) + r.rdata;
    let s = spec_encode(r);
    assert(s =~= enc_name(r.name) + tail);
    lemma_dec_name_enc(r.name, tail);
    let n = enc_name(r.name).len() as int;
    assert(forall|k: int| 0 <= k < tail.len() ==> s[n + k] == tail[k]);
    assert(tail[0] == enc_u16(r.rtype)[0] && tail[1] == enc_u16(r.rtype)[1]);
    assert(tail[2] == enc_u16(r.class)[0] && tail[3] == enc_u16(r.class)[1]);
    assert(tail[4] == enc_u32(r.ttl)[0] && tail[5] == enc_u32(r.ttl)[1] && tail[6] == enc_u32(
        r.ttl,
    )[2] && tail[7] == enc_u32(r.ttl)[3]);
    assert(tail[8] == enc_u16(r.rdata.len() as u16)[0] && tail[9] == enc_u16(
        r.rdata.len() as u16,
    )[1]);
    assert(dec_u16(s, n) == r.rtype as int);
    assert(dec_u16(s, n + 2) == r.class as int);
    assert(dec_u16(s, n + 4) == r.ttl as int / 0x10000 && dec_u16(s, n + 6) == r.ttl as int
        % 0x10000);
    assert(dec_u32(s, n + 4) == r.ttl as int);
    assert(dec_u16(s, n + 8) == r.rdata.len() as int);
    assert(s.len() == n + 10 + r.rdata.len());
    assert(s.subrange(n + 10, s.len() as int) =~= r.rdata);
    assert(spec_decode(s) matches Some(d) && d =~= r);
}

/// Copies the byte range `[from, to)`.
fn copy_range(bytes: &Vec<u8>, from: usize, to: usize) -> (r: Vec<u8>)
    requires
        from <= to <= bytes.len(),
    ensures
        r@ == bytes@.subrange(from as int, to as int),
{
    let mut out: Vec<u8> = Vec::new();
    let mut i: usize = from;
    while i < to
        invariant
            from <= i <= to <= bytes.len(),
            out@ == bytes@.subrange(from as int, i as int),
        decreases to - i,
    {
        out.push(bytes[i]);
        proof {
            assert(bytes@.subrange(from as int, i + 1) =~= bytes@.subrange(
                from as int,
                i as int,
            ).push(bytes@[i as int]));
        }
        i += 1;
    }
    out
}

/// Reads the big-endian 16-bit value at `off`.
fn get_u16(bytes: &Vec<u8>, off: usize) -> (r: u16)
    requires
        off + 2 <= bytes.len(),
    ensures
        r as int == dec_u16(bytes@, off as int),
{
    bytes[off] as u16 * 256 + bytes[off + 1] as u16
}

/// Reads the big-endian 32-bit value at `off`.
fn get_u32(bytes: &Vec<u8>, off: usize) -> (r: u32)
    requires
        off + 4 <= bytes.len(),
    ensures
        r as int == dec_u32(bytes@, off as int),
{
    let hi = get_u16(bytes, off);
    let lo = get_u16(bytes, off + 2);
    hi as u32 * 0x10000 + lo as u32
}

/// Reads the name that starts at `pos`, returning its labels and the
/// position just past its closing root label.
fn dec_name_exec(bytes: &Vec<u8>, pos: usize) -> (r: Option<(Vec<Vec<u8>>, usize)>)
    requires
        pos <= bytes.len(),
    ensures
        match r {
            Some(p) => {
                &&& pos < p.1 <= bytes.len()
                &&& dec_name(bytes@.skip(pos as int)) == Some(
                    (p.0@.map_values(|l: Vec<u8>| l@), p.1 - pos as int),
                )
            },
            None => dec_name(bytes@.skip(pos as int)) is None,
        },
    decreases bytes.len() - pos,
{
    let ghost s = bytes@.skip(pos as int);
    if pos == bytes.len() {
        proof {
            assert(s =~= Seq::<u8>::empty());
        }
        return None;
    }
    proof {
        assert(s[0] == bytes@[pos as int]);
    }
    let l = bytes[pos];
    if l == 0 {
        let labels: Vec<Vec<u8>> = Vec::new();
        proof {
            assert(labels@.map_values(|l: Vec<u8>| l@) =~= Seq::<Seq<u8>>::empty());
        }
        return Some((labels, pos + 1));
    }
    if l > 63 {
        return None;
    }
    if bytes.len() - pos - 1 < l as usize {
        proof {
            assert(s.len() < 1 + s[0] as int);
        }
        return None;
    }
    let lab_end = pos + 1 + l as usize;
    let label = copy_range(bytes, pos + 1, lab_end);
    proof {
        assert(label@ =~= s.subrange(1, 1 + s[0] as int));
        assert(s.skip(1 + s[0] as int) =~= bytes@.skip(lab_end as int));
    }
    match dec_name_exec(bytes, lab_end) {
        None => None,
        Some((rest, end)) => {
            let mut labels = rest;
            let ghost rest_vecs = labels@;
            let ghost rest_view = labels@.map_values(|l: Vec<u8>| l@);
            labels.insert(0, label);
            proof {
                assert(labels@ =~= seq![label] + rest_vecs);
                assert(labels@.map_values(|l: Vec<u8>| l@) =~= seq![label@] + rest_view);
            }
            Some((labels, end))
        },
    }
}

impl DnsResourceRecord {
    /// Serializes the record to its wire form.
    pub fn encode(&self) -> (out: Vec<u8>)
        requires
            wf_record(self@),
        ensures
            out@ == spec_encode(self@),
    {
        let mut out: Vec<u8> = Vec::new();
        let mut i: usize = 0;
        while i < self.name.len()
            invariant
                i <= self.name.len(),
                wf_record(self@),
                out@ == enc_labels(self@.name.take(i as int)),
            decreases self.name.len() - i,
        {
            let label: &Vec<u8> = &self.name[i];
            proof {
                assert(self@.name[i as int] == label@);
                assert(1 <= label@.len() <= 63);
            }
            out.push(label.len() as u8);
            extend_bytes(&mut out, label);
            proof {
                lemma_enc_labels_push(self@.name.take(i as int), label@);
                assert(self@.name.take(i + 1) =~= self@.name.take(i as int).push(label@));
                assert(out@ =~= enc_labels(self@.name.take(i + 1)));
            }
            i += 1;
        }
        proof {
            assert(self@.name.take(self@.name.len() as int) =~= self@.name);
        }
        out.push(0u8);
        proof {
            assert(out@ =~= enc_name(self@.name));
        }
        push_u16(&mut out, self.rtype);
        push_u16(&mut out, self.class);
        push_u32(&mut out, self.ttl);
        push_u16(&mut out, self.rdata.len() as u16);
        extend_bytes(&mut out, &self.rdata);
        proof {
            assert(out@ =~= spec_encode(self@));
        }
        out
    }

    /// Reads a record back from its wire form; `None` on bytes that are
    /// not the exact encoding of one record.
    pub fn decode(bytes: &Vec<u8>) -> (r: Option<DnsResourceRecord>)
        ensures
            match r {
                Some(rec) => spec_decode(bytes@) == Some(rec@),
                None => spec_decode(bytes@) is None,
            },
    {
        proof {
            assert(bytes@.skip(0) =~= bytes@);
        }
        let (name, n) = match dec_name_exec(bytes, 0) {
            Some(p) => p,
            None => {
                return None;
            },
        };
        if bytes.len() - n < 10 {
            return None;
        }
        let rtype = get_u16(bytes, n);
        let class = get_u16(bytes, n + 2);
        let ttl = get_u32(bytes, n + 4);
        let rdlen = get_u16(bytes, n + 8);
        if bytes.len() - n - 10 != rdlen as usize {
            return None;
        }
        let rdata = copy_range(bytes, n + 10, bytes.len());
        let rec = DnsResourceRecord { name, rtype, class, ttl, rdata };
        proof {
            assert(spec_decode(bytes@) matches Some(d) && d =~= rec@);
        }
        Some(rec)
    }
}

/// The distance to the first `.` of the sequence, or its length when
/// it has none.
pub open spec fn find_dot(s: Seq<u8>) -> int
    decreases s.len(),
{
    if s.len() == 0 {
        0
    } else if s[0] == dot() {
        0
    } else {
        1 + find_dot(s.drop_first())
    }
}

/// A hostname's labels: the stretches between its dots, in order.
pub open spec fn split_labels(s: Seq<u8>) -> Seq<Seq<u8>>
    decreases s.len(),
{
    let d = find_dot(s);
    if !(0 <= d < s.len()) {
        seq![s]
    } else {
        seq![s.take(d)] + split_labels(s.skip(d + 1))
    }
}

/// Finds the first `.` at or after `pos`, or the end of the bytes.
fn find_dot_exec(host: &Vec<u8>, pos: usize) -> (r: usize)
    requires
        pos <= host.len(),
    ensures
        pos <= r <= host.len(),
        r - pos == find_dot(host@.skip(pos as int)),
    decreases host.len() - pos,
{
    let ghost s = host@.skip(pos as int);
    if pos == host.len() {
        proof {
            assert(s =~= Seq::<u8>::empty());
        }
        pos
    } else if host[pos] == 46 {
        proof {
            assert(s[0] == host@[pos as int]);
        }
        pos
    } else {
        proof {
            assert(s[0] == host@[pos as int]);
            assert(s.drop_first() =~= host@.skip(pos + 1));
        }
        find_dot_exec(host, pos + 1)
    }
}

/// Splits the bytes at or after `pos` into dot-separated labels.
fn split_exec(host: &Vec<u8>, pos: usize) -> (r: Vec<Vec<u8>>)
    requires
        pos <= host.len(),
    ensures
        r@.map_values(|l: Vec<u8>| l@) == split_labels(host@.skip(pos as int)),
    decreases host.len() - pos,
{
    let ghost s = host@.skip(pos as int);
    let d = find_dot_exec(host, pos);
    if d == host.len() {
        let lab = copy_range(host, pos, host.len());
        proof {
            assert(lab@ =~= s);
        }
        let mut labels: Vec<Vec<u8>> = Vec::new();
        labels.push(lab);
        proof {
            assert(labels@.map_values(|l: Vec<u8>| l@) =~= seq![s]);
        }
        labels
    } else {
        let lab = copy_range(host, pos, d);
        proof {
            assert(lab@ =~= s.take(d - pos));
            assert(host@.skip(d + 1) =~= s.skip(d - pos + 1));
        }
        let mut labels = split_exec(host, d + 1);
        let ghost rest_vecs = labels@;
        let ghost rest_view = labels@.map_values(|l: Vec<u8>| l@);
        labels.insert(0, lab);
        proof {
            assert(labels@ =~= seq![lab] + rest_vecs);
            assert(labels@.map_values(|l: Vec<u8>| l@) =~= seq![lab@] + rest_view);
        }
        labels
    }
}

/// Splits a hostname into wire-format name labels. Succeeds exactly
/// when every label of the split is between 1 and 63 bytes long, so
/// an empty name, an empty label (leading, trailing or doubled dots)
/// or an over-long label is rejected.
pub fn name_from_hostname(host: &Vec<u8>) -> (r: Option<Vec<Vec<u8>>>)
    ensures
        r is Some <==> wf_name(split_labels(host@)),
        r matches Some(ls) ==> ls@.map_values(|l: Vec<u8>| l@) == split_labels(host@),
{
    proof {
        assert(host@.skip(0) =~= host@);
    }
    let labels = split_exec(host, 0);
    let ghost view = labels@.map_values(|l: Vec<u8>| l@);
    let mut i: usize = 0;
    while i < labels.len()
        invariant
            i <= labels.len(),
            view == labels@.map_values(|l: Vec<u8>| l@),
            view == split_labels(host@),
            forall|j: int| 0 <= j < i ==> 1 <= #[trigger] view[j].len() <= 63,
        decreases labels.len() - i,
    {
        let len = labels[i].len();
        if len == 0 || len > 63 {
            proof {
                assert(!(1 <= view[i as int].len() <= 63));
            }
            return None;
        }
        i += 1;
    }
    Some(labels)
}

/// The record type of an address record: A for IPv4, AAAA for IPv6.
pub open spec fn spec_rtype(addr: IpAddress) -> u16 {
    match addr {
        IpAddress::V4(_) => 1,
        IpAddress::V6(_) => 28,
    }
}

/// The rdata of an address record: the address bytes in network order.
pub open spec fn spec_addr_rdata(addr: IpAddress) -> Seq<u8> {
    match addr {
        IpAddress::V4(o) => seq![o[0], o[1], o[2], o[3]],
        IpAddress::V6(sg) => enc_u16(sg[0]) + enc_u16(sg[1]) + enc_u16(sg[2]) + enc_u16(sg[3])
            + enc_u16(sg[4]) + enc_u16(sg[5]) + enc_u16(sg[6]) + enc_u16(sg[7]),
    }
}

/// The address bytes of an address in network order: four bytes for
/// IPv4, sixteen for IPv6.
pub fn address_rdata(addr: &IpAddress) -> (r: Vec<u8>)
    ensures
        r@ == spec_addr_rdata(*addr),
        r@.len() == 4 || r@.len() == 16,
{
    let mut out: Vec<u8> = Vec::new();
    match addr {
        IpAddress::V4(o) => {
            out.push(o[0]);
            out.push(o[1]);
            out.push(o[2]);
            out.push(o[3]);
            proof {
                assert(out@ =~= spec_addr_rdata(*addr));
            }
        },
        IpAddress::V6(sg) => {
            push_u16(&mut out, sg[0]);
            push_u16(&mut out, sg[1]);
            push_u16(&mut out, sg[2]);
            push_u16(&mut out, sg[3]);
            push_u16(&mut out, sg[4]);
            push_u16(&mut out, sg[5]);
            push_u16(&mut out, sg[6]);
            push_u16(&mut out, sg[7]);
            proof {
                assert(out@ =~= spec_addr_rdata(*addr));
            }
        },
    }
    out
}

/// Builds the address record that binds `hostname` to the neighbour's
/// address: an A record for IPv4, an AAAA record for IPv6, in the IN
/// class, with the caller's TTL. `None` exactly when the hostname does
/// not split into wire-encodable labels.
pub fn synthesize(record: &NeighbourRecord, hostname: &str, ttl: u32) -> (r: Option<
    DnsResourceRecord,
>)
    ensures
        r is Some <==> wf_name(split_labels(hostname.spec_bytes())),
        r matches Some(rec) ==> rec@ == (DnsRecordView {
            name: split_labels(hostname.spec_bytes()),
            rtype: spec_rtype(record.inet),
            class: 1u16,
            ttl: ttl,
            rdata: spec_addr_rdata(record.inet),
        }),
        r matches Some(rec) ==> wf_record(rec@),
{
    let host_bytes = vstd::slice::slice_to_vec(hostname.as_bytes());
    let name = match name_from_hostname(&host_bytes) {
        Some(n) => n,
        None => {
            return None;
        },
    };
    let rtype: u16 = match &record.inet {
        IpAddress::V4(_) => 1,
        IpAddress::V6(_) => 28,
    };
    let rdata = address_rdata(&record.inet);
    let rec = DnsResourceRecord { name, rtype, class: 1, ttl, rdata };
    proof {
        assert(rec@ =~= (DnsRecordView {
            name: split_labels(hostname.spec_bytes()),
            rtype: spec_rtype(record.inet),
            class: 1u16,
            ttl: ttl,
            rdata: spec_addr_rdata(record.inet),
        }));
    }
    Some(rec)
}

} // verus!
