//! Queries to the upstream server and what is made of its answers.

use vstd::hash_map::StringHashMap;
use vstd::prelude::*;
use vstd::string::*;
use vstd::utf8::*;

use crate::message::{
    flags_of, law_flag_bits_round_trip, law_header_round_trip, message_at, questions_at,
    record_views, records_at, Dns, DnsHeader, DnsView, QuestionView, ResultCode,
};
use crate::net::{Ipv4Addr, Ipv6Addr};
use crate::packet::{
    ascii_lowercase, be16, be16_bytes, be32_bytes, encode_name, law_name_round_trip,
    law_write_lands, lemma_root_wire, name_wire, overwrite, BytePacketBuf, PacketError,
    MAX_PACKET_SIZE, PACKET_CAPACITY,
};
use crate::record::{
    clone_texts, law_record_round_trip, lemma_split, lemma_u16_back, proper_name, push_u16,
    push_u32, query_type_of, reread, text_views, DnsRecord, DnsRecordView, QueryType,
};
use crate::text::concat2;

verus! {

/// Lifetime of a resolution that came without any record, and the longest time for which an
/// answer is cached, in seconds.
pub const DEFAULT_TTL_SECS: u32 = 60;

/// For how long others wait for a resolution of the same name, in nanoseconds.
pub const SINGLEFLIGHT_NANOS: u64 = 50_000_000;

#[derive(Debug, Clone, Copy, PartialEq, Eq, Structural)]
pub struct ARecord {
    pub addr: Ipv4Addr,
    pub ttl: u32,
}

#[derive(Debug, Clone, Copy, PartialEq, Eq, Structural)]
pub struct AAAARecord {
    pub addr: Ipv6Addr,
    pub ttl: u32,
}

#[derive(Debug, Clone)]
pub struct MxRecord {
    pub preference: u16,
    pub exchange: String,
    pub ttl: u32,
}

#[derive(Debug, Clone)]
pub struct NsRecord {
    pub host: String,
    pub ttl: u32,
}

#[derive(Debug, Clone)]
pub struct TxtRecord {
    pub data: Vec<String>,
    pub ttl: u32,
}

/// The records of a name, and for how many seconds they may be used.
#[derive(Debug, Clone)]
pub struct Resolution {
    pub qname: String,
    pub a_records: Vec<ARecord>,
    pub aaaa_records: Vec<AAAARecord>,
    pub mx_records: Vec<MxRecord>,
    pub ns_records: Vec<NsRecord>,
    pub txt_records: Vec<TxtRecord>,
    pub ttl_secs: u64,
}

/// The contents of a [`Resolution`]. Each record is kept as its data and its lifetime.
pub struct ResolutionView {
    pub qname: Seq<char>,
    pub a_records: Seq<ARecord>,
    pub aaaa_records: Seq<AAAARecord>,
    pub mx_records: Seq<(u16, Seq<char>, u32)>,
    pub ns_records: Seq<(Seq<char>, u32)>,
    pub txt_records: Seq<(Seq<Seq<char>>, u32)>,
    pub ttl_secs: u64,
}

impl View for Resolution {
    type V = ResolutionView;

    open spec fn view(&self) -> ResolutionView {
        ResolutionView {
            qname: self.qname@,
            a_records: self.a_records@,
            aaaa_records: self.aaaa_records@,
            mx_records: self.mx_records@.map_values(
                |r: MxRecord| (r.preference, r.exchange@, r.ttl),
            ),
            ns_records: self.ns_records@.map_values(|r: NsRecord| (r.host@, r.ttl)),
            txt_records: self.txt_records@.map_values(
                |r: TxtRecord| (text_views(r.data@), r.ttl),
            ),
            ttl_secs: self.ttl_secs,
        }
    }
}

/// Why a resolution failed.
#[derive(Debug)]
pub enum ResolveError {
    /// A packet could not be written or read.
    Packet(PacketError),
    /// The answer belongs to another query.
    MismatchedId,
    /// The server answered with an error.
    Dns(ResultCode),
    /// The exchange with the server failed.
    Transport(String),
}

impl ResolveError {
    /// The message shown to users.
    pub open spec fn text(&self) -> Seq<char> {
        match self {
            ResolveError::Packet(PacketError::EndOfBuffer) => "End of buffer"@,
            ResolveError::Packet(PacketError::TooManyJumps) => "Limit of 10 jumps exceeded"@,
            ResolveError::Packet(PacketError::BadText) => "Malformed character string"@,
            ResolveError::Packet(PacketError::LengthExceedsBuffer) => "Length exceeds buffer"@,
            ResolveError::MismatchedId => "mismatched DNS transaction ID"@,
            ResolveError::Dns(code) => "dns error: "@ + code.name_text(),
            ResolveError::Transport(text) => text@,
        }
    }

    /// The message shown to users.
    pub fn message(&self) -> (r: String)
        ensures
            r@ == self.text(),
    {
        match self {
            ResolveError::Packet(e) => e.message(),
            ResolveError::MismatchedId => "mismatched DNS transaction ID".to_string(),
            ResolveError::Dns(code) => concat2("dns error: ", code.name()),
            ResolveError::Transport(text) => text.clone(),
        }
    }
}

/// The record kinds that a resolution asks for.
pub open spec fn resolved_types() -> Seq<QueryType> {
    seq![QueryType::A, QueryType::AAAA, QueryType::MX, QueryType::NS, QueryType::TXT]
}

/// The record kinds that a resolution asks for.
pub fn query_types() -> (r: [QueryType; 5])
    ensures
        r@ == resolved_types(),
{
    let r: [QueryType; 5] = [
        QueryType::A,
        QueryType::AAAA,
        QueryType::MX,
        QueryType::NS,
        QueryType::TXT,
    ];
    assert(r@ =~= resolved_types());
    r
}

/// The query for `qname` as it stands in a packet: a header that asks for recursion and
/// counts one question and one additional record, the question, and an extension record
/// that announces the payload size.
pub open spec fn query_wire(id: u16, qname: Seq<char>, qtype: QueryType) -> Seq<u8> {
    be16_bytes(id) + be16_bytes(0x0100) + be16_bytes(1) + be16_bytes(0) + be16_bytes(0)
        + be16_bytes(1) + name_wire(encode_utf8(qname)) + be16_bytes(qtype.number()) + be16_bytes(1)
        + seq![0u8] + be16_bytes(QueryType::OPT.number()) + be16_bytes(MAX_PACKET_SIZE as u16)
        + be32_bytes(0) + be16_bytes(0)
}

/// A packet that holds the query for `qname`, and the length of the query.
pub fn build_query(id: u16, qname: &str, qtype: QueryType) -> (r: Result<
    (BytePacketBuf, usize),
    PacketError,
>)
    ensures
        ({
            let wire = query_wire(id, qname@, qtype);
            if wire.len() <= PACKET_CAPACITY {
                &&& r is Ok
                &&& r->Ok_0.1 == wire.len()
                &&& r->Ok_0.0.wf()
                &&& r->Ok_0.0.pos == 0
                &&& r->Ok_0.0.len == wire.len()
                &&& r->Ok_0.0.buf@ == overwrite(Seq::new(512, |i: int| 0u8), 0, wire)
            } else {
                r == Err::<(BytePacketBuf, usize), _>(PacketError::EndOfBuffer)
            }
        }),
{
    let mut buffer: BytePacketBuf = BytePacketBuf::new();
    let mut wire: Vec<u8> = Vec::new();
    push_u16(&mut wire, id);
    push_u16(&mut wire, 0x0100);
    push_u16(&mut wire, 1);
    push_u16(&mut wire, 0);
    push_u16(&mut wire, 0);
    push_u16(&mut wire, 1);
    let mut name: Vec<u8> = encode_name(qname);
    wire.append(&mut name);
    push_u16(&mut wire, u16::from(qtype));
    push_u16(&mut wire, 1);
    wire.push(0u8);
    push_u16(&mut wire, u16::from(QueryType::OPT));
    push_u16(&mut wire, MAX_PACKET_SIZE as u16);
    push_u32(&mut wire, 0);
    push_u16(&mut wire, 0);
    assert(wire@ =~= query_wire(id, qname@, qtype));
    buffer.write_bytes(wire.as_slice())?;
    let len: usize = buffer.pos();
    buffer.set_len(len)?;
    buffer.seek(0)?;
    Ok((buffer, len))
}

/// Whether `record` is of the kind `qtype` and belongs to `qname`.
pub open spec fn matches_query(record: DnsRecordView, qtype: QueryType, qname: Seq<char>) -> bool {
    &&& resolved_types().contains(qtype)
    &&& !(record is UNKNOWN)
    &&& record.rtype() == qtype
    &&& record.domain() == qname
}

pub fn record_matches(record: &DnsRecord, qtype: &QueryType, qname: &str) -> (r: bool)
    ensures
        r == matches_query(record@, *qtype, qname@),
{
    proof {
        let types = resolved_types();
        assert(types[0] == QueryType::A && types[1] == QueryType::AAAA && types[2] == QueryType::MX
            && types[3] == QueryType::NS && types[4] == QueryType::TXT);
    }
    match (record, qtype) {
        (DnsRecord::A { domain, .. }, QueryType::A) => same_text(domain, qname),
        (DnsRecord::AAAA { domain, .. }, QueryType::AAAA) => same_text(domain, qname),
        (DnsRecord::MX { domain, .. }, QueryType::MX) => same_text(domain, qname),
        (DnsRecord::NS { domain, .. }, QueryType::NS) => same_text(domain, qname),
        (DnsRecord::TXT { domain, .. }, QueryType::TXT) => same_text(domain, qname),
        _ => false,
    }
}

fn same_text(a: &String, b: &str) -> (r: bool)
    ensures
        r == (a@ == b@),
{
    let other: String = b.to_string();
    *a == other
}

/// The smaller of two lifetimes, where one may be missing.
pub fn update_min_ttl(current: Option<u32>, ttl: u32) -> (r: Option<u32>)
    ensures
        r == Some(
            match current {
                Some(existing) if existing <= ttl => existing,
                _ => ttl,
            },
        ),
{
    match current {
        Some(existing) => if existing <= ttl {
            Some(existing)
        } else {
            Some(ttl)
        },
        None => Some(ttl),
    }
}

/// What follows an exchange over UDP.
#[derive(Debug, Clone, Copy, PartialEq, Eq, Structural)]
pub enum UdpOutcome {
    /// The answer is complete.
    Complete,
    /// The answer was cut off: the query is repeated over TCP.
    RetryOverTcp,
}

/// Parses the answer to the query `id` from the start of `packet`.
pub fn accept_response(packet: &mut BytePacketBuf, id: u16) -> (r: Result<Dns, ResolveError>)
    ensures
        match message_at(old(packet).buf@, 0).0 {
            Err(e) => r == Err::<Dns, _>(ResolveError::Packet(e)),
            Ok(message) => if message.header.id == id {
                r is Ok && r->Ok_0@ == message
            } else {
                r == Err::<Dns, _>(ResolveError::MismatchedId)
            },
        },
        final(packet).is_at(old(packet), old(packet).buf@, message_at(old(packet).buf@, 0).1),
{
    packet.pos = 0;
    match Dns::parse_req(packet) {
        Err(e) => Err(ResolveError::Packet(e)),
        Ok(message) => if message.header.id != id {
            Err(ResolveError::MismatchedId)
        } else {
            Ok(message)
        },
    }
}

/// Decides whether an answer over UDP is repeated over TCP.
pub fn after_udp(message: &Dns) -> (r: UdpOutcome)
    ensures
        r == (if message.header.flags.truncated_message {
            UdpOutcome::RetryOverTcp
        } else {
            UdpOutcome::Complete
        }),
{
    if message.header.flags.truncated_message {
        UdpOutcome::RetryOverTcp
    } else {
        UdpOutcome::Complete
    }
}

/// A packet as it is sent over TCP: its length in two bytes, then the packet. Packets of
/// 65536 bytes or more cannot be sent that way.
pub fn tcp_frame(packet: &[u8]) -> (r: Option<Vec<u8>>)
    ensures
        if packet.len() <= 65535 {
            r is Some && r->0@ == be16_bytes(packet.len() as u16) + packet@
        } else {
            r is None
        },
{
    if packet.len() > 65535 {
        return None;
    }
    let mut frame: Vec<u8> = Vec::new();
    push_u16(&mut frame, packet.len() as u16);
    frame.extend_from_slice(packet);
    assert(frame@ =~= be16_bytes(packet.len() as u16) + packet@);
    Some(frame)
}

/// The length that the two bytes before a packet announce.
pub fn tcp_frame_len(prefix: [u8; 2]) -> (r: usize)
    ensures
        r == be16(prefix@[0], prefix@[1]),
{
    (prefix[0] as usize) * 256 + prefix[1] as usize
}

/// A packet sent over TCP announces its own length.
pub proof fn law_tcp_frame_announces_length(len: u16)
    ensures
        be16(be16_bytes(len)[0], be16_bytes(len)[1]) == len,
{
}

/// The records among `records` that answer the query for `qname`.
pub open spec fn answers(records: Seq<DnsRecordView>, qtype: QueryType, qname: Seq<char>) -> Seq<
    DnsRecordView,
> {
    records.filter(|r: DnsRecordView| matches_query(r, qtype, qname))
}

/// The records of an answer that belong to the query.
pub fn query_records(message: &Dns, qname: &str, qtype: QueryType) -> (r: Result<
    Vec<DnsRecord>,
    ResolveError,
>)
    ensures
        if message.header.flags.rescode != ResultCode::NOERROR {
            r == Err::<Vec<DnsRecord>, _>(ResolveError::Dns(message.header.flags.rescode))
        } else {
            r is Ok && record_views(r->Ok_0@) == answers(message@.answer, qtype, qname@)
        },
{
    let rescode: ResultCode = message.header.flags.rescode;
    if rescode != ResultCode::NOERROR {
        return Err(ResolveError::Dns(rescode));
    }
    let ghost pred = |r: DnsRecordView| matches_query(r, qtype, qname@);
    let ghost all = message@.answer;
    let mut filtered: Vec<DnsRecord> = Vec::new();
    let mut i: usize = 0;
    proof {
        reveal(Seq::filter);
        assert(all.take(0).filter(pred) =~= Seq::empty());
        assert(record_views(filtered@) =~= Seq::empty());
    }
    while i < message.answer.len()
        invariant
            i <= message.answer.len(),
            all == record_views(message.answer@),
            pred == (|r: DnsRecordView| matches_query(r, qtype, qname@)),
            record_views(filtered@) == all.take(i as int).filter(pred),
        decreases message.answer.len() - i,
    {
        let record: &DnsRecord = &message.answer[i];
        let ghost before = filtered@;
        proof {
            reveal(Seq::filter);
            assert(all.take(i + 1).drop_last() =~= all.take(i as int));
            assert(all.take(i + 1).last() == record@);
        }
        if record_matches(record, &qtype, qname) {
            let copy: DnsRecord = record.clone();
            filtered.push(copy);
            assert(record_views(filtered@) =~= record_views(before).push(copy@));
        }
        i = i + 1;
    }
    assert(all.take(i as int) =~= all);
    Ok(filtered)
}

/// The result of one query, with the kind of records that it asked for.
pub struct Reply {
    pub qtype: QueryType,
    pub result: Result<Vec<DnsRecord>, ResolveError>,
}

/// Records sorted by kind, and the smallest of their lifetimes.
pub struct Collected {
    pub a: Seq<ARecord>,
    pub aaaa: Seq<AAAARecord>,
    pub mx: Seq<(u16, Seq<char>, u32)>,
    pub ns: Seq<(Seq<char>, u32)>,
    pub txt: Seq<(Seq<Seq<char>>, u32)>,
    pub min_ttl: Option<u32>,
}

/// The smaller of two lifetimes, where one may be missing.
pub open spec fn min_ttl(current: Option<u32>, ttl: u32) -> Option<u32> {
    match current {
        Some(existing) if existing <= ttl => Some(existing),
        _ => Some(ttl),
    }
}

impl Collected {
    pub open spec fn empty() -> Collected {
        Collected {
            a: Seq::empty(),
            aaaa: Seq::empty(),
            mx: Seq::empty(),
            ns: Seq::empty(),
            txt: Seq::empty(),
            min_ttl: None,
        }
    }

    /// `self` with one more record. Extension records and those of unknown kind are left out.
    pub open spec fn with(self, record: DnsRecordView) -> Collected {
        match record {
            DnsRecordView::A { addr, ttl, .. } => Collected {
                a: self.a.push(ARecord { addr, ttl }),
                min_ttl: min_ttl(self.min_ttl, ttl),
                ..self
            },
            DnsRecordView::AAAA { addr, ttl, .. } => Collected {
                aaaa: self.aaaa.push(AAAARecord { addr, ttl }),
                min_ttl: min_ttl(self.min_ttl, ttl),
                ..self
            },
            DnsRecordView::MX { preference, exchange, ttl, .. } => Collected {
                mx: self.mx.push((preference, exchange, ttl)),
                min_ttl: min_ttl(self.min_ttl, ttl),
                ..self
            },
            DnsRecordView::NS { host, ttl, .. } => Collected {
                ns: self.ns.push((host, ttl)),
                min_ttl: min_ttl(self.min_ttl, ttl),
                ..self
            },
            DnsRecordView::TXT { data, ttl, .. } => Collected {
                txt: self.txt.push((data, ttl)),
                min_ttl: min_ttl(self.min_ttl, ttl),
                ..self
            },
            DnsRecordView::OPT { .. } | DnsRecordView::UNKNOWN { .. } => self,
        }
    }
}

/// All of `records`, sorted by kind in their order.
pub open spec fn collected(records: Seq<DnsRecordView>) -> Collected
    decreases records.len(),
{
    if records.len() == 0 {
        Collected::empty()
    } else {
        collected(records.drop_last()).with(records.last())
    }
}

/// The records of all replies, in the order of their arrival.
pub open spec fn found(replies: Seq<Reply>) -> Seq<DnsRecordView>
    decreases replies.len(),
{
    if replies.len() == 0 {
        Seq::empty()
    } else {
        match replies.last().result {
            Ok(records) => found(replies.drop_last()) + record_views(records@),
            Err(_) => found(replies.drop_last()),
        }
    }
}

/// Queries for addresses decide whether a resolution succeeds.
pub open spec fn primary(qtype: QueryType) -> bool {
    qtype is A || qtype is AAAA
}

/// A query for addresses was answered.
pub open spec fn primary_success(replies: Seq<Reply>) -> bool {
    exists|i: int|
        0 <= i < replies.len() && primary((#[trigger] replies[i]).qtype) && replies[i].result is Ok
}

/// The last error of a query for addresses.
pub open spec fn primary_error(replies: Seq<Reply>) -> Option<ResolveError>
    decreases replies.len(),
{
    if replies.len() == 0 {
        None
    } else {
        match replies.last().result {
            Err(e) if primary(replies.last().qtype) => Some(e),
            _ => primary_error(replies.drop_last()),
        }
    }
}

/// The error that a resolution with these replies ends with, if it fails: a query for
/// addresses failed, and either none was answered or no query found any record.
pub open spec fn failure(replies: Seq<Reply>) -> Option<ResolveError> {
    if !primary_success(replies) || found(replies).len() == 0 {
        primary_error(replies)
    } else {
        None
    }
}

/// The resolution of `qname` with these replies.
pub open spec fn resolution_of(qname: Seq<char>, replies: Seq<Reply>) -> ResolutionView {
    let all = collected(found(replies));
    ResolutionView {
        qname,
        a_records: all.a,
        aaaa_records: all.aaaa,
        mx_records: all.mx,
        ns_records: all.ns,
        txt_records: all.txt,
        ttl_secs: match all.min_ttl {
            None => DEFAULT_TTL_SECS as u64,
            Some(0) => 1,
            Some(ttl) => ttl as u64,
        },
    }
}

struct Aggregation {
    resolution: Resolution,
    min_ttl: Option<u32>,
}

impl Aggregation {
    spec fn holds(&self) -> Collected {
        Collected {
            a: self.resolution@.a_records,
            aaaa: self.resolution@.aaaa_records,
            mx: self.resolution@.mx_records,
            ns: self.resolution@.ns_records,
            txt: self.resolution@.txt_records,
            min_ttl: self.min_ttl,
        }
    }

    fn absorb(&mut self, record: &DnsRecord)
        ensures
            final(self).holds() == old(self).holds().with(record@),
            final(self).resolution.qname == old(self).resolution.qname,
    {
        let ghost before = self.holds();
        match record {
            DnsRecord::A { addr, ttl, .. } => {
                self.min_ttl = update_min_ttl(self.min_ttl, *ttl);
                self.resolution.a_records.push(ARecord { addr: *addr, ttl: *ttl });
            },
            DnsRecord::AAAA { addr, ttl, .. } => {
                self.min_ttl = update_min_ttl(self.min_ttl, *ttl);
                self.resolution.aaaa_records.push(AAAARecord { addr: *addr, ttl: *ttl });
            },
            DnsRecord::MX { preference, exchange, ttl, .. } => {
                self.min_ttl = update_min_ttl(self.min_ttl, *ttl);
                self.resolution.mx_records.push(
                    MxRecord { preference: *preference, exchange: exchange.clone(), ttl: *ttl },
                );
            },
            DnsRecord::NS { host, ttl, .. } => {
                self.min_ttl = update_min_ttl(self.min_ttl, *ttl);
                self.resolution.ns_records.push(NsRecord { host: host.clone(), ttl: *ttl });
            },
            DnsRecord::TXT { data, ttl, .. } => {
                self.min_ttl = update_min_ttl(self.min_ttl, *ttl);
                self.resolution.txt_records.push(TxtRecord { data: clone_texts(data), ttl: *ttl });
            },
            DnsRecord::OPT { .. } | DnsRecord::UNKNOWN { .. } => {},
        }
        proof {
            let after = before.with(record@);
            assert(self.holds().a =~= after.a);
            assert(self.holds().aaaa =~= after.aaaa);
            assert(self.holds().mx =~= after.mx);
            assert(self.holds().ns =~= after.ns);
            assert(self.holds().txt =~= after.txt);
        }
    }

    fn absorb_all(&mut self, records: &Vec<DnsRecord>, Ghost(seen): Ghost<Seq<DnsRecordView>>)
        requires
            old(self).holds() == collected(seen),
        ensures
            final(self).holds() == collected(seen + record_views(records@)),
            final(self).resolution.qname == old(self).resolution.qname,
    {
        let ghost all = record_views(records@);
        let mut i: usize = 0;
        assert(seen + all.take(0) =~= seen);
        while i < records.len()
            invariant
                i <= records.len(),
                all == record_views(records@),
                self.holds() == collected(seen + all.take(i as int)),
                self.resolution.qname == old(self).resolution.qname,
            decreases records.len() - i,
        {
            self.absorb(&records[i]);
            proof {
                let next = seen + all.take(i + 1);
                assert(next.drop_last() =~= seen + all.take(i as int));
                assert(next.last() == records@[i as int]@);
            }
            i = i + 1;
        }
        assert(all.take(i as int) =~= all);
    }
}

/// Makes a resolution of the replies to all queries for `qname`, in the order in which they
/// arrived.
pub fn resolve_replies(qname: &str, replies: Vec<Reply>) -> (r: Result<Resolution, ResolveError>)
    ensures
        match failure(replies@) {
            Some(e) => r == Err::<Resolution, _>(e),
            None => r is Ok && r->Ok_0@ == resolution_of(qname@, replies@),
        },
{
    let ghost all = replies@;
    let mut left: Vec<Reply> = replies;
    let mut sums: Aggregation = Aggregation {
        resolution: Resolution {
            qname: qname.to_string(),
            a_records: Vec::new(),
            aaaa_records: Vec::new(),
            mx_records: Vec::new(),
            ns_records: Vec::new(),
            txt_records: Vec::new(),
            ttl_secs: 0,
        },
        min_ttl: None,
    };
    let mut had_success: bool = false;
    let mut primary_ok: bool = false;
    let mut error: Option<ResolveError> = None;
    let ghost mut seen: Seq<Reply> = Seq::empty();
    proof {
        let empty = Collected::empty();
        assert(sums.holds().mx =~= empty.mx);
        assert(sums.holds().ns =~= empty.ns);
        assert(sums.holds().txt =~= empty.txt);
        assert(seen + left@ =~= all);
    }
    while left.len() > 0
        invariant
            all == seen + left@,
            sums.holds() == collected(found(seen)),
            sums.resolution.qname@ == qname@,
            had_success == (found(seen).len() > 0),
            primary_ok == primary_success(seen),
            error == primary_error(seen),
        decreases left.len(),
    {
        let ghost rest = left@;
        let reply: Reply = left.remove(0);
        let ghost was = seen;
        proof {
            seen = seen.push(reply);
            assert(seen.drop_last() =~= was);
            assert(seen + left@ =~= was + rest);
            assert forall|i: int| 0 <= i < was.len() implies was[i] == #[trigger] seen[i] by {}
            assert(seen[was.len() as int] == reply);
        }
        let is_primary: bool = match reply.qtype {
            QueryType::A => true,
            QueryType::AAAA => true,
            _ => false,
        };
        match reply.result {
            Ok(records) => {
                if is_primary {
                    primary_ok = true;
                    assert(primary(seen[was.len() as int].qtype));
                }
                if records.len() > 0 {
                    had_success = true;
                }
                sums.absorb_all(&records, Ghost(found(was)));
            },
            Err(e) => {
                if is_primary {
                    error = Some(e);
                }
            },
        }
        assert(primary_ok == primary_success(seen)) by {
            if primary_success(was) {
                let i = choose|i: int|
                    0 <= i < was.len() && primary((#[trigger] was[i]).qtype)
                        && was[i].result is Ok;
                assert(seen[i] == was[i]);
            }
        }
    }
    assert(seen =~= all);
    if !primary_ok || !had_success {
        if let Some(e) = error {
            return Err(e);
        }
    }
    let mut resolution: Resolution = sums.resolution;
    let ttl: u32 = match sums.min_ttl {
        Some(ttl) => ttl,
        None => DEFAULT_TTL_SECS,
    };
    resolution.ttl_secs = if ttl == 0 {
        1
    } else {
        ttl as u64
    };
    Ok(resolution)
}

/// Calls `str::to_ascii_lowercase`: `A` to `Z` become `a` to `z`, everything else stays.
#[verifier::external_body]
fn to_ascii_lowercase(text: &str) -> (lower: String)
    ensures
        lower@ == ascii_lowercase(text@),
{
    text.to_ascii_lowercase()
}

/// The key under which the resolution of `qname` is cached and shared.
pub fn cache_key(qname: &str) -> (r: String)
    ensures
        r@ == ascii_lowercase(qname@),
{
    to_ascii_lowercase(qname)
}

/// For how many seconds an answer that lives for `ttl_secs` is kept: no longer than
/// [`DEFAULT_TTL_SECS`].
pub open spec fn kept_secs(ttl_secs: u64) -> u64 {
    if ttl_secs < DEFAULT_TTL_SECS {
        ttl_secs
    } else {
        DEFAULT_TTL_SECS as u64
    }
}

/// For how many seconds an answer that lives for `ttl_secs` is cached.
pub fn cache_secs(ttl_secs: u64) -> (r: u64)
    ensures
        r == kept_secs(ttl_secs),
{
    if ttl_secs < DEFAULT_TTL_SECS as u64 {
        ttl_secs
    } else {
        DEFAULT_TTL_SECS as u64
    }
}

/// The resolutions under way: for each key, the time up to which others wait for it, in
/// nanoseconds of the process clock.
pub struct Singleflight {
    entries: StringHashMap<u128>,
}

/// Whether a caller resolves a name itself.
#[derive(Debug, Clone, Copy, PartialEq, Eq, Structural)]
pub enum FlightRole {
    /// The caller resolves the name.
    Lead,
    /// The caller waits for the one that does.
    Follow,
}

impl View for Singleflight {
    type V = Map<Seq<char>, u128>;

    closed spec fn view(&self) -> Map<Seq<char>, u128> {
        self.entries@
    }
}

/// The role of a caller that comes at `now` to resolve `key`, and the resolutions under way
/// after it: the caller follows while the time of the one before it runs, and leads otherwise.
pub open spec fn entered(flights: Map<Seq<char>, u128>, key: Seq<char>, now: u64) -> (
    FlightRole,
    Map<Seq<char>, u128>,
) {
    if flights.contains_key(key) && flights[key] > now {
        (FlightRole::Follow, flights)
    } else {
        (FlightRole::Lead, flights.insert(key, (now + SINGLEFLIGHT_NANOS) as u128))
    }
}

impl Singleflight {
    pub fn new() -> (r: Singleflight)
        ensures
            r@ == Map::<Seq<char>, u128>::empty(),
    {
        Singleflight { entries: StringHashMap::new() }
    }

    /// Joins the resolution of `key` that is under way at `now`, or starts one.
    pub fn enter(&mut self, key: &str, now: u64) -> (r: FlightRole)
        ensures
            (r, final(self)@) == entered(old(self)@, key@, now),
    {
        if let Some(expires_at) = self.entries.get(key) {
            if *expires_at > now as u128 {
                return FlightRole::Follow;
            }
        }
        self.entries.insert(key.to_string(), now as u128 + SINGLEFLIGHT_NANOS as u128);
        FlightRole::Lead
    }

    /// Ends the resolution of `key`. Returns whether there is one whose followers are to be woken.
    pub fn leave(&mut self, key: &str) -> (r: bool)
        ensures
            r == old(self)@.contains_key(key@),
            final(self)@ == old(self)@.remove(key@),
    {
        let present: bool = self.entries.contains_key(key);
        self.entries.remove(key);
        present
    }
}

/// What a resolution does next.
#[derive(Debug, Clone, Copy, PartialEq, Eq, Structural)]
pub enum ResolveState {
    /// Look the key up in the cache.
    Lookup,
    /// Join or start the resolution of the key.
    Enter,
    /// Wait until the resolution under way ends.
    Await,
    /// Look the key up after waiting.
    LookupAgain,
    /// Ask the upstream server.
    Query,
    /// Store the resolution if `store` says so, then end the resolution of the key.
    Leave { store: bool },
    /// Look the key up after asking.
    LookupLast,
    /// Return what the cache holds.
    ReturnCached,
    /// Return what the upstream server gave.
    ReturnQueried,
}

/// What came of it.
#[derive(Debug, Clone, Copy, PartialEq, Eq, Structural)]
pub enum ResolveEvent {
    Hit,
    Miss,
    Entered(FlightRole),
    Woken,
    Answered { ttl_secs: u64 },
    Failed,
    Left,
}

/// The state that follows `state` on `event`. Events that do not belong to a state change nothing.
pub open spec fn resolve_next(state: ResolveState, event: ResolveEvent) -> ResolveState {
    match (state, event) {
        (ResolveState::Lookup, ResolveEvent::Hit) => ResolveState::ReturnCached,
        (ResolveState::Lookup, ResolveEvent::Miss) => ResolveState::Enter,
        (ResolveState::Enter, ResolveEvent::Entered(FlightRole::Follow)) => ResolveState::Await,
        (ResolveState::Enter, ResolveEvent::Entered(FlightRole::Lead)) => ResolveState::Query,
        (ResolveState::Await, ResolveEvent::Woken) => ResolveState::LookupAgain,
        (ResolveState::LookupAgain, ResolveEvent::Hit) => ResolveState::ReturnCached,
        (ResolveState::LookupAgain, ResolveEvent::Miss) => ResolveState::Enter,
        (ResolveState::Query, ResolveEvent::Answered { ttl_secs }) => ResolveState::Leave {
            store: ttl_secs > 0,
        },
        (ResolveState::Query, ResolveEvent::Failed) => ResolveState::Leave { store: false },
        (ResolveState::Leave { .. }, ResolveEvent::Left) => ResolveState::LookupLast,
        (ResolveState::LookupLast, ResolveEvent::Hit) => ResolveState::ReturnCached,
        (ResolveState::LookupLast, ResolveEvent::Miss) => ResolveState::ReturnQueried,
        _ => state,
    }
}

impl ResolveState {
    /// Moves on after `event`.
    pub fn next(self, event: ResolveEvent) -> (r: ResolveState)
        ensures
            r == resolve_next(self, event),
    {
        match (self, event) {
            (ResolveState::Lookup, ResolveEvent::Hit) => ResolveState::ReturnCached,
            (ResolveState::Lookup, ResolveEvent::Miss) => ResolveState::Enter,
            (ResolveState::Enter, ResolveEvent::Entered(FlightRole::Follow)) => ResolveState::Await,
            (ResolveState::Enter, ResolveEvent::Entered(FlightRole::Lead)) => ResolveState::Query,
            (ResolveState::Await, ResolveEvent::Woken) => ResolveState::LookupAgain,
            (ResolveState::LookupAgain, ResolveEvent::Hit) => ResolveState::ReturnCached,
            (ResolveState::LookupAgain, ResolveEvent::Miss) => ResolveState::Enter,
            (ResolveState::Query, ResolveEvent::Answered { ttl_secs }) => ResolveState::Leave {
                store: ttl_secs > 0,
            },
            (ResolveState::Query, ResolveEvent::Failed) => ResolveState::Leave { store: false },
            (ResolveState::Leave { .. }, ResolveEvent::Left) => ResolveState::LookupLast,
            (ResolveState::LookupLast, ResolveEvent::Hit) => ResolveState::ReturnCached,
            (ResolveState::LookupLast, ResolveEvent::Miss) => ResolveState::ReturnQueried,
            _ => self,
        }
    }
}

/// Whoever asked the upstream server ends the resolution of the key before returning.
pub proof fn law_query_is_followed_by_leave(event: ResolveEvent, store: bool)
    ensures
        ({
            let next = resolve_next(ResolveState::Query, event);
            next == ResolveState::Query || next is Leave
        }),
        ({
            let next = resolve_next(ResolveState::Leave { store }, event);
            next == (ResolveState::Leave { store }) || next == ResolveState::LookupLast
        }),
{
}

/// An answer that is cached is returned without asking the upstream server, and only callers
/// that lead the resolution of a key ask it.
pub proof fn law_only_leaders_ask(state: ResolveState, event: ResolveEvent)
    ensures
        state == ResolveState::Lookup || state == ResolveState::LookupAgain || state
            == ResolveState::LookupLast ==> resolve_next(state, ResolveEvent::Hit)
            == ResolveState::ReturnCached,
        resolve_next(ResolveState::ReturnCached, event) == ResolveState::ReturnCached,
        state != ResolveState::Query && resolve_next(state, event) == ResolveState::Query ==> state
            == ResolveState::Enter && event == ResolveEvent::Entered(FlightRole::Lead),
{
}

/// Only an answer that lives on is stored.
pub proof fn law_only_living_answers_are_stored(state: ResolveState, event: ResolveEvent)
    requires
        !(state is Leave),
        resolve_next(state, event) == (ResolveState::Leave { store: true }),
    ensures
        state == ResolveState::Query,
        event is Answered && event->ttl_secs > 0,
{
}

/// Only one caller at a time leads the resolution of a key: while the leader's time runs,
/// every other caller follows; once the leader has left, the next one leads.
pub proof fn law_single_leader(before: Map<Seq<char>, u128>, key: Seq<char>, start: u64, now: u64)
    requires
        entered(before, key, start).0 == FlightRole::Lead,
        start <= now < start + SINGLEFLIGHT_NANOS,
    ensures
        ({
            let during = entered(before, key, start).1;
            &&& entered(during, key, now) == (FlightRole::Follow, during)
            &&& entered(during.remove(key), key, now).0 == FlightRole::Lead
        }),
{
}

/// The record has a lifetime that counts.
pub open spec fn lives(record: DnsRecordView) -> bool {
    !(record is OPT) && !(record is UNKNOWN)
}

/// How long a record lives, in seconds: at least one.
pub open spec fn lifetime(record: DnsRecordView) -> u64 {
    if record.ttl() == 0 {
        1
    } else {
        record.ttl() as u64
    }
}

/// The lifetime of a resolution is the shortest of its records' lifetimes, and the default if
/// it has no records.
pub proof fn law_lifetime_is_minimum(qname: Seq<char>, replies: Seq<Reply>)
    ensures
        ({
            let ttl = resolution_of(qname, replies).ttl_secs;
            let records = found(replies);
            &&& forall|i: int|
                0 <= i < records.len() && lives(#[trigger] records[i]) ==> ttl <= lifetime(
                    records[i],
                )
            &&& (exists|i: int|
                0 <= i < records.len() && lives(#[trigger] records[i]) && ttl == lifetime(
                    records[i],
                )) || (ttl == DEFAULT_TTL_SECS && forall|i: int|
                0 <= i < records.len() ==> !lives(#[trigger] records[i]))
        }),
{
    lemma_collected_min(found(replies));
}

proof fn lemma_collected_min(records: Seq<DnsRecordView>)
    ensures
        match collected(records).min_ttl {
            Some(ttl) => {
                &&& forall|i: int|
                    0 <= i < records.len() && lives(#[trigger] records[i]) ==> ttl
                        <= records[i].ttl()
                &&& exists|i: int|
                    0 <= i < records.len() && lives(#[trigger] records[i]) && ttl
                        == records[i].ttl()
            },
            None => forall|i: int| 0 <= i < records.len() ==> !lives(#[trigger] records[i]),
        },
    decreases records.len(),
{
    if records.len() > 0 {
        let init = records.drop_last();
        let last = records.len() - 1;
        lemma_collected_min(init);
        assert(forall|i: int| 0 <= i < last ==> init[i] == #[trigger] records[i]);
        match collected(init).min_ttl {
            Some(ttl) => {
                let k = choose|i: int|
                    0 <= i < init.len() && lives(#[trigger] init[i]) && ttl == init[i].ttl();
                assert(lives(records[k]) && records[k].ttl() == ttl);
            },
            None => {},
        }
        assert(records[last] == records.last());
    }
}

/// The contents of `record` are in the list of its kind.
pub open spec fn holds_record(c: Collected, record: DnsRecordView) -> bool {
    match record {
        DnsRecordView::A { addr, ttl, .. } => c.a.contains(ARecord { addr, ttl }),
        DnsRecordView::AAAA { addr, ttl, .. } => c.aaaa.contains(AAAARecord { addr, ttl }),
        DnsRecordView::MX { preference, exchange, ttl, .. } => c.mx.contains(
            (preference, exchange, ttl),
        ),
        DnsRecordView::NS { host, ttl, .. } => c.ns.contains((host, ttl)),
        DnsRecordView::TXT { data, ttl, .. } => c.txt.contains((data, ttl)),
        DnsRecordView::OPT { .. } | DnsRecordView::UNKNOWN { .. } => true,
    }
}

/// A resolution holds every record that came with a reply, and has as many records as came.
pub proof fn law_every_record_is_kept(qname: Seq<char>, replies: Seq<Reply>)
    ensures
        ({
            let c = collected(found(replies));
            let r = resolution_of(qname, replies);
            &&& r.a_records == c.a && r.aaaa_records == c.aaaa && r.mx_records == c.mx
                && r.ns_records == c.ns && r.txt_records == c.txt
            &&& forall|i: int|
                0 <= i < found(replies).len() ==> holds_record(c, #[trigger] found(replies)[i])
            &&& c.a.len() + c.aaaa.len() + c.mx.len() + c.ns.len() + c.txt.len() == found(
                replies,
            ).filter(|record: DnsRecordView| lives(record)).len()
        }),
{
    lemma_records_kept(found(replies));
}

proof fn lemma_pushed<A>(s: Seq<A>, last: A)
    ensures
        s.push(last).contains(last),
        forall|x: A| s.contains(x) ==> #[trigger] s.push(last).contains(x),
{
    assert(s.push(last)[s.len() as int] == last);
    assert forall|x: A| s.contains(x) implies #[trigger] s.push(last).contains(x) by {
        let k = choose|k: int| 0 <= k < s.len() && s[k] == x;
        assert(s.push(last)[k] == x);
    }
}

proof fn lemma_records_kept(records: Seq<DnsRecordView>)
    ensures
        forall|i: int|
            0 <= i < records.len() ==> holds_record(collected(records), #[trigger] records[i]),
        ({
            let c = collected(records);
            c.a.len() + c.aaaa.len() + c.mx.len() + c.ns.len() + c.txt.len() == records.filter(
                |record: DnsRecordView| lives(record),
            ).len()
        }),
    decreases records.len(),
{
    reveal(Seq::filter);
    if records.len() > 0 {
        let init = records.drop_last();
        let last = records.last();
        let c = collected(init);
        lemma_records_kept(init);
        match last {
            DnsRecordView::A { addr, ttl, .. } => lemma_pushed(c.a, ARecord { addr, ttl }),
            DnsRecordView::AAAA { addr, ttl, .. } => lemma_pushed(
                c.aaaa,
                AAAARecord { addr, ttl },
            ),
            DnsRecordView::MX { preference, exchange, ttl, .. } => lemma_pushed(
                c.mx,
                (preference, exchange, ttl),
            ),
            DnsRecordView::NS { host, ttl, .. } => lemma_pushed(c.ns, (host, ttl)),
            DnsRecordView::TXT { data, ttl, .. } => lemma_pushed(c.txt, (data, ttl)),
            DnsRecordView::OPT { .. } | DnsRecordView::UNKNOWN { .. } => {},
        }
        assert forall|i: int| 0 <= i < records.len() implies holds_record(
            collected(records),
            #[trigger] records[i],
        ) by {
            if i < init.len() {
                assert(init[i] == records[i]);
                assert(holds_record(c, init[i]));
            }
        }
    }
}

/// The record is in the resolution, in the list of its kind, with its data and its lifetime.
pub open spec fn is_listed(r: ResolutionView, record: DnsRecordView) -> bool {
    match record {
        DnsRecordView::A { addr, ttl, .. } => r.a_records.contains(ARecord { addr, ttl }),
        DnsRecordView::AAAA { addr, ttl, .. } => r.aaaa_records.contains(AAAARecord { addr, ttl }),
        DnsRecordView::MX { preference, exchange, ttl, .. } => r.mx_records.contains(
            (preference, exchange, ttl),
        ),
        DnsRecordView::NS { host, ttl, .. } => r.ns_records.contains((host, ttl)),
        DnsRecordView::TXT { data, ttl, .. } => r.txt_records.contains((data, ttl)),
        DnsRecordView::OPT { .. } | DnsRecordView::UNKNOWN { .. } => true,
    }
}

/// Every record of every reply is in the resolution, and lives no shorter than the resolution,
/// which lives for a second at least.
pub proof fn law_resolution_has_every_record_of_every_reply(
    qname: Seq<char>,
    replies: Seq<Reply>,
    i: int,
    j: int,
)
    requires
        0 <= i < replies.len(),
        replies[i].result is Ok,
        0 <= j < replies[i].result->Ok_0@.len(),
    ensures
        ({
            let r = resolution_of(qname, replies);
            let record = replies[i].result->Ok_0@[j]@;
            &&& is_listed(r, record)
            &&& !(record is OPT) && !(record is UNKNOWN) ==> r.ttl_secs <= 1 || r.ttl_secs
                <= record.ttl()
            &&& r.ttl_secs >= 1
            &&& r.qname == qname
        }),
{
    let all = found(replies);
    lemma_found_at(replies, i, j);
    let k = choose|k: int| 0 <= k < all.len() && all[k] == replies[i].result->Ok_0@[j]@;
    lemma_records_kept(all);
    assert(holds_record(collected(all), all[k]));
    law_lifetime_is_minimum(qname, replies);
    assert(lives(all[k]) ==> resolution_of(qname, replies).ttl_secs <= lifetime(all[k]));
}

proof fn lemma_found_at(replies: Seq<Reply>, i: int, j: int)
    requires
        0 <= i < replies.len(),
        replies[i].result is Ok,
        0 <= j < replies[i].result->Ok_0@.len(),
    ensures
        found(replies).contains(replies[i].result->Ok_0@[j]@),
    decreases replies.len(),
{
    let init = replies.drop_last();
    let record = replies[i].result->Ok_0@[j]@;
    let all = found(replies);
    if i == replies.len() - 1 {
        let n = found(init).len() as int;
        assert(all[n + j] == record);
    } else {
        assert(init[i] == replies[i]);
        lemma_found_at(init, i, j);
        let k = choose|k: int| 0 <= k < found(init).len() && found(init)[k] == record;
        assert(all[k] == record);
    }
}

/// A resolution lists the records of the replies and nothing else: each list holds, in the order
/// in which they came, the records of its kind of all replies that were answered.
pub proof fn law_resolution_lists_records_in_order(qname: Seq<char>, replies: Seq<Reply>)
    ensures
        ({
            let r = resolution_of(qname, replies);
            let all = replies.flat_map(
                |reply: Reply|
                    match reply.result {
                        Ok(records) => records@,
                        Err(_) => Seq::<DnsRecord>::empty(),
                    },
            );
            &&& r.a_records == all.filter_map(
                |record: DnsRecord|
                    match record@ {
                        DnsRecordView::A { addr, ttl, .. } => Some(ARecord { addr, ttl }),
                        _ => None,
                    },
            )
            &&& r.aaaa_records == all.filter_map(
                |record: DnsRecord|
                    match record@ {
                        DnsRecordView::AAAA { addr, ttl, .. } => Some(AAAARecord { addr, ttl }),
                        _ => None,
                    },
            )
            &&& r.mx_records == all.filter_map(
                |record: DnsRecord|
                    match record@ {
                        DnsRecordView::MX { preference, exchange, ttl, .. } => Some(
                            (preference, exchange, ttl),
                        ),
                        _ => None,
                    },
            )
            &&& r.ns_records == all.filter_map(
                |record: DnsRecord|
                    match record@ {
                        DnsRecordView::NS { host, ttl, .. } => Some((host, ttl)),
                        _ => None,
                    },
            )
            &&& r.txt_records == all.filter_map(
                |record: DnsRecord|
                    match record@ {
                        DnsRecordView::TXT { data, ttl, .. } => Some((data, ttl)),
                        _ => None,
                    },
            )
        }),
{
    let part = |reply: Reply|
        match reply.result {
            Ok(records) => records@,
            Err(_) => Seq::<DnsRecord>::empty(),
        };
    let all = replies.flat_map(part);
    lemma_found_flat(replies);
    lemma_collected_lists(all);
}

proof fn lemma_found_flat(replies: Seq<Reply>)
    ensures
        found(replies) == record_views(
            replies.flat_map(
                |reply: Reply|
                    match reply.result {
                        Ok(records) => records@,
                        Err(_) => Seq::<DnsRecord>::empty(),
                    },
            ),
        ),
    decreases replies.len(),
{
    let part = |reply: Reply|
        match reply.result {
            Ok(records) => records@,
            Err(_) => Seq::<DnsRecord>::empty(),
        };
    let parts = replies.map_values(part);
    parts.lemma_flatten_and_flatten_alt_are_equivalent();
    if replies.len() > 0 {
        let init = replies.drop_last();
        lemma_found_flat(init);
        init.map_values(part).lemma_flatten_and_flatten_alt_are_equivalent();
        assert(parts.drop_last() =~= init.map_values(part));
        assert(parts.last() == part(replies.last()));
        assert(replies.flat_map(part) == init.flat_map(part) + part(replies.last()));
        assert(record_views(replies.flat_map(part)) =~= record_views(init.flat_map(part))
            + record_views(part(replies.last())));
        assert(found(replies) =~= record_views(replies.flat_map(part)));
    } else {
        assert(found(replies) =~= record_views(replies.flat_map(part)));
    }
}

proof fn lemma_collected_lists(all: Seq<DnsRecord>)
    ensures
        ({
            let c = collected(record_views(all));
            &&& c.a == all.filter_map(
                |record: DnsRecord|
                    match record@ {
                        DnsRecordView::A { addr, ttl, .. } => Some(ARecord { addr, ttl }),
                        _ => None,
                    },
            )
            &&& c.aaaa == all.filter_map(
                |record: DnsRecord|
                    match record@ {
                        DnsRecordView::AAAA { addr, ttl, .. } => Some(AAAARecord { addr, ttl }),
                        _ => None,
                    },
            )
            &&& c.mx == all.filter_map(
                |record: DnsRecord|
                    match record@ {
                        DnsRecordView::MX { preference, exchange, ttl, .. } => Some(
                            (preference, exchange, ttl),
                        ),
                        _ => None,
                    },
            )
            &&& c.ns == all.filter_map(
                |record: DnsRecord|
                    match record@ {
                        DnsRecordView::NS { host, ttl, .. } => Some((host, ttl)),
                        _ => None,
                    },
            )
            &&& c.txt == all.filter_map(
                |record: DnsRecord|
                    match record@ {
                        DnsRecordView::TXT { data, ttl, .. } => Some((data, ttl)),
                        _ => None,
                    },
            )
        }),
    decreases all.len(),
{
    if all.len() > 0 {
        lemma_collected_lists(all.drop_last());
        assert(record_views(all).drop_last() =~= record_views(all.drop_last()));
        assert(record_views(all).last() == all.last()@);
    } else {
        assert(record_views(all) =~= Seq::empty());
    }
}

/// A resolution has as many records as all replies together, without extension records and
/// records of unknown kind.
pub proof fn law_resolution_counts_records(qname: Seq<char>, replies: Seq<Reply>)
    ensures
        ({
            let r = resolution_of(qname, replies);
            r.a_records.len() + r.aaaa_records.len() + r.mx_records.len() + r.ns_records.len()
                + r.txt_records.len() == replies.fold_left(
                0int,
                |sum: int, reply: Reply|
                    sum + match reply.result {
                        Ok(records) => records@.filter(
                            |record: DnsRecord| !(record@ is OPT) && !(record@ is UNKNOWN),
                        ).len() as int,
                        Err(_) => 0,
                    },
            )
        }),
    decreases replies.len(),
{
    let living = |record: DnsRecord| !(record@ is OPT) && !(record@ is UNKNOWN);
    if replies.len() == 0 {
        assert(found(replies) =~= Seq::empty());
    } else {
        let init = replies.drop_last();
        law_resolution_counts_records(qname, init);
        match replies.last().result {
            Ok(records) => {
                lemma_collected_grows(found(init), records@);
            },
            Err(_) => {},
        }
    }
}

proof fn lemma_collected_grows(before: Seq<DnsRecordView>, records: Seq<DnsRecord>)
    ensures
        ({
            let c = collected(before);
            let d = collected(before + record_views(records));
            d.a.len() + d.aaaa.len() + d.mx.len() + d.ns.len() + d.txt.len() == c.a.len()
                + c.aaaa.len() + c.mx.len() + c.ns.len() + c.txt.len() + records.filter(
                |record: DnsRecord| !(record@ is OPT) && !(record@ is UNKNOWN),
            ).len()
        }),
    decreases records.len(),
{
    reveal(Seq::filter);
    let all = before + record_views(records);
    if records.len() == 0 {
        assert(all =~= before);
    } else {
        lemma_collected_grows(before, records.drop_last());
        assert(all.drop_last() =~= before + record_views(records.drop_last()));
        assert(all.last() == records.last()@);
    }
}

/// A resolution fails exactly if a query for addresses failed and either none was answered or
/// no query brought any record. The error is that of the last such failure.
pub proof fn law_resolution_fails_with_addresses(replies: Seq<Reply>)
    ensures
        failure(replies) is Some <==> {
            &&& exists|i: int|
                0 <= i < replies.len() && ((#[trigger] replies[i]).qtype is A || replies[i].qtype
                    is AAAA) && replies[i].result is Err
            &&& {
                ||| forall|i: int|
                    0 <= i < replies.len() && ((#[trigger] replies[i]).qtype is A
                        || replies[i].qtype is AAAA) ==> replies[i].result is Err
                ||| forall|i: int|
                    0 <= i < replies.len() && (#[trigger] replies[i]).result is Ok
                        ==> replies[i].result->Ok_0@.len() == 0
            }
        },
        failure(replies) is Some ==> exists|i: int|
            0 <= i < replies.len() && ((#[trigger] replies[i]).qtype is A || replies[i].qtype
                is AAAA) && replies[i].result == Err::<Vec<DnsRecord>, ResolveError>(
                failure(replies)->0,
            ) && forall|k: int|
                i < k < replies.len() && ((#[trigger] replies[k]).qtype is A || replies[k].qtype
                    is AAAA) ==> replies[k].result is Ok,
{
    lemma_primary_error(replies);
    lemma_found_empty(replies);
}

proof fn lemma_primary_error(replies: Seq<Reply>)
    ensures
        match primary_error(replies) {
            Some(e) => exists|i: int|
                0 <= i < replies.len() && ((#[trigger] replies[i]).qtype is A || replies[i].qtype
                    is AAAA) && replies[i].result == Err::<Vec<DnsRecord>, ResolveError>(e)
                    && forall|k: int|
                    i < k < replies.len() && ((#[trigger] replies[k]).qtype is A
                        || replies[k].qtype is AAAA) ==> replies[k].result is Ok,
            None => forall|i: int|
                0 <= i < replies.len() && ((#[trigger] replies[i]).qtype is A || replies[i].qtype
                    is AAAA) ==> replies[i].result is Ok,
        },
    decreases replies.len(),
{
    if replies.len() > 0 {
        let init = replies.drop_last();
        let n = replies.len() - 1;
        lemma_primary_error(init);
        assert(replies[n] == replies.last());
        assert(forall|k: int| 0 <= k < n ==> init[k] == #[trigger] replies[k]);
        match primary_error(replies) {
            Some(e) => {
                if primary(replies.last().qtype) && replies.last().result is Err {
                    assert(replies[n].result == Err::<Vec<DnsRecord>, ResolveError>(e));
                } else {
                    let i = choose|i: int|
                        0 <= i < init.len() && ((#[trigger] init[i]).qtype is A || init[i].qtype
                            is AAAA) && init[i].result == Err::<Vec<DnsRecord>, ResolveError>(e)
                            && forall|k: int|
                            i < k < init.len() && ((#[trigger] init[k]).qtype is A
                                || init[k].qtype is AAAA) ==> init[k].result is Ok;
                    assert(replies[i] == init[i]);
                    assert forall|k: int|
                        i < k < replies.len() && ((#[trigger] replies[k]).qtype is A
                            || replies[k].qtype is AAAA) implies replies[k].result is Ok by {
                        if k < n {
                            assert(init[k] == replies[k]);
                        }
                    }
                }
            },
            None => {
                assert forall|i: int|
                    0 <= i < replies.len() && ((#[trigger] replies[i]).qtype is A
                        || replies[i].qtype is AAAA) implies replies[i].result is Ok by {
                    if i < n {
                        assert(init[i] == replies[i]);
                    }
                }
            },
        }
    }
}

proof fn lemma_found_empty(replies: Seq<Reply>)
    ensures
        found(replies).len() == 0 <==> forall|i: int|
            0 <= i < replies.len() && (#[trigger] replies[i]).result is Ok
                ==> replies[i].result->Ok_0@.len() == 0,
{
    if found(replies).len() == 0 {
        assert forall|i: int|
            0 <= i < replies.len() && (#[trigger] replies[i]).result is Ok implies
            replies[i].result->Ok_0@.len() == 0 by {
            if replies[i].result->Ok_0@.len() > 0 {
                lemma_found_at(replies, i, 0);
            }
        }
    }
    if forall|i: int|
        0 <= i < replies.len() && (#[trigger] replies[i]).result is Ok
            ==> replies[i].result->Ok_0@.len() == 0 {
        lemma_nothing_found(replies);
    }
}

proof fn lemma_nothing_found(replies: Seq<Reply>)
    requires
        forall|i: int|
            0 <= i < replies.len() && (#[trigger] replies[i]).result is Ok
                ==> replies[i].result->Ok_0@.len() == 0,
    ensures
        found(replies).len() == 0,
    decreases replies.len(),
{
    if replies.len() > 0 {
        let init = replies.drop_last();
        assert forall|i: int| 0 <= i < init.len() && (#[trigger] init[i]).result is Ok implies
            init[i].result->Ok_0@.len() == 0 by {
            assert(init[i] == replies[i]);
        }
        lemma_nothing_found(init);
        assert(replies[replies.len() - 1] == replies.last());
    }
}

/// The lifetime of a resolution is the default exactly if no reply brought a record that lives,
/// and otherwise that of one of the records, or a second for records that live less.
pub proof fn law_resolution_lives_as_its_shortest_record(qname: Seq<char>, replies: Seq<Reply>)
    ensures
        ({
            let ttl = resolution_of(qname, replies).ttl_secs;
            ||| exists|i: int, j: int|
                0 <= i < replies.len() && replies[i].result is Ok && 0 <= j
                    < replies[i].result->Ok_0@.len() && ({
                    let record = #[trigger] replies[i].result->Ok_0@[j]@;
                    &&& !(record is OPT) && !(record is UNKNOWN)
                    &&& ttl == record.ttl() || (ttl == 1 && record.ttl() == 0)
                })
            ||| ttl == 60 && forall|i: int, j: int|
                0 <= i < replies.len() && replies[i].result is Ok && 0 <= j
                    < replies[i].result->Ok_0@.len() ==> (#[trigger] replies[i].result->Ok_0@[j]@)
                    is OPT || replies[i].result->Ok_0@[j]@ is UNKNOWN
        }),
{
    let all = found(replies);
    let ttl = resolution_of(qname, replies).ttl_secs;
    law_lifetime_is_minimum(qname, replies);
    if exists|k: int| 0 <= k < all.len() && lives(#[trigger] all[k]) && ttl == lifetime(all[k]) {
        let k = choose|k: int|
            0 <= k < all.len() && lives(#[trigger] all[k]) && ttl == lifetime(all[k]);
        lemma_found_from(replies, k);
    } else {
        assert forall|i: int, j: int|
            0 <= i < replies.len() && replies[i].result is Ok && 0 <= j
                < replies[i].result->Ok_0@.len() implies (#[trigger] replies[i].result->Ok_0@[j]@)
            is OPT || replies[i].result->Ok_0@[j]@ is UNKNOWN by {
            lemma_found_at(replies, i, j);
            let k = choose|k: int| 0 <= k < all.len() && all[k] == replies[i].result->Ok_0@[j]@;
            assert(!lives(all[k]));
        }
    }
}

proof fn lemma_found_from(replies: Seq<Reply>, k: int)
    requires
        0 <= k < found(replies).len(),
    ensures
        exists|i: int, j: int|
            0 <= i < replies.len() && replies[i].result is Ok && 0 <= j
                < replies[i].result->Ok_0@.len() && found(replies)[k]
                == #[trigger] replies[i].result->Ok_0@[j]@,
    decreases replies.len(),
{
    let init = replies.drop_last();
    let n = replies.len() - 1;
    assert(replies[n] == replies.last());
    if k < found(init).len() {
        lemma_found_from(init, k);
        let (i, j) = choose|i: int, j: int|
            0 <= i < init.len() && init[i].result is Ok && 0 <= j < init[i].result->Ok_0@.len()
                && found(init)[k] == #[trigger] init[i].result->Ok_0@[j]@;
        assert(replies[i] == init[i]);
        assert(found(replies)[k] == replies[i].result->Ok_0@[j]@);
    } else {
        let j = k - found(init).len();
        assert(found(replies)[k] == replies[n].result->Ok_0@[j]@);
    }
}

/// A query keeps, in their order, exactly the records of its kind for its name.
pub proof fn law_query_keeps_its_records(
    records: Seq<DnsRecordView>,
    qtype: QueryType,
    qname: Seq<char>,
)
    requires
        qtype is A || qtype is AAAA || qtype is MX || qtype is NS || qtype is TXT,
    ensures
        answers(records, qtype, qname) == records.filter(
            |r: DnsRecordView|
                match r {
                    DnsRecordView::A { domain, .. } => qtype is A && domain == qname,
                    DnsRecordView::AAAA { domain, .. } => qtype is AAAA && domain == qname,
                    DnsRecordView::MX { domain, .. } => qtype is MX && domain == qname,
                    DnsRecordView::NS { domain, .. } => qtype is NS && domain == qname,
                    DnsRecordView::TXT { domain, .. } => qtype is TXT && domain == qname,
                    DnsRecordView::OPT { .. } | DnsRecordView::UNKNOWN { .. } => false,
                },
        ),
{
    let p = |r: DnsRecordView| matches_query(r, qtype, qname);
    let q = |r: DnsRecordView|
        match r {
            DnsRecordView::A { domain, .. } => qtype is A && domain == qname,
            DnsRecordView::AAAA { domain, .. } => qtype is AAAA && domain == qname,
            DnsRecordView::MX { domain, .. } => qtype is MX && domain == qname,
            DnsRecordView::NS { domain, .. } => qtype is NS && domain == qname,
            DnsRecordView::TXT { domain, .. } => qtype is TXT && domain == qname,
            DnsRecordView::OPT { .. } | DnsRecordView::UNKNOWN { .. } => false,
        };
    let types = resolved_types();
    assert(types[0] == QueryType::A && types[1] == QueryType::AAAA && types[2] == QueryType::MX
        && types[3] == QueryType::NS && types[4] == QueryType::TXT);
    assert(types.contains(qtype));
    assert(p =~= q);
}

/// The five kinds of records are asked for.
pub proof fn law_five_kinds_are_asked_for()
    ensures
        resolved_types() == seq![
            QueryType::A,
            QueryType::AAAA,
            QueryType::MX,
            QueryType::NS,
            QueryType::TXT,
        ],
        query_type_of(1) == QueryType::A,
        query_type_of(28) == QueryType::AAAA,
        query_type_of(15) == QueryType::MX,
        query_type_of(2) == QueryType::NS,
        query_type_of(16) == QueryType::TXT,
        query_type_of(41) == QueryType::OPT,
{
}

/// The header of a query.
pub open spec fn query_header(id: u16) -> DnsHeader {
    DnsHeader { id, flags: flags_of(0x0100), qdcount: 1, ancount: 0, nscount: 0, arcount: 1 }
}

/// The extension record of a query.
pub open spec fn query_extension() -> DnsRecordView {
    DnsRecordView::OPT { payload_size: MAX_PACKET_SIZE as u16, extended: 0 }
}

proof fn lemma_query_layout(id: u16, qname: Seq<char>, qtype: QueryType)
    ensures
        query_wire(id, qname, qtype) == query_header(id).wire() + name_wire(encode_utf8(qname))
            + be16_bytes(qtype.number()) + be16_bytes(1) + query_extension().wire(),
        query_header(id).flags.canonical(),
{
    let opt = query_extension();
    law_flag_bits_round_trip(0x0100);
    lemma_root_wire(Seq::new(512, |i: int| 0u8), 0);
    assert(encode_utf8(opt.domain()) =~= Seq::empty());
    assert(opt.wire() =~= seq![0u8] + be16_bytes(QueryType::OPT.number()) + be16_bytes(
        MAX_PACKET_SIZE as u16,
    ) + be32_bytes(0) + be16_bytes(0));
    assert(query_header(id).wire() =~= be16_bytes(id) + be16_bytes(0x0100) + be16_bytes(1)
        + be16_bytes(0) + be16_bytes(0) + be16_bytes(1));
    assert(query_wire(id, qname, qtype) =~= query_header(id).wire() + name_wire(encode_utf8(qname))
        + be16_bytes(qtype.number()) + be16_bytes(1) + opt.wire());
}

/// The parts of a query stand at their places.
proof fn lemma_query_parts(id: u16, qname: Seq<char>, qtype: QueryType)
    requires
        query_wire(id, qname, qtype).len() <= PACKET_CAPACITY,
    ensures
        ({
            let wire = query_wire(id, qname, qtype);
            let b = overwrite(Seq::new(512, |i: int| 0u8), 0, wire);
            let name = name_wire(encode_utf8(qname));
            let at: int = 12 + name.len() as int;
            let opt = query_extension();
            &&& query_header(id).flags.canonical()
            &&& b.len() == PACKET_CAPACITY
            &&& wire.len() == at + 4 + opt.wire().len()
            &&& b.subrange(0, 12) == query_header(id).wire()
            &&& b.subrange(12, at) == name
            &&& b.subrange(at, at + 2) == be16_bytes(qtype.number())
            &&& b.subrange(at + 4, at + 4 + opt.wire().len()) == opt.wire()
        }),
{
    let wire = query_wire(id, qname, qtype);
    let b = overwrite(Seq::new(512, |i: int| 0u8), 0, wire);
    let header = query_header(id).wire();
    let name = name_wire(encode_utf8(qname));
    let kind = be16_bytes(qtype.number());
    let class = be16_bytes(1);
    let opt = query_extension().wire();
    law_write_lands(Seq::new(512, |i: int| 0u8), 0, wire);
    lemma_query_layout(id, qname, qtype);
    assert(header.len() == 12);
    lemma_split(b, 0, header + name + kind + class, opt);
    lemma_split(b, 0, header + name + kind, class);
    lemma_split(b, 0, header + name, kind);
    lemma_split(b, 0, header, name);
}

/// One question that stands at `pos` is read back.
proof fn lemma_one_question(b: Seq<u8>, pos: int, qname: Seq<char>, qtype: QueryType)
    requires
        b.len() == PACKET_CAPACITY,
        proper_name(qname),
        0 <= pos,
        pos + name_wire(encode_utf8(qname)).len() + 4 <= PACKET_CAPACITY,
        ({
            let at = pos + name_wire(encode_utf8(qname)).len();
            &&& b.subrange(pos, at) == name_wire(encode_utf8(qname))
            &&& b.subrange(at, at + 2) == be16_bytes(qtype.number())
        }),
    ensures
        questions_at(b, pos, 1) == (
            Ok::<_, PacketError>(
                seq![
                    QuestionView { qname: reread(qname), qtype: query_type_of(qtype.number()) },
                ],
            ),
            pos + name_wire(encode_utf8(qname)).len() + 4,
        ),
{
    let at = pos + name_wire(encode_utf8(qname)).len();
    law_name_round_trip(b, pos, encode_utf8(qname));
    lemma_u16_back(b, at, qtype.number());
    let first = QuestionView { qname: reread(qname), qtype: query_type_of(qtype.number()) };
    let blank = QuestionView { qname: Seq::empty(), qtype: QueryType::UNKNOWN(0) };
    assert(blank.read_at(b, pos).qname =~= reread(qname));
    assert(questions_at(b, at + 4, 0) == (
        Ok::<_, PacketError>(Seq::<QuestionView>::empty()),
        at + 4,
    ));
    assert(seq![first] + Seq::empty() =~= seq![first]);
}

/// One record that stands at `pos` is read back.
proof fn lemma_one_record(b: Seq<u8>, pos: int, r: DnsRecordView)
    requires
        b.len() == PACKET_CAPACITY,
        0 <= pos,
        r.proper(),
        r.unwritable() is None,
        pos + r.wire().len() <= PACKET_CAPACITY,
        b.subrange(pos, pos + r.wire().len()) == r.wire(),
    ensures
        records_at(b, pos, 1) == (Ok::<_, PacketError>(seq![r.reread()]), pos + r.wire().len()),
{
    law_record_round_trip(b, pos, r);
    let end = pos + r.wire().len();
    assert(records_at(b, end, 0) == (Ok::<_, PacketError>(Seq::<DnsRecordView>::empty()), end));
    assert(seq![r.reread()] + Seq::empty() =~= seq![r.reread()]);
}

/// A message with one question and one additional record is made of its parts.
proof fn lemma_query_message(
    b: Seq<u8>,
    header: DnsHeader,
    question: Seq<QuestionView>,
    middle: int,
    additional: Seq<DnsRecordView>,
    end: int,
)
    requires
        DnsHeader::empty().read_at(b, 0) == header,
        header.qdcount == 1,
        header.ancount == 0,
        header.nscount == 0,
        header.arcount == 1,
        questions_at(b, 12, 1) == (Ok::<_, PacketError>(question), middle),
        records_at(b, middle, 1) == (Ok::<_, PacketError>(additional), end),
    ensures
        message_at(b, 0) == (
            Ok::<_, PacketError>(
                DnsView {
                    header,
                    question,
                    answer: Seq::empty(),
                    authority: Seq::empty(),
                    additional,
                },
            ),
            end,
        ),
{
    assert(records_at(b, middle, 0) == (
        Ok::<_, PacketError>(Seq::<DnsRecordView>::empty()),
        middle,
    ));
}

/// The extension record of a query comes back as it was written.
proof fn lemma_extension()
    ensures
        query_extension().proper(),
        query_extension().unwritable() is None,
        query_extension().reread() == query_extension(),
{
    lemma_root_wire(Seq::new(512, |i: int| 0u8), 0);
}

/// A query whose parts stand in `b` is read back.
proof fn lemma_read_query(b: Seq<u8>, id: u16, qname: Seq<char>, qtype: QueryType)
    requires
        proper_name(qname),
        b.len() == PACKET_CAPACITY,
        query_header(id).flags.canonical(),
        ({
            let name = name_wire(encode_utf8(qname));
            let at: int = 12 + name.len() as int;
            let end = at + 4 + query_extension().wire().len();
            &&& end <= PACKET_CAPACITY
            &&& b.subrange(0, 12) == query_header(id).wire()
            &&& b.subrange(12, at) == name
            &&& b.subrange(at, at + 2) == be16_bytes(qtype.number())
            &&& b.subrange(at + 4, end) == query_extension().wire()
        }),
    ensures
        message_at(b, 0) == (
            Ok::<_, PacketError>(
                DnsView {
                    header: query_header(id),
                    question: seq![
                        QuestionView {
                            qname: reread(qname),
                            qtype: query_type_of(qtype.number()),
                        },
                    ],
                    answer: Seq::empty(),
                    authority: Seq::empty(),
                    additional: seq![query_extension()],
                },
            ),
            (16 + name_wire(encode_utf8(qname)).len() + query_extension().wire().len()) as int,
        ),
{
    let at: int = 12 + name_wire(encode_utf8(qname)).len() as int;
    let first = QuestionView { qname: reread(qname), qtype: query_type_of(qtype.number()) };
    law_header_round_trip(query_header(id), b, 0);
    lemma_one_question(b, 12, qname, qtype);
    lemma_extension();
    lemma_one_record(b, at + 4, query_extension());
    lemma_query_message(
        b,
        query_header(id),
        seq![first],
        at + 4,
        seq![query_extension()],
        at + 4 + query_extension().wire().len(),
    );
}

/// A query that was built is understood as asking for the kind `qtype` of the name, once,
/// with recursion, and as announcing the payload size.
pub proof fn law_query_is_understood(id: u16, qname: Seq<char>, qtype: QueryType)
    requires
        proper_name(qname),
        query_wire(id, qname, qtype).len() <= PACKET_CAPACITY,
    ensures
        message_at(overwrite(Seq::new(512, |i: int| 0u8), 0, query_wire(id, qname, qtype)), 0) == (
            Ok::<_, PacketError>(
                DnsView {
                    header: query_header(id),
                    question: seq![
                        QuestionView {
                            qname: reread(qname),
                            qtype: query_type_of(qtype.number()),
                        },
                    ],
                    answer: Seq::empty(),
                    authority: Seq::empty(),
                    additional: seq![query_extension()],
                },
            ),
            query_wire(id, qname, qtype).len() as int,
        ),
{
    let wire = query_wire(id, qname, qtype);
    let b = overwrite(Seq::new(512, |i: int| 0u8), 0, wire);
    lemma_query_parts(id, qname, qtype);
    lemma_read_query(b, id, qname, qtype);
}

/// An answer is kept as long as it lives, but no longer than a minute.
pub proof fn law_answers_are_kept_for_a_minute_at_most(ttl_secs: u64)
    ensures
        kept_secs(ttl_secs) <= 60,
        ttl_secs <= 60 ==> kept_secs(ttl_secs) == ttl_secs,
        ttl_secs > 60 ==> kept_secs(ttl_secs) == 60,
{
}

/// A caller follows while another one leads, for fifty milliseconds, and leads otherwise. The
/// callers of other keys are not affected.
pub proof fn law_leaders_have_fifty_milliseconds(
    flights: Map<Seq<char>, u128>,
    key: Seq<char>,
    other: Seq<char>,
    now: u64,
)
    ensures
        ({
            let (role, after) = entered(flights, key, now);
            &&& role == FlightRole::Follow <==> flights.contains_key(key) && flights[key] > now
            &&& role == FlightRole::Follow ==> after == flights
            &&& role == FlightRole::Lead ==> after.contains_key(key) && after[key] == now
                + 50_000_000
            &&& other != key ==> (after.contains_key(other) <==> flights.contains_key(other))
                && after[other] == flights[other]
        }),
{
}

/// A caller that finds no answer joins the others for its key: it asks if it leads, and else waits
/// and looks again.
pub proof fn law_miss_joins_the_others()
    ensures
        resolve_next(ResolveState::Lookup, ResolveEvent::Miss) is Enter,
        resolve_next(ResolveState::LookupAgain, ResolveEvent::Miss) is Enter,
        resolve_next(ResolveState::Enter, ResolveEvent::Entered(FlightRole::Lead)) is Query,
        resolve_next(ResolveState::Enter, ResolveEvent::Entered(FlightRole::Follow)) is Await,
        resolve_next(ResolveState::Await, ResolveEvent::Woken) is LookupAgain,
{
}

/// A caller that asked leaves, with an answer to store if it lives on. Then it returns what is
/// stored, or else what it was answered.
pub proof fn law_asking_ends_with_an_answer(ttl_secs: u64, store: bool)
    ensures
        resolve_next(ResolveState::Query, ResolveEvent::Answered { ttl_secs })
            == (ResolveState::Leave { store: ttl_secs > 0 }),
        resolve_next(ResolveState::Query, ResolveEvent::Failed) == (ResolveState::Leave {
            store: false,
        }),
        resolve_next(ResolveState::Leave { store }, ResolveEvent::Left) is LookupLast,
        resolve_next(ResolveState::LookupLast, ResolveEvent::Hit) is ReturnCached,
        resolve_next(ResolveState::LookupLast, ResolveEvent::Miss) is ReturnQueried,
{
}

/// A query holds its number, asks for recursion, and announces one question and one additional
/// record. The type that is asked for stands behind the name, and the class for the internet behind
/// the type.
pub proof fn law_query_layout(id: u16, qname: Seq<char>, qtype: QueryType)
    ensures
        ({
            let w = query_wire(id, qname, qtype);
            let n = name_wire(encode_utf8(qname));
            let at = 12 + n.len() as int;
            &&& w.len() == at + 15
            &&& w[0] * 256 + w[1] == id
            &&& w[2] == 1 && w[3] == 0
            &&& w[4] == 0 && w[5] == 1
            &&& w[6] == 0 && w[7] == 0
            &&& w[8] == 0 && w[9] == 0
            &&& w[10] == 0 && w[11] == 1
            &&& w.subrange(12, at) == n
            &&& w[at] * 256 + w[at + 1] == qtype.number()
            &&& w[at + 2] == 0 && w[at + 3] == 1
            &&& w[at + 4] == 0
            &&& w[at + 5] == 0 && w[at + 6] == 41
        }),
{
    let w = query_wire(id, qname, qtype);
    let n = name_wire(encode_utf8(qname));
    let at = 12 + n.len() as int;
    assert(w.subrange(12, at) =~= n);
}

} // verus!
