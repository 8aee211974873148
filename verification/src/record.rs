//! Resource records and their encoding.

use vstd::prelude::*;
use vstd::std_specs::convert::FromSpecImpl;
use vstd::string::*;
use vstd::utf8::*;

use crate::net::{Ipv4Addr, Ipv6Addr};
use crate::packet::{
    advance, after_name, be16, be16_bytes, be32, be32_bytes, byte_text, decode_lossy, encode_name,
    ipv6_at, joined, labels, law_name_round_trip, lemma_root_wire, name_at, name_wire, proper_labels, u16_at,
    u32_at, BytePacketBuf, PacketError, PACKET_CAPACITY,
};

verus! {

/// The class of Internet records.
pub const CLASS_IN: u16 = 1;

/// The kind of a record.
#[derive(Debug, Clone, Copy, PartialEq, Eq, Structural)]
pub enum QueryType {
    UNKNOWN(u16),
    A,
    NS,
    MX,
    TXT,
    AAAA,
    OPT,
}

/// The kind with the number `value`.
pub open spec fn query_type_of(value: u16) -> QueryType {
    match value {
        1 => QueryType::A,
        2 => QueryType::NS,
        15 => QueryType::MX,
        16 => QueryType::TXT,
        28 => QueryType::AAAA,
        41 => QueryType::OPT,
        _ => QueryType::UNKNOWN(value),
    }
}

impl QueryType {
    /// The number of the kind.
    pub open spec fn number(&self) -> u16 {
        match self {
            QueryType::A => 1,
            QueryType::NS => 2,
            QueryType::MX => 15,
            QueryType::TXT => 16,
            QueryType::AAAA => 28,
            QueryType::OPT => 41,
            QueryType::UNKNOWN(value) => *value,
        }
    }
}

impl FromSpecImpl<u16> for QueryType {
    open spec fn obeys_from_spec() -> bool {
        true
    }

    open spec fn from_spec(value: u16) -> QueryType {
        query_type_of(value)
    }
}

impl From<u16> for QueryType {
    fn from(value: u16) -> (r: QueryType) {
        match value {
            1 => QueryType::A,
            2 => QueryType::NS,
            15 => QueryType::MX,
            16 => QueryType::TXT,
            28 => QueryType::AAAA,
            41 => QueryType::OPT,
            _ => QueryType::UNKNOWN(value),
        }
    }
}

impl FromSpecImpl<QueryType> for u16 {
    open spec fn obeys_from_spec() -> bool {
        true
    }

    open spec fn from_spec(qtype: QueryType) -> u16 {
        qtype.number()
    }
}

impl From<QueryType> for u16 {
    fn from(qtype: QueryType) -> (r: u16) {
        match qtype {
            QueryType::A => 1,
            QueryType::NS => 2,
            QueryType::MX => 15,
            QueryType::TXT => 16,
            QueryType::AAAA => 28,
            QueryType::OPT => 41,
            QueryType::UNKNOWN(value) => value,
        }
    }
}

/// The number of a kind leads back to the kind.
pub proof fn law_query_type_round_trip(value: u16)
    ensures
        query_type_of(value).number() == value,
{
}

/// What every record starts with.
#[derive(Debug)]
pub struct ResourceRecord {
    pub name: String,
    pub rtype: QueryType,
    pub class: u16,
    pub ttl: u32,
    pub len: u16,
}

/// The contents of a [`ResourceRecord`].
pub struct ResourceRecordView {
    pub name: Seq<char>,
    pub rtype: QueryType,
    pub class: u16,
    pub ttl: u32,
    pub len: u16,
}

impl View for ResourceRecord {
    type V = ResourceRecordView;

    open spec fn view(&self) -> ResourceRecordView {
        ResourceRecordView {
            name: self.name@,
            rtype: self.rtype,
            class: self.class,
            ttl: self.ttl,
            len: self.len,
        }
    }
}

/// The start of the record at `pos` in the packet `b`, and the cursor after it.
pub open spec fn head_at(b: Seq<u8>, pos: int) -> (Result<ResourceRecordView, PacketError>, int) {
    let (name, error) = name_at(b, pos, 0, false);
    let at = after_name(b, pos);
    match error {
        Some(e) => (Err(e), at),
        None => if at + 10 > PACKET_CAPACITY {
            (Err(PacketError::EndOfBuffer), advance(at, 10))
        } else {
            (
                Ok(
                    ResourceRecordView {
                        name,
                        rtype: query_type_of(be16(b[at], b[at + 1])),
                        class: be16(b[at + 2], b[at + 3]),
                        ttl: be32(b[at + 4], b[at + 5], b[at + 6], b[at + 7]),
                        len: be16(b[at + 8], b[at + 9]),
                    },
                ),
                at + 10,
            )
        },
    }
}

impl ResourceRecord {
    pub fn read(buffer: &mut BytePacketBuf) -> (r: Result<ResourceRecord, PacketError>)
        ensures
            ({
                let (value, at) = head_at(old(buffer).buf@, old(buffer).pos as int);
                &&& final(buffer).is_at(old(buffer), old(buffer).buf@, at)
                &&& match value {
                    Ok(head) => r is Ok && r->Ok_0@ == head,
                    Err(e) => r == Err::<ResourceRecord, _>(e),
                }
            }),
    {
        let mut name: String = String::new();
        match buffer.read_qname(&mut name) {
            Ok(_) => {},
            Err(e) => {
                return Err(e);
            },
        }
        let rtype: u16 = buffer.read_u16()?;
        let class: u16 = buffer.read_u16()?;
        let ttl: u32 = buffer.read_u32()?;
        let len: u16 = buffer.read_u16()?;
        let ghost text = name_at(old(buffer).buf@, old(buffer).pos as int, 0, false).0;
        assert(Seq::<char>::empty() + text =~= text);
        Ok(ResourceRecord { name, rtype: QueryType::from(rtype), class, ttl, len })
    }
}

/// A record of a message.
#[allow(inconsistent_fields)]
#[derive(Debug)]
pub enum DnsRecord {
    UNKNOWN { domain: String, rtype: QueryType, data_len: u16, ttl: u32 },
    A { domain: String, addr: Ipv4Addr, ttl: u32 },
    AAAA { domain: String, addr: Ipv6Addr, ttl: u32 },
    MX { domain: String, preference: u16, exchange: String, ttl: u32 },
    NS { domain: String, host: String, ttl: u32 },
    TXT { domain: String, data: Vec<String>, ttl: u32 },
    /// Extension record: the payload size that the sender accepts, and the extended
    /// result code with its flags.
    OPT { payload_size: u16, extended: u32 },
}

/// The contents of a [`DnsRecord`].
#[allow(inconsistent_fields)]
pub enum DnsRecordView {
    UNKNOWN { domain: Seq<char>, rtype: QueryType, data_len: u16, ttl: u32 },
    A { domain: Seq<char>, addr: Ipv4Addr, ttl: u32 },
    AAAA { domain: Seq<char>, addr: Ipv6Addr, ttl: u32 },
    MX { domain: Seq<char>, preference: u16, exchange: Seq<char>, ttl: u32 },
    NS { domain: Seq<char>, host: Seq<char>, ttl: u32 },
    TXT { domain: Seq<char>, data: Seq<Seq<char>>, ttl: u32 },
    OPT { payload_size: u16, extended: u32 },
}

/// The contents of each of `texts`.
pub open spec fn text_views(texts: Seq<String>) -> Seq<Seq<char>> {
    texts.map_values(|t: String| t@)
}

impl View for DnsRecord {
    type V = DnsRecordView;

    open spec fn view(&self) -> DnsRecordView {
        match self {
            DnsRecord::UNKNOWN { domain, rtype, data_len, ttl } => DnsRecordView::UNKNOWN {
                domain: domain@,
                rtype: *rtype,
                data_len: *data_len,
                ttl: *ttl,
            },
            DnsRecord::A { domain, addr, ttl } => DnsRecordView::A {
                domain: domain@,
                addr: *addr,
                ttl: *ttl,
            },
            DnsRecord::AAAA { domain, addr, ttl } => DnsRecordView::AAAA {
                domain: domain@,
                addr: *addr,
                ttl: *ttl,
            },
            DnsRecord::MX { domain, preference, exchange, ttl } => DnsRecordView::MX {
                domain: domain@,
                preference: *preference,
                exchange: exchange@,
                ttl: *ttl,
            },
            DnsRecord::NS { domain, host, ttl } => DnsRecordView::NS {
                domain: domain@,
                host: host@,
                ttl: *ttl,
            },
            DnsRecord::TXT { domain, data, ttl } => DnsRecordView::TXT {
                domain: domain@,
                data: text_views(data@),
                ttl: *ttl,
            },
            DnsRecord::OPT { payload_size, extended } => DnsRecordView::OPT {
                payload_size: *payload_size,
                extended: *extended,
            },
        }
    }
}

/// Copies each text.
pub fn clone_texts(texts: &Vec<String>) -> (r: Vec<String>)
    ensures
        r@ == texts@,
{
    let mut r: Vec<String> = Vec::new();
    let mut i: usize = 0;
    while i < texts.len()
        invariant
            i <= texts.len(),
            r@ == texts@.take(i as int),
        decreases texts.len() - i,
    {
        r.push(texts[i].clone());
        i = i + 1;
        assert(r@ =~= texts@.take(i as int));
    }
    assert(r@ =~= texts@);
    r
}

impl Clone for DnsRecord {
    fn clone(&self) -> (r: DnsRecord)
        ensures
            r@ == self@,
    {
        match self {
            DnsRecord::UNKNOWN { domain, rtype, data_len, ttl } => DnsRecord::UNKNOWN {
                domain: domain.clone(),
                rtype: *rtype,
                data_len: *data_len,
                ttl: *ttl,
            },
            DnsRecord::A { domain, addr, ttl } => DnsRecord::A {
                domain: domain.clone(),
                addr: *addr,
                ttl: *ttl,
            },
            DnsRecord::AAAA { domain, addr, ttl } => DnsRecord::AAAA {
                domain: domain.clone(),
                addr: *addr,
                ttl: *ttl,
            },
            DnsRecord::MX { domain, preference, exchange, ttl } => DnsRecord::MX {
                domain: domain.clone(),
                preference: *preference,
                exchange: exchange.clone(),
                ttl: *ttl,
            },
            DnsRecord::NS { domain, host, ttl } => DnsRecord::NS {
                domain: domain.clone(),
                host: host.clone(),
                ttl: *ttl,
            },
            DnsRecord::TXT { domain, data, ttl } => DnsRecord::TXT {
                domain: domain.clone(),
                data: clone_texts(data),
                ttl: *ttl,
            },
            DnsRecord::OPT { payload_size, extended } => DnsRecord::OPT {
                payload_size: *payload_size,
                extended: *extended,
            },
        }
    }
}


/// The character strings from `pos` up to `end`, and the cursor after them.
pub open spec fn texts_at(b: Seq<u8>, pos: int, end: int) -> (
    Result<Seq<Seq<char>>, PacketError>,
    int,
)
    decreases end - pos,
{
    if end > PACKET_CAPACITY {
        (Err(PacketError::EndOfBuffer), pos)
    } else if pos >= end || pos < 0 {
        (Ok(Seq::empty()), pos)
    } else {
        let next = pos + 1 + b[pos];
        if next > end {
            (Err(PacketError::BadText), pos)
        } else {
            let (rest, at) = texts_at(b, next, end);
            match rest {
                Ok(texts) => (Ok(seq![byte_text(b.subrange(pos + 1, next))] + texts), at),
                Err(e) => (Err(e), at),
            }
        }
    }
}

/// The record whose start `head` was read and whose data lies at `at`, and the cursor after it.
pub open spec fn data_at(b: Seq<u8>, at: int, head: ResourceRecordView) -> (
    Result<DnsRecordView, PacketError>,
    int,
) {
    match head.rtype {
        QueryType::A => match u32_at(b, at) {
            Ok(bits) => (
                Ok(DnsRecordView::A { domain: head.name, addr: Ipv4Addr { bits }, ttl: head.ttl }),
                at + 4,
            ),
            Err(e) => (Err(e), advance(at, 4)),
        },
        QueryType::AAAA => match ipv6_at(b, at) {
            Ok(addr) => (
                Ok(DnsRecordView::AAAA { domain: head.name, addr, ttl: head.ttl }),
                at + 16,
            ),
            Err(e) => (Err(e), advance(at, 16)),
        },
        QueryType::NS => match name_at(b, at, 0, false) {
            (host, None) => (
                Ok(DnsRecordView::NS { domain: head.name, host, ttl: head.ttl }),
                after_name(b, at),
            ),
            (_, Some(e)) => (Err(e), after_name(b, at)),
        },
        QueryType::MX => match u16_at(b, at) {
            Ok(preference) => match name_at(b, at + 2, 0, false) {
                (exchange, None) => (
                    Ok(
                        DnsRecordView::MX {
                            domain: head.name,
                            preference,
                            exchange,
                            ttl: head.ttl,
                        },
                    ),
                    after_name(b, at + 2),
                ),
                (_, Some(e)) => (Err(e), after_name(b, at + 2)),
            },
            Err(e) => (Err(e), advance(at, 2)),
        },
        QueryType::TXT => match texts_at(b, at, at + head.len) {
            (Ok(data), next) => (
                Ok(DnsRecordView::TXT { domain: head.name, data, ttl: head.ttl }),
                next,
            ),
            (Err(e), next) => (Err(e), next),
        },
        QueryType::OPT => (
            Ok(DnsRecordView::OPT { payload_size: head.class, extended: head.ttl }),
            at + head.len,
        ),
        QueryType::UNKNOWN(_) => (
            Ok(
                DnsRecordView::UNKNOWN {
                    domain: head.name,
                    rtype: head.rtype,
                    data_len: head.len,
                    ttl: head.ttl,
                },
            ),
            at + head.len,
        ),
    }
}

/// The record at `pos` in the packet `b`, and the cursor after it.
pub open spec fn record_at(b: Seq<u8>, pos: int) -> (Result<DnsRecordView, PacketError>, int) {
    let (head, at) = head_at(b, pos);
    match head {
        Ok(head) => data_at(b, at, head),
        Err(e) => (Err(e), at),
    }
}

/// A character string as it stands in a record: its length, then its bytes.
pub open spec fn text_wire(text: Seq<char>) -> Seq<u8> {
    seq![encode_utf8(text).len() as u8] + encode_utf8(text)
}

/// The character strings one after the other.
pub open spec fn texts_wire(texts: Seq<Seq<char>>) -> Seq<u8>
    decreases texts.len(),
{
    if texts.len() == 0 {
        Seq::empty()
    } else {
        texts_wire(texts.drop_last()) + text_wire(texts.last())
    }
}

impl DnsRecordView {
    pub open spec fn domain(self) -> Seq<char> {
        match self {
            DnsRecordView::UNKNOWN { domain, .. } => domain,
            DnsRecordView::A { domain, .. } => domain,
            DnsRecordView::AAAA { domain, .. } => domain,
            DnsRecordView::MX { domain, .. } => domain,
            DnsRecordView::NS { domain, .. } => domain,
            DnsRecordView::TXT { domain, .. } => domain,
            DnsRecordView::OPT { .. } => Seq::empty(),
        }
    }

    pub open spec fn ttl(self) -> u32 {
        match self {
            DnsRecordView::UNKNOWN { ttl, .. } => ttl,
            DnsRecordView::A { ttl, .. } => ttl,
            DnsRecordView::AAAA { ttl, .. } => ttl,
            DnsRecordView::MX { ttl, .. } => ttl,
            DnsRecordView::NS { ttl, .. } => ttl,
            DnsRecordView::TXT { ttl, .. } => ttl,
            DnsRecordView::OPT { extended, .. } => extended,
        }
    }

    pub open spec fn rtype(self) -> QueryType {
        match self {
            DnsRecordView::UNKNOWN { rtype, .. } => rtype,
            DnsRecordView::A { .. } => QueryType::A,
            DnsRecordView::AAAA { .. } => QueryType::AAAA,
            DnsRecordView::MX { .. } => QueryType::MX,
            DnsRecordView::NS { .. } => QueryType::NS,
            DnsRecordView::TXT { .. } => QueryType::TXT,
            DnsRecordView::OPT { .. } => QueryType::OPT,
        }
    }

    /// The record class, which an extension record uses for its payload size.
    pub open spec fn class(self) -> u16 {
        match self {
            DnsRecordView::OPT { payload_size, .. } => payload_size,
            _ => CLASS_IN,
        }
    }

    /// The data part of the record.
    pub open spec fn data_wire(self) -> Seq<u8> {
        match self {
            DnsRecordView::UNKNOWN { .. } => Seq::empty(),
            DnsRecordView::A { addr, .. } => be32_bytes(addr.bits),
            DnsRecordView::AAAA { addr, .. } => be32_bytes(addr.w0) + be32_bytes(addr.w1)
                + be32_bytes(addr.w2) + be32_bytes(addr.w3),
            DnsRecordView::MX { preference, exchange, .. } => be16_bytes(preference) + name_wire(
                encode_utf8(exchange),
            ),
            DnsRecordView::NS { host, .. } => name_wire(encode_utf8(host)),
            DnsRecordView::TXT { data, .. } => texts_wire(data),
            DnsRecordView::OPT { .. } => Seq::empty(),
        }
    }

    /// The record as it stands in a packet. Records of unknown kind are skipped.
    pub open spec fn wire(self) -> Seq<u8> {
        match self {
            DnsRecordView::UNKNOWN { .. } => Seq::empty(),
            _ => name_wire(encode_utf8(self.domain())) + be16_bytes(self.rtype().number())
                + be16_bytes(self.class()) + be32_bytes(self.ttl()) + be16_bytes(
                self.data_wire().len() as u16,
            ) + self.data_wire(),
        }
    }

    /// Why the record has no encoding, if it has none: a character string of more than 255
    /// bytes, or more data than a record can hold.
    pub open spec fn unwritable(self) -> Option<PacketError> {
        match self {
            DnsRecordView::TXT { data, .. } if exists|i: int|
                0 <= i < data.len() && encode_utf8(#[trigger] data[i]).len() > 255 => Some(
                PacketError::BadText,
            ),
            _ => if self.data_wire().len() > 65535 {
                Some(PacketError::EndOfBuffer)
            } else {
                None
            },
        }
    }
}

pub(crate) fn push_u16(out: &mut Vec<u8>, val: u16)
    ensures
        final(out)@ == old(out)@ + be16_bytes(val),
{
    out.push((val / 256) as u8);
    out.push((val % 256) as u8);
    assert(out@ =~= old(out)@ + be16_bytes(val));
}

pub(crate) fn push_u32(out: &mut Vec<u8>, val: u32)
    ensures
        final(out)@ == old(out)@ + be32_bytes(val),
{
    out.push((val / 16777216) as u8);
    out.push((val / 65536 % 256) as u8);
    out.push((val / 256 % 256) as u8);
    out.push((val % 256) as u8);
    assert(out@ =~= old(out)@ + be32_bytes(val));
}

/// The encoding of the character strings; `None` if one of them is too long.
fn encode_texts(texts: &Vec<String>) -> (r: Option<Vec<u8>>)
    ensures
        match r {
            Some(bytes) => bytes@ == texts_wire(text_views(texts@)) && forall|i: int|
                0 <= i < texts.len() ==> encode_utf8(#[trigger] text_views(texts@)[i]).len() <= 255,
            None => exists|i: int|
                0 <= i < texts.len() && encode_utf8(#[trigger] text_views(texts@)[i]).len() > 255,
        },
{
    let mut out: Vec<u8> = Vec::new();
    let mut i: usize = 0;
    let ghost views = text_views(texts@);
    while i < texts.len()
        invariant
            i <= texts.len(),
            views == text_views(texts@),
            out@ == texts_wire(views.take(i as int)),
            forall|k: int| 0 <= k < i ==> encode_utf8(#[trigger] views[k]).len() <= 255,
        decreases texts.len() - i,
    {
        let bytes: &[u8] = texts[i].as_str().as_bytes();
        assert(views[i as int] == texts@[i as int]@);
        if bytes.len() > 255 {
            return None;
        }
        let ghost before = out@;
        out.push(bytes.len() as u8);
        out.extend_from_slice(bytes);
        assert(out@ =~= before + text_wire(views[i as int]));
        assert(views.take(i + 1).drop_last() =~= views.take(i as int));
        i = i + 1;
    }
    assert(views.take(i as int) =~= views);
    Some(out)
}

impl DnsRecord {
    /// The data part of the record.
    fn encode_data(&self) -> (r: Result<Vec<u8>, PacketError>)
        ensures
            match self@.unwritable() {
                Some(e) => r == Err::<Vec<u8>, _>(e),
                None => r is Ok && r->Ok_0@ == self@.data_wire(),
            },
    {
        let mut out: Vec<u8> = Vec::new();
        match self {
            DnsRecord::UNKNOWN { .. } => {},
            DnsRecord::OPT { .. } => {},
            DnsRecord::A { addr, .. } => {
                push_u32(&mut out, addr.bits);
            },
            DnsRecord::AAAA { addr, .. } => {
                push_u32(&mut out, addr.w0);
                push_u32(&mut out, addr.w1);
                push_u32(&mut out, addr.w2);
                push_u32(&mut out, addr.w3);
            },
            DnsRecord::MX { preference, exchange, .. } => {
                push_u16(&mut out, *preference);
                let mut name: Vec<u8> = encode_name(exchange.as_str());
                out.append(&mut name);
            },
            DnsRecord::NS { host, .. } => {
                out = encode_name(host.as_str());
            },
            DnsRecord::TXT { data, .. } => match encode_texts(data) {
                Some(bytes) => {
                    out = bytes;
                },
                None => {
                    return Err(PacketError::BadText);
                },
            },
        }
        assert(out@ =~= self@.data_wire());
        if out.len() > 65535 {
            return Err(PacketError::EndOfBuffer);
        }
        Ok(out)
    }

    /// Reads the record at the cursor.
    pub fn read(buffer: &mut BytePacketBuf) -> (r: Result<DnsRecord, PacketError>)
        ensures
            ({
                let (value, at) = record_at(old(buffer).buf@, old(buffer).pos as int);
                &&& final(buffer).is_at(old(buffer), old(buffer).buf@, at)
                &&& match value {
                    Ok(record) => r is Ok && r->Ok_0@ == record,
                    Err(e) => r == Err::<DnsRecord, _>(e),
                }
            }),
    {
        let ghost b = buffer.buf@;
        let head: ResourceRecord = ResourceRecord::read(buffer)?;
        let ghost at = buffer.pos as int;
        let domain: String = head.name;
        let ttl: u32 = head.ttl;
        match head.rtype {
            QueryType::A => {
                let addr: Ipv4Addr = buffer.read_ipv4()?;
                Ok(DnsRecord::A { domain, addr, ttl })
            },
            QueryType::AAAA => {
                let addr: Ipv6Addr = buffer.read_ipv6()?;
                Ok(DnsRecord::AAAA { domain, addr, ttl })
            },
            QueryType::NS => {
                let mut host: String = String::new();
                buffer.read_qname(&mut host)?;
                assert(host@ =~= name_at(b, at, 0, false).0);
                Ok(DnsRecord::NS { domain, host, ttl })
            },
            QueryType::MX => {
                let preference: u16 = buffer.read_u16()?;
                let mut exchange: String = String::new();
                buffer.read_qname(&mut exchange)?;
                assert(exchange@ =~= name_at(b, at + 2, 0, false).0);
                Ok(DnsRecord::MX { domain, preference, exchange, ttl })
            },
            QueryType::TXT => {
                let data: Vec<String> = read_texts(buffer, head.len)?;
                Ok(DnsRecord::TXT { domain, data, ttl })
            },
            QueryType::OPT => {
                buffer.step(head.len as usize)?;
                Ok(DnsRecord::OPT { payload_size: head.class, extended: ttl })
            },
            QueryType::UNKNOWN(_) => {
                buffer.step(head.len as usize)?;
                Ok(DnsRecord::UNKNOWN { domain, rtype: head.rtype, data_len: head.len, ttl })
            },
        }
    }

    /// Writes the record at the cursor and returns the number of bytes written. Records of
    /// unknown kind are skipped.
    pub fn write(&self, buffer: &mut BytePacketBuf) -> (r: Result<usize, PacketError>)
        ensures
            match self@.unwritable() {
                Some(e) => r == Err::<usize, _>(e) && *final(buffer) == *old(buffer),
                None => {
                    &&& final(buffer).wrote(
                        old(buffer),
                        self@.wire(),
                        match r {
                            Ok(_) => Ok(()),
                            Err(e) => Err(e),
                        },
                    )
                    &&& r is Ok ==> r->Ok_0 == self@.wire().len()
                },
            },
    {
        let mut data: Vec<u8> = self.encode_data()?;
        let mut out: Vec<u8> = Vec::new();
        let kind: QueryType = match self {
            DnsRecord::UNKNOWN { .. } => {
                assert(out@ =~= self@.wire());
                buffer.write_bytes(out.as_slice())?;
                return Ok(0);
            },
            DnsRecord::A { .. } => QueryType::A,
            DnsRecord::AAAA { .. } => QueryType::AAAA,
            DnsRecord::MX { .. } => QueryType::MX,
            DnsRecord::NS { .. } => QueryType::NS,
            DnsRecord::TXT { .. } => QueryType::TXT,
            DnsRecord::OPT { .. } => QueryType::OPT,
        };
        match self {
            DnsRecord::UNKNOWN { .. } => {},
            DnsRecord::A { domain, ttl, .. } | DnsRecord::AAAA { domain, ttl, .. } | DnsRecord::MX {
                domain,
                ttl,
                ..
            } | DnsRecord::NS { domain, ttl, .. } | DnsRecord::TXT { domain, ttl, .. } => {
                out = encode_name(domain.as_str());
                push_u16(&mut out, u16::from(kind));
                push_u16(&mut out, CLASS_IN);
                push_u32(&mut out, *ttl);
            },
            DnsRecord::OPT { payload_size, extended } => {
                out = encode_name("");
                proof {
                    reveal_strlit("");
                    assert(""@ =~= Seq::<char>::empty());
                }
                push_u16(&mut out, u16::from(kind));
                push_u16(&mut out, *payload_size);
                push_u32(&mut out, *extended);
            },
        }
        push_u16(&mut out, data.len() as u16);
        out.append(&mut data);
        assert(out@ =~= self@.wire());
        buffer.write_bytes(out.as_slice())?;
        Ok(out.len())
    }
}

/// Reads character strings until `len` bytes are consumed.
fn read_texts(buffer: &mut BytePacketBuf, len: u16) -> (r: Result<Vec<String>, PacketError>)
    requires
        old(buffer).pos <= PACKET_CAPACITY,
    ensures
        ({
            let (value, at) = texts_at(
                old(buffer).buf@,
                old(buffer).pos as int,
                old(buffer).pos + len,
            );
            &&& final(buffer).is_at(old(buffer), old(buffer).buf@, at)
            &&& match value {
                Ok(texts) => r is Ok && text_views(r->Ok_0@) == texts,
                Err(e) => r == Err::<Vec<String>, _>(e),
            }
        }),
{
    let ghost b = buffer.buf@;
    let start: usize = buffer.pos;
    let end: usize = start + len as usize;
    if end > PACKET_CAPACITY {
        return Err(PacketError::EndOfBuffer);
    }
    let mut texts: Vec<String> = Vec::new();
    assert(text_views(texts@) =~= Seq::empty());
    while buffer.pos < end
        invariant
            b == old(buffer).buf@,
            start == old(buffer).pos,
            end == start + len,
            start <= buffer.pos <= end,
            end <= PACKET_CAPACITY,
            buffer.is_at(old(buffer), b, buffer.pos as int),
            ({
                let (all, last) = texts_at(b, start as int, end as int);
                let (rest, at) = texts_at(b, buffer.pos as int, end as int);
                &&& last == at
                &&& match rest {
                    Ok(more) => all == Ok::<_, PacketError>(text_views(texts@) + more),
                    Err(e) => all == Err::<Seq<Seq<char>>, _>(e),
                }
            }),
        decreases end - buffer.pos,
    {
        let pos: usize = buffer.pos;
        let n: u8 = buffer.buf[pos];
        let next: usize = pos + 1 + n as usize;
        if next > end {
            return Err(PacketError::BadText);
        }
        let bytes: &[u8] = vstd::slice::slice_subrange(
            vstd::array::array_as_slice(&buffer.buf),
            pos + 1,
            next,
        );
        let text: String = decode_lossy(bytes);
        let ghost before = text_views(texts@);
        texts.push(text);
        buffer.pos = next;
        proof {
            assert(text_views(texts@) =~= before.push(text@));
            let (rest, at) = texts_at(b, next as int, end as int);
            match rest {
                Ok(more) => {
                    assert(before + (seq![text@] + more) =~= text_views(texts@) + more);
                },
                Err(_) => {},
            }
        }
    }
    assert(text_views(texts@) + Seq::empty() =~= text_views(texts@));
    Ok(texts)
}

/// What a name is after it was written and read: its labels in lowercase.
pub open spec fn reread(name: Seq<char>) -> Seq<char> {
    joined(labels(encode_utf8(name)), false)
}

/// The labels of `name` have 1 to 63 bytes.
pub open spec fn proper_name(name: Seq<char>) -> bool {
    proper_labels(labels(encode_utf8(name)))
}

impl DnsRecordView {
    /// The names in the record can be written in full.
    pub open spec fn proper(self) -> bool {
        match self {
            DnsRecordView::UNKNOWN { .. } => false,
            DnsRecordView::OPT { .. } => true,
            DnsRecordView::MX { domain, exchange, .. } => proper_name(domain) && proper_name(
                exchange,
            ),
            DnsRecordView::NS { domain, host, .. } => proper_name(domain) && proper_name(host),
            _ => proper_name(self.domain()),
        }
    }

    /// The record with each of its names as it is after it was written and read.
    pub open spec fn reread(self) -> DnsRecordView {
        match self {
            DnsRecordView::UNKNOWN { domain, rtype, data_len, ttl } => DnsRecordView::UNKNOWN {
                domain: reread(domain),
                rtype,
                data_len,
                ttl,
            },
            DnsRecordView::A { domain, addr, ttl } => DnsRecordView::A {
                domain: reread(domain),
                addr,
                ttl,
            },
            DnsRecordView::AAAA { domain, addr, ttl } => DnsRecordView::AAAA {
                domain: reread(domain),
                addr,
                ttl,
            },
            DnsRecordView::MX { domain, preference, exchange, ttl } => DnsRecordView::MX {
                domain: reread(domain),
                preference,
                exchange: reread(exchange),
                ttl,
            },
            DnsRecordView::NS { domain, host, ttl } => DnsRecordView::NS {
                domain: reread(domain),
                host: reread(host),
                ttl,
            },
            DnsRecordView::TXT { domain, data, ttl } => DnsRecordView::TXT {
                domain: reread(domain),
                data,
                ttl,
            },
            DnsRecordView::OPT { payload_size, extended } => DnsRecordView::OPT {
                payload_size,
                extended,
            },
        }
    }
}

/// If `x` and `y` stand one after the other in `b`, each stands at its place.
pub proof fn lemma_split(b: Seq<u8>, pos: int, x: Seq<u8>, y: Seq<u8>)
    requires
        0 <= pos,
        pos + x.len() + y.len() <= b.len(),
        b.subrange(pos, pos + (x + y).len()) == x + y,
    ensures
        b.subrange(pos, pos + x.len()) == x,
        b.subrange(pos + x.len(), pos + x.len() + y.len()) == y,
{
    let sub = b.subrange(pos, pos + (x + y).len());
    assert forall|i: int| 0 <= i < x.len() implies b[pos + i] == x[i] by {
        assert(sub[i] == b[pos + i]);
    }
    assert forall|i: int| 0 <= i < y.len() implies b[pos + x.len() + i] == y[i] by {
        assert(sub[x.len() + i] == b[pos + x.len() + i]);
        assert((x + y)[x.len() + i] == y[i]);
    }
    assert(b.subrange(pos, pos + x.len()) =~= x);
    assert(b.subrange(pos + x.len(), pos + x.len() + y.len()) =~= y);
}

/// A number that stands in `b` is read back.
pub proof fn lemma_u16_back(b: Seq<u8>, pos: int, v: u16)
    requires
        0 <= pos,
        pos + 2 <= b.len(),
        b.subrange(pos, pos + 2) == be16_bytes(v),
    ensures
        be16(b[pos], b[pos + 1]) == v,
{
    let sub = b.subrange(pos, pos + 2);
    assert(sub[0] == b[pos] && sub[1] == b[pos + 1]);
}

/// A number that stands in `b` is read back.
pub proof fn lemma_u32_back(b: Seq<u8>, pos: int, v: u32)
    requires
        0 <= pos,
        pos + 4 <= b.len(),
        b.subrange(pos, pos + 4) == be32_bytes(v),
    ensures
        be32(b[pos], b[pos + 1], b[pos + 2], b[pos + 3]) == v,
{
    let sub = b.subrange(pos, pos + 4);
    assert(sub[0] == b[pos] && sub[1] == b[pos + 1] && sub[2] == b[pos + 2] && sub[3] == b[pos
        + 3]);
}

proof fn lemma_texts_wire_front(texts: Seq<Seq<char>>)
    requires
        texts.len() > 0,
    ensures
        texts_wire(texts) == text_wire(texts[0]) + texts_wire(texts.skip(1)),
    decreases texts.len(),
{
    if texts.len() == 1 {
        assert(texts.drop_last() =~= Seq::empty());
        assert(texts.skip(1) =~= Seq::empty());
        assert(texts_wire(texts) =~= text_wire(texts[0]) + texts_wire(texts.skip(1)));
    } else {
        lemma_texts_wire_front(texts.drop_last());
        assert(texts.drop_last().skip(1) =~= texts.skip(1).drop_last());
        assert(texts.skip(1).last() == texts.last());
        assert(texts_wire(texts) =~= text_wire(texts[0]) + texts_wire(texts.skip(1)));
    }
}

/// Character strings that stand in `b` are read back.
proof fn lemma_texts_back(b: Seq<u8>, pos: int, texts: Seq<Seq<char>>)
    requires
        b.len() == PACKET_CAPACITY,
        0 <= pos,
        pos + texts_wire(texts).len() <= PACKET_CAPACITY,
        b.subrange(pos, pos + texts_wire(texts).len()) == texts_wire(texts),
        forall|i: int| 0 <= i < texts.len() ==> encode_utf8(#[trigger] texts[i]).len() <= 255,
    ensures
        texts_at(b, pos, pos + texts_wire(texts).len()) == (
            Ok::<_, PacketError>(texts),
            pos + texts_wire(texts).len(),
        ),
    decreases texts.len(),
{
    if texts.len() == 0 {
        assert(texts =~= Seq::empty());
    } else {
        let rest = texts.skip(1);
        let bytes = encode_utf8(texts[0]);
        lemma_texts_wire_front(texts);
        lemma_split(b, pos, text_wire(texts[0]), texts_wire(rest));
        assert(encode_utf8(texts[0]).len() <= 255);
        let next = pos + 1 + bytes.len();
        let sub = b.subrange(pos, next);
        assert(sub == text_wire(texts[0]));
        assert(sub[0] == b[pos]);
        assert(b.subrange(pos + 1, next) =~= bytes) by {
            assert forall|i: int| 0 <= i < bytes.len() implies b[pos + 1 + i] == bytes[i] by {
                assert(sub[1 + i] == b[pos + 1 + i]);
            }
        }
        encode_utf8_valid_utf8(texts[0]);
        encode_utf8_decode_utf8(texts[0]);
        assert forall|i: int| 0 <= i < rest.len() implies encode_utf8(#[trigger] rest[i]).len()
            <= 255 by {
            assert(rest[i] == texts[i + 1]);
        }
        lemma_texts_back(b, next, rest);
        assert(seq![texts[0]] + rest =~= texts);
    }
}

/// The fixed part of a record that stands in `b` is read back.
proof fn lemma_head_back(b: Seq<u8>, pos: int, r: DnsRecordView)
    requires
        b.len() == PACKET_CAPACITY,
        0 <= pos,
        !(r is UNKNOWN),
        r.data_wire().len() <= 65535,
        r is OPT || proper_name(r.domain()),
        pos + r.wire().len() <= PACKET_CAPACITY,
        b.subrange(pos, pos + r.wire().len()) == r.wire(),
    ensures
        ({
            let at = pos + r.wire().len() - r.data_wire().len();
            &&& head_at(b, pos) == (
                Ok::<_, PacketError>(
                    ResourceRecordView {
                        name: if r is OPT {
                            Seq::empty()
                        } else {
                            reread(r.domain())
                        },
                        rtype: query_type_of(r.rtype().number()),
                        class: r.class(),
                        ttl: r.ttl(),
                        len: r.data_wire().len() as u16,
                    },
                ),
                at,
            )
            &&& b.subrange(at, at + r.data_wire().len()) == r.data_wire()
        }),
{
    let n = name_wire(encode_utf8(r.domain()));
    let k = be16_bytes(r.rtype().number());
    let c = be16_bytes(r.class());
    let t = be32_bytes(r.ttl());
    let l = be16_bytes(r.data_wire().len() as u16);
    let d = r.data_wire();
    lemma_split(b, pos, n + k + c + t + l, d);
    lemma_split(b, pos, n + k + c + t, l);
    lemma_split(b, pos, n + k + c, t);
    lemma_split(b, pos, n + k, c);
    lemma_split(b, pos, n, k);
    let at = pos + n.len();
    lemma_u16_back(b, at, r.rtype().number());
    lemma_u16_back(b, at + 2, r.class());
    lemma_u32_back(b, at + 4, r.ttl());
    lemma_u16_back(b, at + 8, r.data_wire().len() as u16);
    if r is OPT {
        lemma_root_wire(b, pos);
    } else {
        law_name_round_trip(b, pos, encode_utf8(r.domain()));
    }
}

/// A record that was written is read back, with its names in lowercase, and the cursor ends
/// where the writing ended.
pub proof fn law_record_round_trip(b: Seq<u8>, pos: int, r: DnsRecordView)
    requires
        b.len() == PACKET_CAPACITY,
        0 <= pos,
        r.proper(),
        r.unwritable() is None,
        pos + r.wire().len() <= PACKET_CAPACITY,
        b.subrange(pos, pos + r.wire().len()) == r.wire(),
    ensures
        record_at(b, pos) == (Ok::<_, PacketError>(r.reread()), pos + r.wire().len()),
{
    lemma_head_back(b, pos, r);
    let d = r.data_wire();
    let at = pos + r.wire().len() - d.len();
    match r {
        DnsRecordView::A { addr, .. } => {
            lemma_u32_back(b, at, addr.bits);
        },
        DnsRecordView::AAAA { addr, .. } => {
            let p0 = be32_bytes(addr.w0);
            let p1 = be32_bytes(addr.w1);
            let p2 = be32_bytes(addr.w2);
            let p3 = be32_bytes(addr.w3);
            lemma_split(b, at, p0 + p1 + p2, p3);
            lemma_split(b, at, p0 + p1, p2);
            lemma_split(b, at, p0, p1);
            lemma_u32_back(b, at, addr.w0);
            lemma_u32_back(b, at + 4, addr.w1);
            lemma_u32_back(b, at + 8, addr.w2);
            lemma_u32_back(b, at + 12, addr.w3);
        },
        DnsRecordView::MX { preference, exchange, .. } => {
            let name = encode_utf8(exchange);
            lemma_split(b, at, be16_bytes(preference), name_wire(name));
            lemma_u16_back(b, at, preference);
            law_name_round_trip(b, at + 2, name);
        },
        DnsRecordView::NS { host, .. } => {
            law_name_round_trip(b, at, encode_utf8(host));
        },
        DnsRecordView::TXT { data, .. } => {
            lemma_texts_back(b, at, data);
        },
        _ => {},
    }
}

/// The head of a record: its name, then two bytes of type, two of class, four of lifetime and two of
/// length.
pub proof fn law_record_head_is_read(b: Seq<u8>, pos: int)
    ensures
        ({
            let (name, error) = name_at(b, pos, 0, false);
            let at = after_name(b, pos);
            let (head, next) = head_at(b, pos);
            &&& error is Some ==> head == Err::<ResourceRecordView, PacketError>(error->0)
            &&& error is None && at + 10 > 512 ==> head is Err
            &&& error is None && at + 10 <= 512 ==> {
                &&& head is Ok
                &&& head->Ok_0.name == name
                &&& head->Ok_0.rtype.number() == b[at] * 256 + b[at + 1]
                &&& head->Ok_0.class == b[at + 2] * 256 + b[at + 3]
                &&& head->Ok_0.ttl == ((b[at + 4] * 256 + b[at + 5]) * 256 + b[at + 6]) * 256 + b[at
                    + 7]
                &&& head->Ok_0.len == b[at + 8] * 256 + b[at + 9]
                &&& next == at + 10
            }
        }),
{
}

/// A record that cannot be understood, and an option record, is passed over by its length.
pub proof fn law_opaque_records_are_passed_over(b: Seq<u8>, pos: int)
    requires
        head_at(b, pos).0 is Ok,
    ensures
        ({
            let (head, at) = head_at(b, pos);
            let h = head->Ok_0;
            let n = h.rtype.number();
            let (record, next) = record_at(b, pos);
            &&& n != 1 && n != 2 && n != 15 && n != 16 && n != 28 ==> record is Ok && next == at
                + h.len
            &&& n == 41 ==> record == Ok::<DnsRecordView, PacketError>(
                DnsRecordView::OPT { payload_size: h.class, extended: h.ttl },
            )
            &&& n != 1 && n != 2 && n != 15 && n != 16 && n != 28 && n != 41 ==> record == Ok::<
                DnsRecordView,
                PacketError,
            >(
                DnsRecordView::UNKNOWN {
                    domain: h.name,
                    rtype: h.rtype,
                    data_len: h.len,
                    ttl: h.ttl,
                },
            )
        }),
{
    lemma_head_type(b, pos);
}

/// The data of a record that is understood follows its head: four or sixteen bytes of address, a
/// name, or a preference and a name.
pub proof fn law_record_data_is_read(b: Seq<u8>, pos: int)
    requires
        head_at(b, pos).0 is Ok,
        head_at(b, pos).1 + 16 <= 512,
    ensures
        ({
            let (head, at) = head_at(b, pos);
            let h = head->Ok_0;
            let n = h.rtype.number();
            let (record, next) = record_at(b, pos);
            let word = |k: int|
                ((b[k] * 256 + b[k + 1]) * 256 + b[k + 2]) * 256 + b[k + 3];
            &&& n == 1 ==> next == at + 4 && match record {
                Ok(DnsRecordView::A { domain, addr, ttl }) => domain == h.name && ttl == h.ttl
                    && addr.bits == word(at),
                _ => false,
            }
            &&& n == 28 ==> next == at + 16 && match record {
                Ok(DnsRecordView::AAAA { domain, addr, ttl }) => domain == h.name && ttl == h.ttl
                    && addr.w0 == word(at) && addr.w1 == word(at + 4) && addr.w2 == word(at + 8)
                    && addr.w3 == word(at + 12),
                _ => false,
            }
            &&& n == 2 && name_at(b, at, 0, false).1 is None ==> next == after_name(b, at)
                && match record {
                Ok(DnsRecordView::NS { domain, host, ttl }) => domain == h.name && ttl == h.ttl
                    && host == name_at(b, at, 0, false).0,
                _ => false,
            }
            &&& n == 15 && name_at(b, at + 2, 0, false).1 is None ==> next == after_name(b, at + 2)
                && match record {
                Ok(DnsRecordView::MX { domain, preference, exchange, ttl }) => domain == h.name
                    && ttl == h.ttl && preference == b[at] * 256 + b[at + 1] && exchange == name_at(
                    b,
                    at + 2,
                    0,
                    false,
                ).0,
                _ => false,
            }
        }),
{
    lemma_head_type(b, pos);
}

proof fn lemma_head_type(b: Seq<u8>, pos: int)
    requires
        head_at(b, pos).0 is Ok,
    ensures
        ({
            let t = head_at(b, pos).0->Ok_0.rtype;
            t == query_type_of(t.number())
        }),
{
}

/// The texts of a record are read one behind another to the end of its data.
pub proof fn law_texts_are_read_in_turn(b: Seq<u8>, pos: int, end: int)
    requires
        0 <= pos < end <= 512,
        pos + 1 + b[pos] <= end,
        texts_at(b, pos + 1 + b[pos], end).0 is Ok,
    ensures
        ({
            let next = pos + 1 + b[pos];
            let (texts, at) = texts_at(b, pos, end);
            let (rest, end_at) = texts_at(b, next, end);
            &&& texts is Ok
            &&& texts->Ok_0.len() == rest->Ok_0.len() + 1
            &&& texts->Ok_0[0] == byte_text(b.subrange(pos + 1, next))
            &&& texts->Ok_0.skip(1) == rest->Ok_0
            &&& at == end_at
        }),
        texts_at(b, end, end) == (Ok::<Seq<Seq<char>>, PacketError>(Seq::empty()), end),
{
    let next = pos + 1 + b[pos];
    assert(texts_at(b, pos, end).0->Ok_0.skip(1) =~= texts_at(b, next, end).0->Ok_0);
}

} // verus!
