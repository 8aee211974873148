//! DNS messages: header, flags, questions and resource records.

use vstd::prelude::*;
use vstd::std_specs::convert::FromSpecImpl;
use vstd::string::*;

use crate::packet::{
    advance, after_name, be16_bytes, name_at, u16_at, BytePacketBuf, PacketError,
    PACKET_CAPACITY,
};
use crate::record::{query_type_of, record_at, DnsRecord, DnsRecordView, QueryType};
use crate::text::{concat3, decimal, decimal_text};

verus! {

/// What a message asks for.
#[derive(Debug, Clone, Copy, PartialEq, Eq, Structural)]
pub enum Opcode {
    Query,
    IQuery,
    Status,
    Notify,
    Update,
    Unknown(u8),
}

/// The operation with the number `code` in a packet.
pub open spec fn opcode_of(code: u8) -> Opcode {
    match code {
        0 => Opcode::Query,
        1 => Opcode::IQuery,
        2 => Opcode::Status,
        4 => Opcode::Notify,
        5 => Opcode::Update,
        v => Opcode::Unknown(v),
    }
}

impl Opcode {
    /// Index of the variant in the order of declaration.
    pub open spec fn index(&self) -> u8 {
        match self {
            Opcode::Query => 0,
            Opcode::IQuery => 1,
            Opcode::Status => 2,
            Opcode::Notify => 3,
            Opcode::Update => 4,
            Opcode::Unknown(_) => 5,
        }
    }

    pub fn discriminant(&self) -> (r: u8)
        ensures
            r == self.index(),
    {
        match self {
            Opcode::Query => 0,
            Opcode::IQuery => 1,
            Opcode::Status => 2,
            Opcode::Notify => 3,
            Opcode::Update => 4,
            Opcode::Unknown(_) => 5,
        }
    }

    /// The four bits that stand for the operation in a packet.
    pub open spec fn wire(&self) -> u8 {
        match self {
            Opcode::Query => 0,
            Opcode::IQuery => 1,
            Opcode::Status => 2,
            Opcode::Notify => 4,
            Opcode::Update => 5,
            Opcode::Unknown(v) => (*v % 16) as u8,
        }
    }

    fn wire_code(&self) -> (r: u8)
        ensures
            r == self.wire(),
            r < 16,
    {
        match self {
            Opcode::Query => 0,
            Opcode::IQuery => 1,
            Opcode::Status => 2,
            Opcode::Notify => 4,
            Opcode::Update => 5,
            Opcode::Unknown(v) => *v % 16,
        }
    }
}

impl FromSpecImpl<u8> for Opcode {
    open spec fn obeys_from_spec() -> bool {
        true
    }

    open spec fn from_spec(code: u8) -> Opcode {
        opcode_of(code)
    }
}

impl From<u8> for Opcode {
    fn from(code: u8) -> (r: Opcode) {
        match code {
            0 => Opcode::Query,
            1 => Opcode::IQuery,
            2 => Opcode::Status,
            4 => Opcode::Notify,
            5 => Opcode::Update,
            v => Opcode::Unknown(v),
        }
    }
}

impl FromSpecImpl<Opcode> for u8 {
    open spec fn obeys_from_spec() -> bool {
        true
    }

    open spec fn from_spec(op: Opcode) -> u8 {
        op.index()
    }
}

impl From<Opcode> for u8 {
    fn from(op: Opcode) -> (r: u8) {
        op.discriminant()
    }
}

/// How a server answered.
#[derive(Debug, Clone, Copy, PartialEq, Eq, Structural)]
pub enum ResultCode {
    NOERROR,
    FORMERR,
    SERVFAIL,
    NXDOMAIN,
    NOTIMP,
    REFUSED,
}

/// The result with the number `num`; numbers without a meaning count as success.
pub open spec fn result_of(num: u16) -> ResultCode {
    match num {
        1 => ResultCode::FORMERR,
        2 => ResultCode::SERVFAIL,
        3 => ResultCode::NXDOMAIN,
        4 => ResultCode::NOTIMP,
        5 => ResultCode::REFUSED,
        _ => ResultCode::NOERROR,
    }
}

impl ResultCode {
    /// The number of the result.
    pub open spec fn number(&self) -> u16 {
        match self {
            ResultCode::NOERROR => 0,
            ResultCode::FORMERR => 1,
            ResultCode::SERVFAIL => 2,
            ResultCode::NXDOMAIN => 3,
            ResultCode::NOTIMP => 4,
            ResultCode::REFUSED => 5,
        }
    }

    /// The name of the result.
    pub fn name(&self) -> (r: &'static str)
        ensures
            r@ == self.name_text(),
    {
        match self {
            ResultCode::NOERROR => "NOERROR",
            ResultCode::FORMERR => "FORMERR",
            ResultCode::SERVFAIL => "SERVFAIL",
            ResultCode::NXDOMAIN => "NXDOMAIN",
            ResultCode::NOTIMP => "NOTIMP",
            ResultCode::REFUSED => "REFUSED",
        }
    }

    pub open spec fn name_text(&self) -> Seq<char> {
        match self {
            ResultCode::NOERROR => "NOERROR"@,
            ResultCode::FORMERR => "FORMERR"@,
            ResultCode::SERVFAIL => "SERVFAIL"@,
            ResultCode::NXDOMAIN => "NXDOMAIN"@,
            ResultCode::NOTIMP => "NOTIMP"@,
            ResultCode::REFUSED => "REFUSED"@,
        }
    }
}

impl FromSpecImpl<u16> for ResultCode {
    open spec fn obeys_from_spec() -> bool {
        true
    }

    open spec fn from_spec(num: u16) -> ResultCode {
        result_of(num)
    }
}

impl From<u16> for ResultCode {
    fn from(num: u16) -> (r: ResultCode) {
        match num {
            1 => ResultCode::FORMERR,
            2 => ResultCode::SERVFAIL,
            3 => ResultCode::NXDOMAIN,
            4 => ResultCode::NOTIMP,
            5 => ResultCode::REFUSED,
            _ => ResultCode::NOERROR,
        }
    }
}

impl FromSpecImpl<ResultCode> for u16 {
    open spec fn obeys_from_spec() -> bool {
        true
    }

    open spec fn from_spec(rescode: ResultCode) -> u16 {
        rescode.number()
    }
}

impl From<ResultCode> for u16 {
    fn from(rescode: ResultCode) -> (r: u16) {
        match rescode {
            ResultCode::NOERROR => 0,
            ResultCode::FORMERR => 1,
            ResultCode::SERVFAIL => 2,
            ResultCode::NXDOMAIN => 3,
            ResultCode::NOTIMP => 4,
            ResultCode::REFUSED => 5,
        }
    }
}

/// The second 16 bits of a message header.
#[derive(Debug, Clone, Copy, PartialEq, Eq, Structural)]
pub struct Flags {
    /// One bit.
    pub response: bool,
    /// Four bits.
    pub opcode: Opcode,
    /// One bit.
    pub authoritative_answer: bool,
    /// One bit.
    pub truncated_message: bool,
    /// One bit.
    pub recursion_desired: bool,
    /// One bit.
    pub recursion_available: bool,
    /// Three reserved bits.
    pub z: u8,
    /// Four bits.
    pub rescode: ResultCode,
}

/// Bit `weight` of `value` is set, where `weight` is a power of two.
pub open spec fn bit(value: u16, weight: int) -> bool {
    (value as int / weight) % 2 == 1
}

/// The flags that `value` stands for.
pub open spec fn flags_of(value: u16) -> Flags {
    Flags {
        response: bit(value, 32768),
        opcode: opcode_of((value / 2048 % 16) as u8),
        authoritative_answer: bit(value, 1024),
        truncated_message: bit(value, 512),
        recursion_desired: bit(value, 256),
        recursion_available: bit(value, 128),
        z: (value / 16 % 8) as u8,
        rescode: result_of((value % 16) as u16),
    }
}

/// `weight` if the bit is set, else zero.
pub open spec fn weigh(set: bool, weight: int) -> int {
    if set {
        weight
    } else {
        0
    }
}

impl Flags {
    /// The 16 bits that stand for the flags.
    pub open spec fn wire(&self) -> u16 {
        (weigh(self.response, 32768) + self.opcode.wire() * 2048 + weigh(
            self.authoritative_answer,
            1024,
        ) + weigh(self.truncated_message, 512) + weigh(self.recursion_desired, 256) + weigh(
            self.recursion_available,
            128,
        ) + (self.z % 8) * 16 + self.rescode.number()) as u16
    }

    /// The flags hold nothing that the 16 bits cannot carry.
    pub open spec fn canonical(&self) -> bool {
        &&& self.z < 8
        &&& match self.opcode {
            Opcode::Unknown(v) => v < 16 && opcode_of(v) == self.opcode,
            _ => true,
        }
    }

    pub fn new() -> (r: Flags)
        ensures
            r == flags_of(0),
    {
        Flags {
            response: false,
            opcode: Opcode::Query,
            authoritative_answer: false,
            truncated_message: false,
            recursion_desired: false,
            recursion_available: false,
            z: 0,
            rescode: ResultCode::NOERROR,
        }
    }
}

/// A truth value as text.
pub open spec fn bool_text(b: bool) -> Seq<char> {
    if b {
        "true"@
    } else {
        "false"@
    }
}

impl Opcode {
    pub open spec fn name_text(&self) -> Seq<char> {
        match self {
            Opcode::Query => "Query"@,
            Opcode::IQuery => "IQuery"@,
            Opcode::Status => "Status"@,
            Opcode::Notify => "Notify"@,
            Opcode::Update => "Update"@,
            Opcode::Unknown(v) => "Unknown("@ + decimal_text(*v as nat) + ")"@,
        }
    }

    /// The name of the operation.
    pub fn name(&self) -> (r: String)
        ensures
            r@ == self.name_text(),
    {
        match self {
            Opcode::Query => "Query".to_string(),
            Opcode::IQuery => "IQuery".to_string(),
            Opcode::Status => "Status".to_string(),
            Opcode::Notify => "Notify".to_string(),
            Opcode::Update => "Update".to_string(),
            Opcode::Unknown(v) => concat3("Unknown(", decimal(*v as u64).as_str(), ")"),
        }
    }
}

/// A line of a description: a label, a colon, a value and a line break.
pub open spec fn line(label: Seq<char>, value: Seq<char>) -> Seq<char> {
    label + ": "@ + value + "\n"@
}

fn append_line(out: &mut String, label: &str, value: &str)
    ensures
        final(out)@ == old(out)@ + line(label@, value@),
{
    out.append(label);
    out.append(": ");
    out.append(value);
    out.append("\n");
    assert(out@ =~= old(out)@ + line(label@, value@));
}

fn bool_str(b: bool) -> (r: &'static str)
    ensures
        r@ == bool_text(b),
{
    if b {
        "true"
    } else {
        "false"
    }
}

impl Flags {
    /// The flags as text, one per line.
    pub open spec fn text(&self) -> Seq<char> {
        line("response"@, bool_text(self.response)) + line("opcode"@, self.opcode.name_text())
            + line("authoritative_answer"@, bool_text(self.authoritative_answer)) + line(
            "truncated_message"@,
            bool_text(self.truncated_message),
        ) + line("recursion_desired"@, bool_text(self.recursion_desired)) + line(
            "recursion_available"@,
            bool_text(self.recursion_available),
        ) + line("z"@, decimal_text(self.z as nat)) + line("rescode"@, self.rescode.name_text())
    }

    /// Describes the flags, one per line.
    pub fn describe(&self) -> (r: String)
        ensures
            r@ == self.text(),
    {
        let mut out: String = String::new();
        append_line(&mut out, "response", bool_str(self.response));
        append_line(&mut out, "opcode", self.opcode.name().as_str());
        append_line(&mut out, "authoritative_answer", bool_str(self.authoritative_answer));
        append_line(&mut out, "truncated_message", bool_str(self.truncated_message));
        append_line(&mut out, "recursion_desired", bool_str(self.recursion_desired));
        append_line(&mut out, "recursion_available", bool_str(self.recursion_available));
        append_line(&mut out, "z", decimal(self.z as u64).as_str());
        append_line(&mut out, "rescode", self.rescode.name());
        assert(out@ =~= self.text());
        out
    }
}

impl FromSpecImpl<u16> for Flags {
    open spec fn obeys_from_spec() -> bool {
        true
    }

    open spec fn from_spec(value: u16) -> Flags {
        flags_of(value)
    }
}

impl From<u16> for Flags {
    fn from(value: u16) -> (r: Flags) {
        Flags {
            response: value / 32768 % 2 == 1,
            opcode: Opcode::from((value / 2048 % 16) as u8),
            authoritative_answer: value / 1024 % 2 == 1,
            truncated_message: value / 512 % 2 == 1,
            recursion_desired: value / 256 % 2 == 1,
            recursion_available: value / 128 % 2 == 1,
            z: (value / 16 % 8) as u8,
            rescode: ResultCode::from(value % 16),
        }
    }
}

impl FromSpecImpl<Flags> for u16 {
    open spec fn obeys_from_spec() -> bool {
        true
    }

    open spec fn from_spec(flags: Flags) -> u16 {
        flags.wire()
    }
}

fn weight_of(set: bool, weight: u16) -> (r: u16)
    ensures
        r == weigh(set, weight as int),
{
    if set {
        weight
    } else {
        0
    }
}

impl From<Flags> for u16 {
    fn from(flags: Flags) -> (r: u16) {
        let opcode: u16 = flags.opcode.wire_code() as u16;
        let rescode: u16 = u16::from(flags.rescode);
        weight_of(flags.response, 32768) + opcode * 2048 + weight_of(
            flags.authoritative_answer,
            1024,
        ) + weight_of(flags.truncated_message, 512) + weight_of(flags.recursion_desired, 256)
            + weight_of(flags.recursion_available, 128) + (flags.z % 8) as u16 * 16 + rescode
    }
}

/// The parts of a flag word can be read off it.
proof fn lemma_flag_parts(a: u16, o: u16, b: u16, c: u16, d: u16, e: u16, z: u16, r: u16)
    by (bit_vector)
    requires
        a < 2,
        o < 16,
        b < 2,
        c < 2,
        d < 2,
        e < 2,
        z < 8,
        r < 16,
    ensures
        ({
            let v = (a * 32768 + o * 2048 + b * 1024 + c * 512 + d * 256 + e * 128 + z * 16
                + r) as u16;
            &&& a * 32768 + o * 2048 + b * 1024 + c * 512 + d * 256 + e * 128 + z * 16 + r < 65536
            &&& (v / 32768) % 2 == a
            &&& (v / 2048) % 16 == o
            &&& (v / 1024) % 2 == b
            &&& (v / 512) % 2 == c
            &&& (v / 256) % 2 == d
            &&& (v / 128) % 2 == e
            &&& (v / 16) % 8 == z
            &&& v % 16 == r
        }),
{
}

/// A flag word is the sum of its parts.
proof fn lemma_flag_sum(v: u16)
    by (bit_vector)
    ensures
        v == (v / 32768) % 2 * 32768 + (v / 2048) % 16 * 2048 + (v / 1024) % 2 * 1024 + (v / 512)
            % 2 * 512 + (v / 256) % 2 * 256 + (v / 128) % 2 * 128 + (v / 16) % 8 * 16 + v % 16,
{
}

/// One or zero.
spec fn digit(set: bool) -> u16 {
    if set {
        1
    } else {
        0
    }
}

/// The operation of canonical flags comes back.
proof fn lemma_opcode_back(flags: Flags)
    requires
        flags.canonical(),
    ensures
        flags.opcode.wire() < 16,
        opcode_of(flags.opcode.wire()) == flags.opcode,
{
}

/// The result of flags comes back.
proof fn lemma_result_back(code: ResultCode)
    ensures
        code.number() < 16,
        result_of(code.number()) == code,
{
}

/// A word whose parts are those of canonical flags stands for them.
proof fn lemma_flags_of_parts(v: u16, flags: Flags)
    requires
        flags.canonical(),
        v / 32768 % 2 == digit(flags.response),
        v / 2048 % 16 == flags.opcode.wire(),
        v / 1024 % 2 == digit(flags.authoritative_answer),
        v / 512 % 2 == digit(flags.truncated_message),
        v / 256 % 2 == digit(flags.recursion_desired),
        v / 128 % 2 == digit(flags.recursion_available),
        v / 16 % 8 == flags.z,
        v % 16 == flags.rescode.number(),
    ensures
        flags_of(v) == flags,
{
    lemma_opcode_back(flags);
    lemma_result_back(flags.rescode);
}

/// The word of flags is the sum of its parts.
proof fn lemma_flags_wire(flags: Flags, o: u16, z: u16, r: u16)
    requires
        o == flags.opcode.wire(),
        z == flags.z % 8,
        r == flags.rescode.number(),
    ensures
        flags.wire() == (digit(flags.response) * 32768 + o * 2048 + digit(
            flags.authoritative_answer,
        ) * 1024 + digit(flags.truncated_message) * 512 + digit(flags.recursion_desired) * 256
            + digit(flags.recursion_available) * 128 + z * 16 + r) as u16,
{
}

/// Flags that are written and read again come back unchanged.
pub proof fn law_flags_round_trip(flags: Flags)
    requires
        flags.canonical(),
    ensures
        flags_of(flags.wire()) == flags,
{
    let o = flags.opcode.wire() as u16;
    let z = flags.z as u16;
    let r = flags.rescode.number();
    lemma_opcode_back(flags);
    lemma_result_back(flags.rescode);
    lemma_flag_parts(
        digit(flags.response),
        o,
        digit(flags.authoritative_answer),
        digit(flags.truncated_message),
        digit(flags.recursion_desired),
        digit(flags.recursion_available),
        z,
        r,
    );
    lemma_flags_wire(flags, o, z, r);
    lemma_flags_of_parts(flags.wire(), flags);
}

/// Sixteen bits that are read as flags and written again come back unchanged, unless the
/// result number has no meaning.
pub proof fn law_flag_bits_round_trip(value: u16)
    requires
        value % 16 <= 5,
    ensures
        flags_of(value).wire() == value,
{
    lemma_flag_sum(value);
    let code = (value / 2048 % 16) as u8;
    assert(opcode_of(code).wire() == code);
    assert(result_of((value % 16) as u16).number() == value % 16);
}

/// The first twelve bytes of a message.
#[derive(Debug, Clone, Copy, PartialEq, Eq, Structural)]
pub struct DnsHeader {
    pub id: u16,
    pub flags: Flags,
    /// Number of questions.
    pub qdcount: u16,
    /// Number of answers.
    pub ancount: u16,
    /// Number of authority records.
    pub nscount: u16,
    /// Number of additional records.
    pub arcount: u16,
}

/// The number at `pos` in the packet `b`, or `old` if the buffer ends before it does.
pub open spec fn field_at(b: Seq<u8>, pos: int, old: u16) -> u16 {
    match u16_at(b, pos) {
        Ok(v) => v,
        Err(_) => old,
    }
}

impl DnsHeader {
    /// The header after an attempt to read it at `pos` in the packet `b`: the fields before
    /// the end of the buffer are taken from there, the others stay.
    pub open spec fn read_at(&self, b: Seq<u8>, pos: int) -> DnsHeader {
        DnsHeader {
            id: field_at(b, pos, self.id),
            flags: match u16_at(b, pos + 2) {
                Ok(v) => flags_of(v),
                Err(_) => self.flags,
            },
            qdcount: field_at(b, pos + 4, self.qdcount),
            ancount: field_at(b, pos + 6, self.ancount),
            nscount: field_at(b, pos + 8, self.nscount),
            arcount: field_at(b, pos + 10, self.arcount),
        }
    }

    /// The header as it stands in a packet.
    pub open spec fn wire(&self) -> Seq<u8> {
        be16_bytes(self.id) + be16_bytes(self.flags.wire()) + be16_bytes(self.qdcount)
            + be16_bytes(self.ancount) + be16_bytes(self.nscount) + be16_bytes(self.arcount)
    }

    pub open spec fn empty() -> DnsHeader {
        DnsHeader { id: 0, flags: flags_of(0), qdcount: 0, ancount: 0, nscount: 0, arcount: 0 }
    }

    pub fn new() -> (r: DnsHeader)
        ensures
            r == DnsHeader::empty(),
    {
        DnsHeader { id: 0, flags: Flags::new(), qdcount: 0, ancount: 0, nscount: 0, arcount: 0 }
    }

    pub fn read(&mut self, buffer: &mut BytePacketBuf) -> (r: Result<(), PacketError>)
        ensures
            r == (if old(buffer).pos + 12 <= PACKET_CAPACITY {
                Ok(())
            } else {
                Err(PacketError::EndOfBuffer)
            }),
            *final(self) == old(self).read_at(old(buffer).buf@, old(buffer).pos as int),
            final(buffer).is_at(old(buffer), old(buffer).buf@, advance(old(buffer).pos as int, 12)),
    {
        self.id = buffer.read_u16()?;
        self.flags = Flags::from(buffer.read_u16()?);
        self.qdcount = buffer.read_u16()?;
        self.ancount = buffer.read_u16()?;
        self.nscount = buffer.read_u16()?;
        self.arcount = buffer.read_u16()?;
        Ok(())
    }
}

impl Default for DnsHeader {
    fn default() -> (r: DnsHeader)
        ensures
            r == DnsHeader::empty(),
    {
        DnsHeader::new()
    }
}

/// A question of a message.
#[derive(Debug)]
pub struct Question {
    pub qname: String,
    pub qtype: QueryType,
}

/// The contents of a [`Question`].
pub struct QuestionView {
    pub qname: Seq<char>,
    pub qtype: QueryType,
}

impl View for Question {
    type V = QuestionView;

    open spec fn view(&self) -> QuestionView {
        QuestionView { qname: self.qname@, qtype: self.qtype }
    }
}

impl QuestionView {
    /// The question after an attempt to read one at `pos` in the packet `b`: the name is
    /// appended, and the kind is replaced if it lies within the buffer.
    pub open spec fn read_at(self, b: Seq<u8>, pos: int) -> QuestionView {
        let (name, error) = name_at(b, pos, 0, false);
        QuestionView {
            qname: self.qname + name,
            qtype: match (error, u16_at(b, after_name(b, pos))) {
                (None, Ok(v)) => query_type_of(v),
                _ => self.qtype,
            },
        }
    }
}

/// How reading a question at `pos` ends, and the cursor after it.
pub open spec fn question_end(b: Seq<u8>, pos: int) -> (Result<(), PacketError>, int) {
    let at = after_name(b, pos);
    match name_at(b, pos, 0, false).1 {
        Some(e) => (Err(e), at),
        None => if at + 4 <= PACKET_CAPACITY {
            (Ok(()), at + 4)
        } else {
            (Err(PacketError::EndOfBuffer), advance(at, 4))
        },
    }
}

impl Question {
    pub fn new(name: String, qtype: QueryType) -> (r: Question)
        ensures
            r.qname == name,
            r.qtype == qtype,
    {
        Question { qname: name, qtype }
    }

    pub fn read(&mut self, buffer: &mut BytePacketBuf) -> (r: Result<(), PacketError>)
        ensures
            r == question_end(old(buffer).buf@, old(buffer).pos as int).0,
            final(self)@ == old(self)@.read_at(old(buffer).buf@, old(buffer).pos as int),
            final(buffer).is_at(
                old(buffer),
                old(buffer).buf@,
                question_end(old(buffer).buf@, old(buffer).pos as int).1,
            ),
    {
        buffer.read_qname(&mut self.qname)?;
        self.qtype = QueryType::from(buffer.read_u16()?);
        buffer.read_u16()?;
        Ok(())
    }
}

/// A DNS message.
#[derive(Debug)]
pub struct Dns {
    pub header: DnsHeader,
    pub question: Vec<Question>,
    pub answer: Vec<DnsRecord>,
    pub authority: Vec<DnsRecord>,
    pub additional: Vec<DnsRecord>,
}

/// The contents of a [`Dns`] message.
pub struct DnsView {
    pub header: DnsHeader,
    pub question: Seq<QuestionView>,
    pub answer: Seq<DnsRecordView>,
    pub authority: Seq<DnsRecordView>,
    pub additional: Seq<DnsRecordView>,
}

/// The contents of each of `records`.
pub open spec fn record_views(records: Seq<DnsRecord>) -> Seq<DnsRecordView> {
    records.map_values(|r: DnsRecord| r@)
}

/// The contents of each of `questions`.
pub open spec fn question_views(questions: Seq<Question>) -> Seq<QuestionView> {
    questions.map_values(|q: Question| q@)
}

impl View for Dns {
    type V = DnsView;

    open spec fn view(&self) -> DnsView {
        DnsView {
            header: self.header,
            question: question_views(self.question@),
            answer: record_views(self.answer@),
            authority: record_views(self.authority@),
            additional: record_views(self.additional@),
        }
    }
}

/// The `n` questions from `pos` on, and the cursor after them.
pub open spec fn questions_at(b: Seq<u8>, pos: int, n: nat) -> (
    Result<Seq<QuestionView>, PacketError>,
    int,
)
    decreases n,
{
    if n == 0 {
        (Ok(Seq::empty()), pos)
    } else {
        let first = QuestionView { qname: Seq::empty(), qtype: QueryType::UNKNOWN(0) }.read_at(
            b,
            pos,
        );
        match question_end(b, pos) {
            (Err(e), at) => (Err(e), at),
            (Ok(_), at) => match questions_at(b, at, (n - 1) as nat) {
                (Ok(rest), end) => (Ok(seq![first] + rest), end),
                (Err(e), end) => (Err(e), end),
            },
        }
    }
}

/// The `n` records from `pos` on, and the cursor after them.
pub open spec fn records_at(b: Seq<u8>, pos: int, n: nat) -> (
    Result<Seq<DnsRecordView>, PacketError>,
    int,
)
    decreases n,
{
    if n == 0 {
        (Ok(Seq::empty()), pos)
    } else {
        match record_at(b, pos) {
            (Err(e), at) => (Err(e), at),
            (Ok(first), at) => match records_at(b, at, (n - 1) as nat) {
                (Ok(rest), end) => (Ok(seq![first] + rest), end),
                (Err(e), end) => (Err(e), end),
            },
        }
    }
}

/// The message at `pos` in the packet `b`, and the cursor after it: a header and the
/// questions and records that the header counts.
pub open spec fn message_at(b: Seq<u8>, pos: int) -> (Result<DnsView, PacketError>, int) {
    let header = DnsHeader::empty().read_at(b, pos);
    if pos + 12 > PACKET_CAPACITY {
        (Err(PacketError::EndOfBuffer), advance(pos, 12))
    } else {
        match questions_at(b, pos + 12, header.qdcount as nat) {
            (Err(e), at) => (Err(e), at),
            (Ok(question), at) => match records_at(b, at, header.ancount as nat) {
                (Err(e), at) => (Err(e), at),
                (Ok(answer), at) => match records_at(b, at, header.nscount as nat) {
                    (Err(e), at) => (Err(e), at),
                    (Ok(authority), at) => match records_at(b, at, header.arcount as nat) {
                        (Err(e), at) => (Err(e), at),
                        (Ok(additional), at) => (
                            Ok(DnsView { header, question, answer, authority, additional }),
                            at,
                        ),
                    },
                },
            },
        }
    }
}

fn read_questions(buffer: &mut BytePacketBuf, n: u16) -> (r: Result<Vec<Question>, PacketError>)
    ensures
        ({
            let (value, at) = questions_at(old(buffer).buf@, old(buffer).pos as int, n as nat);
            &&& final(buffer).is_at(old(buffer), old(buffer).buf@, at)
            &&& match value {
                Ok(questions) => r is Ok && question_views(r->Ok_0@) == questions,
                Err(e) => r == Err::<Vec<Question>, _>(e),
            }
        }),
{
    let ghost b = buffer.buf@;
    let ghost start = buffer.pos as int;
    let mut questions: Vec<Question> = Vec::new();
    let mut left: u16 = n;
    assert(question_views(questions@) =~= Seq::empty());
    assert(questions_at(b, start, n as nat).0 is Ok ==> question_views(questions@)
        + questions_at(b, start, n as nat).0->Ok_0 =~= questions_at(b, start, n as nat).0->Ok_0);
    while left > 0
        invariant
            b == old(buffer).buf@,
            start == old(buffer).pos,
            buffer.is_at(old(buffer), b, buffer.pos as int),
            ({
                let (all, last) = questions_at(b, start, n as nat);
                let (rest, at) = questions_at(b, buffer.pos as int, left as nat);
                &&& last == at
                &&& match rest {
                    Ok(more) => all == Ok::<_, PacketError>(question_views(questions@) + more),
                    Err(e) => all == Err::<Seq<QuestionView>, _>(e),
                }
            }),
        decreases left,
    {
        let ghost pos = buffer.pos as int;
        let mut question: Question = Question::new(String::new(), QueryType::UNKNOWN(0));
        let ghost blank = question@;
        assert(blank == (QuestionView { qname: Seq::empty(), qtype: QueryType::UNKNOWN(0) }));
        question.read(buffer)?;
        let ghost before = question_views(questions@);
        let ghost first = question@;
        questions.push(question);
        left = left - 1;
        proof {
            assert(question_views(questions@) =~= before.push(first));
            match questions_at(b, buffer.pos as int, left as nat).0 {
                Ok(more) => {
                    assert(before + (seq![first] + more) =~= question_views(questions@) + more);
                },
                Err(_) => {},
            }
        }
    }
    assert(question_views(questions@) + Seq::empty() =~= question_views(questions@));
    Ok(questions)
}

fn read_records(buffer: &mut BytePacketBuf, n: u16) -> (r: Result<Vec<DnsRecord>, PacketError>)
    ensures
        ({
            let (value, at) = records_at(old(buffer).buf@, old(buffer).pos as int, n as nat);
            &&& final(buffer).is_at(old(buffer), old(buffer).buf@, at)
            &&& match value {
                Ok(records) => r is Ok && record_views(r->Ok_0@) == records,
                Err(e) => r == Err::<Vec<DnsRecord>, _>(e),
            }
        }),
{
    let ghost b = buffer.buf@;
    let ghost start = buffer.pos as int;
    let mut records: Vec<DnsRecord> = Vec::new();
    let mut left: u16 = n;
    assert(record_views(records@) =~= Seq::empty());
    assert(records_at(b, start, n as nat).0 is Ok ==> record_views(records@) + records_at(
        b,
        start,
        n as nat,
    ).0->Ok_0 =~= records_at(b, start, n as nat).0->Ok_0);
    while left > 0
        invariant
            b == old(buffer).buf@,
            start == old(buffer).pos,
            buffer.is_at(old(buffer), b, buffer.pos as int),
            ({
                let (all, last) = records_at(b, start, n as nat);
                let (rest, at) = records_at(b, buffer.pos as int, left as nat);
                &&& last == at
                &&& match rest {
                    Ok(more) => all == Ok::<_, PacketError>(record_views(records@) + more),
                    Err(e) => all == Err::<Seq<DnsRecordView>, _>(e),
                }
            }),
        decreases left,
    {
        let record: DnsRecord = DnsRecord::read(buffer)?;
        let ghost before = record_views(records@);
        let ghost first = record@;
        records.push(record);
        left = left - 1;
        proof {
            assert(record_views(records@) =~= before.push(first));
            match records_at(b, buffer.pos as int, left as nat).0 {
                Ok(more) => {
                    assert(before + (seq![first] + more) =~= record_views(records@) + more);
                },
                Err(_) => {},
            }
        }
    }
    assert(record_views(records@) + Seq::empty() =~= record_views(records@));
    Ok(records)
}

impl DnsView {
    pub open spec fn empty() -> DnsView {
        DnsView {
            header: DnsHeader::empty(),
            question: Seq::empty(),
            answer: Seq::empty(),
            authority: Seq::empty(),
            additional: Seq::empty(),
        }
    }
}

impl Dns {
    pub fn new() -> (r: Dns)
        ensures
            r@ == DnsView::empty(),
    {
        let r: Dns = Dns {
            header: DnsHeader::new(),
            question: Vec::new(),
            answer: Vec::new(),
            authority: Vec::new(),
            additional: Vec::new(),
        };
        assert(question_views(r.question@) =~= Seq::empty());
        assert(record_views(r.answer@) =~= Seq::empty());
        r
    }

    /// Reads the message at the cursor.
    pub fn parse_req(buffer: &mut BytePacketBuf) -> (r: Result<Dns, PacketError>)
        ensures
            ({
                let (value, at) = message_at(old(buffer).buf@, old(buffer).pos as int);
                &&& final(buffer).is_at(old(buffer), old(buffer).buf@, at)
                &&& match value {
                    Ok(message) => r is Ok && r->Ok_0@ == message,
                    Err(e) => r == Err::<Dns, _>(e),
                }
            }),
    {
        let mut header: DnsHeader = DnsHeader::new();
        header.read(buffer)?;
        let question: Vec<Question> = read_questions(buffer, header.qdcount)?;
        let answer: Vec<DnsRecord> = read_records(buffer, header.ancount)?;
        let authority: Vec<DnsRecord> = read_records(buffer, header.nscount)?;
        let additional: Vec<DnsRecord> = read_records(buffer, header.arcount)?;
        Ok(Dns { header, question, answer, authority, additional })
    }

    /// Writes the header at the cursor.
    pub fn write_to_buf(&mut self, buffer: &mut BytePacketBuf) -> (r: Result<(), PacketError>)
        ensures
            *final(self) == *old(self),
            final(buffer).wrote(old(buffer), old(self).header.wire(), r),
    {
        let bytes: [u8; 12] = self.header.encode();
        buffer.write_bytes(&bytes)
    }
}

impl DnsHeader {
    fn encode(&self) -> (r: [u8; 12])
        ensures
            r@ == self.wire(),
    {
        let flags: u16 = u16::from(self.flags);
        let r: [u8; 12] = [
            (self.id / 256) as u8,
            (self.id % 256) as u8,
            (flags / 256) as u8,
            (flags % 256) as u8,
            (self.qdcount / 256) as u8,
            (self.qdcount % 256) as u8,
            (self.ancount / 256) as u8,
            (self.ancount % 256) as u8,
            (self.nscount / 256) as u8,
            (self.nscount % 256) as u8,
            (self.arcount / 256) as u8,
            (self.arcount % 256) as u8,
        ];
        assert(r@ =~= self.wire());
        r
    }
}

impl Default for Dns {
    fn default() -> (r: Dns)
        ensures
            r@ == DnsView::empty(),
    {
        Dns::new()
    }
}

/// A header that is written and read again comes back unchanged.
pub proof fn law_header_round_trip(header: DnsHeader, b: Seq<u8>, pos: int)
    requires
        header.flags.canonical(),
        0 <= pos,
        pos + 12 <= PACKET_CAPACITY,
        b.len() == PACKET_CAPACITY,
        b.subrange(pos, pos + 12) == header.wire(),
    ensures
        DnsHeader::empty().read_at(b, pos) == header,
{
    law_flags_round_trip(header.flags);
    let w = header.wire();
    assert forall|i: int| 0 <= i < 12 implies b[pos + i] == w[i] by {
        assert(b.subrange(pos, pos + 12)[i] == b[pos + i]);
    }
    assert(b[pos + 0] == w[0] && b[pos + 1] == w[1] && b[pos + 2] == w[2] && b[pos + 3] == w[3]
        && b[pos + 4] == w[4] && b[pos + 5] == w[5] && b[pos + 6] == w[6] && b[pos + 7] == w[7]
        && b[pos + 8] == w[8] && b[pos + 9] == w[9] && b[pos + 10] == w[10] && b[pos + 11]
        == w[11]);
}

/// The header of a message: its number, its flags and how many questions, answers, authority and
/// additional records follow, two bytes each.
pub proof fn law_header_is_read(header: DnsHeader, b: Seq<u8>, pos: int)
    requires
        0 <= pos && pos + 12 <= 512,
    ensures
        ({
            let r = header.read_at(b, pos);
            &&& r.id == b[pos] * 256 + b[pos + 1]
            &&& r.flags == flags_of((b[pos + 2] * 256 + b[pos + 3]) as u16)
            &&& r.qdcount == b[pos + 4] * 256 + b[pos + 5]
            &&& r.ancount == b[pos + 6] * 256 + b[pos + 7]
            &&& r.nscount == b[pos + 8] * 256 + b[pos + 9]
            &&& r.arcount == b[pos + 10] * 256 + b[pos + 11]
        }),
{
}

/// Each flag is the bit that stands for it.
pub proof fn law_flags_are_bits(value: u16)
    ensures
        flags_of(value).response <==> value & 0x8000 != 0,
        flags_of(value).authoritative_answer <==> value & 0x0400 != 0,
        flags_of(value).truncated_message <==> value & 0x0200 != 0,
        flags_of(value).recursion_desired <==> value & 0x0100 != 0,
        flags_of(value).recursion_available <==> value & 0x0080 != 0,
        flags_of(value).z == (value >> 4) & 7,
        flags_of(value).opcode == opcode_of(((value >> 11) & 15) as u8),
        flags_of(value).rescode == result_of(value & 15),
{
    assert((value & 0x8000 != 0) == (value / 32768 % 2 == 1)) by (bit_vector);
    assert((value & 0x0400 != 0) == (value / 1024 % 2 == 1)) by (bit_vector);
    assert((value & 0x0200 != 0) == (value / 512 % 2 == 1)) by (bit_vector);
    assert((value & 0x0100 != 0) == (value / 256 % 2 == 1)) by (bit_vector);
    assert((value & 0x0080 != 0) == (value / 128 % 2 == 1)) by (bit_vector);
    assert((value >> 4) & 7 == value / 16 % 8) by (bit_vector);
    assert((value >> 11) & 15 == value / 2048 % 16) by (bit_vector);
    assert(value & 15 == value % 16) by (bit_vector);
}

/// Records are read one behind another: `m` and then `n` of them are `m + n`, and one is the record
/// that stands there.
pub proof fn law_records_are_read_in_turn(b: Seq<u8>, pos: int, m: nat, n: nat)
    requires
        records_at(b, pos, m).0 is Ok,
    ensures
        ({
            let (first, at) = records_at(b, pos, m);
            let (rest, end) = records_at(b, at, n);
            let (all, next) = records_at(b, pos, m + n);
            &&& next == end
            &&& rest is Ok ==> all == Ok::<Seq<DnsRecordView>, PacketError>(
                first->Ok_0 + rest->Ok_0,
            )
            &&& rest is Err ==> all == Err::<Seq<DnsRecordView>, PacketError>(rest->Err_0)
        }),
        records_at(b, pos, m).0->Ok_0.len() == m,
        ({
            let (one, end) = records_at(b, pos, 1);
            let (record, at) = record_at(b, pos);
            &&& end == at
            &&& record is Ok ==> one == Ok::<Seq<DnsRecordView>, PacketError>(seq![record->Ok_0])
            &&& record is Err ==> one == Err::<Seq<DnsRecordView>, PacketError>(record->Err_0)
        }),
    decreases m,
{
    reveal_with_fuel(records_at, 2);
    assert(record_at(b, pos).0 is Ok ==> records_at(b, pos, 1).0->Ok_0 =~= seq![
        record_at(b, pos).0->Ok_0,
    ]);
    if m > 0 {
        let (record, at) = record_at(b, pos);
        law_records_are_read_in_turn(b, at, (m - 1) as nat, n);
        let (first, mid) = records_at(b, at, (m - 1) as nat);
        let (rest, end) = records_at(b, mid, n);
        assert((m + n - 1) as nat == (m - 1) as nat + n);
        if rest is Ok {
            assert(seq![record->Ok_0] + (first->Ok_0 + rest->Ok_0) =~= (seq![record->Ok_0]
                + first->Ok_0) + rest->Ok_0);
        }
    } else if records_at(b, pos, n).0 is Ok {
        assert(Seq::<DnsRecordView>::empty() + records_at(b, pos, n).0->Ok_0 =~= records_at(
            b,
            pos,
            n,
        ).0->Ok_0);
    }
}

/// Questions are read one behind another: `m` and then `n` of them are `m + n`.
pub proof fn law_questions_are_read_in_turn(b: Seq<u8>, pos: int, m: nat, n: nat)
    requires
        questions_at(b, pos, m).0 is Ok,
    ensures
        ({
            let (first, at) = questions_at(b, pos, m);
            let (rest, end) = questions_at(b, at, n);
            let (all, next) = questions_at(b, pos, m + n);
            &&& next == end
            &&& rest is Ok ==> all == Ok::<Seq<QuestionView>, PacketError>(
                first->Ok_0 + rest->Ok_0,
            )
            &&& rest is Err ==> all == Err::<Seq<QuestionView>, PacketError>(rest->Err_0)
        }),
        questions_at(b, pos, m).0->Ok_0.len() == m,
    decreases m,
{
    if m > 0 {
        let at = question_end(b, pos).1;
        let q = QuestionView { qname: Seq::empty(), qtype: QueryType::UNKNOWN(0) }.read_at(b, pos);
        law_questions_are_read_in_turn(b, at, (m - 1) as nat, n);
        let (first, mid) = questions_at(b, at, (m - 1) as nat);
        let (rest, end) = questions_at(b, mid, n);
        assert((m + n - 1) as nat == (m - 1) as nat + n);
        if rest is Ok {
            assert(seq![q] + (first->Ok_0 + rest->Ok_0) =~= (seq![q] + first->Ok_0) + rest->Ok_0);
        }
    } else if questions_at(b, pos, n).0 is Ok {
        assert(Seq::<QuestionView>::empty() + questions_at(b, pos, n).0->Ok_0 =~= questions_at(
            b,
            pos,
            n,
        ).0->Ok_0);
    }
}

/// A question is a name, two bytes of type and two of class.
pub proof fn law_question_is_read(b: Seq<u8>, pos: int)
    requires
        name_at(b, pos, 0, false).1 is None,
        after_name(b, pos) + 4 <= 512,
    ensures
        ({
            let at = after_name(b, pos);
            let (r, end) = questions_at(b, pos, 1);
            &&& r is Ok
            &&& r->Ok_0.len() == 1
            &&& r->Ok_0[0].qname == name_at(b, pos, 0, false).0
            &&& r->Ok_0[0].qtype.number() == b[at] * 256 + b[at + 1]
            &&& end == at + 4
        }),
{
    reveal_with_fuel(questions_at, 2);
    assert(Seq::<char>::empty() + name_at(b, pos, 0, false).0 =~= name_at(b, pos, 0, false).0);
}

/// A message has as many questions and records of each section as its header says, the sections one
/// behind another.
pub proof fn law_message_has_its_sections(b: Seq<u8>, pos: int)
    requires
        0 <= pos,
        message_at(b, pos).0 is Ok,
    ensures
        ({
            let (message, end) = message_at(b, pos);
            let m = message->Ok_0;
            let (question, a) = questions_at(
                b,
                pos + 12,
                (b[pos + 4] * 256 + b[pos + 5]) as nat,
            );
            let (answer, c) = records_at(b, a, (b[pos + 6] * 256 + b[pos + 7]) as nat);
            let (authority, d) = records_at(b, c, (b[pos + 8] * 256 + b[pos + 9]) as nat);
            let (additional, e) = records_at(b, d, (b[pos + 10] * 256 + b[pos + 11]) as nat);
            &&& question == Ok::<Seq<QuestionView>, PacketError>(m.question)
            &&& answer == Ok::<Seq<DnsRecordView>, PacketError>(m.answer)
            &&& authority == Ok::<Seq<DnsRecordView>, PacketError>(m.authority)
            &&& additional == Ok::<Seq<DnsRecordView>, PacketError>(m.additional)
            &&& m.question.len() == b[pos + 4] * 256 + b[pos + 5]
            &&& m.answer.len() == b[pos + 6] * 256 + b[pos + 7]
            &&& m.authority.len() == b[pos + 8] * 256 + b[pos + 9]
            &&& m.additional.len() == b[pos + 10] * 256 + b[pos + 11]
            &&& end == e
        }),
{
    let h = DnsHeader::empty();
    law_header_is_read(h, b, pos);
    let r = h.read_at(b, pos);
    let a = questions_at(b, pos + 12, r.qdcount as nat).1;
    let c = records_at(b, a, r.ancount as nat).1;
    let d = records_at(b, c, r.nscount as nat).1;
    law_questions_are_read_in_turn(b, pos + 12, r.qdcount as nat, 0);
    law_records_are_read_in_turn(b, a, r.ancount as nat, 0);
    law_records_are_read_in_turn(b, c, r.nscount as nat, 0);
    law_records_are_read_in_turn(b, d, r.arcount as nat, 0);
}

} // verus!
