//! Raw packets: probes that are sent and answers that are received.

use vstd::prelude::*;
use vstd::string::*;

use crate::packet::{be16, be16_bytes};
use crate::text::{concat3, decimal, decimal_text};

verus! {

/// The type of an echo request.
pub const ECHO_REQUEST: u8 = 8;

/// The type of an echo reply.
pub const ECHO_REPLY: u8 = 0;

/// The type of the message that a destination cannot be reached.
pub const DESTINATION_UNREACHABLE: u8 = 3;

/// The type of the message that the time to live ran out.
pub const TIME_EXCEEDED: u8 = 11;

/// The number of the control message protocol in an IPv4 header.
pub const CONTROL_PROTOCOL: u8 = 1;

/// The flag that opens a TCP connection.
pub const TCP_SYN: u8 = 2;

/// Bytes of the header of an echo request.
pub const ECHO_HEADER: usize = 8;

/// `bytes` with the two bytes of `v` at `i`.
pub open spec fn with_be16(bytes: Seq<u8>, i: int, v: u16) -> Seq<u8> {
    bytes.update(i, be16_bytes(v)[0]).update(i + 1, be16_bytes(v)[1])
}

/// `bytes` with `part` at `i`.
pub open spec fn with_bytes(bytes: Seq<u8>, i: int, part: Seq<u8>) -> Seq<u8> {
    bytes.take(i) + part + bytes.skip(i + part.len())
}

/// The sum of the 16-bit words of `bytes` from word `from` on, without word `skip`. A last
/// single byte is the high byte of a word.
pub open spec fn word_sum(bytes: Seq<u8>, from: int, skip: int) -> int
    decreases bytes.len() - from,
{
    if from < 0 || 2 * from >= bytes.len() {
        0
    } else {
        let lo = if 2 * from + 1 < bytes.len() {
            bytes[2 * from + 1]
        } else {
            0
        };
        word_sum(bytes, from + 1, skip) + if from == skip {
            0
        } else {
            bytes[2 * from] * 256 + lo
        }
    }
}

/// `sum` brought down to 16 bits by adding its carries.
pub open spec fn folded(sum: int) -> int
    decreases sum,
{
    if sum < 65536 {
        sum
    } else {
        folded(sum / 65536 + sum % 65536)
    }
}

/// The Internet checksum of `bytes` without word `skip`: the complement of the sum of the
/// words with its carries added. No bytes have the checksum zero.
pub open spec fn internet_checksum(bytes: Seq<u8>, skip: int) -> u16 {
    if bytes.len() == 0 {
        0
    } else {
        (65535 - folded(word_sum(bytes, 0, skip))) as u16
    }
}

/// Calls `MutableEchoRequestPacket::set_icmp_type`, which stores its argument in byte 0.
#[verifier::external_body]
fn echo_set_type(packet: &mut Vec<u8>, kind: u8)
    requires
        old(packet)@.len() >= 8,
    ensures
        final(packet)@ == old(packet)@.update(0, kind),
{
    let mut echo = pnet_packet::icmp::echo_request::MutableEchoRequestPacket::new(packet).unwrap();
    echo.set_icmp_type(pnet_packet::icmp::IcmpType::new(kind));
}

/// Calls `MutableEchoRequestPacket::set_icmp_code`, which stores its argument in byte 1.
#[verifier::external_body]
fn echo_set_code(packet: &mut Vec<u8>, code: u8)
    requires
        old(packet)@.len() >= 8,
    ensures
        final(packet)@ == old(packet)@.update(1, code),
{
    let mut echo = pnet_packet::icmp::echo_request::MutableEchoRequestPacket::new(packet).unwrap();
    echo.set_icmp_code(pnet_packet::icmp::IcmpCode::new(code));
}

/// Calls `MutableEchoRequestPacket::set_checksum`, which stores its argument in bytes 2 and 3,
/// most significant byte first.
#[verifier::external_body]
fn echo_set_checksum(packet: &mut Vec<u8>, checksum: u16)
    requires
        old(packet)@.len() >= 8,
    ensures
        final(packet)@ == with_be16(old(packet)@, 2, checksum),
{
    let mut echo = pnet_packet::icmp::echo_request::MutableEchoRequestPacket::new(packet).unwrap();
    echo.set_checksum(checksum);
}

/// Calls `MutableEchoRequestPacket::set_identifier`, which stores its argument in bytes 4 and 5,
/// most significant byte first.
#[verifier::external_body]
fn echo_set_identifier(packet: &mut Vec<u8>, identifier: u16)
    requires
        old(packet)@.len() >= 8,
    ensures
        final(packet)@ == with_be16(old(packet)@, 4, identifier),
{
    let mut echo = pnet_packet::icmp::echo_request::MutableEchoRequestPacket::new(packet).unwrap();
    echo.set_identifier(identifier);
}

/// Calls `MutableEchoRequestPacket::set_sequence_number`, which stores its argument in bytes 6
/// and 7, most significant byte first.
#[verifier::external_body]
fn echo_set_sequence(packet: &mut Vec<u8>, sequence: u16)
    requires
        old(packet)@.len() >= 8,
    ensures
        final(packet)@ == with_be16(old(packet)@, 6, sequence),
{
    let mut echo = pnet_packet::icmp::echo_request::MutableEchoRequestPacket::new(packet).unwrap();
    echo.set_sequence_number(sequence);
}

/// Calls `MutableEchoRequestPacket::set_payload`, which copies its argument behind the header.
#[verifier::external_body]
fn echo_set_payload(packet: &mut Vec<u8>, payload: &[u8])
    requires
        old(packet)@.len() >= 8 + payload@.len(),
    ensures
        final(packet)@ == with_bytes(old(packet)@, 8, payload@),
{
    let mut echo = pnet_packet::icmp::echo_request::MutableEchoRequestPacket::new(packet).unwrap();
    echo.set_payload(payload);
}

/// Calls `pnet_packet::util::checksum`, which computes the Internet checksum of the bytes
/// without word `skipword`. It sums up to 65537 words without overflow.
#[verifier::external_body]
fn checksum(bytes: &[u8], skipword: usize) -> (r: u16)
    requires
        bytes@.len() <= 131072,
    ensures
        r == internet_checksum(bytes@, skipword as int),
{
    pnet_packet::util::checksum(bytes, skipword)
}

/// Calls `pnet_packet::icmp::checksum`, which computes the Internet checksum of a control
/// message without the word that holds it.
#[verifier::external_body]
fn control_checksum(bytes: &[u8]) -> (r: u16)
    requires
        4 <= bytes@.len() <= 131072,
    ensures
        r == internet_checksum(bytes@, 1),
{
    pnet_packet::icmp::checksum(&pnet_packet::icmp::IcmpPacket::new(bytes).unwrap())
}

/// Calls `MutableUdpPacket::set_source`, which stores its argument in bytes 0 and 1, most
/// significant byte first.
#[verifier::external_body]
fn udp_set_source(packet: &mut Vec<u8>, port: u16)
    requires
        old(packet)@.len() >= 8,
    ensures
        final(packet)@ == with_be16(old(packet)@, 0, port),
{
    pnet_packet::udp::MutableUdpPacket::new(packet).unwrap().set_source(port);
}

/// Calls `MutableUdpPacket::set_destination`, which stores its argument in bytes 2 and 3, most
/// significant byte first.
#[verifier::external_body]
fn udp_set_destination(packet: &mut Vec<u8>, port: u16)
    requires
        old(packet)@.len() >= 8,
    ensures
        final(packet)@ == with_be16(old(packet)@, 2, port),
{
    pnet_packet::udp::MutableUdpPacket::new(packet).unwrap().set_destination(port);
}

/// Calls `MutableUdpPacket::set_length`, which stores its argument in bytes 4 and 5, most
/// significant byte first.
#[verifier::external_body]
fn udp_set_length(packet: &mut Vec<u8>, length: u16)
    requires
        old(packet)@.len() >= 8,
    ensures
        final(packet)@ == with_be16(old(packet)@, 4, length),
{
    pnet_packet::udp::MutableUdpPacket::new(packet).unwrap().set_length(length);
}

/// Calls `MutableTcpPacket::set_source`, which stores its argument in bytes 0 and 1, most
/// significant byte first.
#[verifier::external_body]
fn tcp_set_source(packet: &mut Vec<u8>, port: u16)
    requires
        old(packet)@.len() >= 20,
    ensures
        final(packet)@ == with_be16(old(packet)@, 0, port),
{
    pnet_packet::tcp::MutableTcpPacket::new(packet).unwrap().set_source(port);
}

/// Calls `MutableTcpPacket::set_destination`, which stores its argument in bytes 2 and 3, most
/// significant byte first.
#[verifier::external_body]
fn tcp_set_destination(packet: &mut Vec<u8>, port: u16)
    requires
        old(packet)@.len() >= 20,
    ensures
        final(packet)@ == with_be16(old(packet)@, 2, port),
{
    pnet_packet::tcp::MutableTcpPacket::new(packet).unwrap().set_destination(port);
}

/// Calls `MutableTcpPacket::set_flags`, which stores its argument in byte 13.
#[verifier::external_body]
fn tcp_set_flags(packet: &mut Vec<u8>, flags: u8)
    requires
        old(packet)@.len() >= 20,
    ensures
        final(packet)@ == old(packet)@.update(13, flags),
{
    pnet_packet::tcp::MutableTcpPacket::new(packet).unwrap().set_flags(flags);
}

/// Calls `MutableTcpPacket::set_window`, which stores its argument in bytes 14 and 15, most
/// significant byte first.
#[verifier::external_body]
fn tcp_set_window(packet: &mut Vec<u8>, window: u16)
    requires
        old(packet)@.len() >= 20,
    ensures
        final(packet)@ == with_be16(old(packet)@, 14, window),
{
    pnet_packet::tcp::MutableTcpPacket::new(packet).unwrap().set_window(window);
}

/// The bytes behind the header of an IPv4 packet, as far as its length field counts them.
pub open spec fn ipv4_data(bytes: Seq<u8>) -> Seq<u8> {
    let header = 4 * (bytes[0] % 16);
    let start = if header < 20 {
        20
    } else {
        header
    };
    let total = be16(bytes[2], bytes[3]);
    let size = if total < header {
        0
    } else {
        total - header
    };
    if bytes.len() <= start {
        Seq::empty()
    } else if start + size < bytes.len() {
        bytes.subrange(start, start + size)
    } else {
        bytes.skip(start)
    }
}

/// Calls `Ipv4Packet::new`, which refuses fewer than 20 bytes, and
/// `Ipv4Packet::get_next_level_protocol`, which returns byte 9.
#[verifier::external_body]
fn ipv4_protocol(bytes: &[u8]) -> (r: Option<u8>)
    ensures
        r == (if bytes@.len() < 20 {
            None
        } else {
            Some(bytes@[9])
        }),
{
    let packet = pnet_packet::ipv4::Ipv4Packet::new(bytes)?;
    Some(packet.get_next_level_protocol().0)
}

/// Calls `Ipv4Packet::get_ttl`, which returns byte 8.
#[verifier::external_body]
fn ipv4_ttl(bytes: &[u8]) -> (r: u8)
    requires
        bytes@.len() >= 20,
    ensures
        r == bytes@[8],
{
    pnet_packet::ipv4::Ipv4Packet::new(bytes).unwrap().get_ttl()
}

/// Calls `Packet::payload` on an IPv4 packet: the bytes behind its header and options, as far
/// as its length field counts them.
#[verifier::external_body]
fn ipv4_payload(bytes: &[u8]) -> (r: Vec<u8>)
    requires
        bytes@.len() >= 20,
    ensures
        r@ == ipv4_data(bytes@),
{
    let packet = pnet_packet::ipv4::Ipv4Packet::new(bytes).unwrap();
    pnet_packet::Packet::payload(&packet).to_vec()
}

/// Calls `IcmpPacket::new`, which refuses fewer than 4 bytes, and `IcmpPacket::get_icmp_type`,
/// which returns byte 0.
#[verifier::external_body]
fn control_type(bytes: &[u8]) -> (r: Option<u8>)
    ensures
        r == (if bytes@.len() < 4 {
            None
        } else {
            Some(bytes@[0])
        }),
{
    let packet = pnet_packet::icmp::IcmpPacket::new(bytes)?;
    Some(packet.get_icmp_type().0)
}

/// Calls `EchoReplyPacket::new`, which refuses fewer than 8 bytes, and
/// `EchoReplyPacket::get_identifier`, which reads bytes 4 and 5, most significant byte first.
#[verifier::external_body]
fn reply_identifier(bytes: &[u8]) -> (r: Option<u16>)
    ensures
        r == (if bytes@.len() < 8 {
            None
        } else {
            Some(be16(bytes@[4], bytes@[5]))
        }),
{
    let reply = pnet_packet::icmp::echo_reply::EchoReplyPacket::new(bytes)?;
    Some(reply.get_identifier())
}

/// Calls `EchoReplyPacket::get_sequence_number`, which reads bytes 6 and 7, most significant
/// byte first.
#[verifier::external_body]
fn reply_sequence(bytes: &[u8]) -> (r: u16)
    requires
        bytes@.len() >= 8,
    ensures
        r == be16(bytes@[6], bytes@[7]),
{
    pnet_packet::icmp::echo_reply::EchoReplyPacket::new(bytes).unwrap().get_sequence_number()
}

/// Calls `DestinationUnreachablePacket::new`, which refuses fewer than 8 bytes, and
/// `DestinationUnreachablePacket::get_icmp_code`, which returns byte 1.
#[verifier::external_body]
fn unreachable_code(bytes: &[u8]) -> (r: Option<u8>)
    ensures
        r == (if bytes@.len() < 8 {
            None
        } else {
            Some(bytes@[1])
        }),
{
    let packet =
        pnet_packet::icmp::destination_unreachable::DestinationUnreachablePacket::new(bytes)?;
    Some(packet.get_icmp_code().0)
}

/// Calls `TimeExceededPacket::new`, which refuses fewer than 8 bytes, and
/// `TimeExceededPacket::get_icmp_code`, which returns byte 1.
#[verifier::external_body]
fn exceeded_code(bytes: &[u8]) -> (r: Option<u8>)
    ensures
        r == (if bytes@.len() < 8 {
            None
        } else {
            Some(bytes@[1])
        }),
{
    let packet = pnet_packet::icmp::time_exceeded::TimeExceededPacket::new(bytes)?;
    Some(packet.get_icmp_code().0)
}

fn zeros(n: usize) -> (r: Vec<u8>)
    ensures
        r@ == Seq::new(n as nat, |i: int| 0u8),
{
    let r: Vec<u8> = vec![0u8; n];
    assert(r@ =~= Seq::new(n as nat, |i: int| 0u8));
    r
}

/// An echo request without its checksum.
pub open spec fn bare_echo(identifier: u16, sequence: u16, payload: Seq<u8>) -> Seq<u8> {
    seq![ECHO_REQUEST, 0u8, 0u8, 0u8] + be16_bytes(identifier) + be16_bytes(sequence) + payload
}

/// An echo request.
pub open spec fn echo_wire(identifier: u16, sequence: u16, payload: Seq<u8>) -> Seq<u8> {
    seq![ECHO_REQUEST, 0u8] + be16_bytes(
        internet_checksum(bare_echo(identifier, sequence, payload), 1),
    ) + be16_bytes(identifier) + be16_bytes(sequence) + payload
}

/// An echo request with `payload`.
pub fn echo_request(identifier: u16, sequence: u16, payload: &[u8]) -> (r: Vec<u8>)
    requires
        payload@.len() <= 131064,
    ensures
        r@ == echo_wire(identifier, sequence, payload@),
{
    let mut packet: Vec<u8> = zeros(ECHO_HEADER + payload.len());
    echo_set_type(&mut packet, ECHO_REQUEST);
    echo_set_code(&mut packet, 0);
    echo_set_identifier(&mut packet, identifier);
    echo_set_sequence(&mut packet, sequence);
    echo_set_payload(&mut packet, payload);
    assert(packet@ =~= bare_echo(identifier, sequence, payload@));
    let sum: u16 = checksum(packet.as_slice(), 1);
    echo_set_checksum(&mut packet, sum);
    assert(packet@ =~= echo_wire(identifier, sequence, payload@));
    packet
}

/// An echo request without payload that carries `flow` as its identifier.
pub(crate) fn flow_echo(flow: u16, sequence: u16) -> (r: Vec<u8>)
    ensures
        r@ == echo_wire(flow, sequence, Seq::empty()),
{
    let mut packet: Vec<u8> = zeros(ECHO_HEADER);
    echo_set_type(&mut packet, ECHO_REQUEST);
    echo_set_identifier(&mut packet, flow);
    echo_set_sequence(&mut packet, sequence);
    echo_set_checksum(&mut packet, 0);
    assert(packet@ =~= bare_echo(flow, sequence, Seq::empty()));
    let sum: u16 = control_checksum(packet.as_slice());
    echo_set_checksum(&mut packet, sum);
    assert(packet@ =~= echo_wire(flow, sequence, Seq::empty()));
    packet
}

/// A UDP header without checksum.
pub open spec fn udp_wire(source: u16, destination: u16) -> Seq<u8> {
    be16_bytes(source) + be16_bytes(destination) + be16_bytes(8) + be16_bytes(0)
}

/// A UDP packet without payload.
pub(crate) fn udp_header(source: u16, destination: u16) -> (r: Vec<u8>)
    ensures
        r@ == udp_wire(source, destination),
{
    let mut packet: Vec<u8> = zeros(8);
    udp_set_source(&mut packet, source);
    udp_set_destination(&mut packet, destination);
    udp_set_length(&mut packet, 8);
    assert(packet@ =~= udp_wire(source, destination));
    packet
}

/// A TCP header with the given flags and window, and zeros elsewhere.
pub open spec fn tcp_wire(source: u16, destination: u16, flags: u8, window: u16) -> Seq<u8> {
    be16_bytes(source) + be16_bytes(destination) + Seq::new(9, |i: int| 0u8) + seq![flags]
        + be16_bytes(window) + Seq::new(4, |i: int| 0u8)
}

/// A TCP packet without payload.
pub(crate) fn tcp_header(source: u16, destination: u16, flags: u8, window: u16) -> (r: Vec<u8>)
    ensures
        r@ == tcp_wire(source, destination, flags, window),
{
    let mut packet: Vec<u8> = zeros(20);
    tcp_set_source(&mut packet, source);
    tcp_set_destination(&mut packet, destination);
    tcp_set_flags(&mut packet, flags);
    tcp_set_window(&mut packet, window);
    assert(packet@ =~= tcp_wire(source, destination, flags, window));
    packet
}

/// What an answer to an echo request says.
#[derive(Debug)]
pub enum EchoAnswer {
    /// The reply, with its length in bytes and the time to live that was left.
    Echo { bytes: usize, ttl: u8 },
    /// The destination cannot be reached.
    Unreachable { code: u8, message: String },
    /// The request got lost on its way.
    Filtered { code: u8, message: String },
}

/// The contents of an [`EchoAnswer`].
pub enum EchoAnswerView {
    Echo { bytes: usize, ttl: u8 },
    Unreachable { code: u8, message: Seq<char> },
    Filtered { code: u8, message: Seq<char> },
}

impl View for EchoAnswer {
    type V = EchoAnswerView;

    open spec fn view(&self) -> EchoAnswerView {
        match self {
            EchoAnswer::Echo { bytes, ttl } => EchoAnswerView::Echo { bytes: *bytes, ttl: *ttl },
            EchoAnswer::Unreachable { code, message } => EchoAnswerView::Unreachable {
                code: *code,
                message: message@,
            },
            EchoAnswer::Filtered { code, message } => EchoAnswerView::Filtered {
                code: *code,
                message: message@,
            },
        }
    }
}

/// What the IPv4 packet `bytes` says of the echo request with `identifier` and `sequence`;
/// `None` if it is no answer to it. Messages that a destination cannot be reached or that the
/// time to live ran out are taken as answers whatever request they belong to.
pub open spec fn answer_of(bytes: Seq<u8>, identifier: u16, sequence: u16) -> Option<
    EchoAnswerView,
> {
    let data = ipv4_data(bytes);
    if bytes.len() < 20 || bytes[9] != CONTROL_PROTOCOL || data.len() < 8 {
        None
    } else if data[0] == ECHO_REPLY {
        if be16(data[4], data[5]) == identifier && be16(data[6], data[7]) == sequence {
            Some(EchoAnswerView::Echo { bytes: data.len() as usize, ttl: bytes[8] })
        } else {
            None
        }
    } else if data[0] == DESTINATION_UNREACHABLE {
        Some(
            EchoAnswerView::Unreachable {
                code: data[1],
                message: "destination unreachable (code "@ + decimal_text(data[1] as nat) + ")"@,
            },
        )
    } else if data[0] == TIME_EXCEEDED {
        Some(
            EchoAnswerView::Filtered {
                code: data[1],
                message: "time exceeded (code "@ + decimal_text(data[1] as nat) + ")"@,
            },
        )
    } else {
        None
    }
}

/// Reads a received IPv4 packet as the answer to an echo request.
pub fn parse_response(data: &[u8], identifier: u16, sequence: u16) -> (r: Option<EchoAnswer>)
    ensures
        match answer_of(data@, identifier, sequence) {
            Some(answer) => r is Some && r->0@ == answer,
            None => r is None,
        },
{
    let protocol: u8 = ipv4_protocol(data)?;
    if protocol != CONTROL_PROTOCOL {
        return None;
    }
    let message: Vec<u8> = ipv4_payload(data);
    let message: &[u8] = message.as_slice();
    let kind: u8 = control_type(message)?;
    if kind == ECHO_REPLY {
        let found: u16 = reply_identifier(message)?;
        if found != identifier || reply_sequence(message) != sequence {
            return None;
        }
        Some(EchoAnswer::Echo { bytes: message.len(), ttl: ipv4_ttl(data) })
    } else if kind == DESTINATION_UNREACHABLE {
        let code: u8 = unreachable_code(message)?;
        let text: String = concat3(
            "destination unreachable (code ",
            decimal(code as u64).as_str(),
            ")",
        );
        Some(EchoAnswer::Unreachable { code, message: text })
    } else if kind == TIME_EXCEEDED {
        let code: u8 = exceeded_code(message)?;
        let text: String = concat3("time exceeded (code ", decimal(code as u64).as_str(), ")");
        Some(EchoAnswer::Filtered { code, message: text })
    } else {
        None
    }
}

/// Adding the carries of a sum keeps it modulo 65535.
proof fn lemma_folded(sum: int)
    requires
        sum >= 0,
    ensures
        0 <= folded(sum) <= 65535,
        folded(sum) % 65535 == sum % 65535,
        sum > 0 ==> folded(sum) > 0,
    decreases sum,
{
    if sum >= 65536 {
        let next = sum / 65536 + sum % 65536;
        lemma_folded(next);
        assert(sum == 65535 * (sum / 65536) + next);
        assert(sum % 65535 == next % 65535) by {
            vstd::arithmetic::div_mod::lemma_mod_multiples_vanish(sum / 65536, next, 65535);
        }
    }
}

proof fn lemma_word_sum_nonnegative(bytes: Seq<u8>, from: int, skip: int)
    ensures
        word_sum(bytes, from, skip) >= 0,
    decreases bytes.len() - from,
{
    if !(from < 0 || 2 * from >= bytes.len()) {
        lemma_word_sum_nonnegative(bytes, from + 1, skip);
    }
}

/// Bytes that agree from word `from` on have the same sum from there on.
proof fn lemma_word_sum_same(a: Seq<u8>, b: Seq<u8>, from: int, skip_a: int, skip_b: int)
    requires
        a.len() == b.len(),
        from >= 0,
        skip_a < from,
        skip_b < from,
        forall|i: int| 2 * from <= i < a.len() ==> a[i] == b[i],
    ensures
        word_sum(a, from, skip_a) == word_sum(b, from, skip_b),
    decreases a.len() - from,
{
    if 2 * from < a.len() {
        lemma_word_sum_same(a, b, from + 1, skip_a, skip_b);
    }
}

/// The words of an echo request, with its checksum among them, add up to all ones: a receiver
/// that sums them finds the packet intact.
pub proof fn law_echo_checksum_verifies(identifier: u16, sequence: u16, payload: Seq<u8>)
    ensures
        folded(word_sum(echo_wire(identifier, sequence, payload), 0, -1)) == 65535,
{
    let bare = bare_echo(identifier, sequence, payload);
    let wire = echo_wire(identifier, sequence, payload);
    let sum = word_sum(bare, 0, 1);
    let check = internet_checksum(bare, 1);
    assert(wire[0] == ECHO_REQUEST && wire[1] == 0u8);
    assert(wire[2] == be16_bytes(check)[0] && wire[3] == be16_bytes(check)[1]);
    assert(bare[0] == ECHO_REQUEST && bare[1] == 0u8);
    assert forall|i: int| 4 <= i < wire.len() implies wire[i] == bare[i] by {}
    lemma_word_sum_same(wire, bare, 2, -1, 1);
    lemma_word_sum_nonnegative(bare, 2, 1);
    let rest = word_sum(bare, 2, 1);
    assert(word_sum(bare, 1, 1) == rest);
    assert(sum == rest + ECHO_REQUEST * 256);
    assert(word_sum(wire, 1, -1) == rest + check);
    assert(word_sum(wire, 0, -1) == sum + check);
    lemma_folded(sum);
    lemma_folded(sum + check);
    let f = folded(sum);
    assert(check == 65535 - f);
    assert((sum + check) % 65535 == 0) by {
        vstd::arithmetic::div_mod::lemma_add_mod_noop(sum, check as int, 65535);
        vstd::arithmetic::div_mod::lemma_add_mod_noop(f, check as int, 65535);
        assert((f + check) % 65535 == 0);
    }
}

/// An echo request carries its identifier and its sequence number where replies to it are
/// looked for.
pub proof fn law_echo_carries_identity(identifier: u16, sequence: u16, payload: Seq<u8>)
    ensures
        ({
            let wire = echo_wire(identifier, sequence, payload);
            &&& wire.len() == 8 + payload.len()
            &&& be16(wire[4], wire[5]) == identifier
            &&& be16(wire[6], wire[7]) == sequence
            &&& wire.skip(8) == payload
        }),
{
    let wire = echo_wire(identifier, sequence, payload);
    assert(wire[4] == be16_bytes(identifier)[0] && wire[5] == be16_bytes(identifier)[1]);
    assert(wire[6] == be16_bytes(sequence)[0] && wire[7] == be16_bytes(sequence)[1]);
    assert(wire.skip(8) =~= payload);
}

/// An echo request is of the type for requests, with nothing else in its first two bytes.
pub proof fn law_echo_is_a_request(identifier: u16, sequence: u16, payload: Seq<u8>)
    ensures
        echo_wire(identifier, sequence, payload)[0] == 8,
        echo_wire(identifier, sequence, payload)[1] == 0,
{
}

/// A datagram for a hop has eight bytes: its ports, its length and no checksum.
pub proof fn law_datagram_layout(source: u16, destination: u16)
    ensures
        ({
            let w = udp_wire(source, destination);
            &&& w.len() == 8
            &&& w[0] * 256 + w[1] == source
            &&& w[2] * 256 + w[3] == destination
            &&& w[4] == 0 && w[5] == 8
            &&& w[6] == 0 && w[7] == 0
        }),
{
}

/// A segment for a hop has twenty bytes: its ports, its flags and its window, and else only zeros.
pub proof fn law_segment_layout(source: u16, destination: u16, flags: u8, window: u16, i: int)
    requires
        4 <= i < 20,
        i < 13 || i >= 16,
    ensures
        ({
            let w = tcp_wire(source, destination, flags, window);
            &&& w.len() == 20
            &&& w[0] * 256 + w[1] == source
            &&& w[2] * 256 + w[3] == destination
            &&& w[13] == flags
            &&& w[14] * 256 + w[15] == window
            &&& w[i] == 0
        }),
{
}

/// What arrived is an answer if it is a control message that says so: an echo reply that carries
/// the identifier and the number that were sent, a report that the destination cannot be reached,
/// or one that the time was exceeded. Nothing else is.
pub proof fn law_answers_are_recognised(bytes: Seq<u8>, identifier: u16, sequence: u16)
    requires
        bytes[0] % 16 >= 5,
        bytes.len() >= 4 * (bytes[0] % 16) + 8,
        bytes[2] * 256 + bytes[3] == bytes.len(),
    ensures
        ({
            let h = 4 * (bytes[0] % 16) as int;
            let r = answer_of(bytes, identifier, sequence);
            let control = bytes[9] == 1;
            let ours = bytes[h + 4] * 256 + bytes[h + 5] == identifier && bytes[h + 6] * 256
                + bytes[h + 7] == sequence;
            &&& control && bytes[h] == 0 && ours ==> r == Some(
                EchoAnswerView::Echo { bytes: (bytes.len() - h) as usize, ttl: bytes[8] },
            )
            &&& control && bytes[h] == 3 ==> match r {
                Some(EchoAnswerView::Unreachable { code, message }) => code == bytes[h + 1]
                    && message == "destination unreachable (code "@ + decimal_text(code as nat)
                    + ")"@,
                _ => false,
            }
            &&& control && bytes[h] == 11 ==> match r {
                Some(EchoAnswerView::Filtered { code, message }) => code == bytes[h + 1] && message
                    == "time exceeded (code "@ + decimal_text(code as nat) + ")"@,
                _ => false,
            }
            &&& r is Some ==> control && (bytes[h] == 0 && ours || bytes[h] == 3 || bytes[h] == 11)
        }),
{
    let h = 4 * (bytes[0] % 16) as int;
    let data = ipv4_data(bytes);
    assert(be16(bytes[2], bytes[3]) == bytes.len());
    assert(data =~= bytes.skip(h));
}

/// The data of a packet stands behind its header, as far as the packet says that it is long and
/// as it arrived.
pub proof fn law_packet_data_follows_the_header(bytes: Seq<u8>, i: int)
    requires
        bytes.len() >= 20,
        bytes[0] % 16 >= 5,
        0 <= i < ipv4_data(bytes).len(),
    ensures
        ({
            let h = 4 * (bytes[0] % 16) as int;
            let total = bytes[2] * 256 + bytes[3];
            &&& ipv4_data(bytes)[i] == bytes[h + i]
            &&& h + ipv4_data(bytes).len() <= bytes.len()
            &&& h + ipv4_data(bytes).len() <= total
            &&& h + ipv4_data(bytes).len() == bytes.len() || h + ipv4_data(bytes).len() == total
        }),
{
}

} // verus!
