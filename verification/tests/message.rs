use dns_agent::message::{Dns, DnsHeader, Flags, Opcode, Question, ResultCode};
use dns_agent::packet::{BytePacketBuf, PacketError};
use dns_agent::record::QueryType;

#[test]
fn flags_parser() {
    let payload: u16 = 0x0100;
    let parsed = Flags::from(payload);
    assert!(!parsed.response);
    assert_eq!(parsed.opcode, Opcode::Query);
    assert_eq!(parsed.authoritative_answer, false);
    assert_eq!(parsed.truncated_message, false);

    assert_eq!(parsed.recursion_desired, true);
    assert_eq!(parsed.recursion_available, false);
    assert_eq!(parsed.z, 0);
    assert_eq!(parsed.rescode, ResultCode::NOERROR);
}

#[test]
fn every_flag_has_its_bit() {
    assert!(Flags::from(0x8000).response);
    assert_eq!(Flags::from(0x2000).opcode, Opcode::Notify);
    assert_eq!(Flags::from(0x2800).opcode, Opcode::Update);
    assert_eq!(Flags::from(0x1800).opcode, Opcode::Unknown(3));
    assert!(Flags::from(0x0400).authoritative_answer);
    assert!(Flags::from(0x0200).truncated_message);
    assert!(Flags::from(0x0080).recursion_available);
    assert_eq!(Flags::from(0x0070).z, 7);
    assert_eq!(Flags::from(0x0003).rescode, ResultCode::NXDOMAIN);
    assert_eq!(Flags::from(0x000f).rescode, ResultCode::NOERROR);
}

#[test]
fn flags_are_read_back() {
    for value in [0u16, 0x0100, 0x8180, 0x8583, 0xa805, 0x7800, 0x0070, 0x8195] {
        assert_eq!(u16::from(Flags::from(value)), value);
    }
    let flags = Flags {
        response: true,
        opcode: Opcode::Unknown(9),
        authoritative_answer: true,
        truncated_message: false,
        recursion_desired: true,
        recursion_available: false,
        z: 5,
        rescode: ResultCode::REFUSED,
    };
    assert_eq!(Flags::from(u16::from(flags)), flags);
}

#[test]
fn flags_are_described() {
    let text = Flags::from(0x1881).describe();
    assert_eq!(
        text,
        "response: false\nopcode: Unknown(3)\nauthoritative_answer: false\n\
         truncated_message: false\nrecursion_desired: false\nrecursion_available: true\n\
         z: 0\nrescode: FORMERR\n"
    );
}

#[test]
fn opcodes_have_numbers() {
    let all = [
        Opcode::Query,
        Opcode::IQuery,
        Opcode::Status,
        Opcode::Notify,
        Opcode::Update,
        Opcode::Unknown(77),
    ];
    for (index, op) in all.iter().enumerate() {
        assert_eq!(op.discriminant() as usize, index);
        assert_eq!(u8::from(*op) as usize, index);
    }
    assert_eq!(Opcode::from(4), Opcode::Notify);
    assert_eq!(Opcode::from(5), Opcode::Update);
    assert_eq!(Opcode::from(3), Opcode::Unknown(3));
}

#[test]
fn result_codes_have_numbers() {
    for number in 0..6u16 {
        assert_eq!(u16::from(ResultCode::from(number)), number);
    }
    assert_eq!(ResultCode::from(6), ResultCode::NOERROR);
    assert_eq!(ResultCode::SERVFAIL.name(), "SERVFAIL");
}

#[test]
fn header_is_read_back() {
    let header = DnsHeader {
        id: 0xbeef,
        flags: Flags::from(0x8180),
        qdcount: 1,
        ancount: 2,
        nscount: 3,
        arcount: 4,
    };
    let mut message = Dns::new();
    message.header = header;
    let mut buffer = BytePacketBuf::new();
    message.write_to_buf(&mut buffer).unwrap();
    assert_eq!(&buffer.buf[..12], &[0xbe, 0xef, 0x81, 0x80, 0, 1, 0, 2, 0, 3, 0, 4]);
    buffer.seek(0).unwrap();
    let mut read = DnsHeader::new();
    read.read(&mut buffer).unwrap();
    assert_eq!(read, header);
}

#[test]
fn header_over_the_end_is_refused() {
    let mut buffer = BytePacketBuf::new();
    buffer.buf[508] = 1;
    buffer.seek(508).unwrap();
    let mut read = DnsHeader::default();
    assert_eq!(read.read(&mut buffer), Err(PacketError::EndOfBuffer));
    assert_eq!(read.id, 0x0100);
    assert_eq!(buffer.pos(), 512);
    assert_eq!(Dns::default().write_to_buf(&mut buffer), Err(PacketError::EndOfBuffer));
}

#[test]
fn questions_are_read() {
    let mut buffer = BytePacketBuf::new();
    buffer.write_qname("example.com").unwrap();
    buffer.write_u16(15).unwrap();
    buffer.write_u16(1).unwrap();
    buffer.seek(0).unwrap();
    let mut question = Question::new(String::new(), QueryType::UNKNOWN(0));
    question.read(&mut buffer).unwrap();
    assert_eq!(question.qname, "example.com");
    assert_eq!(question.qtype, QueryType::MX);
    assert_eq!(buffer.pos(), 17);
}

#[test]
fn messages_with_too_many_records_are_refused() {
    let mut buffer = BytePacketBuf::new();
    let mut message = Dns::new();
    message.header.ancount = 100;
    message.write_to_buf(&mut buffer).unwrap();
    buffer.seek(0).unwrap();
    assert!(Dns::parse_req(&mut buffer).is_err());
}
