use dns_agent::net::{Ipv4Addr, Ipv6Addr};
use dns_agent::packet::{BytePacketBuf, PacketError};
use dns_agent::record::{DnsRecord, QueryType, ResourceRecord};

fn read_back(record: &DnsRecord) -> (DnsRecord, usize, usize) {
    let mut buffer = BytePacketBuf::new();
    let written = record.write(&mut buffer).unwrap();
    buffer.seek(0).unwrap();
    let read = DnsRecord::read(&mut buffer).unwrap();
    (read, written, buffer.pos())
}

#[test]
fn query_types_have_numbers() {
    for (number, kind) in [
        (1, QueryType::A),
        (2, QueryType::NS),
        (15, QueryType::MX),
        (16, QueryType::TXT),
        (28, QueryType::AAAA),
        (41, QueryType::OPT),
        (99, QueryType::UNKNOWN(99)),
    ] {
        assert_eq!(QueryType::from(number), kind);
        assert_eq!(u16::from(kind), number);
    }
}

#[test]
fn address_records_are_read_back() {
    let record = DnsRecord::A {
        domain: "Example.com".to_string(),
        addr: Ipv4Addr::new(1, 2, 3, 4),
        ttl: 120,
    };
    let (read, written, end) = read_back(&record);
    assert_eq!(written, 13 + 10 + 4);
    assert_eq!(end, written);
    match read {
        DnsRecord::A { domain, addr, ttl } => {
            assert_eq!(domain, "example.com");
            assert_eq!(addr.octets(), [1, 2, 3, 4]);
            assert_eq!(ttl, 120);
        }
        other => panic!("unexpected record {other:?}"),
    }
}

#[test]
fn ipv6_records_are_read_back() {
    let addr = Ipv6Addr::new(0x2001, 0xdb8, 0, 0, 0, 0, 0, 0x42);
    let record = DnsRecord::AAAA { domain: "v6.example".to_string(), addr, ttl: 240 };
    match read_back(&record).0 {
        DnsRecord::AAAA { addr: read, ttl, .. } => {
            assert_eq!(read, addr);
            assert_eq!(read.segments(), [0x2001, 0xdb8, 0, 0, 0, 0, 0, 0x42]);
            assert_eq!(ttl, 240);
        }
        other => panic!("unexpected record {other:?}"),
    }
}

#[test]
fn exchange_and_name_server_records_are_read_back() {
    let mx = DnsRecord::MX {
        domain: "example.com".to_string(),
        preference: 10,
        exchange: "Mail.example.com".to_string(),
        ttl: 360,
    };
    match read_back(&mx).0 {
        DnsRecord::MX { domain, preference, exchange, ttl } => {
            assert_eq!(domain, "example.com");
            assert_eq!(preference, 10);
            assert_eq!(exchange, "mail.example.com");
            assert_eq!(ttl, 360);
        }
        other => panic!("unexpected record {other:?}"),
    }
    let ns = DnsRecord::NS {
        domain: "example.com".to_string(),
        host: "ns1.example.com".to_string(),
        ttl: 480,
    };
    let (read, written, end) = read_back(&ns);
    assert_eq!(written, end);
    match read {
        DnsRecord::NS { host, ttl, .. } => {
            assert_eq!(host, "ns1.example.com");
            assert_eq!(ttl, 480);
        }
        other => panic!("unexpected record {other:?}"),
    }
}

#[test]
fn text_records_are_read_back() {
    let record = DnsRecord::TXT {
        domain: "example.com".to_string(),
        data: vec!["Hello".to_string(), String::new(), "\u{416}".to_string()],
        ttl: 600,
    };
    match read_back(&record).0 {
        DnsRecord::TXT { data, ttl, .. } => {
            assert_eq!(data, vec!["Hello".to_string(), String::new(), "\u{416}".to_string()]);
            assert_eq!(ttl, 600);
        }
        other => panic!("unexpected record {other:?}"),
    }
}

#[test]
fn long_texts_are_refused() {
    let mut buffer = BytePacketBuf::new();
    let record = DnsRecord::TXT {
        domain: "example.com".to_string(),
        data: vec!["x".repeat(256)],
        ttl: 1,
    };
    assert_eq!(record.write(&mut buffer), Err(PacketError::BadText));
    assert_eq!(PacketError::BadText.message(), "Malformed character string");
    assert_eq!(buffer.pos(), 0);
}

#[test]
fn texts_over_the_end_of_their_record_are_refused() {
    let mut buffer = BytePacketBuf::new();
    buffer.write_bytes(&[0, 0, 16, 0, 1, 0, 0, 0, 9, 0, 2, 5, b'a']).unwrap();
    buffer.seek(0).unwrap();
    assert!(matches!(DnsRecord::read(&mut buffer), Err(PacketError::BadText)));
}

#[test]
fn extension_records_are_read_back() {
    let record = DnsRecord::OPT { payload_size: 1232, extended: 7 };
    let (read, written, _) = read_back(&record);
    assert_eq!(written, 11);
    assert!(matches!(read, DnsRecord::OPT { payload_size: 1232, extended: 7 }));
}

#[test]
fn unknown_records_are_skipped() {
    let record = DnsRecord::UNKNOWN {
        domain: "example.com".to_string(),
        rtype: QueryType::UNKNOWN(99),
        data_len: 3,
        ttl: 5,
    };
    let mut buffer = BytePacketBuf::new();
    assert_eq!(record.write(&mut buffer), Ok(0));
    assert_eq!(buffer.pos(), 0);

    buffer.write_qname("a").unwrap();
    buffer.write_u16(99).unwrap();
    buffer.write_u16(1).unwrap();
    buffer.write_u32(5).unwrap();
    buffer.write_u16(3).unwrap();
    buffer.write_bytes(&[7, 7, 7]).unwrap();
    buffer.seek(0).unwrap();
    match DnsRecord::read(&mut buffer).unwrap() {
        DnsRecord::UNKNOWN { domain, rtype, data_len, ttl } => {
            assert_eq!(domain, "a");
            assert_eq!(rtype, QueryType::UNKNOWN(99));
            assert_eq!(data_len, 3);
            assert_eq!(ttl, 5);
        }
        other => panic!("unexpected record {other:?}"),
    }
    assert_eq!(buffer.pos(), 16);
}

#[test]
fn addresses_over_the_end_are_refused() {
    let mut buffer = BytePacketBuf::new();
    buffer.seek(499).unwrap();
    buffer.write_bytes(&[0, 0, 1, 0, 1, 0, 0, 0, 9, 0, 4]).unwrap();
    buffer.seek(499).unwrap();
    assert!(matches!(DnsRecord::read(&mut buffer), Err(PacketError::EndOfBuffer)));
    buffer.seek(505).unwrap();
    assert!(matches!(ResourceRecord::read(&mut buffer), Err(PacketError::EndOfBuffer)));
}

#[test]
fn records_that_do_not_fit_are_refused() {
    let mut buffer = BytePacketBuf::new();
    buffer.seek(500).unwrap();
    let record = DnsRecord::A {
        domain: "example.com".to_string(),
        addr: Ipv4Addr::new(1, 2, 3, 4),
        ttl: 120,
    };
    assert_eq!(record.write(&mut buffer), Err(PacketError::EndOfBuffer));
    assert_eq!(buffer.pos(), 512);
}

#[test]
fn records_are_cloned() {
    let record = DnsRecord::TXT {
        domain: "a".to_string(),
        data: vec!["b".to_string()],
        ttl: 3,
    };
    match record.clone() {
        DnsRecord::TXT { domain, data, ttl } => {
            assert_eq!((domain.as_str(), data[0].as_str(), ttl), ("a", "b", 3));
        }
        other => panic!("unexpected record {other:?}"),
    }
}
