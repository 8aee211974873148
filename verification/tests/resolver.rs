use dns_agent::message::{Dns, ResultCode};
use dns_agent::net::{Ipv4Addr, Ipv6Addr};
use dns_agent::packet::BytePacketBuf;
use dns_agent::record::{DnsRecord, QueryType};
use dns_agent::resolver::{
    accept_response, after_udp, build_query, cache_key, cache_secs, query_records, query_types,
    record_matches, resolve_replies, tcp_frame, tcp_frame_len, update_min_ttl, FlightRole, Reply,
    ResolveError, ResolveEvent, ResolveState, Singleflight, UdpOutcome,
};

fn copy_into_packet(bytes: &[u8]) -> Dns {
    let mut packet = BytePacketBuf::new();
    packet.as_mut_slice()[..bytes.len()].copy_from_slice(bytes);
    packet.set_len(bytes.len()).unwrap();
    packet.seek(0).unwrap();
    Dns::parse_req(&mut packet).unwrap()
}

fn make_response(id: u16, qname: &str, record: DnsRecord) -> Vec<u8> {
    let mut buffer = BytePacketBuf::new();
    buffer.write_u16(id).unwrap();
    buffer.write_u16(0x8180).unwrap();
    buffer.write_u16(1).unwrap();
    buffer.write_u16(1).unwrap();
    buffer.write_u16(0).unwrap();
    buffer.write_u16(0).unwrap();
    buffer.write_qname(qname).unwrap();
    let qtype = match record {
        DnsRecord::A { .. } => QueryType::A,
        DnsRecord::AAAA { .. } => QueryType::AAAA,
        DnsRecord::MX { .. } => QueryType::MX,
        DnsRecord::NS { .. } => QueryType::NS,
        DnsRecord::TXT { .. } => QueryType::TXT,
        _ => panic!("unsupported record in test"),
    };
    buffer.write_u16(u16::from(qtype)).unwrap();
    buffer.write_u16(1).unwrap();
    record.write(&mut buffer).unwrap();
    let len = buffer.pos();
    buffer.set_len(len).unwrap();
    buffer.as_slice().to_vec()
}

fn packet_of(bytes: &[u8]) -> BytePacketBuf {
    let mut packet = BytePacketBuf::new();
    packet.as_mut_slice()[..bytes.len()].copy_from_slice(bytes);
    packet.set_len(bytes.len()).unwrap();
    packet
}

fn answer_for(qtype: QueryType, qname: &str) -> DnsRecord {
    let domain = qname.to_string();
    match qtype {
        QueryType::A => DnsRecord::A { domain, addr: Ipv4Addr::new(1, 2, 3, 4), ttl: 120 },
        QueryType::AAAA => DnsRecord::AAAA { domain, addr: Ipv6Addr::localhost(), ttl: 240 },
        QueryType::MX => DnsRecord::MX {
            domain,
            preference: 10,
            exchange: "mail.example.com".to_string(),
            ttl: 360,
        },
        QueryType::NS => {
            DnsRecord::NS { domain, host: "ns1.example.com".to_string(), ttl: 480 }
        }
        QueryType::TXT => DnsRecord::TXT { domain, data: vec!["hello".to_string()], ttl: 600 },
        _ => unreachable!(),
    }
}

#[test]
fn resolver_negotiates_edns_and_aggregates_records() {
    let mut replies = Vec::new();
    for (id, qtype) in query_types().into_iter().enumerate() {
        let id = id as u16;
        let (request, len) = build_query(id, "example.com", qtype).unwrap();
        let message = copy_into_packet(&request.as_slice()[..len]);
        assert_eq!(message.header.qdcount, 1);
        assert_eq!(message.header.arcount, 1);
        let opt = message
            .additional
            .iter()
            .find_map(|record| match record {
                DnsRecord::OPT { payload_size, .. } => Some(*payload_size),
                _ => None,
            })
            .unwrap();
        assert_eq!(opt, 1232);
        assert_eq!(message.header.flags.rescode, ResultCode::NOERROR);

        let question = message.question.first().unwrap();
        assert_eq!(question.qtype, qtype);
        let response =
            make_response(message.header.id, &question.qname, answer_for(qtype, &question.qname));
        let mut packet = packet_of(&response);
        let answer = accept_response(&mut packet, id).unwrap();
        assert_eq!(after_udp(&answer), UdpOutcome::Complete);
        replies.push(Reply { qtype, result: query_records(&answer, "example.com", qtype) });
    }

    let resolution = resolve_replies("example.com", replies).expect("resolution succeeded");
    assert_eq!(resolution.qname, "example.com");
    assert_eq!(resolution.a_records.len(), 1);
    assert_eq!(resolution.a_records[0].addr, Ipv4Addr::new(1, 2, 3, 4));
    assert_eq!(resolution.aaaa_records.len(), 1);
    assert_eq!(resolution.aaaa_records[0].addr, Ipv6Addr::localhost());
    assert_eq!(resolution.mx_records.len(), 1);
    assert_eq!(resolution.mx_records[0].exchange, "mail.example.com");
    assert_eq!(resolution.ns_records.len(), 1);
    assert_eq!(resolution.ns_records[0].host, "ns1.example.com");
    assert_eq!(resolution.txt_records.len(), 1);
    assert_eq!(resolution.txt_records[0].data[0], "hello");
    assert_eq!(resolution.ttl_secs, 120);
}

#[test]
fn resolver_falls_back_to_tcp_on_truncation() {
    let (request, len) = build_query(7, "truncated.example", QueryType::A).unwrap();
    let message = copy_into_packet(&request.as_slice()[..len]);
    let mut buffer = BytePacketBuf::new();
    buffer.write_u16(message.header.id).unwrap();
    buffer.write_u16(0x8380).unwrap();
    buffer.write_u16(1).unwrap();
    buffer.write_u16(0).unwrap();
    buffer.write_u16(0).unwrap();
    buffer.write_u16(0).unwrap();
    let question = message.question.first().unwrap();
    buffer.write_qname(&question.qname).unwrap();
    buffer.write_u16(u16::from(question.qtype.clone())).unwrap();
    buffer.write_u16(1).unwrap();
    let cut = accept_response(&mut buffer, 7).unwrap();
    assert_eq!(after_udp(&cut), UdpOutcome::RetryOverTcp);

    let frame = tcp_frame(&request.as_slice()[..len]).unwrap();
    assert_eq!(tcp_frame_len([frame[0], frame[1]]), len);
    let message = copy_into_packet(&frame[2..]);
    let question = message.question.first().unwrap();
    let response = make_response(
        message.header.id,
        &question.qname,
        DnsRecord::A {
            domain: question.qname.clone(),
            addr: Ipv4Addr::new(8, 8, 8, 8),
            ttl: 200,
        },
    );
    let mut packet = packet_of(&response);
    let answer = accept_response(&mut packet, 7).unwrap();
    let records = query_records(&answer, "truncated.example", QueryType::A);
    let resolution = resolve_replies(
        "truncated.example",
        vec![Reply { qtype: QueryType::A, result: records }],
    )
    .expect("resolution succeeded");
    assert_eq!(resolution.a_records[0].addr, Ipv4Addr::new(8, 8, 8, 8));
}

#[test]
fn resolver_obeys_ttl_cache() {
    assert_eq!(
        ResolveState::Query.next(ResolveEvent::Answered { ttl_secs: 1 }),
        ResolveState::Leave { store: true }
    );
    assert_eq!(
        ResolveState::Query.next(ResolveEvent::Answered { ttl_secs: 0 }),
        ResolveState::Leave { store: false }
    );
    assert_eq!(
        ResolveState::Query.next(ResolveEvent::Failed),
        ResolveState::Leave { store: false }
    );
    assert_eq!(
        ResolveState::Leave { store: true }.next(ResolveEvent::Left),
        ResolveState::LookupLast
    );
    assert_eq!(ResolveState::LookupLast.next(ResolveEvent::Miss), ResolveState::ReturnQueried);
    assert_eq!(ResolveState::Lookup.next(ResolveEvent::Hit), ResolveState::ReturnCached);
    assert_eq!(ResolveState::Lookup.next(ResolveEvent::Woken), ResolveState::Lookup);
}

#[test]
fn resolver_deduplicates_singleflight() {
    let mut flights = Singleflight::new();
    let key = cache_key("SingleFlight.example");
    assert_eq!(key, "singleflight.example");
    assert_eq!(flights.enter(&key, 1_000), FlightRole::Lead);
    assert_eq!(flights.enter(&key, 2_000), FlightRole::Follow);
    assert_eq!(flights.enter("other.example", 2_000), FlightRole::Lead);
    assert!(flights.leave(&key));
    assert!(!flights.leave(&key));
    assert_eq!(flights.enter(&key, 3_000), FlightRole::Lead);
    assert_eq!(flights.enter(&key, 3_000 + 49_999_999), FlightRole::Follow);
    assert_eq!(flights.enter(&key, 3_000 + 50_000_000), FlightRole::Lead);
    assert_eq!(
        ResolveState::Enter.next(ResolveEvent::Entered(FlightRole::Follow)),
        ResolveState::Await
    );
    assert_eq!(
        ResolveState::Enter.next(ResolveEvent::Entered(FlightRole::Lead)),
        ResolveState::Query
    );
}

#[test]
fn answers_to_other_queries_are_refused() {
    let response = make_response(9, "a.example", answer_for(QueryType::A, "a.example"));
    let mut packet = packet_of(&response);
    let error = accept_response(&mut packet, 8).unwrap_err();
    assert!(matches!(error, ResolveError::MismatchedId));
    assert_eq!(error.message(), "mismatched DNS transaction ID");
}

#[test]
fn malformed_answers_are_refused() {
    let mut packet = BytePacketBuf::new();
    packet.write_u16(9).unwrap();
    packet.write_u16(0x8180).unwrap();
    packet.write_u16(0).unwrap();
    packet.write_u16(0xffff).unwrap();
    let error = accept_response(&mut packet, 9).unwrap_err();
    assert!(matches!(error, ResolveError::Packet(_)));
    assert_eq!(error.message(), "End of buffer");
}

#[test]
fn server_errors_are_reported() {
    let mut message = Dns::new();
    message.header.flags.rescode = ResultCode::NXDOMAIN;
    let error = query_records(&message, "a", QueryType::A).unwrap_err();
    assert_eq!(error.message(), "dns error: NXDOMAIN");
}

#[test]
fn only_matching_records_are_taken() {
    let record = answer_for(QueryType::A, "a.example");
    assert!(record_matches(&record, &QueryType::A, "a.example"));
    assert!(!record_matches(&record, &QueryType::AAAA, "a.example"));
    assert!(!record_matches(&record, &QueryType::A, "A.example"));
    let opt = DnsRecord::OPT { payload_size: 1, extended: 0 };
    assert!(!record_matches(&opt, &QueryType::OPT, ""));
    let mut message = Dns::new();
    message.answer.push(answer_for(QueryType::A, "b.example"));
    message.answer.push(answer_for(QueryType::A, "a.example"));
    message.answer.push(answer_for(QueryType::MX, "a.example"));
    assert_eq!(query_records(&message, "a.example", QueryType::A).unwrap().len(), 1);
}

#[test]
fn lifetimes_take_the_minimum() {
    assert_eq!(update_min_ttl(None, 5), Some(5));
    assert_eq!(update_min_ttl(Some(3), 5), Some(3));
    assert_eq!(update_min_ttl(Some(9), 5), Some(5));
    let empty = resolve_replies("a", vec![Reply { qtype: QueryType::A, result: Ok(vec![]) }]);
    assert_eq!(empty.unwrap().ttl_secs, 60);
    let zero = DnsRecord::A { domain: "a".to_string(), addr: Ipv4Addr::new(1, 1, 1, 1), ttl: 0 };
    let short = resolve_replies("a", vec![Reply { qtype: QueryType::A, result: Ok(vec![zero]) }]);
    assert_eq!(short.unwrap().ttl_secs, 1);
}

#[test]
fn failed_address_queries_fail_the_resolution() {
    let failed = |text: &str| Err(ResolveError::Transport(text.to_string()));
    let error = resolve_replies(
        "a",
        vec![
            Reply { qtype: QueryType::A, result: failed("first") },
            Reply { qtype: QueryType::MX, result: Ok(vec![answer_for(QueryType::MX, "a")]) },
            Reply { qtype: QueryType::AAAA, result: failed("second") },
        ],
    )
    .unwrap_err();
    assert_eq!(error.message(), "second");
    let error = resolve_replies(
        "a",
        vec![
            Reply { qtype: QueryType::A, result: Ok(vec![]) },
            Reply { qtype: QueryType::AAAA, result: failed("timeout") },
        ],
    )
    .unwrap_err();
    assert_eq!(error.message(), "timeout");
    let partial = resolve_replies(
        "a",
        vec![
            Reply { qtype: QueryType::A, result: Ok(vec![answer_for(QueryType::A, "a")]) },
            Reply { qtype: QueryType::AAAA, result: failed("timeout") },
            Reply { qtype: QueryType::TXT, result: failed("ignored") },
        ],
    );
    assert_eq!(partial.unwrap().a_records.len(), 1);
}

#[test]
fn names_that_do_not_fit_are_refused() {
    let long = vec!["abcdefgh"; 60].join(".");
    assert!(build_query(1, &long, QueryType::A).is_err());
    assert!(tcp_frame(&vec![0u8; 65536]).is_none());
}

#[test]
fn answers_are_cached_for_a_minute_at_most() {
    assert_eq!(cache_secs(0), 0);
    assert_eq!(cache_secs(59), 59);
    assert_eq!(cache_secs(60), 60);
    assert_eq!(cache_secs(3600), 60);
}

#[test]
fn callers_share_one_query() {
    let mut flights = Singleflight::new();
    let key = cache_key("Shared.Example");
    let enter = |flights: &mut Singleflight, now| {
        let state = ResolveState::Lookup.next(ResolveEvent::Miss);
        state.next(ResolveEvent::Entered(flights.enter(&key, now)))
    };
    assert_eq!(enter(&mut flights, 10), ResolveState::Query);
    assert_eq!(enter(&mut flights, 11), ResolveState::Await);
    assert_eq!(enter(&mut flights, 50_000_009), ResolveState::Await);
    assert_eq!(enter(&mut flights, 50_000_010), ResolveState::Query);
    let leaving = ResolveState::Query.next(ResolveEvent::Answered { ttl_secs: 5 });
    assert_eq!(leaving, ResolveState::Leave { store: true });
    assert!(flights.leave(&key));
    let woken = ResolveState::Await.next(ResolveEvent::Woken);
    assert_eq!(woken.next(ResolveEvent::Hit), ResolveState::ReturnCached);
    assert_eq!(enter(&mut flights, 50_000_011), ResolveState::Query);
}
