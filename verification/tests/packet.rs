use dns_agent::packet::{encode_name, BytePacketBuf, PacketError, MAX_PACKET_SIZE, PACKET_CAPACITY};

fn at(buffer: &mut BytePacketBuf, pos: usize) {
    buffer.seek(pos).unwrap();
}

#[test]
fn numbers_are_read_back() {
    let mut buffer = BytePacketBuf::new();
    buffer.write_u8(0xab).unwrap();
    buffer.write_u16(0x1234).unwrap();
    buffer.write_u32(0xdeadbeef).unwrap();
    assert_eq!(buffer.pos(), 7);
    assert_eq!(&buffer.buf[..7], &[0xab, 0x12, 0x34, 0xde, 0xad, 0xbe, 0xef]);
    at(&mut buffer, 0);
    assert_eq!(buffer.read(), Ok(0xab));
    assert_eq!(buffer.read_u16(), Ok(0x1234));
    assert_eq!(buffer.read_u32(), Ok(0xdeadbeef));
}

#[test]
fn names_are_read_back_in_lowercase() {
    let mut buffer = BytePacketBuf::new();
    buffer.write_qname("WWW.Example.com").unwrap();
    let end = buffer.pos();
    assert_eq!(&buffer.buf[..end], b"\x03WWW\x07Example\x03com\x00");
    at(&mut buffer, 0);
    let mut name = String::new();
    buffer.read_qname(&mut name).unwrap();
    assert_eq!(name, "www.example.com");
    assert_eq!(buffer.pos(), end);
}

#[test]
fn names_beyond_ascii_are_lowercased() {
    let mut buffer = BytePacketBuf::new();
    buffer.write_qname("\u{c9}cole.fr").unwrap();
    at(&mut buffer, 0);
    let mut name = String::new();
    buffer.read_qname(&mut name).unwrap();
    assert_eq!(name, "\u{e9}cole.fr");
}

#[test]
fn malformed_bytes_in_names_are_replaced() {
    let mut buffer = BytePacketBuf::new();
    buffer.write_bytes(&[2, 0xff, b'A', 0]).unwrap();
    at(&mut buffer, 0);
    let mut name = String::from("x");
    buffer.read_qname(&mut name).unwrap();
    assert_eq!(name, "x\u{fffd}a");
}

#[test]
fn compression_pointers_are_followed() {
    let mut buffer = BytePacketBuf::new();
    buffer.write_qname("example.com").unwrap();
    let start = buffer.pos();
    buffer.write_bytes(&[3, b'w', b'w', b'w', 0xc0, 0]).unwrap();
    at(&mut buffer, start);
    let mut name = String::new();
    buffer.read_qname(&mut name).unwrap();
    assert_eq!(name, "www.example.com");
    assert_eq!(buffer.pos(), start + 6);
}

#[test]
fn pointer_loops_are_refused() {
    let mut buffer = BytePacketBuf::new();
    buffer.write_bytes(&[0xc0, 0]).unwrap();
    at(&mut buffer, 0);
    let mut name = String::new();
    assert_eq!(buffer.read_qname(&mut name), Err(PacketError::TooManyJumps));
    assert_eq!(PacketError::TooManyJumps.message(), "Limit of 10 jumps exceeded");
    assert_eq!(buffer.pos(), 2);
}

#[test]
fn ten_pointers_are_allowed() {
    let mut buffer = BytePacketBuf::new();
    for i in 0..10u8 {
        buffer.write_bytes(&[0xc0, 2 * (i + 1)]).unwrap();
    }
    buffer.write_bytes(&[1, b'a', 0]).unwrap();
    at(&mut buffer, 0);
    let mut name = String::new();
    assert_eq!(buffer.read_qname(&mut name), Ok(()));
    assert_eq!(name, "a");
}

#[test]
fn names_over_the_end_are_refused() {
    let mut buffer = BytePacketBuf::new();
    buffer.buf[510] = 1;
    buffer.buf[511] = b'a';
    at(&mut buffer, 510);
    let mut name = String::new();
    assert_eq!(buffer.read_qname(&mut name), Err(PacketError::EndOfBuffer));
    assert_eq!(PacketError::EndOfBuffer.message(), "End of buffer");
    assert_eq!(buffer.pos(), 510);
}

#[test]
fn long_labels_are_left_out() {
    let long = "x".repeat(64);
    assert_eq!(encode_name(&format!("a.{long}.b")), b"\x01a\x01b\x00".to_vec());
    let fits = "y".repeat(63);
    let wire = encode_name(&fits);
    assert_eq!(wire.len(), 65);
    assert_eq!(wire[0], 63);
}

#[test]
fn empty_labels_end_a_name() {
    assert_eq!(encode_name(""), vec![0]);
    assert_eq!(encode_name("a."), b"\x01a\x00".to_vec());
    assert_eq!(encode_name("a..b"), b"\x01a\x00\x01b\x00".to_vec());
}

#[test]
fn writes_stop_at_the_end() {
    let mut buffer = BytePacketBuf::new();
    at(&mut buffer, 511);
    assert_eq!(buffer.write_u16(0x0102), Err(PacketError::EndOfBuffer));
    assert_eq!(buffer.buf[511], 1);
    assert_eq!(buffer.pos(), 512);
    assert_eq!(buffer.write_u8(7), Err(PacketError::EndOfBuffer));
    assert_eq!(buffer.read(), Err(PacketError::EndOfBuffer));
}

#[test]
fn reads_stop_at_the_end() {
    let mut buffer = BytePacketBuf::new();
    at(&mut buffer, 510);
    assert_eq!(buffer.read_u32(), Err(PacketError::EndOfBuffer));
    assert_eq!(buffer.pos(), 512);
    assert_eq!(buffer.get(511), Ok(0));
    assert_eq!(buffer.get(512), Err(PacketError::EndOfBuffer));
    assert!(buffer.get_range(500, 11).is_ok());
    assert_eq!(buffer.get_range(500, 12), Err(PacketError::EndOfBuffer));
}

#[test]
fn lengths_mark_the_packet() {
    let mut buffer = BytePacketBuf::default();
    assert_eq!(buffer.as_slice().len(), PACKET_CAPACITY);
    buffer.as_mut_slice()[..3].copy_from_slice(&[1, 2, 3]);
    buffer.set_len(3).unwrap();
    assert_eq!(buffer.as_slice(), &[1, 2, 3]);
    assert_eq!(buffer.set_len(513), Err(PacketError::LengthExceedsBuffer));
    assert_eq!(buffer.len, 3);
    assert_eq!(PacketError::LengthExceedsBuffer.message(), "Length exceeds buffer");
    assert_eq!(MAX_PACKET_SIZE, 1232);
}

#[test]
fn cursor_moves() {
    let mut buffer = BytePacketBuf::new();
    buffer.step(5).unwrap();
    buffer.step(6).unwrap();
    assert_eq!(buffer.pos(), 11);
    buffer.set_to_pos(3).unwrap();
    assert_eq!(buffer.pos(), 3);
}
