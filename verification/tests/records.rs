use dns_codec::byte_packet_buffer::BytePacketBuffer;
use dns_codec::error::DnsError;
use dns_codec::query::{DnsQuestion, QueryType};
use dns_codec::record::{DnsRecord, Ipv4Addr};

#[test]
fn query_types_have_their_numbers() {
    assert_eq!(QueryType::A.to_num(), 1);
    assert_eq!(QueryType::UNKNOWN(28).to_num(), 28);
    assert_eq!(QueryType::from_num(1), QueryType::A);
    assert_eq!(QueryType::from_num(0), QueryType::UNKNOWN(0));
    assert_eq!(QueryType::from_num(28), QueryType::UNKNOWN(28));
    assert_eq!(QueryType::from_num(65535), QueryType::UNKNOWN(65535));
}

#[test]
fn ipv4_addr_keeps_its_octets() {
    let addr = Ipv4Addr::new(93, 184, 216, 34);
    assert_eq!(addr.octets(), [93, 184, 216, 34]);
    assert_eq!(addr, Ipv4Addr::new(93, 184, 216, 34));
    assert_ne!(addr, Ipv4Addr::new(93, 184, 216, 35));
    assert!(Ipv4Addr::new(1, 2, 3, 4) < Ipv4Addr::new(1, 2, 4, 0));
}

#[test]
fn question_is_written_with_type_and_class() {
    let question = DnsQuestion::new("a.io".to_string(), QueryType::UNKNOWN(0x1C));
    let mut buffer = BytePacketBuffer::new();
    assert_eq!(question.write(&mut buffer), Ok(()));
    assert_eq!(buffer.written(), &[1, b'a', 2, b'i', b'o', 0, 0, 0x1C, 0, 1]);
}

#[test]
fn question_is_read_and_its_class_passed_over() {
    let mut buffer =
        BytePacketBuffer::from_bytes(&[2, b'G', b'o', 0, 0, 1, 0xAA, 0xBB, 9, 9]);
    let question = DnsQuestion::read(&mut buffer).unwrap();
    assert_eq!(question, DnsQuestion::new("go".to_string(), QueryType::A));
    assert_eq!(buffer.pos(), 8);
}

#[test]
fn question_round_trips() {
    let question = DnsQuestion::new("codecrafters.io".to_string(), QueryType::A);
    let mut buffer = BytePacketBuffer::new();
    assert_eq!(question.write(&mut buffer), Ok(()));
    assert_eq!(buffer.pos(), 21);
    buffer.seek(0).unwrap();
    assert_eq!(DnsQuestion::read(&mut buffer), Ok(question.clone()));
    assert_eq!(buffer.pos(), 21);
    assert_eq!(question.clone(), question);
}

#[test]
fn question_read_fails_where_type_or_class_is_cut_off() {
    let mut bytes = vec![0u8; 512];
    bytes[507] = 1;
    bytes[508] = b'a';
    let mut buffer = BytePacketBuffer::from_bytes(&bytes);
    buffer.seek(507).unwrap();
    // The name ends at 510; two bytes are left for type and class.
    assert_eq!(DnsQuestion::read(&mut buffer), Err(DnsError::EndOfBuffer));
    assert_eq!(buffer.pos(), 512);
}

#[test]
fn question_read_passes_on_the_error_of_the_name() {
    let mut buffer = BytePacketBuffer::from_bytes(&[0xC0, 0x00]);
    assert_eq!(DnsQuestion::read(&mut buffer), Err(DnsError::JumpLimitExceeded));
    assert_eq!(buffer.pos(), 2);
}

#[test]
fn question_write_refuses_a_long_label() {
    let question = DnsQuestion::new("x".repeat(64), QueryType::A);
    let mut buffer = BytePacketBuffer::new();
    assert_eq!(question.write(&mut buffer), Err(DnsError::LabelTooLong));
    assert_eq!(buffer.pos(), 0);
}

#[test]
fn a_record_round_trips() {
    let record = DnsRecord::new_a("example.com".to_string(), Ipv4Addr::new(93, 184, 216, 34), 60);
    let mut buffer = BytePacketBuffer::new();
    // The name takes 13 bytes on the wire: two length octets, ten letters
    // and the closing zero.
    assert_eq!(record.write(&mut buffer), Ok(13 + 2 + 2 + 4 + 2 + 4));
    assert_eq!(buffer.pos(), 27);
    assert_eq!(
        buffer.written(),
        &[
            7, b'e', b'x', b'a', b'm', b'p', b'l', b'e', 3, b'c', b'o', b'm', 0, 0, 1, 0, 1, 0,
            0, 0, 60, 0, 4, 93, 184, 216, 34
        ]
    );
    buffer.seek(0).unwrap();
    let back = DnsRecord::read(&mut buffer).unwrap();
    assert_eq!(buffer.pos(), 27);
    assert_eq!(back, record);
    match back {
        DnsRecord::A { domain, addr, ttl } => {
            assert_eq!(domain, "example.com");
            assert_eq!(addr.octets(), [93, 184, 216, 34]);
            assert_eq!(ttl, 60);
        }
        DnsRecord::UNKNOWN { .. } => panic!("an address record was written"),
    }
}

#[test]
fn a_record_write_counts_from_the_cursor() {
    let record = DnsRecord::new_a("a".to_string(), Ipv4Addr::new(1, 2, 3, 4), 0xFFFFFFFF);
    let mut buffer = BytePacketBuffer::new();
    buffer.seek(100).unwrap();
    assert_eq!(record.write(&mut buffer), Ok(17));
    assert_eq!(buffer.pos(), 117);
    assert_eq!(buffer.get_range(107, 4), Ok(&[0xFFu8, 0xFF, 0xFF, 0xFF][..]));
}

#[test]
fn a_record_is_read_with_four_octets_whatever_length_is_announced() {
    let mut buffer = BytePacketBuffer::from_bytes(&[
        1, b'x', 0, 0, 1, 0, 1, 0, 0, 1, 0, 0, 9, 10, 20, 30, 40, 50,
    ]);
    let record = DnsRecord::read(&mut buffer).unwrap();
    assert_eq!(record, DnsRecord::new_a("x".to_string(), Ipv4Addr::new(10, 20, 30, 40), 256));
    assert_eq!(buffer.pos(), 17);
}

#[test]
fn unknown_record_is_read_and_its_data_passed_over() {
    let mut buffer = BytePacketBuffer::from_bytes(&[
        1, b'x', 0, 0, 28, 0, 1, 0, 0, 0, 5, 0, 3, 0xAA, 0xBB, 0xCC, 0x77,
    ]);
    let record = DnsRecord::read(&mut buffer).unwrap();
    assert_eq!(
        record,
        DnsRecord::UNKNOWN { domain: "x".to_string(), qtype: 28, data_len: 3, ttl: 5 }
    );
    assert_eq!(buffer.pos(), 16);
    assert_eq!(buffer.read(), Ok(0x77));
}

#[test]
fn unknown_record_steps_past_the_end_without_failing() {
    let mut bytes = vec![0u8; 512];
    bytes[499] = 1;
    bytes[500] = b'x';
    bytes[503] = 28;
    bytes[510] = 0xFF;
    bytes[511] = 0xFF;
    let mut buffer = BytePacketBuffer::from_bytes(&bytes);
    buffer.seek(499).unwrap();
    let record = DnsRecord::read(&mut buffer).unwrap();
    assert_eq!(
        record,
        DnsRecord::UNKNOWN { domain: "x".to_string(), qtype: 28, data_len: 0xFFFF, ttl: 0 }
    );
    assert_eq!(buffer.pos(), 512 + 0xFFFF);
    assert_eq!(buffer.read(), Err(DnsError::EndOfBuffer));
}

#[test]
fn unknown_record_is_not_written() {
    let record = DnsRecord::UNKNOWN { domain: "x".to_string(), qtype: 28, data_len: 3, ttl: 5 };
    let mut buffer = BytePacketBuffer::new();
    buffer.seek(7).unwrap();
    assert_eq!(record.write(&mut buffer), Ok(0));
    assert_eq!(buffer.pos(), 7);
    buffer.seek(600).unwrap();
    assert_eq!(record.write(&mut buffer), Ok(0));
    assert_eq!(buffer.pos(), 600);
}

#[test]
fn record_read_fails_where_the_fixed_part_is_cut_off() {
    let mut bytes = vec![0u8; 512];
    bytes[500] = 1;
    bytes[501] = b'x';
    let mut buffer = BytePacketBuffer::from_bytes(&bytes);
    buffer.seek(500).unwrap();
    // The name ends at 503; nine bytes are left where ten are needed.
    assert_eq!(DnsRecord::read(&mut buffer), Err(DnsError::EndOfBuffer));
    assert_eq!(buffer.pos(), 512);
}

#[test]
fn a_record_read_fails_where_the_address_is_cut_off() {
    let mut bytes = vec![0u8; 512];
    bytes[496] = 1;
    bytes[497] = b'x';
    bytes[500] = 1;
    let mut buffer = BytePacketBuffer::from_bytes(&bytes);
    buffer.seek(496).unwrap();
    // Name up to 499, ten bytes up to 509: three bytes are left.
    assert_eq!(DnsRecord::read(&mut buffer), Err(DnsError::EndOfBuffer));
    assert_eq!(buffer.pos(), 512);
}

#[test]
fn a_record_write_fails_where_it_finds_no_room() {
    let record = DnsRecord::new_a("ab".to_string(), Ipv4Addr::new(1, 2, 3, 4), 1);
    let mut buffer = BytePacketBuffer::new();
    buffer.seek(495).unwrap();
    assert_eq!(record.write(&mut buffer), Err(DnsError::EndOfBuffer));
    assert_eq!(buffer.pos(), 512);
    buffer.seek(494).unwrap();
    assert_eq!(record.write(&mut buffer), Ok(18));
    assert_eq!(buffer.pos(), 512);
}

#[test]
fn a_record_write_refuses_a_long_label() {
    let record = DnsRecord::new_a("y".repeat(64), Ipv4Addr::new(1, 2, 3, 4), 1);
    let mut buffer = BytePacketBuffer::new();
    assert_eq!(record.write(&mut buffer), Err(DnsError::LabelTooLong));
    assert_eq!(buffer.pos(), 0);
}
