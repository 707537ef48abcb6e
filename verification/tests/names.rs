use dns_codec::byte_packet_buffer::BytePacketBuffer;
use dns_codec::error::DnsError;

fn name_at(bytes: &[u8], pos: usize) -> (Result<(), DnsError>, String, usize) {
    let mut buffer = BytePacketBuffer::from_bytes(bytes);
    buffer.seek(pos).unwrap();
    let mut out = String::new();
    let res = buffer.read_qname(&mut out);
    (res, out, buffer.pos())
}

#[test]
fn read_qname_joins_labels_with_full_stops() {
    let bytes = [3, b'w', b'w', b'w', 7, b'e', b'x', b'a', b'm', b'p', b'l', b'e', 3, b'c', b'o', b'm', 0, 99];
    let (res, name, pos) = name_at(&bytes, 0);
    assert_eq!(res, Ok(()));
    assert_eq!(name, "www.example.com");
    assert_eq!(pos, 17);
}

#[test]
fn read_qname_folds_to_lower_case() {
    let bytes = [3, b'W', b'w', b'W', 2, b'I', b'o', 0];
    let (res, name, pos) = name_at(&bytes, 0);
    assert_eq!(res, Ok(()));
    assert_eq!(name, "www.io");
    assert_eq!(pos, 8);
}

#[test]
fn read_qname_folds_letters_beyond_ascii() {
    // "É" is C3 89 in UTF-8, "é" is C3 A9.
    let bytes = [2, 0xC3, 0x89, 0];
    let (res, name, pos) = name_at(&bytes, 0);
    assert_eq!(res, Ok(()));
    assert_eq!(name, "\u{e9}");
    assert_eq!(pos, 4);
}

#[test]
fn read_qname_replaces_bytes_that_are_not_utf8() {
    let bytes = [3, b'A', 0xFF, b'b', 0];
    let (res, name, pos) = name_at(&bytes, 0);
    assert_eq!(res, Ok(()));
    assert_eq!(name, "a\u{FFFD}b");
    assert_eq!(pos, 5);
}

#[test]
fn read_qname_of_the_root_is_empty() {
    let (res, name, pos) = name_at(&[0, 3, b'a', b'b', b'c', 0], 0);
    assert_eq!(res, Ok(()));
    assert_eq!(name, "");
    assert_eq!(pos, 1);
}

#[test]
fn read_qname_appends_to_what_the_output_holds() {
    let mut buffer = BytePacketBuffer::from_bytes(&[1, b'a', 0]);
    let mut out = String::from("x");
    assert_eq!(buffer.read_qname(&mut out), Ok(()));
    assert_eq!(out, "xa");
}

#[test]
fn read_qname_follows_a_pointer_and_resumes_behind_it() {
    // "example.com" written out at 0, a pointer to it at 20.
    let mut bytes = vec![7, b'e', b'x', b'a', b'm', b'p', b'l', b'e', 3, b'c', b'o', b'm', 0];
    bytes.resize(20, 0);
    bytes.extend_from_slice(&[0xC0, 0x00, 0x55]);
    let (res_literal, literal, end_literal) = name_at(&bytes, 0);
    let (res_pointer, pointed, end_pointer) = name_at(&bytes, 20);
    assert_eq!(res_literal, Ok(()));
    assert_eq!(res_pointer, Ok(()));
    assert_eq!(literal, "example.com");
    assert_eq!(pointed, literal);
    assert_eq!(end_literal, 13);
    assert_eq!(end_pointer, 22);
}

#[test]
fn read_qname_follows_a_pointer_after_labels() {
    // "com" at 0; "www" followed by a pointer to 0 at 10.
    let mut bytes = vec![3, b'c', b'o', b'm', 0];
    bytes.resize(10, 0);
    bytes.extend_from_slice(&[3, b'w', b'w', b'w', 0xC0, 0x00]);
    let (res, name, pos) = name_at(&bytes, 10);
    assert_eq!(res, Ok(()));
    assert_eq!(name, "www.com");
    assert_eq!(pos, 16);
}

#[test]
fn read_qname_uses_all_fourteen_bits_of_a_pointer() {
    // A pointer to 0x0102 = 258.
    let mut bytes = vec![0xC1, 0x02];
    bytes.resize(258, 0);
    bytes.extend_from_slice(&[2, b'h', b'i', 0]);
    let (res, name, pos) = name_at(&bytes, 0);
    assert_eq!(res, Ok(()));
    assert_eq!(name, "hi");
    assert_eq!(pos, 2);
}

#[test]
fn read_qname_fails_on_a_pointer_past_the_buffer() {
    let (res, name, pos) = name_at(&[0xFF, 0xFF], 0);
    assert_eq!(res, Err(DnsError::EndOfBuffer));
    assert_eq!(name, "");
    assert_eq!(pos, 2);
}

#[test]
fn read_qname_gives_up_on_a_pointer_to_itself() {
    let (res, name, pos) = name_at(&[0xC0, 0x00], 0);
    assert_eq!(res, Err(DnsError::JumpLimitExceeded));
    assert_eq!(name, "");
    assert_eq!(pos, 2);
}

#[test]
fn read_qname_gives_up_on_two_pointers_that_lead_to_each_other() {
    let (res, _, pos) = name_at(&[0xC0, 0x02, 0xC0, 0x00], 0);
    assert_eq!(res, Err(DnsError::JumpLimitExceeded));
    assert_eq!(pos, 2);
}

fn chain(pointers: usize) -> Vec<u8> {
    // Pointer i stands at 2 * i and leads to 2 * (i + 1); the name "a"
    // stands behind the last one.
    let mut bytes = Vec::new();
    for i in 0..pointers {
        bytes.push(0xC0);
        bytes.push((2 * (i + 1)) as u8);
    }
    bytes.extend_from_slice(&[1, b'a', 0]);
    bytes
}

#[test]
fn read_qname_follows_five_pointers() {
    let (res, name, pos) = name_at(&chain(5), 0);
    assert_eq!(res, Ok(()));
    assert_eq!(name, "a");
    assert_eq!(pos, 2);
}

#[test]
fn read_qname_gives_up_at_the_sixth_pointer() {
    let (res, name, pos) = name_at(&chain(6), 0);
    assert_eq!(res, Err(DnsError::JumpLimitExceeded));
    assert_eq!(name, "");
    assert_eq!(pos, 2);
}

#[test]
fn read_qname_fails_where_the_cursor_is_past_the_end() {
    let (res, name, pos) = name_at(&[1, b'a', 0], 512);
    assert_eq!(res, Err(DnsError::EndOfBuffer));
    assert_eq!(name, "");
    assert_eq!(pos, 512);
}

#[test]
fn read_qname_fails_on_a_label_that_reaches_the_last_byte() {
    // A label of 3 bytes at 508: its bytes are 509, 510, 511.
    let mut bytes = vec![0; 512];
    bytes[506] = 1;
    bytes[507] = b'x';
    bytes[508] = 3;
    let (res, name, pos) = name_at(&bytes, 506);
    assert_eq!(res, Err(DnsError::EndOfBuffer));
    assert_eq!(name, "x.");
    assert_eq!(pos, 506);
}

#[test]
fn read_qname_reads_a_name_that_ends_at_the_last_byte() {
    let mut bytes = vec![0; 512];
    bytes[508] = 2;
    bytes[509] = b'o';
    bytes[510] = b'k';
    let (res, name, pos) = name_at(&bytes, 508);
    assert_eq!(res, Ok(()));
    assert_eq!(name, "ok");
    assert_eq!(pos, 512);
}

#[test]
fn read_qname_fails_on_a_pointer_cut_off_by_the_end() {
    let mut bytes = vec![0; 512];
    bytes[511] = 0xC0;
    let (res, _, pos) = name_at(&bytes, 511);
    assert_eq!(res, Err(DnsError::EndOfBuffer));
    assert_eq!(pos, 513);
}

#[test]
fn read_qname_takes_long_length_octets_as_labels() {
    // 0x40 has one of the two top bits set: a label of 64 bytes.
    let mut bytes = vec![0x40];
    bytes.extend_from_slice(&[b'Z'; 64]);
    bytes.push(0);
    let (res, name, pos) = name_at(&bytes, 0);
    assert_eq!(res, Ok(()));
    assert_eq!(name, "z".repeat(64));
    assert_eq!(pos, 66);
}

#[test]
fn write_qname_writes_labels_behind_their_lengths() {
    let mut buffer = BytePacketBuffer::new();
    assert_eq!(buffer.write_qname("example.com"), Ok(()));
    assert_eq!(buffer.pos(), 13);
    assert_eq!(
        buffer.written(),
        &[7, b'e', b'x', b'a', b'm', b'p', b'l', b'e', 3, b'c', b'o', b'm', 0]
    );
}

#[test]
fn write_qname_keeps_the_case() {
    let mut buffer = BytePacketBuffer::new();
    assert_eq!(buffer.write_qname("Ab.C"), Ok(()));
    assert_eq!(buffer.written(), &[2, b'A', b'b', 1, b'C', 0]);
}

#[test]
fn write_qname_counts_bytes_not_characters() {
    let mut buffer = BytePacketBuffer::new();
    assert_eq!(buffer.write_qname("\u{e9}.x"), Ok(()));
    assert_eq!(buffer.written(), &[2, 0xC3, 0xA9, 1, b'x', 0]);
}

#[test]
fn write_qname_of_the_empty_name_writes_an_empty_label() {
    let mut buffer = BytePacketBuffer::new();
    assert_eq!(buffer.write_qname(""), Ok(()));
    assert_eq!(buffer.written(), &[0, 0]);
}

#[test]
fn write_qname_writes_empty_labels_as_they_stand() {
    let mut buffer = BytePacketBuffer::new();
    assert_eq!(buffer.write_qname("a..b."), Ok(()));
    assert_eq!(buffer.written(), &[1, b'a', 0, 1, b'b', 0, 0]);
}

#[test]
fn write_qname_accepts_a_label_of_63_bytes() {
    let mut buffer = BytePacketBuffer::new();
    let label = "a".repeat(63);
    assert_eq!(buffer.write_qname(&label), Ok(()));
    assert_eq!(buffer.pos(), 65);
    assert_eq!(buffer.get(0), Ok(63));
    assert_eq!(buffer.get(64), Ok(0));
}

#[test]
fn write_qname_refuses_a_label_of_64_bytes() {
    let mut buffer = BytePacketBuffer::new();
    let long = "a".repeat(64);
    assert_eq!(buffer.write_qname(&long), Err(DnsError::LabelTooLong));
    assert_eq!(buffer.pos(), 0);
}

#[test]
fn write_qname_keeps_what_stands_in_front_of_a_long_label() {
    let mut buffer = BytePacketBuffer::new();
    let name = format!("ab.{}.cd", "x".repeat(70));
    assert_eq!(buffer.write_qname(&name), Err(DnsError::LabelTooLong));
    assert_eq!(buffer.written(), &[2, b'a', b'b']);
}

#[test]
fn write_qname_fails_where_the_name_finds_no_room() {
    let mut buffer = BytePacketBuffer::new();
    buffer.seek(508).unwrap();
    assert_eq!(buffer.write_qname("abc.de"), Err(DnsError::EndOfBuffer));
    assert_eq!(buffer.pos(), 512);
    assert_eq!(buffer.get_range(508, 3), Ok(&[3u8, b'a', b'b'][..]));
    assert_eq!(buffer.get(511), Ok(b'c'));
}

#[test]
fn write_qname_reports_the_end_of_the_buffer_before_a_long_label_behind_it() {
    let mut buffer = BytePacketBuffer::new();
    buffer.seek(510).unwrap();
    let name = format!("abc.{}", "x".repeat(70));
    assert_eq!(buffer.write_qname(&name), Err(DnsError::EndOfBuffer));
    assert_eq!(buffer.pos(), 512);
}

#[test]
fn write_qname_fills_the_buffer_to_the_last_byte() {
    let mut buffer = BytePacketBuffer::new();
    buffer.seek(507).unwrap();
    assert_eq!(buffer.write_qname("abc"), Ok(()));
    assert_eq!(buffer.pos(), 512);
}

fn round_trip(name: &str) -> (String, usize, usize) {
    let mut buffer = BytePacketBuffer::new();
    buffer.seek(40).unwrap();
    assert_eq!(buffer.write_qname(name), Ok(()));
    let end = buffer.pos();
    buffer.seek(40).unwrap();
    let mut out = String::new();
    assert_eq!(buffer.read_qname(&mut out), Ok(()));
    (out, buffer.pos(), end)
}

#[test]
fn names_round_trip_in_lower_case() {
    let (out, read_end, write_end) = round_trip("Example.COM");
    assert_eq!(out, "example.com");
    assert_eq!(read_end, write_end);
    assert_eq!(write_end, 53);

    let (out, read_end, write_end) = round_trip("a.b.c.d.e.f");
    assert_eq!(out, "a.b.c.d.e.f");
    assert_eq!(read_end, write_end);

    let (out, read_end, write_end) = round_trip(&"Q".repeat(63));
    assert_eq!(out, "q".repeat(63));
    assert_eq!(read_end, write_end);
}

#[test]
fn names_beyond_ascii_round_trip_label_by_label() {
    let (out, read_end, write_end) = round_trip("B\u{dc}CHER.\u{c9}cole");
    assert_eq!(out, "b\u{fc}cher.\u{e9}cole");
    assert_eq!(read_end, write_end);
}

#[test]
fn a_name_with_an_empty_label_reads_back_cut_short() {
    let (out, read_end, write_end) = round_trip("a..b");
    assert_eq!(out, "a");
    assert_eq!(read_end, 43);
    assert_eq!(write_end, 46);
}
