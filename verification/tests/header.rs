use dns_codec::byte_packet_buffer::BytePacketBuffer;
use dns_codec::error::DnsError;
use dns_codec::header::{DnsHeader, ResultCode};

#[test]
fn new_header_is_all_zero() {
    let header = DnsHeader::new();
    assert_eq!(header.id, 0);
    assert!(!header.response);
    assert_eq!(header.opcode, 0);
    assert!(!header.authoritative_answer);
    assert!(!header.truncated_message);
    assert!(!header.recursion_desired);
    assert!(!header.recursion_available);
    assert!(!header.z);
    assert!(!header.authed_data);
    assert!(!header.checking_disabled);
    assert_eq!(header.rescode, ResultCode::NOERROR);
    assert_eq!(header.questions, 0);
    assert_eq!(header.answers, 0);
    assert_eq!(header.authoritative_entries, 0);
    assert_eq!(header.resource_entries, 0);
}

#[test]
fn result_codes_have_their_numbers() {
    let named = [
        ResultCode::NOERROR,
        ResultCode::FORMERR,
        ResultCode::SERVFAIL,
        ResultCode::NXDOMAIN,
        ResultCode::NOTIMP,
        ResultCode::REFUSED,
        ResultCode::YXDOMAIN,
        ResultCode::YXRRSET,
        ResultCode::NXRRSET,
        ResultCode::NOTAUTH,
        ResultCode::NOTZONE,
    ];
    for (num, code) in named.iter().enumerate() {
        assert_eq!(code.to_num(), num as u8);
        assert_eq!(ResultCode::from_num(num as u8), *code);
    }
    assert_eq!(ResultCode::from_num(11), ResultCode::OTHER(11));
    assert_eq!(ResultCode::from_num(15), ResultCode::OTHER(15));
    assert_eq!(ResultCode::from_num(200), ResultCode::OTHER(200));
    assert_eq!(ResultCode::OTHER(13).to_num(), 13);
}

#[test]
fn header_is_written_as_twelve_bytes() {
    let header = DnsHeader {
        id: 0x1234,
        response: true,
        opcode: 2,
        authoritative_answer: false,
        truncated_message: true,
        recursion_desired: true,
        recursion_available: true,
        z: false,
        authed_data: true,
        checking_disabled: false,
        rescode: ResultCode::NXDOMAIN,
        questions: 1,
        answers: 0x0203,
        authoritative_entries: 0xFFFF,
        resource_entries: 4,
    };
    let mut buffer = BytePacketBuffer::new();
    assert_eq!(header.write(&mut buffer), Ok(()));
    assert_eq!(buffer.pos(), 12);
    // 1 0010 0 1 1 | 1 0 1 0 0011
    assert_eq!(
        buffer.written(),
        &[0x12, 0x34, 0x93, 0xA3, 0, 1, 2, 3, 0xFF, 0xFF, 0, 4]
    );
}

#[test]
fn each_flag_has_its_bit() {
    let cases: [(fn(&mut DnsHeader), [u8; 2]); 10] = [
        (|h| h.response = true, [0x80, 0x00]),
        (|h| h.opcode = 15, [0x78, 0x00]),
        (|h| h.authoritative_answer = true, [0x04, 0x00]),
        (|h| h.truncated_message = true, [0x02, 0x00]),
        (|h| h.recursion_desired = true, [0x01, 0x00]),
        (|h| h.recursion_available = true, [0x00, 0x80]),
        (|h| h.z = true, [0x00, 0x40]),
        (|h| h.authed_data = true, [0x00, 0x20]),
        (|h| h.checking_disabled = true, [0x00, 0x10]),
        (|h| h.rescode = ResultCode::OTHER(15), [0x00, 0x0F]),
    ];
    for (set, flags) in cases {
        let mut header = DnsHeader::new();
        set(&mut header);
        let mut buffer = BytePacketBuffer::new();
        assert_eq!(header.write(&mut buffer), Ok(()));
        assert_eq!(&buffer.written()[2..4], &flags);
        buffer.seek(0).unwrap();
        assert_eq!(DnsHeader::read(&mut buffer), Ok(header));
    }
}

#[test]
fn header_is_read_from_twelve_bytes() {
    let mut buffer =
        BytePacketBuffer::from_bytes(&[0xAB, 0xCD, 0x01, 0x20, 0, 1, 0, 2, 0, 3, 0, 4, 77]);
    let header = DnsHeader::read(&mut buffer).unwrap();
    assert_eq!(buffer.pos(), 12);
    assert_eq!(header.id, 0xABCD);
    assert!(!header.response);
    assert_eq!(header.opcode, 0);
    assert!(header.recursion_desired);
    assert!(header.authed_data);
    assert!(!header.recursion_available);
    assert_eq!(header.rescode, ResultCode::NOERROR);
    assert_eq!(header.questions, 1);
    assert_eq!(header.answers, 2);
    assert_eq!(header.authoritative_entries, 3);
    assert_eq!(header.resource_entries, 4);
}

#[test]
fn header_round_trips() {
    let codes = [
        ResultCode::NOERROR,
        ResultCode::NOTIMP,
        ResultCode::NOTZONE,
        ResultCode::OTHER(11),
        ResultCode::OTHER(15),
    ];
    let mut n: u32 = 1;
    for opcode in 0..16u8 {
        for code in codes {
            n = n.wrapping_mul(1664525).wrapping_add(1013904223);
            let header = DnsHeader {
                id: (n >> 16) as u16,
                response: n & 1 != 0,
                opcode,
                authoritative_answer: n & 2 != 0,
                truncated_message: n & 4 != 0,
                recursion_desired: n & 8 != 0,
                recursion_available: n & 16 != 0,
                z: n & 32 != 0,
                authed_data: n & 64 != 0,
                checking_disabled: n & 128 != 0,
                rescode: code,
                questions: (n >> 3) as u16,
                answers: (n >> 5) as u16,
                authoritative_entries: (n >> 7) as u16,
                resource_entries: (n >> 9) as u16,
            };
            let mut buffer = BytePacketBuffer::new();
            buffer.seek(100).unwrap();
            assert_eq!(header.write(&mut buffer), Ok(()));
            assert_eq!(buffer.pos(), 112);
            buffer.seek(100).unwrap();
            assert_eq!(DnsHeader::read(&mut buffer), Ok(header));
            assert_eq!(buffer.pos(), 112);
        }
    }
}

#[test]
fn header_writes_the_low_four_bits_of_a_wide_opcode() {
    let mut header = DnsHeader::new();
    header.opcode = 0x1F;
    header.rescode = ResultCode::OTHER(0xF3);
    let mut buffer = BytePacketBuffer::new();
    assert_eq!(header.write(&mut buffer), Ok(()));
    assert_eq!(&buffer.written()[2..4], &[0x78, 0x03]);
}

#[test]
fn header_read_fails_on_less_than_twelve_bytes() {
    let mut buffer = BytePacketBuffer::new();
    buffer.seek(501).unwrap();
    assert_eq!(DnsHeader::read(&mut buffer), Err(DnsError::EndOfBuffer));
    assert_eq!(buffer.pos(), 512);
    buffer.seek(500).unwrap();
    assert!(DnsHeader::read(&mut buffer).is_ok());
    assert_eq!(buffer.pos(), 512);
}

#[test]
fn header_write_fails_on_less_than_twelve_bytes() {
    let mut header = DnsHeader::new();
    header.id = 0x0102;
    let mut buffer = BytePacketBuffer::new();
    buffer.seek(501).unwrap();
    assert_eq!(header.write(&mut buffer), Err(DnsError::EndOfBuffer));
    assert_eq!(buffer.pos(), 512);
    assert_eq!(buffer.get(501), Ok(1));
    assert_eq!(buffer.get(502), Ok(2));
    buffer.seek(500).unwrap();
    assert_eq!(header.write(&mut buffer), Ok(()));
}
