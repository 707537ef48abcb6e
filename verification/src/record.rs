//! The entries of the answer, authority and additional sections. Address
//! records are read in full; of every other type only what stands in front of
//! the record data is kept, and the data is passed over.

use crate::byte_packet_buffer::{
    lemma_advance_sum, lemma_put_concat, u16_at, u16_bytes, u32_at, u32_bytes, BufferView,
    BytePacketBuffer, Decoded, Wire,
};
use crate::error::DnsError;
use crate::name::{name_wire, read_name};
use crate::name_text::{
    folded, lemma_plain_text_is_written, lemma_written_text_reads, plain_text_labels, text_labels,
};
use crate::query::{QueryType, CLASS_IN};
use vstd::prelude::*;
use vstd::utf8::encode_utf8;

verus! {

/// An IPv4 address: four octets, the first one first.
#[derive(Debug, Clone, Copy, PartialEq, Eq, Hash, PartialOrd, Ord)]
pub struct Ipv4Addr {
    octets: [u8; 4],
}

impl View for Ipv4Addr {
    type V = Seq<u8>;

    closed spec fn view(&self) -> Seq<u8> {
        self.octets@
    }
}

impl Ipv4Addr {
    /// The address `a.b.c.d`.
    pub fn new(a: u8, b: u8, c: u8, d: u8) -> (addr: Ipv4Addr)
        ensures
            addr@ == seq![a, b, c, d],
    {
        let addr = Ipv4Addr { octets: [a, b, c, d] };
        addr
    }

    /// The four octets of the address.
    pub fn octets(&self) -> (octets: [u8; 4])
        ensures
            octets@ == self@,
            self@.len() == 4,
    {
        self.octets
    }
}

/// A resource record.
#[allow(non_camel_case_types)]
#[derive(Debug, PartialEq, Eq, Hash, PartialOrd, Ord)]
pub enum DnsRecord {
    UNKNOWN { domain: String, qtype: u16, data_len: u16, ttl: u32 },
    A { domain: String, addr: Ipv4Addr, ttl: u32 },
}

/// What a resource record holds.
#[allow(non_camel_case_types)]
pub enum RecordView {
    UNKNOWN { domain: Seq<char>, qtype: u16, data_len: u16, ttl: u32 },
    A { domain: Seq<char>, addr: Seq<u8>, ttl: u32 },
}

impl View for DnsRecord {
    type V = RecordView;

    open spec fn view(&self) -> RecordView {
        match *self {
            DnsRecord::UNKNOWN { domain, qtype, data_len, ttl } => RecordView::UNKNOWN {
                domain: domain@,
                qtype,
                data_len,
                ttl,
            },
            DnsRecord::A { domain, addr, ttl } => RecordView::A { domain: domain@, addr: addr@, ttl },
        }
    }
}

impl Clone for DnsRecord {
    fn clone(&self) -> (copy: DnsRecord)
        ensures
            copy == *self,
    {
        match self {
            DnsRecord::UNKNOWN { domain, qtype, data_len, ttl } => DnsRecord::UNKNOWN {
                domain: domain.clone(),
                qtype: *qtype,
                data_len: *data_len,
                ttl: *ttl,
            },
            DnsRecord::A { domain, addr, ttl } => DnsRecord::A {
                domain: domain.clone(),
                addr: *addr,
                ttl: *ttl,
            },
        }
    }
}

/// The length of the data of an address record.
pub const A_DATA_LEN: u16 = 4;

/// What follows the name of an address record: type 1, class 1, the time to
/// live, the data length 4 and the octets of the address.
pub open spec fn a_data_wire(ttl: u32, addr: Seq<u8>) -> Seq<u8> {
    u16_bytes(QueryType::A.num()) + u16_bytes(CLASS_IN) + u32_bytes(ttl) + u16_bytes(A_DATA_LEN)
        + addr
}

/// What writing a record sends. An address record goes out as its name, type
/// 1, class 1, the time to live, the data length 4 and the four octets;
/// nothing is sent for a record of another type.
pub open spec fn record_wire(record: RecordView) -> Wire {
    match record {
        RecordView::A { domain, addr, ttl } => name_wire(encode_utf8(domain)).followed_by(
            Wire::whole(a_data_wire(ttl, addr)),
        ),
        RecordView::UNKNOWN { .. } => Wire::whole(seq![]),
    }
}

/// Reading a record at `pos`: the name, the type, the class (passed over),
/// the time to live and the length of the data, and then the data: four
/// octets of an address record whatever length was announced, and for every
/// other type as many bytes as were announced, which the cursor steps over
/// without a look at the end of the buffer.
pub open spec fn read_record(bytes: Seq<u8>, pos: int) -> Decoded<RecordView> {
    let name = read_name(bytes, pos, 0, true);
    let start = match name.cursor {
        Some(p) => p,
        None => pos,
    };
    let fixed = BufferView { bytes, pos: start };
    match name.error {
        Some(e) => Decoded { cursor: start, result: Err(e) },
        None => if !fixed.fits(10) {
            Decoded { cursor: fixed.advance(10).pos, result: Err(DnsError::EndOfBuffer) }
        } else {
            let qtype = u16_at(bytes, start);
            let ttl = u32_at(bytes, start + 4);
            let data_len = u16_at(bytes, start + 8);
            if QueryType::of(qtype) != QueryType::A {
                Decoded {
                    cursor: start + 10 + data_len,
                    result: Ok(RecordView::UNKNOWN { domain: name.text, qtype, data_len, ttl }),
                }
            } else if fixed.fits(14) {
                Decoded {
                    cursor: start + 14,
                    result: Ok(
                        RecordView::A {
                            domain: name.text,
                            addr: bytes.subrange(start + 10, start + 14),
                            ttl,
                        },
                    ),
                }
            } else {
                Decoded { cursor: fixed.advance(14).pos, result: Err(DnsError::EndOfBuffer) }
            }
        },
    }
}

impl DnsRecord {
    /// An address record.
    pub fn new_a(domain: String, addr: Ipv4Addr, ttl: u32) -> (record: DnsRecord)
        ensures
            record@ == (RecordView::A { domain: domain@, addr: addr@, ttl }),
    {
        DnsRecord::A { domain: domain, addr: addr, ttl: ttl }
    }

    /// Reads a record at the cursor.
    pub fn read(buffer: &mut BytePacketBuffer) -> (res: Result<DnsRecord, DnsError>)
        ensures
            ({
                let read = read_record(old(buffer)@.bytes, old(buffer)@.pos);
                &&& final(buffer)@ == old(buffer)@.at(read.cursor)
                &&& match res {
                    Ok(record) => read.result == Ok::<RecordView, DnsError>(record@),
                    Err(e) => read.result == Err::<RecordView, DnsError>(e),
                }
            }),
    {
        let mut domain = String::new();
        buffer.read_qname(&mut domain)?;
        let ghost fixed = buffer@;
        proof {
            buffer.lemma_view_bounds();
            lemma_advance_sum(fixed, 4, 4);
            lemma_advance_sum(fixed, 8, 2);
        }
        let qtype_num = buffer.read_u16()?;
        let qtype = QueryType::from_num(qtype_num);
        let _ = buffer.read_u16()?;
        let ttl = buffer.read_u32()?;
        let data_len = buffer.read_u16()?;

        match qtype {
            QueryType::A => {
                let raw_addr = buffer.read_u32()?;
                let a = ((raw_addr >> 24) & 0xFF) as u8;
                let b = ((raw_addr >> 16) & 0xFF) as u8;
                let c = ((raw_addr >> 8) & 0xFF) as u8;
                let d = ((raw_addr >> 0) & 0xFF) as u8;
                let addr = Ipv4Addr::new(a, b, c, d);
                proof {
                    let at = fixed.pos + 10;
                    let b0 = fixed.bytes[at];
                    let b1 = fixed.bytes[at + 1];
                    let b2 = fixed.bytes[at + 2];
                    let b3 = fixed.bytes[at + 3];
                    assert(((raw_addr >> 24) & 0xFF) == b0 && ((raw_addr >> 16) & 0xFF) == b1 && ((
                    raw_addr >> 8) & 0xFF) == b2 && ((raw_addr >> 0) & 0xFF) == b3) by (bit_vector)
                        requires
                            raw_addr == b0 as u32 * 0x100_0000 + b1 as u32 * 0x1_0000 + b2 as u32
                                * 0x100 + b3 as u32,
                    ;
                    assert(addr@ =~= fixed.bytes.subrange(at, at + 4));
                }
                Ok(DnsRecord::A { domain: domain, addr: addr, ttl: ttl })
            },
            QueryType::UNKNOWN(_) => {
                buffer.step(data_len as usize)?;
                Ok(
                    DnsRecord::UNKNOWN {
                        domain: domain,
                        qtype: qtype_num,
                        data_len: data_len,
                        ttl: ttl,
                    },
                )
            },
        }
    }

    /// Writes the record at the cursor and says how many bytes that took.
    /// Only address records are written; for one of another type nothing
    /// happens, and the count is zero.
    pub fn write(&self, buffer: &mut BytePacketBuffer) -> (res: Result<usize, DnsError>)
        ensures
            final(buffer)@ == old(buffer)@.put(record_wire(self@).bytes),
            match res {
                Ok(written) => old(buffer)@.outcome(record_wire(self@)) is Ok && written
                    == record_wire(self@).bytes.len(),
                Err(e) => old(buffer)@.outcome(record_wire(self@)) == Err::<(), DnsError>(e),
            },
    {
        proof {
            buffer.lemma_view_bounds();
        }
        let start_pos = buffer.pos();

        match *self {
            DnsRecord::A { ref domain, ref addr, ttl } => {
                buffer.write_qname(domain.as_str())?;
                write_a_data(buffer, ttl, addr)?;
            },
            DnsRecord::UNKNOWN { .. } => {
            },
        }

        Ok(buffer.pos() - start_pos)
    }
}

/// Writes what follows the name of an address record.
fn write_a_data(buffer: &mut BytePacketBuffer, ttl: u32, addr: &Ipv4Addr) -> (res: Result<
    (),
    DnsError,
>)
    ensures
        final(buffer)@ == old(buffer)@.put(a_data_wire(ttl, addr@)),
        res == old(buffer)@.outcome(Wire::whole(a_data_wire(ttl, addr@))),
{
    let octets = addr.octets();
    proof {
        buffer.lemma_view_bounds();
        let v = buffer@;
        let w1 = u16_bytes(QueryType::A.num());
        let w2 = w1 + u16_bytes(CLASS_IN);
        let w3 = w2 + u32_bytes(ttl);
        let w4 = w3 + u16_bytes(A_DATA_LEN);
        let w5 = w4 + seq![octets@[0]];
        let w6 = w5 + seq![octets@[1]];
        let w7 = w6 + seq![octets@[2]];
        lemma_put_concat(v, w1, u16_bytes(CLASS_IN));
        lemma_put_concat(v, w2, u32_bytes(ttl));
        lemma_put_concat(v, w3, u16_bytes(A_DATA_LEN));
        lemma_put_concat(v, w4, seq![octets@[0]]);
        lemma_put_concat(v, w5, seq![octets@[1]]);
        lemma_put_concat(v, w6, seq![octets@[2]]);
        lemma_put_concat(v, w7, seq![octets@[3]]);
    }
    buffer.write_u16(QueryType::A.to_num())?;
    buffer.write_u16(CLASS_IN)?;
    buffer.write_u32(ttl)?;
    buffer.write_u16(A_DATA_LEN)?;
    buffer.write_u8(octets[0])?;
    buffer.write_u8(octets[1])?;
    buffer.write_u8(octets[2])?;
    buffer.write_u8(octets[3])?;
    Ok(())
}

/// The four bytes of a number read as they were written.
pub proof fn lemma_u32_round_trip(val: u32)
    ensures
        u32_at(u32_bytes(val), 0) == val,
{
}

/// Round trip of an address record: a record whose name has labels of 1 to
/// 63 bytes, once written where it finds room, is read back at the same place
/// with its name in lower case, its address and its time to live, and the
/// cursor ends where writing ended: behind the name and fourteen bytes more.
pub proof fn lemma_a_record_round_trip(
    domain: Seq<char>,
    addr: Seq<u8>,
    ttl: u32,
    buffer: BufferView,
)
    requires
        buffer.wf(),
        plain_text_labels(text_labels(domain)),
        addr.len() == 4,
        buffer.fits(record_wire(RecordView::A { domain, addr, ttl }).bytes.len() as int),
    ensures
        record_wire(RecordView::A { domain, addr, ttl }).complete,
        record_wire(RecordView::A { domain, addr, ttl }).bytes.len() == name_wire(
            encode_utf8(domain),
        ).bytes.len() + 14,
        read_record(
            buffer.put(record_wire(RecordView::A { domain, addr, ttl }).bytes).bytes,
            buffer.pos,
        ) == (Decoded {
            cursor: buffer.pos + record_wire(RecordView::A { domain, addr, ttl }).bytes.len(),
            result: Ok::<RecordView, DnsError>(
                RecordView::A { domain: folded(domain), addr, ttl },
            ),
        }),
{
    let name = name_wire(encode_utf8(domain));
    let data = a_data_wire(ttl, addr);
    let wire = record_wire(RecordView::A { domain, addr, ttl }).bytes;
    let after = buffer.put(wire).bytes;
    let pos = buffer.pos;
    let n = name.bytes.len() as int;
    let start = pos + n;
    lemma_plain_text_is_written(domain);
    assert(data.len() == 14);
    assert(wire == name.bytes + data);
    assert(after.subrange(pos, start) =~= name.bytes);
    lemma_written_text_reads(domain, after, pos);
    assert forall|i: int| 0 <= i < 14 implies after[start + i] == #[trigger] data[i] by {
        assert(after[start + i] == wire[n + i]);
    }
    assert(u16_at(after, start) == 1) by {
        assert(after[start] == data[0] && after[start + 1] == data[1]);
    }
    assert(u32_at(after, start + 4) == ttl) by {
        assert(after[start + 4] == data[4] && after[start + 5] == data[5] && after[start + 6]
            == data[6] && after[start + 7] == data[7]);
        lemma_u32_round_trip(ttl);
    }
    assert(after.subrange(start + 10, start + 14) =~= addr) by {
        assert forall|i: int| 0 <= i < 4 implies after[start + 10 + i] == addr[i] by {
            assert(after[start + 10 + i] == data[10 + i]);
        }
    }
}

} // verus!
