//! The twelve bytes at the head of every message: the transaction id, sixteen
//! packed flag bits and the sizes of the four sections.

use crate::byte_packet_buffer::{u16_at, u16_bytes, BufferView, BytePacketBuffer};
use crate::error::DnsError;
use vstd::prelude::*;

verus! {

/// The result code of a response. The codes 0 to 10 have names; the other
/// values of the four-bit field are kept as numbers.
#[allow(non_camel_case_types)]
#[derive(Copy, Clone, Debug, PartialEq, Eq, Structural)]
pub enum ResultCode {
    NOERROR,
    FORMERR,
    SERVFAIL,
    NXDOMAIN,
    NOTIMP,
    REFUSED,
    YXDOMAIN,
    YXRRSET,
    NXRRSET,
    NOTAUTH,
    NOTZONE,
    OTHER(u8),
}

impl ResultCode {
    /// The number of the code.
    pub open spec fn code(self) -> u8 {
        match self {
            ResultCode::NOERROR => 0,
            ResultCode::FORMERR => 1,
            ResultCode::SERVFAIL => 2,
            ResultCode::NXDOMAIN => 3,
            ResultCode::NOTIMP => 4,
            ResultCode::REFUSED => 5,
            ResultCode::YXDOMAIN => 6,
            ResultCode::YXRRSET => 7,
            ResultCode::NXRRSET => 8,
            ResultCode::NOTAUTH => 9,
            ResultCode::NOTZONE => 10,
            ResultCode::OTHER(n) => n,
        }
    }

    /// The code with the number `num`.
    pub open spec fn of(num: u8) -> ResultCode {
        if num == 0 {
            ResultCode::NOERROR
        } else if num == 1 {
            ResultCode::FORMERR
        } else if num == 2 {
            ResultCode::SERVFAIL
        } else if num == 3 {
            ResultCode::NXDOMAIN
        } else if num == 4 {
            ResultCode::NOTIMP
        } else if num == 5 {
            ResultCode::REFUSED
        } else if num == 6 {
            ResultCode::YXDOMAIN
        } else if num == 7 {
            ResultCode::YXRRSET
        } else if num == 8 {
            ResultCode::NXRRSET
        } else if num == 9 {
            ResultCode::NOTAUTH
        } else if num == 10 {
            ResultCode::NOTZONE
        } else {
            ResultCode::OTHER(num)
        }
    }

    /// The code is what a header can carry and what reading a header gives:
    /// a number kept as such is none of the named ones and fits in four bits.
    pub open spec fn valid(self) -> bool {
        self matches ResultCode::OTHER(n) ==> 11 <= n <= 15
    }

    /// The number of the code.
    pub fn to_num(&self) -> (num: u8)
        ensures
            num == self.code(),
    {
        match *self {
            ResultCode::NOERROR => 0,
            ResultCode::FORMERR => 1,
            ResultCode::SERVFAIL => 2,
            ResultCode::NXDOMAIN => 3,
            ResultCode::NOTIMP => 4,
            ResultCode::REFUSED => 5,
            ResultCode::YXDOMAIN => 6,
            ResultCode::YXRRSET => 7,
            ResultCode::NXRRSET => 8,
            ResultCode::NOTAUTH => 9,
            ResultCode::NOTZONE => 10,
            ResultCode::OTHER(n) => n,
        }
    }

    /// The code with the number `num`.
    pub fn from_num(num: u8) -> (code: ResultCode)
        ensures
            code == ResultCode::of(num),
    {
        match num {
            0 => ResultCode::NOERROR,
            1 => ResultCode::FORMERR,
            2 => ResultCode::SERVFAIL,
            3 => ResultCode::NXDOMAIN,
            4 => ResultCode::NOTIMP,
            5 => ResultCode::REFUSED,
            6 => ResultCode::YXDOMAIN,
            7 => ResultCode::YXRRSET,
            8 => ResultCode::NXRRSET,
            9 => ResultCode::NOTAUTH,
            10 => ResultCode::NOTZONE,
            _ => ResultCode::OTHER(num),
        }
    }
}

/// The header of a message. The four counts are written and read as they
/// stand: nothing here holds them to the sections that follow.
#[derive(Copy, Clone, Debug, PartialEq, Eq, Structural)]
pub struct DnsHeader {
    pub id: u16,
    pub recursion_desired: bool,
    pub truncated_message: bool,
    pub authoritative_answer: bool,
    pub opcode: u8,
    pub response: bool,
    pub rescode: ResultCode,
    pub checking_disabled: bool,
    pub authed_data: bool,
    pub z: bool,
    pub recursion_available: bool,
    pub questions: u16,
    pub answers: u16,
    pub authoritative_entries: u16,
    pub resource_entries: u16,
}

/// The weight of a flag bit that is set, and nothing for one that is not.
pub open spec fn bit(set: bool, weight: int) -> int {
    if set {
        weight
    } else {
        0
    }
}

/// Whether the bit of weight `weight` is set in `flags`.
pub open spec fn has_bit(flags: u16, weight: int) -> bool {
    flags as int / weight % 2 == 1
}

impl DnsHeader {
    /// The header has an opcode of four bits and a result code that a header
    /// can carry.
    pub open spec fn valid(self) -> bool {
        self.opcode < 16 && self.rescode.valid()
    }

    /// The sixteen flag bits, from the highest down: response, four bits of
    /// opcode, authoritative answer, truncation, recursion desired, recursion
    /// available, z, authenticated data, checking disabled, four bits of
    /// result code. Of an opcode or a result code of more than four bits the
    /// lowest four are taken.
    pub open spec fn flags(self) -> u16 {
        (bit(self.response, 0x8000) + (self.opcode % 16) * 0x800 + bit(
            self.authoritative_answer,
            0x400,
        ) + bit(self.truncated_message, 0x200) + bit(self.recursion_desired, 0x100) + bit(
            self.recursion_available,
            0x80,
        ) + bit(self.z, 0x40) + bit(self.authed_data, 0x20) + bit(self.checking_disabled, 0x10)
            + self.rescode.code() % 16) as u16
    }

    /// The twelve bytes of the header.
    pub open spec fn wire(self) -> Seq<u8> {
        u16_bytes(self.id) + u16_bytes(self.flags()) + u16_bytes(self.questions) + u16_bytes(
            self.answers,
        ) + u16_bytes(self.authoritative_entries) + u16_bytes(self.resource_entries)
    }

    /// The header that the twelve bytes from `pos` on stand for.
    pub open spec fn at(bytes: Seq<u8>, pos: int) -> DnsHeader {
        let flags = u16_at(bytes, pos + 2);
        DnsHeader {
            id: u16_at(bytes, pos),
            response: has_bit(flags, 0x8000),
            opcode: (flags / 0x800 % 16) as u8,
            authoritative_answer: has_bit(flags, 0x400),
            truncated_message: has_bit(flags, 0x200),
            recursion_desired: has_bit(flags, 0x100),
            recursion_available: has_bit(flags, 0x80),
            z: has_bit(flags, 0x40),
            authed_data: has_bit(flags, 0x20),
            checking_disabled: has_bit(flags, 0x10),
            rescode: ResultCode::of((flags % 16) as u8),
            questions: u16_at(bytes, pos + 4),
            answers: u16_at(bytes, pos + 6),
            authoritative_entries: u16_at(bytes, pos + 8),
            resource_entries: u16_at(bytes, pos + 10),
        }
    }

    /// The header with the id, the opcode and the flags of `other`, and its
    /// own result code and counts.
    pub open spec fn with_flags_of(self, other: DnsHeader) -> DnsHeader {
        DnsHeader {
            rescode: self.rescode,
            questions: self.questions,
            answers: self.answers,
            authoritative_entries: self.authoritative_entries,
            resource_entries: self.resource_entries,
            ..other
        }
    }

    /// The header of an empty query: every flag down, every number zero.
    pub open spec fn zeroed() -> DnsHeader {
        DnsHeader {
            id: 0,
            recursion_desired: false,
            truncated_message: false,
            authoritative_answer: false,
            opcode: 0,
            response: false,
            rescode: ResultCode::NOERROR,
            checking_disabled: false,
            authed_data: false,
            z: false,
            recursion_available: false,
            questions: 0,
            answers: 0,
            authoritative_entries: 0,
            resource_entries: 0,
        }
    }

    /// The header of an empty query.
    pub fn new() -> (header: DnsHeader)
        ensures
            header == DnsHeader::zeroed(),
    {
        DnsHeader {
            id: 0,
            recursion_desired: false,
            truncated_message: false,
            authoritative_answer: false,
            opcode: 0,
            response: false,
            rescode: ResultCode::NOERROR,
            checking_disabled: false,
            authed_data: false,
            z: false,
            recursion_available: false,
            questions: 0,
            answers: 0,
            authoritative_entries: 0,
            resource_entries: 0,
        }
    }

    /// Reads a header at the cursor.
    pub fn read(buffer: &mut BytePacketBuffer) -> (res: Result<DnsHeader, DnsError>)
        ensures
            final(buffer)@ == old(buffer)@.advance(12),
            res == if old(buffer)@.fits(12) {
                Ok::<DnsHeader, DnsError>(DnsHeader::at(old(buffer)@.bytes, old(buffer)@.pos))
            } else {
                Err::<DnsHeader, DnsError>(DnsError::EndOfBuffer)
            },
    {
        let id = buffer.read_u16()?;
        let flags = buffer.read_u16()?;
        let questions = buffer.read_u16()?;
        let answers = buffer.read_u16()?;
        let authoritative_entries = buffer.read_u16()?;
        let resource_entries = buffer.read_u16()?;
        proof {
            assert(((flags & 0x8000) != 0) == (flags / 0x8000 % 2 == 1) && ((flags & 0x0400) != 0)
                == (flags / 0x400 % 2 == 1) && ((flags & 0x0200) != 0) == (flags / 0x200 % 2 == 1)
                && ((flags & 0x0100) != 0) == (flags / 0x100 % 2 == 1) && ((flags & 0x0080) != 0)
                == (flags / 0x80 % 2 == 1) && ((flags & 0x0040) != 0) == (flags / 0x40 % 2 == 1)
                && ((flags & 0x0020) != 0) == (flags / 0x20 % 2 == 1) && ((flags & 0x0010) != 0)
                == (flags / 0x10 % 2 == 1) && ((flags >> 11) & 0x0F) == flags / 0x800 % 16 && (
            flags & 0x0F) == flags % 16) by (bit_vector);
        }
        Ok(
            DnsHeader {
                id,
                response: (flags & 0x8000) != 0,
                opcode: ((flags >> 11) & 0x0F) as u8,
                authoritative_answer: (flags & 0x0400) != 0,
                truncated_message: (flags & 0x0200) != 0,
                recursion_desired: (flags & 0x0100) != 0,
                recursion_available: (flags & 0x0080) != 0,
                z: (flags & 0x0040) != 0,
                authed_data: (flags & 0x0020) != 0,
                checking_disabled: (flags & 0x0010) != 0,
                rescode: ResultCode::from_num((flags & 0x0F) as u8),
                questions,
                answers,
                authoritative_entries,
                resource_entries,
            },
        )
    }

    /// The flag bits as one number.
    fn pack_flags(&self) -> (flags: u16)
        ensures
            flags == self.flags(),
    {
        let r = mask_if(self.response, 0x8000);
        let o = ((self.opcode & 0x0F) as u16) << 11;
        let aa = mask_if(self.authoritative_answer, 0x0400);
        let tc = mask_if(self.truncated_message, 0x0200);
        let rd = mask_if(self.recursion_desired, 0x0100);
        let ra = mask_if(self.recursion_available, 0x0080);
        let z = mask_if(self.z, 0x0040);
        let ad = mask_if(self.authed_data, 0x0020);
        let cd = mask_if(self.checking_disabled, 0x0010);
        let rc = (self.rescode.to_num() & 0x0F) as u16;
        proof {
            let op = self.opcode;
            let code = self.rescode.code();
            assert(((op & 0x0F) as u16) << 11 == (op % 16) * 0x800 && (((op & 0x0F) as u16) << 11)
                & 0x87FF == 0) by (bit_vector);
            assert((code & 0x0F) as u16 == code % 16 && ((code & 0x0F) as u16) & 0xFFF0 == 0)
                by (bit_vector);
            assert(r | o | aa | tc | rd | ra | z | ad | cd | rc == r + o + aa + tc + rd + ra + z
                + ad + cd + rc) by (bit_vector)
                requires
                    r == 0 || r == 0x8000,
                    o & 0x87FF == 0,
                    aa == 0 || aa == 0x0400,
                    tc == 0 || tc == 0x0200,
                    rd == 0 || rd == 0x0100,
                    ra == 0 || ra == 0x0080,
                    z == 0 || z == 0x0040,
                    ad == 0 || ad == 0x0020,
                    cd == 0 || cd == 0x0010,
                    rc & 0xFFF0 == 0,
            ;
        }
        r | o | aa | tc | rd | ra | z | ad | cd | rc
    }

    /// Writes the header at the cursor.
    pub fn write(&self, buffer: &mut BytePacketBuffer) -> (res: Result<(), DnsError>)
        ensures
            final(buffer)@ == old(buffer)@.put(self.wire()),
            res == if old(buffer)@.fits(12) {
                Ok::<(), DnsError>(())
            } else {
                Err::<(), DnsError>(DnsError::EndOfBuffer)
            },
    {
        buffer.write_u16(self.id)?;
        buffer.write_u16(self.pack_flags())?;
        buffer.write_u16(self.questions)?;
        buffer.write_u16(self.answers)?;
        buffer.write_u16(self.authoritative_entries)?;
        buffer.write_u16(self.resource_entries)?;
        Ok(())
    }
}

/// The two bytes of a number read as they were written.
pub proof fn lemma_u16_round_trip(val: u16)
    ensures
        u16_at(u16_bytes(val), 0) == val,
{
}

/// Ten fields that are added up at their places in sixteen bits can be read
/// off the sum.
proof fn lemma_unpack_sum(
    r: u16,
    op: u16,
    aa: u16,
    tc: u16,
    rd: u16,
    ra: u16,
    z: u16,
    ad: u16,
    cd: u16,
    rc: u16,
    f: u16,
)
    by (bit_vector)
    requires
        r == 0 || r == 0x8000,
        op < 16,
        aa == 0 || aa == 0x400,
        tc == 0 || tc == 0x200,
        rd == 0 || rd == 0x100,
        ra == 0 || ra == 0x80,
        z == 0 || z == 0x40,
        ad == 0 || ad == 0x20,
        cd == 0 || cd == 0x10,
        rc < 16,
        f == r + op * 0x800 + aa + tc + rd + ra + z + ad + cd + rc,
    ensures
        (f / 0x8000 % 2 == 1) == (r != 0),
        f / 0x800 % 16 == op,
        (f / 0x400 % 2 == 1) == (aa != 0),
        (f / 0x200 % 2 == 1) == (tc != 0),
        (f / 0x100 % 2 == 1) == (rd != 0),
        (f / 0x80 % 2 == 1) == (ra != 0),
        (f / 0x40 % 2 == 1) == (z != 0),
        (f / 0x20 % 2 == 1) == (ad != 0),
        (f / 0x10 % 2 == 1) == (cd != 0),
        f % 16 == rc,
{
}

/// A result code that a header can carry is found again by its number.
pub proof fn lemma_code_round_trip(code: ResultCode)
    requires
        code.valid(),
    ensures
        code.code() < 16,
        ResultCode::of(code.code()) == code,
{
}

/// The flag bits of a valid header give back its flags, its opcode and its
/// result code.
pub proof fn lemma_flags_round_trip(header: DnsHeader)
    requires
        header.valid(),
    ensures
        has_bit(header.flags(), 0x8000) == header.response,
        header.flags() / 0x800 % 16 == header.opcode,
        has_bit(header.flags(), 0x400) == header.authoritative_answer,
        has_bit(header.flags(), 0x200) == header.truncated_message,
        has_bit(header.flags(), 0x100) == header.recursion_desired,
        has_bit(header.flags(), 0x80) == header.recursion_available,
        has_bit(header.flags(), 0x40) == header.z,
        has_bit(header.flags(), 0x20) == header.authed_data,
        has_bit(header.flags(), 0x10) == header.checking_disabled,
        ResultCode::of((header.flags() % 16) as u8) == header.rescode,
{
    lemma_code_round_trip(header.rescode);
    let r = bit(header.response, 0x8000) as u16;
    let op = header.opcode as u16;
    let aa = bit(header.authoritative_answer, 0x400) as u16;
    let tc = bit(header.truncated_message, 0x200) as u16;
    let rd = bit(header.recursion_desired, 0x100) as u16;
    let ra = bit(header.recursion_available, 0x80) as u16;
    let z = bit(header.z, 0x40) as u16;
    let ad = bit(header.authed_data, 0x20) as u16;
    let cd = bit(header.checking_disabled, 0x10) as u16;
    let rc = header.rescode.code() as u16;
    let f = header.flags();
    lemma_unpack_sum(r, op, aa, tc, rd, ra, z, ad, cd, rc, f);
}

/// A header that is written where twelve bytes are free, and read again at the
/// same place, comes back as it was: every flag, the opcode, the result code,
/// the id and the four counts.
pub proof fn lemma_header_round_trip(header: DnsHeader, buffer: BufferView)
    requires
        header.valid(),
        buffer.wf(),
        buffer.fits(12),
    ensures
        buffer.put(header.wire()).pos == buffer.pos + 12,
        DnsHeader::at(buffer.put(header.wire()).bytes, buffer.pos) == header,
{
    let wire = header.wire();
    let after = buffer.put(wire).bytes;
    let pos = buffer.pos;
    assert(wire.len() == 12);
    assert forall|i: int| 0 <= i < 12 implies after[pos + i] == #[trigger] wire[i] by {}
    assert(u16_at(after, pos) == header.id) by {
        assert(after[pos] == wire[0] && after[pos + 1] == wire[1]);
    }
    assert(u16_at(after, pos + 2) == header.flags()) by {
        assert(after[pos + 2] == wire[2] && after[pos + 3] == wire[3]);
    }
    assert(u16_at(after, pos + 4) == header.questions) by {
        assert(after[pos + 4] == wire[4] && after[pos + 5] == wire[5]);
    }
    assert(u16_at(after, pos + 6) == header.answers) by {
        assert(after[pos + 6] == wire[6] && after[pos + 7] == wire[7]);
    }
    assert(u16_at(after, pos + 8) == header.authoritative_entries) by {
        assert(after[pos + 8] == wire[8] && after[pos + 9] == wire[9]);
    }
    assert(u16_at(after, pos + 10) == header.resource_entries) by {
        assert(after[pos + 10] == wire[10] && after[pos + 11] == wire[11]);
    }
    lemma_flags_round_trip(header);
}

/// `mask` where `set` holds, and zero where it does not.
fn mask_if(set: bool, mask: u16) -> (bits: u16)
    ensures
        bits == bit(set, mask as int),
{
    if set {
        mask
    } else {
        0
    }
}

} // verus!
