//! The packet buffer: 512 bytes, the most that a message over UDP may have,
//! and a cursor. Everything else reads and writes messages through it.
//!
//! A reader that fails leaves the cursor where the failing step left it, and
//! a writer that fails leaves in the buffer what it wrote up to there. The
//! contracts say so through [`BufferView::advance`] and [`BufferView::put`].

use crate::error::DnsError;
use crate::name::{
    labels_wire, lemma_split_label, lowercase_of, name_wire, read_name, split_from, text_of_bytes,
    DOT, MAX_JUMPS, MAX_LABEL_LEN,
};
use vstd::prelude::*;
use vstd::slice::slice_subrange;
use vstd::string::{StringExecFns, StringSliceAdditionalSpecFns};

verus! {

/// What a packet buffer holds: its 512 bytes and the cursor.
#[verifier::ext_equal]
pub struct BufferView {
    pub bytes: Seq<u8>,
    pub pos: int,
}

impl BufferView {
    /// What holds of the view of every buffer: it has 512 bytes, and its
    /// cursor is not negative.
    pub open spec fn wf(self) -> bool {
        self.bytes.len() == 512 && 0 <= self.pos
    }

    /// The bytes that lie between the cursor and the end of the buffer.
    pub open spec fn room(self) -> int {
        if self.pos <= 512 {
            512 - self.pos
        } else {
            0
        }
    }

    /// `n` more bytes can be read or written at the cursor.
    pub open spec fn fits(self, n: int) -> bool {
        n <= self.room()
    }

    /// The cursor moved to `pos`, whatever `pos` is.
    pub open spec fn at(self, pos: int) -> BufferView {
        BufferView { bytes: self.bytes, pos }
    }

    /// The buffer after `n` bytes were read one by one: the cursor stops at
    /// the end of the buffer when fewer than `n` are left.
    pub open spec fn advance(self, n: int) -> BufferView {
        if n <= self.room() {
            self.at(self.pos + n)
        } else {
            self.at(self.pos + self.room())
        }
    }

    /// The buffer after the bytes of `w` were written one by one: those that
    /// find room are stored at the cursor, the others are lost.
    pub open spec fn put(self, w: Seq<u8>) -> BufferView {
        let k = if w.len() <= self.room() {
            w.len() as int
        } else {
            self.room()
        };
        BufferView {
            bytes: Seq::new(
                512,
                |i: int|
                    if self.pos <= i < self.pos + k {
                        w[i - self.pos]
                    } else {
                        self.bytes[i]
                    },
            ),
            pos: self.pos + k,
        }
    }
}

/// What a writer sends to the buffer.
pub struct Wire {
    /// The bytes, in the order in which they are written.
    pub bytes: Seq<u8>,
    /// Whether these are all there is to write. They are not where a label of
    /// a name is too long: writing stops in front of that label.
    pub complete: bool,
}

impl Wire {
    /// Bytes that are written without any condition.
    pub open spec fn whole(bytes: Seq<u8>) -> Wire {
        Wire { bytes, complete: true }
    }

    /// What is sent by a writer that goes on with `next` once `self` is done.
    pub open spec fn followed_by(self, next: Wire) -> Wire {
        if self.complete {
            Wire { bytes: self.bytes + next.bytes, complete: next.complete }
        } else {
            self
        }
    }
}

/// What a reader makes of the bytes at the cursor.
pub struct Decoded<T> {
    /// Where the cursor is left.
    pub cursor: int,
    /// What is returned.
    pub result: Result<T, DnsError>,
}

impl BufferView {
    /// How writing `wire` at the cursor ends: with `EndOfBuffer` where the
    /// bytes do not find room, else with `LabelTooLong` where they stop in
    /// front of such a label.
    pub open spec fn outcome(self, wire: Wire) -> Result<(), DnsError> {
        if !self.fits(wire.bytes.len() as int) {
            Err(DnsError::EndOfBuffer)
        } else if !wire.complete {
            Err(DnsError::LabelTooLong)
        } else {
            Ok(())
        }
    }
}

/// The 16-bit big-endian number stored at `at`.
pub open spec fn u16_at(bytes: Seq<u8>, at: int) -> u16 {
    (bytes[at] as int * 0x100 + bytes[at + 1] as int) as u16
}

/// The 32-bit big-endian number stored at `at`.
pub open spec fn u32_at(bytes: Seq<u8>, at: int) -> u32 {
    (bytes[at] as int * 0x100_0000 + bytes[at + 1] as int * 0x1_0000 + bytes[at + 2] as int * 0x100
        + bytes[at + 3] as int) as u32
}

/// The two bytes of `val`, high byte first.
pub open spec fn u16_bytes(val: u16) -> Seq<u8> {
    seq![(val / 0x100) as u8, (val % 0x100) as u8]
}

/// The four bytes of `val`, highest byte first.
pub open spec fn u32_bytes(val: u32) -> Seq<u8> {
    seq![
        (val / 0x100_0000) as u8,
        (val / 0x1_0000 % 0x100) as u8,
        (val / 0x100 % 0x100) as u8,
        (val % 0x100) as u8,
    ]
}

/// A packet of at most 512 bytes with a cursor. Reads, writes and peeks are
/// checked against the end of the buffer; `step` and `seek` move the cursor
/// without a check, and a cursor past the end shows at the next read or write.
pub struct BytePacketBuffer {
    buf: [u8; 512],
    pos: usize,
}

impl View for BytePacketBuffer {
    type V = BufferView;

    closed spec fn view(&self) -> BufferView {
        BufferView { bytes: self.buf@, pos: self.pos as int }
    }
}

impl BytePacketBuffer {
    /// Every buffer holds 512 bytes and a cursor that is a machine number.
    pub broadcast proof fn lemma_view_bounds(&self)
        ensures
            (#[trigger] self@).wf(),
            self@.pos <= usize::MAX,
    {
    }

    /// A buffer of zeros with the cursor at the start.
    pub fn new() -> (b: BytePacketBuffer)
        ensures
            b@.pos == 0,
            b@.bytes == Seq::new(512, |i: int| 0u8),
    {
        BytePacketBuffer { buf: [0;512], pos: 0 }
    }

    /// A buffer that starts with the first 512 bytes of `data`, filled up with
    /// zeros, with the cursor at the start.
    pub fn from_bytes(data: &[u8]) -> (b: BytePacketBuffer)
        ensures
            b@.pos == 0,
            b@.bytes == Seq::new(
                512,
                |i: int|
                    if i < data@.len() {
                        data@[i]
                    } else {
                        0u8
                    },
            ),
    {
        let mut buf: [u8; 512] = [0;512];
        let n: usize = if data.len() < 512 {
            data.len()
        } else {
            512
        };
        let mut i: usize = 0;
        while i < n
            invariant
                i <= n <= 512,
                n <= data@.len(),
                forall|j: int| 0 <= j < i ==> buf@[j] == data@[j],
                forall|j: int| i <= j < 512 ==> buf@[j] == 0u8,
            decreases n - i,
        {
            buf[i] = data[i];
            i += 1;
        }
        BytePacketBuffer { buf, pos: 0 }
    }

    /// The cursor.
    pub fn pos(&self) -> (p: usize)
        ensures
            p == self@.pos,
    {
        self.pos
    }

    /// The bytes in front of the cursor: what was written so far. A cursor
    /// past the end of the buffer gives the whole buffer.
    pub fn written(&self) -> (out: &[u8])
        ensures
            self@.pos <= 512 ==> out@ == self@.bytes.subrange(0, self@.pos),
            self@.pos > 512 ==> out@ == self@.bytes,
    {
        let end: usize = if self.pos <= 512 {
            self.pos
        } else {
            512
        };
        let out = &self.buf[0..end];
        out
    }

    /// Moves the cursor forward by `steps`, unchecked against the end of the
    /// buffer.
    pub fn step(&mut self, steps: usize) -> (res: Result<(), DnsError>)
        requires
            old(self)@.pos + steps <= usize::MAX,
        ensures
            res is Ok,
            final(self)@ == old(self)@.at(old(self)@.pos + steps),
    {
        self.pos += steps;
        Ok(())
    }

    /// Puts the cursor at `pos`, unchecked against the end of the buffer.
    pub fn seek(&mut self, pos: usize) -> (res: Result<(), DnsError>)
        ensures
            res is Ok,
            final(self)@ == old(self)@.at(pos as int),
    {
        self.pos = pos;
        Ok(())
    }

    /// Reads the byte at the cursor and moves the cursor past it.
    pub fn read(&mut self) -> (res: Result<u8, DnsError>)
        ensures
            final(self)@ == old(self)@.advance(1),
            res == if old(self)@.fits(1) {
                Ok::<u8, DnsError>(old(self)@.bytes[old(self)@.pos])
            } else {
                Err::<u8, DnsError>(DnsError::EndOfBuffer)
            },
    {
        if self.pos >= 512 {
            return Err(DnsError::EndOfBuffer);
        }
        let res = self.buf[self.pos];
        self.pos += 1;
        Ok(res)
    }

    /// The byte at `pos`; the cursor stays.
    pub fn get(&self, pos: usize) -> (res: Result<u8, DnsError>)
        ensures
            res == if pos < 512 {
                Ok::<u8, DnsError>(self@.bytes[pos as int])
            } else {
                Err::<u8, DnsError>(DnsError::EndOfBuffer)
            },
    {
        if pos >= 512 {
            return Err(DnsError::EndOfBuffer);
        }
        Ok(self.buf[pos])
    }

    /// The `len` bytes from `start` on; the cursor stays. A range that reaches
    /// the last byte of the buffer is refused like one that runs past it.
    pub fn get_range(&self, start: usize, len: usize) -> (res: Result<&[u8], DnsError>)
        ensures
            start + len >= 512 <==> res is Err,
            res matches Err(e) ==> e == DnsError::EndOfBuffer,
            res matches Ok(out) ==> out@ == self@.bytes.subrange(start as int, start + len),
    {
        if start >= 512 || len >= 512 - start {
            return Err(DnsError::EndOfBuffer);
        }
        Ok(&self.buf[start..start + len])
    }

    /// Reads two bytes as a big-endian number.
    pub fn read_u16(&mut self) -> (res: Result<u16, DnsError>)
        ensures
            final(self)@ == old(self)@.advance(2),
            res == if old(self)@.fits(2) {
                Ok::<u16, DnsError>(u16_at(old(self)@.bytes, old(self)@.pos))
            } else {
                Err::<u16, DnsError>(DnsError::EndOfBuffer)
            },
    {
        let hi = self.read()?;
        let lo = self.read()?;
        let res = ((hi as u16) << 8) | (lo as u16);
        assert(((hi as u16) << 8) | (lo as u16) == hi as u16 * 0x100 + lo as u16) by (bit_vector);
        Ok(res)
    }

    /// Reads four bytes as a big-endian number.
    pub fn read_u32(&mut self) -> (res: Result<u32, DnsError>)
        ensures
            final(self)@ == old(self)@.advance(4),
            res == if old(self)@.fits(4) {
                Ok::<u32, DnsError>(u32_at(old(self)@.bytes, old(self)@.pos))
            } else {
                Err::<u32, DnsError>(DnsError::EndOfBuffer)
            },
    {
        let b0 = self.read()?;
        let b1 = self.read()?;
        let b2 = self.read()?;
        let b3 = self.read()?;
        let res = ((b0 as u32) << 24) | ((b1 as u32) << 16) | ((b2 as u32) << 8) | (b3 as u32);
        assert(((b0 as u32) << 24) | ((b1 as u32) << 16) | ((b2 as u32) << 8) | (b3 as u32)
            == b0 as u32 * 0x100_0000 + b1 as u32 * 0x1_0000 + b2 as u32 * 0x100 + b3 as u32)
            by (bit_vector);
        Ok(res)
    }

    /// Reads the name at the cursor and appends it to `outstr`, its labels in
    /// lower case and joined by full stops. Pointers are followed, five of them
    /// at most. The cursor ends behind the name as it stands at the cursor:
    /// behind its first pointer where it has one, else behind its closing zero.
    pub fn read_qname(&mut self, outstr: &mut String) -> (res: Result<(), DnsError>)
        ensures
            ({
                let r = read_name(old(self)@.bytes, old(self)@.pos, 0, true);
                &&& final(self)@ == old(self)@.at(
                    match r.cursor {
                        Some(p) => p,
                        None => old(self)@.pos,
                    },
                )
                &&& final(outstr)@ == old(outstr)@ + r.text
                &&& res == match r.error {
                    None => Ok::<(), DnsError>(()),
                    Some(e) => Err::<(), DnsError>(e),
                }
            }),
    {
        let mut pos: usize = self.pos();
        let mut jumped = false;
        let mut jumps_performed: usize = 0;
        let mut first = true;
        let ghost bytes = self@.bytes;
        let ghost whole = read_name(bytes, self@.pos, 0, true);
        loop
            invariant_except_break
                ({
                    let r = read_name(bytes, pos as int, jumps_performed as nat, first);
                    &&& outstr@ + r.text == old(outstr)@ + whole.text
                    &&& whole.error == r.error
                    &&& whole.cursor == if jumped {
                        Some(self@.pos)
                    } else {
                        r.cursor
                    }
                }),
            invariant
                bytes == old(self)@.bytes,
                whole == read_name(bytes, old(self)@.pos, 0, true),
                self@.bytes == bytes,
                !jumped ==> self@.pos == old(self)@.pos,
                jumps_performed <= 6,
            ensures
                outstr@ == old(outstr)@ + whole.text,
                whole.error is None,
                whole.cursor == if jumped {
                    Some(self@.pos)
                } else {
                    Some(pos as int)
                },
            decreases
                6 - jumps_performed,
                if pos < 512 {
                    512 - pos
                } else {
                    0
                },
        {
            if jumps_performed > MAX_JUMPS {
                return Err(DnsError::JumpLimitExceeded);
            }
            let len = self.get(pos)?;
            assert((len & 0xC0) == 0xC0 <==> len >= 0xC0) by (bit_vector);
            if (len & 0xC0) == 0xC0 {
                if !jumped {
                    self.seek(pos + 2)?;
                }
                let b2 = self.get(pos + 1)? as u16;
                let offset = (((len as u16) ^ 0xC0) << 8) | b2;
                assert((((len as u16) ^ 0xC0) << 8) | b2 == (len - 0xC0) * 0x100 + b2) by (bit_vector)
                    requires
                        len >= 0xC0,
                        b2 < 0x100,
                ;
                pos = offset as usize;
                jumped = true;
                jumps_performed += 1;
            } else {
                pos += 1;
                if len == 0 {
                    break ;
                }
                if !first {
                    outstr.append(".");
                    proof {
                        reveal_strlit(".");
                    }
                }
                let str_buffer = self.get_range(pos, len as usize)?;
                let raw = text_of_bytes(str_buffer);
                let label = lowercase_of(raw.as_str());
                outstr.append(label.as_str());
                first = false;
                pos += len as usize;
            }
        }
        if !jumped {
            self.seek(pos)?;
        }
        Ok(())
    }

    /// Stores `val` at the cursor and moves the cursor past it.
    pub fn write(&mut self, val: u8) -> (res: Result<(), DnsError>)
        ensures
            final(self)@ == old(self)@.put(seq![val]),
            res == if old(self)@.fits(1) {
                Ok::<(), DnsError>(())
            } else {
                Err::<(), DnsError>(DnsError::EndOfBuffer)
            },
    {
        if self.pos >= 512 {
            return Err(DnsError::EndOfBuffer);
        }
        self.buf[self.pos] = val;
        self.pos += 1;
        Ok(())
    }

    /// Writes one byte.
    pub fn write_u8(&mut self, val: u8) -> (res: Result<(), DnsError>)
        ensures
            final(self)@ == old(self)@.put(seq![val]),
            res == if old(self)@.fits(1) {
                Ok::<(), DnsError>(())
            } else {
                Err::<(), DnsError>(DnsError::EndOfBuffer)
            },
    {
        self.write(val)?;
        Ok(())
    }

    /// Writes `val` as two bytes, high byte first.
    pub fn write_u16(&mut self, val: u16) -> (res: Result<(), DnsError>)
        ensures
            final(self)@ == old(self)@.put(u16_bytes(val)),
            res == if old(self)@.fits(2) {
                Ok::<(), DnsError>(())
            } else {
                Err::<(), DnsError>(DnsError::EndOfBuffer)
            },
    {
        let hi = (val >> 8) as u8;
        let lo = (val & 0xFF) as u8;
        proof {
            assert((val >> 8) == val / 0x100 && (val & 0xFF) == val % 0x100) by (bit_vector);
        }
        self.write(hi)?;
        self.write(lo)?;
        Ok(())
    }

    /// Writes `val` as four bytes, highest byte first.
    pub fn write_u32(&mut self, val: u32) -> (res: Result<(), DnsError>)
        ensures
            final(self)@ == old(self)@.put(u32_bytes(val)),
            res == if old(self)@.fits(4) {
                Ok::<(), DnsError>(())
            } else {
                Err::<(), DnsError>(DnsError::EndOfBuffer)
            },
    {
        let b0 = ((val >> 24) & 0xFF) as u8;
        let b1 = ((val >> 16) & 0xFF) as u8;
        let b2 = ((val >> 8) & 0xFF) as u8;
        let b3 = ((val >> 0) & 0xFF) as u8;
        proof {
            assert(((val >> 24) & 0xFF) == val / 0x100_0000 && ((val >> 16) & 0xFF) == val
                / 0x1_0000 % 0x100 && ((val >> 8) & 0xFF) == val / 0x100 % 0x100 && ((val >> 0)
                & 0xFF) == val % 0x100) by (bit_vector);
        }
        self.write(b0)?;
        self.write(b1)?;
        self.write(b2)?;
        self.write(b3)?;
        Ok(())
    }
}

impl BytePacketBuffer {
    /// Writes the bytes of `data` one after the other.
    fn write_bytes(&mut self, data: &[u8]) -> (res: Result<(), DnsError>)
        ensures
            final(self)@ == old(self)@.put(data@),
            res == if old(self)@.fits(data@.len() as int) {
                Ok::<(), DnsError>(())
            } else {
                Err::<(), DnsError>(DnsError::EndOfBuffer)
            },
    {
        let mut i: usize = 0;
        while i < data.len()
            invariant
                i <= data@.len(),
                self@ == old(self)@.put(data@.subrange(0, i as int)),
                old(self)@.fits(i as int),
            decreases data@.len() - i,
        {
            self.write_u8(data[i])?;
            i += 1;
        }
        Ok(())
    }

    /// Writes `qname` as a run of labels: the name is cut at its full stops,
    /// each piece is written behind its length, and a zero octet closes the
    /// name. No pointer is ever written. A piece of more than 63 bytes is
    /// refused; what stands in front of it has been written by then.
    pub fn write_qname(&mut self, qname: &str) -> (res: Result<(), DnsError>)
        ensures
            ({
                let wire = name_wire(qname.spec_bytes());
                &&& final(self)@ == old(self)@.put(wire.bytes)
                &&& res == old(self)@.outcome(wire)
            }),
    {
        let name = qname.as_bytes();
        let n = name.len();
        let ghost wire = name_wire(name@);
        let ghost done: Seq<u8> = seq![];
        let mut start: usize = 0;
        loop
            invariant_except_break
                start <= n,
                ({
                    let rest = labels_wire(split_from(name@, start as int, seq![]));
                    &&& wire.bytes == done + rest.bytes
                    &&& wire.complete == rest.complete
                }),
            invariant
                n == name@.len(),
                name@ == qname.spec_bytes(),
                wire == name_wire(name@),
                self@ == old(self)@.put(done),
                old(self)@.fits(done.len() as int),
            ensures
                wire.bytes == done + seq![0u8],
                wire.complete,
            decreases n - start,
        {
            let mut end: usize = start;
            while end < n && name[end] != DOT
                invariant
                    start <= end <= n,
                    n == name@.len(),
                    forall|i: int| start <= i < end ==> name@[i] != DOT,
                decreases n - end,
            {
                end += 1;
            }
            let ghost label = name@.subrange(start as int, end as int);
            let ghost tail = if end == n {
                Seq::<Seq<u8>>::empty()
            } else {
                split_from(name@, end + 1, seq![])
            };
            let ghost rest = labels_wire(tail);
            proof {
                lemma_split_label(name@, start as int, start as int, end as int);
                assert(name@.subrange(start as int, start as int) =~= Seq::<u8>::empty());
                assert((seq![label] + tail).drop_first() =~= tail);
            }
            let len = end - start;
            if len > MAX_LABEL_LEN {
                return Err(DnsError::LabelTooLong);
            }
            self.write_u8(len as u8)?;
            self.write_bytes(slice_subrange(name, start, end))?;
            proof {
                done = done + seq![len as u8] + label;
            }
            if end == n {
                break ;
            }
            start = end + 1;
        }
        self.write_u8(0)?;
        Ok(())
    }
}

/// Writing `a` and then `b` is writing `a + b`; once `a` has run into the end
/// of the buffer, writing `b` changes nothing.
pub proof fn lemma_put_concat(v: BufferView, a: Seq<u8>, b: Seq<u8>)
    requires
        v.wf(),
    ensures
        v.put(a + b) == v.put(a).put(b),
        v.put(a).wf(),
        v.put(a).pos == v.pos + a.len() || v.put(a).pos == v.pos + v.room(),
        v.fits(a.len() as int) ==> v.put(a).pos == v.pos + a.len(),
        !v.fits(a.len() as int) ==> v.put(a).put(b) == v.put(a) && !v.put(a).fits(1),
        (v.fits(a.len() as int) && v.put(a).fits(b.len() as int)) <==> v.fits((a + b).len() as int),
{
}

/// A writer that sends `a` and, once that is done, `b`: what it leaves in the
/// buffer and how it ends follow from the two steps taken one after the other.
pub proof fn lemma_put_followed(v: BufferView, a: Wire, b: Wire)
    requires
        v.wf(),
    ensures
        v.put(a.bytes).wf(),
        v.outcome(a) is Ok ==> v.put(a.followed_by(b).bytes) == v.put(a.bytes).put(b.bytes)
            && v.outcome(a.followed_by(b)) == v.put(a.bytes).outcome(b)
            && v.put(a.bytes).pos == v.pos + a.bytes.len(),
        v.outcome(a) is Err ==> v.put(a.followed_by(b).bytes) == v.put(a.bytes) && v.outcome(
            a.followed_by(b),
        ) == v.outcome(a),
{
}

/// Reading `m` bytes and then `n` bytes is reading `m + n` bytes.
pub proof fn lemma_advance_sum(v: BufferView, m: int, n: int)
    requires
        v.wf(),
        0 <= m,
        0 <= n,
    ensures
        v.advance(m + n) == v.advance(m).advance(n),
        !v.fits(m) ==> v.advance(m).advance(n) == v.advance(m),
        (v.fits(m) && v.advance(m).fits(n)) <==> v.fits(m + n),
{
}

} // verus!
