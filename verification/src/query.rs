//! The entries of the question section: a name, a query type and the class,
//! which is always 1 (Internet) and therefore not kept.

use crate::byte_packet_buffer::{
    u16_at, u16_bytes, BufferView, BytePacketBuffer, Decoded, Wire,
};
use crate::error::DnsError;
use crate::name::{name_wire, read_name};
use crate::name_text::{
    folded, lemma_plain_text_is_written, lemma_written_text_reads, plain_text_labels, text_labels,
};
use vstd::prelude::*;
use vstd::utf8::encode_utf8;

verus! {

/// The type of a query or of a record. Only address records have a name
/// here; every other type is kept as its number.
#[allow(non_camel_case_types)]
#[derive(PartialEq, Eq, Debug, Clone, Hash, Copy, Structural)]
pub enum QueryType {
    UNKNOWN(u16),
    A,
}

impl QueryType {
    /// The number of the type.
    pub open spec fn num(self) -> u16 {
        match self {
            QueryType::UNKNOWN(num) => num,
            QueryType::A => 1,
        }
    }

    /// The type with the number `num`.
    pub open spec fn of(num: u16) -> QueryType {
        if num == 1 {
            QueryType::A
        } else {
            QueryType::UNKNOWN(num)
        }
    }

    /// The type is what reading gives: a type kept as a number has none of
    /// the numbers that have a name.
    pub open spec fn valid(self) -> bool {
        self matches QueryType::UNKNOWN(num) ==> num != 1
    }

    /// The number of the type.
    pub fn to_num(&self) -> (num: u16)
        ensures
            num == self.num(),
    {
        match *self {
            QueryType::UNKNOWN(x) => x,
            QueryType::A => 1,
        }
    }

    /// The type with the number `num`.
    pub fn from_num(num: u16) -> (qtype: QueryType)
        ensures
            qtype == QueryType::of(num),
    {
        match num {
            1 => QueryType::A,
            _ => QueryType::UNKNOWN(num),
        }
    }
}

/// One question: the name asked for, as labels joined by full stops, and the
/// type asked for.
#[derive(Debug, PartialEq, Eq)]
pub struct DnsQuestion {
    pub name: String,
    pub qtype: QueryType,
}

/// What a question holds.
pub struct QuestionView {
    pub name: Seq<char>,
    pub qtype: QueryType,
}

impl View for DnsQuestion {
    type V = QuestionView;

    open spec fn view(&self) -> QuestionView {
        QuestionView { name: self.name@, qtype: self.qtype }
    }
}

impl Clone for DnsQuestion {
    fn clone(&self) -> (copy: DnsQuestion)
        ensures
            copy == *self,
    {
        DnsQuestion { name: self.name.clone(), qtype: self.qtype }
    }
}

/// The class that every question and record is written with: Internet.
pub const CLASS_IN: u16 = 1;

/// What writing a question sends: the name, the number of the type, and the
/// class.
pub open spec fn question_wire(question: QuestionView) -> Wire {
    name_wire(encode_utf8(question.name)).followed_by(
        Wire::whole(u16_bytes(question.qtype.num()) + u16_bytes(CLASS_IN)),
    )
}

/// Reading a question at `pos`: the name, two bytes of type, and two bytes
/// of class that are passed over.
pub open spec fn read_question(bytes: Seq<u8>, pos: int) -> Decoded<QuestionView> {
    let name = read_name(bytes, pos, 0, true);
    let start = match name.cursor {
        Some(p) => p,
        None => pos,
    };
    let fixed = BufferView { bytes, pos: start };
    match name.error {
        Some(e) => Decoded { cursor: start, result: Err(e) },
        None => if fixed.fits(4) {
            Decoded {
                cursor: start + 4,
                result: Ok(
                    QuestionView { name: name.text, qtype: QueryType::of(u16_at(bytes, start)) },
                ),
            }
        } else {
            Decoded { cursor: fixed.advance(4).pos, result: Err(DnsError::EndOfBuffer) }
        },
    }
}

impl DnsQuestion {
    /// The question for `name` and `qtype`.
    pub fn new(name: String, qtype: QueryType) -> (question: DnsQuestion)
        ensures
            question.name == name,
            question.qtype == qtype,
    {
        DnsQuestion { name, qtype }
    }

    /// Reads a question at the cursor.
    pub fn read(buffer: &mut BytePacketBuffer) -> (res: Result<DnsQuestion, DnsError>)
        ensures
            ({
                let read = read_question(old(buffer)@.bytes, old(buffer)@.pos);
                &&& final(buffer)@ == old(buffer)@.at(read.cursor)
                &&& match res {
                    Ok(question) => read.result == Ok::<QuestionView, DnsError>(question@),
                    Err(e) => read.result == Err::<QuestionView, DnsError>(e),
                }
            }),
    {
        let mut name = String::new();
        buffer.read_qname(&mut name)?;
        let qtype = QueryType::from_num(buffer.read_u16()?);
        let _ = buffer.read_u16()?;
        Ok(DnsQuestion { name, qtype })
    }

    /// Writes the question at the cursor.
    pub fn write(&self, buffer: &mut BytePacketBuffer) -> (res: Result<(), DnsError>)
        ensures
            final(buffer)@ == old(buffer)@.put(question_wire(self@).bytes),
            res == old(buffer)@.outcome(question_wire(self@)),
    {
        buffer.write_qname(self.name.as_str())?;
        buffer.write_u16(self.qtype.to_num())?;
        buffer.write_u16(CLASS_IN)?;
        Ok(())
    }
}

/// Round trip of a question: a question whose name has labels of 1 to 63
/// bytes, once written where it finds room, is read back at the same place
/// with its name in lower case and its type, and the cursor ends where
/// writing ended.
pub proof fn lemma_question_round_trip(question: QuestionView, buffer: BufferView)
    requires
        buffer.wf(),
        plain_text_labels(text_labels(question.name)),
        question.qtype.valid(),
        buffer.fits(question_wire(question).bytes.len() as int),
    ensures
        question_wire(question).complete,
        read_question(buffer.put(question_wire(question).bytes).bytes, buffer.pos) == (Decoded {
            cursor: buffer.pos + question_wire(question).bytes.len(),
            result: Ok::<QuestionView, DnsError>(
                QuestionView { name: folded(question.name), qtype: question.qtype },
            ),
        }),
{
    let name = name_wire(encode_utf8(question.name));
    let wire = question_wire(question).bytes;
    let after = buffer.put(wire).bytes;
    let pos = buffer.pos;
    let n = name.bytes.len() as int;
    lemma_plain_text_is_written(question.name);
    assert(after.subrange(pos, pos + n) =~= name.bytes);
    lemma_written_text_reads(question.name, after, pos);
}

} // verus!
