//! A whole message: the header, the questions, and the three sections of
//! resource records, in the order in which they stand on the wire.

use crate::byte_packet_buffer::{lemma_put_followed, BufferView, BytePacketBuffer, Decoded, Wire};
use crate::error::DnsError;
use crate::header::DnsHeader;
use crate::query::{question_wire, read_question, DnsQuestion, QuestionView};
use crate::record::{read_record, record_wire, DnsRecord, RecordView};
use vstd::prelude::*;

verus! {

/// A message.
#[derive(Debug, PartialEq, Eq)]
pub struct DnsPacket {
    pub header: DnsHeader,
    pub questions: Vec<DnsQuestion>,
    pub answers: Vec<DnsRecord>,
    pub authorities: Vec<DnsRecord>,
    pub resources: Vec<DnsRecord>,
}

/// What a message holds.
pub struct PacketView {
    pub header: DnsHeader,
    pub questions: Seq<QuestionView>,
    pub answers: Seq<RecordView>,
    pub authorities: Seq<RecordView>,
    pub resources: Seq<RecordView>,
}

/// What a list of questions holds.
pub open spec fn questions_view(questions: Seq<DnsQuestion>) -> Seq<QuestionView> {
    questions.map_values(|q: DnsQuestion| q@)
}

/// What a list of records holds.
pub open spec fn records_view(records: Seq<DnsRecord>) -> Seq<RecordView> {
    records.map_values(|r: DnsRecord| r@)
}

impl View for DnsPacket {
    type V = PacketView;

    open spec fn view(&self) -> PacketView {
        PacketView {
            header: self.header,
            questions: questions_view(self.questions@),
            answers: records_view(self.answers@),
            authorities: records_view(self.authorities@),
            resources: records_view(self.resources@),
        }
    }
}

/// The number of entries of a section as the header states it: the lowest
/// sixteen bits of the length.
pub open spec fn count_of(len: nat) -> u16 {
    (len % 0x1_0000) as u16
}

/// The header with its four counts taken from the sections.
pub open spec fn counted(packet: PacketView) -> DnsHeader {
    DnsHeader {
        questions: count_of(packet.questions.len()),
        answers: count_of(packet.answers.len()),
        authoritative_entries: count_of(packet.authorities.len()),
        resource_entries: count_of(packet.resources.len()),
        ..packet.header
    }
}

/// What writing a list of questions sends: one after the other, as long as
/// none of them fails.
pub open spec fn questions_wire(questions: Seq<QuestionView>) -> Wire
    decreases questions.len(),
{
    if questions.len() == 0 {
        Wire::whole(seq![])
    } else {
        question_wire(questions[0]).followed_by(questions_wire(questions.drop_first()))
    }
}

/// What writing a list of records sends: one after the other, as long as
/// none of them fails.
pub open spec fn records_wire(records: Seq<RecordView>) -> Wire
    decreases records.len(),
{
    if records.len() == 0 {
        Wire::whole(seq![])
    } else {
        record_wire(records[0]).followed_by(records_wire(records.drop_first()))
    }
}

/// What writing a header and four sections sends: the header as it stands,
/// the questions, the answers, the authority records and the additional ones.
pub open spec fn sections_wire(packet: PacketView) -> Wire {
    Wire::whole(packet.header.wire()).followed_by(questions_wire(packet.questions)).followed_by(
        records_wire(packet.answers),
    ).followed_by(records_wire(packet.authorities)).followed_by(records_wire(packet.resources))
}

/// What writing a message sends: its header with the counts of the sections,
/// and the sections.
pub open spec fn packet_wire(packet: PacketView) -> Wire {
    sections_wire(PacketView { header: counted(packet), ..packet })
}

/// Reading `n` questions one after the other from `pos` on.
pub open spec fn read_questions(bytes: Seq<u8>, pos: int, n: nat) -> Decoded<Seq<QuestionView>>
    decreases n,
{
    if n == 0 {
        Decoded { cursor: pos, result: Ok(seq![]) }
    } else {
        let first = read_question(bytes, pos);
        match first.result {
            Err(e) => Decoded { cursor: first.cursor, result: Err(e) },
            Ok(question) => {
                let rest = read_questions(bytes, first.cursor, (n - 1) as nat);
                Decoded {
                    cursor: rest.cursor,
                    result: match rest.result {
                        Ok(others) => Ok(seq![question] + others),
                        Err(e) => Err(e),
                    },
                }
            },
        }
    }
}

/// Reading `n` records one after the other from `pos` on.
pub open spec fn read_records(bytes: Seq<u8>, pos: int, n: nat) -> Decoded<Seq<RecordView>>
    decreases n,
{
    if n == 0 {
        Decoded { cursor: pos, result: Ok(seq![]) }
    } else {
        let first = read_record(bytes, pos);
        match first.result {
            Err(e) => Decoded { cursor: first.cursor, result: Err(e) },
            Ok(record) => {
                let rest = read_records(bytes, first.cursor, (n - 1) as nat);
                Decoded {
                    cursor: rest.cursor,
                    result: match rest.result {
                        Ok(others) => Ok(seq![record] + others),
                        Err(e) => Err(e),
                    },
                }
            },
        }
    }
}

/// Reading a message at `pos`: the header, and then as many questions,
/// answers, authority records and additional records as its counts say.
pub open spec fn read_packet(bytes: Seq<u8>, pos: int) -> Decoded<PacketView> {
    let start = BufferView { bytes, pos };
    if !start.fits(12) {
        Decoded { cursor: start.advance(12).pos, result: Err(DnsError::EndOfBuffer) }
    } else {
        let header = DnsHeader::at(bytes, pos);
        let questions = read_questions(bytes, pos + 12, header.questions as nat);
        match questions.result {
            Err(e) => Decoded { cursor: questions.cursor, result: Err(e) },
            Ok(questions_read) => {
                let answers = read_records(bytes, questions.cursor, header.answers as nat);
                match answers.result {
                    Err(e) => Decoded { cursor: answers.cursor, result: Err(e) },
                    Ok(answers_read) => {
                        let authorities = read_records(
                            bytes,
                            answers.cursor,
                            header.authoritative_entries as nat,
                        );
                        match authorities.result {
                            Err(e) => Decoded { cursor: authorities.cursor, result: Err(e) },
                            Ok(authorities_read) => {
                                let resources = read_records(
                                    bytes,
                                    authorities.cursor,
                                    header.resource_entries as nat,
                                );
                                Decoded {
                                    cursor: resources.cursor,
                                    result: match resources.result {
                                        Err(e) => Err(e),
                                        Ok(resources_read) => Ok(
                                            PacketView {
                                                header,
                                                questions: questions_read,
                                                answers: answers_read,
                                                authorities: authorities_read,
                                                resources: resources_read,
                                            },
                                        ),
                                    },
                                }
                            },
                        }
                    },
                }
            },
        }
    }
}

/// Reads `count` questions at the cursor.
fn read_question_list(buffer: &mut BytePacketBuffer, count: u16) -> (res: Result<
    Vec<DnsQuestion>,
    DnsError,
>)
    ensures
        ({
            let read = read_questions(old(buffer)@.bytes, old(buffer)@.pos, count as nat);
            &&& final(buffer)@ == old(buffer)@.at(read.cursor)
            &&& match res {
                Ok(list) => read.result == Ok::<Seq<QuestionView>, DnsError>(
                    questions_view(list@),
                ),
                Err(e) => read.result == Err::<Seq<QuestionView>, DnsError>(e),
            }
        }),
{
    let ghost bytes = buffer@.bytes;
    let ghost whole = read_questions(bytes, buffer@.pos, count as nat);
    let mut list: Vec<DnsQuestion> = Vec::new();
    let mut i: u16 = 0;
    while i < count
        invariant
            i <= count,
            buffer@.bytes == bytes,
            bytes == old(buffer)@.bytes,
            whole == read_questions(bytes, old(buffer)@.pos, count as nat),
            ({
                let rest = read_questions(bytes, buffer@.pos, (count - i) as nat);
                &&& whole.cursor == rest.cursor
                &&& whole.result == match rest.result {
                    Ok(others) => Ok::<Seq<QuestionView>, DnsError>(
                        questions_view(list@) + others,
                    ),
                    Err(e) => Err::<Seq<QuestionView>, DnsError>(e),
                }
            }),
        decreases count - i,
    {
        let ghost before = questions_view(list@);
        let question = DnsQuestion::read(buffer)?;
        proof {
            let rest = read_questions(bytes, buffer@.pos, (count - i - 1) as nat);
            match rest.result {
                Ok(others) => {
                    assert(before.push(question@) + others =~= before + (seq![question@] + others));
                },
                Err(_) => {},
            }
            assert(questions_view(list@.push(question)) =~= before.push(question@));
        }
        list.push(question);
        i += 1;
    }
    Ok(list)
}

/// Reads `count` records at the cursor.
fn read_record_list(buffer: &mut BytePacketBuffer, count: u16) -> (res: Result<
    Vec<DnsRecord>,
    DnsError,
>)
    ensures
        ({
            let read = read_records(old(buffer)@.bytes, old(buffer)@.pos, count as nat);
            &&& final(buffer)@ == old(buffer)@.at(read.cursor)
            &&& match res {
                Ok(list) => read.result == Ok::<Seq<RecordView>, DnsError>(records_view(list@)),
                Err(e) => read.result == Err::<Seq<RecordView>, DnsError>(e),
            }
        }),
{
    let ghost bytes = buffer@.bytes;
    let ghost whole = read_records(bytes, buffer@.pos, count as nat);
    let mut list: Vec<DnsRecord> = Vec::new();
    let mut i: u16 = 0;
    while i < count
        invariant
            i <= count,
            buffer@.bytes == bytes,
            bytes == old(buffer)@.bytes,
            whole == read_records(bytes, old(buffer)@.pos, count as nat),
            ({
                let rest = read_records(bytes, buffer@.pos, (count - i) as nat);
                &&& whole.cursor == rest.cursor
                &&& whole.result == match rest.result {
                    Ok(others) => Ok::<Seq<RecordView>, DnsError>(records_view(list@) + others),
                    Err(e) => Err::<Seq<RecordView>, DnsError>(e),
                }
            }),
        decreases count - i,
    {
        let ghost before = records_view(list@);
        let record = DnsRecord::read(buffer)?;
        proof {
            let rest = read_records(bytes, buffer@.pos, (count - i - 1) as nat);
            match rest.result {
                Ok(others) => {
                    assert(before.push(record@) + others =~= before + (seq![record@] + others));
                },
                Err(_) => {},
            }
            assert(records_view(list@.push(record)) =~= before.push(record@));
        }
        list.push(record);
        i += 1;
    }
    Ok(list)
}

/// A writer that goes on with `b` and with `c` sends the same whether `b`
/// and `c` are taken together first or not.
pub proof fn lemma_followed_by_assoc(a: Wire, b: Wire, c: Wire)
    ensures
        a.followed_by(b).followed_by(c) == a.followed_by(b.followed_by(c)),
{
    assert(a.followed_by(b).followed_by(c).bytes =~= a.followed_by(b.followed_by(c)).bytes);
}

/// Writes the questions one after the other.
fn write_question_list(questions: &Vec<DnsQuestion>, buffer: &mut BytePacketBuffer) -> (res:
    Result<(), DnsError>)
    ensures
        final(buffer)@ == old(buffer)@.put(questions_wire(questions_view(questions@)).bytes),
        res == old(buffer)@.outcome(questions_wire(questions_view(questions@))),
{
    let ghost all = questions_view(questions@);
    let ghost done = Wire::whole(seq![]);
    let mut i: usize = 0;
    proof {
        buffer.lemma_view_bounds();
        assert(all.skip(0) =~= all);
    }
    while i < questions.len()
        invariant
            i <= questions@.len(),
            all == questions_view(questions@),
            old(buffer)@.wf(),
            buffer@ == old(buffer)@.put(done.bytes),
            old(buffer)@.outcome(done) is Ok,
            questions_wire(all) == done.followed_by(questions_wire(all.skip(i as int))),
        decreases questions@.len() - i,
    {
        let ghost item = question_wire(questions@[i as int]@);
        let ghost rest = questions_wire(all.skip(i + 1));
        proof {
            assert(all.skip(i as int).drop_first() =~= all.skip(i + 1));
            lemma_followed_by_assoc(done, item, rest);
            lemma_put_followed(old(buffer)@, done, item);
            lemma_put_followed(old(buffer)@, done.followed_by(item), rest);
        }
        questions[i].write(buffer)?;
        proof {
            done = done.followed_by(item);
        }
        i += 1;
    }
    Ok(())
}

/// Writes the records one after the other.
fn write_record_list(records: &Vec<DnsRecord>, buffer: &mut BytePacketBuffer) -> (res: Result<
    (),
    DnsError,
>)
    ensures
        final(buffer)@ == old(buffer)@.put(records_wire(records_view(records@)).bytes),
        res == old(buffer)@.outcome(records_wire(records_view(records@))),
{
    let ghost all = records_view(records@);
    let ghost done = Wire::whole(seq![]);
    let mut i: usize = 0;
    proof {
        buffer.lemma_view_bounds();
        assert(all.skip(0) =~= all);
    }
    while i < records.len()
        invariant
            i <= records@.len(),
            all == records_view(records@),
            old(buffer)@.wf(),
            buffer@ == old(buffer)@.put(done.bytes),
            old(buffer)@.outcome(done) is Ok,
            records_wire(all) == done.followed_by(records_wire(all.skip(i as int))),
        decreases records@.len() - i,
    {
        let ghost item = record_wire(records@[i as int]@);
        let ghost rest = records_wire(all.skip(i + 1));
        proof {
            assert(all.skip(i as int).drop_first() =~= all.skip(i + 1));
            lemma_followed_by_assoc(done, item, rest);
            lemma_put_followed(old(buffer)@, done, item);
            lemma_put_followed(old(buffer)@, done.followed_by(item), rest);
        }
        records[i].write(buffer)?;
        proof {
            done = done.followed_by(item);
        }
        i += 1;
    }
    Ok(())
}

impl DnsPacket {
    /// An empty message: a header of zeros and no entries.
    pub fn new() -> (packet: DnsPacket)
        ensures
            packet@ == (PacketView {
                header: DnsHeader::zeroed(),
                questions: seq![],
                answers: seq![],
                authorities: seq![],
                resources: seq![],
            }),
    {
        let packet = DnsPacket {
            header: DnsHeader::new(),
            questions: Vec::new(),
            answers: Vec::new(),
            authorities: Vec::new(),
            resources: Vec::new(),
        };
        proof {
            assert(questions_view(packet.questions@) =~= Seq::<QuestionView>::empty());
            assert(records_view(packet.answers@) =~= Seq::<RecordView>::empty());
        }
        packet
    }

    /// Reads a message at the cursor.
    pub fn from_buffer(buffer: &mut BytePacketBuffer) -> (res: Result<DnsPacket, DnsError>)
        ensures
            ({
                let read = read_packet(old(buffer)@.bytes, old(buffer)@.pos);
                &&& final(buffer)@ == old(buffer)@.at(read.cursor)
                &&& match res {
                    Ok(packet) => read.result == Ok::<PacketView, DnsError>(packet@),
                    Err(e) => read.result == Err::<PacketView, DnsError>(e),
                }
            }),
    {
        proof {
            buffer.lemma_view_bounds();
        }
        let header = DnsHeader::read(buffer)?;
        let questions = read_question_list(buffer, header.questions)?;
        let answers = read_record_list(buffer, header.answers)?;
        let authorities = read_record_list(buffer, header.authoritative_entries)?;
        let resources = read_record_list(buffer, header.resource_entries)?;
        Ok(DnsPacket { header, questions, answers, authorities, resources })
    }

    /// Sets the four counts of the header to the sizes of the sections.
    fn recount(&mut self)
        ensures
            final(self)@ == (PacketView { header: counted(old(self)@), ..old(self)@ }),
    {
        self.header.questions = (self.questions.len() % 0x1_0000) as u16;
        self.header.answers = (self.answers.len() % 0x1_0000) as u16;
        self.header.authoritative_entries = (self.authorities.len() % 0x1_0000) as u16;
        self.header.resource_entries = (self.resources.len() % 0x1_0000) as u16;
    }

    /// Writes the header as it stands and the four sections behind it.
    fn write_as_counted(&self, buffer: &mut BytePacketBuffer) -> (res: Result<(), DnsError>)
        ensures
            final(buffer)@ == old(buffer)@.put(sections_wire(self@).bytes),
            res == old(buffer)@.outcome(sections_wire(self@)),
    {
        proof {
            buffer.lemma_view_bounds();
            let v = buffer@;
            let w0 = Wire::whole(self.header.wire());
            let w1 = w0.followed_by(questions_wire(self@.questions));
            let w2 = w1.followed_by(records_wire(self@.answers));
            let w3 = w2.followed_by(records_wire(self@.authorities));
            lemma_put_followed(v, w0, questions_wire(self@.questions));
            lemma_put_followed(v, w1, records_wire(self@.answers));
            lemma_put_followed(v, w2, records_wire(self@.authorities));
            lemma_put_followed(v, w3, records_wire(self@.resources));
        }
        self.header.write(buffer)?;
        write_question_list(&self.questions, buffer)?;
        write_record_list(&self.answers, buffer)?;
        write_record_list(&self.authorities, buffer)?;
        write_record_list(&self.resources, buffer)?;
        Ok(())
    }

    /// Sets the four counts of the header to the sizes of the sections and
    /// writes the message at the cursor: the header, the questions, and the
    /// three sections of records. Records other than address records take up
    /// no room on the wire, though the counts include them.
    pub fn write(&mut self, buffer: &mut BytePacketBuffer) -> (res: Result<(), DnsError>)
        ensures
            final(self)@ == (PacketView { header: counted(old(self)@), ..old(self)@ }),
            final(buffer)@ == old(buffer)@.put(packet_wire(old(self)@).bytes),
            res == old(buffer)@.outcome(packet_wire(old(self)@)),
    {
        self.recount();
        self.write_as_counted(buffer)
    }
}

} // verus!
