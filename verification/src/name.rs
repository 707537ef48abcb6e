//! Domain names on the wire: a run of labels, each behind its length octet,
//! closed by a zero octet. A length octet with its two top bits set is the
//! first byte of a pointer to an earlier place of the packet, where the name
//! goes on.

use crate::byte_packet_buffer::{BufferView, Wire};
use crate::error::DnsError;
use vstd::prelude::*;
use vstd::utf8::*;

verus! {

/// The longest label that a length octet can announce.
pub const MAX_LABEL_LEN: usize = 63;

/// The pointer jumps that are followed within one name.
pub const MAX_JUMPS: usize = 5;

/// The octet that separates the labels of a written name: a full stop.
pub const DOT: u8 = 0x2E;

/// The text that `String::from_utf8_lossy` makes of `bytes`.
pub uninterp spec fn utf8_lossy(bytes: Seq<u8>) -> Seq<char>;

/// The text that `str::to_lowercase` makes of `text`.
pub uninterp spec fn lowercase(text: Seq<char>) -> Seq<char>;

/// The characters that the bytes of a label stand for: the text they encode
/// where they are UTF-8, and otherwise what the lossy conversion makes of them.
pub open spec fn lossy_text(bytes: Seq<u8>) -> Seq<char> {
    if valid_utf8(bytes) {
        decode_utf8(bytes)
    } else {
        utf8_lossy(bytes)
    }
}

/// A label as it appears in a decoded name: its characters in lower case.
pub open spec fn label_text(bytes: Seq<u8>) -> Seq<char> {
    lowercase(lossy_text(bytes))
}

/// Calls `String::from_utf8_lossy`. The result is named, not computed; the one
/// thing claimed beyond the name is that bytes which are UTF-8 come back as the
/// text they encode.
#[verifier::external_body]
pub(crate) fn text_of_bytes(bytes: &[u8]) -> (text: String)
    ensures
        text@ == utf8_lossy(bytes@),
        valid_utf8(bytes@) ==> text@ == decode_utf8(bytes@),
{
    String::from_utf8_lossy(bytes).into_owned()
}

/// Calls `str::to_lowercase`. The result is named, not computed.
#[verifier::external_body]
pub(crate) fn lowercase_of(text: &str) -> (lower: String)
    ensures
        lower@ == lowercase(text@),
{
    text.to_lowercase()
}

/// A length octet that opens a pointer.
pub open spec fn is_pointer(octet: u8) -> bool {
    octet >= 0xC0
}

/// Where the pointer made of the octets `first` and `second` leads.
pub open spec fn pointer_target(first: u8, second: u8) -> int {
    (first - 0xC0) * 0x100 + second
}

/// What reading a name does.
pub struct NameRead {
    /// The characters appended to the output.
    pub text: Seq<char>,
    /// Where the cursor is put; `None` where it is left alone.
    pub cursor: Option<int>,
    /// Why reading stopped before the end of the name; `None` where it did not.
    pub error: Option<DnsError>,
}

/// Reading the name that starts at `pos`, after `jumps` pointers were followed
/// already; `first` says that no label was read yet, so that the next one is
/// not set off by a full stop.
///
/// Labels are appended as they are read, also when a later step fails. The
/// cursor resumes behind the first pointer where there is one, and otherwise
/// behind the closing zero octet.
pub open spec fn read_name(bytes: Seq<u8>, pos: int, jumps: nat, first: bool) -> NameRead
    decreases 6 - jumps, 512 - pos,
{
    if jumps > MAX_JUMPS {
        NameRead { text: seq![], cursor: None, error: Some(DnsError::JumpLimitExceeded) }
    } else if !(0 <= pos < 512) {
        NameRead { text: seq![], cursor: None, error: Some(DnsError::EndOfBuffer) }
    } else if is_pointer(bytes[pos]) {
        if pos + 1 >= 512 {
            NameRead { text: seq![], cursor: Some(pos + 2), error: Some(DnsError::EndOfBuffer) }
        } else {
            let rest = read_name(
                bytes,
                pointer_target(bytes[pos], bytes[pos + 1]),
                jumps + 1,
                first,
            );
            NameRead { text: rest.text, cursor: Some(pos + 2), error: rest.error }
        }
    } else if bytes[pos] == 0 {
        NameRead { text: seq![], cursor: Some(pos + 1), error: None }
    } else {
        let sep: Seq<char> = if first {
            seq![]
        } else {
            seq!['.']
        };
        let end = pos + 1 + bytes[pos];
        if end >= 512 {
            NameRead { text: sep, cursor: None, error: Some(DnsError::EndOfBuffer) }
        } else {
            let rest = read_name(bytes, end, jumps, false);
            NameRead {
                text: sep + label_text(bytes.subrange(pos + 1, end)) + rest.text,
                cursor: rest.cursor,
                error: rest.error,
            }
        }
    }
}

/// The labels of the written name `name` from `from` on, where `label` holds
/// what was passed of the label that `from` lies in.
pub open spec fn split_from(name: Seq<u8>, from: int, label: Seq<u8>) -> Seq<Seq<u8>>
    decreases name.len() - from,
{
    if from < 0 || from >= name.len() {
        seq![label]
    } else if name[from] == DOT {
        seq![label] + split_from(name, from + 1, seq![])
    } else {
        split_from(name, from + 1, label.push(name[from]))
    }
}

/// The labels of a written name: the runs of bytes between its full stops.
/// The empty name has one label, the empty one.
pub open spec fn split_labels(name: Seq<u8>) -> Seq<Seq<u8>> {
    split_from(name, 0, seq![])
}

/// The wire form of a run of labels: each behind its length octet, and a
/// zero octet at the end.
pub open spec fn labels_wire(labels: Seq<Seq<u8>>) -> Wire
    decreases labels.len(),
{
    if labels.len() == 0 {
        Wire { bytes: seq![0u8], complete: true }
    } else if labels[0].len() > MAX_LABEL_LEN {
        Wire { bytes: seq![], complete: false }
    } else {
        let rest = labels_wire(labels.drop_first());
        Wire {
            bytes: seq![labels[0].len() as u8] + labels[0] + rest.bytes,
            complete: rest.complete,
        }
    }
}

/// The wire form of the written name `name`.
pub open spec fn name_wire(name: Seq<u8>) -> Wire {
    labels_wire(split_labels(name))
}

/// The label that starts at `start` runs up to `end` when no full stop lies
/// between the two and `end` is a full stop or the end of the name.
pub proof fn lemma_split_label(name: Seq<u8>, start: int, at: int, end: int)
    requires
        0 <= start <= at <= end <= name.len(),
        forall|i: int| start <= i < end ==> name[i] != DOT,
        end == name.len() || name[end] == DOT,
    ensures
        split_from(name, at, name.subrange(start, at)) == if end == name.len() {
            seq![name.subrange(start, end)]
        } else {
            seq![name.subrange(start, end)] + split_from(name, end + 1, seq![])
        },
    decreases end - at,
{
    if at < end {
        assert(name.subrange(start, at).push(name[at]) =~= name.subrange(start, at + 1));
        lemma_split_label(name, start, at + 1, end);
    }
}

/// Following the name at `pos` passes `n` pointers or more before anything
/// stops it: labels may stand between them, and every step lies in the buffer.
pub open spec fn meets_pointers(bytes: Seq<u8>, pos: int, n: nat) -> bool
    decreases n, 512 - pos,
{
    n == 0 || (0 <= pos < 512 && if is_pointer(bytes[pos]) {
        pos + 1 < 512 && meets_pointers(
            bytes,
            pointer_target(bytes[pos], bytes[pos + 1]),
            (n - 1) as nat,
        )
    } else {
        bytes[pos] != 0 && pos + 1 + bytes[pos] < 512 && meets_pointers(
            bytes,
            pos + 1 + bytes[pos],
            n,
        )
    })
}

/// The name at `pos` is written out: a run of labels and the closing zero
/// octet, all inside the buffer, and no pointer.
pub open spec fn literal_name(bytes: Seq<u8>, pos: int) -> bool
    decreases 512 - pos,
{
    0 <= pos < 512 && !is_pointer(bytes[pos]) && (bytes[pos] == 0 || (pos + 1 + bytes[pos] < 512
        && literal_name(bytes, pos + 1 + bytes[pos])))
}

/// A name that needs more than five jumps is refused: where following it
/// passes so many pointers that, with those followed before, there are six,
/// reading gives up with `JumpLimitExceeded`.
pub proof fn lemma_jump_limit(bytes: Seq<u8>, pos: int, jumps: nat, first: bool, n: nat)
    requires
        meets_pointers(bytes, pos, n),
        jumps + n > MAX_JUMPS,
    ensures
        read_name(bytes, pos, jumps, first).error == Some(DnsError::JumpLimitExceeded),
    decreases n, 512 - pos,
{
    if jumps <= MAX_JUMPS {
        if is_pointer(bytes[pos]) {
            lemma_jump_limit(
                bytes,
                pointer_target(bytes[pos], bytes[pos + 1]),
                jumps + 1,
                first,
                (n - 1) as nat,
            );
        } else {
            lemma_jump_limit(bytes, pos + 1 + bytes[pos], jumps, false, n);
        }
    }
}

/// A pointer that leads to itself is followed as often as one likes.
pub proof fn lemma_self_pointer_repeats(bytes: Seq<u8>, pos: int, n: nat)
    requires
        0 <= pos < 511,
        is_pointer(bytes[pos]),
        pointer_target(bytes[pos], bytes[pos + 1]) == pos,
    ensures
        meets_pointers(bytes, pos, n),
    decreases n,
{
    if n > 0 {
        lemma_self_pointer_repeats(bytes, pos, (n - 1) as nat);
    }
}

/// Reading a name that begins with a pointer to itself does not go round for
/// ever: it ends with `JumpLimitExceeded`.
pub proof fn lemma_self_pointer_fails(bytes: Seq<u8>, pos: int)
    requires
        0 <= pos < 511,
        is_pointer(bytes[pos]),
        pointer_target(bytes[pos], bytes[pos + 1]) == pos,
    ensures
        read_name(bytes, pos, 0, true).error == Some(DnsError::JumpLimitExceeded),
{
    lemma_self_pointer_repeats(bytes, pos, 6);
    lemma_jump_limit(bytes, pos, 0, true, 6);
}

/// A name that is written out reads the same however many pointers led to
/// it, and reading it succeeds.
pub proof fn lemma_literal_name_reads(bytes: Seq<u8>, pos: int, jumps: nat, first: bool)
    requires
        literal_name(bytes, pos),
        jumps <= MAX_JUMPS,
    ensures
        read_name(bytes, pos, jumps, first) == read_name(bytes, pos, 0, first),
        read_name(bytes, pos, jumps, first).error is None,
    decreases 512 - pos,
{
    if bytes[pos] != 0 {
        lemma_literal_name_reads(bytes, pos + 1 + bytes[pos], jumps, false);
    }
}

/// Compression: where a name is written out at `target` and, elsewhere, a
/// name consists of nothing but a pointer to `target`, reading the pointer
/// gives the text that reading the written name gives, and leaves the cursor
/// two bytes behind the place where the pointer starts.
pub proof fn lemma_pointer_reads_its_target(bytes: Seq<u8>, pos: int, target: int)
    requires
        0 <= pos < 511,
        is_pointer(bytes[pos]),
        pointer_target(bytes[pos], bytes[pos + 1]) == target,
        literal_name(bytes, target),
    ensures
        read_name(bytes, pos, 0, true).text == read_name(bytes, target, 0, true).text,
        read_name(bytes, pos, 0, true).error is None,
        read_name(bytes, target, 0, true).error is None,
        read_name(bytes, pos, 0, true).cursor == Some(pos + 2),
{
    lemma_literal_name_reads(bytes, target, 1, true);
}

/// The labels as a decoded name shows them: each in lower case, with a full
/// stop in front of each but the one that opens the name.
pub open spec fn joined(labels: Seq<Seq<u8>>, first: bool) -> Seq<char>
    decreases labels.len(),
{
    if labels.len() == 0 {
        seq![]
    } else {
        let sep: Seq<char> = if first {
            seq![]
        } else {
            seq!['.']
        };
        sep + label_text(labels[0]) + joined(labels.drop_first(), false)
    }
}

/// Every label has at least one byte and at most 63.
pub open spec fn plain_labels(labels: Seq<Seq<u8>>) -> bool {
    forall|i: int| 0 <= i < labels.len() ==> 1 <= #[trigger] labels[i].len() <= MAX_LABEL_LEN
}

/// Labels of 1 to 63 bytes are written whole, and the closing zero is the
/// least that is written.
pub proof fn lemma_plain_labels_are_written(labels: Seq<Seq<u8>>)
    requires
        plain_labels(labels),
    ensures
        labels_wire(labels).complete,
        labels_wire(labels).bytes.len() >= 1,
    decreases labels.len(),
{
    if labels.len() > 0 {
        let rest = labels.drop_first();
        assert(1 <= labels[0].len() <= MAX_LABEL_LEN);
        assert forall|i: int| 0 <= i < rest.len() implies 1 <= #[trigger] rest[i].len()
            <= MAX_LABEL_LEN by {
            assert(rest[i] == labels[i + 1]);
        }
        lemma_plain_labels_are_written(rest);
    }
}

/// Labels that are written out at `pos` read back as they are, in lower case.
pub proof fn lemma_labels_round_trip(
    bytes: Seq<u8>,
    pos: int,
    labels: Seq<Seq<u8>>,
    jumps: nat,
    first: bool,
)
    requires
        plain_labels(labels),
        jumps <= MAX_JUMPS,
        bytes.len() == 512,
        0 <= pos,
        pos + labels_wire(labels).bytes.len() <= 512,
        bytes.subrange(pos, pos + labels_wire(labels).bytes.len()) == labels_wire(labels).bytes,
    ensures
        labels_wire(labels).complete,
        read_name(bytes, pos, jumps, first) == (NameRead {
            text: joined(labels, first),
            cursor: Some(pos + labels_wire(labels).bytes.len()),
            error: None,
        }),
    decreases labels.len(),
{
    let wire = labels_wire(labels).bytes;
    let here = bytes.subrange(pos, pos + wire.len());
    if labels.len() == 0 {
        assert(bytes[pos] == here[0]);
    } else {
        let label = labels[0];
        let rest = labels.drop_first();
        let tail = labels_wire(rest).bytes;
        let end = pos + 1 + label.len();
        assert(wire =~= seq![label.len() as u8] + label + tail);
        assert(bytes[pos] == here[0]);
        assert(bytes.subrange(pos + 1, end) =~= label) by {
            assert forall|i: int| 0 <= i < label.len() implies bytes[pos + 1 + i] == label[i] by {
                assert(bytes[pos + 1 + i] == here[1 + i]);
            }
        }
        assert(bytes.subrange(end, end + tail.len()) =~= tail) by {
            assert forall|i: int| 0 <= i < tail.len() implies bytes[end + i] == tail[i] by {
                assert(bytes[end + i] == here[1 + label.len() + i]);
            }
        }
        assert(plain_labels(rest)) by {
            assert forall|i: int| 0 <= i < rest.len() implies 1 <= #[trigger] rest[i].len()
                <= MAX_LABEL_LEN by {
                assert(rest[i] == labels[i + 1]);
            }
        }
        assert(tail.len() >= 1) by {
            if rest.len() > 0 {
                assert(1 <= rest[0].len() <= MAX_LABEL_LEN);
            }
        }
        lemma_labels_round_trip(bytes, end, rest, jumps, false);
    }
}

/// Round trip of a name: a name whose labels have between 1 and 63 bytes, once
/// written where it finds room, is read back at the same place label by label
/// in lower case, and the cursor ends where writing ended.
pub proof fn lemma_name_round_trip(name: Seq<u8>, buffer: BufferView)
    requires
        buffer.wf(),
        plain_labels(split_labels(name)),
        buffer.fits(name_wire(name).bytes.len() as int),
    ensures
        name_wire(name).complete,
        read_name(buffer.put(name_wire(name).bytes).bytes, buffer.pos, 0, true) == (NameRead {
            text: joined(split_labels(name), true),
            cursor: Some(buffer.put(name_wire(name).bytes).pos),
            error: None,
        }),
{
    let wire = name_wire(name).bytes;
    let after = buffer.put(wire);
    assert(after.bytes.subrange(buffer.pos, buffer.pos + wire.len()) =~= wire);
    lemma_labels_round_trip(after.bytes, buffer.pos, split_labels(name), 0, true);
}

} // verus!
