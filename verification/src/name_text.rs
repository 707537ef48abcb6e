//! Names as text. What the codec does to the bytes of a name is told here of
//! its characters: a name is cut at its full stops, and reading it back gives
//! each piece in lower case.

use crate::byte_packet_buffer::BufferView;
use crate::name::{
    joined, lemma_labels_round_trip, lemma_plain_labels_are_written, lowercase,
    name_wire, plain_labels, read_name, split_from, split_labels, NameRead, DOT, MAX_LABEL_LEN,
};
use vstd::prelude::*;
use vstd::utf8::*;

verus! {

/// The labels of the text `name`, where `label` holds what was passed of the
/// label that `name` starts in.
pub open spec fn text_labels_from(name: Seq<char>, label: Seq<char>) -> Seq<Seq<char>>
    decreases name.len(),
{
    if name.len() == 0 {
        seq![label]
    } else if name[0] == '.' {
        seq![label] + text_labels_from(name.drop_first(), seq![])
    } else {
        text_labels_from(name.drop_first(), label.push(name[0]))
    }
}

/// The labels of a name: the runs of characters between its full stops.
pub open spec fn text_labels(name: Seq<char>) -> Seq<Seq<char>> {
    text_labels_from(name, seq![])
}

/// The labels in lower case, with a full stop in front of each but the one
/// that opens the name.
pub open spec fn folded_labels(labels: Seq<Seq<char>>, first: bool) -> Seq<char>
    decreases labels.len(),
{
    if labels.len() == 0 {
        seq![]
    } else {
        let sep: Seq<char> = if first {
            seq![]
        } else {
            seq!['.']
        };
        sep + lowercase(labels[0]) + folded_labels(labels.drop_first(), false)
    }
}

/// The name with each of its labels in lower case.
pub open spec fn folded(name: Seq<char>) -> Seq<char> {
    folded_labels(text_labels(name), true)
}

/// Every label of the text has at least one byte and at most 63 once it is
/// encoded.
pub open spec fn plain_text_labels(labels: Seq<Seq<char>>) -> bool {
    forall|i: int|
        0 <= i < labels.len() ==> 1 <= (#[trigger] encode_utf8(labels[i])).len() <= MAX_LABEL_LEN
}

/// The labels of `bytes`, where `label` holds what was passed of the label
/// that `bytes` start in.
spec fn byte_labels_from(bytes: Seq<u8>, label: Seq<u8>) -> Seq<Seq<u8>>
    decreases bytes.len(),
{
    if bytes.len() == 0 {
        seq![label]
    } else if bytes[0] == DOT {
        seq![label] + byte_labels_from(bytes.drop_first(), seq![])
    } else {
        byte_labels_from(bytes.drop_first(), label.push(bytes[0]))
    }
}

/// Cutting a name from a place on is cutting what is left of it there.
proof fn lemma_split_from_skips(name: Seq<u8>, from: int, label: Seq<u8>)
    requires
        0 <= from <= name.len(),
    ensures
        split_from(name, from, label) == byte_labels_from(name.skip(from), label),
    decreases name.len() - from,
{
    if from < name.len() {
        assert(name.skip(from).drop_first() =~= name.skip(from + 1));
        if name[from] == DOT {
            lemma_split_from_skips(name, from + 1, seq![]);
        } else {
            lemma_split_from_skips(name, from + 1, label.push(name[from]));
        }
    }
}

/// No byte of `block` is a full stop.
spec fn without_dot(block: Seq<u8>) -> bool {
    forall|i: int| 0 <= i < block.len() ==> #[trigger] block[i] != DOT
}

/// Bytes without a full stop among them belong to the label they start in.
proof fn lemma_block_without_dot(block: Seq<u8>, rest: Seq<u8>, label: Seq<u8>)
    requires
        without_dot(block),
    ensures
        byte_labels_from(block + rest, label) == byte_labels_from(rest, label + block),
    decreases block.len(),
{
    if block.len() == 0 {
    } else {
        assert((block + rest).drop_first() =~= block.drop_first() + rest);
        lemma_block_without_dot(block.drop_first(), rest, label.push(block[0]));
        assert(label.push(block[0]) + block.drop_first() =~= label + block);
    }
}

/// No byte above 0x7F is a full stop, whatever its low bits are.
proof fn lemma_high_bytes(t: u8)
    by (bit_vector)
    ensures
        (0xC0u8 | t) != 0x2Eu8,
        (0xE0u8 | t) != 0x2Eu8,
        (0xF0u8 | t) != 0x2Eu8,
        (0x80u8 | t) != 0x2Eu8,
{
}

/// A character below 0x80 is encoded as itself.
proof fn lemma_low_byte(s: u32)
    by (bit_vector)
    requires
        s <= 0x7F,
    ensures
        (s & 0x7F) as u8 == s,
{
}

/// The full stop is encoded as the one byte that separates labels, and the
/// encoding of no other character holds that byte.
proof fn lemma_scalar_bytes(c: char)
    ensures
        c == '.' ==> encode_scalar(c as u32) == seq![DOT],
        c != '.' ==> without_dot(encode_scalar(c as u32)),
{
    let s = c as u32;
    char_is_scalar(c);
    if has_width_1_encoding(s) {
        lemma_low_byte(s);
        if c != '.' {
            char_u32_cast(c, s);
        }
    } else {
        lemma_high_bytes(((s >> 6) & 0x1F) as u8);
        lemma_high_bytes(((s >> 12) & 0x0F) as u8);
        lemma_high_bytes(((s >> 18) & 0x7) as u8);
        lemma_high_bytes((s & 0x3F) as u8);
        lemma_high_bytes(((s >> 6) & 0x3F) as u8);
        lemma_high_bytes(((s >> 12) & 0x3F) as u8);
    }
}

/// Encoding a text with one more character appends the bytes of that
/// character.
proof fn lemma_encode_push(text: Seq<char>, c: char)
    ensures
        encode_utf8(text.push(c)) == encode_utf8(text) + encode_scalar(c as u32),
    decreases text.len(),
{
    if text.len() == 0 {
        assert(text.push(c).drop_first() =~= Seq::<char>::empty());
        assert(encode_utf8(text.push(c)) =~= encode_scalar(c as u32) + encode_utf8(
            Seq::<char>::empty(),
        ));
    } else {
        assert(text.push(c).drop_first() =~= text.drop_first().push(c));
        lemma_encode_push(text.drop_first(), c);
    }
}

/// The labels of the bytes of a text are the bytes of its labels.
proof fn lemma_labels_of_text(name: Seq<char>, label: Seq<char>)
    ensures
        byte_labels_from(encode_utf8(name), encode_utf8(label)) == text_labels_from(
            name,
            label,
        ).map_values(|l: Seq<char>| encode_utf8(l)),
    decreases name.len(),
{
    let encode = |l: Seq<char>| encode_utf8(l);
    if name.len() == 0 {
    } else {
        let c = name[0];
        let head = encode_scalar(c as u32);
        let rest = encode_utf8(name.drop_first());
        lemma_scalar_bytes(c);
        if c == '.' {
            assert((head + rest).drop_first() =~= rest);
            lemma_labels_of_text(name.drop_first(), seq![]);
        } else {
            lemma_block_without_dot(head, rest, encode_utf8(label));
            lemma_encode_push(label, c);
            lemma_labels_of_text(name.drop_first(), label.push(c));
        }
    }
}

/// Labels that were encoded read as their text in lower case.
proof fn lemma_joined_of_text(labels: Seq<Seq<char>>, first: bool)
    ensures
        joined(labels.map_values(|l: Seq<char>| encode_utf8(l)), first) == folded_labels(
            labels,
            first,
        ),
    decreases labels.len(),
{
    let encode = |l: Seq<char>| encode_utf8(l);
    if labels.len() > 0 {
        encode_utf8_valid_utf8(labels[0]);
        encode_utf8_decode_utf8(labels[0]);
        assert(labels.map_values(encode).drop_first() =~= labels.drop_first().map_values(encode));
        lemma_joined_of_text(labels.drop_first(), false);
    }
}

/// The labels of a text of plain labels are plain once encoded, and read as
/// the text in lower case.
proof fn lemma_plain_text(name: Seq<char>)
    requires
        plain_text_labels(text_labels(name)),
    ensures
        plain_labels(split_labels(encode_utf8(name))),
        joined(split_labels(encode_utf8(name)), true) == folded(name),
{
    let encoded = encode_utf8(name);
    let encode = |l: Seq<char>| encode_utf8(l);
    lemma_split_from_skips(encoded, 0, seq![]);
    assert(encoded.skip(0) =~= encoded);
    assert(encode_utf8(Seq::<char>::empty()) =~= Seq::<u8>::empty());
    lemma_labels_of_text(name, seq![]);
    assert(split_labels(encoded) == text_labels(name).map_values(encode));
    assert forall|i: int| 0 <= i < split_labels(encoded).len() implies 1 <= (
    #[trigger] split_labels(encoded)[i]).len() <= MAX_LABEL_LEN by {
        assert(split_labels(encoded)[i] == encode_utf8(text_labels(name)[i]));
    }
    lemma_joined_of_text(text_labels(name), true);
}

/// A name whose labels take between 1 and 63 bytes each is written whole:
/// no label is refused, and the closing zero is the least that is written.
pub proof fn lemma_plain_text_is_written(name: Seq<char>)
    requires
        plain_text_labels(text_labels(name)),
    ensures
        name_wire(encode_utf8(name)).complete,
        name_wire(encode_utf8(name)).bytes.len() >= 1,
{
    lemma_plain_text(name);
    lemma_plain_labels_are_written(split_labels(encode_utf8(name)));
}

/// A name as text that stands written out at `pos` is read there as the
/// same name with each label in lower case, and the cursor ends behind it.
pub proof fn lemma_written_text_reads(name: Seq<char>, bytes: Seq<u8>, pos: int)
    requires
        plain_text_labels(text_labels(name)),
        bytes.len() == 512,
        0 <= pos,
        pos + name_wire(encode_utf8(name)).bytes.len() <= 512,
        bytes.subrange(pos, pos + name_wire(encode_utf8(name)).bytes.len()) == name_wire(
            encode_utf8(name),
        ).bytes,
    ensures
        read_name(bytes, pos, 0, true) == (NameRead {
            text: folded(name),
            cursor: Some(pos + name_wire(encode_utf8(name)).bytes.len()),
            error: None,
        }),
{
    lemma_plain_text(name);
    lemma_labels_round_trip(bytes, pos, split_labels(encode_utf8(name)), 0, true);
}

/// Round trip of a name as text: a name whose labels take between 1 and 63
/// bytes each, once written where it finds room, is read back at the same
/// place as the same name with each label in lower case, and the cursor ends
/// where writing ended.
pub proof fn lemma_text_round_trip(name: Seq<char>, buffer: BufferView)
    requires
        buffer.wf(),
        plain_text_labels(text_labels(name)),
        buffer.fits(name_wire(encode_utf8(name)).bytes.len() as int),
    ensures
        name_wire(encode_utf8(name)).complete,
        read_name(buffer.put(name_wire(encode_utf8(name)).bytes).bytes, buffer.pos, 0, true) == (
        NameRead {
            text: folded(name),
            cursor: Some(buffer.put(name_wire(encode_utf8(name)).bytes).pos),
            error: None,
        }),
{
    let wire = name_wire(encode_utf8(name)).bytes;
    let after = buffer.put(wire);
    lemma_plain_text_is_written(name);
    assert(after.bytes.subrange(buffer.pos, buffer.pos + wire.len()) =~= wire);
    lemma_written_text_reads(name, after.bytes, buffer.pos);
}

} // verus!
