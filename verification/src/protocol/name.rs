use vstd::prelude::*;
use vstd::utf8::encode_utf8;
use crate::protocol::error::DnsError;
use crate::protocol::text::label_text;
use crate::protocol::wire::{Piece, CAPACITY};

verus! {

/// Most compression pointers that are followed while one name is decoded.
pub const MAX_JUMPS: usize = 5;

/// Most bytes in one label.
pub const MAX_LABEL: usize = 63;

/// The byte that separates the labels of a dotted name.
pub const DOT: u8 = 0x2E;

/// The labels that a walk through the datagram has met, and where it leaves the cursor.
pub struct Walk {
    pub labels: Seq<Seq<char>>,
    pub cursor: int,
}

/// A length byte with its two high bits set is the first byte of a compression pointer.
pub open spec fn is_pointer(len: u8) -> bool {
    len >= 0xC0
}

/// The offset that a compression pointer names: the low six bits of its first byte, then its
/// second byte.
pub open spec fn pointer_target(len: u8, low: u8) -> int {
    (len - 0xC0) * 256 + low
}

/// The labels joined by dots, with no dot in front.
pub open spec fn join_dots(labels: Seq<Seq<char>>) -> Seq<char>
    decreases labels.len(),
{
    if labels.len() == 0 {
        Seq::empty()
    } else if labels.len() == 1 {
        labels[0]
    } else {
        join_dots(labels.drop_last()) + seq!['.'] + labels.last()
    }
}

/// Decoding a name from offset `pos` of the datagram `buf`, `jumps` pointers having been
/// followed already; `jumped` says whether any was. The cursor of the result is where the
/// datagram's cursor belongs when the walk began there with `jumped` false: behind the name's
/// closing zero byte, or behind the first pointer.
pub open spec fn walk(buf: Seq<u8>, pos: int, jumps: int, jumped: bool) -> Result<Walk, DnsError>
    decreases MAX_JUMPS + 1 - jumps, CAPACITY - pos,
{
    if jumps > MAX_JUMPS {
        Err(DnsError::CompressionLoop)
    } else if pos < 0 || pos >= CAPACITY {
        Err(DnsError::EndOfBuffer)
    } else {
        let len = buf[pos];
        if is_pointer(len) {
            if pos + 1 >= CAPACITY || (!jumped && pos + 2 >= CAPACITY) {
                Err(DnsError::EndOfBuffer)
            } else {
                match walk(buf, pointer_target(len, buf[pos + 1]), jumps + 1, true) {
                    Ok(w) => Ok(
                        Walk {
                            labels: w.labels,
                            cursor: if jumped {
                                w.cursor
                            } else {
                                pos + 2
                            },
                        },
                    ),
                    Err(e) => Err(e),
                }
            }
        } else if len == 0 {
            if !jumped && pos + 1 >= CAPACITY {
                Err(DnsError::EndOfBuffer)
            } else {
                Ok(Walk { labels: Seq::empty(), cursor: pos + 1 })
            }
        } else if pos + 1 + len > CAPACITY {
            Err(DnsError::EndOfBuffer)
        } else {
            match walk(buf, pos + 1 + len, jumps, jumped) {
                Ok(w) => Ok(
                    Walk {
                        labels: seq![label_text(buf.subrange(pos + 1, pos + 1 + len))] + w.labels,
                        cursor: w.cursor,
                    },
                ),
                Err(e) => Err(e),
            }
        }
    }
}

/// The name that stands at offset `pos` of the datagram `buf`, and where reading it leaves the
/// cursor.
pub open spec fn name_at(buf: Seq<u8>, pos: int) -> Result<(Seq<char>, int), DnsError> {
    match walk(buf, pos, 0, false) {
        Ok(w) => Ok((join_dots(w.labels), w.cursor)),
        Err(e) => Err(e),
    }
}

/// Number of bytes of `n` from offset `from` up to the next dot, or to the end.
pub open spec fn label_len(n: Seq<u8>, from: int) -> nat
    decreases n.len() - from,
{
    if from < 0 || from >= n.len() || n[from] == DOT {
        0
    } else {
        1 + label_len(n, from + 1)
    }
}

/// A label on the wire: its length in one byte, then its bytes.
pub open spec fn label_wire(label: Seq<u8>) -> Seq<u8> {
    seq![label.len() as u8] + label
}

/// The wire form of the dotted name whose bytes are `n` from offset `from` on: each stretch
/// between dots as a label, then a zero byte.
pub open spec fn name_wire_from(n: Seq<u8>, from: int) -> Seq<u8>
    decreases n.len() - from,
{
    let k = label_len(n, from);
    let label = label_wire(n.subrange(from, from + k));
    if from + k >= n.len() {
        label + seq![0u8]
    } else {
        label + name_wire_from(n, from + k + 1)
    }
}

/// Where in `name_wire_from(n, from)` the first label of more than 63 bytes begins, if there
/// is one.
pub open spec fn long_label_from(n: Seq<u8>, from: int) -> Option<int>
    decreases n.len() - from,
{
    let k = label_len(n, from);
    if k > MAX_LABEL {
        Some(0)
    } else if from + k >= n.len() {
        None
    } else {
        match long_label_from(n, from + k + 1) {
            Some(o) => Some(1 + k + o),
            None => None,
        }
    }
}

/// The wire form of the dotted name with the bytes `n`.
pub open spec fn name_wire(n: Seq<u8>) -> Seq<u8> {
    name_wire_from(n, 0)
}

/// Where in `name_wire(n)` the first label of more than 63 bytes begins, if there is one.
pub open spec fn long_label(n: Seq<u8>) -> Option<int> {
    long_label_from(n, 0)
}

/// The dotted name `name` as it is written: the wire form of its UTF-8 bytes.
pub open spec fn name_piece(name: Seq<char>) -> Piece {
    Piece { wire: name_wire(encode_utf8(name)), bad: long_label(encode_utf8(name)) }
}

/// A stretch without a dot that ends at a dot or at the end of the name is a label.
pub proof fn lemma_label_len(n: Seq<u8>, from: int, end: int)
    requires
        0 <= from <= end <= n.len(),
        forall|j: int| from <= j < end ==> n[j] != DOT,
        end == n.len() || n[end] == DOT,
    ensures
        label_len(n, from) == end - from,
    decreases end - from,
{
    if from < end {
        lemma_label_len(n, from + 1, end);
    }
}

/// A label ends inside the name, at a dot or at the end, and holds no dot.
pub proof fn lemma_label_end(n: Seq<u8>, from: int)
    requires
        0 <= from <= n.len(),
    ensures
        from + label_len(n, from) <= n.len(),
        from + label_len(n, from) < n.len() ==> n[from + label_len(n, from)] == DOT,
        forall|j: int| from <= j < from + label_len(n, from) ==> n[j] != DOT,
    decreases n.len() - from,
{
    if from < n.len() && n[from] != DOT {
        lemma_label_end(n, from + 1);
    }
}

/// The wire form of a name is at least a length byte and the closing zero; an oversized label
/// begins inside it.
pub proof fn lemma_name_wire_len(n: Seq<u8>, from: int)
    requires
        0 <= from <= n.len(),
    ensures
        name_wire_from(n, from).len() >= label_len(n, from) + 2,
        long_label_from(n, from) is Some ==> 0 <= long_label_from(n, from)->Some_0 < name_wire_from(
            n,
            from,
        ).len(),
    decreases n.len() - from,
{
    lemma_label_end(n, from);
    let k = label_len(n, from);
    if from + k < n.len() {
        lemma_name_wire_len(n, from + k + 1);
    }
}

/// A name on the wire is at least two bytes, and an oversized label begins inside it.
pub proof fn lemma_name_piece(name: Seq<char>)
    ensures
        name_piece(name).sound(),
        name_piece(name).wire.len() >= 2,
{
    lemma_name_wire_len(encode_utf8(name), 0);
}

} // verus!
