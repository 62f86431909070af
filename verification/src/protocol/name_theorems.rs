use vstd::prelude::*;
use vstd::utf8::{encode_utf8, is_ascii_chars, is_ascii_chars_encode_utf8};
use crate::protocol::error::DnsError;
use crate::protocol::name::{
    is_pointer, join_dots, label_len, label_wire, lemma_label_end, long_label_from, name_at, name_piece,
    name_wire_from, pointer_target, walk, Walk, DOT, MAX_LABEL,
};
use crate::protocol::text::{ascii_lower, ascii_text, is_ascii_bytes, label_text};
use crate::protocol::wire::{holds, lemma_holds_byte, lemma_holds_split, CAPACITY};

verus! {

/// A compression pointer stands at offset `pos`, whole inside the datagram.
pub open spec fn pointer_at(buf: Seq<u8>, pos: int) -> bool {
    0 <= pos && pos + 1 < CAPACITY && is_pointer(buf[pos])
}

/// The offset reached from `pos` by following `n` pointers.
pub open spec fn hop(buf: Seq<u8>, pos: int, n: nat) -> int
    decreases n,
{
    if n == 0 {
        pos
    } else {
        hop(buf, pointer_target(buf[pos], buf[pos + 1]), (n - 1) as nat)
    }
}

/// Following `a` pointers and then `b` more is following `a + b`.
pub proof fn lemma_hop_add(buf: Seq<u8>, pos: int, a: nat, b: nat)
    ensures
        hop(buf, pos, a + b) == hop(buf, hop(buf, pos, a), b),
    decreases a,
{
    if a > 0 {
        lemma_hop_add(buf, pointer_target(buf[pos], buf[pos + 1]), (a - 1) as nat, b);
    }
}

/// A walk that meets nothing but pointers until its allowance is used up fails.
proof fn lemma_only_pointers(buf: Seq<u8>, pos: int, jumps: int, jumped: bool)
    requires
        buf.len() == CAPACITY,
        0 <= jumps <= 6,
        jumped || pos + 2 < CAPACITY,
        forall|n: nat| n + jumps <= 5 ==> pointer_at(buf, #[trigger] hop(buf, pos, n)),
    ensures
        walk(buf, pos, jumps, jumped) == Err::<Walk, DnsError>(DnsError::CompressionLoop),
    decreases 6 - jumps,
{
    if jumps <= 5 {
        assert(pointer_at(buf, hop(buf, pos, 0)));
        let next = pointer_target(buf[pos], buf[pos + 1]);
        assert forall|n: nat| n + (jumps + 1) <= 5 implies pointer_at(buf, #[trigger] hop(buf, next, n)) by {
            assert(hop(buf, pos, n + 1) == hop(buf, next, n));
        }
        lemma_only_pointers(buf, next, jumps + 1, true);
    }
}

/// A name that begins with a pointer, whose target is a pointer again, and so on for six
/// pointers, is refused as a loop: no more than five pointers are followed.
pub proof fn theorem_six_pointers_fail(buf: Seq<u8>, pos: int)
    requires
        buf.len() == CAPACITY,
        pos + 2 < CAPACITY,
        forall|n: nat| n <= 5 ==> pointer_at(buf, #[trigger] hop(buf, pos, n)),
    ensures
        name_at(buf, pos) == Err::<(Seq<char>, int), DnsError>(DnsError::CompressionLoop),
{
    lemma_only_pointers(buf, pos, 0, false);
}

/// On a cycle of pointers every offset that is reached holds a pointer.
proof fn lemma_cycle(buf: Seq<u8>, pos: int, period: nat, n: nat)
    requires
        period >= 1,
        hop(buf, pos, period) == pos,
        forall|k: nat| k < period ==> pointer_at(buf, #[trigger] hop(buf, pos, k)),
    ensures
        pointer_at(buf, hop(buf, pos, n)),
    decreases n,
{
    if n >= period {
        lemma_hop_add(buf, pos, period, (n - period) as nat);
        lemma_cycle(buf, pos, period, (n - period) as nat);
    }
}

/// A name whose pointers lead back to where it began is refused as a loop.
pub proof fn theorem_pointer_cycle_fails(buf: Seq<u8>, pos: int, period: nat)
    requires
        buf.len() == CAPACITY,
        pos + 2 < CAPACITY,
        period >= 1,
        hop(buf, pos, period) == pos,
        forall|k: nat| k < period ==> pointer_at(buf, #[trigger] hop(buf, pos, k)),
    ensures
        name_at(buf, pos) == Err::<(Seq<char>, int), DnsError>(DnsError::CompressionLoop),
{
    assert forall|n: nat| n <= 5 implies pointer_at(buf, #[trigger] hop(buf, pos, n)) by {
        lemma_cycle(buf, pos, period, n);
    }
    theorem_six_pointers_fail(buf, pos);
}

/// Labels on the wire, one behind the other, with nothing to close them.
pub open spec fn labels_wire(labels: Seq<Seq<u8>>) -> Seq<u8>
    decreases labels.len(),
{
    if labels.len() == 0 {
        Seq::empty()
    } else {
        label_wire(labels[0]) + labels_wire(labels.drop_first())
    }
}

/// The two bytes of a compression pointer to the offset `target`.
pub open spec fn pointer_wire(target: int) -> Seq<u8> {
    seq![(0xC0 + target / 256) as u8, (target % 256) as u8]
}

/// The text of each label.
pub open spec fn label_texts(labels: Seq<Seq<u8>>) -> Seq<Seq<char>> {
    labels.map_values(|l: Seq<u8>| label_text(l))
}

/// Each label has at least one byte and at most 63.
pub open spec fn labels_fit(labels: Seq<Seq<u8>>) -> bool {
    forall|i: int| 0 <= i < labels.len() ==> 1 <= (#[trigger] labels[i]).len() <= MAX_LABEL
}

/// A walk over labels that stand one behind the other collects their texts and goes on
/// behind them.
pub proof fn lemma_walk_labels(buf: Seq<u8>, pos: int, labels: Seq<Seq<u8>>)
    requires
        buf.len() == CAPACITY,
        0 <= pos,
        labels_fit(labels),
        holds(buf, pos, labels_wire(labels)),
        pos + labels_wire(labels).len() < CAPACITY,
    ensures
        walk(buf, pos, 0, false) == match walk(buf, pos + labels_wire(labels).len(), 0, false) {
            Ok(w) => Ok::<Walk, DnsError>(Walk { labels: label_texts(labels) + w.labels, cursor: w.cursor }),
            Err(e) => Err::<Walk, DnsError>(e),
        },
    decreases labels.len(),
{
    let after = walk(buf, pos + labels_wire(labels).len(), 0, false);
    if labels.len() == 0 {
        if after is Ok {
            assert(label_texts(labels) + after->Ok_0.labels =~= after->Ok_0.labels);
        }
    } else {
        let l = labels[0];
        let rest = labels.drop_first();
        assert(labels_fit(rest)) by {
            assert forall|i: int| 0 <= i < rest.len() implies 1 <= (#[trigger] rest[i]).len() <= MAX_LABEL by {
                assert(rest[i] == labels[i + 1]);
            }
        }
        lemma_holds_split(buf, pos, label_wire(l), labels_wire(rest));
        lemma_holds_byte(buf, pos, label_wire(l), 0);
        assert(buf.subrange(pos + 1, pos + 1 + l.len()) =~= l) by {
            assert forall|i: int| 0 <= i < l.len() implies buf[pos + 1 + i] == l[i] by {
                lemma_holds_byte(buf, pos, label_wire(l), 1 + i);
            }
        }
        lemma_walk_labels(buf, pos + 1 + l.len(), rest);
        assert(label_texts(labels) =~= seq![label_text(l)] + label_texts(rest));
        if after is Ok {
            assert(label_texts(labels) + after->Ok_0.labels =~= seq![label_text(l)] + (label_texts(rest)
                + after->Ok_0.labels));
        }
    }
}

/// Labels followed by a pointer to a place where a name can be read decode to those labels
/// and then that name, and the cursor ends two bytes behind the offset of the pointer,
/// wherever the pointer leads.
pub proof fn theorem_pointer_expands(
    buf: Seq<u8>,
    pos: int,
    labels: Seq<Seq<u8>>,
    target: int,
    tail: Walk,
)
    requires
        buf.len() == CAPACITY,
        0 <= pos,
        labels_fit(labels),
        0 <= target < 0x4000,
        holds(buf, pos, labels_wire(labels) + pointer_wire(target)),
        pos + labels_wire(labels).len() + 2 < CAPACITY,
        walk(buf, target, 1, true) == Ok::<Walk, DnsError>(tail),
    ensures
        name_at(buf, pos) == Ok::<(Seq<char>, int), DnsError>(
            (join_dots(label_texts(labels) + tail.labels), pos + labels_wire(labels).len() + 2),
        ),
{
    let p = pos + labels_wire(labels).len();
    lemma_holds_split(buf, pos, labels_wire(labels), pointer_wire(target));
    lemma_walk_labels(buf, pos, labels);
    lemma_holds_byte(buf, p, pointer_wire(target), 0);
    lemma_holds_byte(buf, p, pointer_wire(target), 1);
    assert(pointer_target(buf[p], buf[p + 1]) == target);
}

/// The labels of the dotted name whose bytes are `n` from offset `from` on: the stretches
/// between its dots.
pub open spec fn labels_from(n: Seq<u8>, from: int) -> Seq<Seq<u8>>
    decreases n.len() - from,
{
    let k = label_len(n, from);
    let label = n.subrange(from, from + k);
    if from + k >= n.len() {
        seq![label]
    } else {
        seq![label] + labels_from(n, from + k + 1)
    }
}

/// A name that decoding gives back as it was encoded: ASCII without capital letters, each
/// label of at least one byte and at most 63.
#[verifier::opaque]
pub open spec fn plain_name(name: Seq<char>) -> bool {
    &&& is_ascii_chars(name)
    &&& forall|i: int| 0 <= i < name.len() ==> !(0x41 <= #[trigger] name[i] as u32 <= 0x5A)
    &&& labels_fit(labels_from(encode_utf8(name), 0))
}

/// The wire form of a name is the wire form of its labels and a zero byte.
pub proof fn lemma_name_wire_labels(n: Seq<u8>, from: int)
    requires
        0 <= from <= n.len(),
    ensures
        name_wire_from(n, from) == labels_wire(labels_from(n, from)) + seq![0u8],
    decreases n.len() - from,
{
    lemma_label_end(n, from);
    let k = label_len(n, from);
    let label = n.subrange(from, from + k);
    let labels = labels_from(n, from);
    if from + k >= n.len() {
        assert(labels[0] == label);
        assert(labels.drop_first() =~= Seq::<Seq<u8>>::empty());
        assert(labels_wire(Seq::<Seq<u8>>::empty()) =~= Seq::<u8>::empty());
        assert(labels_wire(labels) =~= label_wire(label));
    } else {
        lemma_name_wire_labels(n, from + k + 1);
        assert(labels[0] == label);
        assert(labels.drop_first() =~= labels_from(n, from + k + 1));
        assert(name_wire_from(n, from) =~= labels_wire(labels) + seq![0u8]);
    }
}

/// The labels behind the first label of a name fit if all its labels do, and a name whose
/// labels fit has no oversized label.
pub proof fn lemma_labels_fit(n: Seq<u8>, from: int)
    requires
        0 <= from <= n.len(),
        labels_fit(labels_from(n, from)),
    ensures
        1 <= label_len(n, from) <= MAX_LABEL,
        from + label_len(n, from) < n.len() ==> labels_fit(labels_from(n, from + label_len(n, from) + 1)),
        long_label_from(n, from) is None,
    decreases n.len() - from,
{
    lemma_label_end(n, from);
    let k = label_len(n, from);
    let labels = labels_from(n, from);
    assert(labels[0] == n.subrange(from, from + k));
    if from + k < n.len() {
        let rest = labels_from(n, from + k + 1);
        assert forall|i: int| 0 <= i < rest.len() implies 1 <= (#[trigger] rest[i]).len() <= MAX_LABEL by {
            assert(rest[i] == labels[i + 1]);
        }
        lemma_labels_fit(n, from + k + 1);
    }
}

/// Joining a label and more labels puts a dot between them.
pub proof fn lemma_join_first(first: Seq<char>, rest: Seq<Seq<char>>)
    ensures
        join_dots(seq![first] + rest) == if rest.len() == 0 {
            first
        } else {
            first + seq!['.'] + join_dots(rest)
        },
    decreases rest.len(),
{
    let all = seq![first] + rest;
    if rest.len() == 0 {
        assert(all[0] == first);
    } else {
        assert(all.drop_last() =~= seq![first] + rest.drop_last());
        assert(all.last() == rest.last());
        lemma_join_first(first, rest.drop_last());
        if rest.len() == 1 {
            assert(rest[0] == rest.last());
            assert(join_dots(all) =~= first + seq!['.'] + join_dots(rest));
        } else {
            assert(join_dots(all) =~= first + seq!['.'] + join_dots(rest));
        }
    }
}

/// The labels of an ASCII name without capital letters, joined by dots, are the name.
pub proof fn lemma_join_labels(n: Seq<u8>, from: int)
    requires
        0 <= from <= n.len(),
        is_ascii_bytes(n),
        forall|i: int| 0 <= i < n.len() ==> !(0x41 <= #[trigger] n[i] <= 0x5A),
    ensures
        join_dots(label_texts(labels_from(n, from))) == ascii_text(n.subrange(from, n.len() as int)),
    decreases n.len() - from,
{
    lemma_label_end(n, from);
    let k = label_len(n, from);
    let label = n.subrange(from, from + k);
    assert(is_ascii_bytes(label)) by {
        assert forall|i: int| 0 <= i < label.len() implies #[trigger] label[i] < 0x80 by {
            assert(n[from + i] < 0x80);
        }
    }
    assert(label_text(label) =~= ascii_text(label)) by {
        assert forall|i: int| 0 <= i < label.len() implies ascii_lower(ascii_text(label))[i] == ascii_text(
            label,
        )[i] by {
            assert(!(0x41 <= n[from + i] <= 0x5A));
        }
    }
    if from + k >= n.len() {
        assert(label_texts(labels_from(n, from)) =~= seq![label_text(label)]);
        assert(label =~= n.subrange(from, n.len() as int));
    } else {
        let rest = labels_from(n, from + k + 1);
        lemma_join_labels(n, from + k + 1);
        assert(label_texts(labels_from(n, from)) =~= seq![label_text(label)] + label_texts(rest));
        lemma_join_first(label_text(label), label_texts(rest));
        assert(n[from + k] == DOT);
        assert(ascii_text(label) + seq!['.'] + ascii_text(n.subrange(from + k + 1, n.len() as int))
            =~= ascii_text(n.subrange(from, n.len() as int)));
    }
}

/// A plain name that stands in wire form in a datagram, with at least one byte behind it, is
/// read back as it is, with the cursor behind its closing zero byte.
pub proof fn lemma_name_round_trip(buf: Seq<u8>, pos: int, name: Seq<char>)
    requires
        buf.len() == CAPACITY,
        0 <= pos,
        plain_name(name),
        holds(buf, pos, name_piece(name).wire),
        pos + name_piece(name).wire.len() < CAPACITY,
    ensures
        name_piece(name).bad is None,
        name_at(buf, pos) == Ok::<(Seq<char>, int), DnsError>((name, pos + name_piece(name).wire.len())),
{
    reveal(plain_name);
    let n = encode_utf8(name);
    let labels = labels_from(n, 0);
    is_ascii_chars_encode_utf8(name);
    assert(is_ascii_bytes(n)) by {
        assert forall|i: int| 0 <= i < n.len() implies #[trigger] n[i] < 0x80 by {
            assert(name[i] as u8 == n[i]);
        }
    }
    assert forall|i: int| 0 <= i < n.len() implies !(0x41 <= #[trigger] n[i] <= 0x5A) by {
        assert(name[i] as u8 == n[i]);
    }
    assert(ascii_text(n) =~= name) by {
        assert forall|i: int| 0 <= i < n.len() implies ascii_text(n)[i] == name[i] by {
            assert(name[i] as u8 == n[i]);
        }
    }
    lemma_name_wire_labels(n, 0);
    lemma_labels_fit(n, 0);
    lemma_holds_split(buf, pos, labels_wire(labels), seq![0u8]);
    lemma_walk_labels(buf, pos, labels);
    let end = pos + labels_wire(labels).len();
    lemma_holds_byte(buf, end, seq![0u8], 0);
    assert(label_texts(labels) + Seq::<Seq<char>>::empty() =~= label_texts(labels));
    lemma_join_labels(n, 0);
    assert(n.subrange(0, n.len() as int) =~= n);
}

} // verus!
