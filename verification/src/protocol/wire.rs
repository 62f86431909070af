use vstd::prelude::*;
use crate::protocol::error::DnsError;

verus! {

/// Number of bytes in a datagram.
pub const CAPACITY: usize = 512;

/// The 16-bit value stored big-endian at offset `p` of `b`.
pub open spec fn u16_at(b: Seq<u8>, p: int) -> u16 {
    (b[p] as int * 256 + b[p + 1] as int) as u16
}

/// The 32-bit value stored big-endian at offset `p` of `b`.
pub open spec fn u32_at(b: Seq<u8>, p: int) -> u32 {
    (b[p] as int * 0x100_0000 + b[p + 1] as int * 0x1_0000 + b[p + 2] as int * 0x100 + b[p
        + 3] as int) as u32
}

/// The two bytes of `v`, most significant first.
pub open spec fn u16_wire(v: u16) -> Seq<u8> {
    seq![(v / 256) as u8, (v % 256) as u8]
}

/// The four bytes of `v`, most significant first.
pub open spec fn u32_wire(v: u32) -> Seq<u8> {
    seq![
        (v / 0x100_0000) as u8,
        ((v / 0x1_0000) % 256) as u8,
        ((v / 0x100) % 256) as u8,
        (v % 256) as u8,
    ]
}

/// `b` with the bytes `w` written over it from offset `at` on.
pub open spec fn overlay(b: Seq<u8>, at: int, w: Seq<u8>) -> Seq<u8> {
    Seq::new(b.len(), |i: int| if at <= i < at + w.len() { w[i - at] } else { b[i] })
}

/// `b` holds the bytes `w` from offset `at` on.
#[verifier::opaque]
pub open spec fn holds(b: Seq<u8>, at: int, w: Seq<u8>) -> bool {
    &&& 0 <= at
    &&& at + w.len() <= b.len()
    &&& forall|i: int| 0 <= i < w.len() ==> b[at + i] == #[trigger] w[i]
}

/// A stretch of a message as it is written: its bytes, and where among them the first label
/// of more than 63 bytes begins, if it has one. Such a label is never written, so the bytes
/// from there on stand for nothing.
pub struct Piece {
    pub wire: Seq<u8>,
    pub bad: Option<int>,
}

impl Piece {
    /// A stretch that holds no name.
    pub open spec fn plain(wire: Seq<u8>) -> Piece {
        Piece { wire, bad: None }
    }

    /// This stretch with `next` behind it.
    pub open spec fn followed_by(self, next: Piece) -> Piece {
        Piece {
            wire: self.wire + next.wire,
            bad: match self.bad {
                Some(o) => Some(o),
                None => match next.bad {
                    Some(o) => Some(self.wire.len() + o),
                    None => None,
                },
            },
        }
    }

    /// An oversized label begins inside the stretch.
    pub open spec fn sound(self) -> bool {
        self.bad is Some ==> 0 <= self.bad->Some_0 < self.wire.len()
    }

    /// What becomes of writing the stretch at offset `pos` of a datagram. The bytes are
    /// written in order: the first oversized label is refused if all that stands before it
    /// fits, and otherwise the datagram ends first.
    pub open spec fn outcome(self, pos: int) -> Result<(), DnsError> {
        match self.bad {
            Some(o) => if o == 0 || pos + o <= CAPACITY {
                Err(DnsError::LabelTooLong)
            } else {
                Err(DnsError::EndOfBuffer)
            },
            None => if self.wire.len() == 0 || pos + self.wire.len() <= CAPACITY {
                Ok(())
            } else {
                Err(DnsError::EndOfBuffer)
            },
        }
    }
}

/// The stretches of `pieces` one behind the other.
pub open spec fn concat(pieces: Seq<Piece>) -> Piece
    decreases pieces.len(),
{
    if pieces.len() == 0 {
        Piece::plain(Seq::empty())
    } else {
        concat(pieces.drop_last()).followed_by(pieces.last())
    }
}

/// Putting stretches one behind the other does not depend on the grouping.
pub proof fn lemma_followed_by_assoc(a: Piece, b: Piece, c: Piece)
    ensures
        a.followed_by(b).followed_by(c) == a.followed_by(b.followed_by(c)),
{
    assert(a.followed_by(b).followed_by(c).wire =~= a.followed_by(b.followed_by(c)).wire);
}

/// Writing two stretches one behind the other is writing the first and, if that went well,
/// the second where the first ended.
pub proof fn lemma_outcome_seq(a: Piece, b: Piece, pos: int)
    requires
        a.sound(),
        b.sound(),
    ensures
        a.followed_by(b).sound(),
        a.followed_by(b).outcome(pos) == match a.outcome(pos) {
            Ok(_) => b.outcome(pos + a.wire.len()),
            Err(e) => Err(e),
        },
{
}

/// Stretches in which oversized labels begin inside make a stretch of that kind.
pub proof fn lemma_concat_sound(pieces: Seq<Piece>)
    requires
        forall|i: int| 0 <= i < pieces.len() ==> (#[trigger] pieces[i]).sound(),
    ensures
        concat(pieces).sound(),
    decreases pieces.len(),
{
    if pieces.len() > 0 {
        lemma_concat_sound(pieces.drop_last());
        lemma_outcome_seq(concat(pieces.drop_last()), pieces.last(), 0);
    }
}

/// A row of stretches is its first `i` stretches followed by the others.
pub proof fn lemma_concat_split(pieces: Seq<Piece>, i: int)
    requires
        0 <= i <= pieces.len(),
    ensures
        concat(pieces) == concat(pieces.take(i)).followed_by(concat(pieces.skip(i))),
    decreases pieces.len(),
{
    let front = concat(pieces.take(i));
    if i == pieces.len() {
        assert(pieces.take(i) =~= pieces);
        assert(pieces.skip(i) =~= Seq::<Piece>::empty());
        assert(front.followed_by(concat(pieces.skip(i))).wire =~= front.wire);
    } else {
        lemma_concat_split(pieces.drop_last(), i);
        assert(pieces.drop_last().take(i) =~= pieces.take(i));
        assert(pieces.drop_last().skip(i) =~= pieces.skip(i).drop_last());
        assert(pieces.skip(i).last() == pieces.last());
        lemma_followed_by_assoc(front, concat(pieces.skip(i).drop_last()), pieces.last());
    }
}

/// Writing a row of stretches up to and with the one at index `i`: it goes as writing those
/// before it and then that one, and if it fails the whole row fails in the same way.
pub proof fn lemma_concat_step(pieces: Seq<Piece>, i: int, pos: int)
    requires
        0 <= i < pieces.len(),
        forall|j: int| 0 <= j < pieces.len() ==> (#[trigger] pieces[j]).sound(),
    ensures
        concat(pieces.take(i)).sound(),
        concat(pieces.take(i + 1)).sound(),
        concat(pieces.take(i + 1)) == concat(pieces.take(i)).followed_by(pieces[i]),
        concat(pieces.take(i + 1)).outcome(pos) == match concat(pieces.take(i)).outcome(pos) {
            Ok(_) => pieces[i].outcome(pos + concat(pieces.take(i)).wire.len()),
            Err(e) => Err(e),
        },
        concat(pieces.take(i + 1)).outcome(pos) is Err ==> concat(pieces).outcome(pos) == concat(
            pieces.take(i + 1),
        ).outcome(pos),
{
    assert(pieces.take(i + 1).drop_last() =~= pieces.take(i));
    lemma_concat_sound(pieces.take(i));
    lemma_concat_sound(pieces.take(i + 1));
    lemma_concat_sound(pieces.skip(i + 1));
    lemma_outcome_seq(concat(pieces.take(i)), pieces[i], pos);
    lemma_concat_split(pieces, i + 1);
    lemma_outcome_seq(concat(pieces.take(i + 1)), concat(pieces.skip(i + 1)), pos);
}

/// What was written is what the buffer holds.
pub proof fn lemma_overlay_holds(b: Seq<u8>, at: int, w: Seq<u8>)
    requires
        0 <= at,
        at + w.len() <= b.len(),
    ensures
        holds(overlay(b, at, w), at, w),
        overlay(b, at, w).len() == b.len(),
{
    reveal(holds);
}

/// A buffer that holds `w + v` holds `w`, and `v` right behind it.
pub proof fn lemma_holds_split(b: Seq<u8>, at: int, w: Seq<u8>, v: Seq<u8>)
    requires
        holds(b, at, w + v),
    ensures
        holds(b, at, w),
        holds(b, at + w.len(), v),
        0 <= at,
        at + w.len() + v.len() <= b.len(),
{
    reveal(holds);
    assert forall|i: int| 0 <= i < w.len() implies b[at + i] == #[trigger] w[i] by {
        assert((w + v)[i] == w[i]);
    }
    assert forall|i: int| 0 <= i < v.len() implies b[at + w.len() + i] == #[trigger] v[i] by {
        assert((w + v)[w.len() + i] == v[i]);
    }
}

/// A row of one stretch is that stretch.
pub proof fn lemma_concat_one(piece: Piece)
    ensures
        concat(seq![piece]) == piece,
{
    assert(seq![piece].drop_last() =~= Seq::<Piece>::empty());
    assert(concat(Seq::<Piece>::empty()).wire =~= Seq::<u8>::empty());
    assert(concat(seq![piece]).wire =~= piece.wire);
}

/// A row of stretches is its first stretch followed by the others.
pub proof fn lemma_concat_first(pieces: Seq<Piece>)
    requires
        pieces.len() > 0,
    ensures
        concat(pieces) == pieces[0].followed_by(concat(pieces.drop_first())),
{
    lemma_concat_split(pieces, 1);
    assert(pieces.take(1) =~= seq![pieces[0]]);
    assert(pieces.skip(1) =~= pieces.drop_first());
    lemma_concat_one(pieces[0]);
}

/// A datagram that holds a 16-bit number and more holds the number, and the rest behind it.
pub proof fn lemma_holds_u16(b: Seq<u8>, at: int, v: u16, rest: Seq<u8>)
    requires
        holds(b, at, u16_wire(v) + rest),
    ensures
        u16_at(b, at) == v,
        holds(b, at + 2, rest),
        0 <= at,
        at + 2 + rest.len() <= b.len(),
{
    lemma_holds_split(b, at, u16_wire(v), rest);
    lemma_u16_round_trip(b, at, v);
}

/// A datagram that holds a 32-bit number and more holds the number, and the rest behind it.
pub proof fn lemma_holds_u32(b: Seq<u8>, at: int, v: u32, rest: Seq<u8>)
    requires
        holds(b, at, u32_wire(v) + rest),
    ensures
        u32_at(b, at) == v,
        holds(b, at + 4, rest),
        0 <= at,
        at + 4 + rest.len() <= b.len(),
{
    lemma_holds_split(b, at, u32_wire(v), rest);
    lemma_u32_round_trip(b, at, v);
}

/// What a datagram holds lies inside it.
pub proof fn lemma_holds_bounds(b: Seq<u8>, at: int, w: Seq<u8>)
    requires
        holds(b, at, w),
    ensures
        0 <= at,
        at + w.len() <= b.len(),
{
    reveal(holds);
}

/// The byte at index `i` of what a datagram holds.
pub proof fn lemma_holds_byte(b: Seq<u8>, at: int, w: Seq<u8>, i: int)
    requires
        holds(b, at, w),
        0 <= i < w.len(),
    ensures
        0 <= at,
        at + w.len() <= b.len(),
        b[at + i] == w[i],
{
    reveal(holds);
}

/// Splitting a 16-bit value into bytes and joining them again changes nothing.
pub proof fn lemma_u16_round_trip(b: Seq<u8>, at: int, v: u16)
    requires
        holds(b, at, u16_wire(v)),
    ensures
        u16_at(b, at) == v,
{
    reveal(holds);
    assert(b[at + 0] == u16_wire(v)[0]);
    assert(b[at + 1] == u16_wire(v)[1]);
}

/// Splitting a 32-bit value into bytes and joining them again changes nothing.
pub proof fn lemma_u32_round_trip(b: Seq<u8>, at: int, v: u32)
    requires
        holds(b, at, u32_wire(v)),
    ensures
        u32_at(b, at) == v,
{
    reveal(holds);
    assert(b[at + 0] == u32_wire(v)[0]);
    assert(b[at + 1] == u32_wire(v)[1]);
    assert(b[at + 2] == u32_wire(v)[2]);
    assert(b[at + 3] == u32_wire(v)[3]);
}

} // verus!
