use vstd::prelude::*;
use vstd::slice::slice_subrange;
use vstd::string::StringExecFns;
use vstd::utf8::encode_utf8;
use crate::protocol::error::DnsError;
use crate::protocol::name::{
    is_pointer, join_dots, label_wire, lemma_label_len, lemma_name_wire_len, long_label,
    long_label_from, name_at, name_piece, name_wire, name_wire_from, pointer_target, walk, Walk,
    DOT, MAX_JUMPS, MAX_LABEL,
};
use crate::protocol::text::{label_string, label_text, push_label};
use crate::protocol::wire::{overlay, u16_at, u16_wire, u32_at, u32_wire, Piece, CAPACITY};

verus! {

/// A datagram of fixed capacity with a cursor for reading and writing.
pub struct BytePacketBuffer {
    pub buf: [u8; 512],
    pub pos: usize,
}

/// Writing the stretch `piece` took the datagram from `before` to `after` with the result `r`:
/// the result is what the stretch and the cursor call for, and on success the datagram holds
/// the stretch where the cursor was and the cursor stands behind it.
pub open spec fn wrote(
    before: &BytePacketBuffer,
    after: &BytePacketBuffer,
    r: Result<(), DnsError>,
    piece: Piece,
) -> bool {
    &&& r == piece.outcome(before.pos as int)
    &&& r is Ok ==> after.holds_after(before, piece.wire)
    &&& r is Err ==> after.continues(before)
}

/// Two writes one after the other are one write of the two stretches.
pub proof fn lemma_wrote_seq(
    before: &BytePacketBuffer,
    mid: &BytePacketBuffer,
    after: &BytePacketBuffer,
    r: Result<(), DnsError>,
    first: Piece,
    second: Piece,
)
    requires
        wrote(before, mid, Ok(()), first),
        wrote(mid, after, r, second),
        first.sound(),
        second.sound(),
    ensures
        wrote(before, after, r, first.followed_by(second)),
{
    if r is Ok {
        assert(after.buf@ =~= overlay(before.buf@, before.pos as int, first.wire + second.wire));
    }
}

/// Writing nothing changes nothing.
pub proof fn lemma_wrote_nothing(b: &BytePacketBuffer)
    ensures
        wrote(b, b, Ok(()), Piece::plain(Seq::empty())),
{
    assert(b.buf@ =~= overlay(b.buf@, b.pos as int, Seq::<u8>::empty()));
}

impl Default for BytePacketBuffer {
    fn default() -> (r: BytePacketBuffer)
        ensures
            r.pos == 0,
            forall|i: int| 0 <= i < CAPACITY ==> r.buf@[i] == 0u8,
    {
        BytePacketBuffer::new()
    }
}

impl BytePacketBuffer {
    /// The cursor is inside the datagram or directly behind its last byte.
    pub open spec fn wf(&self) -> bool {
        self.pos <= CAPACITY
    }

    /// `self` came from `before` by writing at or behind the cursor of `before`.
    pub open spec fn continues(&self, before: &BytePacketBuffer) -> bool {
        &&& before.pos <= self.pos
        &&& before.wf() ==> self.wf()
        &&& forall|i: int| 0 <= i < before.pos && i < CAPACITY ==> self.buf@[i] == before.buf@[i]
    }

    /// `self` came from `before` by writing `wire` at the cursor of `before`.
    pub open spec fn holds_after(&self, before: &BytePacketBuffer, wire: Seq<u8>) -> bool {
        &&& self.buf@ == overlay(before.buf@, before.pos as int, wire)
        &&& self.pos == before.pos + wire.len()
    }

    /// A zeroed datagram with the cursor at its start.
    pub fn new() -> (r: BytePacketBuffer)
        ensures
            r.pos == 0,
            forall|i: int| 0 <= i < CAPACITY ==> r.buf@[i] == 0u8,
    {
        BytePacketBuffer { buf: [0; 512], pos: 0 }
    }

    /// The cursor.
    pub fn pos(&self) -> (r: usize)
        ensures
            r == self.pos,
    {
        self.pos
    }

    /// Moves the cursor forward by `steps`, provided it stays inside the datagram.
    pub fn step(&mut self, steps: usize) -> (r: Result<(), DnsError>)
        ensures
            old(self).wf() ==> final(self).wf(),
            final(self).buf == old(self).buf,
            old(self).pos + steps < CAPACITY ==> {
                &&& r is Ok
                &&& final(self).pos == old(self).pos + steps
            },
            old(self).pos + steps >= CAPACITY ==> {
                &&& r == Err::<(), DnsError>(DnsError::EndOfBuffer)
                &&& final(self).pos == old(self).pos
            },
    {
        if self.pos >= CAPACITY || steps >= CAPACITY - self.pos {
            return Err(DnsError::EndOfBuffer);
        }
        self.pos += steps;
        Ok(())
    }

    /// Puts the cursor at `pos`, provided that is inside the datagram.
    pub fn seek(&mut self, pos: usize) -> (r: Result<(), DnsError>)
        ensures
            old(self).wf() ==> final(self).wf(),
            final(self).buf == old(self).buf,
            pos < CAPACITY ==> r is Ok && final(self).pos == pos,
            pos >= CAPACITY ==> {
                &&& r == Err::<(), DnsError>(DnsError::EndOfBuffer)
                &&& final(self).pos == old(self).pos
            },
    {
        if pos >= CAPACITY {
            return Err(DnsError::EndOfBuffer);
        }
        self.pos = pos;
        Ok(())
    }

    /// Reads the byte under the cursor and moves the cursor behind it.
    pub fn read(&mut self) -> (r: Result<u8, DnsError>)
        ensures
            old(self).wf() ==> final(self).wf(),
            final(self).buf == old(self).buf,
            old(self).pos < CAPACITY ==> {
                &&& r == Ok::<u8, DnsError>(old(self).buf@[old(self).pos as int])
                &&& final(self).pos == old(self).pos + 1
            },
            old(self).pos >= CAPACITY ==> {
                &&& r == Err::<u8, DnsError>(DnsError::EndOfBuffer)
                &&& final(self).pos == old(self).pos
            },
    {
        if self.pos >= CAPACITY {
            return Err(DnsError::EndOfBuffer);
        }
        let res = self.buf[self.pos];
        self.pos += 1;
        Ok(res)
    }

    /// The byte at offset `pos`; the cursor is not consulted.
    pub fn get(&self, pos: usize) -> (r: Result<u8, DnsError>)
        ensures
            pos < CAPACITY ==> r == Ok::<u8, DnsError>(self.buf@[pos as int]),
            pos >= CAPACITY ==> r == Err::<u8, DnsError>(DnsError::EndOfBuffer),
    {
        if pos >= CAPACITY {
            return Err(DnsError::EndOfBuffer);
        }
        Ok(self.buf[pos])
    }

    /// The `len` bytes from offset `start` on.
    pub fn get_range(&self, start: usize, len: usize) -> (r: Result<&[u8], DnsError>)
        ensures
            start + len <= CAPACITY ==> {
                &&& r is Ok
                &&& r->Ok_0@ == self.buf@.subrange(start as int, start + len)
            },
            start + len > CAPACITY ==> r == Err::<&[u8], DnsError>(DnsError::EndOfBuffer),
    {
        if start > CAPACITY || len > CAPACITY - start {
            return Err(DnsError::EndOfBuffer);
        }
        Ok(slice_subrange(self.buf.as_slice(), start, start + len))
    }

    /// Reads two bytes as a big-endian number and moves the cursor behind them.
    pub fn read_u16(&mut self) -> (r: Result<u16, DnsError>)
        ensures
            old(self).wf() ==> final(self).wf(),
            final(self).buf == old(self).buf,
            old(self).pos + 2 <= CAPACITY ==> {
                &&& r == Ok::<u16, DnsError>(u16_at(old(self).buf@, old(self).pos as int))
                &&& final(self).pos == old(self).pos + 2
            },
            old(self).pos + 2 > CAPACITY ==> {
                &&& r == Err::<u16, DnsError>(DnsError::EndOfBuffer)
                &&& final(self).pos == old(self).pos
            },
    {
        if self.pos > CAPACITY - 2 {
            return Err(DnsError::EndOfBuffer);
        }
        let hi: u8 = self.read()?;
        let lo: u8 = self.read()?;
        let res: u16 = (hi as u16) << 8 | (lo as u16);
        assert(res == hi as u16 * 256 + lo as u16) by (bit_vector)
            requires
                res == (hi as u16) << 8 | (lo as u16),
        ;
        Ok(res)
    }

    /// Reads four bytes as a big-endian number and moves the cursor behind them.
    pub fn read_u32(&mut self) -> (r: Result<u32, DnsError>)
        ensures
            old(self).wf() ==> final(self).wf(),
            final(self).buf == old(self).buf,
            old(self).pos + 4 <= CAPACITY ==> {
                &&& r == Ok::<u32, DnsError>(u32_at(old(self).buf@, old(self).pos as int))
                &&& final(self).pos == old(self).pos + 4
            },
            old(self).pos + 4 > CAPACITY ==> {
                &&& r == Err::<u32, DnsError>(DnsError::EndOfBuffer)
                &&& final(self).pos == old(self).pos
            },
    {
        if self.pos > CAPACITY - 4 {
            return Err(DnsError::EndOfBuffer);
        }
        let first: u8 = self.read()?;
        let second: u8 = self.read()?;
        let third: u8 = self.read()?;
        let fourth: u8 = self.read()?;
        let res: u32 = (first as u32) << 24 | (second as u32) << 16 | (third as u32) << 8 | (
            fourth as u32);
        assert(res == first as u32 * 0x100_0000 + second as u32 * 0x1_0000 + third as u32 * 0x100
            + fourth as u32) by (bit_vector)
            requires
                res == (first as u32) << 24 | (second as u32) << 16 | (third as u32) << 8 | (
                    fourth as u32),
        ;
        Ok(res)
    }

    /// Decodes the name under the cursor, following compression pointers, and appends it to
    /// `outstr`. The cursor ends behind the name as it stands under the cursor: behind its
    /// closing zero byte, or behind the first pointer. On failure nothing changes.
    pub fn read_qname(&mut self, outstr: &mut String) -> (r: Result<(), DnsError>)
        ensures
            old(self).wf() ==> final(self).wf(),
            final(self).buf == old(self).buf,
            match name_at(old(self).buf@, old(self).pos as int) {
                Ok((name, cursor)) => {
                    &&& r is Ok
                    &&& final(self).pos == cursor
                    &&& final(outstr)@ == old(outstr)@ + name
                },
                Err(e) => {
                    &&& r == Err::<(), DnsError>(e)
                    &&& final(self).pos == old(self).pos
                    &&& final(outstr)@ == old(outstr)@
                },
            },
    {
        let mut pos: usize = self.pos;
        let mut cursor: usize = self.pos;
        let mut jumped = false;
        let mut jumps: usize = 0;
        let mut name = String::new();
        let mut first = true;
        let ghost mut done: Seq<Seq<char>> = Seq::empty();
        let ghost whole = walk(self.buf@, self.pos as int, 0, false);
        loop
            invariant_except_break
                match walk(self.buf@, pos as int, jumps as int, jumped) {
                    Ok(w) => whole == Ok::<Walk, DnsError>(
                        Walk {
                            labels: done + w.labels,
                            cursor: if jumped {
                                cursor as int
                            } else {
                                w.cursor
                            },
                        },
                    ),
                    Err(e) => whole == Err::<Walk, DnsError>(e),
                },
            invariant
                *self == *old(self),
                whole == walk(self.buf@, self.pos as int, 0, false),
                jumps <= MAX_JUMPS + 1,
                jumped ==> cursor < CAPACITY,
                name@ == join_dots(done),
                first == (done.len() == 0),
            ensures
                pos <= CAPACITY,
                if !jumped && pos >= CAPACITY {
                    whole == Err::<Walk, DnsError>(DnsError::EndOfBuffer)
                } else {
                    whole == Ok::<Walk, DnsError>(
                        Walk {
                            labels: done,
                            cursor: if jumped {
                                cursor as int
                            } else {
                                pos as int
                            },
                        },
                    )
                },
            decreases MAX_JUMPS + 1 - jumps, CAPACITY + 1 - pos,
        {
            if jumps > MAX_JUMPS {
                return Err(DnsError::CompressionLoop);
            }
            let len: u8 = self.get(pos)?;
            if (len & 0xC0) == 0xC0 {
                assert(is_pointer(len)) by (bit_vector)
                    requires
                        (len & 0xC0) == 0xC0,
                ;
                if !jumped {
                    if pos + 2 >= CAPACITY {
                        return Err(DnsError::EndOfBuffer);
                    }
                    cursor = pos + 2;
                }
                let low: u8 = self.get(pos + 1)?;
                let offset: u16 = (((len as u16) ^ 0xC0) << 8) | (low as u16);
                assert(offset == (len - 0xC0) * 256 + low) by (bit_vector)
                    requires
                        (len & 0xC0) == 0xC0,
                        offset == (((len as u16) ^ 0xC0) << 8) | (low as u16),
                ;
                assert(offset as int == pointer_target(len, low));
                pos = offset as usize;
                jumped = true;
                jumps += 1;
            } else {
                assert(!is_pointer(len)) by (bit_vector)
                    requires
                        (len & 0xC0) != 0xC0,
                ;
                pos += 1;
                if len == 0 {
                    assert(done + Seq::<Seq<char>>::empty() =~= done);
                    break ;
                }
                let bytes = self.get_range(pos, len as usize)?;
                let label = label_string(bytes);
                push_label(&mut name, label.as_str(), first);
                first = false;
                proof {
                    let text = label_text(self.buf@.subrange(pos as int, pos + len));
                    assert(label@ == text);
                    let w = walk(self.buf@, pos + len, jumps as int, jumped);
                    if w is Ok {
                        let rest = w->Ok_0.labels;
                        assert(done.push(text) + rest =~= done + (seq![text] + rest));
                    }
                    assert(done.push(text).drop_last() =~= done);
                    done = done.push(text);
                }
                pos += len as usize;
            }
        }
        if !jumped {
            if pos >= CAPACITY {
                return Err(DnsError::EndOfBuffer);
            }
            cursor = pos;
        }
        self.pos = cursor;
        outstr.append(name.as_str());
        Ok(())
    }

    /// Writes `val` under the cursor and moves the cursor behind it.
    pub fn write(&mut self, val: u8) -> (r: Result<(), DnsError>)
        ensures
            old(self).wf() ==> final(self).wf(),
            old(self).pos < CAPACITY ==> {
                &&& r is Ok
                &&& final(self).holds_after(old(self), seq![val])
            },
            old(self).pos >= CAPACITY ==> {
                &&& r == Err::<(), DnsError>(DnsError::EndOfBuffer)
                &&& *final(self) == *old(self)
            },
    {
        if self.pos >= CAPACITY {
            return Err(DnsError::EndOfBuffer);
        }
        self.buf[self.pos] = val;
        self.pos += 1;
        assert(self.buf@ =~= overlay(old(self).buf@, old(self).pos as int, seq![val]));
        Ok(())
    }

    /// Writes one byte; the same as `write`.
    pub fn write_u8(&mut self, val: u8) -> (r: Result<(), DnsError>)
        ensures
            old(self).wf() ==> final(self).wf(),
            old(self).pos < CAPACITY ==> {
                &&& r is Ok
                &&& final(self).holds_after(old(self), seq![val])
            },
            old(self).pos >= CAPACITY ==> {
                &&& r == Err::<(), DnsError>(DnsError::EndOfBuffer)
                &&& *final(self) == *old(self)
            },
    {
        self.write(val)
    }

    /// Writes `val` as two bytes, most significant first.
    pub fn write_u16(&mut self, val: u16) -> (r: Result<(), DnsError>)
        ensures
            old(self).wf() ==> final(self).wf(),
            old(self).pos + 2 <= CAPACITY ==> {
                &&& r is Ok
                &&& final(self).holds_after(old(self), u16_wire(val))
            },
            old(self).pos + 2 > CAPACITY ==> {
                &&& r == Err::<(), DnsError>(DnsError::EndOfBuffer)
                &&& *final(self) == *old(self)
            },
    {
        if self.pos > CAPACITY - 2 {
            return Err(DnsError::EndOfBuffer);
        }
        let hi: u8 = ((val >> 8) & 0xFF) as u8;
        let lo: u8 = (val & 0xFF) as u8;
        assert(hi == (val / 256) as u8 && lo == (val % 256) as u8) by (bit_vector)
            requires
                hi == ((val >> 8) & 0xFF) as u8,
                lo == (val & 0xFF) as u8,
        ;
        self.write(hi)?;
        self.write(lo)?;
        assert(self.buf@ =~= overlay(old(self).buf@, old(self).pos as int, u16_wire(val)));
        Ok(())
    }

    /// Writes `val` as four bytes, most significant first.
    pub fn write_u32(&mut self, val: u32) -> (r: Result<(), DnsError>)
        ensures
            old(self).wf() ==> final(self).wf(),
            old(self).pos + 4 <= CAPACITY ==> {
                &&& r is Ok
                &&& final(self).holds_after(old(self), u32_wire(val))
            },
            old(self).pos + 4 > CAPACITY ==> {
                &&& r == Err::<(), DnsError>(DnsError::EndOfBuffer)
                &&& *final(self) == *old(self)
            },
    {
        if self.pos > CAPACITY - 4 {
            return Err(DnsError::EndOfBuffer);
        }
        let first: u8 = ((val >> 24) & 0xFF) as u8;
        let second: u8 = ((val >> 16) & 0xFF) as u8;
        let third: u8 = ((val >> 8) & 0xFF) as u8;
        let fourth: u8 = (val & 0xFF) as u8;
        assert({
            &&& first == (val / 0x100_0000) as u8
            &&& second == ((val / 0x1_0000) % 256) as u8
            &&& third == ((val / 0x100) % 256) as u8
            &&& fourth == (val % 256) as u8
        }) by (bit_vector)
            requires
                first == ((val >> 24) & 0xFF) as u8,
                second == ((val >> 16) & 0xFF) as u8,
                third == ((val >> 8) & 0xFF) as u8,
                fourth == (val & 0xFF) as u8,
        ;
        self.write(first)?;
        self.write(second)?;
        self.write(third)?;
        self.write(fourth)?;
        assert(self.buf@ =~= overlay(old(self).buf@, old(self).pos as int, u32_wire(val)));
        Ok(())
    }

    /// Writes the dotted name `qname` in wire form: each stretch between dots as a label, then
    /// a zero byte. Fails at the first label of more than 63 bytes, or where the datagram ends;
    /// what was written up to there stays written.
    pub fn write_qname(&mut self, qname: &str) -> (r: Result<(), DnsError>)
        ensures
            old(self).wf() ==> final(self).wf(),
            r == name_piece(qname@).outcome(old(self).pos as int),
            r is Ok ==> final(self).holds_after(old(self), name_piece(qname@).wire),
            r is Err ==> final(self).continues(old(self)),
    {
        let bytes = qname.as_bytes();
        let n: usize = bytes.len();
        let mut from: usize = 0;
        let ghost mut written: Seq<u8> = Seq::empty();
        assert(self.buf@ =~= overlay(old(self).buf@, old(self).pos as int, written));
        loop
            invariant_except_break
                name_wire(bytes@) == written + name_wire_from(bytes@, from as int),
                long_label(bytes@) == match long_label_from(bytes@, from as int) {
                    Some(o) => Some(written.len() + o),
                    None => None,
                },
            invariant
                bytes@ == encode_utf8(qname@),
                n == bytes@.len(),
                from <= n,
                self.buf@ == overlay(old(self).buf@, old(self).pos as int, written),
                self.pos == old(self).pos + written.len(),
                written.len() > 0 ==> self.pos <= CAPACITY,
            ensures
                name_wire(bytes@) == written + seq![0u8],
                long_label(bytes@) is None,
            decreases n - from,
        {
            let mut end: usize = from;
            while end < n && bytes[end] != DOT
                invariant
                    n == bytes@.len(),
                    from <= end <= n,
                    forall|j: int| from <= j < end ==> bytes@[j] != DOT,
                decreases n - end,
            {
                end += 1;
            }
            proof {
                lemma_label_len(bytes@, from as int, end as int);
                lemma_name_wire_len(bytes@, from as int);
                if end < n {
                    lemma_name_wire_len(bytes@, end + 1);
                }
            }
            let len: usize = end - from;
            if len > MAX_LABEL {
                return Err(DnsError::LabelTooLong);
            }
            let ghost before = written;
            let ghost label = bytes@.subrange(from as int, end as int);
            self.write(len as u8)?;
            proof {
                written = written.push(len as u8);
                assert(self.buf@ =~= overlay(old(self).buf@, old(self).pos as int, written));
            }
            let mut i: usize = from;
            while i < end
                invariant
                    n == bytes@.len(),
                    from <= i <= end <= n,
                    bytes@ == encode_utf8(qname@),
                    len <= MAX_LABEL,
                    written == before + seq![len as u8] + bytes@.subrange(from as int, i as int),
                    self.buf@ == overlay(old(self).buf@, old(self).pos as int, written),
                    self.pos == old(self).pos + written.len(),
                    self.pos <= CAPACITY,
                    name_wire(bytes@).len() >= before.len() + len + 2,
                    long_label(bytes@) is Some ==> long_label(bytes@)->Some_0 >= before.len() + 1
                        + len,
                    len == end - from,
                decreases end - i,
            {
                self.write(bytes[i])?;
                proof {
                    written = written.push(bytes@[i as int]);
                    assert(self.buf@ =~= overlay(old(self).buf@, old(self).pos as int, written));
                    assert(written =~= before + seq![len as u8] + bytes@.subrange(
                        from as int,
                        i + 1,
                    ));
                }
                i += 1;
            }
            assert(written =~= before + label_wire(label));
            assert(name_wire_from(bytes@, from as int) =~= label_wire(label) + (if end >= n {
                seq![0u8]
            } else {
                name_wire_from(bytes@, end + 1)
            }));
            if end >= n {
                break ;
            }
            from = end + 1;
        }
        self.write(0)?;
        assert(self.buf@ =~= overlay(old(self).buf@, old(self).pos as int, written + seq![0u8]));
        Ok(())
    }

    /// Overwrites the byte at offset `pos`; the cursor stays.
    pub fn set(&mut self, pos: usize, val: u8) -> (r: Result<(), DnsError>)
        ensures
            old(self).wf() ==> final(self).wf(),
            final(self).pos == old(self).pos,
            pos < CAPACITY ==> {
                &&& r is Ok
                &&& final(self).buf@ == overlay(old(self).buf@, pos as int, seq![val])
            },
            pos >= CAPACITY ==> {
                &&& r == Err::<(), DnsError>(DnsError::EndOfBuffer)
                &&& *final(self) == *old(self)
            },
    {
        if pos >= CAPACITY {
            return Err(DnsError::EndOfBuffer);
        }
        self.buf[pos] = val;
        assert(self.buf@ =~= overlay(old(self).buf@, pos as int, seq![val]));
        Ok(())
    }

    /// Overwrites the two bytes at offset `pos` with `val`, most significant first; the cursor
    /// stays.
    pub fn set_u16(&mut self, pos: usize, val: u16) -> (r: Result<(), DnsError>)
        ensures
            old(self).wf() ==> final(self).wf(),
            final(self).pos == old(self).pos,
            pos + 2 <= CAPACITY ==> {
                &&& r is Ok
                &&& final(self).buf@ == overlay(old(self).buf@, pos as int, u16_wire(val))
            },
            pos + 2 > CAPACITY ==> {
                &&& r == Err::<(), DnsError>(DnsError::EndOfBuffer)
                &&& *final(self) == *old(self)
            },
    {
        if pos > CAPACITY - 2 {
            return Err(DnsError::EndOfBuffer);
        }
        let hi: u8 = (val >> 8) as u8;
        let lo: u8 = (val & 0xFF) as u8;
        assert(hi == (val / 256) as u8 && lo == (val % 256) as u8) by (bit_vector)
            requires
                hi == (val >> 8) as u8,
                lo == (val & 0xFF) as u8,
        ;
        self.set(pos, hi)?;
        self.set(pos + 1, lo)?;
        assert(self.buf@ =~= overlay(old(self).buf@, pos as int, u16_wire(val)));
        Ok(())
    }
}

} // verus!
