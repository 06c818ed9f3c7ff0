//! Frames, and the bytes that are left over where a connection turns into a raw stream.
use vstd::prelude::*;

verus! {

/// No message is longer.
pub const MAX_FRAME_LENGTH: usize = 1_048_576;

/// What was read from a connection before it was handed over.
#[derive(Debug)]
pub struct HandoffBuffer {
    pub read_buf: Vec<u8>,
    pub read_offset: usize,
}

impl HandoffBuffer {
    /// What is still to be read.
    pub open spec fn rest(&self) -> Seq<u8> {
        self.read_buf@.skip(self.read_offset as int)
    }

    pub open spec fn wf(&self) -> bool {
        self.read_offset <= self.read_buf@.len()
    }

    /// Nothing may be left to write where a connection is handed over.
    pub fn into_handoff(read_buf: Vec<u8>, write_pending: usize) -> (r: Result<Self, String>)
        ensures
            if write_pending > 0 {
                r is Err && r->Err_0@
                    == "protocol write buffer is not empty during raw socket handoff"@
            } else {
                r is Ok && r->Ok_0.wf() && r->Ok_0.rest() == read_buf@
            },
    {
        if write_pending > 0 {
            return Err("protocol write buffer is not empty during raw socket handoff".to_owned());
        }
        assert(read_buf@.skip(0) =~= read_buf@);
        Ok(HandoffBuffer { read_buf, read_offset: 0 })
    }

    /// The next bytes that are left, no more than there is room for. Nothing where the socket has
    /// to be read, or where there is no room.
    pub fn take(&mut self, room: usize) -> (r: Vec<u8>)
        requires
            old(self).wf(),
        ensures
            final(self).wf(),
            r@.len() == (if room < old(self).rest().len() { room as int } else {
                old(self).rest().len() as int
            }),
            r@ + final(self).rest() == old(self).rest(),
    {
        let left: usize = self.read_buf.len() - self.read_offset;
        let count: usize = if left < room { left } else { room };
        let start: usize = self.read_offset;
        let mut out: Vec<u8> = Vec::new();
        let mut i: usize = 0;
        while i < count
            invariant
                i <= count,
                start + count <= self.read_buf.len(),
                out@ == self.read_buf@.subrange(start as int, start + i),
            decreases count - i,
        {
            out.push(self.read_buf[start + i]);
            i += 1;
            assert(out@ =~= self.read_buf@.subrange(start as int, start + i));
        }
        self.read_offset = start + count;
        assert(out@ + self.rest() =~= old(self).rest());
        out
    }
}

/// What reads with that much room each give, one after the other.
pub open spec fn reads(rest: Seq<u8>, rooms: Seq<nat>) -> Seq<u8>
    decreases rooms.len(),
{
    if rooms.len() == 0 {
        Seq::empty()
    } else {
        let count = if rooms[0] < rest.len() { rooms[0] as int } else { rest.len() as int };
        rest.take(count) + reads(rest.skip(count), rooms.drop_first())
    }
}

pub open spec fn room_of(rooms: Seq<nat>) -> nat
    decreases rooms.len(),
{
    if rooms.len() == 0 {
        0
    } else {
        rooms[0] + room_of(rooms.drop_first())
    }
}

/// However the reads are cut, they give the bytes that were left over in their order, each once,
/// and all of them as soon as there was room for all.
pub proof fn law_left_over_comes_first(rest: Seq<u8>, rooms: Seq<nat>)
    ensures
        reads(rest, rooms) == rest.take(
            if room_of(rooms) < rest.len() { room_of(rooms) as int } else { rest.len() as int },
        ),
    decreases rooms.len(),
{
    if rooms.len() == 0 {
        assert(rest.take(0) =~= Seq::<u8>::empty());
    } else {
        let count = if rooms[0] < rest.len() { rooms[0] as int } else { rest.len() as int };
        let after = rest.skip(count);
        let more = room_of(rooms.drop_first());
        law_left_over_comes_first(after, rooms.drop_first());
        let further = if more < after.len() { more as int } else { after.len() as int };
        assert(rest.take(count) + after.take(further) =~= rest.take(count + further));
    }
}

} // verus!
