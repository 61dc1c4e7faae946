//! Reading a stream whose data comes in pieces of any size.

use bytes::BytesMut;
use vstd::prelude::*;
use crate::buffers;

verus! {

/// What came of a stream and was not read yet.
#[derive(Debug)]
pub struct ReadBuffer {
    buf: BytesMut,
}

impl View for ReadBuffer {
    type V = Seq<u8>;

    closed spec fn view(&self) -> Seq<u8> {
        buffers::buffered(self.buf)
    }
}

/// What a read with room for so many bytes takes of `data`.
pub open spec fn taken(data: Seq<u8>, room: nat) -> Seq<u8> {
    if room <= data.len() {
        data.take(room as int)
    } else {
        data
    }
}

/// What a read with room for so many bytes leaves of `data`.
pub open spec fn left(data: Seq<u8>, room: nat) -> Seq<u8> {
    data.skip(taken(data, room).len() as int)
}

/// Puts the first `n` bytes of `data` at the start of `out`.
fn copy_into(out: &mut [u8], data: &[u8], n: usize)
    requires
        n <= old(out)@.len(),
        n <= data@.len(),
    ensures
        final(out)@ == data@.take(n as int) + old(out)@.skip(n as int),
{
    let ghost before = out@;
    let mut i: usize = 0;
    while i < n
        invariant
            i <= n,
            n <= before.len(),
            n <= data@.len(),
            out@.len() == before.len(),
            out@ =~= data@.take(i as int) + before.skip(i as int),
        decreases n - i,
    {
        out[i] = data[i];
        i = i + 1;
    }
}

impl ReadBuffer {
    /// Nothing came yet.
    pub fn new() -> (r: Self)
        ensures
            r@ == Seq::<u8>::empty(),
    {
        ReadBuffer { buf: buffers::buffer_with_capacity(0) }
    }

    /// Reads what is there into `out`, where anything is.
    pub fn drain(&mut self, out: &mut [u8]) -> (r: Option<usize>)
        ensures
            match r {
                None => {
                    &&& old(self)@.len() == 0
                    &&& final(self)@ == old(self)@
                    &&& final(out)@ == old(out)@
                },
                Some(n) => {
                    &&& old(self)@.len() > 0
                    &&& n == taken(old(self)@, old(out)@.len()).len()
                    &&& final(out)@ == taken(old(self)@, old(out)@.len()) + old(out)@.skip(n as int)
                    &&& final(self)@ == left(old(self)@, old(out)@.len())
                },
            },
    {
        let available = buffers::buffer_len(&self.buf);
        if available == 0 {
            return None;
        }
        let n = if out.len() <= available {
            out.len()
        } else {
            available
        };
        copy_into(out, buffers::buffer_slice(&self.buf), n);
        assert(self@.take(n as int) =~= taken(self@, old(out)@.len()));
        buffers::buffer_advance(&mut self.buf, n);
        Some(n)
    }

    /// Reads `data`, which just came, into `out` and keeps what has no room
    /// there. Nothing may be left from before.
    pub fn deliver(&mut self, data: &[u8], out: &mut [u8]) -> (n: usize)
        requires
            old(self)@.len() == 0,
            data@.len() <= isize::MAX,
        ensures
            n == taken(data@, old(out)@.len()).len(),
            final(out)@ == taken(data@, old(out)@.len()) + old(out)@.skip(n as int),
            final(self)@ == left(data@, old(out)@.len()),
    {
        let n = if out.len() <= data.len() {
            out.len()
        } else {
            data.len()
        };
        copy_into(out, data, n);
        assert(data@.take(n as int) =~= taken(data@, old(out)@.len()));
        if data.len() > n {
            let rest = vstd::slice::slice_subrange(data, n, data.len());
            assert(rest@ =~= data@.skip(n as int));
            buffers::buffer_extend(&mut self.buf, rest);
        }
        assert(self@ =~= data@.skip(n as int));
        n
    }
}

/// A read takes as much as is there and has room, from the start, and leaves all
/// that stands behind it.
pub proof fn law_read_takes_all_that_fits(data: Seq<u8>, room: nat)
    ensures
        taken(data, room).len() <= room,
        taken(data, room).len() <= data.len(),
        taken(data, room).len() == room || taken(data, room).len() == data.len(),
        taken(data, room).len() + left(data, room).len() == data.len(),
        forall|i: int|
            0 <= i < taken(data, room).len() ==> #[trigger] taken(data, room)[i] == data[i],
        forall|i: int|
            0 <= i < left(data, room).len() ==> #[trigger] left(data, room)[i] == data[taken(
                data,
                room,
            ).len() + i],
{
}

/// A read of a stream.
pub ghost enum Read {
    /// With room for so many bytes, from what was left.
    Drain(nat),
    /// With room for so many bytes, when data came.
    Deliver(Seq<u8>, nat),
}

/// What was read of a stream, and what is left, after these reads.
pub open spec fn after(reads: Seq<Read>) -> (Seq<u8>, Seq<u8>)
    decreases reads.len(),
{
    if reads.len() == 0 {
        (Seq::empty(), Seq::empty())
    } else {
        let (read, rest) = after(reads.drop_last());
        match reads.last() {
            Read::Drain(room) => (read + taken(rest, room), left(rest, room)),
            Read::Deliver(data, room) => (read + taken(data, room), left(data, room)),
        }
    }
}

/// What came of the stream in these reads.
pub open spec fn received(reads: Seq<Read>) -> Seq<u8>
    decreases reads.len(),
{
    if reads.len() == 0 {
        Seq::empty()
    } else {
        match reads.last() {
            Read::Drain(_) => received(reads.drop_last()),
            Read::Deliver(data, _) => received(reads.drop_last()) + data,
        }
    }
}

/// Whether data is only taken in where nothing is left.
pub open spec fn in_turn(reads: Seq<Read>) -> bool
    decreases reads.len(),
{
    if reads.len() == 0 {
        true
    } else {
        in_turn(reads.drop_last()) && (reads.last() is Deliver ==> after(
            reads.drop_last(),
        ).1.len() == 0)
    }
}

/// However large the pieces are and however much room a read has, what is read
/// and what is left are, one behind the other, what came of the stream.
pub proof fn law_bytes_come_in_order(reads: Seq<Read>)
    requires
        in_turn(reads),
    ensures
        after(reads).0 + after(reads).1 == received(reads),
    decreases reads.len(),
{
    if reads.len() > 0 {
        law_bytes_come_in_order(reads.drop_last());
        let (read, rest) = after(reads.drop_last());
        let (read2, rest2) = after(reads);
        match reads.last() {
            Read::Drain(room) => {
                assert(read2 + rest2 =~= read + rest);
            },
            Read::Deliver(data, room) => {
                assert(read =~= received(reads.drop_last()));
                assert(read2 + rest2 =~= read + data);
            },
        }
    }
}

} // verus!
