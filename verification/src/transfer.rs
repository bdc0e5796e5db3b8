//! The body of a response, and how it is read.
use vstd::prelude::*;

verus! {

/// A body in memory, and how much of it was read.
#[derive(Debug)]
pub struct MemTransfer {
    pub body: Vec<u8>,
    pub position: usize,
}

/// What is left to read.
impl View for MemTransfer {
    type V = Seq<u8>;

    open spec fn view(&self) -> Seq<u8> {
        self.body@.skip(self.position as int)
    }
}

/// The smaller of two numbers.
pub open spec fn least(a: nat, b: nat) -> nat {
    if a <= b {
        a
    } else {
        b
    }
}

impl MemTransfer {
    /// No more was read than there is.
    pub open spec fn is_valid(&self) -> bool {
        self.position <= self.body@.len()
    }

    /// A body of which nothing was read.
    pub fn new(body: Vec<u8>) -> (r: MemTransfer)
        ensures
            r.is_valid(),
            r@ == body@,
    {
        let r = MemTransfer { body, position: 0 };
        assert(r@ =~= body@);
        r
    }

    /// Reads what comes next into `buf`: as much as fits, or all that is left.
    /// The rest of `buf` stays as it was.
    pub fn read(&mut self, buf: &mut [u8]) -> (r: usize)
        requires
            old(self).is_valid(),
        ensures
            final(self).is_valid(),
            r == least(old(buf)@.len(), old(self)@.len()),
            final(buf)@ == old(self)@.take(r as int) + old(buf)@.skip(r as int),
            final(self)@ == old(self)@.skip(r as int),
    {
        let size: usize = self.body.len();
        let left: usize = size - self.position;
        let room: usize = buf.len();
        let n: usize = if room <= left {
            room
        } else {
            left
        };
        let start: usize = self.position;
        let ghost rest = self@;
        let ghost before = buf@;
        assert(before =~= rest.take(0) + before.skip(0));
        for i in 0..n
            invariant
                start + n <= size,
                size == self.body@.len(),
                start == self.position,
                rest == self.body@.skip(start as int),
                n <= before.len(),
                buf@ == rest.take(i as int) + before.skip(i as int),
        {
            buf[i] = self.body[start + i];
            assert(buf@ =~= rest.take(i + 1) + before.skip(i + 1));
        }
        self.position = start + n;
        assert(self@ =~= rest.skip(n as int));
        n
    }

    /// The number of bytes that are left to read.
    pub fn len(&self) -> (r: usize)
        requires
            self.is_valid(),
        ensures
            r == self@.len(),
    {
        self.body.len() - self.position
    }
}

/// The body of a response.
#[derive(Debug)]
pub enum FileTransfer {
    /// The opened file, of which this many bytes are left to read.
    File(u64),
    /// A body in memory.
    Mem(MemTransfer),
}

/// What a body is.
pub enum Body {
    File(u64),
    Mem(Seq<u8>),
}

impl View for FileTransfer {
    type V = Body;

    open spec fn view(&self) -> Body {
        match self {
            FileTransfer::File(size) => Body::File(*size),
            FileTransfer::Mem(m) => Body::Mem(m@),
        }
    }
}

impl Body {
    /// The number of bytes that are left to read.
    pub open spec fn size(self) -> nat {
        match self {
            Body::File(size) => size as nat,
            Body::Mem(rest) => rest.len(),
        }
    }

    /// What is left after `n` bytes more were read.
    pub open spec fn after_read(self, n: nat) -> Body {
        match self {
            Body::File(size) => Body::File((size - n) as u64),
            Body::Mem(rest) => Body::Mem(rest.skip(n as int)),
        }
    }
}

impl FileTransfer {
    /// No more was read than there is.
    pub open spec fn is_valid(&self) -> bool {
        match self {
            FileTransfer::File(_) => true,
            FileTransfer::Mem(m) => m.is_valid(),
        }
    }

    /// The number of bytes that are left to read.
    pub fn len(&self) -> (r: Option<usize>)
        requires
            self.is_valid(),
            self@.size() <= usize::MAX,
        ensures
            r == Some(self@.size() as usize),
    {
        match self {
            FileTransfer::File(size) => Some(*size as usize),
            FileTransfer::Mem(m) => Some(m.len()),
        }
    }

    /// The number of bytes to ask for in a read into a buffer of `room` bytes:
    /// as many as fit, and never more than are left.
    pub fn wanted(&self, room: usize) -> (r: usize)
        requires
            self.is_valid(),
        ensures
            r == least(room as nat, self@.size()),
    {
        match self {
            FileTransfer::File(size) => if room as u64 <= *size {
                room
            } else {
                *size as usize
            },
            FileTransfer::Mem(m) => {
                let left: usize = m.len();
                if room <= left {
                    room
                } else {
                    left
                }
            },
        }
    }

    /// Takes note that `n` bytes more were read.
    pub fn advance(&mut self, n: usize)
        requires
            old(self).is_valid(),
            n <= old(self)@.size(),
        ensures
            final(self).is_valid(),
            final(self)@ == old(self)@.after_read(n as nat),
            final(self)@.size() == old(self)@.size() - n,
    {
        match self {
            FileTransfer::File(size) => {
                *size = *size - n as u64;
            },
            FileTransfer::Mem(m) => {
                let ghost rest = m@;
                let size: usize = m.body.len();
                assert(m.position + n <= size);
                m.position = m.position + n;
                assert(m@ =~= rest.skip(n as int));
            },
        }
    }

    /// One read into `buf`. The bytes of a file are put into `buf` by whoever
    /// holds the file, at most as many as are wanted; `got` is their number.
    /// The bytes of a body in memory are put there by this read, as many as are
    /// wanted. What is left is less by what was read.
    pub fn read(&mut self, buf: &mut [u8], got: usize) -> (r: usize)
        requires
            old(self).is_valid(),
            old(self)@ is File ==> got <= least(old(buf)@.len(), old(self)@.size()),
        ensures
            final(self).is_valid(),
            r <= old(buf)@.len(),
            r <= old(self)@.size(),
            final(self)@ == old(self)@.after_read(r as nat),
            final(self)@.size() == old(self)@.size() - r,
            match old(self)@ {
                Body::File(_) => r == got && final(buf)@ == old(buf)@,
                Body::Mem(rest) => r == least(old(buf)@.len(), rest.len()) && final(buf)@
                    == rest.take(r as int) + old(buf)@.skip(r as int),
            },
    {
        match self {
            FileTransfer::File(_) => {
                self.advance(got);
                got
            },
            FileTransfer::Mem(m) => m.read(buf),
        }
    }
}

/// What reads into buffers of the given sizes give, one after the other.
pub open spec fn reads(rest: Seq<u8>, rooms: Seq<nat>) -> Seq<Seq<u8>>
    decreases rooms.len(),
{
    if rooms.len() == 0 {
        seq![]
    } else {
        let n = least(rooms[0], rest.len()) as int;
        seq![rest.take(n)] + reads(rest.skip(n), rooms.skip(1))
    }
}

/// The sum of some numbers.
pub open spec fn total(numbers: Seq<nat>) -> nat
    decreases numbers.len(),
{
    if numbers.len() == 0 {
        0
    } else {
        numbers[0] + total(numbers.skip(1))
    }
}

/// Whatever the sizes of the buffers, what is read is the body from its start,
/// in order and without gaps, and all of it once the buffers hold that much.
pub proof fn law_reads_give_the_body(body: Seq<u8>, rooms: Seq<nat>)
    ensures
        reads(body, rooms).flatten() == body.take(least(total(rooms), body.len()) as int),
        total(rooms) >= body.len() ==> reads(body, rooms).flatten() == body,
    decreases rooms.len(),
{
    reveal_with_fuel(Seq::flatten, 2);
    if rooms.len() == 0 {
        assert(body.take(0) =~= seq![]);
        assert(total(rooms) >= body.len() ==> body =~= seq![]);
    } else {
        let n = least(rooms[0], body.len()) as int;
        let rest = body.skip(n);
        law_reads_give_the_body(rest, rooms.skip(1));
        let m = least(total(rooms.skip(1)), rest.len()) as int;
        assert(reads(body, rooms).drop_first() =~= reads(rest, rooms.skip(1)));
        assert(reads(body, rooms).flatten() =~= body.take(n) + rest.take(m));
        assert(body.take(n) + rest.take(m) =~= body.take(
            least(total(rooms), body.len()) as int,
        ));
        assert(total(rooms) >= body.len() ==> body.take(
            least(total(rooms), body.len()) as int,
        ) =~= body);
    }
}

/// What is left of a body after reads of the given numbers of bytes.
pub open spec fn after_reads(body: Body, counts: Seq<nat>) -> Body
    decreases counts.len(),
{
    if counts.len() == 0 {
        body
    } else {
        after_reads(body.after_read(counts[0]), counts.skip(1))
    }
}

/// Whether no read takes more than is left at that point.
pub open spec fn are_possible(body: Body, counts: Seq<nat>) -> bool
    decreases counts.len(),
{
    counts.len() > 0 ==> {
        &&& counts[0] <= body.size()
        &&& are_possible(body.after_read(counts[0]), counts.skip(1))
    }
}

/// The length of a body is always what is left to send: for a file as for a
/// body in memory, each read lowers it by what was read, so that after any
/// number of reads it is the length at the start less all that was read, and
/// no more than the length at the start is ever read.
pub proof fn law_length_is_what_is_left(body: Body, counts: Seq<nat>)
    requires
        are_possible(body, counts),
    ensures
        total(counts) <= body.size(),
        after_reads(body, counts).size() == body.size() - total(counts),
    decreases counts.len(),
{
    if counts.len() > 0 {
        let next = body.after_read(counts[0]);
        assert(next.size() == body.size() - counts[0]);
        law_length_is_what_is_left(next, counts.skip(1));
    }
}

} // verus!
