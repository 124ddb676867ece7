//! Pipes: a byte queue with a writing end and a reading end.

use vstd::prelude::*;

verus! {

/// The bytes written into a pipe and not read yet, oldest first.
pub struct Pipe(Vec<u8>);

/// Why a pipe operation failed.
#[derive(Copy, Clone, Debug, PartialEq, Eq, Structural)]
pub enum PipeError {
    /// The operation is not one this end of the pipe offers.
    Unsupported,
}

/// One end of a pipe, as a process holds it.
#[derive(Copy, Clone, Debug, PartialEq, Eq, Structural)]
pub enum PipeResource {
    Writer,
    Reader,
}

/// How many bytes a read into a buffer of `capacity` bytes takes from a
/// pipe holding `held` bytes.
pub open spec fn read_amount(held: nat, capacity: nat) -> nat {
    if held <= capacity {
        held
    } else {
        capacity
    }
}

impl Pipe {
    /// The bytes in the pipe, oldest first.
    pub closed spec fn contents(&self) -> Seq<u8> {
        self.0@
    }

    /// An empty pipe.
    pub fn new() -> (r: Self)
        ensures
            r.contents() == Seq::<u8>::empty(),
    {
        Pipe(Vec::new())
    }

    /// The number of bytes waiting to be read.
    pub fn len(&self) -> (r: usize)
        ensures
            r == self.contents().len(),
    {
        self.0.len()
    }

    /// Moves the oldest bytes into `buf`, as many as fit, and returns how
    /// many were moved; the rest of `buf` is left as it was.
    pub fn read(&mut self, buf: &mut [u8]) -> (r: usize)
        ensures
            r == read_amount(old(self).contents().len(), old(buf)@.len()),
            final(buf)@ == old(self).contents().take(r as int) + old(buf)@.skip(r as int),
            final(self).contents() == old(self).contents().skip(r as int),
    {
        let amount = if self.0.len() <= buf.len() {
            self.0.len()
        } else {
            buf.len()
        };
        let ghost start = buf@;
        let mut i: usize = 0;
        while i < amount
            invariant
                amount <= self.0.len(),
                amount <= buf@.len(),
                buf@.len() == start.len(),
                i <= amount,
                forall|j: int| 0 <= j < i ==> buf@[j] == self.0@[j],
                forall|j: int| i <= j < buf@.len() ==> buf@[j] == start[j],
            decreases amount - i,
        {
            buf[i] = self.0[i];
            i += 1;
        }
        let mut rest: Vec<u8> = Vec::new();
        let mut j: usize = amount;
        while j < self.0.len()
            invariant
                amount <= j <= self.0.len(),
                rest@ == self.0@.subrange(amount as int, j as int),
            decreases self.0.len() - j,
        {
            rest.push(self.0[j]);
            proof {
                assert(self.0@.subrange(amount as int, j as int + 1) =~= self.0@.subrange(
                    amount as int,
                    j as int,
                ).push(self.0@[j as int]));
            }
            j += 1;
        }
        proof {
            assert(buf@ =~= self.0@.take(amount as int) + start.skip(amount as int));
            assert(rest@ =~= self.0@.skip(amount as int));
        }
        self.0 = rest;
        amount
    }

    /// Appends the bytes of `buf` and returns how many were written (all).
    pub fn write(&mut self, buf: &[u8]) -> (r: usize)
        ensures
            r == buf@.len(),
            final(self).contents() == old(self).contents() + buf@,
    {
        let ghost before = self.0@;
        let mut i: usize = 0;
        while i < buf.len()
            invariant
                i <= buf@.len(),
                self.0@ == before + buf@.take(i as int),
            decreases buf.len() - i,
        {
            self.0.push(buf[i]);
            proof {
                assert(buf@.take(i as int + 1) =~= buf@.take(i as int).push(buf@[i as int]));
            }
            i += 1;
        }
        proof {
            assert(buf@.take(i as int) =~= buf@);
        }
        buf.len()
    }
}

impl PipeResource {
    /// The two ends of a new pipe: the writer first.
    pub fn new_pair() -> (r: (PipeResource, PipeResource))
        ensures
            r == (PipeResource::Writer, PipeResource::Reader),
    {
        (PipeResource::Writer, PipeResource::Reader)
    }

    /// Reads from `pipe` through this end: only the reading end reads.
    pub fn read(&self, pipe: &mut Pipe, buf: &mut [u8]) -> (r: Result<usize, PipeError>)
        ensures
            *self == PipeResource::Writer ==> r == Err::<usize, PipeError>(PipeError::Unsupported)
                && final(pipe).contents() == old(pipe).contents() && final(buf)@ == old(buf)@,
            *self == PipeResource::Reader ==> ({
                let n = read_amount(old(pipe).contents().len(), old(buf)@.len());
                &&& r == Ok::<usize, PipeError>(n as usize)
                &&& final(buf)@ == old(pipe).contents().take(n as int) + old(buf)@.skip(n as int)
                &&& final(pipe).contents() == old(pipe).contents().skip(n as int)
            }),
    {
        match self {
            PipeResource::Writer => Err(PipeError::Unsupported),
            PipeResource::Reader => Ok(pipe.read(buf)),
        }
    }

    /// Writes into `pipe` through this end: only the writing end writes.
    pub fn write(&self, pipe: &mut Pipe, buf: &[u8]) -> (r: Result<usize, PipeError>)
        ensures
            *self == PipeResource::Reader ==> r == Err::<usize, PipeError>(PipeError::Unsupported)
                && final(pipe).contents() == old(pipe).contents(),
            *self == PipeResource::Writer ==> r == Ok::<usize, PipeError>(buf@.len() as usize)
                && final(pipe).contents() == old(pipe).contents() + buf@,
    {
        match self {
            PipeResource::Writer => Ok(pipe.write(buf)),
            PipeResource::Reader => Err(PipeError::Unsupported),
        }
    }

    /// Pipes cannot seek.
    pub fn seek(&self) -> (r: Result<u64, PipeError>)
        ensures
            r == Err::<u64, PipeError>(PipeError::Unsupported),
    {
        Err(PipeError::Unsupported)
    }
}

/// A pipe is first in, first out: whatever was written is read back in the
/// order written, once the reading buffer is large enough for all of it,
/// and the pipe is then empty.
pub proof fn lemma_pipe_first_in_first_out(held: Seq<u8>, written: Seq<u8>, capacity: nat)
    requires
        capacity >= held.len() + written.len(),
    ensures
        ({
            let contents = held + written;
            let n = read_amount(contents.len(), capacity);
            &&& n == contents.len()
            &&& contents.take(n as int) == held + written
            &&& contents.skip(n as int) == Seq::<u8>::empty()
        }),
{
    let contents = held + written;
    assert(contents.take(contents.len() as int) =~= contents);
    assert(contents.skip(contents.len() as int) =~= Seq::<u8>::empty());
}

} // verus!
