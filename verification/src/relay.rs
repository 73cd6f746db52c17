use vstd::prelude::*;

use crate::error::HttpError;

verus! {

/// Size of the reusable transfer buffer. The exact copy moves the body
/// through one buffer of this size, so its memory use does not grow with
/// the declared body length.
pub const BUFFER_SIZE: usize = 65536;

/// An in-memory byte stream consumed from front to back, standing in for
/// the inbound side of a body transfer. `avail()` is the sequence of bytes
/// not yet read.
pub struct ByteSource {
    bytes: Vec<u8>,
    pos: usize,
}

impl ByteSource {
    pub closed spec fn wf(&self) -> bool {
        self.pos <= self.bytes@.len()
    }

    pub closed spec fn avail(&self) -> Seq<u8> {
        self.bytes@.skip(self.pos as int)
    }

    pub fn new(bytes: Vec<u8>) -> (r: ByteSource)
        ensures
            r.wf(),
            r.avail() == bytes@,
    {
        let r = ByteSource { bytes, pos: 0 };
        proof {
            assert(r.avail() =~= r.bytes@);
        }
        r
    }

    /// Fill `buf[0..n]` with the next `n` unread bytes, consuming them; when
    /// fewer than `n` bytes remain, fail without consuming or writing
    /// anything.
    pub fn read_exact(&mut self, buf: &mut Vec<u8>, n: usize) -> (r: Result<(), HttpError>)
        requires
            old(self).wf(),
            n <= old(buf)@.len(),
        ensures
            final(self).wf(),
            final(buf)@.len() == old(buf)@.len(),
            r is Ok <==> n <= old(self).avail().len(),
            r is Ok ==> final(buf)@ == old(self).avail().take(n as int) + old(buf)@.skip(n as int),
            r is Ok ==> final(self).avail() == old(self).avail().skip(n as int),
            r is Err ==> *final(self) == *old(self) && final(buf)@ == old(buf)@,
            r is Err ==> r == Result::<(), HttpError>::Err(HttpError::TransferFault),
    {
        let available = self.bytes.len() - self.pos;
        if n > available {
            return Err(HttpError::TransferFault);
        }
        let mut i: usize = 0;
        while i < n
            invariant
                self == old(self),
                old(self).wf(),
                i <= n,
                n <= available,
                available == self.bytes@.len() - self.pos,
                self.bytes@.len() <= usize::MAX,
                n <= buf@.len(),
                buf@.len() == old(buf)@.len(),
                forall|j: int| 0 <= j < i ==> buf@[j] == self.avail()[j],
                forall|j: int| i <= j < buf@.len() ==> buf@[j] == old(buf)@[j],
            decreases n - i,
        {
            assert(self.pos + i < self.bytes@.len());
            let b = self.bytes[self.pos + i];
            buf[i] = b;
            i += 1;
        }
        self.pos = self.pos + n;
        proof {
            assert(buf@ =~= old(self).avail().take(n as int) + old(buf)@.skip(n as int));
            assert(self.avail() =~= old(self).avail().skip(n as int));
        }
        Ok(())
    }
}

/// An in-memory byte accumulator, standing in for the outbound side of a
/// body transfer. `written()` is everything written so far, in order.
pub struct ByteSink {
    bytes: Vec<u8>,
}

impl ByteSink {
    pub closed spec fn written(&self) -> Seq<u8> {
        self.bytes@
    }

    pub fn new() -> (r: ByteSink)
        ensures
            r.written() == Seq::<u8>::empty(),
    {
        ByteSink { bytes: Vec::new() }
    }

    /// Append `buf[0..n]` to the sink.
    pub fn write_all(&mut self, buf: &Vec<u8>, n: usize)
        requires
            n <= buf@.len(),
        ensures
            final(self).written() == old(self).written() + buf@.take(n as int),
    {
        let mut i: usize = 0;
        while i < n
            invariant
                i <= n,
                n <= buf@.len(),
                self.bytes@ == old(self).bytes@ + buf@.take(i as int),
            decreases n - i,
        {
            let b = buf[i];
            self.bytes.push(b);
            proof {
                assert(old(self).bytes@ + buf@.take(i as int) + seq![buf@[i as int]]
                    =~= old(self).bytes@ + buf@.take(i + 1));
            }
            i += 1;
        }
    }

    /// Hand the accumulated bytes out.
    pub fn into_bytes(self) -> (r: Vec<u8>)
        ensures
            r@ == self.written(),
    {
        self.bytes
    }
}

/// The chunking decisions of the exact copy: how many bytes of the declared
/// length are still owed, and how large the next buffer-bounded chunk is.
/// A driver doing real stream transfers takes its chunk sizes from here, so
/// the loop around the reads and writes decides nothing itself.
pub struct RelayPlan {
    pub remaining: usize,
}

impl RelayPlan {
    pub fn new(length: usize) -> (r: RelayPlan)
        ensures
            r.remaining == length,
    {
        RelayPlan { remaining: length }
    }

    pub fn done(&self) -> (r: bool)
        ensures
            r == (self.remaining == 0),
    {
        self.remaining == 0
    }

    /// The next chunk size: a full buffer while more than a buffer's worth
    /// is owed, then the final partial chunk.
    pub fn next_chunk(&mut self) -> (n: usize)
        ensures
            n == if old(self).remaining > BUFFER_SIZE { BUFFER_SIZE as int } else { old(self).remaining as int },
            final(self).remaining == old(self).remaining - n,
            n <= BUFFER_SIZE,
            old(self).remaining > 0 ==> n > 0,
    {
        let n = if self.remaining > BUFFER_SIZE {
            BUFFER_SIZE
        } else {
            self.remaining
        };
        self.remaining = self.remaining - n;
        n
    }
}

/// A buffer of `n` zero bytes, allocated once per transfer and reused for
/// every chunk.
fn zero_buffer(n: usize) -> (v: Vec<u8>)
    ensures
        v@.len() == n,
{
    let mut v: Vec<u8> = Vec::new();
    while v.len() < n
        invariant
            v@.len() <= n,
        decreases n - v@.len(),
    {
        v.push(0u8);
    }
    v
}

/// Transfer exactly `length` bytes from `src` to `dst` through one reusable
/// fixed-size buffer.
///
/// On success the sink has gained precisely the first `length` bytes that
/// were available on the source, byte for byte, and the source has consumed
/// precisely those bytes. When the source holds fewer than `length` bytes
/// the transfer fails, and everything the sink gained is a prefix of what
/// the source had available — never more bytes than the source held, and
/// never bytes out of order.
pub fn copy_exact(src: &mut ByteSource, dst: &mut ByteSink, length: usize) -> (r: Result<(), HttpError>)
    requires
        old(src).wf(),
    ensures
        final(src).wf(),
        r is Ok <==> length <= old(src).avail().len(),
        r is Ok ==> final(dst).written() == old(dst).written() + old(src).avail().take(length as int),
        r is Ok ==> final(src).avail() == old(src).avail().skip(length as int),
        r is Err ==> r == Result::<(), HttpError>::Err(HttpError::TransferFault),
        r is Err ==> {
            let k = final(dst).written().len() - old(dst).written().len();
            &&& 0 <= k <= old(src).avail().len()
            &&& k <= length
            &&& final(dst).written() == old(dst).written() + old(src).avail().take(k)
            &&& final(src).avail() == old(src).avail().skip(k)
        },
{
    let mut buffer: Vec<u8> = zero_buffer(BUFFER_SIZE);
    let mut plan = RelayPlan::new(length);
    while plan.remaining > 0
        invariant
            src.wf(),
            buffer@.len() == BUFFER_SIZE,
            plan.remaining <= length,
            length - plan.remaining <= old(src).avail().len(),
            dst.written() == old(dst).written() + old(src).avail().take(length - plan.remaining),
            src.avail() == old(src).avail().skip(length - plan.remaining),
        decreases plan.remaining,
    {
        let ghost done_before: int = length - plan.remaining;
        let n = plan.next_chunk();
        match src.read_exact(&mut buffer, n) {
            Ok(()) => {}
            Err(_) => {
                proof {
                    assert(length > old(src).avail().len()) by {
                        assert(n > src.avail().len());
                        assert(src.avail().len() == old(src).avail().len() - done_before);
                    }
                }
                return Err(HttpError::TransferFault);
            }
        }
        dst.write_all(&buffer, n);
        proof {
            let pre = old(src).avail();
            assert(pre.take(done_before) + pre.skip(done_before).take(n as int)
                =~= pre.take(done_before + n));
            assert(pre.skip(done_before).skip(n as int) =~= pre.skip(done_before + n));
            assert(buffer@.take(n as int) =~= pre.skip(done_before).take(n as int));
        }
    }
    Ok(())
}

} // verus!
