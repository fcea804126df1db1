//! Buffers that stand between a stream and the code that reads it.

use crate::error::Cause;
use vstd::prelude::*;
use vstd::slice::slice_subrange;

verus! {

/// The bytes that were read beyond the head of a response. They are handed
/// on, each once and in order, before anything more is read from the stream.
pub struct ComboReader {
    co: Vec<u8>,
    at: usize,
}

impl ComboReader {
    #[verifier::type_invariant]
    closed spec fn inv(self) -> bool {
        self.at <= self.co@.len()
    }

    /// The bytes that have not been handed on yet.
    pub closed spec fn remaining(self) -> Seq<u8> {
        self.co@.skip(self.at as int)
    }

    pub fn new(carry: Vec<u8>) -> (r: Self)
        ensures
            r.remaining() == carry@,
    {
        let r = ComboReader { co: carry, at: 0 };
        assert(r.co@.skip(0) =~= r.co@);
        r
    }

    /// Appends to `buf` the next bytes of the carry-over, at most `want` of
    /// them, and says how many. Zero stands for a carry-over that is used up
    /// (or for `want == 0`): the caller then reads from the stream.
    pub fn read(&mut self, buf: &mut Vec<u8>, want: usize) -> (n: usize)
        ensures
            n == if want <= old(self).remaining().len() {
                want as int
            } else {
                old(self).remaining().len() as int
            },
            final(buf)@ == old(buf)@ + old(self).remaining().take(n as int),
            final(self).remaining() == old(self).remaining().skip(n as int),
    {
        proof {
            use_type_invariant(&*self);
        }
        let left = self.co.len() - self.at;
        let n = if want <= left {
            want
        } else {
            left
        };
        buf.extend_from_slice(slice_subrange(self.co.as_slice(), self.at, self.at + n));
        proof {
            assert(self.co@.subrange(self.at as int, self.at + n) =~= self.co@.skip(
                self.at as int,
            ).take(n as int));
            assert(self.co@.skip(self.at + n) =~= self.co@.skip(self.at as int).skip(n as int));
        }
        self.at = self.at + n;
        n
    }

    /// Hands out what is left of the carry-over.
    pub fn into_remaining(self) -> (r: Vec<u8>)
        ensures
            r@ == self.remaining(),
    {
        proof {
            use_type_invariant(&self);
        }
        let mut out = Vec::new();
        out.extend_from_slice(slice_subrange(self.co.as_slice(), self.at, self.co.len()));
        assert(out@ =~= self.co@.skip(self.at as int));
        out
    }
}

/// What became of one read: `None` at the end of the stream, else the
/// number of bytes that were taken, or the failure.
pub open spec fn outcome(read: Result<&[u8], Cause>) -> Option<Result<usize, Cause>> {
    match read {
        Ok(b) => if b@.len() == 0 {
            None
        } else {
            Some(Ok(b@.len() as usize))
        },
        Err(e) => Some(Err(e)),
    }
}

/// A loop of reads into one buffer, each read from the start of the buffer:
/// what a read gives takes the place of what the one before gave. The loop
/// ends with the first read that gives nothing.
pub struct ReadIterator {
    d: Vec<u8>,
    cap: usize,
}

impl ReadIterator {
    /// How many bytes one read may give.
    pub closed spec fn capacity(self) -> nat {
        self.cap as nat
    }

    /// What the last read gave.
    pub closed spec fn data(self) -> Seq<u8> {
        self.d@
    }

    pub fn new(capacity: usize) -> (r: Self)
        ensures
            r.capacity() == capacity,
            r.data() == Seq::<u8>::empty(),
    {
        ReadIterator { d: Vec::new(), cap: capacity }
    }

    /// How many bytes to ask the stream for.
    pub fn room(&self) -> (r: usize)
        ensures
            r == self.capacity(),
    {
        self.cap
    }

    /// Takes in what one read gave.
    pub fn next(&mut self, read: Result<&[u8], Cause>) -> (r: Option<Result<usize, Cause>>)
        requires
            read matches Ok(b) ==> b@.len() <= old(self).capacity(),
        ensures
            r == outcome(read),
            final(self).capacity() == old(self).capacity(),
            final(self).data() == match read {
                Ok(b) if b@.len() > 0 => b@,
                _ => old(self).data(),
            },
    {
        match read {
            Ok(b) => {
                if b.len() == 0 {
                    None
                } else {
                    self.d = vstd::slice::slice_to_vec(b);
                    Some(Ok(b.len()))
                }
            },
            Err(e) => Some(Err(e)),
        }
    }

    pub fn bytes(&self) -> (r: &[u8])
        ensures
            r@ == self.data(),
    {
        self.d.as_slice()
    }
}

/// A loop of reads that fill one buffer from its start to its end: what a
/// read gives is put behind what the reads before gave. The loop ends with
/// the first read that gives nothing, which is the end of the stream or a
/// buffer that is full.
pub struct ReadToEndIterator {
    d: Vec<u8>,
    cap: usize,
}

impl ReadToEndIterator {
    /// How many bytes the buffer holds when it is full.
    pub closed spec fn capacity(self) -> nat {
        self.cap as nat
    }

    /// What the reads have given so far.
    pub closed spec fn data(self) -> Seq<u8> {
        self.d@
    }

    /// No more has been taken in than the buffer holds.
    pub open spec fn wf(self) -> bool {
        self.data().len() <= self.capacity()
    }

    pub fn new(capacity: usize) -> (r: Self)
        ensures
            r.wf(),
            r.capacity() == capacity,
            r.data() == Seq::<u8>::empty(),
    {
        ReadToEndIterator { d: Vec::new(), cap: capacity }
    }

    /// How many bytes to ask the stream for: what is left of the buffer.
    pub fn room(&self) -> (r: usize)
        requires
            self.wf(),
        ensures
            r == self.capacity() - self.data().len(),
    {
        self.cap - self.d.len()
    }

    /// Takes in what one read gave.
    pub fn next(&mut self, read: Result<&[u8], Cause>) -> (r: Option<Result<usize, Cause>>)
        requires
            old(self).wf(),
            read matches Ok(b) ==> b@.len() <= old(self).capacity() - old(self).data().len(),
        ensures
            final(self).wf(),
            r == outcome(read),
            final(self).capacity() == old(self).capacity(),
            final(self).data() == match read {
                Ok(b) => old(self).data() + b@,
                Err(_) => old(self).data(),
            },
    {
        match read {
            Ok(b) => {
                if b.len() == 0 {
                    assert(self.d@ + b@ =~= self.d@);
                    None
                } else {
                    self.d.extend_from_slice(b);
                    Some(Ok(b.len()))
                }
            },
            Err(e) => Some(Err(e)),
        }
    }

    pub fn bytes(&self) -> (r: &[u8])
        ensures
            r@ == self.data(),
    {
        self.d.as_slice()
    }

    /// Hands out the buffer as far as it was filled.
    pub fn into_bytes(self) -> (r: Vec<u8>)
        ensures
            r@ == self.data(),
    {
        self.d
    }
}

/// The consumer `f` may be shown any bytes.
pub open spec fn takes_all<F: Fn(&[u8]) -> usize>(f: F) -> bool {
    forall|s: &[u8]| #[trigger] call_requires(f, (s,))
}

/// The consumer `f`, shown `data`, is done with `c` bytes: that is what it
/// says of some buffer with these bytes, or all of them if it says more.
pub open spec fn consumed_by<F: Fn(&[u8]) -> usize>(f: F, data: Seq<u8>, c: usize) -> bool {
    exists|s: &[u8], n: usize|
        s@ == data && #[trigger] call_ensures(f, (s,), n) && c == (if n <= data.len() {
            n
        } else {
            data.len() as usize
        })
}

/// A loop of reads that fill one buffer while a consumer empties it from
/// the front. After each read the consumer sees everything that is in the
/// buffer and says how many bytes it is done with; the others stay, moved to
/// the front, and the next read is put behind them.
pub struct ConsumingReadIterator<F> {
    d: Vec<u8>,
    cap: usize,
    f: F,
}

impl<F: Fn(&[u8]) -> usize> ConsumingReadIterator<F> {
    /// How many bytes the buffer holds when it is full.
    pub closed spec fn capacity(self) -> nat {
        self.cap as nat
    }

    /// The bytes that the consumer has seen and left in the buffer.
    pub closed spec fn pending(self) -> Seq<u8> {
        self.d@
    }

    pub closed spec fn consumer(self) -> F {
        self.f
    }

    /// No more is pending than the buffer holds, and the consumer takes
    /// whatever it is shown.
    pub open spec fn wf(self) -> bool {
        &&& self.pending().len() <= self.capacity()
        &&& takes_all(self.consumer())
    }

    pub fn new(capacity: usize, f: F) -> (r: Self)
        requires
            takes_all(f),
        ensures
            r.wf(),
            r.capacity() == capacity,
            r.pending() == Seq::<u8>::empty(),
            r.consumer() == f,
    {
        ConsumingReadIterator { d: Vec::new(), cap: capacity, f }
    }

    /// How many bytes to ask the stream for: what is left of the buffer.
    pub fn room(&self) -> (r: usize)
        requires
            self.wf(),
        ensures
            r == self.capacity() - self.pending().len(),
    {
        self.cap - self.d.len()
    }

    /// Shows the consumer what is in the buffer and drops what it is done
    /// with. A consumer that claims more than it was shown is done with all.
    fn consume(&mut self) -> (r: usize)
        requires
            old(self).wf(),
        ensures
            final(self).wf(),
            final(self).capacity() == old(self).capacity(),
            final(self).consumer() == old(self).consumer(),
            r <= old(self).pending().len(),
            final(self).pending() == old(self).pending().skip(r as int),
            consumed_by(old(self).consumer(), old(self).pending(), r),
    {
        let t = self.d.len();
        let shown = self.d.as_slice();
        let said = (self.f)(shown);
        assert(shown@ == self.d@ && call_ensures(self.f, (shown,), said));
        let consume = if said <= t {
            said
        } else {
            t
        };
        let rest = vstd::slice::slice_to_vec(slice_subrange(self.d.as_slice(), consume, t));
        assert(rest@ =~= self.d@.skip(consume as int));
        self.d = rest;
        consume
    }

    /// Takes in what one read gave, and says how many bytes the consumer
    /// was done with.
    pub fn next(&mut self, read: Result<&[u8], Cause>) -> (r: Option<Result<usize, Cause>>)
        requires
            old(self).wf(),
            read matches Ok(b) ==> b@.len() <= old(self).capacity() - old(self).pending().len(),
        ensures
            final(self).wf(),
            final(self).capacity() == old(self).capacity(),
            final(self).consumer() == old(self).consumer(),
            match read {
                Ok(b) if b@.len() > 0 => r matches Some(Ok(c)) && consumed_by(
                    old(self).consumer(),
                    old(self).pending() + b@,
                    c,
                ) && final(self).pending() == (old(self).pending() + b@).skip(c as int),
                Ok(_) => r is None && final(self).pending() == old(self).pending(),
                Err(e) => r == Some(Err::<usize, Cause>(e)) && final(self).pending() == old(
                    self,
                ).pending(),
            },
    {
        match read {
            Ok(b) => {
                if b.len() == 0 {
                    None
                } else {
                    self.d.extend_from_slice(b);
                    assert(self.pending() == old(self).pending() + b@);
                    let c = self.consume();
                    Some(Ok(c))
                }
            },
            Err(e) => Some(Err(e)),
        }
    }

    pub fn bytes(&self) -> (r: &[u8])
        ensures
            r@ == self.pending(),
    {
        self.d.as_slice()
    }
}

} // verus!
