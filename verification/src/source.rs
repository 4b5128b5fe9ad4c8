//! Byte sources: where a stored auxv image is pulled from.
//!
//! The decoder in [`crate::procfs`] is written against the [`ByteSource`]
//! trait so that it can drain any byte stream — the procfs auxv file, a
//! recorded capture, or a buffer held in memory. A source hands out its bytes
//! in chunks of whatever size it likes; the decoder re-reads until it has a
//! full record, as a partial read is not an error.
//!
//! [`MemorySource`] is the verified in-memory source; file-backed sources live
//! with the I/O code outside this library and implement [`ByteSource`] there.

use vstd::prelude::*;

verus! {

/// What one pull on a [`ByteSource`] produced: some bytes, or an I/O fault.
///
/// An empty chunk means the source is exhausted; a non-empty chunk may be
/// shorter than what was asked for even when more bytes remain.
pub enum ReadResult {
    /// The next bytes of the stream, in order; empty only at end of input.
    Chunk(Vec<u8>),
    /// The source failed to produce bytes (an I/O fault, not end of input).
    Fault,
}

/// A finite byte stream, consumed front to back in one pass.
///
/// `remaining` is the mathematical content of the stream: every chunk a read
/// hands out is taken off its front. `infallible` marks sources that can
/// never fault; only such a source promises that decoding runs to the end of
/// its bytes.
pub trait ByteSource {
    /// The bytes this source will still deliver, oldest first. The default
    /// leaves the value unspecified, so a source implemented outside this
    /// library need not say anything about it.
    open spec fn remaining(&self) -> Seq<u8> {
        arbitrary()
    }

    /// True of a source on which a read never returns [`ReadResult::Fault`].
    /// Unspecified by default, like [`ByteSource::remaining`].
    open spec fn infallible(&self) -> bool {
        arbitrary()
    }

    /// Deliver up to `max` of the remaining bytes.
    ///
    /// A chunk comes off the front of `remaining`; it is empty only when the
    /// source was already exhausted. A fault can only come from a source that
    /// is not infallible, and neither outcome changes whether the source is
    /// infallible.
    fn read(&mut self, max: usize) -> (r: ReadResult)
        requires
            max >= 1,
        ensures
            final(self).infallible() == old(self).infallible(),
            match r {
                ReadResult::Chunk(chunk) => {
                    &&& chunk@.len() <= max
                    &&& old(self).remaining() == chunk@ + final(self).remaining()
                    &&& (chunk@.len() == 0 ==> old(self).remaining().len() == 0)
                },
                ReadResult::Fault => !old(self).infallible(),
            },
    ;
}

/// A [`ByteSource`] over a buffer held in memory. It never faults.
pub struct MemorySource {
    bytes: Vec<u8>,
    pos: usize,
}

impl MemorySource {
    /// A source that will deliver exactly `bytes`.
    pub fn new(bytes: Vec<u8>) -> (s: Self)
        ensures
            s.remaining() == bytes@,
            s.infallible(),
    {
        MemorySource { bytes, pos: 0 }
    }
}

impl ByteSource for MemorySource {
    closed spec fn remaining(&self) -> Seq<u8> {
        if self.pos <= self.bytes@.len() {
            self.bytes@.skip(self.pos as int)
        } else {
            Seq::empty()
        }
    }

    closed spec fn infallible(&self) -> bool {
        true
    }

    #[verifier::loop_isolation(false)]
    fn read(&mut self, max: usize) -> (r: ReadResult) {
        let len: usize = self.bytes.len();
        if self.pos >= len {
            return ReadResult::Chunk(Vec::new());
        }
        let avail: usize = len - self.pos;
        let n: usize = if max < avail {
            max
        } else {
            avail
        };
        let mut chunk: Vec<u8> = Vec::new();
        let mut i: usize = 0;
        while i < n
            invariant
                i <= n,
                self.pos + n <= self.bytes@.len(),
                chunk@ == self.bytes@.subrange(self.pos as int, self.pos + i),
            decreases n - i,
        {
            chunk.push(self.bytes[self.pos + i]);
            assert(chunk@ =~= self.bytes@.subrange(self.pos as int, self.pos + i + 1));
            i = i + 1;
        }
        let ghost old_pos: int = self.pos as int;
        self.pos = self.pos + n;
        proof {
            assert(self.bytes@.skip(old_pos) =~= chunk@ + self.bytes@.skip(old_pos + n));
        }
        ReadResult::Chunk(chunk)
    }
}

} // verus!
