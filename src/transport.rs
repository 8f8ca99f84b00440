//! Chunked framing of messages: a message goes out as chunks of at most
//! 65535 bytes, each behind its two-byte big-endian length, and ends with a
//! zero-length chunk.

use vstd::prelude::*;
use crate::endian::{be2, be2_value, push_u16, read_u16};

verus! {

/// The largest payload of one chunk.
pub const MAX_CHUNK_SIZE: usize = 65535;

/// The full chunks that `data` fills, each behind its header, in order.
pub open spec fn full_chunks(data: Seq<u8>) -> Seq<u8>
    decreases data.len(),
{
    if data.len() < 65535 {
        Seq::empty()
    } else {
        seq![0xFFu8, 0xFFu8] + data.subrange(0, 65535) + full_chunks(
            data.subrange(65535, data.len() as int),
        )
    }
}

/// What is left of `data` after its full chunks.
pub open spec fn chunk_rest(data: Seq<u8>) -> Seq<u8>
    decreases data.len(),
{
    if data.len() < 65535 {
        data
    } else {
        chunk_rest(data.subrange(65535, data.len() as int))
    }
}

/// The chunk that carries `data`, or nothing when `data` is empty.
pub open spec fn chunk_of(data: Seq<u8>) -> Seq<u8> {
    if data.len() == 0 {
        Seq::empty()
    } else {
        be2(data.len()) + data
    }
}

/// Builds the chunks of outgoing messages.
pub struct ChunkedStream {
    raw: Vec<u8>,
    output_buffer: Vec<u8>,
}

impl ChunkedStream {
    /// The chunk bytes built and not yet taken.
    pub closed spec fn raw_bytes(&self) -> Seq<u8> {
        self.raw@
    }

    /// The bytes written and not yet framed.
    pub closed spec fn pending(&self) -> Seq<u8> {
        self.output_buffer@
    }

    /// Fewer bytes wait than make a full chunk.
    pub open spec fn wf(&self) -> bool {
        self.pending().len() < 65535
    }

    /// A stream with nothing written.
    pub fn new() -> (r: Self)
        ensures
            r.wf(),
            r.raw_bytes() == Seq::<u8>::empty(),
            r.pending() == Seq::<u8>::empty(),
    {
        ChunkedStream { raw: Vec::new(), output_buffer: Vec::new() }
    }

    /// The chunk bytes built so far.
    pub fn raw(&self) -> (r: &[u8])
        ensures
            r@ == self.raw_bytes(),
    {
        self.raw.as_slice()
    }

    /// Adds `buf` to the message. Each time the waiting bytes reach the
    /// largest chunk size they go out as one full chunk.
    pub fn write(&mut self, buf: &[u8])
        requires
            old(self).wf(),
        ensures
            final(self).wf(),
            final(self).raw_bytes() == old(self).raw_bytes() + full_chunks(old(self).pending() + buf@),
            final(self).pending() == chunk_rest(old(self).pending() + buf@),
    {
        let ghost all = old(self).pending() + buf@;
        let mut b: usize = 0;
        assert(buf@.subrange(0, buf@.len() as int) =~= buf@);
        loop
            invariant
                0 <= b <= buf@.len(),
                self.output_buffer@.len() < 65535,
                old(self).raw@ + full_chunks(all) == self.raw@ + full_chunks(
                    self.output_buffer@ + buf@.subrange(b as int, buf@.len() as int),
                ),
                chunk_rest(all) == chunk_rest(
                    self.output_buffer@ + buf@.subrange(b as int, buf@.len() as int),
                ),
            ensures
                0 <= b <= buf@.len(),
                self.output_buffer@.len() + (buf@.len() - b) < 65535,
                old(self).raw@ + full_chunks(all) == self.raw@ + full_chunks(
                    self.output_buffer@ + buf@.subrange(b as int, buf@.len() as int),
                ),
                chunk_rest(all) == chunk_rest(
                    self.output_buffer@ + buf@.subrange(b as int, buf@.len() as int),
                ),
            decreases buf@.len() - b,
        {
            let ghost x = self.output_buffer@ + buf@.subrange(b as int, buf@.len() as int);
            let ghost raw0 = self.raw@;
            if buf.len() - b < MAX_CHUNK_SIZE - self.output_buffer.len() {
                break;
            }
            let end = b + (MAX_CHUNK_SIZE - self.output_buffer.len());
            while b < end
                invariant
                    0 <= b <= end <= buf@.len(),
                    self.output_buffer@.len() + (end - b) == 65535,
                    x == self.output_buffer@ + buf@.subrange(b as int, buf@.len() as int),
                    self.raw@ == raw0,
                decreases end - b,
            {
                self.output_buffer.push(buf[b]);
                b = b + 1;
                assert(x =~= self.output_buffer@ + buf@.subrange(b as int, buf@.len() as int));
            }
            assert(x.subrange(0, 65535) =~= self.output_buffer@);
            assert(x.subrange(65535, x.len() as int) =~= buf@.subrange(b as int, buf@.len() as int));
            self.raw.push(0xFF);
            self.raw.push(0xFF);
            let mut i: usize = 0;
            while i < self.output_buffer.len()
                invariant
                    0 <= i <= self.output_buffer@.len(),
                    x.len() >= 65535,
                    self.output_buffer@ == x.subrange(0, 65535),
                    self.raw@ == raw0 + seq![0xFFu8, 0xFFu8] + self.output_buffer@.subrange(
                        0,
                        i as int,
                    ),
                decreases self.output_buffer@.len() - i,
            {
                self.raw.push(self.output_buffer[i]);
                i = i + 1;
                assert(self.raw@ =~= raw0 + seq![0xFFu8, 0xFFu8] + self.output_buffer@.subrange(
                    0,
                    i as int,
                ));
            }
            assert(self.output_buffer@.subrange(0, 65535) =~= x.subrange(0, 65535));
            self.output_buffer.clear();
            assert(Seq::<u8>::empty() + buf@.subrange(b as int, buf@.len() as int) =~= buf@.subrange(
                b as int,
                buf@.len() as int,
            ));
        }
        let ghost x = self.output_buffer@ + buf@.subrange(b as int, buf@.len() as int);
        assert(full_chunks(x) == Seq::<u8>::empty());
        assert(chunk_rest(x) == x);
        let ghost r1 = self.raw@;
        while b < buf.len()
            invariant
                0 <= b <= buf@.len(),
                self.raw@ == r1,
                x == self.output_buffer@ + buf@.subrange(b as int, buf@.len() as int),
                x.len() < 65535,
            decreases buf@.len() - b,
        {
            self.output_buffer.push(buf[b]);
            b = b + 1;
            assert(x =~= self.output_buffer@ + buf@.subrange(b as int, buf@.len() as int));
        }
        assert(x =~= self.output_buffer@ + buf@.subrange(b as int, buf@.len() as int));
        assert(self.output_buffer@ + buf@.subrange(b as int, buf@.len() as int) =~= self.output_buffer@);
        assert(self.raw@ + Seq::<u8>::empty() =~= self.raw@);
    }

    /// Frames the waiting bytes as one chunk, if there are any, and after it
    /// the zero-length chunk when the message ends here.
    pub fn flush(&mut self, end_of_message: bool)
        requires
            old(self).wf(),
        ensures
            final(self).wf(),
            final(self).raw_bytes() == old(self).raw_bytes() + chunk_of(old(self).pending()) + (
            if end_of_message {
                seq![0x00u8, 0x00u8]
            } else {
                Seq::<u8>::empty()
            }),
            final(self).pending() == Seq::<u8>::empty(),
    {
        let ghost raw0 = self.raw@;
        if self.output_buffer.len() > 0 {
            push_u16(&mut self.raw, self.output_buffer.len() as u16);
            let ghost raw1 = self.raw@;
            let mut i: usize = 0;
            while i < self.output_buffer.len()
                invariant
                    0 <= i <= self.output_buffer@.len(),
                    self.output_buffer@ == old(self).output_buffer@,
                    self.raw@ == raw1 + self.output_buffer@.subrange(0, i as int),
                decreases self.output_buffer@.len() - i,
            {
                self.raw.push(self.output_buffer[i]);
                i = i + 1;
                assert(self.raw@ =~= raw1 + self.output_buffer@.subrange(0, i as int));
            }
            assert(self.output_buffer@.subrange(0, i as int) =~= self.output_buffer@);
        }
        let ghost raw2 = self.raw@;
        if end_of_message {
            self.raw.push(0x00);
            self.raw.push(0x00);
        }
        self.output_buffer.clear();
        assert(self.raw@ =~= old(self).raw_bytes() + chunk_of(old(self).pending()) + (
        if end_of_message {
            seq![0x00u8, 0x00u8]
        } else {
            Seq::<u8>::empty()
        }));
    }

    /// Hands over the chunk bytes built so far, to be sent, and forgets them.
    pub fn take_raw(&mut self) -> (r: Vec<u8>)
        ensures
            r@ == old(self).raw_bytes(),
            final(self).raw_bytes() == Seq::<u8>::empty(),
            final(self).pending() == old(self).pending(),
    {
        let mut out: Vec<u8> = Vec::new();
        std::mem::swap(&mut out, &mut self.raw);
        out
    }
}

} // verus!

verus! {

/// Why chunked input could not be reassembled.
#[derive(Debug, Clone, Copy, PartialEq, Eq, Structural)]
pub enum TransportError {
    /// The input ended inside the payload of a chunk.
    Truncated,
}

/// The message that the chunks from `p` on carry: their payloads joined, up
/// to the zero-length chunk or to an input too short for another header.
pub open spec fn dechunk(b: Seq<u8>, p: int) -> Result<Seq<u8>, TransportError>
    decreases b.len() - p,
{
    if p < 0 || p + 2 > b.len() {
        Ok(Seq::empty())
    } else {
        let n = be2_value(b.subrange(p, p + 2));
        if n == 0 {
            Ok(Seq::empty())
        } else if p + 2 + n > b.len() {
            Err(TransportError::Truncated)
        } else {
            match dechunk(b, p + 2 + n) {
                Ok(rest) => Ok(b.subrange(p + 2, p + 2 + n) + rest),
                Err(e) => Err(e),
            }
        }
    }
}

/// Reassembles one message from chunked input. Bytes after the zero-length
/// chunk are left alone.
pub fn receive(input: &[u8]) -> (r: Result<Vec<u8>, TransportError>)
    ensures
        match dechunk(input@, 0) {
            Ok(m) => r matches Ok(x) && x@ == m,
            Err(e) => r == Err::<Vec<u8>, TransportError>(e),
        },
{
    let mut result: Vec<u8> = Vec::new();
    let mut p: usize = 0;
    loop
        invariant
            p <= input@.len(),
            dechunk(input@, 0) == match dechunk(input@, p as int) {
                Ok(rest) => Ok::<Seq<u8>, TransportError>(result@ + rest),
                Err(e) => Err(e),
            },
        decreases input@.len() - p,
    {
        if input.len() - p < 2 {
            assert(result@ + Seq::<u8>::empty() =~= result@);
            return Ok(result);
        }
        let n = read_u16(input, p) as usize;
        if n == 0 {
            assert(result@ + Seq::<u8>::empty() =~= result@);
            return Ok(result);
        }
        if n > input.len() - p - 2 {
            return Err(TransportError::Truncated);
        }
        let ghost before = result@;
        let end = p + 2 + n;
        let mut i: usize = p + 2;
        while i < end
            invariant
                end == p + 2 + n,
                p + 2 <= i <= p + 2 + n <= input@.len(),
                result@ == before + input@.subrange(p + 2, i as int),
            decreases end - i,
        {
            result.push(input[i]);
            i = i + 1;
            assert(result@ =~= before + input@.subrange(p + 2, i as int));
        }
        proof {
            match dechunk(input@, (p + 2 + n) as int) {
                Ok(rest) => {
                    assert(before + (input@.subrange(p + 2, p + 2 + n) + rest) =~= result@ + rest);
                },
                Err(_) => {},
            }
        }
        p = end;
    }
}

} // verus!

verus! {

/// What to do next while a message comes in chunk by chunk.
#[derive(Debug, Clone, Copy, PartialEq, Eq, Structural)]
pub enum ReceiveStep {
    /// Read a payload of this many bytes, then the next header.
    ReadPayload(usize),
    /// The message is complete.
    Done,
}

/// The step after reading a chunk header: `None` when the input ended
/// before a whole header could be read.
pub fn next_step(header: Option<(u8, u8)>) -> (r: ReceiveStep)
    ensures
        match header {
            None => r == ReceiveStep::Done,
            Some((hi, lo)) => if hi == 0 && lo == 0 {
                r == ReceiveStep::Done
            } else {
                r == ReceiveStep::ReadPayload((hi * 256 + lo) as usize)
            },
        },
{
    match header {
        None => ReceiveStep::Done,
        Some((hi, lo)) => {
            let n = (hi as usize) * 256 + lo as usize;
            if n == 0 {
                ReceiveStep::Done
            } else {
                ReceiveStep::ReadPayload(n)
            }
        },
    }
}

} // verus!
