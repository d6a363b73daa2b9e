//! The payload generator: an endless supply of chunks of random bytes, and
//! a buffer in front of it that serves reads of any size.

use rand::distributions::Standard;
use rand::rngs::StdRng;
use rand::Rng;
use vstd::prelude::*;
use vstd::slice::slice_subrange;

verus! {

#[verifier::external_type_specification]
#[verifier::external_body]
pub struct ExStdRng(StdRng);

/// `Rng::sample_iter` over the standard distribution, cut off by
/// `Iterator::take` after `n` bytes and collected: the iterator never runs
/// dry, so exactly `n` bytes come back. Which bytes they are depends on the
/// state of `rng`, and nothing is claimed of them.
#[verifier::external_body]
fn draw_bytes(rng: &mut StdRng, n: usize) -> (chunk: Vec<u8>)
    requires
        n <= isize::MAX,
    ensures
        chunk@.len() == n,
{
    rng.sample_iter(&Standard).take(n).collect::<Vec<u8>>()
}

/// Copies the head of `chunk` over the head of `buf`, as far as both reach,
/// and says how many bytes it copied. What lies behind them in `buf` stays
/// as it was.
pub fn copy_chunk(chunk: &[u8], buf: &mut [u8]) -> (n: usize)
    ensures
        n == if old(buf)@.len() <= chunk@.len() {
            old(buf)@.len()
        } else {
            chunk@.len()
        },
        final(buf)@ == chunk@.take(n as int) + old(buf)@.skip(n as int),
{
    let cap = if buf.len() <= chunk.len() {
        buf.len()
    } else {
        chunk.len()
    };
    let mut i: usize = 0;
    while i < cap
        invariant
            i <= cap,
            cap <= chunk@.len(),
            cap <= buf@.len(),
            buf@.len() == old(buf)@.len(),
            buf@ == chunk@.take(i as int) + old(buf)@.skip(i as int),
        decreases cap - i,
    {
        buf[i] = chunk[i];
        proof {
            assert(buf@ =~= chunk@.take(i + 1) + old(buf)@.skip(i + 1));
        }
        i = i + 1;
    }
    cap
}

/// A source of chunks of random bytes, each `chunk_size` bytes long. It
/// never runs dry.
pub struct Generator {
    chunk_size: usize,
    rng: StdRng,
}

impl Generator {
    /// The size of the chunks, in bytes.
    pub closed spec fn spec_chunk_size(&self) -> usize {
        self.chunk_size
    }

    /// What holds of every generator: a chunk fits into memory.
    pub closed spec fn wf(&self) -> bool {
        self.chunk_size <= isize::MAX
    }

    /// A generator of chunks of `chunk_size` bytes, drawn from `rng`.
    pub fn new(chunk_size: usize, rng: StdRng) -> (g: Generator)
        requires
            chunk_size <= isize::MAX,
        ensures
            g.wf(),
            g.chunk_size() == chunk_size,
    {
        Generator { chunk_size, rng }
    }

    #[verifier::when_used_as_spec(spec_chunk_size)]
    pub fn chunk_size(&self) -> (n: usize)
        ensures
            n == self.spec_chunk_size(),
    {
        self.chunk_size
    }

    /// The next chunk: always one, and always of the full size.
    pub fn next(&mut self) -> (chunk: Option<Vec<u8>>)
        requires
            old(self).wf(),
        ensures
            final(self).wf(),
            final(self).chunk_size() == old(self).chunk_size(),
            chunk is Some,
            chunk->Some_0@.len() == old(self).chunk_size(),
    {
        Some(draw_bytes(&mut self.rng, self.chunk_size))
    }

    /// Fills the head of `buf` from one new chunk, as far as the chunk and
    /// `buf` reach, and says how many bytes it filled in. What lies behind
    /// them in `buf` stays as it was.
    pub fn read(&mut self, buf: &mut [u8]) -> (n: usize)
        requires
            old(self).wf(),
        ensures
            final(self).wf(),
            final(self).chunk_size() == old(self).chunk_size(),
            n == if old(buf)@.len() <= old(self).chunk_size() {
                old(buf)@.len()
            } else {
                old(self).chunk_size() as nat
            },
            final(buf)@.len() == old(buf)@.len(),
            final(buf)@.skip(n as int) == old(buf)@.skip(n as int),
    {
        let chunk = draw_bytes(&mut self.rng, self.chunk_size);
        let n = copy_chunk(chunk.as_slice(), buf);
        proof {
            assert(buf@.skip(n as int) =~= old(buf)@.skip(n as int));
        }
        n
    }
}

/// A generator with a buffer in front of it, so that reads of any size can
/// be served. The buffer holds the rest of the last chunk drawn.
pub struct BufferedGenerator {
    generator: Generator,
    buf: Vec<u8>,
    pos: usize,
}

impl BufferedGenerator {
    /// The bytes that were drawn and not read yet.
    pub closed spec fn available(&self) -> Seq<u8> {
        self.buf@.skip(self.pos as int)
    }

    /// The size of the chunks that are drawn, in bytes.
    pub closed spec fn spec_chunk_size(&self) -> usize {
        self.generator.chunk_size
    }

    /// What holds of every buffered generator: its generator is in order,
    /// the cursor lies within the buffer, and the buffer holds one chunk or
    /// nothing.
    pub closed spec fn wf(&self) -> bool {
        &&& self.generator.wf()
        &&& self.pos <= self.buf@.len()
        &&& self.buf@.len() == 0 || self.buf@.len() == self.generator.chunk_size
    }

    /// A buffer in front of `generator`, with nothing drawn yet.
    pub fn new(generator: Generator) -> (b: BufferedGenerator)
        requires
            generator.wf(),
        ensures
            b.wf(),
            b.chunk_size() == generator.chunk_size(),
            b.available() == Seq::<u8>::empty(),
    {
        let b = BufferedGenerator { generator, buf: Vec::new(), pos: 0 };
        proof {
            assert(b.available() =~= Seq::<u8>::empty());
        }
        b
    }

    #[verifier::when_used_as_spec(spec_chunk_size)]
    pub fn chunk_size(&self) -> (n: usize)
        ensures
            n == self.spec_chunk_size(),
    {
        self.generator.chunk_size()
    }

    /// The bytes that can be read without drawing again. Where none are
    /// left, exactly one new chunk is drawn first and the cursor goes back
    /// to its start; where some are left, nothing is drawn.
    pub fn fill_buf(&mut self) -> (bytes: &[u8])
        requires
            old(self).wf(),
        ensures
            final(self).wf(),
            final(self).chunk_size() == old(self).chunk_size(),
            bytes@ == final(self).available(),
            old(self).available().len() > 0 ==> final(self).available() == old(
                self,
            ).available(),
            old(self).available().len() == 0 ==> final(self).available().len() == old(
                self,
            ).chunk_size(),
    {
        if self.pos >= self.buf.len() {
            match self.generator.next() {
                Some(chunk) => {
                    self.buf = chunk;
                },
                None => {},
            }
            self.pos = 0;
        }
        slice_subrange(self.buf.as_slice(), self.pos, self.buf.len())
    }

    /// Fills all of `out`: first with the bytes that are available, then
    /// with new chunks, drawn one at a time as each is used up. What is
    /// left of the last chunk stays available. It says how many bytes it
    /// filled in, which is all of them unless the chunks are empty.
    pub fn read(&mut self, out: &mut [u8]) -> (n: usize)
        requires
            old(self).wf(),
        ensures
            final(self).wf(),
            final(self).chunk_size() == old(self).chunk_size(),
            n == if old(self).chunk_size() == 0 {
                0
            } else {
                old(out)@.len()
            },
            final(out)@.len() == old(out)@.len(),
            final(out)@.skip(n as int) == old(out)@.skip(n as int),
            n <= old(self).available().len() ==> final(out)@.take(n as int) == old(
                self,
            ).available().take(n as int) && final(self).available() == old(self).available().skip(
                n as int,
            ),
            n > old(self).available().len() ==> final(out)@.take(
                old(self).available().len() as int,
            ) == old(self).available(),
    {
        let ghost before = self.available();
        let total = out.len();
        let mut filled: usize = 0;
        proof {
            assert(out@.take(0) =~= before.take(0));
            assert(before.skip(0) =~= before);
        }
        while filled < total
            invariant
                self.wf(),
                self.chunk_size() == old(self).chunk_size(),
                before == old(self).available(),
                before.len() > 0 ==> self.chunk_size() > 0,
                filled <= total,
                out@.len() == total,
                total == old(out)@.len(),
                out@.skip(filled as int) == old(out)@.skip(filled as int),
                filled <= before.len() ==> out@.take(filled as int) == before.take(filled as int)
                    && self.available() == before.skip(filled as int),
                filled > before.len() ==> out@.take(before.len() as int) == before,
                filled > 0 ==> self.chunk_size() > 0,
            decreases total - filled,
        {
            let ghost at_start = out@;
            let bytes = self.fill_buf();
            let room = total - filled;
            let take = if bytes.len() <= room {
                bytes.len()
            } else {
                room
            };
            if take == 0 {
                proof {
                    assert(filled == 0);
                }
                return 0;
            }
            let mut j: usize = 0;
            while j < take
                invariant
                    j <= take,
                    take <= bytes@.len(),
                    filled + take <= total,
                    out@.len() == total,
                    at_start.len() == total,
                    out@ == at_start.take(filled as int) + bytes@.take(j as int) + at_start.skip(
                        filled + j,
                    ),
                decreases take - j,
            {
                out[filled + j] = bytes[j];
                proof {
                    assert(out@ =~= at_start.take(filled as int) + bytes@.take(j + 1)
                        + at_start.skip(filled + j + 1));
                }
                j = j + 1;
            }
            proof {
                let now = out@;
                assert(now.skip(filled + take) =~= old(out)@.skip(filled + take)) by {
                    assert(at_start.skip(filled + take) =~= at_start.skip(filled as int).skip(
                        take as int,
                    ));
                    assert(old(out)@.skip(filled + take) =~= old(out)@.skip(filled as int).skip(
                        take as int,
                    ));
                }
                if filled <= before.len() {
                    if filled < before.len() {
                        assert(bytes@ == before.skip(filled as int));
                        if filled + take <= before.len() {
                            assert(now.take(filled + take) =~= before.take(filled + take));
                        } else {
                            assert(now.take(before.len() as int) =~= before);
                        }
                    } else {
                        assert(now.take(before.len() as int) =~= at_start.take(filled as int));
                        assert(before.take(filled as int) =~= before);
                    }
                } else {
                    assert(now.take(before.len() as int) =~= at_start.take(before.len() as int));
                }
            }
            self.consume(take);
            proof {
                if filled + take <= before.len() {
                    assert(before.skip(filled as int).skip(take as int) =~= before.skip(
                        filled + take,
                    ));
                }
            }
            filled = filled + take;
        }
        filled
    }

    /// Marks `n` of the available bytes as read, or all of them where fewer
    /// are available.
    pub fn consume(&mut self, n: usize)
        requires
            old(self).wf(),
        ensures
            final(self).wf(),
            final(self).chunk_size() == old(self).chunk_size(),
            final(self).available() == old(self).available().skip(
                if n <= old(self).available().len() {
                    n as int
                } else {
                    old(self).available().len() as int
                },
            ),
    {
        let left = self.buf.len() - self.pos;
        if n <= left {
            self.pos = self.pos + n;
        } else {
            self.pos = self.buf.len();
        }
        proof {
            assert(self.available() =~= old(self).available().skip(
                if n <= old(self).available().len() {
                    n as int
                } else {
                    old(self).available().len() as int
                },
            ));
        }
    }
}

} // verus!
