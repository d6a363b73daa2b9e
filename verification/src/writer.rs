//! The socket writer: it gathers what is written and hands it to a
//! connection pool in chunks.

use crate::buffer::{
    buffer_as_slice, buffer_clear, buffer_len, buffer_new, buffer_push, buffer_reserve, buffered,
    WriteBuffer, BUF_SIZE,
};
use crate::chunk::{
    chunks, lemma_chunks_cover, lemma_chunks_of_multiple, piece_views, split, CHUNK_SIZE,
};
use crate::connection::MessageView;
use crate::error::PoolError;
use crate::sock::{as_messages, SocketPool, SocketPoolView};
use vstd::prelude::*;

verus! {

/// A socket writer as contracts see it.
pub struct SocketWriterView {
    /// The pool that the writer feeds.
    pub pool: SocketPoolView,
    /// The bytes that were written and not handed to the pool yet.
    pub pending: Seq<u8>,
    /// The size of the chunks that the writer hands to its pool.
    pub chunk_size: usize,
    /// How many bytes may stay behind after a write.
    pub threshold: usize,
}

impl SocketWriterView {
    /// The writer after a flush. Everything that was written is cut into
    /// chunks of the writer's size, the last of which holds what is left,
    /// and each chunk joins the outbound queue of the pool, in order;
    /// nothing stays behind. A writer whose pool is damaged keeps what it
    /// has.
    pub open spec fn flush(self) -> SocketWriterView {
        if self.pool.poisoned {
            self
        } else {
            SocketWriterView {
                pool: self.pool.enqueue_all(chunks(self.pending, self.chunk_size as nat)),
                pending: Seq::empty(),
                ..self
            }
        }
    }

    /// The writer after `bytes` were written to it. They go behind the
    /// bytes that wait; if more than the threshold wait then, the writer is
    /// flushed.
    pub open spec fn write(self, bytes: Seq<u8>) -> SocketWriterView {
        let taken = SocketWriterView { pending: self.pending + bytes, ..self };
        if taken.pending.len() > self.threshold {
            taken.flush()
        } else {
            taken
        }
    }

    /// Whether a write of `bytes` fails: it does where it has to flush and
    /// the pool is damaged.
    pub open spec fn write_fails(self, bytes: Seq<u8>) -> bool {
        (self.pending + bytes).len() > self.threshold && self.pool.poisoned
    }
}

/// A writer that gathers bytes and hands them to a connection pool in
/// chunks.
pub struct SocketWriter {
    pool: SocketPool,
    buf: WriteBuffer,
    chunk_size: usize,
    threshold: usize,
}

impl View for SocketWriter {
    type V = SocketWriterView;

    closed spec fn view(&self) -> SocketWriterView {
        SocketWriterView {
            pool: self.pool@,
            pending: buffered(&self.buf),
            chunk_size: self.chunk_size,
            threshold: self.threshold,
        }
    }
}

impl SocketWriter {
    /// What holds of every writer: its pool is in order, and its chunks
    /// have a size.
    pub closed spec fn wf(&self) -> bool {
        &&& self.pool.wf()
        &&& self.chunk_size > 0
    }

    /// A writer for `pool` that cuts chunks of `chunk_size` bytes and keeps
    /// at most `threshold` bytes back after a write. Chunks of no bytes are
    /// refused.
    pub fn with_limits(pool: SocketPool, chunk_size: usize, threshold: usize) -> (r: Result<
        SocketWriter,
        PoolError,
    >)
        requires
            pool.wf(),
        ensures
            chunk_size == 0 ==> r == Err::<SocketWriter, PoolError>(PoolError::InvalidConfig),
            chunk_size > 0 ==> r is Ok && r->Ok_0.wf() && r->Ok_0@ == (SocketWriterView {
                pool: pool@,
                pending: Seq::empty(),
                chunk_size,
                threshold,
            }),
    {
        if chunk_size == 0 {
            return Err(PoolError::InvalidConfig);
        }
        Ok(SocketWriter { pool, buf: buffer_new(), chunk_size, threshold })
    }

    /// A writer for `pool` that cuts chunks of `CHUNK_SIZE` bytes and keeps
    /// at most `BUF_SIZE` bytes back after a write.
    pub fn new(pool: SocketPool) -> (w: SocketWriter)
        requires
            pool.wf(),
        ensures
            w.wf(),
            w@ == (SocketWriterView {
                pool: pool@,
                pending: Seq::empty(),
                chunk_size: CHUNK_SIZE,
                threshold: BUF_SIZE,
            }),
    {
        SocketWriter { pool, buf: buffer_new(), chunk_size: CHUNK_SIZE, threshold: BUF_SIZE }
    }

    /// The pool that the writer feeds.
    pub fn pool(&self) -> (pool: &SocketPool)
        ensures
            pool@ == self@.pool,
            self.wf() ==> pool.wf(),
    {
        &self.pool
    }

    /// The pool that the writer feeds, to be worked on. What was written
    /// and not handed over stays as it is.
    pub fn pool_mut(&mut self) -> (pool: &mut SocketPool)
        ensures
            pool@ == old(self)@.pool,
            old(self).wf() ==> pool.wf(),
            final(self)@ == (SocketWriterView { pool: final(pool)@, ..old(self)@ }),
            old(self).wf() && final(pool).wf() ==> final(self).wf(),
    {
        &mut self.pool
    }

    /// Gives the pool up, and with it the bytes that were not handed over.
    pub fn into_pool(self) -> (pool: SocketPool)
        ensures
            pool@ == self@.pool,
            self.wf() ==> pool.wf(),
    {
        self.pool
    }

    /// The size of the chunks that the writer hands to its pool.
    pub fn chunk_size(&self) -> (n: usize)
        ensures
            n == self@.chunk_size,
    {
        self.chunk_size
    }

    /// How many bytes may stay behind after a write.
    pub fn threshold(&self) -> (n: usize)
        ensures
            n == self@.threshold,
    {
        self.threshold
    }

    /// The number of bytes that were written and not handed to the pool
    /// yet.
    pub fn buffered_len(&self) -> (n: usize)
        ensures
            n == self@.pending.len(),
    {
        buffer_len(&self.buf)
    }

    /// Takes `buf` in behind the bytes that wait already, and says how many
    /// bytes it took: all of them. If more than the threshold wait then,
    /// everything is handed to the pool as by `flush`, so that after a write
    /// that succeeds no more than the threshold stay behind. A write fails
    /// only where that flush does, and then the bytes wait on.
    pub fn write(&mut self, buf: &[u8]) -> (r: Result<usize, PoolError>)
        requires
            old(self).wf(),
            old(self)@.pending.len() + buf@.len() <= usize::MAX / 4,
        ensures
            final(self).wf(),
            final(self)@ == old(self)@.write(buf@),
            old(self)@.write_fails(buf@) ==> r == Err::<usize, PoolError>(
                PoolError::QueueLockPoisoned,
            ),
            !old(self)@.write_fails(buf@) ==> r == Ok::<usize, PoolError>(buf@.len() as usize)
                && final(self)@.pending.len() <= old(self)@.threshold,
    {
        let count = buf.len();
        buffer_reserve(&mut self.buf, count);
        let mut taken: usize = 0;
        while taken < count
            invariant
                taken <= count,
                count == buf@.len(),
                old(self)@.pending.len() + count <= usize::MAX / 4,
                self.pool == old(self).pool,
                self.chunk_size == old(self).chunk_size,
                self.threshold == old(self).threshold,
                buffered(&self.buf) == old(self)@.pending + buf@.take(taken as int),
            decreases count - taken,
        {
            buffer_push(&mut self.buf, buf[taken]);
            proof {
                assert((old(self)@.pending + buf@.take(taken as int)).push(buf@[taken as int])
                    =~= old(self)@.pending + buf@.take(taken + 1));
            }
            taken = taken + 1;
        }
        proof {
            assert(buf@.take(count as int) =~= buf@);
        }
        if buffer_len(&self.buf) > self.threshold {
            match self.flush() {
                Ok(()) => Ok(count),
                Err(e) => Err(e),
            }
        } else {
            Ok(count)
        }
    }

    /// Writes `buf` where the writer can hold it beside what waits already,
    /// and does nothing where it cannot.
    pub fn checked_write(&mut self, buf: &[u8]) -> (r: Option<Result<usize, PoolError>>)
        requires
            old(self).wf(),
        ensures
            final(self).wf(),
            old(self)@.pending.len() + buf@.len() > usize::MAX / 4 ==> r is None && final(self)@
                == old(self)@,
            old(self)@.pending.len() + buf@.len() <= usize::MAX / 4 ==> {
                &&& final(self)@ == old(self)@.write(buf@)
                &&& old(self)@.write_fails(buf@) ==> r == Some(
                    Err::<usize, PoolError>(PoolError::QueueLockPoisoned),
                )
                &&& !old(self)@.write_fails(buf@) ==> r == Some(
                    Ok::<usize, PoolError>(buf@.len() as usize),
                )
            },
    {
        let held = buffer_len(&self.buf);
        let room = usize::MAX / 4;
        if held > room || buf.len() > room - held {
            None
        } else {
            Some(self.write(buf))
        }
    }

    /// Hands everything that was written to the pool: the bytes are cut
    /// into chunks of the writer's size, the last of which holds what is
    /// left, and each chunk joins the outbound queue, in order. Nothing
    /// stays behind. Only a pool whose shared state is damaged refuses, and
    /// then nothing changes.
    pub fn flush(&mut self) -> (r: Result<(), PoolError>)
        requires
            old(self).wf(),
        ensures
            final(self).wf(),
            final(self)@ == old(self)@.flush(),
            old(self)@.pool.poisoned ==> r == Err::<(), PoolError>(PoolError::QueueLockPoisoned),
            !old(self)@.pool.poisoned ==> r == Ok::<(), PoolError>(()),
    {
        if self.pool.is_poisoned() {
            return Err(PoolError::QueueLockPoisoned);
        }
        let pieces = split(buffer_as_slice(&self.buf), self.chunk_size);
        let ghost all = piece_views(pieces@);
        let ghost start = self.pool@;
        proof {
            assert(start.enqueue_all(all.take(0)).outbound =~= start.outbound);
        }
        for piece in it: pieces
            invariant
                self.pool.wf(),
                !start.poisoned,
                self.buf == old(self).buf,
                self.chunk_size == old(self).chunk_size,
                self.threshold == old(self).threshold,
                it.seq() == pieces@,
                all == piece_views(pieces@),
                self.pool@ == start.enqueue_all(all.take(it.index())),
        {
            proof {
                let sent = it.index();
                assert(all[sent] == piece@);
                assert(start.enqueue_all(all.take(sent + 1)).outbound =~= start.enqueue_all(
                    all.take(sent),
                ).outbound.push(MessageView::Data(piece@)));
            }
            let _ = self.pool.enqueue(piece);
        }
        proof {
            assert(all.take(all.len() as int) =~= all);
        }
        buffer_clear(&mut self.buf);
        Ok(())
    }
}

/// A write followed by a flush hands the pool everything that was written,
/// whether the write flushed by itself or not: the bytes that waited and
/// the bytes written, cut into chunks as one run, join the outbound queue,
/// and nothing stays behind.
pub proof fn lemma_write_then_flush(writer: SocketWriterView, bytes: Seq<u8>)
    requires
        !writer.pool.poisoned,
    ensures
        writer.write(bytes).flush() == (SocketWriterView {
            pool: writer.pool.enqueue_all(chunks(writer.pending + bytes, writer.chunk_size as nat)),
            pending: Seq::empty(),
            ..writer
        }),
{
    if (writer.pending + bytes).len() > writer.threshold {
        let pool = writer.write(bytes).pool;
        let none = Seq::<Seq<u8>>::empty();
        assert(chunks(Seq::<u8>::empty(), writer.chunk_size as nat) =~= none);
        assert(pool.enqueue_all(none).outbound =~= pool.outbound);
    }
}

/// Writing `k` chunks' worth of bytes to a writer that holds nothing and
/// flushing it puts exactly `k` messages behind what waits in the outbound
/// queue, each with one chunk of the full size, and the chunks strung
/// together are the bytes written: none left out, none there twice.
pub proof fn lemma_whole_chunks_enqueued(writer: SocketWriterView, bytes: Seq<u8>, k: nat)
    requires
        !writer.pool.poisoned,
        writer.chunk_size > 0,
        writer.pending.len() == 0,
        bytes.len() == k * writer.chunk_size,
    ensures
        writer.write(bytes).flush().pool.outbound == writer.pool.outbound + as_messages(
            chunks(bytes, writer.chunk_size as nat),
        ),
        chunks(bytes, writer.chunk_size as nat).len() == k,
        forall|i: int|
            0 <= i < k ==> (#[trigger] chunks(bytes, writer.chunk_size as nat)[i]).len()
                == writer.chunk_size,
        chunks(bytes, writer.chunk_size as nat).flatten() == bytes,
{
    lemma_write_then_flush(writer, bytes);
    assert(writer.pending + bytes =~= bytes);
    lemma_chunks_of_multiple(bytes, writer.chunk_size as nat, k);
    lemma_chunks_cover(bytes, writer.chunk_size as nat);
}

} // verus!
