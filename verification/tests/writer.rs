use slowloris::buffer::BUF_SIZE;
use slowloris::chunk::{split, CHUNK_SIZE};
use slowloris::connection::{Action, ConnectionEvent};
use slowloris::error::PoolError;
use slowloris::sock::SocketPool;
use slowloris::writer::SocketWriter;

fn pool() -> SocketPool {
    SocketPool::new(1, String::from("127.0.0.1:8080")).unwrap()
}

/// Takes everything out of the outbound queue, through connection 0.
fn written_chunks(writer: &mut SocketWriter) -> Vec<Vec<u8>> {
    let pool = writer.pool_mut();
    let mut out = Vec::new();
    let mut action = pool.step(0, ConnectionEvent::Started);
    if action == Action::Connect {
        action = pool.step(0, ConnectionEvent::Connected);
    } else {
        action = pool.step(0, ConnectionEvent::Idle);
    }
    while let Action::Write(bytes) = action {
        out.push(bytes);
        action = pool.step(0, ConnectionEvent::Written);
    }
    assert_eq!(action, Action::Wait);
    out
}

#[test]
fn defaults_are_four_byte_chunks_and_a_sixty_four_byte_buffer() {
    assert_eq!(CHUNK_SIZE, 4);
    assert_eq!(BUF_SIZE, 64);
    let writer = SocketWriter::new(pool());
    assert_eq!(writer.chunk_size(), 4);
    assert_eq!(writer.threshold(), 64);
    assert_eq!(writer.buffered_len(), 0);
}

#[test]
fn chunks_of_no_bytes_are_refused() {
    assert!(matches!(SocketWriter::with_limits(pool(), 0, 64), Err(PoolError::InvalidConfig)));
    let writer = SocketWriter::with_limits(pool(), 3, 10).unwrap();
    assert_eq!(writer.chunk_size(), 3);
    assert_eq!(writer.threshold(), 10);
}

#[test]
fn write_then_flush_enqueues_disjoint_chunks() {
    for k in 0..=16usize {
        let bytes: Vec<u8> = (0..(k * CHUNK_SIZE) as u8).collect();
        let mut writer = SocketWriter::new(pool());
        assert_eq!(writer.write(&bytes), Ok(bytes.len()));
        assert_eq!(writer.flush(), Ok(()));
        assert_eq!(writer.buffered_len(), 0);
        let chunks = written_chunks(&mut writer);
        assert_eq!(chunks.len(), k);
        for chunk in &chunks {
            assert_eq!(chunk.len(), CHUNK_SIZE);
        }
        assert_eq!(chunks.concat(), bytes);
    }
}

#[test]
fn eight_bytes_give_two_chunks_not_five_windows() {
    let mut writer = SocketWriter::new(pool());
    writer.write(&[1, 2, 3, 4, 5, 6, 7, 8]).unwrap();
    writer.flush().unwrap();
    assert_eq!(written_chunks(&mut writer), vec![vec![1, 2, 3, 4], vec![5, 6, 7, 8]]);
}

#[test]
fn remainder_is_flushed_as_a_short_last_chunk() {
    let mut writer = SocketWriter::new(pool());
    writer.write(&[1, 2, 3, 4, 5, 6]).unwrap();
    assert_eq!(writer.buffered_len(), 6);
    writer.flush().unwrap();
    assert_eq!(writer.buffered_len(), 0);
    assert_eq!(written_chunks(&mut writer), vec![vec![1, 2, 3, 4], vec![5, 6]]);
}

#[test]
fn flush_of_nothing_enqueues_nothing() {
    let mut writer = SocketWriter::new(pool());
    assert_eq!(writer.flush(), Ok(()));
    assert_eq!(writer.pool().backlog(), 0);
    assert_eq!(writer.write(&[]), Ok(0));
    assert_eq!(writer.flush(), Ok(()));
    assert_eq!(writer.pool().backlog(), 0);
}

#[test]
fn writes_gather_until_the_threshold_is_passed() {
    let mut writer = SocketWriter::new(pool());
    let first: Vec<u8> = (0..60).collect();
    assert_eq!(writer.write(&first), Ok(60));
    assert_eq!(writer.buffered_len(), 60);
    assert_eq!(writer.pool().backlog(), 0);
    // Exactly the threshold: nothing is flushed yet.
    assert_eq!(writer.write(&[60, 61, 62, 63]), Ok(4));
    assert_eq!(writer.buffered_len(), 64);
    assert_eq!(writer.pool().backlog(), 0);
    // One byte more, and everything goes: 16 full chunks and one byte.
    assert_eq!(writer.write(&[64]), Ok(1));
    assert_eq!(writer.buffered_len(), 0);
    assert_eq!(writer.pool().backlog(), 17);
    let chunks = written_chunks(&mut writer);
    let all: Vec<u8> = (0..65).collect();
    assert_eq!(chunks.concat(), all);
    assert_eq!(chunks[16], vec![64]);
    for chunk in &chunks[..16] {
        assert_eq!(chunk.len(), 4);
    }
}

#[test]
fn large_write_is_flushed_at_once() {
    let mut writer = SocketWriter::with_limits(pool(), 5, 8).unwrap();
    let bytes: Vec<u8> = (0..23).collect();
    assert_eq!(writer.write(&bytes), Ok(23));
    assert_eq!(writer.buffered_len(), 0);
    let chunks = written_chunks(&mut writer);
    assert_eq!(
        chunks,
        vec![
            vec![0, 1, 2, 3, 4],
            vec![5, 6, 7, 8, 9],
            vec![10, 11, 12, 13, 14],
            vec![15, 16, 17, 18, 19],
            vec![20, 21, 22],
        ]
    );
}

#[test]
fn writes_that_spill_the_inline_buffer_keep_their_bytes() {
    let mut writer = SocketWriter::with_limits(pool(), 100, 1000).unwrap();
    let bytes: Vec<u8> = (0..250u32).map(|i| (i % 251) as u8).collect();
    assert_eq!(writer.write(&bytes[..70]), Ok(70));
    assert_eq!(writer.write(&bytes[70..]), Ok(180));
    assert_eq!(writer.buffered_len(), 250);
    writer.flush().unwrap();
    let chunks = written_chunks(&mut writer);
    assert_eq!(chunks.len(), 3);
    assert_eq!(chunks[0], bytes[..100].to_vec());
    assert_eq!(chunks[1], bytes[100..200].to_vec());
    assert_eq!(chunks[2], bytes[200..].to_vec());
}

#[test]
fn poisoned_pool_fails_the_flush_and_keeps_the_bytes() {
    let mut writer = SocketWriter::new(pool());
    writer.write(&[1, 2, 3]).unwrap();
    writer.pool_mut().mark_poisoned();
    assert_eq!(writer.flush(), Err(PoolError::QueueLockPoisoned));
    assert_eq!(writer.buffered_len(), 3);
    // A write that needs no flush still succeeds.
    assert_eq!(writer.write(&[4]), Ok(1));
    assert_eq!(writer.buffered_len(), 4);
    // One that passes the threshold fails, and the bytes wait on.
    let more = [0u8; 61];
    assert_eq!(writer.write(&more), Err(PoolError::QueueLockPoisoned));
    assert_eq!(writer.buffered_len(), 65);
    assert_eq!(writer.pool().backlog(), 0);
}

#[test]
fn into_pool_gives_back_what_was_enqueued() {
    let mut writer = SocketWriter::new(pool());
    writer.write(&[1, 2, 3, 4, 5]).unwrap();
    writer.flush().unwrap();
    let pool = writer.into_pool();
    assert_eq!(pool.backlog(), 2);
    assert_eq!(pool.size(), 1);
}

#[test]
fn split_cuts_disjoint_pieces() {
    assert_eq!(split(&[], 4), Vec::<Vec<u8>>::new());
    assert_eq!(split(&[1], 4), vec![vec![1]]);
    assert_eq!(split(&[1, 2, 3, 4], 4), vec![vec![1, 2, 3, 4]]);
    assert_eq!(split(&[1, 2, 3, 4, 5], 4), vec![vec![1, 2, 3, 4], vec![5]]);
    assert_eq!(split(&[1, 2, 3], 1), vec![vec![1], vec![2], vec![3]]);
    assert_eq!(split(&[1, 2, 3], 7), vec![vec![1, 2, 3]]);
}

#[test]
fn checked_write_writes_what_fits() {
    let mut writer = SocketWriter::new(pool());
    assert_eq!(writer.checked_write(&[1, 2, 3, 4, 5]), Some(Ok(5)));
    assert_eq!(writer.buffered_len(), 5);
    writer.flush().unwrap();
    assert_eq!(written_chunks(&mut writer), vec![vec![1, 2, 3, 4], vec![5]]);
    writer.pool_mut().mark_poisoned();
    let many = [0u8; 65];
    assert_eq!(writer.checked_write(&many), Some(Err(PoolError::QueueLockPoisoned)));
}
