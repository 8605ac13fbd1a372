use simple_wal::{
    BlockWrite, EnqueueError, FromFileError, OpenError, Stats, WriteError, WriteStep, Wrote, WAL,
};

/// Runs one commit against an in-memory file. The batched write transfers at
/// most `limit` bytes; `sync` is the outcome of the durability barrier.
fn commit(
    wal: &mut WAL,
    disk: &mut Vec<u8>,
    limit: usize,
    sync: Result<(), String>,
) -> Result<Wrote, WriteError<String>> {
    match wal.begin_write::<String>() {
        WriteStep::Done(r) => return r,
        WriteStep::Transfer => {}
        WriteStep::Sync(_) => unreachable!(),
    }
    let mut n: usize = 0;
    for i in 0..wal.stats().blocks {
        let s = wal.pending_slice(i);
        let take = s.len().min(limit - n);
        disk.extend_from_slice(&s[..take]);
        n += take;
    }
    match wal.end_transfer::<String>(Ok(n)) {
        WriteStep::Done(r) => r,
        WriteStep::Sync(w) => WAL::end_sync(w, sync),
        WriteStep::Transfer => unreachable!(),
    }
}

fn drain(mut w: Wrote) -> Vec<(Vec<u8>, usize)> {
    let mut out = Vec::new();
    while let Some(item) = w.next() {
        out.push(item);
    }
    out
}

#[test]
fn hello_world_scenario() {
    let mut wal = WAL::new(1024);
    let mut disk = Vec::new();
    assert_eq!(wal.enqueue(b"hello".to_vec()).unwrap(), Stats::new(1, 5));
    assert_eq!(wal.enqueue(b"world".to_vec()).unwrap(), Stats::new(2, 10));
    let w = commit(&mut wal, &mut disk, usize::MAX, Ok(())).unwrap();
    assert_eq!(w.before(), Stats::new(2, 10));
    assert_eq!(w.wrote(), Stats::new(2, 10));
    assert_eq!(w.after(), Stats::new(0, 0));
    assert_eq!(drain(w), vec![(b"hello".to_vec(), 0), (b"world".to_vec(), 5)]);
    assert_eq!(&disk[0..10], b"helloworld");
    assert_eq!(wal.offset(), 10);
}

#[test]
fn full_batch_yields_every_buffer_at_its_offset() {
    let mut wal = WAL::with_capacity(100, 8);
    let mut disk = Vec::new();
    let bufs = vec![b"a".to_vec(), b"".to_vec(), b"bcd".to_vec(), b"efgh".to_vec()];
    for b in bufs.iter() {
        wal.enqueue(b.clone()).unwrap();
    }
    let w = commit(&mut wal, &mut disk, usize::MAX, Ok(())).unwrap();
    assert_eq!(w.wrote(), Stats::new(4, 8));
    assert_eq!(w.len(), 4);
    assert_eq!(w.size_hint(), (4, Some(4)));
    let items = drain(w);
    assert_eq!(items, vec![(bufs[0].clone(), 0), (bufs[1].clone(), 1), (bufs[2].clone(), 1), (bufs[3].clone(), 4)]);
    for (b, off) in items.iter() {
        assert_eq!(&disk[*off..*off + b.len()], &b[..]);
    }
    assert_eq!(wal.stats(), Stats::new(0, 0));
}

#[test]
fn dropping_wrote_still_advances_offset() {
    let mut wal = WAL::new(1024);
    let mut disk = Vec::new();
    wal.enqueue(b"hello".to_vec()).unwrap();
    wal.enqueue(b"world".to_vec()).unwrap();
    let mut w = commit(&mut wal, &mut disk, usize::MAX, Ok(())).unwrap();
    assert_eq!(w.next(), Some((b"hello".to_vec(), 0)));
    drop(w);
    assert_eq!(wal.offset(), 10);
    wal.enqueue(b"again".to_vec()).unwrap();
    let w = commit(&mut wal, &mut disk, usize::MAX, Ok(())).unwrap();
    assert_eq!(drain(w), vec![(b"again".to_vec(), 10)]);
    assert_eq!(disk, b"helloworldagain".to_vec());
}

#[test]
fn partial_transfer_keeps_the_rest_queued() {
    let mut wal = WAL::new(1024);
    let mut disk = Vec::new();
    wal.enqueue(b"aaa".to_vec()).unwrap();
    wal.enqueue(b"bbbb".to_vec()).unwrap();
    wal.enqueue(b"cc".to_vec()).unwrap();
    let w = commit(&mut wal, &mut disk, 5, Ok(())).unwrap();
    assert_eq!(w.before(), Stats::new(3, 9));
    assert_eq!(w.wrote(), Stats::new(1, 5));
    assert_eq!(w.after(), Stats::new(2, 4));
    assert_eq!(drain(w), vec![(b"aaa".to_vec(), 0)]);
    assert_eq!(wal.offset(), 3);
    assert_eq!(wal.pending_slice(0), b"bb");
    assert_eq!(wal.pending_slice(1), b"cc");
    let w = commit(&mut wal, &mut disk, usize::MAX, Ok(())).unwrap();
    assert_eq!(w.wrote(), Stats::new(2, 4));
    assert_eq!(drain(w), vec![(b"bbbb".to_vec(), 3), (b"cc".to_vec(), 7)]);
    assert_eq!(disk, b"aaabbbbcc".to_vec());
    assert_eq!(wal.offset(), 9);
}

#[test]
fn transfer_inside_first_buffer_commits_nothing() {
    let mut wal = WAL::new(1024);
    let mut disk = Vec::new();
    wal.enqueue(b"hello".to_vec()).unwrap();
    let w = commit(&mut wal, &mut disk, 2, Ok(())).unwrap();
    assert_eq!(w.wrote(), Stats::new(0, 2));
    assert_eq!(w.after(), Stats::new(1, 3));
    assert_eq!(drain(w), vec![]);
    assert_eq!(wal.offset(), 0);
    let w = commit(&mut wal, &mut disk, usize::MAX, Ok(())).unwrap();
    assert_eq!(drain(w), vec![(b"hello".to_vec(), 0)]);
    assert_eq!(disk, b"hello".to_vec());
}

#[test]
fn write_on_empty_queue_is_a_no_op() {
    let mut wal = WAL::new(1024);
    let mut disk = Vec::new();
    let w = commit(&mut wal, &mut disk, usize::MAX, Ok(())).unwrap();
    assert_eq!(w.before(), Stats::new(0, 0));
    assert_eq!(w.after(), w.before());
    assert_eq!(w.wrote(), Stats::default());
    assert_eq!(w.size_hint(), (0, Some(0)));
    assert_eq!(drain(w), vec![]);
    assert!(disk.is_empty());
}

#[test]
fn zero_progress_transfer_is_a_no_op() {
    let mut wal = WAL::new(1024);
    wal.enqueue(b"hello".to_vec()).unwrap();
    match wal.end_transfer::<String>(Ok(0)) {
        WriteStep::Done(Ok(w)) => {
            assert_eq!(w.before(), Stats::new(1, 5));
            assert_eq!(w.after(), Stats::new(1, 5));
            assert_eq!(w.wrote(), Stats::new(0, 0));
            assert_eq!(w.len(), 0);
        }
        other => panic!("unexpected step {:?}", other),
    }
    assert_eq!(wal.stats(), Stats::new(1, 5));
}

#[test]
fn failed_transfer_leaves_queue_unchanged() {
    let mut wal = WAL::new(1024);
    wal.enqueue(b"hello".to_vec()).unwrap();
    assert!(matches!(wal.begin_write::<String>(), WriteStep::Transfer));
    match wal.end_transfer::<String>(Err("disk gone".to_string())) {
        WriteStep::Done(Err(WriteError::Unwritten(e))) => assert_eq!(e, "disk gone"),
        other => panic!("unexpected step {:?}", other),
    }
    assert_eq!(wal.stats(), Stats::new(1, 5));
    assert_eq!(wal.offset(), 0);
}

#[test]
fn failed_sync_hands_back_the_transferred_buffers() {
    let mut wal = WAL::new(1024);
    let mut disk = Vec::new();
    wal.enqueue(b"hello".to_vec()).unwrap();
    match commit(&mut wal, &mut disk, usize::MAX, Err("fsync".to_string())) {
        Err(WriteError::Unsynced(e, w)) => {
            assert_eq!(e, "fsync");
            assert_eq!(w.wrote(), Stats::new(1, 5));
            assert_eq!(drain(w), vec![(b"hello".to_vec(), 0)]);
        }
        other => panic!("unexpected result {:?}", other),
    }
    assert_eq!(wal.stats(), Stats::new(0, 0));
    assert_eq!(wal.offset(), 5);
}

#[test]
fn enqueue_over_capacity_hands_the_buffer_back() {
    let mut wal = WAL::new(8);
    assert_eq!(wal.enqueue(b"hello".to_vec()).unwrap(), Stats::new(1, 5));
    match wal.enqueue(b"world".to_vec()) {
        Err(EnqueueError::EndOfFile(b)) => assert_eq!(b, b"world".to_vec()),
        other => panic!("unexpected result {:?}", other),
    }
    assert_eq!(wal.stats(), Stats::new(1, 5));
    assert_eq!(wal.enqueue(b"abc".to_vec()).unwrap(), Stats::new(2, 8));
    assert!(wal.enqueue(Vec::new()).is_ok());
    assert!(wal.enqueue(b"x".to_vec()).is_err());
}

#[test]
fn capacity_counts_the_durable_offset() {
    let mut wal = WAL::new(10);
    let mut disk = Vec::new();
    wal.enqueue(b"hello".to_vec()).unwrap();
    commit(&mut wal, &mut disk, usize::MAX, Ok(())).unwrap();
    assert!(wal.enqueue(b"world!".to_vec()).is_err());
    assert_eq!(wal.enqueue(b"world".to_vec()).unwrap(), Stats::new(1, 5));
}

#[test]
fn enqueue_all_is_all_or_nothing() {
    let mut wal = WAL::new(8);
    let batch = vec![b"abc".to_vec(), b"defgh".to_vec(), b"i".to_vec()];
    match wal.enqueue_all(batch.clone()) {
        Err(EnqueueError::EndOfFile(b)) => assert_eq!(b, batch),
        other => panic!("unexpected result {:?}", other),
    }
    assert_eq!(wal.stats(), Stats::new(0, 0));
    assert_eq!(wal.enqueue_all(vec![b"abc".to_vec(), b"defgh".to_vec()]).unwrap(), Stats::new(2, 8));
    assert_eq!(wal.enqueue_all(Vec::new()).unwrap(), Stats::new(2, 8));
    let mut disk = Vec::new();
    let w = commit(&mut wal, &mut disk, usize::MAX, Ok(())).unwrap();
    assert_eq!(drain(w), vec![(b"abc".to_vec(), 0), (b"defgh".to_vec(), 3)]);
}

#[test]
fn existing_file_at_or_over_capacity_is_too_big() {
    assert!(matches!(WAL::from_seek::<String>(Ok(10), 10, 0), Err(FromFileError::TooBig)));
    assert!(matches!(WAL::from_seek::<String>(Ok(11), 10, 0), Err(FromFileError::TooBig)));
    match WAL::from_seek::<String>(Err("seek".to_string()), 10, 0) {
        Err(FromFileError::Seek(e)) => assert_eq!(e, "seek"),
        other => panic!("unexpected result {:?}", other),
    }
    let wal = WAL::from_seek::<String>(Ok(9), 10, 4).unwrap();
    assert_eq!(wal.offset(), 9);
    assert_eq!(wal.max_bytes(), 10);
    assert_eq!(wal.stats(), Stats::new(0, 0));
}

#[test]
fn existing_file_offsets_continue_from_its_end() {
    let mut wal = WAL::from_seek::<String>(Ok(100), 110, 0).unwrap();
    let mut disk = vec![0u8; 100];
    assert!(wal.enqueue(b"0123456789a".to_vec()).is_err());
    wal.enqueue(b"abc".to_vec()).unwrap();
    let w = commit(&mut wal, &mut disk, usize::MAX, Ok(())).unwrap();
    assert_eq!(drain(w), vec![(b"abc".to_vec(), 100)]);
    assert_eq!(&disk[100..103], b"abc");
    assert_eq!(wal.offset(), 103);
}

#[test]
fn open_error_from_file_error() {
    assert!(matches!(OpenError::from(FromFileError::<String>::TooBig), OpenError::TooBig));
    match OpenError::from(FromFileError::Seek("e".to_string())) {
        OpenError::Seek(e) => assert_eq!(e, "e"),
        other => panic!("unexpected result {:?}", other),
    }
}

#[test]
fn split_transfer_reports_blocks_and_partial() {
    let mut wal = WAL::new(100);
    wal.enqueue(b"aaa".to_vec()).unwrap();
    wal.enqueue(b"bbbb".to_vec()).unwrap();
    assert_eq!(
        wal.split_transfer(5),
        BlockWrite { start_position: 0, blocks: 1, bytes: 5, partial: 2 }
    );
    assert_eq!(
        wal.split_transfer(7),
        BlockWrite { start_position: 0, blocks: 2, bytes: 7, partial: 0 }
    );
    assert_eq!(
        wal.split_transfer(0),
        BlockWrite { start_position: 0, blocks: 0, bytes: 0, partial: 0 }
    );
}
