use simplerdb::buffer_manager::{BufferError, Pinned};
use simplerdb::file_manager::BlockId;
use simplerdb::page::Page;
use simplerdb::simpledb::SimpleDB;

fn open(dir: &str, buffers: u64) -> SimpleDB {
    let (db, w) = SimpleDB::new(dir.to_string(), 400, buffers, 0, Vec::new()).unwrap();
    assert!(w.is_some());
    db
}

/// Pins `block`; a block read from disk comes back zero-filled, as a new file would give.
fn pin(db: &mut SimpleDB, block: &BlockId) -> usize {
    match db.buffer_manager.pin(block, &mut db.log_manager).unwrap() {
        Pinned::Resident(i) => i,
        Pinned::Assigned { index, writes: _ } => {
            db.buffer_manager.load(index, Page::new(400));
            index
        }
    }
}

#[test]
fn buffer_test_buffer() {
    let mut db = open("buffertest", 3);
    let buff1 = pin(&mut db, &BlockId::new("testfile".to_string(), 1));
    let p = &mut db.buffer_manager.bufferpool[buff1].contents;
    let n = p.get_int(80).unwrap();
    p.set_int(80, n + 1).unwrap();
    db.buffer_manager.set_modified(buff1, Some(0), 1);
    db.buffer_manager.unpin(buff1);

    // the only free buffer still holds block 1, which is dirty: reusing it writes block 1 first
    let r = db.buffer_manager.pin(&BlockId::new("testfile".to_string(), 2), &mut db.log_manager);
    let buff2 = match r {
        Ok(Pinned::Assigned { index, writes }) => {
            assert_eq!(index, buff1);
            assert_eq!(writes.len(), 1);
            assert_eq!(writes[0].block.block_number, 1);
            assert_eq!(writes[0].bytes[87], 1);
            db.buffer_manager.load(index, Page::new(400));
            index
        }
        _ => panic!("expected a reassigned buffer"),
    };
    let buff3 = pin(&mut db, &BlockId::new("testfile".to_string(), 3));
    let buff4 = pin(&mut db, &BlockId::new("testfile".to_string(), 4));
    assert!(buff2 != buff3 && buff3 != buff4 && buff2 != buff4);
    let p = &mut db.buffer_manager.bufferpool[buff2].contents;
    p.set_int(80, 9999).unwrap();
    db.buffer_manager.set_modified(buff2, Some(0), 1);
    db.buffer_manager.unpin(buff2);
    assert_eq!(db.buffer_manager.available, 1);
}

#[test]
fn buffer_manager_test_buffer() {
    let mut db = open("buffermgrtest", 3);
    let mut buff: Vec<Option<usize>> = vec![None; 6];
    buff[0] = Some(pin(&mut db, &BlockId::new("testfile".to_string(), 0)));
    buff[1] = Some(pin(&mut db, &BlockId::new("testfile".to_string(), 1)));
    buff[2] = Some(pin(&mut db, &BlockId::new("testfile".to_string(), 2)));

    db.buffer_manager.unpin(buff[1].unwrap());
    let freed = buff[1].take().unwrap();
    buff[3] = Some(pin(&mut db, &BlockId::new("testfile".to_string(), 0))); // block 0 pinned twice
    buff[4] = Some(pin(&mut db, &BlockId::new("testfile".to_string(), 1))); // block 1 repinned
    assert_eq!(buff[3], buff[0]);
    assert_eq!(buff[4], Some(freed));

    let r = db.buffer_manager.pin(&BlockId::new("testfile".to_string(), 3), &mut db.log_manager);
    assert!(r.is_err()); // no available buffers

    db.buffer_manager.unpin(buff[2].unwrap());
    buff[2] = None;
    buff[5] = Some(pin(&mut db, &BlockId::new("testfile".to_string(), 3))); // now this works

    println!("Final Buffer Allocation:");
    let mut blocks = Vec::new();
    for (i, b) in buff.iter().enumerate() {
        if let Some(b) = b {
            let n = db.buffer_manager.bufferpool[*b].block.as_ref().unwrap().block_number;
            println!("buff[{}] pinned to block {}", i, n);
            blocks.push(n);
        }
    }
    assert_eq!(blocks, vec![0, 0, 1, 3]);
}

#[test]
fn pinning_a_resident_block_needs_no_read() {
    let mut db = open("cachehit", 2);
    let b = BlockId::new("f".to_string(), 7);
    let i = pin(&mut db, &b);
    match db.buffer_manager.pin(&b, &mut db.log_manager) {
        Ok(Pinned::Resident(j)) => assert_eq!(i, j),
        _ => panic!("expected a cache hit"),
    }
    assert_eq!(db.buffer_manager.bufferpool[i].pins, 2);
    assert_eq!(db.buffer_manager.available, 1);
}

#[test]
fn pool_exhaustion_and_one_unpin() {
    let mut db = open("exhaust", 2);
    let a = pin(&mut db, &BlockId::new("f".to_string(), 0));
    let _b = pin(&mut db, &BlockId::new("f".to_string(), 1));
    assert_eq!(db.buffer_manager.available, 0);
    let r = db.buffer_manager.pin(&BlockId::new("f".to_string(), 2), &mut db.log_manager);
    assert!(matches!(r, Err(BufferError::Exhausted)));
    db.buffer_manager.unpin(a);
    assert_eq!(db.buffer_manager.available, 1);
    let c = pin(&mut db, &BlockId::new("f".to_string(), 2));
    assert_eq!(c, a);
    let r = db.buffer_manager.pin(&BlockId::new("f".to_string(), 3), &mut db.log_manager);
    assert!(matches!(r, Err(BufferError::Exhausted)));
}

#[test]
fn flush_writes_log_first() {
    let mut db = open("flushahead", 2);
    let lsn = db.log_manager.append(b"change").unwrap().0;
    assert_eq!(lsn, 1);
    let i = pin(&mut db, &BlockId::new("data".to_string(), 5));
    db.buffer_manager.bufferpool[i].contents.set_int(0, 42).unwrap();
    db.buffer_manager.set_modified(i, Some(lsn), 9);
    let other = pin(&mut db, &BlockId::new("data".to_string(), 6));
    db.buffer_manager.set_modified(other, None, 8);
    let writes = db.buffer_manager.flush_all(9, &mut db.log_manager);
    assert_eq!(writes.len(), 2);
    assert_eq!(writes[0].block.filename, "logfile");
    assert_eq!(writes[1].block.block_number, 5);
    assert_eq!(writes[1].bytes[7], 42);
    assert_eq!(db.log_manager.last_saved_lsn, 1);
    assert_eq!(db.buffer_manager.bufferpool[i].transaction_number, None);
    assert_eq!(db.buffer_manager.bufferpool[other].transaction_number, Some(8));
    // nothing left to write for that transaction
    assert!(db.buffer_manager.flush_all(9, &mut db.log_manager).is_empty());
}

#[test]
fn release_after_a_failed_load() {
    let mut db = open("release", 1);
    let b = BlockId::new("f".to_string(), 3);
    let i = match db.buffer_manager.pin(&b, &mut db.log_manager).unwrap() {
        Pinned::Assigned { index, .. } => index,
        Pinned::Resident(_) => panic!("expected a reassigned buffer"),
    };
    db.buffer_manager.release(i);
    assert_eq!(db.buffer_manager.available, 1);
    assert!(db.buffer_manager.find_resident(&b).is_none());
    // the block is read again rather than served from the abandoned buffer
    assert!(matches!(db.buffer_manager.pin(&b, &mut db.log_manager), Ok(Pinned::Assigned { .. })));
}
