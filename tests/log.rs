use simplerdb::file_manager::{BlockId, FileError, FileManager};
use simplerdb::log_iterator::{LogIterator, LogStep};
use simplerdb::log_manager::{LogError, LogManager};
use simplerdb::page::Page;
use simplerdb::record::Record;

fn record(i: u64) -> Vec<u8> {
    let s = format!("record{}", i);
    let npos = Page::max_length(s.len() as u64);
    let mut p = Page::new(npos + 8);
    p.set_string(0, &s).unwrap();
    p.set_int(npos, i).unwrap();
    p.bb.contents()
}

fn fresh_log() -> LogManager {
    let fm = FileManager::new("logtest".to_string(), 400);
    let (lm, w) = LogManager::new(&fm, "logfile".to_string(), 0, Vec::new()).unwrap();
    let w = w.unwrap();
    assert_eq!(w.block.block_number, 0);
    assert_eq!(&w.bytes[..8], &[0, 0, 0, 0, 0, 0, 1, 144]);
    lm
}

#[test]
fn log_rolls_over_into_a_new_block() {
    let mut lm = fresh_log();
    let mut all_writes = Vec::new();
    for i in 1..20u64 {
        let (lsn, writes) = lm.append(&record(i)).unwrap();
        assert_eq!(lsn, i);
        if i == 13 {
            assert_eq!(writes.len(), 2);
        } else {
            assert!(writes.is_empty());
        }
        all_writes.extend(writes);
    }
    // block 0 was saved when record 13 did not fit below its boundary of 25
    assert_eq!(all_writes[0].block.block_number, 0);
    let mut block0 = Page::from_bytes(all_writes[0].bytes.clone());
    assert_eq!(block0.get_int(0).unwrap(), 25);
    assert_eq!(block0.get_int(25).unwrap(), 24);
    assert_eq!(&all_writes[0].bytes[33..41], b"\0\0\0\0\0\0\0\x08");
    assert_eq!(&all_writes[0].bytes[41..49], b"record12");
    assert_eq!(all_writes[1].block.block_number, 1);
    assert_eq!(lm.current_block.block_number, 1);
    assert_eq!(lm.last_saved_lsn, 12);
    assert_eq!(lm.latest_lsn, 19);
    // seven records in block 1, 32 bytes each
    assert_eq!(lm.log_page.get_int(0).unwrap(), 400 - 7 * 32);

    let recs = Record::page_records(&block0).unwrap();
    assert_eq!(recs.len(), 12);
    assert_eq!(recs[0].bytes, record(12));
    assert_eq!(recs[11].bytes, record(1));

    let w = lm.flush_with_lsn(20).unwrap();
    assert_eq!(w.block.block_number, 1);
    assert_eq!(lm.last_saved_lsn, 19);
    let recs = Record::page_records(&Page::from_bytes(w.bytes)).unwrap();
    assert_eq!(recs.len(), 7);
    assert_eq!(recs[0].bytes, record(19));
}

#[test]
fn flush_with_saved_lsn_writes_nothing() {
    let mut lm = fresh_log();
    lm.append(b"a").unwrap();
    lm.append(b"b").unwrap();
    assert!(lm.flush_with_lsn(0).is_none());
    assert!(lm.flush_with_lsn(1).is_some());
    assert_eq!(lm.last_saved_lsn, 2);
    assert!(lm.flush_with_lsn(2).is_none());
    assert!(lm.flush_with_lsn(1).is_none());
    let w = lm.flush();
    assert_eq!(w.block.block_number, 0);
}

#[test]
fn append_all_numbers_records_in_order() {
    let mut lm = fresh_log();
    lm.append(b"first").unwrap();
    let records: Vec<Vec<u8>> = (0..30u64).map(record).collect();
    let (lsns, writes) = lm.append_all(&records).unwrap();
    assert_eq!(lsns, (2..32u64).collect::<Vec<u64>>());
    assert_eq!(lm.latest_lsn, 31);
    assert_eq!(writes.len() % 2, 0);
    assert!(!writes.is_empty());
}

#[test]
fn record_too_large() {
    let mut lm = fresh_log();
    assert_eq!(lm.append(&vec![1u8; 385]).unwrap_err(), LogError::RecordTooLarge);
    assert_eq!(lm.latest_lsn, 0);
    let (lsn, writes) = lm.append(&vec![1u8; 384]).unwrap();
    assert_eq!(lsn, 1);
    assert!(writes.is_empty());
    assert_eq!(lm.log_page.get_int(0).unwrap(), 8);
    let big = vec![vec![1u8], vec![2u8; 400]];
    let before = lm.log_page.bb.bytes.clone();
    assert_eq!(lm.append_all(&big).err(), Some(LogError::RecordTooLarge));
    // nothing of the batch was appended
    assert_eq!(lm.latest_lsn, 1);
    assert_eq!(lm.last_saved_lsn, 0);
    assert_eq!(lm.current_block.block_number, 0);
    assert_eq!(lm.log_page.bb.bytes, before);
}

#[test]
fn reopen_takes_the_last_block() {
    let fm = FileManager::new("logtest".to_string(), 400);
    let mut tail = Page::new(400);
    tail.set_bytes(300, b"xyz").unwrap();
    tail.set_int(0, 300).unwrap();
    let bytes = tail.bb.contents();
    let (mut lm, w) = LogManager::new(&fm, "logfile".to_string(), 1200, bytes).unwrap();
    assert!(w.is_none());
    assert_eq!(lm.current_block.block_number, 2);
    assert_eq!(lm.log_page.get_int(0).unwrap(), 300);
    let (lsn, _) = lm.append(b"abc").unwrap();
    assert_eq!(lsn, 1);
    assert_eq!(lm.log_page.get_int(0).unwrap(), 300 - 11);
    let tb = LogManager::tail_block(&fm, "logfile".to_string(), 399);
    assert!(tb.is_none());
}

#[test]
fn corrupt_or_small_log() {
    let fm = FileManager::new("logtest".to_string(), 400);
    let short = vec![0u8; 100];
    assert_eq!(LogManager::new(&fm, "logfile".to_string(), 400, short).err(), Some(LogError::Corrupt));
    let zero_boundary = vec![0u8; 400];
    assert_eq!(LogManager::new(&fm, "logfile".to_string(), 400, zero_boundary).err(), Some(LogError::Corrupt));
    let tiny = FileManager::new("logtest".to_string(), 15);
    assert_eq!(LogManager::new(&tiny, "logfile".to_string(), 0, Vec::new()).err(), Some(LogError::BlockTooSmall));
}

#[test]
fn file_block_arithmetic() {
    let fm = FileManager::new("d".to_string(), 400);
    let b = fm.append_block("f".to_string(), 1200);
    assert_eq!(b.block_number, 3);
    assert_eq!(fm.block_offset(&b).unwrap(), 1200);
    let far = BlockId::new("f".to_string(), u64::MAX / 100);
    assert_eq!(fm.block_offset(&far), Err(FileError::OffsetOverflow));
    assert_eq!(fm.check_read(400), Ok(()));
    assert_eq!(fm.check_read(399), Err(FileError::ShortRead));
    assert!(FileManager::is_stale_temp("tempfile1"));
    assert!(!FileManager::is_stale_temp("logfile"));
    assert!(!FileManager::is_stale_temp("tem"));
    let c = b.copy();
    assert!(c.same(&b));
    assert!(!c.same(&BlockId::new("g".to_string(), 3)));
}

const EXPECTED_LOG: [&str; 50] = [
        "00 00 00 00 00 00 00 19 00 00 00 00 00 00 00 00",
        "00 00 00 00 00 00 00 00 00 00 00 00 00 00 00 00",
        "18 00 00 00 00 00 00 00 08 72 65 63 6f 72 64 31",
        "32 00 00 00 00 00 00 00 70 00 00 00 00 00 00 00",
        "18 00 00 00 00 00 00 00 08 72 65 63 6f 72 64 31",
        "31 00 00 00 00 00 00 00 6f 00 00 00 00 00 00 00",
        "18 00 00 00 00 00 00 00 08 72 65 63 6f 72 64 31",
        "30 00 00 00 00 00 00 00 6e 00 00 00 00 00 00 00",
        "17 00 00 00 00 00 00 00 07 72 65 63 6f 72 64 39",
        "00 00 00 00 00 00 00 6d 00 00 00 00 00 00 00 17",
        "00 00 00 00 00 00 00 07 72 65 63 6f 72 64 38 00",
        "00 00 00 00 00 00 6c 00 00 00 00 00 00 00 17 00",
        "00 00 00 00 00 00 07 72 65 63 6f 72 64 37 00 00",
        "00 00 00 00 00 6b 00 00 00 00 00 00 00 17 00 00",
        "00 00 00 00 00 07 72 65 63 6f 72 64 36 00 00 00",
        "00 00 00 00 6a 00 00 00 00 00 00 00 17 00 00 00",
        "00 00 00 00 07 72 65 63 6f 72 64 35 00 00 00 00",
        "00 00 00 69 00 00 00 00 00 00 00 17 00 00 00 00",
        "00 00 00 07 72 65 63 6f 72 64 34 00 00 00 00 00",
        "00 00 68 00 00 00 00 00 00 00 17 00 00 00 00 00",
        "00 00 07 72 65 63 6f 72 64 33 00 00 00 00 00 00",
        "00 67 00 00 00 00 00 00 00 17 00 00 00 00 00 00",
        "00 07 72 65 63 6f 72 64 32 00 00 00 00 00 00 00",
        "66 00 00 00 00 00 00 00 17 00 00 00 00 00 00 00",
        "07 72 65 63 6f 72 64 31 00 00 00 00 00 00 00 65",
        "00 00 00 00 00 00 01 70 00 00 00 00 00 00 00 00",
        "00 00 00 00 00 00 00 00 00 00 00 00 00 00 00 00",
        "18 00 00 00 00 00 00 00 08 72 65 63 6f 72 64 31",
        "32 00 00 00 00 00 00 00 70 00 00 00 00 00 00 00",
        "18 00 00 00 00 00 00 00 08 72 65 63 6f 72 64 31",
        "31 00 00 00 00 00 00 00 6f 00 00 00 00 00 00 00",
        "18 00 00 00 00 00 00 00 08 72 65 63 6f 72 64 31",
        "30 00 00 00 00 00 00 00 6e 00 00 00 00 00 00 00",
        "17 00 00 00 00 00 00 00 07 72 65 63 6f 72 64 39",
        "00 00 00 00 00 00 00 6d 00 00 00 00 00 00 00 17",
        "00 00 00 00 00 00 00 07 72 65 63 6f 72 64 38 00",
        "00 00 00 00 00 00 6c 00 00 00 00 00 00 00 17 00",
        "00 00 00 00 00 00 07 72 65 63 6f 72 64 37 00 00",
        "00 00 00 00 00 6b 00 00 00 00 00 00 00 17 00 00",
        "00 00 00 00 00 07 72 65 63 6f 72 64 36 00 00 00",
        "00 00 00 00 6a 00 00 00 00 00 00 00 17 00 00 00",
        "00 00 00 00 07 72 65 63 6f 72 64 35 00 00 00 00",
        "00 00 00 69 00 00 00 00 00 00 00 17 00 00 00 00",
        "00 00 00 07 72 65 63 6f 72 64 34 00 00 00 00 00",
        "00 00 68 00 00 00 00 00 00 00 17 00 00 00 00 00",
        "00 00 07 72 65 63 6f 72 64 33 00 00 00 00 00 00",
        "00 67 00 00 00 00 00 00 00 17 00 00 00 00 00 00",
        "00 07 72 65 63 6f 72 64 32 00 00 00 00 00 00 00",
        "00 00 00 00 00 00 00 18 00 00 00 00 00 00 00 08",
        "72 65 63 6f 72 64 31 33 00 00 00 00 00 00 00 71",
];

fn record_with(i: u64, extra: u64) -> Vec<u8> {
    let s = format!("record{}", i);
    let npos = Page::max_length(s.len() as u64);
    let mut p = Page::new(npos + 8);
    p.set_string(0, &s).unwrap();
    p.set_int(npos, i + extra).unwrap();
    p.bb.contents()
}

fn apply(file: &mut Vec<u8>, w: &simplerdb::file_manager::BlockWrite) {
    let start = (w.block.block_number * 400) as usize;
    if file.len() < start + w.bytes.len() {
        file.resize(start + w.bytes.len(), 0);
    }
    file[start..start + w.bytes.len()].copy_from_slice(&w.bytes);
}

#[test]
fn test_log_manager() {
    let (db, w) = simplerdb::simpledb::SimpleDB::new("logtest".to_string(), 400, 8, 0, Vec::new()).unwrap();
    let mut file = Vec::new();
    apply(&mut file, &w.unwrap());
    let mut lm = db.log_manager;
    for i in 1..14u64 {
        let (_lsn, writes) = lm.append(&record_with(i, 100)).unwrap();
        for w in &writes {
            apply(&mut file, w);
        }
    }
    if let Some(w) = lm.flush_with_lsn(20) {
        apply(&mut file, &w);
    }

    let expected: Vec<u8> = EXPECTED_LOG
        .iter()
        .flat_map(|row| row.split(' ').map(|b| u8::from_str_radix(b, 16).unwrap()))
        .collect();
    assert_eq!(file.len(), 800);
    assert_eq!(file, expected);
}

#[test]
fn traversal_yields_newest_first_across_blocks() {
    let fm = FileManager::new("logtest".to_string(), 400);
    let (mut lm, w) = LogManager::new(&fm, "logfile".to_string(), 0, Vec::new()).unwrap();
    let mut file = Vec::new();
    apply(&mut file, &w.unwrap());
    for i in 1..20u64 {
        let (_, writes) = lm.append(&record(i)).unwrap();
        for w in &writes {
            apply(&mut file, w);
        }
    }
    let (mut it, w) = LogIterator::new(&mut lm);
    apply(&mut file, &w);
    assert_eq!(lm.last_saved_lsn, 19);
    let mut seen = Vec::new();
    loop {
        match it.next() {
            LogStep::Record(r) => seen.push(r.bytes),
            LogStep::NeedBlock(b) => {
                let start = (b.block_number * 400) as usize;
                it.load(Page::from_bytes(file[start..start + 400].to_vec()));
            }
            LogStep::Done => break,
            LogStep::Corrupt => panic!("corrupt log block"),
        }
    }
    let expected: Vec<Vec<u8>> = (1..20u64).rev().map(record).collect();
    assert_eq!(seen, expected);
    // the traversal can be started again
    let (mut again, _) = LogIterator::new(&mut lm);
    assert!(matches!(again.next(), LogStep::Record(r) if r.bytes == record(19)));
}

#[test]
fn corrupt_record_is_reported() {
    let mut p = Page::new(64);
    p.set_int(0, 40).unwrap();
    p.set_int(40, 30).unwrap(); // 40 + 8 + 30 runs past 64
    assert_eq!(Record::page_records(&p).err(), Some(LogError::Corrupt));
    assert_eq!(Record::page_records(&Page::new(4)).err(), Some(LogError::Corrupt));
    p.set_int(40, 16).unwrap();
    assert_eq!(Record::page_records(&p).unwrap().len(), 1);

    let fm = FileManager::new("logtest".to_string(), 64);
    let mut bad = Page::new(64);
    bad.set_int(0, 40).unwrap();
    bad.set_int(40, 30).unwrap();
    let (mut lm, _) = LogManager::new(&fm, "logfile".to_string(), 128, bad.bb.contents()).unwrap();
    let (mut it, _) = LogIterator::new(&mut lm);
    assert!(matches!(it.next(), LogStep::Corrupt));
}
