use simplerdb::byte_buffer::ByteBuffer;
use simplerdb::page::{Page, PageError};

#[test]
fn test_file_manager() {
    let (db, _) = simplerdb::simpledb::SimpleDB::new("filetest".to_string(), 400, 8, 0, Vec::new()).unwrap();
    let fm = db.file_manager;
    let block = simplerdb::file_manager::BlockId::new("testfile".to_string(), 2);
    let mut p1 = Page::new(fm.blocksize);
    let pos1 = 88;
    p1.set_string(pos1, "abcdefghijklm").unwrap();
    let size = Page::max_length("abcdefghijklm".len() as u64);
    let pos2 = pos1 + size;
    p1.set_int(pos2, 345).unwrap();
    assert_eq!(fm.block_offset(&block).unwrap(), 800);

    let mut p2 = Page::from_bytes(p1.bb.contents());
    assert_eq!(p2.get_string(pos1).unwrap(), "abcdefghijklm");
    assert_eq!(p2.get_int(pos2).unwrap(), 345);
}

#[test]
fn int_is_big_endian() {
    let mut p = Page::new(16);
    p.set_int(4, 0x0102030405060708).unwrap();
    assert_eq!(p.bb.bytes(), &[0, 0, 0, 0, 1, 2, 3, 4, 5, 6, 7, 8, 0, 0, 0, 0]);
    assert_eq!(p.get_int(4).unwrap(), 0x0102030405060708);
    assert_eq!(p.bb.position, 12);
}

#[test]
fn int_round_trip_at_the_last_offset() {
    let mut p = Page::new(400);
    p.set_int(392, u64::MAX).unwrap();
    assert_eq!(p.get_int(392).unwrap(), u64::MAX);
    assert_eq!(p.set_int(393, 1), Err(PageError::OutOfBounds));
    assert_eq!(p.get_int(393), Err(PageError::OutOfBounds));
    assert_eq!(p.get_int(u64::MAX), Err(PageError::OutOfBounds));
}

#[test]
fn string_round_trip_and_length() {
    let mut p = Page::new(64);
    p.set_string(10, "héllo").unwrap();
    assert_eq!(p.get_string(10).unwrap(), "héllo");
    assert_eq!(p.bb.position, 10 + 8 + 6);
    assert_eq!(Page::max_length(6), 14);
    assert_eq!(p.get_bytes(10).unwrap(), "héllo".as_bytes().to_vec());
    // a string that would end past the page is refused and nothing is written
    assert_eq!(p.set_string(50, "abcdefg"), Err(PageError::OutOfBounds));
    assert_eq!(p.get_int(50).unwrap(), 0);
    p.set_string(49, "abcdefg").unwrap();
    assert_eq!(p.get_string(49).unwrap(), "abcdefg");
}

#[test]
fn empty_string_round_trip() {
    let mut p = Page::new(8);
    p.set_string(0, "").unwrap();
    assert_eq!(p.get_string(0).unwrap(), "");
}

#[test]
fn invalid_utf8_is_reported() {
    let mut p = Page::new(32);
    p.set_bytes(0, &[0xff, 0xfe]).unwrap();
    assert_eq!(p.get_string(0), Err(PageError::InvalidUtf8));
    assert_eq!(p.get_bytes(0).unwrap(), vec![0xff, 0xfe]);
}

#[test]
fn length_prefix_past_the_page_is_out_of_bounds() {
    let mut p = Page::new(32);
    p.set_int(0, 25).unwrap();
    assert_eq!(p.get_bytes(0), Err(PageError::OutOfBounds));
    assert_eq!(p.get_string(0), Err(PageError::OutOfBounds));
    p.set_int(0, 24).unwrap();
    assert_eq!(p.get_bytes(0).unwrap().len(), 24);
}

#[test]
fn byte_buffer_cursor() {
    let mut bb = ByteBuffer::new(vec![0; 24]);
    bb.set_int(7);
    bb.set_bytes(&[9, 8, 7]);
    assert_eq!(bb.position, 11);
    bb.position = 0;
    assert_eq!(bb.get_int(), 7);
    assert_eq!(bb.get_bytes(3), vec![9, 8, 7]);
    assert_eq!(bb.get_bytes_with_offset(8, 2), vec![9, 8]);
    assert_eq!(bb.position, 10);
    bb.set_bytes_with_offset(20, &[1, 2, 3, 4]);
    assert_eq!(bb.contents()[20..], [1, 2, 3, 4]);
    assert_eq!(bb.position, 0);
    assert_eq!(bb.len(), 24);
}
