use gitobj::error::Error;
use gitobj::reader::Reader;

#[test]
fn reader_reads_bytes_and_numbers() {
    let data = [0x12u8, 0x34, 0xde, 0xad, 0xbe, 0xef, 7];
    let mut r = Reader::new(&data);
    assert_eq!(r.read_u16().unwrap(), 0x1234);
    assert_eq!(r.position(), 2);
    assert_eq!(r.read_u32().unwrap(), 0xdeadbeef);
    assert_eq!(r.remaining_len(), 1);
    assert_eq!(r.remaining_bytes(), &[7u8][..]);
    assert_eq!(r.read_u16(), Err(Error::UnexpectedEndOfFile));
    assert_eq!(r.position(), 6);
    assert_eq!(r.read_bytes(1).unwrap(), &[7u8][..]);
    assert_eq!(r.read_bytes(1), Err(Error::UnexpectedEndOfFile));
}

#[test]
fn reader_skips() {
    let data = b"ref: refs/heads/main";
    let mut r = Reader::new(data);
    assert!(!r.skip_bytes_if_matches(b"ref:x"));
    assert_eq!(r.position(), 0);
    assert!(r.skip_bytes_if_matches(b"ref: "));
    assert_eq!(r.position(), 5);
    assert!(!r.skip_bytes(100));
    assert_eq!(r.position(), 5);
    assert!(r.skip_bytes(5));
    assert_eq!(r.skip_bytes_until_found(b'/'), Some(5));
    assert_eq!(r.position(), 15);
    assert_eq!(r.skip_bytes_until_found(b'/'), Some(0));
    assert_eq!(r.skip_bytes_until_found(b'z'), None);
    assert_eq!(r.skip_bytes_until_end(), 5);
    assert_eq!(r.remaining_len(), 0);
    assert!(r.skip_bytes_if_matches(b""));
}

#[test]
fn reader_read_bytes_until_end_and_found() {
    let data = b"abc\0def";
    let mut r = Reader::new(data);
    assert_eq!(r.read_bytes(1).unwrap(), b"a");
    // A zero byte ahead: the reader moves up to it and fails.
    assert_eq!(r.read_bytes_until_found(0), Err(Error::UnexpectedEndOfFile));
    assert_eq!(r.position(), 3);
    let mut r2 = Reader::new(b"xyz");
    // No zero byte ahead: nothing is read.
    assert_eq!(r2.read_bytes_until_found(0).unwrap(), b"");
    assert_eq!(r2.position(), 0);
    assert_eq!(r2.read_bytes_until_end(), b"xyz");
    assert_eq!(r2.position(), 3);
}

#[test]
fn reader_track_notes_bytes_read() {
    let data = b"0123456789";
    let mut r = Reader::new(data);
    assert!(r.skip_bytes(2));
    let mut t = r.track();
    assert!(t.skip_bytes(3));
    assert_eq!(t.bytes(), b"234");
    assert_eq!(t.skip_bytes_until_found(b'8'), Some(3));
    assert_eq!(t.bytes(), b"234567");
    assert_eq!(t.skip_bytes_until_end(), 2);
    assert_eq!(t.bytes(), b"23456789");
    assert_eq!(r.position(), 10);
}

#[test]
fn reader_clone_is_independent() {
    let data = b"abcd";
    let mut r = Reader::new(data);
    assert!(r.skip_bytes(1));
    let mut c = r.clone();
    assert!(c.skip_bytes(2));
    assert_eq!(r.position(), 1);
    assert_eq!(c.position(), 3);
}
