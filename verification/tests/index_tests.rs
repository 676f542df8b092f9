use gitobj::error::Error;
use gitobj::hash::{self, Kind};
use gitobj::index::{Entry, ExtendedFlags, Flags, Index, Stat, Time, Version};
use gitobj::reader::Reader;

fn stat(n: u32) -> Stat {
    Stat {
        ctime: Time { secs: n, nsecs: n + 1 },
        mtime: Time { secs: n + 2, nsecs: n + 3 },
        dev: n + 4,
        ino: n + 5,
        mode: 0o100644,
        uid: n + 7,
        gid: n + 8,
        size: n + 9,
    }
}

fn entry(path: &[u8], byte: u8, extended: bool) -> Entry {
    let mut bits = path.len() as u16;
    if extended {
        bits |= Flags::EXTENDED;
    }
    Entry {
        stat: stat(byte as u32),
        oid: hash::Hash::from_bytes(&[byte; 20], Kind::Sha1),
        flags: Flags::from_bits_retain(bits),
        extended_flags: if extended {
            ExtendedFlags::from_bits_retain(ExtendedFlags::INTENT_TO_ADD)
        } else {
            ExtendedFlags::empty()
        },
        path: path.to_vec(),
    }
}

fn same_entry(a: &Entry, b: &Entry) -> bool {
    a.stat == b.stat
        && a.oid == b.oid
        && a.flags == b.flags
        && a.extended_flags == b.extended_flags
        && a.path == b.path
}

fn write(index: &Index) -> Vec<u8> {
    let mut out = Vec::new();
    index.write_to(&mut out, Kind::Sha1);
    out
}

#[test]
fn index_roundtrip() {
    let entries = vec![
        entry(b"README", 1, false),
        entry(b"src/lib.rs", 2, true),
        entry(b"src/main.rs", 3, false),
    ];
    let index = Index::new(Version::V3, entries.clone());
    let bytes = write(&index);
    let back = Index::from_bytes(&bytes, Kind::Sha1).unwrap();
    assert_eq!(back.version(), Version::V3);
    assert_eq!(back.entries().len(), 3);
    for (a, b) in back.entries().iter().zip(entries.iter()) {
        assert!(same_entry(a, b));
    }
    assert_eq!(write(&back), bytes);
}

#[test]
fn index_layout() {
    let index = Index::new(Version::V2, vec![entry(b"a", 9, false)]);
    let bytes = write(&index);
    // header 12, entry 40 + 20 + 2 + 1 = 63 padded to 64, checksum 20
    assert_eq!(bytes.len(), 12 + 64 + 20);
    assert_eq!(&bytes[0..4], b"DIRC");
    assert_eq!(&bytes[4..8], &[0, 0, 0, 2]);
    assert_eq!(&bytes[8..12], &[0, 0, 0, 1]);
    assert_eq!(&bytes[12..16], &[0, 0, 0, 9]);
    assert_eq!(bytes[12 + 60], 0);
    assert_eq!(bytes[12 + 61], 1);
    assert_eq!(bytes[12 + 62], b'a');
    assert_eq!(bytes[12 + 63], 0);
    let mut b = hash::Builder::new(Kind::Sha1);
    b.write(&bytes[..76]);
    assert_eq!(b.finish().as_bytes(), &bytes[76..]);
}

#[test]
fn index_padding_is_at_least_one_byte() {
    // 40 + 20 + 2 + 2 = 64: a full eight bytes of padding follow.
    let index = Index::new(Version::V2, vec![entry(b"ab", 1, false)]);
    let bytes = write(&index);
    assert_eq!(bytes.len(), 12 + 72 + 20);
    let back = Index::from_bytes(&bytes, Kind::Sha1).unwrap();
    assert_eq!(back.entries()[0].path, b"ab".to_vec());
}

#[test]
fn index_empty() {
    let index = Index::new(Version::V2, Vec::new());
    let bytes = write(&index);
    assert_eq!(bytes.len(), 32);
    let back = Index::from_bytes(&bytes, Kind::Sha1).unwrap();
    assert_eq!(back.entries().len(), 0);
    assert_eq!(back.version(), Version::V2);
}

fn with_checksum(body: &[u8]) -> Vec<u8> {
    let mut b = hash::Builder::new(Kind::Sha1);
    b.write(body);
    let mut out = body.to_vec();
    out.extend_from_slice(b.finish().as_bytes());
    out
}

#[test]
fn index_checksum_mismatch() {
    let mut bytes = write(&Index::new(Version::V2, vec![entry(b"a", 1, false)]));
    bytes[20] ^= 1;
    assert_eq!(Index::from_bytes(&bytes, Kind::Sha1).unwrap_err(), Error::ChecksumMismatch);
    let bytes = vec![0u8; 20];
    assert_eq!(Index::from_bytes(&bytes, Kind::Sha1).unwrap_err(), Error::ChecksumMismatch);
}

#[test]
fn index_bad_signature_and_version() {
    let bytes = with_checksum(b"DIRX\0\0\0\x02\0\0\0\0");
    assert_eq!(Index::from_bytes(&bytes, Kind::Sha1).unwrap_err(), Error::InvalidSignature);
    let bytes = with_checksum(b"DIRC\0\0\0\x04\0\0\0\0");
    assert_eq!(Index::from_bytes(&bytes, Kind::Sha1).unwrap_err(), Error::UnsupportedVersion);
    let bytes = with_checksum(b"DIR");
    assert_eq!(Index::from_bytes(&bytes, Kind::Sha1).unwrap_err(), Error::UnexpectedEndOfFile);
    let bytes = with_checksum(b"DIRC\0\0\0\x02\0\0");
    assert_eq!(Index::from_bytes(&bytes, Kind::Sha1).unwrap_err(), Error::UnexpectedEndOfFile);
    let bytes = with_checksum(b"");
    assert_eq!(Index::from_bytes(&bytes, Kind::Sha1).unwrap_err(), Error::UnexpectedEndOfFile);
}

#[test]
fn index_too_few_entries() {
    let index = Index::new(Version::V2, vec![entry(b"a", 1, false)]);
    let bytes = write(&index);
    let mut body = bytes[..bytes.len() - 20].to_vec();
    body[11] = 2;
    let bytes = with_checksum(&body);
    assert_eq!(Index::from_bytes(&bytes, Kind::Sha1).unwrap_err(), Error::UnexpectedEndOfFile);
}

#[test]
fn entry_with_largest_path_length_field_fails_on_zero_byte() {
    let mut e = entry(b"", 1, false);
    e.flags = Flags::from_bits_retain(Flags::PATH_LEN);
    let mut bytes = Vec::new();
    e.write_to(&mut bytes);
    let mut r = Reader::new(&bytes);
    assert_eq!(Entry::read_from(&mut r, Kind::Sha1).unwrap_err(), Error::UnexpectedEndOfFile);
}

#[test]
fn entry_read_write() {
    let e = entry(b"dir/file.txt", 5, true);
    let mut bytes = Vec::new();
    e.write_to(&mut bytes);
    assert_eq!(bytes.len() % 8, 0);
    assert_eq!(bytes.len(), 40 + 20 + 2 + 2 + 12 + 4);
    let mut r = Reader::new(&bytes);
    let back = Entry::read_from(&mut r, Kind::Sha1).unwrap();
    assert!(same_entry(&back, &e));
    assert_eq!(r.position(), bytes.len());
    let mut short = Reader::new(&bytes[..30]);
    assert_eq!(Entry::read_from(&mut short, Kind::Sha1).unwrap_err(), Error::UnexpectedEndOfFile);
}

#[test]
fn stat_and_time_read_write() {
    let s = stat(100);
    let mut bytes = Vec::new();
    s.write_to(&mut bytes);
    assert_eq!(bytes.len(), 40);
    let mut r = Reader::new(&bytes);
    assert_eq!(Stat::read_from(&mut r).unwrap(), s);
    let t = Time { secs: 1, nsecs: 2 };
    let mut bytes = Vec::new();
    t.write_to(&mut bytes);
    assert_eq!(bytes, vec![0, 0, 0, 1, 0, 0, 0, 2]);
    let mut r = Reader::new(&bytes[..7]);
    assert_eq!(Time::read_from(&mut r), Err(Error::UnexpectedEndOfFile));
}

#[test]
fn flags_fields() {
    let f = Flags::from_bits_retain(0x4000 | 0x3000 | 12);
    assert!(f.contains(Flags::EXTENDED));
    assert!(f.contains(Flags::STAGE));
    assert!(!f.contains(Flags::ASSUME_VALID));
    assert!(!f.contains(Flags::PATH_LEN));
    assert_eq!(f.path_len(), 12);
    assert_eq!(f.bits(), 0x700c);
    assert_eq!(Flags::empty().bits(), 0);
    let x = ExtendedFlags::from_bits_retain(0x6000);
    assert!(x.contains(ExtendedFlags::SKIP_WORKTREE));
    assert!(x.contains(ExtendedFlags::INTENT_TO_ADD));
    assert_eq!(x.bits(), 0x6000);
    assert_eq!(u32::from(Version::V2), 2);
    assert_eq!(u32::from(Version::V3), 3);
}

#[test]
fn entry_read_stops_where_it_fails() {
    let e = entry(b"dir/file.txt", 5, true);
    let mut bytes = Vec::new();
    e.write_to(&mut bytes);
    for (cut, stop) in [(30, 28), (50, 40), (61, 60), (63, 62), (70, 64), (78, 76)] {
        let mut r = Reader::new(&bytes[..cut]);
        assert_eq!(Entry::read_from(&mut r, Kind::Sha1).unwrap_err(), Error::UnexpectedEndOfFile);
        assert_eq!(r.position(), stop);
    }
    let mut e = entry(b"", 1, false);
    e.flags = Flags::from_bits_retain(Flags::PATH_LEN);
    let mut bytes = Vec::new();
    e.write_to(&mut bytes);
    let mut r = Reader::new(&bytes);
    assert_eq!(Entry::read_from(&mut r, Kind::Sha1).unwrap_err(), Error::UnexpectedEndOfFile);
    assert_eq!(r.position(), 62);
}
