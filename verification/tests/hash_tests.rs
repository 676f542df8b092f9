use gitobj::encoding::{from_hex, to_decimal, to_hex, to_octal};
use gitobj::error::Error;
use gitobj::hash::{self, Builder, Kind};
use gitobj::io::{CountWriter, HashWriter, WriteExt};
use gitobj::oid::{self, Oid};
use gitobj::reader::Reader;

const EMPTY_SHA1: &str = "da39a3ee5e6b4b0d3255bfef95601890afd80709";

#[test]
fn kind_lengths() {
    assert_eq!(Kind::Sha1.len(), 20);
    assert_eq!(Kind::Sha1.hex_len(), 40);
    assert_eq!(Kind::LONGEST.len(), 20);
    assert_eq!(oid::Kind::Sha1.size(), 20);
}

#[test]
fn builder_computes_sha1() {
    let b = Builder::new(Kind::Sha1);
    assert_eq!(b.finish().to_hex_str(), EMPTY_SHA1);
    let mut b = Builder::new(Kind::Sha1);
    b.write(b"hel");
    b.write(b"lo");
    assert_eq!(
        b.finish().to_hex_str(),
        "aaf4c61ddcc5e8a2dabede0f3b482cd9aea9434d"
    );
    let mut ob = oid::Builder::new(oid::Kind::Sha1);
    ob.write(b"hello");
    let o = ob.finish();
    assert_eq!(o.to_hex(), b"aaf4c61ddcc5e8a2dabede0f3b482cd9aea9434d".to_vec());
}

#[test]
fn hash_new_and_null() {
    let h = hash::Hash::new(Kind::Sha1);
    assert_eq!(h.as_bytes(), &[0u8; 20][..]);
    assert!(h.is_null());
    assert!(hash::Hash::null(Kind::Sha1).is_null());
    assert_eq!(h.kind(), Kind::Sha1);
    let mut bytes = [0u8; 20];
    bytes[19] = 1;
    assert!(!hash::Hash::from_bytes(&bytes, Kind::Sha1).is_null());
}

#[test]
fn hash_hex_roundtrip() {
    let hex = b"0123456789abcdefABCDEF0123456789abcdef01";
    let h = hash::Hash::from_hex_bytes(hex, Kind::Sha1).unwrap();
    assert_eq!(h.as_bytes()[0], 0x01);
    assert_eq!(h.as_bytes()[7], 0xef);
    assert_eq!(h.as_bytes()[8], 0xab);
    assert_eq!(h.to_hex(), b"0123456789abcdefabcdef0123456789abcdef01".to_vec());
    let again = hash::Hash::from_hex_bytes(&h.to_hex(), Kind::Sha1).unwrap();
    assert!(again == h);
}

#[test]
fn hash_from_hex_rejects_non_hex() {
    let hex = b"g123456789abcdef0123456789abcdef01234567";
    assert_eq!(hash::Hash::from_hex_bytes(hex, Kind::Sha1), Err(Error::InvalidHexByte));
}

#[test]
fn hash_read_from_reader() {
    let mut data = vec![7u8; 20];
    data.push(9);
    let mut r = Reader::new(&data);
    let h = hash::Hash::read_from(&mut r, Kind::Sha1).unwrap();
    assert_eq!(h.as_bytes(), &[7u8; 20][..]);
    assert_eq!(r.position(), 20);
    assert_eq!(hash::Hash::read_from(&mut r, Kind::Sha1), Err(Error::UnexpectedEndOfFile));
    let text = b"da39a3ee5e6b4b0d3255bfef95601890afd80709\n";
    let mut r = Reader::new(text);
    let h = hash::Hash::read_hex_from(&mut r, Kind::Sha1).unwrap();
    assert_eq!(h.to_hex_str(), EMPTY_SHA1);
    assert_eq!(r.position(), 40);
    let mut short = Reader::new(b"abcd");
    assert_eq!(hash::Hash::read_hex_from(&mut short, Kind::Sha1), Err(Error::UnexpectedEndOfFile));
}

#[test]
fn hash_writes_bytes_and_hex() {
    let h = hash::Hash::from_bytes(&[0xab; 20], Kind::Sha1);
    let mut out: Vec<u8> = Vec::new();
    h.write_to(&mut out);
    assert_eq!(out, vec![0xab; 20]);
    let mut out: Vec<u8> = b"x".to_vec();
    h.write_hex_to(&mut out);
    assert_eq!(out.len(), 41);
    assert_eq!(&out[1..3], b"ab");
}

#[test]
fn hash_equality() {
    let a = hash::Hash::from_bytes(&[1; 20], Kind::Sha1);
    let b = hash::Hash::from_bytes(&[1; 20], Kind::Sha1);
    let c = hash::Hash::from_bytes(&[2; 20], Kind::Sha1);
    assert!(a == b);
    assert!(a != c);
}

#[test]
fn oid_from_bytes_and_eq() {
    let a = Oid::from_kind_and_bytes(oid::Kind::Sha1, &[3; 20]);
    let b = Oid::from_kind_and_bytes(oid::Kind::Sha1, &[3; 20]);
    assert!(a == b);
    assert_eq!(a.as_bytes(), &[3u8; 20][..]);
    assert_eq!(a.to_hex(), b"0303030303030303030303030303030303030303".to_vec());
}

#[test]
fn encodings() {
    assert_eq!(to_decimal(0), b"0".to_vec());
    assert_eq!(to_decimal(-1234), b"-1234".to_vec());
    assert_eq!(to_decimal(1700000000), b"1700000000".to_vec());
    assert_eq!(to_octal(0o100644), b"100644".to_vec());
    assert_eq!(to_octal(0o040000), b"40000".to_vec());
    assert_eq!(to_octal(0), b"0".to_vec());
    assert_eq!(to_hex(&[0x00, 0x0f, 0xf0, 0xff]), b"000ff0ff".to_vec());
    assert_eq!(from_hex(b"000FF0ff"), Some(vec![0x00, 0x0f, 0xf0, 0xff]));
    assert_eq!(from_hex(b"abc"), None);
    assert_eq!(from_hex(b"zz"), None);
}

#[test]
fn count_writer_counts() {
    let mut w = CountWriter::new(b"pre".to_vec());
    w.write_all(b"abc");
    w.write_u16(0x0102);
    w.write_u32(0x03040506);
    assert_eq!(w.count(), 9);
    assert_eq!(w.into_inner(), b"preabc\x01\x02\x03\x04\x05\x06".to_vec());
}

#[test]
fn hash_writer_hashes_what_passes_through() {
    let mut w = HashWriter::new(b"ignored".to_vec(), Kind::Sha1);
    w.write_all(b"hel");
    w.write_all(b"lo");
    let (inner, h) = w.finish();
    assert_eq!(inner, b"ignoredhello".to_vec());
    assert_eq!(h.to_hex_str(), "aaf4c61ddcc5e8a2dabede0f3b482cd9aea9434d");
    let w = HashWriter::new(Vec::new(), Kind::Sha1);
    let (_, h) = w.finish();
    assert_eq!(h.to_hex_str(), EMPTY_SHA1);
}

#[test]
fn error_messages() {
    assert_eq!(Error::UnexpectedEndOfFile.message(), "unexpected end of file");
    assert_eq!(Error::ChecksumMismatch.message(), "checksum mismatch");
    assert_eq!(Error::InvalidSignature.message(), "invalid signature");
    assert_eq!(Error::UnsupportedVersion.message(), "unsupported version");
    assert_eq!(Error::InvalidHexByte.message(), "invalid hex byte");
    assert_eq!(Error::DuplicateRefName.message(), "");
    assert_eq!(
        Error::CreateWithNullObjectId.message(),
        "create called with new object id set to null"
    );
    assert_eq!(
        Error::DeleteWithNullObjectId.message(),
        "delete called with old object id set to null"
    );
}
