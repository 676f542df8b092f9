use std::io::Read;
use std::path::PathBuf;

use gitobj::commit::{self, Sign, Signature, Timestamp};
use gitobj::hash::{self, Kind};
use gitobj::index::{Entry, ExtendedFlags, Flags, Index, Stat, Time, Version};
use gitobj::index_file::IndexFile;
use gitobj::object::{self, Header, Object};
use gitobj::object_store::{LooseObject, ObjectStore};
use gitobj::odb::Odb;
use gitobj::oid;
use gitobj::tree::{self, EntryKind, Mode};

fn inflate(data: &[u8]) -> Vec<u8> {
    let mut out = Vec::new();
    flate2::read::ZlibDecoder::new(data).read_to_end(&mut out).unwrap();
    out
}

fn store() -> ObjectStore {
    ObjectStore::new(PathBuf::from("/tmp/objects"), Kind::Sha1)
}

#[test]
fn object_kind_names_and_header() {
    assert_eq!(object::Kind::Blob.as_str(), "blob");
    assert_eq!(object::Kind::Tree.as_str(), "tree");
    assert_eq!(object::Kind::Commit.as_str(), "commit");
    let o = Object { kind: object::Kind::Blob, content: b"hello" };
    let h = o.header();
    assert_eq!(h.len, 5);
    assert_eq!(h.to_bytes(), b"blob 5\0".to_vec());
    let mut out: Vec<u8> = Vec::new();
    Header { kind: object::Kind::Commit, len: 1234 }.write_to(&mut out);
    assert_eq!(out, b"commit 1234\0".to_vec());
}

#[test]
fn object_store_encodes_blob_like_git() {
    let s = store();
    assert_eq!(s.hash_kind(), Kind::Sha1);
    assert_eq!(s.path(), &PathBuf::from("/tmp/objects"));
    let loose = s.encode(Object { kind: object::Kind::Blob, content: b"hello" });
    assert_eq!(loose.id.to_hex_str(), "b6fc4c620b67d95f953a5c1c1230aaab5db5a1b0");
    assert_eq!(inflate(&loose.data), b"blob 5\0hello".to_vec());
    assert_eq!(loose.dir_name(), b"b6".to_vec());
    assert_eq!(loose.file_name(), b"fc4c620b67d95f953a5c1c1230aaab5db5a1b0".to_vec());
    let empty = s.encode(Object { kind: object::Kind::Blob, content: b"" });
    assert_eq!(empty.id.to_hex_str(), "e69de29bb2d1d6434b8b29ae775ad8c2e48c5391");
}

#[test]
fn object_store_writer_streams() {
    let s = store();
    let mut w = s.create_writer(Header { kind: object::Kind::Blob, len: 5 });
    w.write_all(b"he");
    w.write_all(b"llo");
    let loose = w.finish();
    assert_eq!(loose.id.to_hex_str(), "b6fc4c620b67d95f953a5c1c1230aaab5db5a1b0");
}

#[test]
fn odb_encodes_like_object_store() {
    let odb = Odb::new(PathBuf::from("/tmp/odb"), oid::Kind::Sha1);
    assert_eq!(odb.path(), &PathBuf::from("/tmp/odb"));
    let (id, data) = odb.encode(Object { kind: object::Kind::Blob, content: b"hello" });
    assert_eq!(id.to_hex(), b"b6fc4c620b67d95f953a5c1c1230aaab5db5a1b0".to_vec());
    assert_eq!(inflate(&data), b"blob 5\0hello".to_vec());
    let mut w = odb.create_writer(Header { kind: object::Kind::Blob, len: 0 });
    w.write_all(b"");
    let (id, _) = w.finish();
    assert_eq!(id.to_hex(), b"e69de29bb2d1d6434b8b29ae775ad8c2e48c5391".to_vec());
}

#[test]
fn index_file_holds_path_and_kind() {
    let f = IndexFile::new(PathBuf::from("/repo/.git/index"), Kind::Sha1);
    assert_eq!(f.path(), &PathBuf::from("/repo/.git/index"));
    assert_eq!(f.hash_kind(), Kind::Sha1);
}

#[test]
fn timestamp_writes_hours_and_minutes() {
    let t = Timestamp { time: 1700000000, sign: Sign::Plus, offset: 5400 };
    let mut out: Vec<u8> = Vec::new();
    t.write_to(&mut out);
    assert_eq!(out, b"1700000000 +1:30".to_vec());
    let t = Timestamp { time: -5, sign: Sign::Minus, offset: 3600 * 5 };
    let mut out: Vec<u8> = Vec::new();
    t.write_to(&mut out);
    assert_eq!(out, b"-5 -5:0".to_vec());
    assert_eq!(Sign::Plus.as_bytes(), b"+");
    assert_eq!(Sign::Minus.as_bytes(), b"-");
}

#[test]
fn timestamp_from_parts_and_now() {
    let t = Timestamp::from_parts(10, -3600);
    assert_eq!(t, Timestamp { time: 10, sign: Sign::Minus, offset: 3600 });
    let t = Timestamp::from_parts(10, 0);
    assert_eq!(t, Timestamp { time: 10, sign: Sign::Plus, offset: 0 });
    let now = Timestamp::now().unwrap();
    assert!(now.offset <= 93599);
    assert!(now.time > 1_600_000_000);
}

fn signature<'a>(name: &'a [u8], email: &'a [u8]) -> Signature<'a> {
    Signature {
        name,
        email,
        timestamp: Timestamp { time: 1234567890, sign: Sign::Plus, offset: 0 },
    }
}

#[test]
fn commit_content_and_id() {
    let tree_id = hash::Hash::from_hex_bytes(b"4b825dc642cb6eb9a060e54bf8d69288fbee4904", Kind::Sha1).unwrap();
    let parent = hash::Hash::from_bytes(&[0x11; 20], Kind::Sha1);
    let author = signature(b"A U Thor", b"author@example.com");
    let s = store();
    let loose = commit::create(tree_id, &[parent], author, author, b"Initial commit", &s);
    let expected: &[u8] = b"tree 4b825dc642cb6eb9a060e54bf8d69288fbee4904\n\
parent 1111111111111111111111111111111111111111\n\
author A U Thor <author@example.com> 1234567890 +0:0\n\
committer A U Thor <author@example.com> 1234567890 +0:0\n\
\n\
Initial commit";
    let mut object = format!("commit {}\0", expected.len()).into_bytes();
    object.extend_from_slice(expected);
    assert_eq!(inflate(&loose.data), object);
    let mut b = hash::Builder::new(Kind::Sha1);
    b.write(&object);
    assert!(loose.id == b.finish());
    let no_parents = commit::create(tree_id, &[], author, author, b"", &s);
    let text = inflate(&no_parents.data);
    assert!(text.starts_with(b"commit "));
    assert!(!text.windows(6).any(|w| w == b"parent"));
}

fn index_entry(path: &[u8], byte: u8) -> Entry {
    Entry {
        stat: Stat {
            ctime: Time { secs: 0, nsecs: 0 },
            mtime: Time { secs: 0, nsecs: 0 },
            dev: 0,
            ino: 0,
            mode: 0o100644,
            uid: 0,
            gid: 0,
            size: 0,
        },
        oid: hash::Hash::from_bytes(&[byte; 20], Kind::Sha1),
        flags: Flags::from_bits_retain(path.len() as u16),
        extended_flags: ExtendedFlags::empty(),
        path: path.to_vec(),
    }
}

fn tree_text(lines: &[(&[u8], &[u8], &[u8])]) -> Vec<u8> {
    let mut content = Vec::new();
    for (mode, name, id) in lines {
        content.extend_from_slice(mode);
        content.push(b' ');
        content.extend_from_slice(name);
        content.push(0);
        content.extend_from_slice(id);
    }
    let mut object = format!("tree {}\0", content.len()).into_bytes();
    object.extend_from_slice(&content);
    object
}

#[test]
fn tree_writer_and_entry() {
    assert_eq!(u16::from(Mode::from(EntryKind::Blob)), 0o100644);
    assert_eq!(u16::from(Mode::from(EntryKind::Tree)), 0o040000);
    let id = hash::Hash::from_bytes(&[7; 20], Kind::Sha1);
    let mut w = tree::Writer::new();
    w.write_entry(tree::Entry { mode: Mode::from(EntryKind::Blob), file_name: b"f", oid: id });
    let loose = w.finish(&store());
    assert_eq!(inflate(&loose.data), tree_text(&[(b"100644", b"f", &[7; 20])]));
    let empty = tree::Writer::new().finish(&store());
    assert_eq!(empty.id.to_hex_str(), "4b825dc642cb6eb9a060e54bf8d69288fbee4904");
}

fn build(paths: &[&[u8]]) -> Option<(hash::Hash, Vec<LooseObject>)> {
    let entries = paths.iter().enumerate().map(|(i, p)| index_entry(p, i as u8 + 1)).collect();
    tree::try_from_index(&Index::new(Version::V2, entries), &store())
}

#[test]
fn tree_from_flat_index() {
    let (root, objects) = build(&[b"a", b"b"]).unwrap();
    assert_eq!(objects.len(), 1);
    assert!(objects[0].id == root);
    assert_eq!(
        inflate(&objects[0].data),
        tree_text(&[(b"100644", b"a", &[1; 20]), (b"100644", b"b", &[2; 20])])
    );
}

#[test]
fn tree_from_nested_index() {
    let (root, objects) = build(&[b"d/x", b"d/y"]).unwrap();
    assert_eq!(objects.len(), 2);
    assert_eq!(
        inflate(&objects[0].data),
        tree_text(&[(b"100644", b"x", &[1; 20]), (b"100644", b"y", &[2; 20])])
    );
    assert_eq!(
        inflate(&objects[1].data),
        tree_text(&[(b"40000", b"d", objects[0].id.as_bytes())])
    );
    assert!(objects[1].id == root);
}

#[test]
fn tree_skips_the_entry_after_a_directory() {
    // After the directory `d` ends at entry `e`, building goes on one entry
    // past it, so `e` is left out.
    let (_, objects) = build(&[b"d/x", b"e", b"f"]).unwrap();
    assert_eq!(objects.len(), 2);
    assert_eq!(
        inflate(&objects[1].data),
        tree_text(&[(b"40000", b"d", objects[0].id.as_bytes()), (b"100644", b"f", &[3; 20])])
    );
}

#[test]
fn tree_stuck_cases() {
    // A path equal to the directory being built reads past its end.
    assert!(build(&[b"d/x", b"d"]).is_none());
    // A path starting with `/` at the top builds the top directory forever.
    assert!(build(&[b"/x"]).is_none());
    // An empty index makes the empty tree.
    let (root, objects) = build(&[]).unwrap();
    assert_eq!(objects.len(), 1);
    assert_eq!(root.to_hex_str(), "4b825dc642cb6eb9a060e54bf8d69288fbee4904");
}

#[test]
fn tree_from_index_agrees_with_try() {
    let entries = vec![index_entry(b"a", 1)];
    let index = Index::new(Version::V2, entries);
    let (root, objects) = tree::from_index(&index, &store());
    assert!(objects.last().unwrap().id == root);
}
