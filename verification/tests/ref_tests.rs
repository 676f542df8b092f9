use std::path::PathBuf;

use gitobj::error::Error;
use gitobj::hash::{self, Kind};
use gitobj::ref_::Ref;
use gitobj::ref_store::RefStore;

const ID: &[u8] = b"b6fc4c620b67d95f953a5c1c1230aaab5db5a1b0";

fn id() -> hash::Hash {
    hash::Hash::from_hex_bytes(ID, Kind::Sha1).unwrap()
}

#[test]
fn ref_reads_ids_and_names() {
    let mut text = ID.to_vec();
    text.push(b'\n');
    assert_eq!(Ref::from_bytes(&text, Kind::Sha1).unwrap(), Ref::ObjectId(id()));
    assert_eq!(Ref::from_bytes(ID, Kind::Sha1).unwrap(), Ref::ObjectId(id()));
    assert_eq!(
        Ref::from_bytes(b"ref: refs/heads/main\n", Kind::Sha1).unwrap(),
        Ref::RefName(b"refs/heads/main".to_vec())
    );
    assert_eq!(Ref::from_bytes(b"ref: ", Kind::Sha1).unwrap(), Ref::RefName(Vec::new()));
}

#[test]
fn ref_read_errors() {
    assert_eq!(Ref::from_bytes(b"abc", Kind::Sha1), Err(Error::UnexpectedEndOfFile));
    assert_eq!(Ref::from_bytes(b"", Kind::Sha1), Err(Error::UnexpectedEndOfFile));
    let bad = b"zz6fc4c620b67d95f953a5c1c1230aaab5db5a1b0";
    assert_eq!(Ref::from_bytes(bad, Kind::Sha1), Err(Error::InvalidHexByte));
}

#[test]
fn ref_write_then_read() {
    for r in [Ref::ObjectId(id()), Ref::RefName(b"refs/heads/topic".to_vec())] {
        let mut out: Vec<u8> = Vec::new();
        r.write_to(&mut out);
        assert_eq!(Ref::from_bytes(&out, Kind::Sha1).unwrap(), r);
        out.push(b'\n');
        assert_eq!(Ref::from_bytes(&out, Kind::Sha1).unwrap(), r);
    }
    let mut out: Vec<u8> = Vec::new();
    Ref::RefName(b"HEAD".to_vec()).write_to(&mut out);
    assert_eq!(out, b"ref: HEAD".to_vec());
}

#[test]
fn ref_object_id() {
    assert!(Ref::ObjectId(id()).object_id() == Some(id()));
    assert!(Ref::RefName(b"x".to_vec()).object_id().is_none());
    assert!(Ref::RefName(b"x".to_vec()) != Ref::RefName(b"y".to_vec()));
    assert!(Ref::RefName(b"x".to_vec()) != Ref::ObjectId(id()));
}

#[test]
fn transaction_takes_one_op_per_ref() {
    let store = RefStore::new(PathBuf::from("/repo/.git"), Kind::Sha1);
    assert_eq!(store.path(), &PathBuf::from("/repo/.git"));
    let mut t = store.start_transaction();
    assert_eq!(t.update(b"refs/heads/main".to_vec(), None, Ref::ObjectId(id())), Ok(()));
    assert_eq!(
        t.verify(b"refs/heads/main".to_vec(), None),
        Err(Error::DuplicateRefName)
    );
    assert_eq!(t.verify(b"refs/heads/other".to_vec(), None), Ok(()));
    assert_eq!(t.create(b"refs/heads/new".to_vec(), Ref::ObjectId(id())), Ok(()));
    assert_eq!(
        t.delete(b"refs/heads/new".to_vec(), None),
        Err(Error::DuplicateRefName)
    );
    assert_eq!(t.delete(b"refs/heads/old".to_vec(), Some(Ref::ObjectId(id()))), Ok(()));
}

#[test]
fn transaction_refuses_null_ids() {
    let store = RefStore::new(PathBuf::from("/repo/.git"), Kind::Sha1);
    let mut t = store.start_transaction();
    let null = hash::Hash::null(Kind::Sha1);
    assert_eq!(
        t.create(b"refs/heads/a".to_vec(), Ref::ObjectId(null)),
        Err(Error::CreateWithNullObjectId)
    );
    assert_eq!(
        t.delete(b"refs/heads/a".to_vec(), Some(Ref::ObjectId(null))),
        Err(Error::DeleteWithNullObjectId)
    );
    // Neither refused call took the name.
    assert_eq!(t.create(b"refs/heads/a".to_vec(), Ref::RefName(b"refs/heads/b".to_vec())), Ok(()));
}

#[test]
fn transaction_op_takes_a_name_once() {
    let store = RefStore::new(PathBuf::from("/repo/.git"), Kind::Sha1);
    let mut t = store.start_transaction();
    assert_eq!(t.op(b"refs/heads/x".to_vec(), None, None), Ok(()));
    assert_eq!(
        t.op(b"refs/heads/x".to_vec(), None, Some(Ref::ObjectId(id()))),
        Err(Error::DuplicateRefName)
    );
    assert_eq!(
        t.update(b"refs/heads/x".to_vec(), None, Ref::ObjectId(id())),
        Err(Error::DuplicateRefName)
    );
    assert_eq!(t.op(b"refs/heads/y".to_vec(), Some(Ref::ObjectId(id())), None), Ok(()));
}
