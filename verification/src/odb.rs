//! An object database keyed by `Oid`: objects are stored zlib-compressed,
//! each in a file named by the hexadecimal text of its id.
use vstd::prelude::*;
use std::path::PathBuf;
use crate::hash::sha1;
use crate::object::{self, header_bytes, object_bytes, Object};
use crate::object_store::{zlib_compress, zlib_encode};
use crate::oid::{self, Oid};

verus! {

/// A directory of objects, and the kind of ids they are stored under.
#[derive(Debug)]
pub struct Odb {
    path: PathBuf,
    oid_kind: oid::Kind,
}

/// Writes an object into the database, computing its id on the way.
#[derive(Debug)]
pub struct Writer {
    content: Vec<u8>,
    oid_kind: oid::Kind,
}

impl Odb {
    /// The kind of ids the database uses.
    pub closed spec fn oid_kind_spec(&self) -> oid::Kind {
        self.oid_kind
    }

    /// The directory of the database.
    pub closed spec fn path_spec(&self) -> PathBuf {
        self.path
    }

    /// A database in the directory `path`, with ids of kind `oid_kind`.
    pub fn new(path: PathBuf, oid_kind: oid::Kind) -> (res: Odb)
        ensures
            res.path_spec() == path,
            res.oid_kind_spec() == oid_kind,
    {
        Odb { path, oid_kind }
    }

    /// The directory of the database.
    pub fn path(&self) -> (res: &PathBuf)
        ensures
            *res == self.path_spec(),
    {
        &self.path
    }

    /// A writer for an object with this header; the header is written first.
    pub fn create_writer(&self, header: object::Header) -> (res: Writer)
        ensures
            res.oid_kind_spec() == self.oid_kind_spec(),
            res.content() == header_bytes(header),
    {
        Writer { content: header.to_bytes(), oid_kind: self.oid_kind }
    }

    /// The object as the database keeps it: its id is the id of its header
    /// and content, and it is stored as the zlib stream of those bytes.
    pub fn encode(&self, object: Object<'_>) -> (res: (Oid, Vec<u8>))
        ensures
            res.0.oid_kind() == self.oid_kind_spec(),
            res.0.bytes() == sha1(object_bytes(object.kind, object.content@)),
            res.1@ == zlib_compress(object_bytes(object.kind, object.content@)),
    {
        let mut writer = self.create_writer(object.header());
        writer.write_all(object.content);
        writer.finish()
    }
}

impl Writer {
    /// The bytes written so far, header included.
    pub closed spec fn content(&self) -> Seq<u8> {
        self.content@
    }

    /// The kind of id being computed.
    pub closed spec fn oid_kind_spec(&self) -> oid::Kind {
        self.oid_kind
    }

    /// Adds `buf` to the object.
    pub fn write_all(&mut self, buf: &[u8])
        ensures
            final(self).oid_kind_spec() == old(self).oid_kind_spec(),
            final(self).content() == old(self).content() + buf@,
    {
        self.content.extend_from_slice(buf);
        assert(self.content@ =~= old(self).content() + buf@);
    }

    /// The object, ready to be stored: the id of everything written, and
    /// its zlib stream.
    pub fn finish(self) -> (res: (Oid, Vec<u8>))
        ensures
            res.0.oid_kind() == self.oid_kind_spec(),
            res.0.bytes() == sha1(self.content()),
            res.1@ == zlib_compress(self.content()),
    {
        let mut builder = oid::Builder::new(self.oid_kind);
        builder.write(self.content.as_slice());
        assert(builder.data() =~= self.content@);
        let id = builder.finish();
        let data = zlib_encode(self.content.as_slice());
        (id, data)
    }
}

} // verus!
