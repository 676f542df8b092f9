//! The loose object store: objects are stored zlib-compressed, each in a
//! file named by the hexadecimal text of its id.
use vstd::prelude::*;
use std::path::PathBuf;
use crate::encoding::{hex_encode, to_hex};
use crate::hash::{self, sha1};
use crate::io::{HashWriter, WriteExt};
use crate::object::{self, header_bytes, object_bytes, Object};

verus! {

/// The zlib stream that `flate2` makes of `data` at the default
/// compression level.
pub uninterp spec fn zlib_compress(data: Seq<u8>) -> Seq<u8>;

/// `flate2`'s `ZlibEncoder`, at the default compression level, writing into
/// memory and finished: the zlib stream of `data`. The contract names the
/// result and claims nothing more; writing into a `Vec` does not fail.
#[verifier::external_body]
pub(crate) fn zlib_encode(data: &[u8]) -> (res: Vec<u8>)
    ensures
        res@ == zlib_compress(data@),
{
    let mut encoder = flate2::write::ZlibEncoder::new(Vec::new(), flate2::Compression::default());
    let _ = std::io::Write::write_all(&mut encoder, data);
    match encoder.finish() {
        Ok(out) => out,
        Err(_) => Vec::new(),
    }
}

/// A directory of loose objects, and the kind of ids they are stored under.
#[derive(Debug)]
pub struct ObjectStore {
    path: PathBuf,
    hash_kind: hash::Kind,
}

/// An object ready to be stored: its id, and the compressed bytes that go
/// into the file named after it.
#[derive(Debug)]
pub struct LooseObject {
    pub id: hash::Hash,
    pub data: Vec<u8>,
}

/// Writes an object into the store, computing its id on the way.
pub struct Writer {
    inner: HashWriter<Vec<u8>>,
}

impl ObjectStore {
    /// The kind of ids the store uses.
    pub closed spec fn hash_kind_spec(&self) -> hash::Kind {
        self.hash_kind
    }

    /// The directory of the store.
    pub closed spec fn path_spec(&self) -> PathBuf {
        self.path
    }

    /// A store in the directory `path`, with ids of kind `hash_kind`.
    pub fn new(path: PathBuf, hash_kind: hash::Kind) -> (res: ObjectStore)
        ensures
            res.path_spec() == path,
            res.hash_kind_spec() == hash_kind,
    {
        ObjectStore { path, hash_kind }
    }

    /// The directory of the store.
    pub fn path(&self) -> (res: &PathBuf)
        ensures
            *res == self.path_spec(),
    {
        &self.path
    }

    /// The kind of ids the store uses.
    pub fn hash_kind(&self) -> (res: hash::Kind)
        ensures
            res == self.hash_kind_spec(),
    {
        self.hash_kind
    }

    /// A writer for an object with this header; the header is written first.
    pub fn create_writer(&self, header: object::Header) -> (res: Writer)
        ensures
            res.wf(),
            res.hash_kind() == self.hash_kind_spec(),
            res.content() == header_bytes(header),
    {
        let mut inner = HashWriter::new(Vec::<u8>::new(), self.hash_kind);
        let header_bytes = header.to_bytes();
        let _len = header_bytes.len();
        inner.write_all(header_bytes.as_slice());
        Writer { inner }
    }

    /// The object as the store keeps it: its id is the id of its header and
    /// content, and it is stored as the zlib stream of those bytes.
    pub fn encode(&self, object: Object<'_>) -> (res: LooseObject)
        ensures
            res.id.hash_kind() == self.hash_kind_spec(),
            res.id.bytes() == sha1(object_bytes(object.kind, object.content@)),
            res.data@ == zlib_compress(object_bytes(object.kind, object.content@)),
    {
        let mut writer = self.create_writer(object.header());
        writer.write_all(object.content);
        writer.finish()
    }
}

impl Writer {
    /// The bytes written so far, header included.
    pub closed spec fn content(&self) -> Seq<u8> {
        self.inner.written()
    }

    /// The kind of id being computed.
    pub closed spec fn hash_kind(&self) -> hash::Kind {
        self.inner.hash_kind()
    }

    /// The writer hashes everything it was given.
    pub closed spec fn wf(&self) -> bool {
        self.inner.wf() && self.inner.mark() == 0
    }

    /// Adds `buf` to the object.
    pub fn write_all(&mut self, buf: &[u8])
        requires
            old(self).wf(),
        ensures
            final(self).wf(),
            final(self).hash_kind() == old(self).hash_kind(),
            final(self).content() == old(self).content() + buf@,
    {
        self.inner.write_all(buf);
    }

    /// The object, ready to be stored: the id of everything written, and
    /// its zlib stream.
    pub fn finish(self) -> (res: LooseObject)
        requires
            self.wf(),
        ensures
            res.id.hash_kind() == self.hash_kind(),
            res.id.bytes() == sha1(self.content()),
            res.data@ == zlib_compress(self.content()),
    {
        let (content, id) = self.inner.finish();
        proof {
            assert(self.content().skip(0) =~= self.content());
        }
        let data = zlib_encode(content.as_slice());
        LooseObject { id, data }
    }
}

impl LooseObject {
    /// The name of the directory the object goes into: the first two hex
    /// digits of its id.
    pub fn dir_name(&self) -> (res: Vec<u8>)
        ensures
            res@ == hex_encode(self.id.bytes()).take(2),
    {
        let hex = self.id.to_hex();
        let res = vstd::slice::slice_to_vec(vstd::slice::slice_subrange(hex.as_slice(), 0, 2));
        res
    }

    /// The name of the object's file: the other hex digits of its id.
    pub fn file_name(&self) -> (res: Vec<u8>)
        ensures
            res@ == hex_encode(self.id.bytes()).skip(2),
    {
        let hex = self.id.to_hex();
        vstd::slice::slice_to_vec(vstd::slice::slice_subrange(hex.as_slice(), 2, hex.len()))
    }
}

/// The directory and file names of a loose object spell its id.
pub proof fn lemma_loose_object_names(id: hash::Hash)
    ensures
        hex_encode(id.bytes()).take(2) + hex_encode(id.bytes()).skip(2) == hex_encode(id.bytes()),
{
    assert(hex_encode(id.bytes()).take(2) + hex_encode(id.bytes()).skip(2) =~= hex_encode(id.bytes()));
}

} // verus!
