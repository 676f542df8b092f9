//! Where the index file lives, and the kind of ids it holds.
use vstd::prelude::*;
use std::path::PathBuf;
use crate::hash;

verus! {

/// The path of an index file and the kind of ids in it.
#[derive(Debug)]
pub struct IndexFile {
    path: PathBuf,
    hash_kind: hash::Kind,
}

impl IndexFile {
    /// The path of the file.
    pub closed spec fn path_spec(&self) -> PathBuf {
        self.path
    }

    /// The kind of ids in the file.
    pub closed spec fn hash_kind_spec(&self) -> hash::Kind {
        self.hash_kind
    }

    /// The index file at `path`, holding ids of kind `hash_kind`.
    pub fn new(path: PathBuf, hash_kind: hash::Kind) -> (res: IndexFile)
        ensures
            res.path_spec() == path,
            res.hash_kind_spec() == hash_kind,
    {
        IndexFile { path, hash_kind }
    }

    /// The path of the file.
    pub fn path(&self) -> (res: &PathBuf)
        ensures
            *res == self.path_spec(),
    {
        &self.path
    }

    /// The kind of ids in the file.
    pub fn hash_kind(&self) -> (res: hash::Kind)
        ensures
            res == self.hash_kind_spec(),
    {
        self.hash_kind
    }
}

} // verus!
