//! Git object plumbing: hashes, the index file format, tree, commit and ref
//! objects, with their byte encodings verified against their specifications.

pub mod commit;
pub mod encoding;
pub mod error;
pub mod hash;
pub mod index;
pub mod index_file;
pub mod io;
pub mod object;
pub mod object_store;
pub mod odb;
pub mod oid;
pub mod path_buf;
pub mod reader;
pub mod ref_;
pub mod ref_store;
pub mod tree;
