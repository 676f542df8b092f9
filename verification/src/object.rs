//! Objects as git stores them: a kind, a length and content.
use vstd::prelude::*;
use crate::encoding::{decimal, to_decimal};
use crate::io::WriteExt;
use vstd::string::StringSliceAdditionalSpecFns;

verus! {

/// The kinds of object.
#[derive(Clone, Copy, Debug, PartialEq, Eq, Structural)]
pub enum Kind {
    Blob,
    Tree,
    Commit,
}

impl Kind {
    /// The name of the kind, as an object header spells it.
    pub open spec fn name(self) -> Seq<u8> {
        match self {
            Kind::Blob => seq![98u8, 108u8, 111u8, 98u8],
            Kind::Tree => seq![116u8, 114u8, 101u8, 101u8],
            Kind::Commit => seq![99u8, 111u8, 109u8, 109u8, 105u8, 116u8],
        }
    }

    /// The name of the kind: `blob`, `tree` or `commit`.
    pub fn as_str(self) -> (res: &'static str)
        ensures
            res.spec_bytes() == self.name(),
    {
        let res = match self {
            Kind::Blob => "blob",
            Kind::Tree => "tree",
            Kind::Commit => "commit",
        };
        proof {
            reveal_strlit("blob");
            reveal_strlit("tree");
            reveal_strlit("commit");
            vstd::string::is_ascii_spec_bytes(res);
            assert(res.spec_bytes() =~= self.name());
        }
        res
    }
}

/// An object: its kind and its content.
#[derive(Clone, Copy, Debug)]
pub struct Object<'a> {
    pub kind: Kind,
    pub content: &'a [u8],
}

/// The header of an object: its kind and the length of its content.
#[derive(Clone, Copy, Debug, PartialEq, Eq, Structural)]
pub struct Header {
    pub kind: Kind,
    pub len: u64,
}

/// The header as stored: the kind's name, a space, the length in decimal,
/// and a zero byte.
pub open spec fn header_bytes(h: Header) -> Seq<u8> {
    h.kind.name() + seq![32u8] + decimal(h.len as int) + seq![0u8]
}

/// An object as stored, before compression: its header, then its content.
pub open spec fn object_bytes(kind: Kind, content: Seq<u8>) -> Seq<u8> {
    header_bytes(Header { kind, len: content.len() as u64 }) + content
}

impl<'a> Object<'a> {
    /// The header of the object.
    pub fn header(&self) -> (res: Header)
        ensures
            res.kind == self.kind,
            res.len == self.content@.len(),
    {
        Header { kind: self.kind, len: self.content.len() as u64 }
    }
}

impl Header {
    /// The header as stored: `<kind> <len>\0`.
    pub fn to_bytes(&self) -> (res: Vec<u8>)
        ensures
            res@ == header_bytes(*self),
    {
        let mut out: Vec<u8> = Vec::new();
        out.extend_from_slice(self.kind.as_str().as_bytes());
        out.push(32);
        let digits = to_decimal(self.len as i128);
        out.extend_from_slice(digits.as_slice());
        out.push(0);
        assert(out@ =~= header_bytes(*self));
        out
    }

    /// Writes the header as stored: `<kind> <len>\0`.
    pub fn write_to<W: WriteExt>(&self, writer: &mut W)
        requires
            old(writer).wf(),
        ensures
            final(writer).wf(),
            final(writer).mark() == old(writer).mark(),
            final(writer).written() == old(writer).written() + header_bytes(*self),
    {
        let bytes = self.to_bytes();
        writer.write_all(bytes.as_slice());
    }
}

} // verus!
