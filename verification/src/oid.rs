//! Object ids of the object database (`odb`): SHA-1 digests.
use vstd::prelude::*;
use crate::encoding::{hex_encode, to_hex};
use crate::hash::{sha1, sha1_digest};

verus! {

/// The hash functions that object ids can be made with.
#[derive(Clone, Copy, Debug, PartialEq, Eq, Structural)]
pub enum Kind {
    Sha1,
}

impl Kind {
    /// The number of bytes in an object id of this kind.
    pub open spec fn byte_size(self) -> nat {
        match self {
            Kind::Sha1 => 20,
        }
    }

    /// The number of bytes in an object id of this kind.
    pub fn size(self) -> (res: usize)
        ensures
            res == self.byte_size(),
    {
        match self {
            Kind::Sha1 => 20,
        }
    }
}

/// An object id.
#[derive(Clone, Copy, Debug)]
pub enum Oid {
    Sha1([u8; 20]),
}

impl Oid {
    /// The bytes of the id.
    pub open spec fn bytes(self) -> Seq<u8> {
        match self {
            Oid::Sha1(b) => b@,
        }
    }

    /// The kind of the id.
    pub open spec fn oid_kind(self) -> Kind {
        match self {
            Oid::Sha1(_) => Kind::Sha1,
        }
    }

    /// The id of kind `kind` made of `bytes`, which must be as long as such
    /// an id.
    pub fn from_kind_and_bytes(kind: Kind, bytes: &[u8]) -> (res: Oid)
        requires
            bytes@.len() == kind.byte_size(),
        ensures
            res.oid_kind() == kind,
            res.bytes() == bytes@,
    {
        match kind {
            Kind::Sha1 => {
                let mut a = [0u8; 20];
                let mut i: usize = 0;
                while i < 20
                    invariant
                        bytes@.len() == 20,
                        i <= 20,
                        forall|j: int| 0 <= j < i ==> a@[j] == bytes@[j],
                    decreases 20 - i,
                {
                    a[i] = bytes[i];
                    i = i + 1;
                }
                assert(a@ =~= bytes@);
                Oid::Sha1(a)
            },
        }
    }

    /// The bytes of the id.
    pub fn as_bytes(&self) -> (res: &[u8])
        ensures
            res@ == self.bytes(),
            res@.len() == self.oid_kind().byte_size(),
    {
        match self {
            Oid::Sha1(bytes) => bytes.as_slice(),
        }
    }

    /// The id as it prints: two lowercase hex digits per byte.
    pub fn to_hex(&self) -> (res: Vec<u8>)
        ensures
            res@ == hex_encode(self.bytes()),
    {
        to_hex(self.as_bytes())
    }
}

impl PartialEq for Oid {
    fn eq(&self, other: &Oid) -> (res: bool) {
        let a = self.as_bytes();
        let b = other.as_bytes();
        let mut i: usize = 0;
        while i < a.len()
            invariant
                a@ == self.bytes(),
                b@ == other.bytes(),
                a@.len() == b@.len(),
                i <= a@.len(),
                forall|j: int| 0 <= j < i ==> a@[j] == b@[j],
            decreases a@.len() - i,
        {
            if a[i] != b[i] {
                return false;
            }
            i = i + 1;
        }
        assert(a@ =~= b@);
        true
    }
}

impl Eq for Oid {
}

impl vstd::std_specs::cmp::PartialEqSpecImpl for Oid {
    open spec fn obeys_eq_spec() -> bool {
        true
    }

    open spec fn eq_spec(&self, other: &Oid) -> bool {
        self.oid_kind() == other.oid_kind() && self.bytes() == other.bytes()
    }
}

/// Computes an object id from the bytes written to it.
#[derive(Clone, Debug)]
pub enum Builder {
    Sha1(Vec<u8>),
}

impl Builder {
    /// The bytes written so far.
    pub open spec fn data(self) -> Seq<u8> {
        match self {
            Builder::Sha1(d) => d@,
        }
    }

    /// The kind of id being computed.
    pub open spec fn oid_kind(self) -> Kind {
        match self {
            Builder::Sha1(_) => Kind::Sha1,
        }
    }

    /// A builder for an id of kind `kind`, with nothing written yet.
    pub fn new(kind: Kind) -> (res: Builder)
        ensures
            res.oid_kind() == kind,
            res.data() == Seq::<u8>::empty(),
    {
        match kind {
            Kind::Sha1 => Builder::Sha1(Vec::new()),
        }
    }

    /// Adds `data` to what the id is computed over.
    pub fn write(&mut self, data: &[u8])
        ensures
            final(self).oid_kind() == old(self).oid_kind(),
            final(self).data() == old(self).data() + data@,
    {
        match self {
            Builder::Sha1(d) => {
                d.extend_from_slice(data);
            },
        }
        assert(self.data() =~= old(self).data() + data@);
    }

    /// The id of everything written.
    pub fn finish(self) -> (res: Oid)
        ensures
            res.oid_kind() == self.oid_kind(),
            res.bytes() == sha1(self.data()),
    {
        match self {
            Builder::Sha1(d) => Oid::Sha1(sha1_digest(d.as_slice())),
        }
    }
}

} // verus!
