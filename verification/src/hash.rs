//! Object ids: SHA-1 digests, their hexadecimal text, and a builder that
//! computes them.
use vstd::prelude::*;
use crate::encoding::{hex_decode, hex_encode, from_hex, to_hex, to_hex_string};
use crate::error::Error;
use crate::io::WriteExt;
use crate::reader::Reader;

verus! {

/// The SHA-1 digest of `data`, as the `sha1` crate computes it.
pub uninterp spec fn sha1(data: Seq<u8>) -> Seq<u8>;

/// `sha1`'s `Sha1::digest` (through `digest::Digest`): the 20-byte SHA-1
/// digest of `data`. The contract names the result and claims nothing more.
#[verifier::external_body]
pub(crate) fn sha1_digest(data: &[u8]) -> (res: [u8; 20])
    ensures
        res@ == sha1(data@),
{
    <sha1::Sha1 as sha1::Digest>::digest(data).into()
}

/// The hash functions that ids can be made with.
#[derive(Clone, Copy, Debug, PartialEq, Eq, Structural)]
pub enum Kind {
    Sha1,
}

impl Kind {
    /// The kind that makes the longest ids.
    pub const LONGEST: Kind = Kind::Sha1;

    /// The number of bytes in an id of this kind.
    pub open spec fn digest_len(self) -> nat {
        match self {
            Kind::Sha1 => 20,
        }
    }

    /// The number of bytes in an id of this kind.
    pub fn len(self) -> (res: usize)
        ensures
            res == self.digest_len(),
    {
        match self {
            Kind::Sha1 => 20,
        }
    }

    /// The number of hexadecimal digits in an id of this kind.
    pub fn hex_len(self) -> (res: usize)
        ensures
            res == 2 * self.digest_len(),
    {
        self.len() * 2
    }
}

/// An object id.
#[derive(Clone, Copy, Debug)]
pub enum Hash {
    Sha1([u8; 20]),
}

impl PartialEq for Hash {
    fn eq(&self, other: &Hash) -> (res: bool) {
        let a = self.as_bytes();
        let b = other.as_bytes();
        let mut i: usize = 0;
        while i < a.len()
            invariant
                a@ == self.bytes(),
                b@ == other.bytes(),
                a@.len() == b@.len(),
                i <= a@.len(),
                forall|j: int| 0 <= j < i ==> a@[j] == b@[j],
            decreases a@.len() - i,
        {
            if a[i] != b[i] {
                return false;
            }
            i = i + 1;
        }
        assert(a@ =~= b@);
        true
    }
}

impl Eq for Hash {
}

impl vstd::std_specs::cmp::PartialEqSpecImpl for Hash {
    open spec fn obeys_eq_spec() -> bool {
        true
    }

    open spec fn eq_spec(&self, other: &Hash) -> bool {
        self.hash_kind() == other.hash_kind() && self.bytes() == other.bytes()
    }
}

/// The id of kind `kind` whose bytes are `bytes`.
pub open spec fn hash_of(kind: Kind, bytes: Seq<u8>) -> Hash
    recommends
        bytes.len() == kind.digest_len(),
{
    match kind {
        Kind::Sha1 => Hash::Sha1(choose|a: [u8; 20]| a@ == bytes),
    }
}

/// An id is the id of its kind and bytes.
pub proof fn lemma_hash_of(h: Hash)
    ensures
        hash_of(h.hash_kind(), h.bytes()) == h,
{
    match h {
        Hash::Sha1(a) => {
            let c = choose|x: [u8; 20]| x@ == a@;
            assert(c@ == a@);
            assert(c =~= a);
        },
    }
}

impl Hash {
    /// The bytes of the id.
    pub open spec fn bytes(self) -> Seq<u8> {
        match self {
            Hash::Sha1(b) => b@,
        }
    }

    /// The kind of the id.
    pub open spec fn hash_kind(self) -> Kind {
        match self {
            Hash::Sha1(_) => Kind::Sha1,
        }
    }

    /// An id is its kind and its bytes.
    pub proof fn lemma_determined(self, other: Hash)
        requires
            self.hash_kind() == other.hash_kind(),
            self.bytes() == other.bytes(),
        ensures
            self == other,
    {
        match (self, other) {
            (Hash::Sha1(a), Hash::Sha1(b)) => {
                assert(a =~= b);
            },
        }
    }

    /// The id of kind `kind` with every byte zero.
    pub fn new(kind: Kind) -> (res: Hash)
        ensures
            res.hash_kind() == kind,
            res.bytes() == Seq::new(kind.digest_len(), |i: int| 0u8),
    {
        match kind {
            Kind::Sha1 => {
                let res = Hash::Sha1([0u8; 20]);
                assert(res.bytes() =~= Seq::new(kind.digest_len(), |i: int| 0u8));
                res
            },
        }
    }

    /// The null id of kind `kind`: every byte zero.
    pub fn null(kind: Kind) -> (res: Hash)
        ensures
            res.hash_kind() == kind,
            res.is_null_spec(),
    {
        Hash::new(kind)
    }

    /// Every byte of the id is zero.
    pub open spec fn is_null_spec(self) -> bool {
        forall|i: int| 0 <= i < self.bytes().len() ==> self.bytes()[i] == 0
    }

    /// Whether every byte of the id is zero.
    pub fn is_null(&self) -> (res: bool)
        ensures
            res == self.is_null_spec(),
    {
        let bytes = self.as_bytes();
        let mut i: usize = 0;
        while i < bytes.len()
            invariant
                bytes@ == self.bytes(),
                i <= bytes@.len(),
                forall|j: int| 0 <= j < i ==> bytes@[j] == 0,
            decreases bytes@.len() - i,
        {
            if bytes[i] != 0 {
                return false;
            }
            i = i + 1;
        }
        true
    }

    /// The id of kind `kind` made of `bytes`, which must be as long as such
    /// an id.
    pub fn from_bytes(bytes: &[u8], kind: Kind) -> (res: Hash)
        requires
            bytes@.len() == kind.digest_len(),
        ensures
            res.hash_kind() == kind,
            res.bytes() == bytes@,
    {
        match kind {
            Kind::Sha1 => {
                let mut a = [0u8; 20];
                let mut i: usize = 0;
                while i < 20
                    invariant
                        bytes@.len() == 20,
                        i <= 20,
                        forall|j: int| 0 <= j < i ==> a@[j] == bytes@[j],
                    decreases 20 - i,
                {
                    a[i] = bytes[i];
                    i = i + 1;
                }
                assert(a@ =~= bytes@);
                Hash::Sha1(a)
            },
        }
    }

    /// The id of kind `kind` whose hexadecimal text is `hex_bytes`, which
    /// must be as long as such a text; fails where a byte is not a hex digit.
    pub fn from_hex_bytes(hex_bytes: &[u8], kind: Kind) -> (res: Result<Hash, Error>)
        requires
            hex_bytes@.len() == 2 * kind.digest_len(),
        ensures
            match hex_decode(hex_bytes@) {
                Some(bytes) => res matches Ok(h) && h.hash_kind() == kind && h.bytes() == bytes,
                None => res == Err::<Hash, Error>(Error::InvalidHexByte),
            },
    {
        match from_hex(hex_bytes) {
            Some(bytes) => Ok(Hash::from_bytes(bytes.as_slice(), kind)),
            None => Err(Error::InvalidHexByte),
        }
    }

    /// Reads an id of kind `kind`, as its bytes.
    pub fn read_from(reader: &mut Reader, kind: Kind) -> (res: Result<Hash, Error>)
        ensures
            match res {
                Ok(h) => kind.digest_len() <= old(reader).rest().len()
                    && h.hash_kind() == kind
                    && h.bytes() == old(reader).rest().take(kind.digest_len() as int)
                    && final(reader).moved_to(*old(reader), old(reader).pos() + kind.digest_len()),
                Err(e) => kind.digest_len() > old(reader).rest().len()
                    && e == Error::UnexpectedEndOfFile
                    && final(reader).moved_to(*old(reader), old(reader).pos()),
            },
    {
        let bytes = reader.read_bytes(kind.len())?;
        Ok(Hash::from_bytes(bytes, kind))
    }

    /// Reads an id of kind `kind`, as its hexadecimal text.
    pub fn read_hex_from(reader: &mut Reader, kind: Kind) -> (res: Result<Hash, Error>)
        ensures
            final(reader).data() == old(reader).data(),
            2 * kind.digest_len() > old(reader).rest().len() ==> res == Err::<Hash, Error>(
                Error::UnexpectedEndOfFile,
            ) && final(reader).pos() == old(reader).pos(),
            2 * kind.digest_len() <= old(reader).rest().len() ==> {
                &&& final(reader).pos() == old(reader).pos() + 2 * kind.digest_len()
                &&& match hex_decode(old(reader).rest().take(2 * kind.digest_len() as int)) {
                    Some(bytes) => res matches Ok(h) && h.hash_kind() == kind && h.bytes() == bytes,
                    None => res == Err::<Hash, Error>(Error::InvalidHexByte),
                }
            },
    {
        let hex_bytes = reader.read_bytes(kind.hex_len())?;
        Hash::from_hex_bytes(hex_bytes, kind)
    }

    /// The kind of the id.
    pub fn kind(&self) -> (res: Kind)
        ensures
            res == self.hash_kind(),
    {
        match self {
            Hash::Sha1(_) => Kind::Sha1,
        }
    }

    /// The bytes of the id.
    pub fn as_bytes(&self) -> (res: &[u8])
        ensures
            res@ == self.bytes(),
            res@.len() == self.hash_kind().digest_len(),
    {
        match self {
            Hash::Sha1(bytes) => bytes.as_slice(),
        }
    }

    /// The id in lowercase hexadecimal.
    pub fn to_hex(&self) -> (res: Vec<u8>)
        ensures
            res@ == hex_encode(self.bytes()),
    {
        to_hex(self.as_bytes())
    }

    /// The id in lowercase hexadecimal, as a string.
    pub fn to_hex_str(&self) -> (res: String)
        ensures
            res@ == hex_encode(self.bytes()).map_values(|c: u8| c as char),
    {
        to_hex_string(self.as_bytes())
    }

    /// Writes the bytes of the id.
    pub fn write_to<W: WriteExt>(&self, writer: &mut W)
        requires
            old(writer).wf(),
        ensures
            final(writer).wf(),
            final(writer).mark() == old(writer).mark(),
            final(writer).written() == old(writer).written() + self.bytes(),
    {
        writer.write_all(self.as_bytes());
    }

    /// Writes the id in lowercase hexadecimal.
    pub fn write_hex_to<W: WriteExt>(&self, writer: &mut W)
        requires
            old(writer).wf(),
        ensures
            final(writer).wf(),
            final(writer).mark() == old(writer).mark(),
            final(writer).written() == old(writer).written() + hex_encode(self.bytes()),
    {
        let hex = self.to_hex();
        writer.write_all(hex.as_slice());
    }
}

/// Computes an id from the bytes written to it.
#[derive(Clone, Debug)]
pub enum Builder {
    Sha1(Vec<u8>),
}

impl Builder {
    /// The bytes written so far.
    pub open spec fn data(self) -> Seq<u8> {
        match self {
            Builder::Sha1(d) => d@,
        }
    }

    /// The kind of id being computed.
    pub open spec fn hash_kind(self) -> Kind {
        match self {
            Builder::Sha1(_) => Kind::Sha1,
        }
    }

    /// A builder for an id of kind `kind`, with nothing written yet.
    pub fn new(kind: Kind) -> (res: Builder)
        ensures
            res.hash_kind() == kind,
            res.data() == Seq::<u8>::empty(),
    {
        match kind {
            Kind::Sha1 => Builder::Sha1(Vec::new()),
        }
    }

    /// Adds `data` to what the id is computed over.
    pub fn write(&mut self, data: &[u8])
        ensures
            final(self).hash_kind() == old(self).hash_kind(),
            final(self).data() == old(self).data() + data@,
    {
        match self {
            Builder::Sha1(d) => {
                d.extend_from_slice(data);
            },
        }
        assert(self.data() =~= old(self).data() + data@);
    }

    /// The id of everything written.
    pub fn finish(self) -> (res: Hash)
        ensures
            res.hash_kind() == self.hash_kind(),
            res.bytes() == sha1(self.data()),
    {
        match self {
            Builder::Sha1(d) => Hash::Sha1(sha1_digest(d.as_slice())),
        }
    }
}

} // verus!
