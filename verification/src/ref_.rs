//! Refs: a name that points at an object id, directly or through another
//! ref.
use vstd::prelude::*;
use crate::encoding::{hex_decode, hex_encode, lemma_hex_roundtrip};
use crate::error::Error;
use crate::hash::{self, hash_of, Kind};
use crate::io::WriteExt;
use crate::reader::Reader;

verus! {

/// What a ref holds: an object id, or the name of another ref.
#[derive(Clone, Debug)]
pub enum Ref {
    ObjectId(hash::Hash),
    RefName(Vec<u8>),
}

/// A ref as a value, with the name as a sequence.
pub enum RefModel {
    ObjectId(hash::Hash),
    RefName(Seq<u8>),
}

impl View for Ref {
    type V = RefModel;

    open spec fn view(&self) -> RefModel {
        match self {
            Ref::ObjectId(h) => RefModel::ObjectId(*h),
            Ref::RefName(name) => RefModel::RefName(name@),
        }
    }
}

/// The text `ref: ` that starts a ref naming another ref.
pub open spec fn ref_prefix() -> Seq<u8> {
    seq![114u8, 101u8, 102u8, 58u8, 32u8]
}

/// `s` without its last byte, where that is a newline.
pub open spec fn strip_newline(s: Seq<u8>) -> Seq<u8> {
    if s.len() > 0 && s.last() == 10 {
        s.drop_last()
    } else {
        s
    }
}

/// What reading a ref from `bytes` gives, with ids of kind `kind`: a
/// trailing newline is dropped; `ref: ` followed by a name is a ref to that
/// name; otherwise the text must start with the hexadecimal text of an id.
pub open spec fn parse_ref(bytes: Seq<u8>, kind: Kind) -> Result<RefModel, Error> {
    let s = strip_newline(bytes);
    let n = 2 * kind.digest_len() as int;
    if s.len() >= 5 && s.take(5) == ref_prefix() {
        Ok(RefModel::RefName(s.skip(5)))
    } else if s.len() < n {
        Err(Error::UnexpectedEndOfFile)
    } else {
        match hex_decode(s.take(n)) {
            Some(b) => Ok(RefModel::ObjectId(hash_of(kind, b))),
            None => Err(Error::InvalidHexByte),
        }
    }
}

/// The bytes of a ref: the id in hexadecimal, or `ref: ` and the name.
pub open spec fn ref_bytes(r: RefModel) -> Seq<u8> {
    match r {
        RefModel::ObjectId(h) => hex_encode(h.bytes()),
        RefModel::RefName(name) => ref_prefix() + name,
    }
}

impl PartialEq for Ref {
    fn eq(&self, other: &Ref) -> (res: bool) {
        match (self, other) {
            (Ref::ObjectId(a), Ref::ObjectId(b)) => {
                let r = *a == *b;
                proof {
                    if r {
                        a.lemma_determined(*b);
                    }
                }
                r
            },
            (Ref::RefName(a), Ref::RefName(b)) => {
                if a.len() != b.len() {
                    return false;
                }
                let mut i: usize = 0;
                while i < a.len()
                    invariant
                        self@ == RefModel::RefName(a@),
                        other@ == RefModel::RefName(b@),
                        a@.len() == b@.len(),
                        i <= a@.len(),
                        forall|j: int| 0 <= j < i ==> a@[j] == b@[j],
                    decreases a@.len() - i,
                {
                    if a[i] != b[i] {
                        assert(a@[i as int] != b@[i as int]);
                        assert(a@ != b@);
                        return false;
                    }
                    i = i + 1;
                }
                assert(a@ =~= b@);
                true
            },
            _ => false,
        }
    }
}

impl Eq for Ref {
}

impl vstd::std_specs::cmp::PartialEqSpecImpl for Ref {
    open spec fn obeys_eq_spec() -> bool {
        true
    }

    open spec fn eq_spec(&self, other: &Ref) -> bool {
        self@ == other@
    }
}

impl Ref {
    /// Reads a ref from `bytes`, with ids of kind `hash_kind`.
    pub fn from_bytes(bytes: &[u8], hash_kind: Kind) -> (res: Result<Ref, Error>)
        ensures
            match parse_ref(bytes@, hash_kind) {
                Ok(m) => res matches Ok(r) && r@ == m,
                Err(e) => res matches Err(err) && err == e,
            },
    {
        let content = if bytes.len() > 0 && bytes[bytes.len() - 1] == 10 {
            vstd::slice::slice_subrange(bytes, 0, bytes.len() - 1)
        } else {
            bytes
        };
        let ghost s = content@;
        assert(s =~= strip_newline(bytes@));
        let prefix: [u8; 5] = [114, 101, 102, 58, 32];
        assert(prefix@ =~= ref_prefix());
        let mut reader = Reader::new(content);
        assert(reader.rest() =~= s);
        if reader.skip_bytes_if_matches(prefix.as_slice()) {
            let name = reader.read_bytes_until_end();
            Ok(Ref::RefName(vstd::slice::slice_to_vec(name)))
        } else {
            match hash::Hash::read_hex_from(&mut reader, hash_kind) {
                Ok(h) => {
                    proof {
                        hash::lemma_hash_of(h);
                    }
                    Ok(Ref::ObjectId(h))
                },
                Err(e) => Err(e),
            }
        }
    }

    /// Writes the ref: the id in hexadecimal, or `ref: ` and the name.
    pub fn write_to<W: WriteExt>(&self, writer: &mut W)
        requires
            old(writer).wf(),
        ensures
            final(writer).wf(),
            final(writer).mark() == old(writer).mark(),
            final(writer).written() == old(writer).written() + ref_bytes(self@),
    {
        match self {
            Ref::ObjectId(object_id) => {
                object_id.write_hex_to(writer);
            },
            Ref::RefName(ref_name) => {
                let prefix: [u8; 5] = [114, 101, 102, 58, 32];
                writer.write_all(prefix.as_slice());
                writer.write_all(ref_name.as_slice());
                assert(writer.written() =~= old(writer).written() + ref_bytes(self@));
            },
        }
    }

    /// The id the ref holds, where it holds one rather than a name.
    pub fn object_id(&self) -> (res: Option<hash::Hash>)
        ensures
            match self@ {
                RefModel::ObjectId(h) => res == Some(h),
                RefModel::RefName(_) => res is None,
            },
    {
        match self {
            Ref::ObjectId(h) => Some(*h),
            Ref::RefName(_) => None,
        }
    }
}

/// The hexadecimal text of bytes holds only hex digits: no `r`, no newline.
proof fn lemma_hex_digits(b: Seq<u8>, k: int)
    requires
        0 <= k < hex_encode(b).len(),
    ensures
        hex_encode(b)[k] != 114u8,
        hex_encode(b)[k] != 10u8,
{
}

/// Reading back the hexadecimal text of an id, with or without a trailing
/// newline, gives the id.
proof fn lemma_object_id_roundtrip(h: hash::Hash, kind: Kind, full: Seq<u8>)
    requires
        h.hash_kind() == kind,
        full == hex_encode(h.bytes()) || full == hex_encode(h.bytes()) + seq![10u8],
    ensures
        parse_ref(full, kind) == Ok::<RefModel, Error>(RefModel::ObjectId(h)),
{
    let b = hex_encode(h.bytes());
    assert(b.len() == 40);
    if full == b + seq![10u8] {
        assert((b + seq![10u8]).drop_last() =~= b);
    } else {
        lemma_hex_digits(h.bytes(), 39);
    }
    assert(strip_newline(full) == b);
    lemma_hex_digits(h.bytes(), 0);
    assert(b.take(5)[0] == b[0]);
    assert(b.take(5) != ref_prefix());
    lemma_hex_roundtrip(h.bytes());
    hash::lemma_hash_of(h);
    assert(b.take(2 * kind.digest_len() as int) =~= b);
}

/// Reading back `ref: ` and a name that does not end with a newline, with or
/// without a trailing newline, gives the name.
proof fn lemma_ref_name_roundtrip(name: Seq<u8>, kind: Kind, full: Seq<u8>)
    requires
        name.len() == 0 || name.last() != 10,
        full == ref_prefix() + name || full == ref_prefix() + name + seq![10u8],
    ensures
        parse_ref(full, kind) == Ok::<RefModel, Error>(RefModel::RefName(name)),
{
    let b = ref_prefix() + name;
    if full == b + seq![10u8] {
        assert((b + seq![10u8]).drop_last() =~= b);
    } else if name.len() > 0 {
        assert(b.last() == name.last());
    }
    assert(strip_newline(full) == b);
    assert(b.take(5) =~= ref_prefix());
    assert(b.skip(5) =~= name);
}

/// Reading back the bytes of a ref, with or without a trailing newline,
/// gives the ref, where its id is of the kind read and its name does not
/// end with a newline.
pub proof fn lemma_ref_roundtrip(r: RefModel, kind: Kind, newline: bool)
    requires
        r matches RefModel::ObjectId(h) ==> h.hash_kind() == kind,
        r matches RefModel::RefName(name) ==> name.len() == 0 || name.last() != 10,
    ensures
        parse_ref(if newline { ref_bytes(r) + seq![10u8] } else { ref_bytes(r) }, kind)
            == Ok::<RefModel, Error>(r),
{
    let full = if newline { ref_bytes(r) + seq![10u8] } else { ref_bytes(r) };
    match r {
        RefModel::ObjectId(h) => lemma_object_id_roundtrip(h, kind, full),
        RefModel::RefName(name) => lemma_ref_name_roundtrip(name, kind, full),
    }
}

} // verus!
