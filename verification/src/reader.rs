//! A cursor over a byte slice, for decoding the library's binary formats.
use vstd::prelude::*;
use crate::encoding::{be_u16, be_u32, u16_from_be_bytes, u32_from_be_bytes};
use crate::error::Error;

verus! {

/// `i` is the first position of `byte` in `s`.
pub open spec fn is_first_index_of(s: Seq<u8>, byte: u8, i: int) -> bool {
    &&& 0 <= i < s.len()
    &&& s[i] == byte
    &&& forall|j: int| 0 <= j < i ==> s[j] != byte
}

/// The first position of `byte` in `s`, where it occurs.
pub open spec fn first_index_of(s: Seq<u8>, byte: u8) -> int {
    choose|i: int| is_first_index_of(s, byte, i)
}

/// A first position is the first position.
pub proof fn lemma_first_index_of(s: Seq<u8>, byte: u8, i: int)
    requires
        is_first_index_of(s, byte, i),
    ensures
        first_index_of(s, byte) == i,
{
    let j = first_index_of(s, byte);
    assert(is_first_index_of(s, byte, j));
    if j < i {
        assert(s[j] != byte);
    } else if j > i {
        assert(s[i] != byte);
    }
}

/// `byte` occurs somewhere in `s`.
pub open spec fn holds_byte(s: Seq<u8>, byte: u8) -> bool {
    exists|i: int| 0 <= i < s.len() && s[i] == byte
}

/// `bstr`'s `ByteSlice::find_byte`: the index of the first occurrence of
/// `byte` in `haystack`, or `None` where it does not occur. The contract
/// restates what the crate documents (and what its `memchr` call computes).
#[verifier::external_body]
pub(crate) fn find_byte(haystack: &[u8], byte: u8) -> (res: Option<usize>)
    ensures
        match res {
            Some(i) => is_first_index_of(haystack@, byte, i as int),
            None => !holds_byte(haystack@, byte),
        },
{
    bstr::ByteSlice::find_byte(haystack, byte)
}

/// A position in a byte slice, moving forward as bytes are read.
#[derive(Debug)]
pub struct Reader<'a> {
    bytes: &'a [u8],
    pos: usize,
}

impl<'a> Clone for Reader<'a> {
    fn clone(&self) -> (res: Self)
        ensures
            res == *self,
    {
        proof { use_type_invariant(self); }
        Reader { bytes: self.bytes, pos: self.pos }
    }
}

impl<'a> Reader<'a> {
    #[verifier::type_invariant]
    closed spec fn in_bounds(self) -> bool {
        self.pos <= self.bytes.len()
    }

    /// The bytes being read.
    pub closed spec fn data(&self) -> Seq<u8> {
        self.bytes@
    }

    /// How many bytes have been read.
    pub closed spec fn pos(&self) -> int {
        self.pos as int
    }

    /// The bytes not read yet.
    pub open spec fn rest(&self) -> Seq<u8> {
        self.data().skip(self.pos())
    }

    /// The reader holds the same bytes as `other`, and is at position `pos`,
    /// no earlier than `other` and no later than the end.
    pub open spec fn moved_to(&self, other: Self, pos: int) -> bool {
        &&& self.data() == other.data()
        &&& self.pos() == pos
        &&& 0 <= other.pos() <= pos <= self.data().len()
    }

    /// A reader at the start of `bytes`.
    pub fn new(bytes: &'a [u8]) -> (res: Self)
        ensures
            res.data() == bytes@,
            res.pos() == 0,
    {
        Reader { bytes, pos: 0 }
    }

    /// How many bytes have been read.
    pub fn position(&self) -> (res: usize)
        ensures
            res == self.pos(),
            res <= self.data().len(),
    {
        proof { use_type_invariant(self); }
        self.pos
    }

    /// How many bytes are left.
    pub fn remaining_len(&self) -> (res: usize)
        ensures
            res == self.data().len() - self.pos(),
    {
        proof { use_type_invariant(self); }
        self.bytes.len() - self.pos
    }

    /// The bytes not read yet.
    pub fn remaining_bytes(&self) -> (res: &'a [u8])
        ensures
            res@ == self.rest(),
    {
        proof { use_type_invariant(self); }
        vstd::slice::slice_subrange(self.bytes, self.pos, self.bytes.len())
    }

    /// Moves `count` bytes ahead if that many are left; says whether it did.
    pub fn skip_bytes(&mut self, count: usize) -> (res: bool)
        ensures
            res == (count <= old(self).rest().len()),
            final(self).moved_to(*old(self), if res { old(self).pos() + count } else { old(self).pos() }),
    {
        proof { use_type_invariant(&*self); }
        if self.remaining_len() < count {
            return false;
        }
        self.pos = self.pos + count;
        true
    }

    /// Moves past `bytes` if the unread bytes start with them; says whether it did.
    pub fn skip_bytes_if_matches(&mut self, bytes: &[u8]) -> (res: bool)
        ensures
            res == (bytes@.len() <= old(self).rest().len()
                && old(self).rest().take(bytes@.len() as int) == bytes@),
            final(self).moved_to(*old(self), if res { old(self).pos() + bytes@.len() } else { old(self).pos() }),
    {
        proof { use_type_invariant(&*self); }
        let rest = self.remaining_bytes();
        assert(old(self).pos() <= old(self).data().len());
        if rest.len() < bytes.len() {
            return false;
        }
        let mut i: usize = 0;
        while i < bytes.len()
            invariant
                *self == *old(self),
                old(self).pos() <= old(self).data().len(),
                rest@ == old(self).rest(),
                bytes@.len() <= rest@.len(),
                i <= bytes@.len(),
                forall|j: int| 0 <= j < i ==> rest@[j] == bytes@[j],
            decreases bytes@.len() - i,
        {
            if rest[i] != bytes[i] {
                assert(rest@.take(bytes@.len() as int)[i as int] == rest@[i as int]);
                assert(rest@.take(bytes@.len() as int) != bytes@);
                return false;
            }
            i = i + 1;
        }
        assert(rest@.take(bytes@.len() as int) =~= bytes@);
        self.pos = self.pos + bytes.len();
        true
    }

    /// Moves to the end; gives how many bytes that passed.
    pub fn skip_bytes_until_end(&mut self) -> (res: usize)
        ensures
            res == old(self).rest().len(),
            final(self).moved_to(*old(self), old(self).data().len() as int),
    {
        proof { use_type_invariant(&*self); }
        let count = self.remaining_len();
        self.pos = self.pos + count;
        count
    }

    /// Moves up to the next occurrence of `byte`, not past it, and gives how
    /// many bytes that passed; stays put and gives `None` where `byte` does
    /// not occur in the unread bytes.
    pub fn skip_bytes_until_found(&mut self, byte: u8) -> (res: Option<usize>)
        ensures
            match res {
                Some(count) => is_first_index_of(old(self).rest(), byte, count as int)
                    && final(self).moved_to(*old(self), old(self).pos() + count),
                None => !holds_byte(old(self).rest(), byte)
                    && final(self).moved_to(*old(self), old(self).pos()),
            },
    {
        proof { use_type_invariant(&*self); }
        let rest = self.remaining_bytes();
        match find_byte(rest, byte) {
            Some(count) => {
                self.pos = self.pos + count;
                Some(count)
            },
            None => None,
        }
    }

    /// Starts noting the bytes read from here on.
    pub fn track(&mut self) -> (res: Track<'_, 'a>)
        ensures
            res.current() == *old(self),
            *final(res.reader) == *final(self),
            res.start() == old(self).pos(),
            res.wf(),
    {
        proof { use_type_invariant(&*self); }
        let start = self.pos;
        Track { reader: self, start }
    }

    /// Reads the next `count` bytes; fails, having moved nowhere, where fewer
    /// are left.
    pub fn read_bytes(&mut self, count: usize) -> (res: Result<&'a [u8], Error>)
        ensures
            match res {
                Ok(bytes) => count <= old(self).rest().len()
                    && bytes@ == old(self).rest().take(count as int)
                    && final(self).moved_to(*old(self), old(self).pos() + count),
                Err(e) => count > old(self).rest().len()
                    && e == Error::UnexpectedEndOfFile
                    && final(self).moved_to(*old(self), old(self).pos()),
            },
    {
        let mut reader = self.track();
        if !reader.skip_bytes(count) {
            return Err(Error::UnexpectedEndOfFile);
        }
        let bytes = reader.bytes();
        proof {
            assert(bytes@ =~= old(self).rest().take(count as int));
        }
        Ok(bytes)
    }

    /// Reads all the bytes left.
    pub fn read_bytes_until_end(&mut self) -> (res: &'a [u8])
        ensures
            res@ == old(self).rest(),
            final(self).moved_to(*old(self), old(self).data().len() as int),
    {
        let mut reader = self.track();
        reader.skip_bytes_until_end();
        let bytes = reader.bytes();
        proof {
            assert(bytes@ =~= old(self).rest());
        }
        bytes
    }

    /// Where `byte` occurs in the unread bytes, moves up to it and fails;
    /// otherwise reads nothing and gives the empty slice.
    pub fn read_bytes_until_found(&mut self, byte: u8) -> (res: Result<&'a [u8], Error>)
        ensures
            match res {
                Ok(bytes) => !holds_byte(old(self).rest(), byte)
                    && bytes@.len() == 0
                    && final(self).moved_to(*old(self), old(self).pos()),
                Err(e) => holds_byte(old(self).rest(), byte)
                    && e == Error::UnexpectedEndOfFile
                    && is_first_index_of(old(self).rest(), byte, final(self).pos() - old(self).pos())
                    && final(self).moved_to(*old(self), final(self).pos()),
            },
    {
        let mut reader = self.track();
        if !reader.skip_bytes_until_found(byte).is_none() {
            return Err(Error::UnexpectedEndOfFile);
        }
        let bytes = reader.bytes();
        Ok(bytes)
    }

    /// Reads a big-endian 16-bit number.
    pub fn read_u16(&mut self) -> (res: Result<u16, Error>)
        ensures
            match res {
                Ok(v) => 2 <= old(self).rest().len()
                    && v == be_u16(old(self).rest())
                    && final(self).moved_to(*old(self), old(self).pos() + 2),
                Err(e) => 2 > old(self).rest().len()
                    && e == Error::UnexpectedEndOfFile
                    && final(self).moved_to(*old(self), old(self).pos()),
            },
    {
        let bytes = self.read_bytes(2)?;
        Ok(u16_from_be_bytes(bytes))
    }

    /// Reads a big-endian 32-bit number.
    pub fn read_u32(&mut self) -> (res: Result<u32, Error>)
        ensures
            match res {
                Ok(v) => 4 <= old(self).rest().len()
                    && v == be_u32(old(self).rest())
                    && final(self).moved_to(*old(self), old(self).pos() + 4),
                Err(e) => 4 > old(self).rest().len()
                    && e == Error::UnexpectedEndOfFile
                    && final(self).moved_to(*old(self), old(self).pos()),
            },
    {
        let bytes = self.read_bytes(4)?;
        Ok(u32_from_be_bytes(bytes))
    }
}

/// A reader, borrowed, with the position at which it was taken.
pub struct Track<'a, 'b> {
    /// The borrowed reader.
    pub reader: &'a mut Reader<'b>,
    /// Where the reader stood when it was taken.
    pub start: usize,
}

impl<'a, 'b> Track<'a, 'b> {
    /// The reader as it stands now.
    pub open spec fn current(self) -> Reader<'b> {
        *self.reader
    }

    /// Where the reader stood when it was taken.
    pub open spec fn start(self) -> int {
        self.start as int
    }

    /// The reader has not moved back past where it was taken.
    pub open spec fn wf(self) -> bool {
        0 <= self.start() <= self.current().pos() <= self.current().data().len()
    }

    /// Moves the reader `count` bytes ahead if that many are left; says whether it did.
    pub fn skip_bytes(&mut self, count: usize) -> (res: bool)
        requires
            old(self).wf(),
        ensures
            final(self).wf(),
            final(self).start() == old(self).start(),
            *final(final(self).reader) == *final(old(self).reader),
            res == (count <= old(self).current().rest().len()),
            final(self).current().moved_to(
                old(self).current(),
                if res { old(self).current().pos() + count } else { old(self).current().pos() },
            ),
    {
        self.reader.skip_bytes(count)
    }

    /// Moves the reader to the end; gives how many bytes that passed.
    pub fn skip_bytes_until_end(&mut self) -> (res: usize)
        requires
            old(self).wf(),
        ensures
            final(self).wf(),
            final(self).start() == old(self).start(),
            *final(final(self).reader) == *final(old(self).reader),
            res == old(self).current().rest().len(),
            final(self).current().moved_to(old(self).current(), old(self).current().data().len() as int),
    {
        self.reader.skip_bytes_until_end()
    }

    /// Moves the reader up to the next `byte`, as `Reader::skip_bytes_until_found` does.
    pub fn skip_bytes_until_found(&mut self, byte: u8) -> (res: Option<usize>)
        requires
            old(self).wf(),
        ensures
            final(self).wf(),
            final(self).start() == old(self).start(),
            *final(final(self).reader) == *final(old(self).reader),
            match res {
                Some(count) => is_first_index_of(old(self).current().rest(), byte, count as int)
                    && final(self).current().moved_to(old(self).current(), old(self).current().pos() + count),
                None => !holds_byte(old(self).current().rest(), byte)
                    && final(self).current().moved_to(old(self).current(), old(self).current().pos()),
            },
    {
        self.reader.skip_bytes_until_found(byte)
    }

    /// The bytes read since the reader was taken.
    pub fn bytes(&self) -> (res: &'b [u8])
        requires
            self.wf(),
        ensures
            res@ == self.current().data().subrange(self.start(), self.current().pos()),
    {
        let end = self.reader.position();
        proof { use_type_invariant(&*self.reader); }
        vstd::slice::slice_subrange(self.reader.bytes, self.start, end)
    }
}

} // verus!
