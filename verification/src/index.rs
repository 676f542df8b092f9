//! The index file: the list of tracked paths with their stat data and ids,
//! read from and written to git's binary `DIRC` format.
use vstd::prelude::*;
use crate::encoding::{be_u16, be_u32, u16_be, u32_be};
use crate::error::Error;
use crate::hash::{self, sha1, hash_of, Kind};
use crate::io::{CountWriter, HashWriter, WriteExt};
use crate::reader::{first_index_of, holds_byte, lemma_first_index_of, Reader};

verus! {

/// The bytes an index file starts with.
pub open spec fn index_signature() -> Seq<u8> {
    seq![68u8, 73u8, 82u8, 67u8]
}

/// A time as the index stores it.
#[derive(Clone, Copy, Debug, PartialEq, Eq, Structural)]
pub struct Time {
    pub secs: u32,
    pub nsecs: u32,
}

/// The stat data of a file as the index stores it.
#[derive(Clone, Copy, Debug, PartialEq, Eq, Structural)]
pub struct Stat {
    pub ctime: Time,
    pub mtime: Time,
    pub dev: u32,
    pub ino: u32,
    pub mode: u32,
    pub uid: u32,
    pub gid: u32,
    pub size: u32,
}

/// The flags field of an index entry.
#[derive(Clone, Copy, Debug, PartialEq, Eq, Structural)]
pub struct Flags {
    /// The raw bits, known or not.
    pub bits: u16,
}

/// The extended flags field of an index entry.
#[derive(Clone, Copy, Debug, PartialEq, Eq, Structural)]
pub struct ExtendedFlags {
    /// The raw bits, known or not.
    pub bits: u16,
}

/// The format versions of the index that are read and written.
#[derive(Clone, Copy, Debug, PartialEq, Eq, Structural)]
pub enum Version {
    V2,
    V3,
}

/// One tracked path.
#[derive(Clone, Debug)]
pub struct Entry {
    pub stat: Stat,
    pub oid: hash::Hash,
    pub flags: Flags,
    pub extended_flags: ExtendedFlags,
    pub path: Vec<u8>,
}

/// An entry as a value: its fields, with the path as a sequence.
pub struct EntryModel {
    pub stat: Stat,
    pub oid: hash::Hash,
    pub flags: Flags,
    pub extended_flags: ExtendedFlags,
    pub path: Seq<u8>,
}

/// An index as a value: its version and entries.
pub struct IndexModel {
    pub version: Version,
    pub entries: Seq<EntryModel>,
}

/// The contents of an index file.
#[derive(Debug)]
pub struct Index {
    version: Version,
    entries: Vec<Entry>,
}

// ---------------------------------------------------------------------------
// The format, as sequences of bytes.

/// The time that the first 8 bytes of `s` hold.
pub open spec fn time_from(s: Seq<u8>) -> Time {
    Time { secs: be_u32(s), nsecs: be_u32(s.skip(4)) }
}

/// The stat data that the first 40 bytes of `s` hold.
pub open spec fn stat_from(s: Seq<u8>) -> Stat {
    Stat {
        ctime: time_from(s),
        mtime: time_from(s.skip(8)),
        dev: be_u32(s.skip(16)),
        ino: be_u32(s.skip(20)),
        mode: be_u32(s.skip(24)),
        uid: be_u32(s.skip(28)),
        gid: be_u32(s.skip(32)),
        size: be_u32(s.skip(36)),
    }
}

/// The bytes of a time.
pub open spec fn time_bytes(t: Time) -> Seq<u8> {
    u32_be(t.secs) + u32_be(t.nsecs)
}

/// The bytes of stat data.
pub open spec fn stat_bytes(s: Stat) -> Seq<u8> {
    time_bytes(s.ctime) + time_bytes(s.mtime) + u32_be(s.dev) + u32_be(s.ino) + u32_be(s.mode)
        + u32_be(s.uid) + u32_be(s.gid) + u32_be(s.size)
}

/// The number of zero bytes that follow an entry of `n` bytes: one to
/// eight, so that the entry ends on a multiple of eight.
pub open spec fn padding(n: int) -> int {
    8 - n % 8
}

/// The first `n` bytes of the entry, before the path is read: stat data,
/// id and flags, and the extended flags where the flags say so.
pub open spec fn entry_head_len(flags: Flags, kind: Kind) -> int {
    40 + kind.digest_len() + 2 + if flags.has_extended() { 2int } else { 0 }
}

/// What reading an entry from `d` at `p` gives: the entry and the position
/// after it, or the error that stops it.
#[verifier::opaque]
pub open spec fn parse_entry(d: Seq<u8>, p: int, kind: Kind) -> Result<(EntryModel, int), Error> {
    let n = kind.digest_len() as int;
    if p + 40 + n + 2 > d.len() {
        Err(Error::UnexpectedEndOfFile)
    } else {
        let flags = Flags { bits: be_u16(d.skip(p + 40 + n)) };
        let q = p + entry_head_len(flags, kind);
        if q > d.len() {
            Err(Error::UnexpectedEndOfFile)
        } else {
            let extended_flags = if flags.has_extended() {
                ExtendedFlags { bits: be_u16(d.skip(p + 42 + n)) }
            } else {
                ExtendedFlags { bits: 0 }
            };
            let path_len: int = if flags.path_len_is_max() { 0 } else { flags.path_len_spec() as int };
            if flags.path_len_is_max() && holds_byte(d.skip(q), 0) {
                Err(Error::UnexpectedEndOfFile)
            } else if q + path_len > d.len() {
                Err(Error::UnexpectedEndOfFile)
            } else {
                let end = q + path_len + padding(q + path_len - p);
                if end > d.len() {
                    Err(Error::UnexpectedEndOfFile)
                } else {
                    Ok(
                        (
                            EntryModel {
                                stat: stat_from(d.skip(p)),
                                oid: hash_of(kind, d.subrange(p + 40, p + 40 + n)),
                                flags,
                                extended_flags,
                                path: d.subrange(q, q + path_len),
                            },
                            end,
                        ),
                    )
                }
            }
        }
    }
}

/// Where reading an entry from `d` at `p` leaves the reader when it fails:
/// after the whole four-byte words of stat data that are there; before an
/// id, flags or extended flags that do not fit; at the first zero byte after
/// the head, where the path length field holds the largest value; or before
/// a path or padding that does not fit.
#[verifier::opaque]
pub open spec fn entry_stop(d: Seq<u8>, p: int, kind: Kind) -> int {
    let n = kind.digest_len() as int;
    if p + 40 > d.len() {
        p + (d.len() - p) / 4 * 4
    } else if p + 40 + n > d.len() {
        p + 40
    } else if p + 42 + n > d.len() {
        p + 40 + n
    } else {
        let flags = Flags { bits: be_u16(d.skip(p + 40 + n)) };
        let q = p + entry_head_len(flags, kind);
        let path_len: int = if flags.path_len_is_max() { 0 } else { flags.path_len_spec() as int };
        if q > d.len() {
            p + 42 + n
        } else if flags.path_len_is_max() && holds_byte(d.skip(q), 0) {
            q + first_index_of(d.skip(q), 0)
        } else if q + path_len > d.len() {
            q
        } else {
            q + path_len
        }
    }
}

/// What reading `count` entries from `d` at `p` gives: the entries and the
/// position after them, or the error that stops the first that fails.
pub open spec fn parse_entries(d: Seq<u8>, p: int, kind: Kind, count: nat) -> Result<
    (Seq<EntryModel>, int),
    Error,
>
    decreases count,
{
    if count == 0 {
        Ok((Seq::empty(), p))
    } else {
        match parse_entry(d, p, kind) {
            Err(e) => Err(e),
            Ok((e, q)) => match parse_entries(d, q, kind, (count - 1) as nat) {
                Err(err) => Err(err),
                Ok((rest, r)) => Ok((seq![e] + rest, r)),
            },
        }
    }
}

/// What reading the body of an index file (all but its checksum) gives:
/// the signature, the version, the number of entries and the entries.
pub open spec fn parse_index_body(body: Seq<u8>, kind: Kind) -> Result<IndexModel, Error> {
    if body.len() < 4 {
        Err(Error::UnexpectedEndOfFile)
    } else if body.take(4) != index_signature() {
        Err(Error::InvalidSignature)
    } else if body.len() < 8 {
        Err(Error::UnexpectedEndOfFile)
    } else if be_u32(body.skip(4)) != 2 && be_u32(body.skip(4)) != 3 {
        Err(Error::UnsupportedVersion)
    } else if body.len() < 12 {
        Err(Error::UnexpectedEndOfFile)
    } else {
        let version = if be_u32(body.skip(4)) == 2 { Version::V2 } else { Version::V3 };
        match parse_entries(body, 12, kind, be_u32(body.skip(8)) as nat) {
            Err(e) => Err(e),
            Ok((entries, _)) => Ok(IndexModel { version, entries }),
        }
    }
}

/// What reading an index file of ids of kind `kind` gives: the index, or the
/// error that stops it. The file ends with the id of the rest of it, its body.
pub open spec fn parse_index(bytes: Seq<u8>, kind: Kind) -> Result<IndexModel, Error>
    recommends
        bytes.len() >= kind.digest_len(),
{
    let body = bytes.take(bytes.len() - kind.digest_len());
    let checksum = bytes.skip(bytes.len() - kind.digest_len());
    if sha1(body) != checksum {
        Err(Error::ChecksumMismatch)
    } else {
        parse_index_body(body, kind)
    }
}

/// The bytes of an entry: stat data, id, flags, the extended flags where the
/// flags say so, the path, and the zeros that pad it to a multiple of eight.
#[verifier::opaque]
pub open spec fn entry_bytes(e: EntryModel) -> Seq<u8> {
    let fields = stat_bytes(e.stat) + e.oid.bytes() + u16_be(e.flags.bits_spec()) + (if e.flags.has_extended() {
        u16_be(e.extended_flags.bits_spec())
    } else {
        Seq::empty()
    }) + e.path;
    fields + Seq::new(padding(fields.len() as int) as nat, |i: int| 0u8)
}

/// The bytes of a run of entries, one after another.
pub open spec fn entries_bytes(es: Seq<EntryModel>) -> Seq<u8>
    decreases es.len(),
{
    if es.len() == 0 {
        Seq::empty()
    } else {
        entries_bytes(es.drop_last()) + entry_bytes(es.last())
    }
}

/// The number a version is written as.
pub open spec fn version_number(v: Version) -> u32 {
    match v {
        Version::V2 => 2,
        Version::V3 => 3,
    }
}

/// The first bytes of an index: signature, version and number of entries.
pub open spec fn index_head(m: IndexModel) -> Seq<u8> {
    index_signature() + u32_be(version_number(m.version)) + u32_be(m.entries.len() as u32)
}

/// The bytes of an index before its checksum.
pub open spec fn index_body(m: IndexModel) -> Seq<u8> {
    index_head(m) + entries_bytes(m.entries)
}

/// The bytes of an index file: the body, then the id of the body.
pub open spec fn index_bytes(m: IndexModel) -> Seq<u8> {
    index_body(m) + sha1(index_body(m))
}

} // verus!

verus! {

impl Time {
    /// Reads a time: seconds, then nanoseconds.
    pub fn read_from(reader: &mut Reader) -> (res: Result<Time, Error>)
        ensures
            final(reader).data() == old(reader).data(),
            0 <= old(reader).pos() <= old(reader).data().len(),
            match res {
                Ok(t) => 8 <= old(reader).rest().len() && t == time_from(old(reader).rest())
                    && final(reader).moved_to(*old(reader), old(reader).pos() + 8),
                Err(e) => 8 > old(reader).rest().len() && e == Error::UnexpectedEndOfFile
                    && final(reader).pos() == old(reader).pos() + old(reader).rest().len() / 4 * 4,
            },
    {
        let ghost d = old(reader).data();
        let ghost p = old(reader).pos();
        let secs = reader.read_u32()?;
        let nsecs = reader.read_u32()?;
        proof {
            assert(old(reader).rest().skip(4) =~= old(reader).data().skip(old(reader).pos() + 4));
        }
        Ok(Time { secs, nsecs })
    }

    /// Writes a time: seconds, then nanoseconds.
    pub fn write_to<W: WriteExt>(&self, writer: &mut W)
        requires
            old(writer).wf(),
        ensures
            final(writer).wf(),
            final(writer).mark() == old(writer).mark(),
            final(writer).written() == old(writer).written() + time_bytes(*self),
    {
        writer.write_u32(self.secs);
        writer.write_u32(self.nsecs);
        assert(writer.written() =~= old(writer).written() + time_bytes(*self));
    }
}

impl Stat {
    /// Reads stat data: the two times, then device, inode, mode, user,
    /// group and size.
    pub fn read_from(reader: &mut Reader) -> (res: Result<Stat, Error>)
        ensures
            final(reader).data() == old(reader).data(),
            0 <= old(reader).pos() <= old(reader).data().len(),
            match res {
                Ok(s) => 40 <= old(reader).rest().len() && s == stat_from(old(reader).rest())
                    && final(reader).moved_to(*old(reader), old(reader).pos() + 40),
                Err(e) => 40 > old(reader).rest().len() && e == Error::UnexpectedEndOfFile
                    && final(reader).pos() == old(reader).pos() + old(reader).rest().len() / 4 * 4,
            },
    {
        let ghost d = old(reader).data();
        let ghost p = old(reader).pos();
        let ctime = Time::read_from(reader)?;
        let mtime = Time::read_from(reader)?;
        let dev = reader.read_u32()?;
        let ino = reader.read_u32()?;
        let mode = reader.read_u32()?;
        let uid = reader.read_u32()?;
        let gid = reader.read_u32()?;
        let size = reader.read_u32()?;
        proof {
            let s = d.skip(p);
            assert(s.skip(8) =~= d.skip(p + 8));
            assert(s.skip(16) =~= d.skip(p + 16));
            assert(s.skip(20) =~= d.skip(p + 20));
            assert(s.skip(24) =~= d.skip(p + 24));
            assert(s.skip(28) =~= d.skip(p + 28));
            assert(s.skip(32) =~= d.skip(p + 32));
            assert(s.skip(36) =~= d.skip(p + 36));
            assert(s.skip(8).skip(4) =~= d.skip(p + 12));
            assert(s.skip(4) =~= d.skip(p + 4));
        }
        Ok(Stat { ctime, mtime, dev, ino, mode, uid, gid, size })
    }

    /// Writes stat data: the two times, then device, inode, mode, user,
    /// group and size.
    pub fn write_to<W: WriteExt>(&self, writer: &mut W)
        requires
            old(writer).wf(),
        ensures
            final(writer).wf(),
            final(writer).mark() == old(writer).mark(),
            final(writer).written() == old(writer).written() + stat_bytes(*self),
    {
        self.ctime.write_to(writer);
        self.mtime.write_to(writer);
        writer.write_u32(self.dev);
        writer.write_u32(self.ino);
        writer.write_u32(self.mode);
        writer.write_u32(self.uid);
        writer.write_u32(self.gid);
        writer.write_u32(self.size);
        assert(writer.written() =~= old(writer).written() + stat_bytes(*self));
    }
}

impl Flags {
    pub const ASSUME_VALID: u16 = 0x8000;
    pub const EXTENDED: u16 = 0x4000;
    pub const STAGE: u16 = 0x3000;
    pub const PATH_LEN: u16 = 0x0FFF;

    /// The raw bits.
    pub open spec fn bits_spec(self) -> u16 {
        self.bits
    }

    /// The flags say that extended flags follow.
    pub open spec fn has_extended(self) -> bool {
        self.bits & 0x4000 == 0x4000
    }

    /// The path length field holds its largest value, which stands for a
    /// path too long to count.
    pub open spec fn path_len_is_max(self) -> bool {
        self.bits & 0x0FFF == 0x0FFF
    }

    /// The path length field.
    pub open spec fn path_len_spec(self) -> u16 {
        self.bits & 0x0FFF
    }

    /// Flags with exactly these bits, known or not.
    pub fn from_bits_retain(bits: u16) -> (res: Flags)
        ensures
            res.bits_spec() == bits,
    {
        Flags { bits }
    }

    /// Flags with no bit set.
    pub fn empty() -> (res: Flags)
        ensures
            res.bits_spec() == 0,
    {
        Flags { bits: 0 }
    }

    /// The raw bits.
    pub fn bits(self) -> (res: u16)
        ensures
            res == self.bits_spec(),
    {
        self.bits
    }

    /// Whether every bit of `mask` is set.
    pub fn contains(self, mask: u16) -> (res: bool)
        ensures
            res == (self.bits & mask == mask),
    {
        self.bits & mask == mask
    }

    /// The path length field.
    pub fn path_len(self) -> (res: u16)
        ensures
            res == self.path_len_spec(),
    {
        self.bits & Flags::PATH_LEN
    }
}

impl ExtendedFlags {
    pub const SKIP_WORKTREE: u16 = 0x4000;
    pub const INTENT_TO_ADD: u16 = 0x2000;

    /// The raw bits.
    pub open spec fn bits_spec(self) -> u16 {
        self.bits
    }

    /// Extended flags with exactly these bits, known or not.
    pub fn from_bits_retain(bits: u16) -> (res: ExtendedFlags)
        ensures
            res.bits_spec() == bits,
    {
        ExtendedFlags { bits }
    }

    /// Extended flags with no bit set.
    pub fn empty() -> (res: ExtendedFlags)
        ensures
            res.bits_spec() == 0,
    {
        ExtendedFlags { bits: 0 }
    }

    /// The raw bits.
    pub fn bits(self) -> (res: u16)
        ensures
            res == self.bits_spec(),
    {
        self.bits
    }

    /// Whether every bit of `mask` is set.
    pub fn contains(self, mask: u16) -> (res: bool)
        ensures
            res == (self.bits & mask == mask),
    {
        self.bits & mask == mask
    }
}

impl From<Version> for u32 {
    fn from(version: Version) -> (res: u32) {
        match version {
            Version::V2 => 2,
            Version::V3 => 3,
        }
    }
}

impl vstd::std_specs::convert::FromSpecImpl<Version> for u32 {
    open spec fn obeys_from_spec() -> bool {
        true
    }

    open spec fn from_spec(v: Version) -> u32 {
        version_number(v)
    }
}

impl View for Entry {
    type V = EntryModel;

    open spec fn view(&self) -> EntryModel {
        EntryModel {
            stat: self.stat,
            oid: self.oid,
            flags: self.flags,
            extended_flags: self.extended_flags,
            path: self.path@,
        }
    }
}

} // verus!

verus! {

impl Entry {
    /// Reads an entry whose id is of kind `kind`.
    #[verifier::rlimit(40)]
    pub fn read_from(reader: &mut Reader, hash_kind: Kind) -> (res: Result<Entry, Error>)
        ensures
            final(reader).data() == old(reader).data(),
            0 <= old(reader).pos() <= final(reader).pos() <= old(reader).data().len(),
            match parse_entry(old(reader).data(), old(reader).pos(), hash_kind) {
                Ok((e, end)) => res matches Ok(entry) && entry@ == e && final(reader).moved_to(
                    *old(reader),
                    end,
                ),
                Err(e) => res == Err::<Entry, Error>(e) && final(reader).pos() == entry_stop(
                    old(reader).data(),
                    old(reader).pos(),
                    hash_kind,
                ),
            },
    {
        let ghost d = old(reader).data();
        let ghost p = old(reader).pos();
        let ghost n = hash_kind.digest_len() as int;
        proof {
            reveal(parse_entry);
            reveal(entry_stop);
        }
        let start = reader.position();
        let stat = match Stat::read_from(reader) {
            Ok(s) => s,
            Err(e) => return Err(e),
        };
        let id_bytes = match reader.read_bytes(hash_kind.len()) {
            Ok(b) => b,
            Err(e) => return Err(e),
        };
        let id = hash::Hash::from_bytes(id_bytes, hash_kind);
        proof {
            assert(id_bytes@ =~= d.subrange(p + 40, p + 40 + n));
            hash::lemma_hash_of(id);
        }
        let flags = match reader.read_u16() {
            Ok(bits) => Flags::from_bits_retain(bits),
            Err(e) => return Err(e),
        };
        proof {
            assert(d.skip(p + 40).skip(n) =~= d.skip(p + 40 + n));
        }
        let extended_flags = if flags.contains(Flags::EXTENDED) {
            match reader.read_u16() {
                Ok(bits) => ExtendedFlags::from_bits_retain(bits),
                Err(e) => return Err(e),
            }
        } else {
            ExtendedFlags::empty()
        };
        let ghost q = reader.pos();
        assert(q == p + entry_head_len(flags, hash_kind));
        let path = if flags.contains(Flags::PATH_LEN) {
            match reader.read_bytes_until_found(0) {
                Ok(b) => vstd::slice::slice_to_vec(b),
                Err(e) => {
                    proof {
                        assert(d.skip(q) =~= d.skip(p).skip(q - p));
                        lemma_first_index_of(d.skip(q), 0, reader.pos() - q);
                    }
                    return Err(e);
                },
            }
        } else {
            let path_len = flags.path_len() as usize;
            match reader.read_bytes(path_len) {
                Ok(b) => vstd::slice::slice_to_vec(b),
                Err(e) => return Err(e),
            }
        };
        proof {
            assert(path@ =~= d.subrange(q, q + path@.len()));
        }
        let num_read = reader.position() - start;
        let padding = 8 - num_read % 8;
        match reader.read_bytes(padding) {
            Ok(_) => {},
            Err(e) => return Err(e),
        }
        let entry = Entry { stat, oid: id, flags, extended_flags, path };
        proof {
            assert(d.skip(p).skip(40) =~= d.skip(p + 40));
        }
        Ok(entry)
    }

    /// Writes the entry: stat data, id, flags, the extended flags where the
    /// flags say so, the path, and zeros up to the next multiple of eight.
    pub fn write_to<W: WriteExt>(&self, writer: &mut W)
        requires
            old(writer).wf(),
        ensures
            final(writer).wf(),
            final(writer).mark() == old(writer).mark(),
            final(writer).written() == old(writer).written() + entry_bytes(self@),
    {
        proof {
            reveal(entry_bytes);
        }
        let mut writer_count = CountWriter::new(Vec::<u8>::new());
        self.stat.write_to(&mut writer_count);
        self.oid.write_to(&mut writer_count);
        writer_count.write_u16(self.flags.bits());
        if self.flags.contains(Flags::EXTENDED) {
            writer_count.write_u16(self.extended_flags.bits());
        }
        writer_count.write_all(self.path.as_slice());
        let num_written = writer_count.count();
        let buffer = writer_count.into_inner();
        let padding = 8 - num_written % 8;
        let zeroes = [0u8; 8];
        let pad = vstd::slice::slice_subrange(zeroes.as_slice(), 0, padding);
        writer.write_all(buffer.as_slice());
        writer.write_all(pad);
        proof {
            assert(pad@ =~= Seq::new(padding as nat, |i: int| 0u8));
            assert(writer.written() =~= old(writer).written() + entry_bytes(self@));
        }
    }
}

} // verus!

verus! {

/// The bytes an index file starts with.
pub const SIGNATURE: [u8; 4] = [68, 73, 82, 67];

/// Writing the first `i + 1` entries is writing the first `i`, then entry `i`.
pub proof fn lemma_entries_bytes_step(es: Seq<EntryModel>, i: int)
    requires
        0 <= i < es.len(),
    ensures
        entries_bytes(es.take(i + 1)) == entries_bytes(es.take(i)) + entry_bytes(es[i]),
{
    assert(es.take(i + 1).drop_last() =~= es.take(i));
}

/// Writing a prefix of the entries writes no more than writing them all.
pub proof fn lemma_entries_bytes_prefix_len(es: Seq<EntryModel>, i: int)
    requires
        0 <= i <= es.len(),
    ensures
        entries_bytes(es.take(i)).len() <= entries_bytes(es).len(),
    decreases es.len() - i,
{
    if i < es.len() {
        lemma_entries_bytes_step(es, i);
        lemma_entries_bytes_prefix_len(es, i + 1);
    } else {
        assert(es.take(i) =~= es);
    }
}

impl View for Index {
    type V = IndexModel;

    closed spec fn view(&self) -> IndexModel {
        IndexModel { version: self.version, entries: self.entries@.map_values(|e: Entry| e@) }
    }
}

impl Index {
    /// An index of this version with these entries.
    pub fn new(version: Version, entries: Vec<Entry>) -> (res: Index)
        ensures
            res@.version == version,
            res@.entries == entries@.map_values(|e: Entry| e@),
    {
        Index { version, entries }
    }

    /// Reads an index file whose ids are of kind `hash_kind`; the file must
    /// be at least as long as its checksum.
    pub fn from_bytes(bytes: &[u8], hash_kind: Kind) -> (res: Result<Index, Error>)
        requires
            bytes@.len() >= hash_kind.digest_len(),
        ensures
            match parse_index(bytes@, hash_kind) {
                Ok(m) => res matches Ok(index) && index@ == m,
                Err(e) => res matches Err(err) && err == e,
            },
    {
        let split = bytes.len() - hash_kind.len();
        let body = vstd::slice::slice_subrange(bytes, 0, split);
        let expected_bytes = vstd::slice::slice_subrange(bytes, split, bytes.len());
        let expected_checksum = hash::Hash::from_bytes(expected_bytes, hash_kind);
        let mut builder = hash::Builder::new(hash_kind);
        builder.write(body);
        let actual_checksum = builder.finish();
        proof {
            assert(builder.data() =~= body@);
        }
        if actual_checksum != expected_checksum {
            return Err(Error::ChecksumMismatch);
        }
        proof {
            assert(body@ =~= bytes@.take(bytes@.len() - hash_kind.digest_len()));
            assert(expected_bytes@ =~= bytes@.skip(bytes@.len() - hash_kind.digest_len()));
        }
        Index::read_body(body, hash_kind)
    }

    /// Reads the body of an index file, all but its checksum.
    fn read_body(body: &[u8], hash_kind: Kind) -> (res: Result<Index, Error>)
        ensures
            match parse_index_body(body@, hash_kind) {
                Ok(m) => res matches Ok(index) && index@ == m,
                Err(e) => res matches Err(err) && err == e,
            },
    {
        let ghost d = body@;
        let mut reader = Reader::new(body);
        let found = match reader.read_bytes(4) {
            Ok(s) => s,
            Err(e) => return Err(e),
        };
        if found[0] != SIGNATURE[0] || found[1] != SIGNATURE[1] || found[2] != SIGNATURE[2]
            || found[3] != SIGNATURE[3] {
            proof {
                assert(found@ != index_signature());
            }
            return Err(Error::InvalidSignature);
        }
        proof {
            assert(found@ =~= index_signature());
            assert(d.take(4) == found@);
        }
        let version = match reader.read_u32() {
            Ok(2) => Version::V2,
            Ok(3) => Version::V3,
            Ok(_) => return Err(Error::UnsupportedVersion),
            Err(e) => return Err(e),
        };
        let num_entries = match reader.read_u32() {
            Ok(n) => n,
            Err(e) => return Err(e),
        };
        proof {
            assert(d.skip(0).skip(4) =~= d.skip(4));
            assert(d.skip(8) =~= d.skip(4).skip(4));
        }
        let ghost total = num_entries as nat;
        let mut entries: Vec<Entry> = Vec::new();
        let mut i: u32 = 0;
        while i < num_entries
            invariant
                d == body@,
                reader.data() == d,
                parse_index_body(d, hash_kind) == match parse_entries(d, 12, hash_kind, total) {
                    Err(e) => Err(e),
                    Ok((es, _)) => Ok(IndexModel { version, entries: es }),
                },
                i <= num_entries,
                total == num_entries as nat,
                entries@.len() == i,
                parse_entries(d, 12, hash_kind, total) == match parse_entries(
                    d,
                    reader.pos(),
                    hash_kind,
                    (total - i) as nat,
                ) {
                    Ok((rest, r)) => Ok((entries@.map_values(|e: Entry| e@) + rest, r)),
                    Err(e) => Err(e),
                },
            decreases num_entries - i,
        {
            let ghost before = entries@.map_values(|e: Entry| e@);
            let ghost at = reader.pos();
            let entry = match Entry::read_from(&mut reader, hash_kind) {
                Ok(entry) => entry,
                Err(e) => {
                    assert(parse_entries(d, at, hash_kind, (total - i) as nat) == Err::<
                        (Seq<EntryModel>, int),
                        Error,
                    >(e));
                    return Err(e);
                },
            };
            entries.push(entry);
            proof {
                assert(entries@.map_values(|e: Entry| e@) =~= before + seq![entry@]);
                let rest_count = (total - i - 1) as nat;
                match parse_entries(d, reader.pos(), hash_kind, rest_count) {
                    Ok((rest, r)) => {
                        assert(before + (seq![entry@] + rest) =~= entries@.map_values(
                            |e: Entry| e@,
                        ) + rest);
                    },
                    Err(_) => {},
                }
            }
            i = i + 1;
        }
        proof {
            assert(parse_entries(d, reader.pos(), hash_kind, 0) == Ok::<
                (Seq<EntryModel>, int),
                Error,
            >((Seq::empty(), reader.pos())));
            assert(entries@.map_values(|e: Entry| e@) + Seq::<EntryModel>::empty() =~= entries@.map_values(
                |e: Entry| e@,
            ));
        }
        Ok(Index { version, entries })
    }

    /// The format version.
    pub fn version(&self) -> (res: Version)
        ensures
            res == self@.version,
    {
        self.version
    }

    /// The entries, in order.
    pub fn entries(&self) -> (res: &[Entry])
        ensures
            res@.map_values(|e: Entry| e@) == self@.entries,
    {
        self.entries.as_slice()
    }

    /// Writes the index file: signature, version, number of entries, the
    /// entries, and the id of all that, of kind `hash_kind`.
    pub fn write_to<W: WriteExt>(&self, writer: &mut W, hash_kind: Kind)
        requires
            old(writer).wf(),
            self@.entries.len() <= u32::MAX,
        ensures
            final(writer).wf(),
            final(writer).mark() == old(writer).mark(),
            final(writer).written() == old(writer).written() + index_bytes(self@),
            sha1(index_body(self@)).len() == hash_kind.digest_len(),
    {
        let ghost m = self@;
        let ghost es = m.entries;
        proof {
            lemma_entries_bytes_prefix_len(es, es.len() as int);
            assert(es.take(es.len() as int) =~= es);
        }
        let mut hasher = HashWriter::new(Vec::<u8>::new(), hash_kind);
        hasher.write_all(SIGNATURE.as_slice());
        hasher.write_u32(self.version.into());
        hasher.write_u32(self.entries.len() as u32);
        proof {
            assert(es.take(0) =~= Seq::<EntryModel>::empty());
            assert(hasher.written() =~= index_head(m) + entries_bytes(es.take(0)));
        }
        let mut i: usize = 0;
        while i < self.entries.len()
            invariant
                m == self@,
                es == m.entries,
                self.entries@.len() == es.len(),
                es.len() <= u32::MAX,
                i <= es.len(),
                hasher.wf(),
                hasher.mark() == 0,
                hasher.written() == index_head(m) + entries_bytes(es.take(i as int)),
            decreases es.len() - i,
        {
            proof {
                assert(self.entries@[i as int]@ == es[i as int]);
                lemma_entries_bytes_step(es, i as int);
                lemma_entries_bytes_prefix_len(es, i + 1);
            }
            self.entries[i].write_to(&mut hasher);
            assert(hasher.written() =~= index_head(m) + entries_bytes(es.take(i + 1)));
            i = i + 1;
        }
        let (body, checksum) = hasher.finish();
        proof {
            assert(es.take(es.len() as int) =~= es);
            assert(body@ == index_body(m));
            assert(body@.skip(0) =~= body@);
        }
        writer.write_all(body.as_slice());
        checksum.write_to(writer);
        proof {
            assert(writer.written() =~= old(writer).written() + index_bytes(m));
        }
    }
}

} // verus!

verus! {

/// The entry reads back as itself from the bytes `Entry::write_to` gives
/// for it: its id is of kind `kind`, its path length field holds the length
/// of its path (so less than the largest value, which is read differently),
/// and its extended flags are empty unless its flags say they are written.
pub open spec fn entry_roundtrips(e: EntryModel, kind: Kind) -> bool {
    &&& e.oid.hash_kind() == kind
    &&& !e.flags.path_len_is_max()
    &&& e.flags.path_len_spec() as int == e.path.len()
    &&& !e.flags.has_extended() ==> e.extended_flags.bits == 0
}

/// Every entry reads back as itself, and the entries can be counted in the
/// 32-bit count field.
pub open spec fn index_roundtrips(m: IndexModel, kind: Kind) -> bool {
    &&& m.entries.len() <= u32::MAX
    &&& forall|i: int| 0 <= i < m.entries.len() ==> entry_roundtrips(#[trigger] m.entries[i], kind)
}

proof fn lemma_be_u32_at(d: Seq<u8>, q: int, v: u32)
    requires
        0 <= q,
        q + 4 <= d.len(),
        d.subrange(q, q + 4) == u32_be(v),
    ensures
        be_u32(d.skip(q)) == v,
{
    assert(d.skip(q)[0] == d.subrange(q, q + 4)[0]);
    assert(d.skip(q)[1] == d.subrange(q, q + 4)[1]);
    assert(d.skip(q)[2] == d.subrange(q, q + 4)[2]);
    assert(d.skip(q)[3] == d.subrange(q, q + 4)[3]);
    crate::encoding::lemma_be_u32_roundtrip(v);
}

proof fn lemma_be_u16_at(d: Seq<u8>, q: int, v: u16)
    requires
        0 <= q,
        q + 2 <= d.len(),
        d.subrange(q, q + 2) == u16_be(v),
    ensures
        be_u16(d.skip(q)) == v,
{
    assert(d.skip(q)[0] == d.subrange(q, q + 2)[0]);
    assert(d.skip(q)[1] == d.subrange(q, q + 2)[1]);
    crate::encoding::lemma_be_u16_roundtrip(v);
}

proof fn lemma_time_at(d: Seq<u8>, q: int, t: Time)
    requires
        0 <= q,
        q + 8 <= d.len(),
        d.subrange(q, q + 8) == time_bytes(t),
    ensures
        time_from(d.skip(q)) == t,
{
    assert(d.subrange(q, q + 4) =~= d.subrange(q, q + 8).subrange(0, 4));
    assert(d.subrange(q + 4, q + 8) =~= d.subrange(q, q + 8).subrange(4, 8));
    assert(time_bytes(t).subrange(0, 4) =~= u32_be(t.secs));
    assert(time_bytes(t).subrange(4, 8) =~= u32_be(t.nsecs));
    lemma_be_u32_at(d, q, t.secs);
    lemma_be_u32_at(d, q + 4, t.nsecs);
    assert(d.skip(q).skip(4) =~= d.skip(q + 4));
}

proof fn lemma_stat_at(d: Seq<u8>, q: int, s: Stat)
    requires
        0 <= q,
        q + 40 <= d.len(),
        d.subrange(q, q + 40) == stat_bytes(s),
    ensures
        stat_from(d.skip(q)) == s,
{
    let b = stat_bytes(s);
    assert forall|k: int| 0 <= k && k + 4 <= 40 implies #[trigger] d.subrange(q + k, q + k + 4)
        == b.subrange(k, k + 4) by {
        assert(d.subrange(q + k, q + k + 4) =~= d.subrange(q, q + 40).subrange(k, k + 4));
    }
    assert(d.subrange(q, q + 8) =~= b.subrange(0, 8));
    assert(d.subrange(q + 8, q + 16) =~= d.subrange(q, q + 40).subrange(8, 16));
    assert(b.subrange(0, 8) =~= time_bytes(s.ctime));
    assert(b.subrange(8, 16) =~= time_bytes(s.mtime));
    assert(b.subrange(16, 20) =~= u32_be(s.dev));
    assert(b.subrange(20, 24) =~= u32_be(s.ino));
    assert(b.subrange(24, 28) =~= u32_be(s.mode));
    assert(b.subrange(28, 32) =~= u32_be(s.uid));
    assert(b.subrange(32, 36) =~= u32_be(s.gid));
    assert(b.subrange(36, 40) =~= u32_be(s.size));
    lemma_time_at(d, q, s.ctime);
    lemma_time_at(d, q + 8, s.mtime);
    assert(d.subrange(q + 16, q + 16 + 4) == b.subrange(16, 16 + 4int));
    assert(d.subrange(q + 20, q + 20 + 4) == b.subrange(20, 20 + 4int));
    assert(d.subrange(q + 24, q + 24 + 4) == b.subrange(24, 24 + 4int));
    assert(d.subrange(q + 28, q + 28 + 4) == b.subrange(28, 28 + 4int));
    assert(d.subrange(q + 32, q + 32 + 4) == b.subrange(32, 32 + 4int));
    assert(d.subrange(q + 36, q + 36 + 4) == b.subrange(36, 36 + 4int));
    lemma_be_u32_at(d, q + 16, s.dev);
    lemma_be_u32_at(d, q + 20, s.ino);
    lemma_be_u32_at(d, q + 24, s.mode);
    lemma_be_u32_at(d, q + 28, s.uid);
    lemma_be_u32_at(d, q + 32, s.gid);
    lemma_be_u32_at(d, q + 36, s.size);
    let r = d.skip(q);
    assert(r.skip(8) =~= d.skip(q + 8));
    assert(r.skip(16) =~= d.skip(q + 16));
    assert(r.skip(20) =~= d.skip(q + 20));
    assert(r.skip(24) =~= d.skip(q + 24));
    assert(r.skip(28) =~= d.skip(q + 28));
    assert(r.skip(32) =~= d.skip(q + 32));
    assert(r.skip(36) =~= d.skip(q + 36));
}

} // verus!

verus! {

proof fn lemma_subrange_within(d: Seq<u8>, p: int, b: Seq<u8>, i: int, j: int)
    requires
        0 <= p,
        p + b.len() <= d.len(),
        d.subrange(p, p + b.len()) == b,
        0 <= i <= j <= b.len(),
    ensures
        d.subrange(p + i, p + j) == b.subrange(i, j),
{
    assert(d.subrange(p + i, p + j) =~= d.subrange(p, p + b.len()).subrange(i, j));
}

/// Where each field of an entry stands in the bytes written for it.
proof fn lemma_entry_layout(e: EntryModel, kind: Kind)
    requires
        e.oid.hash_kind() == kind,
    ensures
        ({
            let n = kind.digest_len() as int;
            let h = entry_head_len(e.flags, kind);
            let eb = entry_bytes(e);
            &&& eb.len() == h + e.path.len() + padding(h + e.path.len())
            &&& eb.subrange(0, 40) == stat_bytes(e.stat)
            &&& eb.subrange(40, 40 + n) == e.oid.bytes()
            &&& eb.subrange(40 + n, 42 + n) == u16_be(e.flags.bits_spec())
            &&& e.flags.has_extended() ==> eb.subrange(42 + n, 44 + n) == u16_be(
                e.extended_flags.bits_spec(),
            )
            &&& eb.subrange(h, h + e.path.len()) == e.path
        }),
{
    reveal(entry_bytes);
    let n = kind.digest_len() as int;
    let eb = entry_bytes(e);
    let ext = if e.flags.has_extended() {
        u16_be(e.extended_flags.bits_spec())
    } else {
        Seq::<u8>::empty()
    };
    assert(e.oid.bytes().len() == n);
    let h = 40 + n + 2 + ext.len();
    assert(h == entry_head_len(e.flags, kind));
    assert(eb.subrange(0, 40) =~= stat_bytes(e.stat));
    assert(eb.subrange(40, 40 + n) =~= e.oid.bytes());
    assert(eb.subrange(40 + n, 42 + n) =~= u16_be(e.flags.bits_spec()));
    assert(eb.subrange(42 + n, h) =~= ext);
    assert(eb.subrange(h, h + e.path.len()) =~= e.path);
}

/// Wherever the bytes that `Entry::write_to` writes for an entry stand in a
/// run of bytes, reading an entry from their start gives that entry back and
/// ends right after them, provided the entry can be read back at all: its id
/// is of the kind read, its path length field holds the length of its path,
/// and its extended flags are empty unless its flags say they are written.
#[verifier::rlimit(30)]
pub proof fn lemma_entry_at(d: Seq<u8>, p: int, e: EntryModel, kind: Kind)
    requires
        0 <= p,
        entry_roundtrips(e, kind),
        p + entry_bytes(e).len() <= d.len(),
        d.subrange(p, p + entry_bytes(e).len()) == entry_bytes(e),
    ensures
        parse_entry(d, p, kind) == Ok::<(EntryModel, int), Error>((e, p + entry_bytes(e).len())),
{
    reveal(parse_entry);
    lemma_entry_layout(e, kind);
    let n = kind.digest_len() as int;
    let eb = entry_bytes(e);
    let h = entry_head_len(e.flags, kind);
    lemma_subrange_within(d, p, eb, 0, 40);
    lemma_subrange_within(d, p, eb, 40, 40 + n);
    lemma_subrange_within(d, p, eb, 40 + n, 42 + n);
    lemma_subrange_within(d, p, eb, h, h + e.path.len());
    lemma_stat_at(d, p, e.stat);
    hash::lemma_hash_of(e.oid);
    lemma_be_u16_at(d, p + 40 + n, e.flags.bits);
    if e.flags.has_extended() {
        lemma_subrange_within(d, p, eb, 42 + n, 44 + n);
        lemma_be_u16_at(d, p + 42 + n, e.extended_flags.bits);
    }
}

/// Reading the bytes of a run of entries, each of which reads back as
/// itself, gives the run.
proof fn lemma_entries_at(d: Seq<u8>, p: int, es: Seq<EntryModel>, kind: Kind, j: int)
    requires
        0 <= p,
        0 <= j <= es.len(),
        forall|i: int| 0 <= i < es.len() ==> entry_roundtrips(#[trigger] es[i], kind),
        p + entries_bytes(es).len() <= d.len(),
        d.subrange(p, p + entries_bytes(es).len()) == entries_bytes(es),
    ensures
        parse_entries(d, p + entries_bytes(es.take(j)).len(), kind, (es.len() - j) as nat) == Ok::<
            (Seq<EntryModel>, int),
            Error,
        >((es.skip(j), p + entries_bytes(es).len())),
    decreases es.len() - j,
{
    if j == es.len() {
        assert(es.take(j) =~= es);
        assert(es.skip(j) =~= Seq::<EntryModel>::empty());
    } else {
        lemma_entries_bytes_step(es, j);
        lemma_entries_bytes_prefix_len(es, j + 1);
        let a = entries_bytes(es.take(j)).len() as int;
        let b = entries_bytes(es.take(j + 1)).len() as int;
        lemma_subrange_within(d, p, entries_bytes(es), a, b);
        assert(entries_bytes(es).subrange(a, b) =~= entry_bytes(es[j])) by {
            assert(es.take(es.len() as int) =~= es);
            lemma_entries_bytes_prefix_of(es, j + 1);
            assert(entries_bytes(es).subrange(0, b) == entries_bytes(es.take(j + 1)));
            assert(entries_bytes(es).subrange(a, b) =~= entries_bytes(es).subrange(0, b).subrange(a, b));
        }
        lemma_entry_at(d, p + a, es[j], kind);
        lemma_entries_at(d, p, es, kind, j + 1);
        assert(seq![es[j]] + es.skip(j + 1) =~= es.skip(j));
    }
}

/// The bytes written for a prefix of the entries begin the bytes written
/// for all of them.
proof fn lemma_entries_bytes_prefix_of(es: Seq<EntryModel>, i: int)
    requires
        0 <= i <= es.len(),
    ensures
        entries_bytes(es.take(i)).len() <= entries_bytes(es).len(),
        entries_bytes(es).subrange(0, entries_bytes(es.take(i)).len() as int) == entries_bytes(es.take(i)),
    decreases es.len() - i,
{
    if i == es.len() {
        assert(es.take(i) =~= es);
        assert(entries_bytes(es).subrange(0, entries_bytes(es).len() as int) =~= entries_bytes(es));
    } else {
        lemma_entries_bytes_prefix_of(es, i + 1);
        lemma_entries_bytes_step(es, i);
        let small = entries_bytes(es.take(i));
        let big = entries_bytes(es.take(i + 1));
        assert(entries_bytes(es).subrange(0, small.len() as int) =~= entries_bytes(es).subrange(
            0,
            big.len() as int,
        ).subrange(0, small.len() as int));
        assert(big.subrange(0, small.len() as int) =~= small);
    }
}

/// The bytes written for an entry end on a multiple of eight, after one
/// to eight bytes of padding.
pub proof fn lemma_entry_bytes_aligned(e: EntryModel)
    ensures
        entry_bytes(e).len() % 8 == 0,
{
    reveal(entry_bytes);
    let fields = stat_bytes(e.stat) + e.oid.bytes() + u16_be(e.flags.bits_spec()) + (if e.flags.has_extended() {
        u16_be(e.extended_flags.bits_spec())
    } else {
        Seq::empty()
    }) + e.path;
    let l = fields.len() as int;
    assert(entry_bytes(e).len() == l + padding(l));
    assert((l + (8 - l % 8)) % 8 == 0) by (nonlinear_arith)
        requires
            l >= 0,
    ;
}

/// Reading the bytes that `Index::write_to` writes for an index, each of
/// whose entries reads back as itself, gives the index back.
pub proof fn lemma_index_roundtrip(m: IndexModel, kind: Kind)
    requires
        index_roundtrips(m, kind),
        sha1(index_body(m)).len() == kind.digest_len(),
    ensures
        parse_index(index_bytes(m), kind) == Ok::<IndexModel, Error>(m),
{
    let bytes = index_bytes(m);
    let body = index_body(m);
    let head = index_head(m);
    let es = m.entries;
    assert(bytes.take(bytes.len() - kind.digest_len()) =~= body);
    assert(bytes.skip(bytes.len() - kind.digest_len()) =~= sha1(body));
    assert(body.take(4) =~= index_signature());
    assert(body.subrange(4, 8) =~= u32_be(version_number(m.version)));
    assert(body.subrange(8, 12) =~= u32_be(es.len() as u32));
    lemma_be_u32_at(body, 4, version_number(m.version));
    lemma_be_u32_at(body, 8, es.len() as u32);
    assert(body.subrange(12, 12 + entries_bytes(es).len() as int) =~= entries_bytes(es));
    assert(es.take(0) =~= Seq::<EntryModel>::empty());
    lemma_entries_at(body, 12, es, kind, 0);
    assert(es.skip(0) =~= es);
}

/// The four bytes from `q` on read as the same big-endian number in two runs
/// of bytes that agree there.
proof fn lemma_be_u32_agree(a: Seq<u8>, b: Seq<u8>, q: int)
    requires
        0 <= q,
        q + 4 <= a.len(),
        q + 4 <= b.len(),
        forall|k: int| q <= k < q + 4 ==> a[k] == b[k],
    ensures
        be_u32(a.skip(q)) == be_u32(b.skip(q)),
{
    assert(a.skip(q)[0] == b.skip(q)[0]);
    assert(a.skip(q)[1] == b.skip(q)[1]);
    assert(a.skip(q)[2] == b.skip(q)[2]);
    assert(a.skip(q)[3] == b.skip(q)[3]);
}

/// Reading an entry at `p` takes its stat data from git's fixed offsets,
/// each field a big-endian 32-bit number: the change time's seconds and
/// nanoseconds at 0 and 4, the modification time's at 8 and 12, the device
/// at 16, the inode at 20, the mode at 24, the user at 28, the group at 32
/// and the size at 36. The flags are the big-endian 16-bit number right
/// after the id, which starts at 40.
pub proof fn lemma_entry_fields_read(d: Seq<u8>, p: int, kind: Kind)
    requires
        0 <= p,
    ensures
        parse_entry(d, p, kind) matches Ok((e, _)) ==> {
            &&& e.stat.ctime.secs == be_u32(d.skip(p))
            &&& e.stat.ctime.nsecs == be_u32(d.skip(p + 4))
            &&& e.stat.mtime.secs == be_u32(d.skip(p + 8))
            &&& e.stat.mtime.nsecs == be_u32(d.skip(p + 12))
            &&& e.stat.dev == be_u32(d.skip(p + 16))
            &&& e.stat.ino == be_u32(d.skip(p + 20))
            &&& e.stat.mode == be_u32(d.skip(p + 24))
            &&& e.stat.uid == be_u32(d.skip(p + 28))
            &&& e.stat.gid == be_u32(d.skip(p + 32))
            &&& e.stat.size == be_u32(d.skip(p + 36))
            &&& e.flags.bits == be_u16(d.skip(p + 40 + kind.digest_len()))
        },
{
    reveal(parse_entry);
    if parse_entry(d, p, kind) is Ok {
        let s = d.skip(p);
        assert(s.skip(4) =~= d.skip(p + 4));
        assert(s.skip(8) =~= d.skip(p + 8));
        assert(s.skip(8).skip(4) =~= d.skip(p + 12));
        assert(s.skip(16) =~= d.skip(p + 16));
        assert(s.skip(20) =~= d.skip(p + 20));
        assert(s.skip(24) =~= d.skip(p + 24));
        assert(s.skip(28) =~= d.skip(p + 28));
        assert(s.skip(32) =~= d.skip(p + 32));
        assert(s.skip(36) =~= d.skip(p + 36));
    }
}

/// Reading an index file takes the stat data of its first entry from the
/// fixed offsets after the 12-byte header: the device at 28, the inode at
/// 32, the mode at 36, the user at 40, the group at 44 and the size at 48.
pub proof fn lemma_first_entry_fields_read(bytes: Seq<u8>, kind: Kind)
    requires
        bytes.len() >= kind.digest_len(),
    ensures
        parse_index(bytes, kind) matches Ok(m) ==> m.entries.len() > 0 ==> {
            &&& m.entries[0].stat.dev == be_u32(bytes.skip(28))
            &&& m.entries[0].stat.ino == be_u32(bytes.skip(32))
            &&& m.entries[0].stat.mode == be_u32(bytes.skip(36))
            &&& m.entries[0].stat.uid == be_u32(bytes.skip(40))
            &&& m.entries[0].stat.gid == be_u32(bytes.skip(44))
            &&& m.entries[0].stat.size == be_u32(bytes.skip(48))
        },
{
    let body = bytes.take(bytes.len() - kind.digest_len());
    if let Ok(m) = parse_index(bytes, kind) {
        if m.entries.len() > 0 {
            let count = be_u32(body.skip(8)) as nat;
            assert(count > 0) by {
                if count == 0 {
                    assert(parse_entries(body, 12, kind, count) == Ok::<(Seq<EntryModel>, int), Error>((Seq::empty(), 12)));
                }
            }
            assert(parse_entry(body, 12, kind) is Ok) by {
                reveal(parse_entry);
            }
            let e = parse_entry(body, 12, kind)->Ok_0.0;
            assert(m.entries[0] == e);
            lemma_entry_fields_read(body, 12, kind);
            assert(body.len() >= 52) by {
                reveal(parse_entry);
            }
            lemma_be_u32_agree(body, bytes, 28);
            lemma_be_u32_agree(body, bytes, 32);
            lemma_be_u32_agree(body, bytes, 36);
            lemma_be_u32_agree(body, bytes, 40);
            lemma_be_u32_agree(body, bytes, 44);
            lemma_be_u32_agree(body, bytes, 48);
        }
    }
}

/// Writing stat data puts each field at git's fixed offset, as a big-endian
/// 32-bit number: the change time's seconds and nanoseconds at 0 and 4, the
/// modification time's at 8 and 12, the device at 16, the inode at 20, the
/// mode at 24, the user at 28, the group at 32 and the size at 36.
pub proof fn lemma_stat_fields_written(s: Stat)
    ensures
        stat_bytes(s).len() == 40,
        stat_bytes(s).subrange(0, 4) == u32_be(s.ctime.secs),
        stat_bytes(s).subrange(4, 8) == u32_be(s.ctime.nsecs),
        stat_bytes(s).subrange(8, 12) == u32_be(s.mtime.secs),
        stat_bytes(s).subrange(12, 16) == u32_be(s.mtime.nsecs),
        stat_bytes(s).subrange(16, 20) == u32_be(s.dev),
        stat_bytes(s).subrange(20, 24) == u32_be(s.ino),
        stat_bytes(s).subrange(24, 28) == u32_be(s.mode),
        stat_bytes(s).subrange(28, 32) == u32_be(s.uid),
        stat_bytes(s).subrange(32, 36) == u32_be(s.gid),
        stat_bytes(s).subrange(36, 40) == u32_be(s.size),
{
    let b = stat_bytes(s);
    assert(b.subrange(0, 4) =~= u32_be(s.ctime.secs));
    assert(b.subrange(4, 8) =~= u32_be(s.ctime.nsecs));
    assert(b.subrange(8, 12) =~= u32_be(s.mtime.secs));
    assert(b.subrange(12, 16) =~= u32_be(s.mtime.nsecs));
    assert(b.subrange(16, 20) =~= u32_be(s.dev));
    assert(b.subrange(20, 24) =~= u32_be(s.ino));
    assert(b.subrange(24, 28) =~= u32_be(s.mode));
    assert(b.subrange(28, 32) =~= u32_be(s.uid));
    assert(b.subrange(32, 36) =~= u32_be(s.gid));
    assert(b.subrange(36, 40) =~= u32_be(s.size));
}

} // verus!
