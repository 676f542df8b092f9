//! Commit objects: the tree, the parents, who wrote it and when, and the
//! message.
use vstd::prelude::*;
use crate::encoding::{decimal, hex_encode, to_decimal};
use crate::hash::{self, sha1};
use crate::io::WriteExt;
use crate::object::{self, object_bytes, Object};
use crate::object_store::{zlib_compress, LooseObject, ObjectStore};

verus! {

/// `jiff`'s `Zoned::try_from` on std's `SystemTime::now()`: the current time
/// in seconds since the Unix epoch, and the offset of the system's time zone
/// from UTC in seconds. `None` where the system clock gives a time outside
/// the range `jiff` can represent. Of a `Some` only what holds of every
/// outcome is stated: `jiff` keeps the seconds of a timestamp within
/// -377705023201..=253402207200 (years -9999 to 9999, with room for any
/// offset) and offsets within 25:59:59 either way. Which moment comes back
/// is left unsaid, as it rests on the clock. (`SystemTime::now` itself
/// panics only on targets that have no clock at all, such as
/// `wasm32-unknown-unknown`.)
#[verifier::external_body]
fn zoned_now() -> (res: Option<(i64, i32)>)
    ensures
        res matches Some((time, offset)) ==> -377705023201 <= time <= 253402207200
            && -93599 <= offset <= 93599,
{
    match jiff::Zoned::try_from(std::time::SystemTime::now()) {
        Ok(zoned) => Some((zoned.timestamp().as_second(), zoned.offset().seconds())),
        Err(_) => None,
    }
}

/// Whether a time zone is ahead of UTC (or at it) or behind it.
#[derive(Clone, Copy, Debug, PartialEq, Eq, Structural)]
pub enum Sign {
    Plus,
    Minus,
}

/// A moment, with the time zone it was noted in.
#[derive(Clone, Copy, Debug, PartialEq, Eq, Structural)]
pub struct Timestamp {
    /// Seconds since the Unix epoch.
    pub time: i64,
    /// The direction of the time zone's offset from UTC.
    pub sign: Sign,
    /// The size of the time zone's offset from UTC, in seconds.
    pub offset: u32,
}

/// Who did something, and when.
#[derive(Clone, Copy, Debug)]
pub struct Signature<'a> {
    pub name: &'a [u8],
    pub email: &'a [u8],
    pub timestamp: Timestamp,
}

/// The character of a sign.
pub open spec fn sign_bytes(sign: Sign) -> Seq<u8> {
    match sign {
        Sign::Plus => seq![43u8],
        Sign::Minus => seq![45u8],
    }
}

/// A timestamp as a commit holds it: the seconds, a space, the sign, the
/// whole hours of the offset, a colon and the minutes left over.
pub open spec fn timestamp_bytes(t: Timestamp) -> Seq<u8> {
    decimal(t.time as int) + seq![32u8] + sign_bytes(t.sign) + decimal(t.offset as int / 3600)
        + seq![58u8] + decimal((t.offset as int % 3600) / 60)
}

/// A signature as a commit holds it: `name <email> timestamp`.
pub open spec fn signature_bytes(s: Signature) -> Seq<u8> {
    s.name@ + seq![32u8, 60u8] + s.email@ + seq![62u8, 32u8] + timestamp_bytes(s.timestamp)
}

/// The text `tree `.
pub open spec fn tree_label() -> Seq<u8> {
    seq![116u8, 114u8, 101u8, 101u8, 32u8]
}

/// The text `parent `.
pub open spec fn parent_label() -> Seq<u8> {
    seq![112u8, 97u8, 114u8, 101u8, 110u8, 116u8, 32u8]
}

/// The text `author `.
pub open spec fn author_label() -> Seq<u8> {
    seq![97u8, 117u8, 116u8, 104u8, 111u8, 114u8, 32u8]
}

/// The text `committer `.
pub open spec fn committer_label() -> Seq<u8> {
    seq![99u8, 111u8, 109u8, 109u8, 105u8, 116u8, 116u8, 101u8, 114u8, 32u8]
}

/// One `parent <hex id>` line per parent, in order.
pub open spec fn parent_lines(parents: Seq<hash::Hash>) -> Seq<u8>
    decreases parents.len(),
{
    if parents.len() == 0 {
        Seq::empty()
    } else {
        parent_lines(parents.drop_last()) + parent_label() + hex_encode(parents.last().bytes()) + seq![
            10u8,
        ]
    }
}

/// The content of a commit object: the tree line, the parent lines, the
/// author and committer lines, an empty line and the message.
pub open spec fn commit_content(
    tree: hash::Hash,
    parents: Seq<hash::Hash>,
    author: Signature,
    committer: Signature,
    message: Seq<u8>,
) -> Seq<u8> {
    tree_label() + hex_encode(tree.bytes()) + seq![10u8] + parent_lines(parents) + author_label()
        + signature_bytes(author) + seq![10u8] + committer_label() + signature_bytes(committer)
        + seq![10u8, 10u8] + message
}

impl Sign {
    /// The character of the sign: `+` or `-`.
    pub fn as_bytes(self) -> (res: &'static [u8])
        ensures
            res@ == sign_bytes(self),
    {
        let res: &'static [u8] = match self {
            Sign::Plus => "+".as_bytes(),
            Sign::Minus => "-".as_bytes(),
        };
        proof {
            reveal_strlit("+");
            reveal_strlit("-");
            vstd::string::is_ascii_spec_bytes("+");
            vstd::string::is_ascii_spec_bytes("-");
            assert(res@ =~= sign_bytes(self));
        }
        res
    }
}

impl Timestamp {
    /// The timestamp of `time` seconds since the epoch in a zone `offset`
    /// seconds ahead of UTC (behind it where negative).
    pub fn from_parts(time: i64, offset: i32) -> (res: Timestamp)
        ensures
            res.time == time,
            res.sign == (if offset >= 0 { Sign::Plus } else { Sign::Minus }),
            res.offset == (if offset >= 0 { offset as int } else { -(offset as int) }),
    {
        let sign = if offset >= 0 { Sign::Plus } else { Sign::Minus };
        let magnitude: u32 = if offset >= 0 { offset as u32 } else { (-(offset as i64)) as u32 };
        Timestamp { time, sign, offset: magnitude }
    }

    /// The current time, in the system's time zone; `None` where the system
    /// clock is set outside the years -9999 to 9999.
    pub fn now() -> (res: Option<Timestamp>)
        ensures
            res matches Some(t) ==> t.offset <= 93599 && (t.sign == Sign::Minus ==> t.offset > 0)
                && -377705023201 <= t.time <= 253402207200,
    {
        match zoned_now() {
            Some((time, offset)) => Some(Timestamp::from_parts(time, offset)),
            None => None,
        }
    }

    /// Writes the timestamp as a commit holds it.
    pub fn write_to<W: WriteExt>(&self, writer: &mut W)
        requires
            old(writer).wf(),
        ensures
            final(writer).wf(),
            final(writer).mark() == old(writer).mark(),
            final(writer).written() == old(writer).written() + timestamp_bytes(*self),
    {
        let secs_per_min: u32 = 60;
        let mins_per_hour: u32 = 60;
        let secs_per_hour: u32 = secs_per_min * mins_per_hour;
        let hours = self.offset / secs_per_hour;
        let mins = (self.offset % secs_per_hour) / secs_per_min;
        let time_digits = to_decimal(self.time as i128);
        let hour_digits = to_decimal(hours as i128);
        let min_digits = to_decimal(mins as i128);
        let space: [u8; 1] = [32];
        let colon: [u8; 1] = [58];
        writer.write_all(time_digits.as_slice());
        writer.write_all(space.as_slice());
        writer.write_all(self.sign.as_bytes());
        writer.write_all(hour_digits.as_slice());
        writer.write_all(colon.as_slice());
        writer.write_all(min_digits.as_slice());
        assert(writer.written() =~= old(writer).written() + timestamp_bytes(*self));
    }
}

impl<'a> Signature<'a> {
    /// Writes the signature as a commit holds it: `name <email> timestamp`.
    fn write_to<W: WriteExt>(&self, writer: &mut W)
        requires
            old(writer).wf(),
        ensures
            final(writer).wf(),
            final(writer).mark() == old(writer).mark(),
            final(writer).written() == old(writer).written() + signature_bytes(*self),
    {
        let open: [u8; 2] = [32, 60];
        let close: [u8; 2] = [62, 32];
        writer.write_all(self.name);
        writer.write_all(open.as_slice());
        writer.write_all(self.email);
        writer.write_all(close.as_slice());
        self.timestamp.write_to(writer);
        assert(writer.written() =~= old(writer).written() + signature_bytes(*self));
    }
}

} // verus!

verus! {

/// Writing the first `i + 1` parent lines is writing the first `i`, then line `i`.
proof fn lemma_parent_lines_step(parents: Seq<hash::Hash>, i: int)
    requires
        0 <= i < parents.len(),
    ensures
        parent_lines(parents.take(i + 1)) == parent_lines(parents.take(i)) + parent_label()
            + hex_encode(parents[i].bytes()) + seq![10u8],
{
    assert(parents.take(i + 1).drop_last() =~= parents.take(i));
}

/// The lines of a prefix of the parents are no longer than those of all.
proof fn lemma_parent_lines_prefix_len(parents: Seq<hash::Hash>, i: int)
    requires
        0 <= i <= parents.len(),
    ensures
        parent_lines(parents.take(i)).len() <= parent_lines(parents).len(),
    decreases parents.len() - i,
{
    if i < parents.len() {
        lemma_parent_lines_step(parents, i);
        lemma_parent_lines_prefix_len(parents, i + 1);
    } else {
        assert(parents.take(i) =~= parents);
    }
}

/// The commit object for this tree, these parents, author, committer and
/// message, ready to be stored in `store`: its id is the id of the object,
/// and it is stored as the zlib stream of the object.
pub fn create(
    tree: hash::Hash,
    parents: &[hash::Hash],
    author: Signature<'_>,
    committer: Signature<'_>,
    message: &[u8],
    store: &ObjectStore,
) -> (res: LooseObject)
    ensures
        res.id.hash_kind() == store.hash_kind_spec(),
        res.id.bytes() == sha1(
            object_bytes(
                object::Kind::Commit,
                commit_content(tree, parents@, author, committer, message@),
            ),
        ),
        res.data@ == zlib_compress(
            object_bytes(
                object::Kind::Commit,
                commit_content(tree, parents@, author, committer, message@),
            ),
        ),
{
    let ghost total = commit_content(tree, parents@, author, committer, message@);
    let ghost head = tree_label() + hex_encode(tree.bytes()) + seq![10u8];
    let ghost tail = author_label() + signature_bytes(author) + seq![10u8] + committer_label()
        + signature_bytes(committer) + seq![10u8, 10u8] + message@;
    proof {
        assert(total =~= head + parent_lines(parents@) + tail);
        assert(object_bytes(object::Kind::Commit, total).len() >= total.len());
        lemma_parent_lines_prefix_len(parents@, parents@.len() as int);
        assert(parents@.take(parents@.len() as int) =~= parents@);
    }
    let tree_label_bytes: [u8; 5] = [116, 114, 101, 101, 32];
    let parent_label_bytes: [u8; 7] = [112, 97, 114, 101, 110, 116, 32];
    let author_label_bytes: [u8; 7] = [97, 117, 116, 104, 111, 114, 32];
    let committer_label_bytes: [u8; 10] = [99, 111, 109, 109, 105, 116, 116, 101, 114, 32];
    let newline: [u8; 1] = [10];
    let blank_line: [u8; 2] = [10, 10];
    let mut content: Vec<u8> = Vec::new();
    content.write_all(tree_label_bytes.as_slice());
    tree.write_hex_to(&mut content);
    content.write_all(newline.as_slice());
    proof {
        assert(content@ =~= head);
        assert(parents@.take(0) =~= Seq::<hash::Hash>::empty());
        assert(content@ =~= head + parent_lines(parents@.take(0)));
        assert(parent_label_bytes@ =~= parent_label());
        assert(newline@ =~= seq![10u8]);
    }
    let mut i: usize = 0;
    while i < parents.len()
        invariant
            i <= parents@.len(),
            total == head + parent_lines(parents@) + tail,
            parent_lines(parents@).len() + head.len() + tail.len() == total.len(),
            content@ == head + parent_lines(parents@.take(i as int)),
            parent_label_bytes@ == parent_label(),
            newline@ == seq![10u8],
        decreases parents@.len() - i,
    {
        proof {
            lemma_parent_lines_step(parents@, i as int);
            lemma_parent_lines_prefix_len(parents@, i + 1);
        }
        let ghost before = content@;
        content.write_all(parent_label_bytes.as_slice());
        let parent = &parents[i];
        assert(*parent == parents@[i as int]);
        parent.write_hex_to(&mut content);
        content.write_all(newline.as_slice());
        assert(content@ =~= before + parent_label() + hex_encode(parents@[i as int].bytes()) + seq![10u8]);
        assert(content@ =~= head + parent_lines(parents@.take(i + 1)));
        i = i + 1;
    }
    proof {
        assert(parents@.take(i as int) =~= parents@);
    }
    content.write_all(author_label_bytes.as_slice());
    author.write_to(&mut content);
    content.write_all(newline.as_slice());
    content.write_all(committer_label_bytes.as_slice());
    committer.write_to(&mut content);
    content.write_all(blank_line.as_slice());
    content.write_all(message);
    assert(content@ =~= total);
    store.encode(Object { kind: object::Kind::Commit, content: content.as_slice() })
}

/// An id written in hex takes forty bytes.
proof fn lemma_hex_id_len(h: hash::Hash)
    ensures
        hex_encode(h.bytes()).len() == 40,
{
    match h {
        hash::Hash::Sha1(a) => {
            assert(a@.len() == 20);
        },
    }
}

/// The parent lines are 48 bytes each, and the `k`-th holds `parent `, the
/// hex id of `parents[k]` and a newline.
proof fn lemma_parent_lines_at(parents: Seq<hash::Hash>, k: int)
    requires
        0 <= k < parents.len(),
    ensures
        parent_lines(parents).len() == 48 * parents.len(),
        parent_lines(parents).subrange(48 * k, 48 * k + 48) == parent_label() + hex_encode(
            parents[k].bytes(),
        ) + seq![10u8],
    decreases parents.len(),
{
    let n = parents.len() - 1;
    let last = parent_label() + hex_encode(parents.last().bytes()) + seq![10u8];
    lemma_hex_id_len(parents.last());
    if n > 0 {
        if k < n {
            lemma_parent_lines_at(parents.drop_last(), k);
        } else {
            lemma_parent_lines_at(parents.drop_last(), 0);
        }
    }
    let front = parent_lines(parents.drop_last());
    assert(front.len() == 48 * n);
    if k < n {
        assert(parents.drop_last()[k] == parents[k]);
        assert(parent_lines(parents).subrange(48 * k, 48 * k + 48) =~= front.subrange(
            48 * k,
            48 * k + 48,
        ));
    } else {
        assert(parent_lines(parents).subrange(48 * k, 48 * k + 48) =~= last);
    }
}

/// Where the lines of a commit stand in its content: the tree line is its
/// first 46 bytes; the `k`-th `parent ` line, for every `k`, is the 48
/// bytes after the tree line and the `k` parent lines before it, and holds
/// the hex id of `parents[k]`, so the parents come in the order given.
pub proof fn lemma_commit_parents(
    tree: hash::Hash,
    parents: Seq<hash::Hash>,
    author: Signature,
    committer: Signature,
    message: Seq<u8>,
    k: int,
)
    requires
        0 <= k < parents.len(),
    ensures
        commit_content(tree, parents, author, committer, message).subrange(0, 46) == tree_label()
            + hex_encode(tree.bytes()) + seq![10u8],
        commit_content(tree, parents, author, committer, message).subrange(46 + 48 * k, 94 + 48 * k)
            == parent_label() + hex_encode(parents[k].bytes()) + seq![10u8],
{
    let c = commit_content(tree, parents, author, committer, message);
    let head = tree_label() + hex_encode(tree.bytes()) + seq![10u8];
    let pl = parent_lines(parents);
    let tail = author_label() + signature_bytes(author) + seq![10u8] + committer_label()
        + signature_bytes(committer) + seq![10u8, 10u8] + message;
    lemma_hex_id_len(tree);
    lemma_parent_lines_at(parents, k);
    assert(c =~= head + pl + tail);
    assert(head.len() == 46);
    assert(c.subrange(0, 46) =~= head);
    assert(c.subrange(46 + 48 * k, 94 + 48 * k) =~= pl.subrange(48 * k, 48 * k + 48));
}

/// Where the signatures of a commit stand in its content: after the tree
/// line and the parent lines come `author `, the author's signature and a
/// newline, then `committer `, the committer's signature and a newline,
/// then an empty line, and the message up to the end.
pub proof fn lemma_commit_signatures(
    tree: hash::Hash,
    parents: Seq<hash::Hash>,
    author: Signature,
    committer: Signature,
    message: Seq<u8>,
)
    ensures
        ({
            let c = commit_content(tree, parents, author, committer, message);
            let a: int = 46 + 48 * parents.len() as int;
            let sa = signature_bytes(author).len() as int;
            let b = a + 7 + sa + 1;
            let sc = signature_bytes(committer).len() as int;
            &&& c.len() == b + 10 + sc + 2 + message.len()
            &&& c.subrange(a, a + 7) == author_label()
            &&& c.subrange(a + 7, a + 7 + sa) == signature_bytes(author)
            &&& c[a + 7 + sa] == 10u8
            &&& c.subrange(b, b + 10) == committer_label()
            &&& c.subrange(b + 10, b + 10 + sc) == signature_bytes(committer)
            &&& c.subrange(b + 10 + sc, b + 12 + sc) == seq![10u8, 10u8]
            &&& c.skip(b + 12 + sc) == message
        }),
{
    let c = commit_content(tree, parents, author, committer, message);
    let head = tree_label() + hex_encode(tree.bytes()) + seq![10u8];
    let pl = parent_lines(parents);
    let sa = signature_bytes(author);
    let sc = signature_bytes(committer);
    let tail = author_label() + sa + seq![10u8] + committer_label() + sc + seq![10u8, 10u8]
        + message;
    lemma_hex_id_len(tree);
    if parents.len() > 0 {
        lemma_parent_lines_at(parents, 0);
    }
    let a: int = 46 + 48 * parents.len() as int;
    let m = sa.len() as int;
    let n = sc.len() as int;
    let b = a + 8 + m;
    lemma_regroup(tree_label(), hex_encode(tree.bytes()), seq![10u8], pl, author_label(), sa,
        seq![10u8], committer_label(), sc, seq![10u8, 10u8], message);
    assert(c == (head + pl) + tail);
    assert((head + pl).len() == a);
    lemma_skip_concat(head + pl, tail);
    lemma_commit_tail(sa, sc, message);
    lemma_skip_parts(c, a, 0, 7);
    lemma_skip_parts(c, a, 7, 7 + m);
    lemma_skip_parts(c, a, 8 + m, 18 + m);
    lemma_skip_parts(c, a, 18 + m, 18 + m + n);
    lemma_skip_parts(c, a, 18 + m + n, 20 + m + n);
    assert(c[a + 7 + m] == c.skip(a)[7 + m]);
}

/// Eleven runs of bytes, one after another, are the first four followed by
/// the other seven.
proof fn lemma_regroup(
    s0: Seq<u8>,
    s1: Seq<u8>,
    s2: Seq<u8>,
    s3: Seq<u8>,
    s4: Seq<u8>,
    s5: Seq<u8>,
    s6: Seq<u8>,
    s7: Seq<u8>,
    s8: Seq<u8>,
    s9: Seq<u8>,
    s10: Seq<u8>,
)
    ensures
        s0 + s1 + s2 + s3 + s4 + s5 + s6 + s7 + s8 + s9 + s10 == (s0 + s1 + s2 + s3) + (s4 + s5 + s6
            + s7 + s8 + s9 + s10),
{
    assert(s0 + s1 + s2 + s3 + s4 + s5 + s6 + s7 + s8 + s9 + s10 =~= (s0 + s1 + s2 + s3) + (s4 + s5
        + s6 + s7 + s8 + s9 + s10));
}

/// What follows the first run of two is the second.
proof fn lemma_skip_concat(x: Seq<u8>, y: Seq<u8>)
    ensures
        (x + y).skip(x.len() as int) == y,
{
    assert((x + y).skip(x.len() as int) =~= y);
}

/// A part of what follows position `a` is a part of the whole.
proof fn lemma_skip_parts(c: Seq<u8>, a: int, i: int, j: int)
    requires
        0 <= a <= c.len(),
        0 <= i <= j <= c.len() - a,
    ensures
        c.subrange(a + i, a + j) == c.skip(a).subrange(i, j),
        c.skip(a + j) == c.skip(a).skip(j),
{
    assert(c.subrange(a + i, a + j) =~= c.skip(a).subrange(i, j));
    assert(c.skip(a + j) =~= c.skip(a).skip(j));
}

/// Where the pieces of the part of a commit after its parent lines stand.
proof fn lemma_commit_tail(sa: Seq<u8>, sc: Seq<u8>, message: Seq<u8>)
    ensures
        ({
            let tail = author_label() + sa + seq![10u8] + committer_label() + sc + seq![10u8, 10u8]
                + message;
            let m = sa.len() as int;
            let n = sc.len() as int;
            let b = 8 + m;
            &&& tail.len() == b + 10 + n + 2 + message.len()
            &&& tail.subrange(0, 7) == author_label()
            &&& tail.subrange(7, 7 + m) == sa
            &&& tail[7 + m] == 10u8
            &&& tail.subrange(b, b + 10) == committer_label()
            &&& tail.subrange(b + 10, b + 10 + n) == sc
            &&& tail.subrange(b + 10 + n, b + 12 + n) == seq![10u8, 10u8]
            &&& tail.skip(b + 12 + n) == message
        }),
{
    let tail = author_label() + sa + seq![10u8] + committer_label() + sc + seq![10u8, 10u8]
        + message;
    let m = sa.len() as int;
    let n = sc.len() as int;
    let b = 8 + m;
    assert(tail.subrange(0, 7) =~= author_label());
    assert(tail.subrange(7, 7 + m) =~= sa);
    assert(tail.subrange(b, b + 10) =~= committer_label());
    assert(tail.subrange(b + 10, b + 10 + n) =~= sc);
    assert(tail.subrange(b + 10 + n, b + 12 + n) =~= seq![10u8, 10u8]);
    assert(tail.skip(b + 12 + n) =~= message);
}

} // verus!
