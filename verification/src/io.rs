//! Byte sinks: the `WriteExt` trait, and writers that count or hash what
//! passes through them.
use vstd::prelude::*;
use crate::encoding::{u16_be, u32_be, u16_to_be_bytes, u32_to_be_bytes};
use crate::hash::{self, sha1};

verus! {

/// A sink of bytes that keeps everything written to it.
pub trait WriteExt: Sized {
    /// The bytes the sink holds, oldest first.
    spec fn written(&self) -> Seq<u8>;

    /// The number of bytes the sink held when this writer took it over;
    /// writing never changes it.
    spec fn mark(&self) -> nat;

    /// The writer's own state agrees with what it holds.
    spec fn wf(&self) -> bool;

    /// Appends all of `buf`.
    fn write_all(&mut self, buf: &[u8])
        requires
            old(self).wf(),
        ensures
            final(self).wf(),
            final(self).written() == old(self).written() + buf@,
            final(self).mark() == old(self).mark(),
            final(self).written().len() <= usize::MAX,
    ;

    /// Appends `value` as two big-endian bytes.
    fn write_u16(&mut self, value: u16)
        requires
            old(self).wf(),
        ensures
            final(self).wf(),
            final(self).written() == old(self).written() + u16_be(value),
            final(self).mark() == old(self).mark(),
            final(self).written().len() <= usize::MAX,
    {
        let bytes = u16_to_be_bytes(value);
        self.write_all(bytes.as_slice());
    }

    /// Appends `value` as four big-endian bytes.
    fn write_u32(&mut self, value: u32)
        requires
            old(self).wf(),
        ensures
            final(self).wf(),
            final(self).written() == old(self).written() + u32_be(value),
            final(self).mark() == old(self).mark(),
            final(self).written().len() <= usize::MAX,
    {
        let bytes = u32_to_be_bytes(value);
        self.write_all(bytes.as_slice());
    }
}

impl WriteExt for Vec<u8> {
    open spec fn written(&self) -> Seq<u8> {
        self@
    }

    open spec fn mark(&self) -> nat {
        0
    }

    open spec fn wf(&self) -> bool {
        true
    }

    fn write_all(&mut self, buf: &[u8]) {
        let ghost before = self@;
        self.extend_from_slice(buf);
        let _len = self.len();
        assert(self@ =~= before + buf@);
    }
}

/// A writer that counts the bytes written through it.
pub struct CountWriter<W: WriteExt> {
    inner: W,
    count: usize,
}

impl<W: WriteExt> CountWriter<W> {
    /// The sink this writer passes bytes on to.
    pub closed spec fn inner(self) -> W {
        self.inner
    }

    /// Starts counting the bytes written to `inner`, from zero.
    pub fn new(inner: W) -> (res: Self)
        requires
            inner.wf(),
        ensures
            res.wf(),
            res.inner() == inner,
            res.written() == inner.written(),
            res.mark() == inner.written().len(),
    {
        CountWriter { inner, count: 0 }
    }

    /// Gives back the sink, with everything written through this writer.
    pub fn into_inner(self) -> (res: W)
        ensures
            res == self.inner(),
            self.wf() ==> res.wf(),
            res.written() == self.written(),
    {
        self.inner
    }

    /// The number of bytes written through this writer.
    pub fn count(&self) -> (res: usize)
        requires
            self.wf(),
        ensures
            res == self.written().len() - self.mark(),
    {
        self.count
    }
}

impl<W: WriteExt> WriteExt for CountWriter<W> {
    closed spec fn written(&self) -> Seq<u8> {
        self.inner.written()
    }

    closed spec fn mark(&self) -> nat {
        (self.inner.written().len() - self.count) as nat
    }

    closed spec fn wf(&self) -> bool {
        self.inner.wf() && self.count <= self.inner.written().len()
    }

    fn write_all(&mut self, buf: &[u8]) {
        self.inner.write_all(buf);
        self.count = self.count + buf.len();
    }
}

/// A writer that computes the id of the bytes written through it.
pub struct HashWriter<W: WriteExt> {
    inner: W,
    hash: hash::Builder,
}

impl<W: WriteExt> HashWriter<W> {
    /// The sink this writer passes bytes on to.
    pub closed spec fn inner(self) -> W {
        self.inner
    }

    /// The kind of id being computed.
    pub closed spec fn hash_kind(self) -> hash::Kind {
        self.hash.hash_kind()
    }

    /// Starts hashing the bytes written to `inner`, from none.
    pub fn new(inner: W, hash_kind: hash::Kind) -> (res: Self)
        requires
            inner.wf(),
        ensures
            res.wf(),
            res.inner() == inner,
            res.hash_kind() == hash_kind,
            res.written() == inner.written(),
            res.mark() == inner.written().len(),
    {
        let res = HashWriter { inner, hash: hash::Builder::new(hash_kind) };
        assert(res.inner.written().skip(res.inner.written().len() as int) =~= res.hash.data());
        res
    }

    /// Gives back the sink, with everything written through this writer,
    /// and the id of those bytes.
    pub fn finish(self) -> (res: (W, hash::Hash))
        requires
            self.wf(),
        ensures
            res.0.wf(),
            res.0.written() == self.written(),
            res.1.hash_kind() == self.hash_kind(),
            res.1.bytes() == sha1(self.written().skip(self.mark() as int)),
    {
        (self.inner, self.hash.finish())
    }
}

impl<W: WriteExt> WriteExt for HashWriter<W> {
    closed spec fn written(&self) -> Seq<u8> {
        self.inner.written()
    }

    closed spec fn mark(&self) -> nat {
        (self.inner.written().len() - self.hash.data().len()) as nat
    }

    closed spec fn wf(&self) -> bool {
        &&& self.inner.wf()
        &&& self.hash.data().len() <= self.inner.written().len()
        &&& self.inner.written().skip(self.inner.written().len() - self.hash.data().len())
            == self.hash.data()
    }

    fn write_all(&mut self, buf: &[u8])
        ensures
            final(self).hash_kind() == old(self).hash_kind(),
    {
        let ghost old_written = self.inner.written();
        self.inner.write_all(buf);
        self.hash.write(buf);
        proof {
            let n = old_written.len() - old(self).hash.data().len();
            assert(self.inner.written().skip(n) =~= old_written.skip(n) + buf@);
        }
    }
}

/// The buffers of a run, one after another.
pub open spec fn joined(bufs: Seq<Seq<u8>>) -> Seq<u8>
    decreases bufs.len(),
{
    if bufs.len() == 0 {
        Seq::empty()
    } else {
        joined(bufs.drop_last()) + bufs.last()
    }
}

/// `states` are the successive states of a writer given the buffers `bufs`
/// in order, each step as `write_all` leaves it.
pub open spec fn is_write_run<W: WriteExt>(states: Seq<W>, bufs: Seq<Seq<u8>>) -> bool {
    &&& states.len() == bufs.len() + 1
    &&& forall|i: int|
        0 <= i < bufs.len() ==> states[i + 1].written() == states[i].written() + #[trigger] bufs[i]
            && states[i + 1].mark() == states[i].mark()
}

/// Writing a run of buffers through any writer leaves it holding what it
/// held before followed by the buffers in order, with its mark unchanged.
pub proof fn lemma_write_run<W: WriteExt>(states: Seq<W>, bufs: Seq<Seq<u8>>)
    requires
        is_write_run(states, bufs),
    ensures
        states.last().written() == states[0].written() + joined(bufs),
        states.last().mark() == states[0].mark(),
    decreases bufs.len(),
{
    if bufs.len() > 0 {
        let k = bufs.len() - 1;
        let prefix = states.take(states.len() - 1);
        assert(is_write_run(prefix, bufs.drop_last())) by {
            assert forall|i: int| 0 <= i < bufs.drop_last().len() implies prefix[i + 1].written()
                == prefix[i].written() + #[trigger] bufs.drop_last()[i] && prefix[i + 1].mark()
                == prefix[i].mark() by {
                assert(bufs.drop_last()[i] == bufs[i]);
            }
        }
        lemma_write_run(prefix, bufs.drop_last());
        assert(bufs[k] == bufs.last());
        assert(states.last().written() =~= states[0].written() + joined(bufs));
    }
}

/// A `CountWriter` started on a sink and then given a run of buffers counts
/// their total length, and its sink holds what it held before followed by
/// the buffers in order.
pub proof fn lemma_count_run<W: WriteExt>(states: Seq<CountWriter<W>>, bufs: Seq<Seq<u8>>)
    requires
        is_write_run(states, bufs),
        states[0].mark() == states[0].written().len(),
    ensures
        states.last().written().len() - states.last().mark() == joined(bufs).len(),
        states.last().written() == states[0].written() + joined(bufs),
{
    lemma_write_run(states, bufs);
}

/// A `HashWriter` started on a sink and then given a run of buffers hashes
/// exactly those buffers, in order, and its sink holds what it held before
/// followed by them.
pub proof fn lemma_hash_run<W: WriteExt>(states: Seq<HashWriter<W>>, bufs: Seq<Seq<u8>>)
    requires
        is_write_run(states, bufs),
        states[0].mark() == states[0].written().len(),
    ensures
        states.last().written().skip(states.last().mark() as int) == joined(bufs),
        sha1(states.last().written().skip(states.last().mark() as int)) == sha1(joined(bufs)),
        states.last().written() == states[0].written() + joined(bufs),
{
    lemma_write_run(states, bufs);
    assert(states.last().written().skip(states.last().mark() as int) =~= joined(bufs));
}

} // verus!
