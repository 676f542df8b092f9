//! Tree objects: the directories of a commit, built from the index.
use vstd::prelude::*;
use crate::encoding::{octal_digits, to_octal};
use crate::hash::{self, sha1};
use crate::index::{EntryModel, Index};
use crate::io::WriteExt;
use crate::object::{self, object_bytes, Object};
use crate::object_store::{zlib_compress, LooseObject, ObjectStore};
use crate::reader::{find_byte, holds_byte, is_first_index_of};

verus! {

/// The mode of an entry of a tree.
#[derive(Clone, Copy, Debug, PartialEq, Eq, Structural)]
pub struct Mode(pub u16);

/// The kinds of entries a tree holds.
#[derive(Clone, Copy, Debug, PartialEq, Eq, Structural)]
pub enum EntryKind {
    Blob,
    Tree,
}

/// The mode of a kind of entry: `0o100644` for a file, `0o040000` for a
/// directory.
pub open spec fn kind_mode(kind: EntryKind) -> u16 {
    match kind {
        EntryKind::Blob => 0o100644,
        EntryKind::Tree => 0o040000,
    }
}

impl From<Mode> for u16 {
    fn from(mode: Mode) -> (res: u16) {
        mode.0
    }
}

impl vstd::std_specs::convert::FromSpecImpl<Mode> for u16 {
    open spec fn obeys_from_spec() -> bool {
        true
    }

    open spec fn from_spec(mode: Mode) -> u16 {
        mode.0
    }
}

impl From<EntryKind> for Mode {
    fn from(kind: EntryKind) -> (res: Mode) {
        match kind {
            EntryKind::Blob => Mode(0o100644),
            EntryKind::Tree => Mode(0o040000),
        }
    }
}

impl vstd::std_specs::convert::FromSpecImpl<EntryKind> for Mode {
    open spec fn obeys_from_spec() -> bool {
        true
    }

    open spec fn from_spec(kind: EntryKind) -> Mode {
        Mode(kind_mode(kind))
    }
}

/// An entry of a tree: a mode, a name and the id of what it names.
#[derive(Debug)]
pub struct Entry<'a> {
    pub mode: Mode,
    pub file_name: &'a [u8],
    pub oid: hash::Hash,
}

/// An entry as a tree holds it: the mode in octal, a space, the name, a
/// zero byte and the bytes of the id.
pub open spec fn tree_line(mode: u16, file_name: Seq<u8>, oid: Seq<u8>) -> Seq<u8> {
    octal_digits(mode as nat) + seq![32u8] + file_name + seq![0u8] + oid
}

impl<'a> Entry<'a> {
    /// Writes the entry as a tree holds it.
    pub fn write_to<W: WriteExt>(&self, writer: &mut W)
        requires
            old(writer).wf(),
        ensures
            final(writer).wf(),
            final(writer).mark() == old(writer).mark(),
            final(writer).written() == old(writer).written() + tree_line(
                self.mode.0,
                self.file_name@,
                self.oid.bytes(),
            ),
    {
        let digits = to_octal(u16::from(self.mode) as u32);
        let space: [u8; 1] = [32];
        let nul: [u8; 1] = [0];
        writer.write_all(digits.as_slice());
        writer.write_all(space.as_slice());
        writer.write_all(self.file_name);
        writer.write_all(nul.as_slice());
        writer.write_all(self.oid.as_bytes());
        assert(writer.written() =~= old(writer).written() + tree_line(
            self.mode.0,
            self.file_name@,
            self.oid.bytes(),
        ));
    }
}

/// Gathers the entries of a tree.
#[derive(Debug)]
pub struct Writer {
    content: Vec<u8>,
}

impl Writer {
    /// The entries written so far, as the tree holds them.
    pub closed spec fn content(&self) -> Seq<u8> {
        self.content@
    }

    /// A writer with no entry yet.
    pub fn new() -> (res: Writer)
        ensures
            res.content() == Seq::<u8>::empty(),
    {
        Writer { content: Vec::new() }
    }

    /// Adds an entry.
    pub fn write_entry(&mut self, entry: Entry<'_>)
        ensures
            final(self).content() == old(self).content() + tree_line(
                entry.mode.0,
                entry.file_name@,
                entry.oid.bytes(),
            ),
    {
        entry.write_to(&mut self.content);
    }

    /// The tree object, ready to be stored in `store`: its id is the id of
    /// the object, and it is stored as the zlib stream of the object.
    pub fn finish(self, store: &ObjectStore) -> (res: LooseObject)
        ensures
            res.id.hash_kind() == store.hash_kind_spec(),
            res.id.bytes() == sha1(object_bytes(object::Kind::Tree, self.content())),
            res.data@ == zlib_compress(object_bytes(object::Kind::Tree, self.content())),
    {
        store.encode(Object { kind: object::Kind::Tree, content: self.content.as_slice() })
    }
}

} // verus!

verus! {

/// `s` begins with `prefix`.
pub open spec fn starts_with(s: Seq<u8>, prefix: Seq<u8>) -> bool {
    prefix.len() <= s.len() && s.take(prefix.len() as int) == prefix
}

/// The first position of `byte` in `s`, where it occurs.
pub open spec fn first_index(s: Seq<u8>, byte: u8) -> int {
    choose|i: int| is_first_index_of(s, byte, i)
}

/// Where a byte occurs, it has a first position, and only one.
pub proof fn lemma_first_index(s: Seq<u8>, byte: u8, i: int)
    requires
        holds_byte(s, byte) || is_first_index_of(s, byte, i),
    ensures
        is_first_index_of(s, byte, first_index(s, byte)),
        is_first_index_of(s, byte, i) ==> first_index(s, byte) == i,
    decreases s.len(),
{
    if !is_first_index_of(s, byte, first_index(s, byte)) {
        let k = choose|k: int| 0 <= k < s.len() && s[k] == byte;
        lemma_min_index_exists(s, byte, k);
    }
    let f = first_index(s, byte);
    if is_first_index_of(s, byte, i) {
        assert(!(f < i) && !(i < f));
    }
}

proof fn lemma_min_index_exists(s: Seq<u8>, byte: u8, k: int)
    requires
        0 <= k < s.len(),
        s[k] == byte,
    ensures
        exists|i: int| is_first_index_of(s, byte, i),
    decreases k,
{
    if exists|j: int| 0 <= j < k && s[j] == byte {
        let j = choose|j: int| 0 <= j < k && s[j] == byte;
        lemma_min_index_exists(s, byte, j);
    } else {
        assert(is_first_index_of(s, byte, k));
    }
}

/// What building the tree of directory `dir` gives, from entry `idx` on:
/// the id of the tree, the objects written (those of the directories inside
/// it first, each after those inside it), and the index of the first entry
/// not taken, counting no further than the end; or `Stuck`, where the
/// building would fail to finish.
pub enum TreeBuild {
    Done { id: Seq<u8>, objects: Seq<Seq<u8>>, next: int },
    Stuck,
}

/// How far the name of entry `idx` reaches past `dir`.
pub open spec fn tree_measure(es: Seq<EntryModel>, dir: Seq<u8>, idx: int) -> int {
    if 0 <= idx < es.len() {
        es[idx].path.len() - dir.len()
    } else {
        0
    }
}

/// The tree of the entries gathered so far in `acc` is done: it is written
/// as the last object, and its id is the id of that object.
pub open spec fn tree_done(acc: Seq<u8>, objects: Seq<Seq<u8>>, idx: int) -> TreeBuild {
    TreeBuild::Done {
        id: sha1(object_bytes(object::Kind::Tree, acc)),
        objects: objects.push(object_bytes(object::Kind::Tree, acc)),
        next: idx,
    }
}

/// Building the tree of `dir` from entry `idx` on, with the entries
/// gathered so far in `acc` and the objects written so far in `objects`.
/// Entries belong to `dir` while their path starts with it and a `/`
/// (every entry, for the top directory); the first that does not ends it.
/// An entry with another `/` past that is the first of a directory inside,
/// built from that entry on; after it, building goes on one entry past the
/// one it ended at. Any other entry is a file of `dir`. Building is stuck
/// where an entry's path is `dir` itself (reading past its end), or where a
/// path starts with `/` at the top (building the same directory forever).
pub open spec fn tree_loop(
    es: Seq<EntryModel>,
    dir: Seq<u8>,
    idx: int,
    acc: Seq<u8>,
    objects: Seq<Seq<u8>>,
) -> TreeBuild
    decreases es.len() - idx, tree_measure(es, dir, idx),
{
    if idx < 0 || idx > es.len() {
        TreeBuild::Stuck
    } else if idx == es.len() || !starts_with(es[idx].path, dir) {
        tree_done(acc, objects, idx)
    } else {
        let path = es[idx].path;
        if dir.len() > 0 && path.len() == dir.len() {
            TreeBuild::Stuck
        } else if dir.len() > 0 && path[dir.len() as int] != 47 {
            tree_done(acc, objects, idx)
        } else {
            let start: int = if dir.len() == 0 { 0 } else { dir.len() + 1int };
            let rest = path.skip(start);
            if holds_byte(rest, 47) {
                let end = start + first_index(rest, 47);
                if end <= dir.len() || end > path.len() {
                    TreeBuild::Stuck
                } else {
                    match tree_loop(es, path.take(end), idx, Seq::empty(), objects) {
                        TreeBuild::Stuck => TreeBuild::Stuck,
                        TreeBuild::Done { id, objects: inner, next } => {
                            let after = if next >= es.len() { es.len() as int } else { next + 1 };
                            if after <= idx {
                                TreeBuild::Stuck
                            } else {
                                tree_loop(
                                    es,
                                    dir,
                                    after,
                                    acc + tree_line(
                                        kind_mode(EntryKind::Tree),
                                        path.subrange(start, end),
                                        id,
                                    ),
                                    inner,
                                )
                            }
                        },
                    }
                }
            } else {
                tree_loop(
                    es,
                    dir,
                    idx + 1,
                    acc + tree_line(kind_mode(EntryKind::Blob), rest, es[idx].oid.bytes()),
                    objects,
                )
            }
        }
    }
}

/// Building goes on from no earlier than where it started, and stops no
/// later than the end.
pub proof fn lemma_tree_loop_next(
    es: Seq<EntryModel>,
    dir: Seq<u8>,
    idx: int,
    acc: Seq<u8>,
    objects: Seq<Seq<u8>>,
)
    ensures
        tree_loop(es, dir, idx, acc, objects) matches TreeBuild::Done { next, .. } ==> idx <= next
            <= es.len(),
    decreases es.len() - idx, tree_measure(es, dir, idx),
{
    if idx < 0 || idx > es.len() {
    } else if idx == es.len() || !starts_with(es[idx].path, dir) {
    } else {
        let path = es[idx].path;
        if dir.len() > 0 && path.len() == dir.len() {
        } else if dir.len() > 0 && path[dir.len() as int] != 47 {
        } else {
            let start: int = if dir.len() == 0 { 0 } else { dir.len() + 1int };
            let rest = path.skip(start);
            if holds_byte(rest, 47) {
                let end = start + first_index(rest, 47);
                if end <= dir.len() || end > path.len() {
                } else {
                    lemma_tree_loop_next(es, path.take(end), idx, Seq::empty(), objects);
                    match tree_loop(es, path.take(end), idx, Seq::empty(), objects) {
                        TreeBuild::Stuck => {},
                        TreeBuild::Done { id, objects: inner, next } => {
                            let after = if next >= es.len() { es.len() as int } else { next + 1 };
                            if after > idx {
                                lemma_tree_loop_next(
                                    es,
                                    dir,
                                    after,
                                    acc + tree_line(
                                        kind_mode(EntryKind::Tree),
                                        path.subrange(start, end),
                                        id,
                                    ),
                                    inner,
                                );
                            }
                        },
                    }
                }
            } else {
                lemma_tree_loop_next(
                    es,
                    dir,
                    idx + 1,
                    acc + tree_line(kind_mode(EntryKind::Blob), rest, es[idx].oid.bytes()),
                    objects,
                );
            }
        }
    }
}

/// Building only adds objects, and the tree it gives is the last object
/// it adds: its id is the id of that object.
pub proof fn lemma_tree_loop_root_last(
    es: Seq<EntryModel>,
    dir: Seq<u8>,
    idx: int,
    acc: Seq<u8>,
    objects: Seq<Seq<u8>>,
)
    ensures
        tree_loop(es, dir, idx, acc, objects) matches TreeBuild::Done { id, objects: all, .. } ==> {
            &&& all.len() > objects.len()
            &&& all.take(objects.len() as int) == objects
            &&& id == sha1(all.last())
        },
    decreases es.len() - idx, tree_measure(es, dir, idx),
{
    if idx < 0 || idx > es.len() {
    } else if idx == es.len() || !starts_with(es[idx].path, dir) {
        assert(objects.push(object_bytes(object::Kind::Tree, acc)).take(objects.len() as int) =~= objects);
    } else {
        let path = es[idx].path;
        if dir.len() > 0 && path.len() == dir.len() {
        } else if dir.len() > 0 && path[dir.len() as int] != 47 {
            assert(objects.push(object_bytes(object::Kind::Tree, acc)).take(objects.len() as int) =~= objects);
        } else {
            let start: int = if dir.len() == 0 { 0 } else { dir.len() + 1int };
            let rest = path.skip(start);
            if holds_byte(rest, 47) {
                let end = start + first_index(rest, 47);
                if end <= dir.len() || end > path.len() {
                } else {
                    lemma_tree_loop_root_last(es, path.take(end), idx, Seq::empty(), objects);
                    match tree_loop(es, path.take(end), idx, Seq::empty(), objects) {
                        TreeBuild::Stuck => {},
                        TreeBuild::Done { id, objects: inner, next } => {
                            let after = if next >= es.len() { es.len() as int } else { next + 1 };
                            if after > idx {
                                let acc2 = acc + tree_line(
                                    kind_mode(EntryKind::Tree),
                                    path.subrange(start, end),
                                    id,
                                );
                                lemma_tree_loop_root_last(es, dir, after, acc2, inner);
                                match tree_loop(es, dir, after, acc2, inner) {
                                    TreeBuild::Stuck => {},
                                    TreeBuild::Done { objects: all, .. } => {
                                        assert(all.take(objects.len() as int) =~= all.take(
                                            inner.len() as int,
                                        ).take(objects.len() as int));
                                    },
                                }
                            }
                        },
                    }
                }
            } else {
                lemma_tree_loop_root_last(
                    es,
                    dir,
                    idx + 1,
                    acc + tree_line(kind_mode(EntryKind::Blob), rest, es[idx].oid.bytes()),
                    objects,
                );
            }
        }
    }
}

/// The bytes of a run of tree entries, each a mode, a name and an id.
pub open spec fn tree_lines(ls: Seq<(u16, Seq<u8>, Seq<u8>)>) -> Seq<u8>
    decreases ls.len(),
{
    if ls.len() == 0 {
        Seq::empty()
    } else {
        tree_lines(ls.drop_last()) + tree_line(ls.last().0, ls.last().1, ls.last().2)
    }
}

/// What the paths inside directory `dir` begin with: `dir` and a `/`, or
/// nothing for the top directory.
pub open spec fn dir_prefix(dir: Seq<u8>) -> Seq<u8> {
    if dir.len() == 0 {
        Seq::empty()
    } else {
        dir.push(47u8)
    }
}

/// `line` is the entry that an index entry with path `path` and id `oid`
/// gives the tree of `dir`: `path` begins with the prefix of `dir` and the
/// line's name; where the path ends there, the line is a file with the
/// entry's id, and where it goes on with a `/`, the line is a directory.
pub open spec fn entry_line(path: Seq<u8>, oid: Seq<u8>, dir: Seq<u8>, line: (u16, Seq<u8>, Seq<u8>)) -> bool {
    let k = (dir_prefix(dir).len() + line.1.len()) as int;
    &&& starts_with(path, dir_prefix(dir) + line.1)
    &&& if path.len() == k {
        line.0 == kind_mode(EntryKind::Blob) && line.2 == oid
    } else {
        path[k] == 47 && line.0 == kind_mode(EntryKind::Tree)
    }
}

/// `line` is named by one path component, holding no `/`, and is the entry
/// that some entry of `es` gives the tree of `dir`.
pub open spec fn line_in_dir(es: Seq<EntryModel>, dir: Seq<u8>, line: (u16, Seq<u8>, Seq<u8>)) -> bool {
    &&& !holds_byte(line.1, 47)
    &&& exists|j: int|
        0 <= j < es.len() && #[trigger] entry_line(es[j].path, es[j].oid.bytes(), dir, line)
}

/// Each entry of `ls` is one that the entries of `es` give the tree of `dir`.
pub open spec fn lines_of_dir(ls: Seq<(u16, Seq<u8>, Seq<u8>)>, es: Seq<EntryModel>, dir: Seq<u8>) -> bool {
    forall|i: int| 0 <= i < ls.len() ==> line_in_dir(es, dir, #[trigger] ls[i])
}

/// `o` is the tree object of some directory of the paths of `es`, each of
/// its entries one that an entry of `es` gives that directory.
pub open spec fn is_dir_tree(o: Seq<u8>, es: Seq<EntryModel>) -> bool {
    exists|dir: Seq<u8>, ls: Seq<(u16, Seq<u8>, Seq<u8>)>|
        #[trigger] lines_of_dir(ls, es, dir) && o == object_bytes(object::Kind::Tree, tree_lines(ls))
}

/// Building the tree of `dir` writes only trees of directories of the
/// index, each entry of each one that an index entry gives that directory,
/// and the tree it gives, written last, is one of `dir`.
proof fn lemma_tree_loop_names(
    es: Seq<EntryModel>,
    dir: Seq<u8>,
    idx: int,
    ls0: Seq<(u16, Seq<u8>, Seq<u8>)>,
    objects: Seq<Seq<u8>>,
) -> (ls: Seq<(u16, Seq<u8>, Seq<u8>)>)
    requires
        lines_of_dir(ls0, es, dir),
        forall|k: int| 0 <= k < objects.len() ==> is_dir_tree(#[trigger] objects[k], es),
    ensures
        tree_loop(es, dir, idx, tree_lines(ls0), objects) matches TreeBuild::Done { objects: all, .. }
            ==> {
            &&& forall|k: int| 0 <= k < all.len() ==> is_dir_tree(#[trigger] all[k], es)
            &&& all.len() > 0
            &&& all.last() == object_bytes(object::Kind::Tree, tree_lines(ls))
            &&& lines_of_dir(ls, es, dir)
        },
    decreases es.len() - idx, tree_measure(es, dir, idx),
{
    let acc = tree_lines(ls0);
    let done = idx == es.len() || (0 <= idx < es.len() && (!starts_with(es[idx].path, dir) || (
    dir.len() > 0 && es[idx].path.len() != dir.len() && es[idx].path[dir.len() as int] != 47)));
    if idx < 0 || idx > es.len() {
        ls0
    } else if done {
        let all = objects.push(object_bytes(object::Kind::Tree, acc));
        assert(lines_of_dir(ls0, es, dir));
        assert forall|k: int| 0 <= k < all.len() implies is_dir_tree(#[trigger] all[k], es) by {
            if k < objects.len() {
                assert(all[k] == objects[k]);
            }
        }
        ls0
    } else {
        let path = es[idx].path;
        if dir.len() > 0 && path.len() == dir.len() {
            ls0
        } else {
            let start: int = if dir.len() == 0 { 0 } else { dir.len() + 1int };
            let rest = path.skip(start);
            assert(path.take(start) =~= dir_prefix(dir)) by {
                if dir.len() > 0 {
                    assert(path.take(dir.len() as int) == dir);
                }
            }
            if holds_byte(rest, 47) {
                lemma_first_index(rest, 47, 0);
                let end = start + first_index(rest, 47);
                if end <= dir.len() || end > path.len() {
                    ls0
                } else {
                    let sub = path.take(end);
                    assert(tree_lines(Seq::empty()) == Seq::<u8>::empty());
                    let lsi = lemma_tree_loop_names(es, sub, idx, Seq::empty(), objects);
                    match tree_loop(es, sub, idx, Seq::empty(), objects) {
                        TreeBuild::Stuck => ls0,
                        TreeBuild::Done { id, objects: inner, next } => {
                            let after = if next >= es.len() { es.len() as int } else { next + 1 };
                            if after <= idx {
                                ls0
                            } else {
                                let q = path.subrange(start, end);
                                let line = (kind_mode(EntryKind::Tree), q, id);
                                let ls1 = ls0.push(line);
                                assert(ls1.drop_last() =~= ls0);
                                assert(tree_lines(ls1) == acc + tree_line(
                                    kind_mode(EntryKind::Tree),
                                    q,
                                    id,
                                ));
                                assert(!holds_byte(q, 47)) by {
                                    if holds_byte(q, 47) {
                                        let w = choose|w: int| 0 <= w < q.len() && q[w] == 47;
                                        assert(rest[w] == q[w]);
                                    }
                                }
                                assert(entry_line(path, es[idx].oid.bytes(), dir, line)) by {
                                    assert(dir_prefix(dir) + q =~= path.take(end));
                                    assert(path[end] == rest[end - start]);
                                }
                                assert(line_in_dir(es, dir, line));
                                assert(lines_of_dir(ls1, es, dir)) by {
                                    assert forall|i: int| 0 <= i < ls1.len() implies line_in_dir(
                                        es,
                                        dir,
                                        #[trigger] ls1[i],
                                    ) by {
                                        if i < ls0.len() {
                                            assert(ls1[i] == ls0[i]);
                                        }
                                    }
                                }
                                lemma_tree_loop_names(es, dir, after, ls1, inner)
                            }
                        },
                    }
                }
            } else {
                let line = (kind_mode(EntryKind::Blob), rest, es[idx].oid.bytes());
                let ls1 = ls0.push(line);
                assert(ls1.drop_last() =~= ls0);
                assert(tree_lines(ls1) == acc + tree_line(
                    kind_mode(EntryKind::Blob),
                    rest,
                    es[idx].oid.bytes(),
                ));
                assert(entry_line(path, es[idx].oid.bytes(), dir, line)) by {
                    assert(dir_prefix(dir) + rest =~= path);
                    assert(path.take(path.len() as int) =~= path);
                }
                assert(line_in_dir(es, dir, line));
                assert(lines_of_dir(ls1, es, dir)) by {
                    assert forall|i: int| 0 <= i < ls1.len() implies line_in_dir(
                        es,
                        dir,
                        #[trigger] ls1[i],
                    ) by {
                        if i < ls0.len() {
                            assert(ls1[i] == ls0[i]);
                        }
                    }
                }
                lemma_tree_loop_names(es, dir, idx + 1, ls1, objects)
            }
        }
    }
}

/// Every tree that building from an index writes is the tree of one
/// directory of the index, and names each of its entries by a single path
/// component: the bytes that follow the directory and a `/` (follow nothing,
/// at the top) in the path of some index entry, up to the next `/` or the
/// end of the path, holding no `/`. Where that path ends there, the tree
/// entry is a file (mode `100644`) with the index entry's id; where it goes
/// on with a `/`, it is a directory (mode `40000`). The top tree, written
/// last, is a tree of the top directory.
pub proof fn lemma_tree_names(es: Seq<EntryModel>)
    ensures
        tree_loop(es, Seq::empty(), 0, Seq::empty(), Seq::empty()) matches TreeBuild::Done {
            objects,
            ..
        } ==> {
            &&& forall|k: int| 0 <= k < objects.len() ==> is_dir_tree(#[trigger] objects[k], es)
            &&& exists|ls: Seq<(u16, Seq<u8>, Seq<u8>)>|
                #[trigger] lines_of_dir(ls, es, Seq::empty()) && objects.last() == object_bytes(
                    object::Kind::Tree,
                    tree_lines(ls),
                )
        },
{
    assert(tree_lines(Seq::empty()) == Seq::<u8>::empty());
    let ls = lemma_tree_loop_names(es, Seq::empty(), 0, Seq::empty(), Seq::empty());
    if tree_loop(es, Seq::empty(), 0, Seq::empty(), Seq::empty()) is Done {
        assert(lines_of_dir(ls, es, Seq::empty()));
    }
}

/// The stored objects `stored` are the objects `objects`, compressed, under
/// ids of kind `kind`.
pub open spec fn stores(stored: Seq<LooseObject>, objects: Seq<Seq<u8>>, kind: hash::Kind) -> bool {
    &&& stored.len() == objects.len()
    &&& forall|k: int|
        0 <= k < stored.len() ==> {
            &&& (#[trigger] stored[k]).id.hash_kind() == kind
            &&& stored[k].id.bytes() == sha1(objects[k])
            &&& stored[k].data@ == zlib_compress(objects[k])
        }
}

/// Whether `s` begins with `prefix`.
fn starts_with_bytes(s: &[u8], prefix: &[u8]) -> (res: bool)
    ensures
        res == starts_with(s@, prefix@),
{
    if s.len() < prefix.len() {
        return false;
    }
    let mut i: usize = 0;
    while i < prefix.len()
        invariant
            prefix@.len() <= s@.len(),
            i <= prefix@.len(),
            forall|j: int| 0 <= j < i ==> s@[j] == prefix@[j],
        decreases prefix@.len() - i,
    {
        if s[i] != prefix[i] {
            assert(s@.take(prefix@.len() as int)[i as int] != prefix@[i as int]);
            return false;
        }
        i = i + 1;
    }
    assert(s@.take(prefix@.len() as int) =~= prefix@);
    true
}

} // verus!

verus! {

/// The entries of an index, as values.
pub open spec fn entry_models(entries: Seq<crate::index::Entry>) -> Seq<EntryModel> {
    entries.map_values(|e: crate::index::Entry| e@)
}

/// Builds the tree of `dir_name` from entry `*entry_index` on, adding the
/// objects it writes to `objects`; gives `None` where building is stuck.
fn build_tree(
    entries: &[crate::index::Entry],
    store: &ObjectStore,
    dir_name: &[u8],
    entry_index: &mut usize,
    objects: &mut Vec<LooseObject>,
    Ghost(models): Ghost<Seq<Seq<u8>>>,
) -> (res: Option<hash::Hash>)
    requires
        *old(entry_index) <= entries@.len(),
        stores(old(objects)@, models, store.hash_kind_spec()),
    ensures
        match tree_loop(
            entry_models(entries@),
            dir_name@,
            *old(entry_index) as int,
            Seq::empty(),
            models,
        ) {
            TreeBuild::Done { id, objects: ms, next } => res matches Some(h) && h.bytes() == id
                && h.hash_kind() == store.hash_kind_spec() && stores(
                final(objects)@,
                ms,
                store.hash_kind_spec(),
            ) && *final(entry_index) == next,
            TreeBuild::Stuck => res is None,
        },
    decreases entries@.len() - *old(entry_index), tree_measure(
        entry_models(entries@),
        dir_name@,
        *old(entry_index) as int,
    ),
{
    let ghost es = entry_models(entries@);
    let ghost dir = dir_name@;
    let ghost kind = store.hash_kind_spec();
    let ghost target = tree_loop(es, dir, *entry_index as int, Seq::empty(), models);
    let mut writer = Writer::new();
    let ghost mut ms = models;
    let len = entries.len();
    loop
        invariant_except_break
            len == entries@.len(),
            es == entry_models(entries@),
            dir == dir_name@,
            kind == store.hash_kind_spec(),
            *entry_index <= len,
            *old(entry_index) <= *entry_index,
            target == tree_loop(
                entry_models(entries@),
                dir_name@,
                *old(entry_index) as int,
                Seq::empty(),
                models,
            ),
            stores(objects@, ms, kind),
            tree_loop(es, dir, *entry_index as int, writer.content(), ms) == target,
        ensures
            target == tree_loop(
                entry_models(entries@),
                dir_name@,
                *old(entry_index) as int,
                Seq::empty(),
                models,
            ),
            stores(objects@, ms, kind),
            tree_done(writer.content(), ms, *entry_index as int) == target,
        decreases len - *entry_index,
    {
        let i = *entry_index;
        if i >= len {
            break;
        }
        let entry = &entries[i];
        assert(entry@ == es[i as int]);
        let path = entry.path.as_slice();
        assert(es[i as int].path == path@);
        if !starts_with_bytes(path, dir_name) {
            break;
        }
        let file_name_start = if dir_name.len() == 0 {
            0
        } else if path.len() == dir_name.len() {
            assert(tree_loop(es, dir, i as int, writer.content(), ms) == TreeBuild::Stuck);
            return None;
        } else if path[dir_name.len()] == 47 {
            dir_name.len() + 1
        } else {
            break;
        };
        let rest = vstd::slice::slice_subrange(path, file_name_start, path.len());
        match find_byte(rest, 47) {
            Some(offset) => {
                proof {
                    lemma_first_index(rest@, 47, offset as int);
                }
                let file_name_end = file_name_start + offset;
                if file_name_end <= dir_name.len() {
                    assert(tree_loop(es, dir, i as int, writer.content(), ms) == TreeBuild::Stuck);
                    return None;
                }
                let file_name = vstd::slice::slice_subrange(path, file_name_start, file_name_end);
                let sub_dir = vstd::slice::slice_subrange(path, 0, file_name_end);
                assert(sub_dir@ == path@.take(file_name_end as int));
                let ghost inner = tree_loop(es, sub_dir@, i as int, Seq::empty(), ms);
                proof {
                    lemma_tree_loop_next(es, sub_dir@, i as int, Seq::empty(), ms);
                }
                let oid = match build_tree(entries, store, sub_dir, entry_index, objects, Ghost(ms)) {
                    Some(oid) => oid,
                    None => return None,
                };
                proof {
                    ms = match inner {
                        TreeBuild::Done { objects: inner_objects, .. } => inner_objects,
                        TreeBuild::Stuck => ms,
                    };
                }
                writer.write_entry(Entry { mode: Mode::from(EntryKind::Tree), file_name, oid });
                if *entry_index < len {
                    *entry_index = *entry_index + 1;
                }
            },
            None => {
                writer.write_entry(
                    Entry { mode: Mode::from(EntryKind::Blob), file_name: rest, oid: entry.oid },
                );
                *entry_index = i + 1;
            },
        }
    }
    let tree = writer.finish(store);
    let id = tree.id;
    objects.push(tree);
    proof {
        let ghost obj = object_bytes(object::Kind::Tree, writer.content());
        assert forall|k: int| 0 <= k < objects@.len() implies {
            &&& (#[trigger] objects@[k]).id.hash_kind() == kind
            &&& objects@[k].id.bytes() == sha1(ms.push(obj)[k])
            &&& objects@[k].data@ == zlib_compress(ms.push(obj)[k])
        } by {}
    }
    Some(id)
}

/// The tree of the index's entries, with the trees inside it: where
/// building finishes, the id of the top tree and the tree objects to store,
/// each directory's after those of the directories inside it; `None` where
/// building is stuck.
pub fn try_from_index(index: &Index, store: &ObjectStore) -> (res: Option<(hash::Hash, Vec<LooseObject>)>)
    ensures
        match tree_loop(index@.entries, Seq::empty(), 0, Seq::empty(), Seq::empty()) {
            TreeBuild::Done { id, objects, .. } => res matches Some((h, stored)) && h.bytes() == id
                && h.hash_kind() == store.hash_kind_spec() && stores(
                stored@,
                objects,
                store.hash_kind_spec(),
            ),
            TreeBuild::Stuck => res is None,
        },
{
    let entries = index.entries();
    proof {
        assert(entry_models(entries@) == index@.entries);
    }
    let root: [u8; 0] = [];
    assert(root@ =~= Seq::<u8>::empty());
    let mut entry_index: usize = 0;
    let mut objects: Vec<LooseObject> = Vec::new();
    match build_tree(
        entries,
        store,
        root.as_slice(),
        &mut entry_index,
        &mut objects,
        Ghost(Seq::empty()),
    ) {
        Some(id) => Some((id, objects)),
        None => None,
    }
}

/// The tree of the index's entries, with the trees inside it: the id of the
/// top tree and the tree objects to store, each directory's after those of
/// the directories inside it. Building must finish.
pub fn from_index(index: &Index, store: &ObjectStore) -> (res: (hash::Hash, Vec<LooseObject>))
    requires
        tree_loop(index@.entries, Seq::empty(), 0, Seq::empty(), Seq::empty()) is Done,
    ensures
        match tree_loop(index@.entries, Seq::empty(), 0, Seq::empty(), Seq::empty()) {
            TreeBuild::Done { id, objects, .. } => res.0.bytes() == id && res.0.hash_kind()
                == store.hash_kind_spec() && stores(res.1@, objects, store.hash_kind_spec()),
            TreeBuild::Stuck => false,
        },
{
    match try_from_index(index, store) {
        Some(res) => res,
        None => {
            proof {
                assert(false);
            }
            (hash::Hash::new(store.hash_kind()), Vec::new())
        },
    }
}

} // verus!
