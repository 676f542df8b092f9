//! A store of refs, and transactions that gather updates to them.
use vstd::prelude::*;
use std::path::PathBuf;
use std::sync::Arc;
use crate::error::Error;
use crate::hash;
use crate::ref_::{Ref, RefModel};

verus! {

/// `Arc::clone`: another handle on the same value.
#[verifier::external_body]
fn arc_clone<T>(a: &Arc<T>) -> (res: Arc<T>)
    ensures
        *res == **a,
{
    Arc::clone(a)
}

/// A directory of refs, and the kind of ids they hold.
#[derive(Debug)]
pub struct RefStore {
    inner: Arc<RefStoreInner>,
}

#[derive(Debug)]
struct RefStoreInner {
    path: PathBuf,
    hash_kind: hash::Kind,
}

/// A change to one ref: what it must hold before (if anything is required)
/// and what it will hold after (if it is to change).
#[derive(Clone, Debug)]
struct Op {
    old: Option<Ref>,
    new: Option<Ref>,
}

/// An operation as a value.
pub struct OpModel {
    pub old: Option<RefModel>,
    pub new: Option<RefModel>,
}

/// A set of changes to refs, at most one per ref name.
#[derive(Debug)]
pub struct Transaction {
    ref_store_inner: Arc<RefStoreInner>,
    ops: Vec<(Vec<u8>, Op)>,
}

/// The value of an optional ref.
pub open spec fn option_ref_model(r: Option<Ref>) -> Option<RefModel> {
    match r {
        Some(r) => Some(r@),
        None => None,
    }
}

/// The operations listed in `ops`, by ref name.
pub open spec fn ops_map(ops: Seq<(Seq<u8>, OpModel)>) -> Map<Seq<u8>, OpModel>
    decreases ops.len(),
{
    if ops.len() == 0 {
        Map::empty()
    } else {
        ops_map(ops.drop_last()).insert(ops.last().0, ops.last().1)
    }
}

/// A name has an operation in `ops` just where some entry of `ops` names it.
proof fn lemma_ops_map_contains(ops: Seq<(Seq<u8>, OpModel)>, name: Seq<u8>)
    ensures
        ops_map(ops).contains_key(name) <==> exists|i: int| 0 <= i < ops.len() && (#[trigger] ops[i]).0
            == name,
    decreases ops.len(),
{
    if ops.len() > 0 {
        lemma_ops_map_contains(ops.drop_last(), name);
        if ops_map(ops.drop_last()).contains_key(name) {
            let i = choose|i: int| 0 <= i < ops.drop_last().len() && (#[trigger] ops.drop_last()[i]).0 == name;
            assert(ops[i] == ops.drop_last()[i]);
        }
        if exists|i: int| 0 <= i < ops.len() && (#[trigger] ops[i]).0 == name {
            let i = choose|i: int| 0 <= i < ops.len() && (#[trigger] ops[i]).0 == name;
            if i < ops.len() - 1 {
                assert(ops.drop_last()[i] == ops[i]);
            }
        }
    }
}

/// Whether `a` and `b` hold the same bytes.
fn same_bytes(a: &[u8], b: &[u8]) -> (res: bool)
    ensures
        res == (a@ == b@),
{
    if a.len() != b.len() {
        return false;
    }
    let mut i: usize = 0;
    while i < a.len()
        invariant
            a@.len() == b@.len(),
            i <= a@.len(),
            forall|j: int| 0 <= j < i ==> a@[j] == b@[j],
        decreases a@.len() - i,
    {
        if a[i] != b[i] {
            assert(a@[i as int] != b@[i as int]);
            return false;
        }
        i = i + 1;
    }
    assert(a@ =~= b@);
    true
}

impl RefStoreInner {
    fn hash_kind(&self) -> (res: hash::Kind)
        ensures
            res == self.hash_kind,
    {
        self.hash_kind
    }
}

impl RefStore {
    /// The kind of ids the store's refs hold.
    pub closed spec fn hash_kind_spec(&self) -> hash::Kind {
        self.inner.hash_kind
    }

    /// The directory of the store.
    pub closed spec fn path_spec(&self) -> PathBuf {
        self.inner.path
    }

    /// A store in the directory `path`, whose refs hold ids of kind `hash_kind`.
    pub fn new(path: PathBuf, hash_kind: hash::Kind) -> (res: RefStore)
        ensures
            res.path_spec() == path,
            res.hash_kind_spec() == hash_kind,
    {
        RefStore { inner: Arc::new(RefStoreInner { path, hash_kind }) }
    }

    /// The directory of the store.
    pub fn path(&self) -> (res: &PathBuf)
        ensures
            *res == self.path_spec(),
    {
        &self.inner.path
    }

    /// A transaction on the store, with no operation yet.
    pub fn start_transaction(&self) -> (res: Transaction)
        ensures
            res.hash_kind_spec() == self.hash_kind_spec(),
            res.path_spec() == self.path_spec(),
            res.ops() == Map::<Seq<u8>, OpModel>::empty(),
    {
        Transaction { ref_store_inner: arc_clone(&self.inner), ops: Vec::new() }
    }
}

impl Transaction {
    closed spec fn op_list(&self) -> Seq<(Seq<u8>, OpModel)> {
        self.ops@.map_values(
            |e: (Vec<u8>, Op)|
                (e.0@, OpModel { old: option_ref_model(e.1.old), new: option_ref_model(e.1.new) }),
        )
    }

    /// The operations gathered so far, by ref name.
    pub closed spec fn ops(&self) -> Map<Seq<u8>, OpModel> {
        ops_map(self.op_list())
    }

    /// The kind of ids the refs hold.
    pub closed spec fn hash_kind_spec(&self) -> hash::Kind {
        self.ref_store_inner.hash_kind
    }

    /// The directory of the store the transaction is on.
    pub closed spec fn path_spec(&self) -> PathBuf {
        self.ref_store_inner.path
    }

    /// No ref name has two operations.
    #[verifier::type_invariant]
    spec fn wf(&self) -> bool {
        forall|i: int, j: int|
            0 <= i < j < self.ops@.len() ==> (#[trigger] self.ops@[i]).0@ != (#[trigger] self.ops@[j]).0@
    }

    /// Adds an operation on `name`, unless the transaction holds one already:
    /// a transaction never holds two operations on one name.
    pub fn op(&mut self, name: Vec<u8>, old_value: Option<Ref>, new: Option<Ref>) -> (res: Result<(), Error>)
        ensures
            final(self).hash_kind_spec() == old(self).hash_kind_spec(),
            final(self).path_spec() == old(self).path_spec(),
            old(self).ops().contains_key(name@) ==> res == Err::<(), Error>(Error::DuplicateRefName)
                && final(self).ops() == old(self).ops(),
            !old(self).ops().contains_key(name@) ==> res == Ok::<(), Error>(())
                && final(self).ops() == old(self).ops().insert(
                name@,
                OpModel { old: option_ref_model(old_value), new: option_ref_model(new) },
            ),
    {
        proof {
            use_type_invariant(&*self);
            lemma_ops_map_contains(self.op_list(), name@);
        }
        let mut i: usize = 0;
        while i < self.ops.len()
            invariant
                *self == *old(self),
                old(self).wf(),
                i <= self.ops@.len(),
                forall|j: int| 0 <= j < i ==> (#[trigger] self.ops@[j]).0@ != name@,
            decreases self.ops@.len() - i,
        {
            if same_bytes(self.ops[i].0.as_slice(), name.as_slice()) {
                proof {
                    lemma_ops_map_contains(self.op_list(), name@);
                    assert(self.op_list()[i as int].0 == name@);
                }
                return Err(Error::DuplicateRefName);
            }
            i = i + 1;
        }
        proof {
            assert forall|j: int| 0 <= j < self.op_list().len() implies (
            #[trigger] self.op_list()[j]).0 != name@ by {
                assert(self.op_list()[j].0 == self.ops@[j].0@);
            }
        }
        let ghost before = self.op_list();
        let ghost before_ops = self.ops@;
        let op = Op { old: old_value, new };
        let mut ops: Vec<(Vec<u8>, Op)> = Vec::new();
        std::mem::swap(&mut ops, &mut self.ops);
        ops.push((name, op));
        proof {
            assert(ops@.drop_last() =~= before_ops);
        }
        self.ops = ops;
        proof {
            assert(self.op_list().drop_last() =~= before);
        }
        Ok(())
    }

    /// Sets `name` to `new`, where it holds `old` (or holds anything, where
    /// `old` is `None`).
    pub fn update(&mut self, name: Vec<u8>, old_value: Option<Ref>, new: Ref) -> (res: Result<(), Error>)
        ensures
            final(self).hash_kind_spec() == old(self).hash_kind_spec(),
            final(self).path_spec() == old(self).path_spec(),
            old(self).ops().contains_key(name@) ==> res == Err::<(), Error>(Error::DuplicateRefName)
                && final(self).ops() == old(self).ops(),
            !old(self).ops().contains_key(name@) ==> res == Ok::<(), Error>(())
                && final(self).ops() == old(self).ops().insert(
                name@,
                OpModel { old: option_ref_model(old_value), new: Some(new@) },
            ),
    {
        self.op(name, old_value, Some(new))
    }

    /// Creates `name`, holding `new`, where it does not exist yet (holds the
    /// null id); `new` may not be the null id.
    pub fn create(&mut self, name: Vec<u8>, new: Ref) -> (res: Result<(), Error>)
        ensures
            final(self).hash_kind_spec() == old(self).hash_kind_spec(),
            final(self).path_spec() == old(self).path_spec(),
            (new@ matches RefModel::ObjectId(h) && h.is_null_spec()) ==> res == Err::<(), Error>(
                Error::CreateWithNullObjectId,
            ) && final(self).ops() == old(self).ops(),
            !(new@ matches RefModel::ObjectId(h) && h.is_null_spec()) ==> {
                &&& old(self).ops().contains_key(name@) ==> res == Err::<(), Error>(
                    Error::DuplicateRefName,
                ) && final(self).ops() == old(self).ops()
                &&& !old(self).ops().contains_key(name@) ==> res == Ok::<(), Error>(())
                    && exists|null: hash::Hash|
                    #![trigger null.is_null_spec()]
                    null.hash_kind() == old(self).hash_kind_spec() && null.is_null_spec()
                        && final(self).ops() == old(self).ops().insert(
                        name@,
                        OpModel { old: Some(RefModel::ObjectId(null)), new: Some(new@) },
                    )
            },
    {
        let is_null = match new.object_id() {
            Some(id) => id.is_null(),
            None => false,
        };
        if is_null {
            return Err(Error::CreateWithNullObjectId);
        }
        let null = hash::Hash::null(self.ref_store_inner.hash_kind());
        let res = self.op(name, Some(Ref::ObjectId(null)), Some(new));
        proof {
            assert(null.is_null_spec());
        }
        res
    }

    /// Deletes `name`, where it holds `old` (or holds anything, where `old`
    /// is `None`); `old` may not be the null id.
    pub fn delete(&mut self, name: Vec<u8>, old_value: Option<Ref>) -> (res: Result<(), Error>)
        ensures
            final(self).hash_kind_spec() == old(self).hash_kind_spec(),
            final(self).path_spec() == old(self).path_spec(),
            (old_value matches Some(r) && r@ matches RefModel::ObjectId(h) && h.is_null_spec()) ==> res
                == Err::<(), Error>(Error::DeleteWithNullObjectId) && final(self).ops() == old(
                self,
            ).ops(),
            !(old_value matches Some(r) && r@ matches RefModel::ObjectId(h) && h.is_null_spec()) ==> {
                &&& old(self).ops().contains_key(name@) ==> res == Err::<(), Error>(
                    Error::DuplicateRefName,
                ) && final(self).ops() == old(self).ops()
                &&& !old(self).ops().contains_key(name@) ==> res == Ok::<(), Error>(())
                    && exists|null: hash::Hash|
                    #![trigger null.is_null_spec()]
                    null.hash_kind() == old(self).hash_kind_spec() && null.is_null_spec()
                        && final(self).ops() == old(self).ops().insert(
                        name@,
                        OpModel { old: option_ref_model(old_value), new: Some(RefModel::ObjectId(null)) },
                    )
            },
    {
        let is_null = match &old_value {
            Some(r) => match r.object_id() {
                Some(id) => id.is_null(),
                None => false,
            },
            None => false,
        };
        if is_null {
            return Err(Error::DeleteWithNullObjectId);
        }
        let null = hash::Hash::null(self.ref_store_inner.hash_kind());
        let res = self.op(name, old_value, Some(Ref::ObjectId(null)));
        proof {
            assert(null.is_null_spec());
        }
        res
    }

    /// Checks that `name` holds `old` (or exists, where `old` is `None`),
    /// changing nothing.
    pub fn verify(&mut self, name: Vec<u8>, old_value: Option<Ref>) -> (res: Result<(), Error>)
        ensures
            final(self).hash_kind_spec() == old(self).hash_kind_spec(),
            final(self).path_spec() == old(self).path_spec(),
            old(self).ops().contains_key(name@) ==> res == Err::<(), Error>(Error::DuplicateRefName)
                && final(self).ops() == old(self).ops(),
            !old(self).ops().contains_key(name@) ==> res == Ok::<(), Error>(())
                && final(self).ops() == old(self).ops().insert(
                name@,
                OpModel { old: option_ref_model(old_value), new: None },
            ),
    {
        self.op(name, old_value, None)
    }
}

/// Once a transaction holds an operation on a name, it holds one after any
/// further operation, so every later operation on that name is refused.
pub proof fn lemma_operation_taken(ops: Map<Seq<u8>, OpModel>, name: Seq<u8>, other: Seq<u8>, op: OpModel)
    requires
        ops.contains_key(name),
    ensures
        ops.insert(other, op).contains_key(name),
{
}

} // verus!
