//! Transactions: a batch of writes against a document that it holds by value,
//! folded into history as one change on commit, or dropped on rollback.
use vstd::prelude::*;
use crate::doc::{Automerge, Change, get_all_result, get_result, keys_exact, keys_sorted, list_range_exact, map_entries_exact, map_values_exact, op_value, parent_of, prefix_at, text_result};
use crate::iters::{Keys, KeysAt, ListRange, ListRangeAt, MapRange, MapRangeAt, Parents, Values};
use crate::opset::{first_make, ids_distinct, makes, objects_earlier, preds_earlier, live_elements, live_elems, list_elems, live_positions, map_live, map_live_writes, obj_type_of};
use crate::types::{spec_root, AutomergeError, ChangeHash, Key, Op, OpAction, OpId, ObjType, Prop, ScalarValue, Value};

verus! {

/// Where the pending writes of a transaction begin in the log.
#[derive(Debug)]
pub struct TransactionInner {
    pub start_ops: usize,
}

/// A sink that a commit tells of each operation it folds into history, in
/// the order the operations were written.
pub trait OpObserver {
    fn observe(&mut self, op: &Op);
}

/// An observer that ignores every operation.
pub struct NoObserver {}

impl OpObserver for NoObserver {
    fn observe(&mut self, op: &Op) {
    }
}

/// Options for a commit: a message, a timestamp for the change, and a sink
/// told of each operation as it is folded in.
pub struct CommitOptions<'a, Obs: OpObserver> {
    pub message: Option<String>,
    pub time: Option<i64>,
    pub op_observer: Option<&'a mut Obs>,
}

/// An open transaction. It owns the document until `commit` or `rollback`,
/// both of which consume it and hand the document back, so that it is resolved
/// at most once and no other handle can touch the document meanwhile.
#[derive(Debug)]
pub struct Transaction {
    pub inner: TransactionInner,
    pub doc: Automerge,
}

/// The id that the next operation of `d` receives.
pub open spec fn next_id(d: Automerge) -> OpId {
    OpId { counter: (d.max_counter + 1) as u64, actor: d.actor }
}

/// `id` is the id of a live write of `key` in `obj`.
pub open spec fn is_live_id(ops: Seq<Op>, obj: OpId, key: Seq<char>, id: OpId) -> bool {
    exists|i: int| map_live(ops, ops.len() as int, obj, key, i) && ops[i].id == id
}

/// `pred` names exactly the live writes of `key` in `obj`.
pub open spec fn preds_of_key(ops: Seq<Op>, obj: OpId, key: Seq<char>, pred: Seq<OpId>) -> bool {
    &&& forall|j: int| 0 <= j < pred.len() ==> is_live_id(ops, obj, key, #[trigger] pred[j])
    &&& forall|i: int| #[trigger] map_live(ops, ops.len() as int, obj, key, i) ==> pred.contains(ops[i].id)
}

/// `new` is `old` with one more operation at the end of the log, which has the
/// next id of `old` and is written into `obj`.
pub open spec fn appended(old: Automerge, new: Automerge, obj: OpId) -> bool {
    &&& new.log().len() == old.log().len() + 1
    &&& new.log().take(old.log().len() as int) == old.log()
    &&& new.log().last().id == next_id(old)
    &&& new.log().last().obj == obj
    &&& new.max_counter == old.max_counter + 1
}

/// The outcome owed by a write of `action` at `prop` of `obj`: a map key is
/// written over all its live values, a list element is replaced in place.
pub open spec fn write_outcome(
    old: Automerge,
    new: Automerge,
    obj: OpId,
    prop: Prop,
    action: OpAction,
    r: Result<OpId, AutomergeError>,
) -> bool {
    let ops = old.log();
    let n = ops.len() as int;
    let unchanged = new.log() == ops && new.max_counter == old.max_counter;
    match obj_type_of(ops, n, obj) {
        None => r == Err::<OpId, AutomergeError>(AutomergeError::NotFound) && unchanged,
        Some(t) => match prop {
            Prop::Key(k) => if t != ObjType::Dict {
                r == Err::<OpId, AutomergeError>(AutomergeError::WrongType) && unchanged
            } else if old.max_counter == u64::MAX {
                r == Err::<OpId, AutomergeError>(AutomergeError::CounterOverflow) && unchanged
            } else {
                let op = new.log().last();
                &&& r == Ok::<OpId, AutomergeError>(next_id(old))
                &&& appended(old, new, obj)
                &&& op.key is Field && op.key->Field_0@ == k@
                &&& op.action == action
                &&& preds_of_key(ops, obj, k@, op.pred@)
            },
            Prop::Index(idx) => if t == ObjType::Dict {
                r == Err::<OpId, AutomergeError>(AutomergeError::WrongType) && unchanged
            } else if idx >= live_elems(ops, n as nat, obj).len() {
                r == Err::<OpId, AutomergeError>(AutomergeError::OutOfRange) && unchanged
            } else if old.max_counter == u64::MAX {
                r == Err::<OpId, AutomergeError>(AutomergeError::CounterOverflow) && unchanged
            } else {
                let op = new.log().last();
                let elems = list_elems(ops, n as nat, obj);
                &&& r == Ok::<OpId, AutomergeError>(next_id(old))
                &&& appended(old, new, obj)
                &&& op.key == Key::Insert(live_positions(ops, n, elems, elems.len())[idx as int])
                &&& op.action == action
                &&& op.pred@ == seq![ops[live_elems(ops, n as nat, obj)[idx as int] as int].id]
            },
        },
    }
}

/// The outcome owed by inserting `action` at visible index `idx` of list `obj`.
pub open spec fn insert_outcome(
    old: Automerge,
    new: Automerge,
    obj: OpId,
    idx: usize,
    action: OpAction,
    r: Result<OpId, AutomergeError>,
) -> bool {
    let ops = old.log();
    let n = ops.len() as int;
    let unchanged = new.log() == ops && new.max_counter == old.max_counter;
    let live = live_elems(ops, n as nat, obj);
    let elems = list_elems(ops, n as nat, obj);
    match obj_type_of(ops, n, obj) {
        None => r == Err::<OpId, AutomergeError>(AutomergeError::NotFound) && unchanged,
        Some(t) => if t == ObjType::Dict {
            r == Err::<OpId, AutomergeError>(AutomergeError::WrongType) && unchanged
        } else if idx > live.len() {
            r == Err::<OpId, AutomergeError>(AutomergeError::OutOfRange) && unchanged
        } else if old.max_counter == u64::MAX {
            r == Err::<OpId, AutomergeError>(AutomergeError::CounterOverflow) && unchanged
        } else {
            let op = new.log().last();
            &&& r == Ok::<OpId, AutomergeError>(next_id(old))
            &&& appended(old, new, obj)
            &&& op.key == Key::Insert(
                if idx < live.len() { live_positions(ops, n, elems, elems.len())[idx as int] } else { elems.len() as usize },
            )
            &&& op.action == action
            &&& op.pred@.len() == 0
        },
    }
}

/// The outcome owed by deleting `prop` of `obj`.
pub open spec fn delete_outcome(old: Automerge, new: Automerge, obj: OpId, prop: Prop, r: Result<OpId, AutomergeError>) -> bool {
    let ops = old.log();
    let n = ops.len() as int;
    let unchanged = new.log() == ops && new.max_counter == old.max_counter;
    let live = live_elems(ops, n as nat, obj);
    match obj_type_of(ops, n, obj) {
        None => r == Err::<OpId, AutomergeError>(AutomergeError::NotFound) && unchanged,
        Some(t) => match prop {
            Prop::Key(k) => if t != ObjType::Dict {
                r == Err::<OpId, AutomergeError>(AutomergeError::WrongType) && unchanged
            } else if old.max_counter == u64::MAX {
                r == Err::<OpId, AutomergeError>(AutomergeError::CounterOverflow) && unchanged
            } else {
                let op = new.log().last();
                &&& r == Ok::<OpId, AutomergeError>(next_id(old))
                &&& appended(old, new, obj)
                &&& op.key is Field && op.key->Field_0@ == k@
                &&& op.action is Delete
                &&& preds_of_key(ops, obj, k@, op.pred@)
            },
            Prop::Index(idx) => if t == ObjType::Dict {
                r == Err::<OpId, AutomergeError>(AutomergeError::WrongType) && unchanged
            } else if idx >= live.len() {
                r == Err::<OpId, AutomergeError>(AutomergeError::OutOfRange) && unchanged
            } else if old.max_counter == u64::MAX {
                r == Err::<OpId, AutomergeError>(AutomergeError::CounterOverflow) && unchanged
            } else {
                let op = new.log().last();
                &&& r == Ok::<OpId, AutomergeError>(next_id(old))
                &&& appended(old, new, obj)
                &&& op.key == Key::Elem(ops[live[idx as int] as int].id)
                &&& op.action is Delete
                &&& op.pred@ == seq![ops[live[idx as int] as int].id]
            },
        },
    }
}

impl Automerge {
    /// Opens a transaction on this document.
    pub fn transaction(self) -> (r: Transaction)
        requires
            self.wf(),
            self.settled(),
        ensures
            r.wf(),
            r.doc == self,
            r.pending().len() == 0,
    {
        let start_ops = self.ops.len();
        let r = Transaction { inner: TransactionInner { start_ops }, doc: self };
        assert(r.pending() =~= Seq::<Op>::empty());
        r
    }
}

impl Transaction {
    pub open spec fn wf(&self) -> bool {
        &&& self.doc.wf()
        &&& self.inner.start_ops <= self.doc.ops@.len()
        &&& forall|i: int| 0 <= i < self.doc.changes@.len() ==> (#[trigger] self.doc.changes@[i]).ops_end <= self.inner.start_ops
        &&& self.doc.changes@.len() == 0 ==> self.inner.start_ops == 0
        &&& self.doc.changes@.len() > 0 ==> self.doc.changes@.last().ops_end == self.inner.start_ops
    }

    /// The log as it stood when the transaction began.
    pub open spec fn base_log(&self) -> Seq<Op> {
        self.doc.ops@.take(self.inner.start_ops as int)
    }

    /// The operations written in this transaction, in order.
    pub open spec fn pending(&self) -> Seq<Op> {
        self.doc.ops@.skip(self.inner.start_ops as int)
    }

    /// Number of operations written in this transaction so far.
    pub fn pending_ops(&self) -> (r: usize)
        requires
            self.wf(),
        ensures
            r == self.pending().len(),
    {
        self.doc.ops.len() - self.inner.start_ops
    }

    /// The heads of the document before this transaction began.
    pub fn get_heads(&self) -> (r: Vec<ChangeHash>)
        requires
            self.wf(),
        ensures
            self.doc.history().len() == 0 ==> r@.len() == 0,
            self.doc.history().len() > 0 ==> r@ == seq![ChangeHash { seq: self.doc.history().len() as u64 }],
    {
        self.doc.get_heads()
    }

    pub fn document(&self) -> (r: &Automerge)
        ensures
            *r == self.doc,
    {
        &self.doc
    }

    pub fn document_mut(&mut self) -> (r: &mut Automerge)
        ensures
            *r == old(self).doc,
    {
        &mut self.doc
    }

    /// Appends one operation with the next id.
    fn append(&mut self, obj: OpId, key: Key, action: OpAction, pred: Vec<OpId>) -> (r: Result<OpId, AutomergeError>)
        requires
            old(self).wf(),
            obj_type_of(old(self).doc.log(), old(self).doc.log().len() as int, obj) is Some,
            forall|k: int| 0 <= k < pred@.len() ==> (#[trigger] pred@[k]).counter <= old(self).doc.max_counter,
        ensures
            final(self).wf(),
            final(self).inner.start_ops == old(self).inner.start_ops,
            final(self).doc.actor == old(self).doc.actor,
            final(self).doc.history() == old(self).doc.history(),
            old(self).doc.max_counter == u64::MAX ==> r == Err::<OpId, AutomergeError>(AutomergeError::CounterOverflow)
                && final(self).doc.log() == old(self).doc.log()
                && final(self).doc.max_counter == old(self).doc.max_counter,
            old(self).doc.max_counter < u64::MAX ==> r == Ok::<OpId, AutomergeError>(next_id(old(self).doc))
                && final(self).doc.max_counter == old(self).doc.max_counter + 1
                && final(self).doc.log() == old(self).doc.log().push(
                    (Op { id: next_id(old(self).doc), obj, key, action, pred }),
                ),
    {
        if self.doc.max_counter == u64::MAX {
            return Err(AutomergeError::CounterOverflow);
        }
        let id = OpId { counter: self.doc.max_counter + 1, actor: self.doc.actor };
        let ghost old_ops = self.doc.ops@;
        let ghost n = old_ops.len() as int;
        self.doc.max_counter = self.doc.max_counter + 1;
        self.doc.ops.push(Op { id, obj, key, action, pred });
        proof {
            let ops = self.doc.ops@;
            assert forall|i: int| 0 <= i < n implies ops[i] == old_ops[i] by {}
            assert(ids_distinct(ops)) by {
                assert forall|i: int, j: int| 0 <= i < ops.len() && 0 <= j < ops.len() && i != j implies #[trigger] ops[i].id != #[trigger] ops[j].id by {
                    if i < n && j < n {
                        assert(old_ops[i].id != old_ops[j].id);
                    } else if i < n {
                        assert(old_ops[i].id.counter <= old(self).doc.max_counter);
                    } else {
                        assert(old_ops[j].id.counter <= old(self).doc.max_counter);
                    }
                }
            }
            assert(preds_earlier(ops)) by {
                assert forall|i: int, k: int| 0 <= i < ops.len() && 0 <= k < ops[i].pred@.len() implies (#[trigger] ops[i].pred@[k]).counter < ops[i].id.counter by {
                    if i < n {
                        assert(old_ops[i].pred@[k].counter < old_ops[i].id.counter);
                    }
                }
            }
            assert(objects_earlier(ops)) by {
                assert forall|i: int| 0 <= i < ops.len() implies (#[trigger] ops[i]).obj == spec_root() || exists|j: int| 0 <= j < i && makes(ops, i, ops[i].obj, j) by {
                    if i < n {
                        if old_ops[i].obj != spec_root() {
                            let j = choose|j: int| 0 <= j < i && makes(old_ops, i, old_ops[i].obj, j);
                            assert(makes(ops, i, ops[i].obj, j));
                        }
                    } else if obj != spec_root() {
                        crate::opset::lemma_first_make(old_ops, n, obj, 0);
                        let j = first_make(old_ops, n, obj, 0)->Some_0;
                        assert(makes(ops, i, ops[i].obj, j));
                    }
                }
            }
        }
        Ok(id)
    }
}

impl Transaction {
    /// The ids of the live writes of `key` in `obj`.
    fn live_ids(&self, obj: OpId, key: &String) -> (r: Vec<OpId>)
        requires
            self.wf(),
        ensures
            preds_of_key(self.doc.log(), obj, key@, r@),
    {
        let ghost ops = self.doc.ops@;
        let n = self.doc.ops.len();
        let w = map_live_writes(&self.doc.ops, n, obj, key);
        let mut r: Vec<OpId> = Vec::new();
        let mut j: usize = 0;
        while j < w.len()
            invariant
                n == ops.len(),
                ops == self.doc.ops@,
                forall|jj: int| 0 <= jj < w@.len() ==> map_live(ops, n as int, obj, key@, #[trigger] w@[jj] as int),
                j <= w.len(),
                r@.len() == j,
                forall|jj: int| 0 <= jj < j ==> r@[jj] == ops[w@[jj] as int].id,
            decreases w.len() - j,
        {
            r.push(self.doc.ops[w[j]].id);
            j += 1;
        }
        proof {
            assert forall|jj: int| 0 <= jj < r@.len() implies is_live_id(ops, obj, key@, #[trigger] r@[jj]) by {
                let i = w@[jj] as int;
                assert(map_live(ops, n as int, obj, key@, i));
                assert(map_live(ops, ops.len() as int, obj, key@, i) && ops[i].id == r@[jj]);
            }
            assert forall|i: int| map_live(ops, ops.len() as int, obj, key@, i) implies r@.contains(ops[i].id) by {
                assert(map_live(ops, n as int, obj, key@, i));
                let jj = choose|jj: int| 0 <= jj < w@.len() && w@[jj] == i;
                assert(r@[jj] == ops[i].id);
            }
        }
        r
    }

    fn write(&mut self, obj: OpId, prop: &Prop, action: OpAction) -> (r: Result<OpId, AutomergeError>)
        requires
            old(self).wf(),
        ensures
            final(self).wf(),
            final(self).inner.start_ops == old(self).inner.start_ops,
            final(self).doc.history() == old(self).doc.history(),
            final(self).doc.actor == old(self).doc.actor,
            write_outcome(old(self).doc, final(self).doc, obj, *prop, action, r),
    {
        let n = self.doc.ops.len();
        let t = match crate::opset::object_type_in(&self.doc.ops, n, obj) {
            None => {
                return Err(AutomergeError::NotFound);
            },
            Some(t) => t,
        };
        match prop {
            Prop::Key(k) => {
                if t != ObjType::Dict {
                    return Err(AutomergeError::WrongType);
                }
                self.write_key(obj, k, action)
            },
            Prop::Index(idx) => {
                if t == ObjType::Dict {
                    return Err(AutomergeError::WrongType);
                }
                self.write_index(obj, *idx, action)
            },
        }
    }

    #[verifier::rlimit(60)]
    fn write_key(&mut self, obj: OpId, k: &String, action: OpAction) -> (r: Result<OpId, AutomergeError>)
        requires
            old(self).wf(),
            obj_type_of(old(self).doc.log(), old(self).doc.log().len() as int, obj) == Some(ObjType::Dict),
        ensures
            final(self).wf(),
            final(self).inner.start_ops == old(self).inner.start_ops,
            final(self).doc.history() == old(self).doc.history(),
            final(self).doc.actor == old(self).doc.actor,
            write_outcome(old(self).doc, final(self).doc, obj, Prop::Key(*k), action, r),
    {
        let n = self.doc.ops.len();
        {
                let pred = self.live_ids(obj, k);
                let key = Key::Field(k.clone());
                let r = self.append(obj, key, action, pred);
                proof {
                    if r is Ok {
                        assert(self.doc.log().take(n as int) =~= old(self).doc.log());
                    }
                }
                r
        }
    }

    #[verifier::rlimit(60)]
    fn write_index(&mut self, obj: OpId, idx: usize, action: OpAction) -> (r: Result<OpId, AutomergeError>)
        requires
            old(self).wf(),
            obj_type_of(old(self).doc.log(), old(self).doc.log().len() as int, obj) matches Some(t) && t != ObjType::Dict,
        ensures
            final(self).wf(),
            final(self).inner.start_ops == old(self).inner.start_ops,
            final(self).doc.history() == old(self).doc.history(),
            final(self).doc.actor == old(self).doc.actor,
            write_outcome(old(self).doc, final(self).doc, obj, Prop::Index(idx), action, r),
    {
        let n = self.doc.ops.len();
        let idx = &idx;
        {
                let (live, pos) = live_elements(&self.doc.ops, n, obj);
                if *idx >= live.len() {
                    return Err(AutomergeError::OutOfRange);
                }
                let mut pred: Vec<OpId> = Vec::new();
                pred.push(self.doc.ops[live[*idx]].id);
                let r = self.append(obj, Key::Insert(pos[*idx]), action, pred);
                proof {
                    if r is Ok {
                        assert(self.doc.log().take(n as int) =~= old(self).doc.log());
                    }
                }
                r
        }
    }

    /// Sets `prop` of `obj` to a scalar.
    pub fn put(&mut self, obj: OpId, prop: &Prop, value: ScalarValue) -> (r: Result<(), AutomergeError>)
        requires
            old(self).wf(),
        ensures
            final(self).wf(),
            final(self).inner.start_ops == old(self).inner.start_ops,
            final(self).doc.history() == old(self).doc.history(),
            final(self).doc.actor == old(self).doc.actor,
            write_outcome(old(self).doc, final(self).doc, obj, *prop, OpAction::Put(value),
                match r { Ok(_) => Ok(next_id(old(self).doc)), Err(e) => Err(e) }),
    {
        match self.write(obj, prop, OpAction::Put(value)) {
            Ok(_) => Ok(()),
            Err(e) => Err(e),
        }
    }

    /// Creates a new object of kind `value` at `prop` of `obj`, returning its id.
    pub fn put_object(&mut self, obj: OpId, prop: &Prop, value: ObjType) -> (r: Result<OpId, AutomergeError>)
        requires
            old(self).wf(),
        ensures
            final(self).wf(),
            final(self).inner.start_ops == old(self).inner.start_ops,
            final(self).doc.history() == old(self).doc.history(),
            final(self).doc.actor == old(self).doc.actor,
            write_outcome(old(self).doc, final(self).doc, obj, *prop, OpAction::Make(value), r),
            r is Ok ==> obj_type_of(final(self).doc.log(), final(self).doc.log().len() as int, r->Ok_0) == Some(value),
            r is Ok && prop is Key ==> {
                let pp = parent_of(final(self).doc.log(), final(self).doc.log().len() as int, r->Ok_0);
                &&& pp is Some
                &&& pp->Some_0.0 == obj
                &&& pp->Some_0.1 is Key
                &&& pp->Some_0.1->Key_0@ == prop->Key_0@
            },
    {
        let r = self.write(obj, prop, OpAction::Make(value));
        proof {
            if r is Ok {
                let id = r->Ok_0;
                let old_ops = old(self).doc.log();
                assert forall|i: int| 0 <= i < old_ops.len() implies (#[trigger] old_ops[i]).id.counter < id.counter by {}
                lemma_new_object(old_ops, self.doc.log(), id);
                reveal(parent_of);
            }
        }
        r
    }

    fn insert_op(&mut self, obj: OpId, index: usize, action: OpAction) -> (r: Result<OpId, AutomergeError>)
        requires
            old(self).wf(),
        ensures
            final(self).wf(),
            final(self).inner.start_ops == old(self).inner.start_ops,
            final(self).doc.history() == old(self).doc.history(),
            final(self).doc.actor == old(self).doc.actor,
            insert_outcome(old(self).doc, final(self).doc, obj, index, action, r),
    {
        let n = self.doc.ops.len();
        let t = match crate::opset::object_type_in(&self.doc.ops, n, obj) {
            None => {
                return Err(AutomergeError::NotFound);
            },
            Some(t) => t,
        };
        if t == ObjType::Dict {
            return Err(AutomergeError::WrongType);
        }
        let (live, pos) = live_elements(&self.doc.ops, n, obj);
        if index > live.len() {
            return Err(AutomergeError::OutOfRange);
        }
        let p = if index < live.len() {
            pos[index]
        } else {
            crate::opset::list_elements(&self.doc.ops, n, obj).len()
        };
        let r = self.append(obj, Key::Insert(p), action, Vec::new());
        proof {
            if r is Ok {
                assert(self.doc.log().take(n as int) =~= old(self).doc.log());
            }
        }
        r
    }

    /// Inserts a scalar at visible index `index` of list `obj`.
    pub fn insert(&mut self, obj: OpId, index: usize, value: ScalarValue) -> (r: Result<(), AutomergeError>)
        requires
            old(self).wf(),
        ensures
            final(self).wf(),
            final(self).inner.start_ops == old(self).inner.start_ops,
            final(self).doc.history() == old(self).doc.history(),
            final(self).doc.actor == old(self).doc.actor,
            insert_outcome(old(self).doc, final(self).doc, obj, index, OpAction::Put(value),
                match r { Ok(_) => Ok(next_id(old(self).doc)), Err(e) => Err(e) }),
    {
        match self.insert_op(obj, index, OpAction::Put(value)) {
            Ok(_) => Ok(()),
            Err(e) => Err(e),
        }
    }

    /// Creates a new object of kind `value` at visible index `index` of list `obj`.
    pub fn insert_object(&mut self, obj: OpId, index: usize, value: ObjType) -> (r: Result<OpId, AutomergeError>)
        requires
            old(self).wf(),
        ensures
            final(self).wf(),
            final(self).inner.start_ops == old(self).inner.start_ops,
            final(self).doc.history() == old(self).doc.history(),
            final(self).doc.actor == old(self).doc.actor,
            insert_outcome(old(self).doc, final(self).doc, obj, index, OpAction::Make(value), r),
    {
        self.insert_op(obj, index, OpAction::Make(value))
    }

    fn delete_op(&mut self, obj: OpId, prop: &Prop) -> (r: Result<OpId, AutomergeError>)
        requires
            old(self).wf(),
        ensures
            final(self).wf(),
            final(self).inner.start_ops == old(self).inner.start_ops,
            final(self).doc.history() == old(self).doc.history(),
            final(self).doc.actor == old(self).doc.actor,
            delete_outcome(old(self).doc, final(self).doc, obj, *prop, r),
    {
        let n = self.doc.ops.len();
        let t = match crate::opset::object_type_in(&self.doc.ops, n, obj) {
            None => {
                return Err(AutomergeError::NotFound);
            },
            Some(t) => t,
        };
        match prop {
            Prop::Key(k) => {
                if t != ObjType::Dict {
                    return Err(AutomergeError::WrongType);
                }
                let pred = self.live_ids(obj, k);
                let r = self.append(obj, Key::Field(k.clone()), OpAction::Delete, pred);
                proof {
                    if r is Ok {
                        assert(self.doc.log().take(n as int) =~= old(self).doc.log());
                    }
                }
                r
            },
            Prop::Index(idx) => {
                if t == ObjType::Dict {
                    return Err(AutomergeError::WrongType);
                }
                let (live, _pos) = live_elements(&self.doc.ops, n, obj);
                if *idx >= live.len() {
                    return Err(AutomergeError::OutOfRange);
                }
                let target = self.doc.ops[live[*idx]].id;
                let mut pred: Vec<OpId> = Vec::new();
                pred.push(target);
                let r = self.append(obj, Key::Elem(target), OpAction::Delete, pred);
                proof {
                    if r is Ok {
                        assert(self.doc.log().take(n as int) =~= old(self).doc.log());
                    }
                }
                r
            },
        }
    }

    /// Removes `prop` of `obj`: every live value of a map key, or one list element.
    pub fn delete(&mut self, obj: OpId, prop: &Prop) -> (r: Result<(), AutomergeError>)
        requires
            old(self).wf(),
        ensures
            final(self).wf(),
            final(self).inner.start_ops == old(self).inner.start_ops,
            final(self).doc.history() == old(self).doc.history(),
            final(self).doc.actor == old(self).doc.actor,
            delete_outcome(old(self).doc, final(self).doc, obj, *prop,
                match r { Ok(_) => Ok(next_id(old(self).doc)), Err(e) => Err(e) }),
    {
        match self.delete_op(obj, prop) {
            Ok(_) => Ok(()),
            Err(e) => Err(e),
        }
    }

    /// Deletes `del` elements of list `obj` from `pos` on, then inserts `vals`
    /// there, in order. Everything is checked before any operation is written.
    pub fn splice(&mut self, obj: OpId, pos: usize, del: usize, vals: Vec<ScalarValue>) -> (r: Result<(), AutomergeError>)
        requires
            old(self).wf(),
        ensures
            final(self).wf(),
            final(self).inner.start_ops == old(self).inner.start_ops,
            final(self).doc.history() == old(self).doc.history(),
            final(self).doc.actor == old(self).doc.actor,
            splice_outcome(old(self).doc, final(self).doc, obj, pos, del, vals@, r),
    {
        let n = self.doc.ops.len();
        let ghost old_ops = self.doc.ops@;
        let t = match crate::opset::object_type_in(&self.doc.ops, n, obj) {
            None => {
                return Err(AutomergeError::NotFound);
            },
            Some(t) => t,
        };
        if t == ObjType::Dict {
            return Err(AutomergeError::WrongType);
        }
        let (live, phys) = live_elements(&self.doc.ops, n, obj);
        if del > live.len() || pos > live.len() - del {
            return Err(AutomergeError::OutOfRange);
        }
        let elems_len = crate::opset::list_elements(&self.doc.ops, n, obj).len();
        let p = if pos + del < live.len() { phys[pos + del] } else { elems_len };
        if vals.len() > usize::MAX - p {
            return Err(AutomergeError::OutOfRange);
        }
        if del as u64 > u64::MAX - self.doc.max_counter || vals.len() as u64 > u64::MAX - self.doc.max_counter - del as u64 {
            return Err(AutomergeError::CounterOverflow);
        }
        let ghost m0 = self.doc.max_counter;
        assert(live@.len() == live.len());
        let mut d: usize = 0;
        while d < del
            invariant
                self.wf(),
                self.inner.start_ops == old(self).inner.start_ops,
                self.doc.history() == old(self).doc.history(),
                self.doc.actor == old(self).doc.actor,
                old_ops == old(self).doc.log(),
                n == old_ops.len(),
                m0 == old(self).doc.max_counter,
                live@ == live_elems(old_ops, n as nat, obj),
                pos + del <= live@.len(),
                live@.len() <= usize::MAX,
                forall|j: int| 0 <= j < live@.len() ==> live@[j] < n,
                obj_type_of(old_ops, n as int, obj) is Some,
                d <= del,
                m0 + del + vals@.len() <= u64::MAX,
                self.doc.max_counter == m0 + d,
                self.doc.ops@.len() == n + d,
                self.doc.ops@.take(n as int) == old_ops,
                forall|dd: int| 0 <= dd < d ==> spliced_delete(old(self).doc, obj, (#[trigger] self.doc.ops@[n + dd]), live@[pos + dd] as int, dd),
            decreases del - d,
        {
            let target = self.doc.ops[live[pos + d]].id;
            let mut pred: Vec<OpId> = Vec::new();
            pred.push(target);
            proof {
                lemma_obj_kept(self.doc.ops@, old_ops, obj);
                assert(self.doc.ops@[live@[pos + d] as int] == old_ops[live@[pos + d] as int]);
            }
            let ghost before = self.doc.ops@;
            let _ = self.append(obj, Key::Elem(target), OpAction::Delete, pred);
            proof {
                assert forall|dd: int| 0 <= dd < d + 1 implies spliced_delete(old(self).doc, obj, (#[trigger] self.doc.ops@[n + dd]), live@[pos + dd] as int, dd) by {
                    if dd < d {
                        assert(self.doc.ops@[n + dd] == before[n + dd]);
                    }
                }
                assert(self.doc.ops@.take(n as int) =~= old_ops);
            }
            d += 1;
        }
        let mut k: usize = 0;
        let mut rest = vals;
        let ghost all = rest@;
        while rest.len() > 0
            invariant
                self.wf(),
                self.inner.start_ops == old(self).inner.start_ops,
                self.doc.history() == old(self).doc.history(),
                self.doc.actor == old(self).doc.actor,
                old_ops == old(self).doc.log(),
                n == old_ops.len(),
                m0 == old(self).doc.max_counter,
                obj_type_of(old_ops, n as int, obj) is Some,
                all == vals@,
                live@ == live_elems(old_ops, n as nat, obj),
                pos + del <= live@.len(),
                rest@ == all.skip(k as int),
                k <= all.len(),
                p + all.len() <= usize::MAX,
                m0 + del + all.len() <= u64::MAX,
                self.doc.max_counter == m0 + del + k,
                self.doc.ops@.len() == n + del + k,
                self.doc.ops@.take(n as int) == old_ops,
                forall|dd: int| 0 <= dd < del ==> spliced_delete(old(self).doc, obj, (#[trigger] self.doc.ops@[n + dd]), live@[pos + dd] as int, dd),
                forall|kk: int| 0 <= kk < k ==> spliced_insert(old(self).doc, obj, (#[trigger] self.doc.ops@[n + del + kk]), p as int, del as int, kk, all[kk]),
            decreases rest.len(),
        {
            let v = rest.remove(0);
            proof {
                lemma_obj_kept(self.doc.ops@, old_ops, obj);
                assert(v == all[k as int]);
            }
            let ghost before = self.doc.ops@;
            let _ = self.append(obj, Key::Insert(p + k), OpAction::Put(v), Vec::new());
            proof {
                assert forall|dd: int| 0 <= dd < del implies spliced_delete(old(self).doc, obj, (#[trigger] self.doc.ops@[n + dd]), live@[pos + dd] as int, dd) by {
                    assert(self.doc.ops@[n + dd] == before[n + dd]);
                }
                assert forall|kk: int| 0 <= kk < k + 1 implies spliced_insert(old(self).doc, obj, (#[trigger] self.doc.ops@[n + del + kk]), p as int, del as int, kk, all[kk]) by {
                    if kk < k {
                        assert(self.doc.ops@[n + del + kk] == before[n + del + kk]);
                    }
                }
                assert(self.doc.ops@.take(n as int) =~= old_ops);
                assert(rest@ =~= all.skip(k as int + 1));
            }
            k += 1;
        }
        Ok(())
    }

    /// Adds `by` to the counter at `prop` of `obj`.
    pub fn increment(&mut self, obj: OpId, prop: &Prop, by: i64) -> (r: Result<(), AutomergeError>)
        requires
            old(self).wf(),
        ensures
            final(self).wf(),
            final(self).inner.start_ops == old(self).inner.start_ops,
            final(self).doc.history() == old(self).doc.history(),
            final(self).doc.actor == old(self).doc.actor,
            r is Err ==> final(self).doc.log() == old(self).doc.log() && final(self).doc.max_counter == old(self).doc.max_counter,
            forall|g: Result<Option<(Value, OpId)>, AutomergeError>|
                #[trigger] crate::doc::get_result(old(self).doc.log(), old(self).doc.log().len() as int, obj, *prop, g)
                ==> increment_outcome(old(self).doc, final(self).doc, obj, *prop, by, g, r),
    {
        let cur = self.doc.get(obj, prop);
        proof {
            assert forall|g: Result<Option<(Value, OpId)>, AutomergeError>|
                #[trigger] crate::doc::get_result(self.doc.log(), self.doc.log().len() as int, obj, *prop, g) implies g == cur by {
                crate::doc::lemma_get_unique(self.doc.log(), self.doc.log().len() as int, obj, *prop, g, cur);
            }
        }
        let c = match cur {
            Ok(Some((Value::Scalar(ScalarValue::Counter(c)), _))) => c,
            Ok(_) => {
                return Err(AutomergeError::WrongType);
            },
            Err(e) => {
                return Err(e);
            },
        };
        let sum = match c.checked_add(by) {
            Some(v) => v,
            None => {
                return Err(AutomergeError::CounterOverflow);
            },
        };
        match self.write(obj, prop, OpAction::Put(ScalarValue::Counter(sum))) {
            Ok(_) => Ok(()),
            Err(e) => Err(e),
        }
    }

    /// Folds the pending operations into history as one change, with no message
    /// and the current time, and hands back its marker and the document.
    pub fn commit(self) -> (r: (ChangeHash, Automerge))
        requires
            self.wf(),
            self.doc.history().len() < u64::MAX - 1,
        ensures
            committed(self, r.0, r.1, None, None),
    {
        self.commit_with::<NoObserver>(CommitOptions { message: None, time: None, op_observer: None })
    }

    /// `commit` with a message and a time for the change; the observer, if
    /// any, is told of each pending operation in the order it was written.
    pub fn commit_with<Obs: OpObserver>(self, options: CommitOptions<'_, Obs>) -> (r: (ChangeHash, Automerge))
        requires
            self.wf(),
            self.doc.history().len() < u64::MAX - 1,
        ensures
            committed(self, r.0, r.1, options.message, options.time),
    {
        let heads = self.doc.get_heads();
        let start = self.inner.start_ops;
        let mut doc = self.doc;
        let seq = doc.changes.len() as u64 + 1;
        let CommitOptions { message, time, op_observer } = options;
        let time = match time {
            Some(t) => t,
            None => match secs_since_epoch() {
                Some(s) if s <= i64::MAX as u64 => s as i64,
                _ => 0,
            },
        };
        let ops_end = doc.ops.len();
        let ghost old_hist = doc.changes@;
        doc.changes.push(Change { hash: ChangeHash { seq }, deps: heads, message, time, ops_end });
        assert(doc.changes@.take(old_hist.len() as int) =~= old_hist);
        match op_observer {
            Some(obs) => {
                let mut i = start;
                while i < doc.ops.len()
                    invariant
                        start <= i <= doc.ops@.len(),
                    decreases doc.ops.len() - i,
                {
                    obs.observe(&doc.ops[i]);
                    i += 1;
                }
            },
            None => {},
        }
        (ChangeHash { seq }, doc)
    }

    /// Drops the pending operations and hands back the document as it was when
    /// the transaction began, with the number of operations dropped.
    pub fn rollback(self) -> (r: (usize, Automerge))
        requires
            self.wf(),
        ensures
            rolled_back(self, r.0, r.1),
    {
        let mut doc = self.doc;
        let count = doc.ops.len() - self.inner.start_ops;
        let ghost old_ops = doc.ops@;
        doc.ops.truncate(self.inner.start_ops);
        proof {
            let ops = doc.ops@;
            assert forall|i: int| 0 <= i < ops.len() implies ops[i] == old_ops[i] by {}
            assert(ids_distinct(ops)) by {
                assert forall|i: int, j: int| 0 <= i < ops.len() && 0 <= j < ops.len() && i != j implies #[trigger] ops[i].id != #[trigger] ops[j].id by {
                    assert(old_ops[i].id != old_ops[j].id);
                }
            }
            assert(preds_earlier(ops)) by {
                assert forall|i: int, k: int| 0 <= i < ops.len() && 0 <= k < ops[i].pred@.len() implies (#[trigger] ops[i].pred@[k]).counter < ops[i].id.counter by {
                    assert(old_ops[i].pred@[k].counter < old_ops[i].id.counter);
                }
            }
            assert(objects_earlier(ops)) by {
                assert forall|i: int| 0 <= i < ops.len() implies (#[trigger] ops[i]).obj == spec_root() || exists|j: int| 0 <= j < i && makes(ops, i, ops[i].obj, j) by {
                    if old_ops[i].obj != spec_root() {
                        let j = choose|j: int| 0 <= j < i && makes(old_ops, i, old_ops[i].obj, j);
                        assert(makes(ops, i, ops[i].obj, j));
                    }
                }
            }
        }
        (count, doc)
    }

    /// The winning value of `prop` in `obj`, with the id of the operation that wrote it.
    pub fn get(&self, obj: OpId, prop: &Prop) -> (r: Result<Option<(Value, OpId)>, AutomergeError>)
        requires
            self.wf(),
        ensures
            get_result(self.doc.log(), self.doc.log().len() as int, obj, *prop, r),
    {
        self.doc.get(obj, prop)
    }

    /// `get` on the version named by `heads`.
    pub fn get_at(&self, obj: OpId, prop: &Prop, heads: &[ChangeHash]) -> (r: Result<Option<(Value, OpId)>, AutomergeError>)
        requires
            self.wf(),
        ensures
            get_result(self.doc.log(), prefix_at(self.doc.history(), heads@), obj, *prop, r),
    {
        self.doc.get_at(obj, prop, heads)
    }

    /// Every live value of `prop` in `obj`, from the greatest tie-break rank down.
    pub fn get_all(&self, obj: OpId, prop: &Prop) -> (r: Result<Vec<(Value, OpId)>, AutomergeError>)
        requires
            self.wf(),
        ensures
            get_all_result(self.doc.log(), self.doc.log().len() as int, obj, *prop, r),
    {
        self.doc.get_all(obj, prop)
    }

    /// `get_all` on the version named by `heads`.
    pub fn get_all_at(&self, obj: OpId, prop: &Prop, heads: &[ChangeHash]) -> (r: Result<Vec<(Value, OpId)>, AutomergeError>)
        requires
            self.wf(),
        ensures
            get_all_result(self.doc.log(), prefix_at(self.doc.history(), heads@), obj, *prop, r),
    {
        self.doc.get_all_at(obj, prop, heads)
    }

    /// The keys of map `obj`; empty where `obj` is not a map.
    pub fn keys(&self, obj: OpId) -> (r: Keys)
        requires
            self.wf(),
        ensures
            obj_type_of(self.doc.log(), self.doc.log().len() as int, obj) != Some(ObjType::Dict) ==> r.items@.len() == 0,
            obj_type_of(self.doc.log(), self.doc.log().len() as int, obj) == Some(ObjType::Dict)
                ==> keys_exact(self.doc.log(), self.doc.log().len() as int, obj, r.items@),
            keys_sorted(r.items@),
    {
        self.doc.keys(obj)
    }

    /// `keys` on the version named by `heads`.
    pub fn keys_at(&self, obj: OpId, heads: &[ChangeHash]) -> (r: KeysAt)
        requires
            self.wf(),
        ensures
            obj_type_of(self.doc.log(), prefix_at(self.doc.history(), heads@), obj) != Some(ObjType::Dict) ==> r.items@.len() == 0,
            obj_type_of(self.doc.log(), prefix_at(self.doc.history(), heads@), obj) == Some(ObjType::Dict)
                ==> keys_exact(self.doc.log(), prefix_at(self.doc.history(), heads@), obj, r.items@),
            keys_sorted(r.items@),
    {
        self.doc.keys_at(obj, heads)
    }

    /// Elements of list `obj` with index in `start..end`, in index order.
    pub fn list_range(&self, obj: OpId, start: usize, end: usize) -> (r: ListRange)
        requires
            self.wf(),
        ensures
            !(obj_type_of(self.doc.log(), self.doc.log().len() as int, obj) matches Some(t) && t != ObjType::Dict) ==> r.items@.len() == 0,
            obj_type_of(self.doc.log(), self.doc.log().len() as int, obj) matches Some(t) && t != ObjType::Dict
                ==> list_range_exact(self.doc.log(), self.doc.log().len() as nat, obj, start, end, r.items@),
    {
        self.doc.list_range(obj, start, end)
    }

    /// `list_range` on the version named by `heads`.
    pub fn list_range_at(&self, obj: OpId, start: usize, end: usize, heads: &[ChangeHash]) -> (r: ListRangeAt)
        requires
            self.wf(),
        ensures
            !(obj_type_of(self.doc.log(), prefix_at(self.doc.history(), heads@), obj) matches Some(t) && t != ObjType::Dict)
                ==> r.items@.len() == 0,
            obj_type_of(self.doc.log(), prefix_at(self.doc.history(), heads@), obj) matches Some(t) && t != ObjType::Dict
                ==> list_range_exact(self.doc.log(), prefix_at(self.doc.history(), heads@) as nat, obj, start, end, r.items@),
    {
        self.doc.list_range_at(obj, start, end, heads)
    }

    /// The entries of map `obj` with key in `start..end` (an absent bound is
    /// open), in key order, each with its winning value.
    pub fn map_range(&self, obj: OpId, start: &Option<String>, end: &Option<String>) -> (r: MapRange)
        requires
            self.wf(),
        ensures
            obj_type_of(self.doc.log(), self.doc.log().len() as int, obj) != Some(ObjType::Dict) ==> r.items@.len() == 0,
            obj_type_of(self.doc.log(), self.doc.log().len() as int, obj) == Some(ObjType::Dict)
                ==> map_entries_exact(self.doc.log(), self.doc.log().len() as int, obj, *start, *end, r.items@),
    {
        self.doc.map_range(obj, start, end)
    }

    /// `map_range` on the version named by `heads`.
    pub fn map_range_at(&self, obj: OpId, start: &Option<String>, end: &Option<String>, heads: &[ChangeHash]) -> (r: MapRangeAt)
        requires
            self.wf(),
        ensures
            obj_type_of(self.doc.log(), prefix_at(self.doc.history(), heads@), obj) != Some(ObjType::Dict) ==> r.items@.len() == 0,
            obj_type_of(self.doc.log(), prefix_at(self.doc.history(), heads@), obj) == Some(ObjType::Dict)
                ==> map_entries_exact(self.doc.log(), prefix_at(self.doc.history(), heads@), obj, *start, *end, r.items@),
    {
        self.doc.map_range_at(obj, start, end, heads)
    }

    /// Values of list `obj` in order, or of each key of map `obj` in key order;
    /// empty for an absent object.
    pub fn values(&self, obj: OpId) -> (r: Values)
        requires
            self.wf(),
        ensures
            obj_type_of(self.doc.log(), self.doc.log().len() as int, obj) is None ==> r.items@.len() == 0,
            obj_type_of(self.doc.log(), self.doc.log().len() as int, obj) matches Some(t) && t != ObjType::Dict ==> {
                let live = live_elems(self.doc.log(), self.doc.log().len(), obj);
                &&& r.items@.len() == live.len()
                &&& forall|j: int| 0 <= j < live.len() ==> #[trigger] r.items@[j] == (op_value(self.doc.log()[live[j] as int]), self.doc.log()[live[j] as int].id)
            },
            obj_type_of(self.doc.log(), self.doc.log().len() as int, obj) == Some(ObjType::Dict)
                ==> map_values_exact(self.doc.log(), self.doc.log().len() as int, obj, r.items@),
    {
        self.doc.values(obj)
    }

    /// `values` on the version named by `heads`.
    pub fn values_at(&self, obj: OpId, heads: &[ChangeHash]) -> (r: Values)
        requires
            self.wf(),
        ensures
            obj_type_of(self.doc.log(), prefix_at(self.doc.history(), heads@), obj) is None ==> r.items@.len() == 0,
            obj_type_of(self.doc.log(), prefix_at(self.doc.history(), heads@), obj) matches Some(t) && t != ObjType::Dict ==> {
                let live = live_elems(self.doc.log(), prefix_at(self.doc.history(), heads@) as nat, obj);
                &&& r.items@.len() == live.len()
                &&& forall|j: int| 0 <= j < live.len() ==> #[trigger] r.items@[j] == (op_value(self.doc.log()[live[j] as int]), self.doc.log()[live[j] as int].id)
            },
            obj_type_of(self.doc.log(), prefix_at(self.doc.history(), heads@), obj) == Some(ObjType::Dict)
                ==> map_values_exact(self.doc.log(), prefix_at(self.doc.history(), heads@), obj, r.items@),
    {
        self.doc.values_at(obj, heads)
    }

    /// The number of live keys of a map or live elements of a list; zero for an absent object.
    pub fn length(&self, obj: OpId) -> (r: usize)
        requires
            self.wf(),
        ensures
            obj_type_of(self.doc.log(), self.doc.log().len() as int, obj) is None ==> r == 0,
            obj_type_of(self.doc.log(), self.doc.log().len() as int, obj) matches Some(t) && t != ObjType::Dict
                ==> r == live_elems(self.doc.log(), self.doc.log().len(), obj).len(),
            obj_type_of(self.doc.log(), self.doc.log().len() as int, obj) == Some(ObjType::Dict) ==> exists|v: Seq<String>| r == v.len() && #[trigger] keys_exact(self.doc.log(), self.doc.log().len() as int, obj, v),
    {
        self.doc.length(obj)
    }

    /// `length` on the version named by `heads`.
    pub fn length_at(&self, obj: OpId, heads: &[ChangeHash]) -> (r: usize)
        requires
            self.wf(),
        ensures
            obj_type_of(self.doc.log(), prefix_at(self.doc.history(), heads@), obj) is None ==> r == 0,
            obj_type_of(self.doc.log(), prefix_at(self.doc.history(), heads@), obj) == Some(ObjType::Dict)
                ==> exists|v: Seq<String>| r == v.len() && #[trigger] keys_exact(self.doc.log(), prefix_at(self.doc.history(), heads@), obj, v),
            obj_type_of(self.doc.log(), prefix_at(self.doc.history(), heads@), obj) matches Some(t) && t != ObjType::Dict
                ==> r == live_elems(self.doc.log(), prefix_at(self.doc.history(), heads@) as nat, obj).len(),
    {
        self.doc.length_at(obj, heads)
    }

    /// The kind of `obj`, or `None` where no such object exists.
    pub fn object_type(&self, obj: OpId) -> (r: Option<ObjType>)
        requires
            self.wf(),
        ensures
            r == obj_type_of(self.doc.log(), self.doc.log().len() as int, obj),
    {
        self.doc.object_type(obj)
    }

    /// The characters of text object `obj`, in order.
    pub fn text(&self, obj: OpId) -> (r: Result<String, AutomergeError>)
        requires
            self.wf(),
        ensures
            text_result(self.doc.log(), self.doc.log().len() as int, obj, r),
    {
        self.doc.text(obj)
    }

    /// `text` on the version named by `heads`.
    pub fn text_at(&self, obj: OpId, heads: &[ChangeHash]) -> (r: Result<String, AutomergeError>)
        requires
            self.wf(),
        ensures
            text_result(self.doc.log(), prefix_at(self.doc.history(), heads@), obj, r),
    {
        self.doc.text_at(obj, heads)
    }

    /// The object that holds `obj`, and the key or index under which it does.
    pub fn parent_object(&self, obj: OpId) -> (r: Option<(OpId, Prop)>)
        requires
            self.wf(),
        ensures
            r == parent_of(self.doc.log(), self.doc.log().len() as int, obj),
    {
        self.doc.parent_object(obj)
    }

    /// A walk up the parents of `obj`, nearest first.
    pub fn parents(&self, obj: OpId) -> (r: Parents<'_>)
        ensures
            r.obj == obj,
            r.doc == self.doc,
    {
        self.doc.parents(obj)
    }
}

/// Relies on `std::time::SystemTime::now`, measured with `duration_since`
/// from the Unix epoch, for the whole seconds since the epoch; `None` where
/// the clock reads earlier than the epoch. The value depends on the clock, so
/// nothing is promised of it.
#[verifier::external_body]
fn secs_since_epoch() -> (r: Option<u64>) {
    std::time::SystemTime::now().duration_since(std::time::UNIX_EPOCH).ok().map(|d| d.as_secs())
}

/// The `dd`-th operation written by a splice: a deletion of the element that
/// operation `e` inserted.
pub open spec fn spliced_delete(old: Automerge, obj: OpId, op: Op, e: int, dd: int) -> bool {
    &&& op.id == OpId { counter: (old.max_counter + 1 + dd) as u64, actor: old.actor }
    &&& op.obj == obj
    &&& op.key == Key::Elem(old.log()[e].id)
    &&& op.action is Delete
    &&& op.pred@ == seq![old.log()[e].id]
}

/// The `kk`-th insertion written by a splice after `del` deletions: the value
/// `v`, placed `kk` after physical position `p`.
pub open spec fn spliced_insert(old: Automerge, obj: OpId, op: Op, p: int, del: int, kk: int, v: ScalarValue) -> bool {
    &&& op.id == OpId { counter: (old.max_counter + 1 + del + kk) as u64, actor: old.actor }
    &&& op.obj == obj
    &&& op.key == Key::Insert((p + kk) as usize)
    &&& op.action == OpAction::Put(v)
    &&& op.pred@.len() == 0
}

/// The outcome owed by a splice: the checks come first and write nothing;
/// on success, one deletion for each element in `pos..pos + del` and then one
/// insertion for each value, placed before the first element kept after the
/// deleted ones (or at the end), in order.
pub open spec fn splice_outcome(old: Automerge, new: Automerge, obj: OpId, pos: usize, del: usize,
    vals: Seq<ScalarValue>, r: Result<(), AutomergeError>) -> bool {
    let ops = old.log();
    let n = ops.len() as int;
    let unchanged = new.log() == ops && new.max_counter == old.max_counter;
    let live = live_elems(ops, n as nat, obj);
    let elems = list_elems(ops, n as nat, obj);
    let p = if pos + del < live.len() { live_positions(ops, n, elems, elems.len())[pos + del] as int } else { elems.len() as int };
    match obj_type_of(ops, n, obj) {
        None => r == Err::<(), AutomergeError>(AutomergeError::NotFound) && unchanged,
        Some(t) => if t == ObjType::Dict {
            r == Err::<(), AutomergeError>(AutomergeError::WrongType) && unchanged
        } else if pos + del > live.len() || p + vals.len() > usize::MAX {
            r == Err::<(), AutomergeError>(AutomergeError::OutOfRange) && unchanged
        } else if old.max_counter + del + vals.len() > u64::MAX {
            r == Err::<(), AutomergeError>(AutomergeError::CounterOverflow) && unchanged
        } else {
            &&& r == Ok::<(), AutomergeError>(())
            &&& new.log().len() == n + del + vals.len()
            &&& new.log().take(n) == ops
            &&& new.max_counter == old.max_counter + del + vals.len()
            &&& forall|dd: int| 0 <= dd < del ==> spliced_delete(old, obj, #[trigger] new.log()[n + dd], live[pos + dd] as int, dd)
            &&& forall|kk: int| 0 <= kk < vals.len() ==> spliced_insert(old, obj, #[trigger] new.log()[n + del + kk], p, del as int, kk, vals[kk])
        },
    }
}

/// The operation just appended, which creates `id`, is the first to create it.
proof fn lemma_new_object(old_ops: Seq<Op>, ops: Seq<Op>, id: OpId)
    requires
        ops.len() == old_ops.len() + 1,
        ops.take(old_ops.len() as int) == old_ops,
        forall|i: int| 0 <= i < old_ops.len() ==> (#[trigger] old_ops[i]).id.counter < id.counter,
        ops.last().id == id,
        ops.last().action is Make,
    ensures
        first_make(ops, ops.len() as int, id, 0) == Some(old_ops.len() as int),
{
    let n = old_ops.len() as int;
    crate::opset::lemma_first_make(ops, n + 1, id, 0);
    assert(makes(ops, n + 1, id, n));
    assert forall|i: int| 0 <= i < n implies !#[trigger] makes(ops, n + 1, id, i) by {
        assert(ops[i] == old_ops[i]);
    }
}

/// A longer log that begins with `old_ops` still holds every object of `old_ops`.
proof fn lemma_obj_kept(ops: Seq<Op>, old_ops: Seq<Op>, obj: OpId)
    requires
        old_ops.len() <= ops.len(),
        ops.take(old_ops.len() as int) == old_ops,
        obj_type_of(old_ops, old_ops.len() as int, obj) is Some,
    ensures
        obj_type_of(ops, ops.len() as int, obj) is Some,
{
    if obj != spec_root() {
        let n = old_ops.len() as int;
        crate::opset::lemma_first_make(old_ops, n, obj, 0);
        let i = first_make(old_ops, n, obj, 0)->Some_0;
        assert(ops[i] == ops.take(n)[i]);
        assert(makes(ops, ops.len() as int, obj, i));
        crate::opset::lemma_first_make(ops, ops.len() as int, obj, 0);
    }
}

/// The outcome owed by `increment` given that `get` owes `g`: the counter's
/// winning value is rewritten as the sum, an error from `get` is passed on,
/// and anything other than a counter is the wrong type.
pub open spec fn increment_outcome(
    old: Automerge,
    new: Automerge,
    obj: OpId,
    prop: Prop,
    by: i64,
    g: Result<Option<(Value, OpId)>, AutomergeError>,
    r: Result<(), AutomergeError>,
) -> bool {
    match g {
        Err(e) => r == Err::<(), AutomergeError>(e),
        Ok(Some((Value::Scalar(ScalarValue::Counter(c)), _))) => if c + by < i64::MIN || c + by > i64::MAX
            || old.max_counter == u64::MAX {
            r == Err::<(), AutomergeError>(AutomergeError::CounterOverflow)
        } else {
            r == Ok::<(), AutomergeError>(())
                && write_outcome(old, new, obj, prop, OpAction::Put(ScalarValue::Counter((c + by) as i64)), Ok(next_id(old)))
        },
        Ok(_) => r == Err::<(), AutomergeError>(AutomergeError::WrongType),
    }
}

/// What commit owes: one new change at the end of history, with the given
/// message and time, whose dependencies are the previous heads and which covers
/// every operation of the log, so nothing is left pending.
pub open spec fn committed(tx: Transaction, h: ChangeHash, d: Automerge, message: Option<String>, time: Option<i64>) -> bool {
    let old_hist = tx.doc.history();
    &&& d.wf()
    &&& d.settled()
    &&& d.max_counter == tx.doc.max_counter
    &&& d.log() == tx.doc.log()
    &&& d.actor == tx.doc.actor
    &&& d.history().len() == old_hist.len() + 1
    &&& d.history().take(old_hist.len() as int) == old_hist
    &&& h.seq == old_hist.len() + 1
    &&& d.history().last().hash == h
    &&& d.history().last().ops_end == d.log().len()
    &&& d.history().last().message == message
    &&& (time is Some ==> d.history().last().time == time->Some_0)
    &&& (old_hist.len() == 0 ==> d.history().last().deps@.len() == 0)
    &&& (old_hist.len() > 0 ==> d.history().last().deps@ == seq![ChangeHash { seq: old_hist.len() as u64 }])
    &&& forall|i: int| 0 <= i < d.history().len() ==> (#[trigger] d.history()[i]).ops_end <= d.log().len()
}

/// What rollback owes: the log and history as they stood when the transaction
/// began, and the number of operations dropped.
pub open spec fn rolled_back(tx: Transaction, count: usize, d: Automerge) -> bool {
    &&& d.wf()
    &&& d.settled()
    &&& d.max_counter == tx.doc.max_counter
    &&& d.log() == tx.base_log()
    &&& d.history() == tx.doc.history()
    &&& d.actor == tx.doc.actor
    &&& count == tx.pending().len()
    &&& forall|i: int| 0 <= i < d.history().len() ==> (#[trigger] d.history()[i]).ops_end <= d.log().len()
}

} // verus!
