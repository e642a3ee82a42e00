//! The document: its operation log, its history of changes, and reads of the
//! current version and of past versions.
use vstd::prelude::*;
use crate::opset::{
    find_make, is_superseded, live_elements, live_elems, map_live, map_winner,
    obj_type_of, object_type_in, text_of, elem_text,
};
use crate::iters::{Keys, KeysAt, ListRange, ListRangeAt, MapRange, MapRangeAt, Parents, Values};
use crate::opset::{ids_distinct, objects_earlier, preds_earlier, in_strs, lemma_str_lt_total, map_live_writes, makes, sort_strings, str_lt};
use crate::types::{AutomergeError, ChangeHash, Key, Op, OpAction, OpId, ObjType, Prop, ScalarValue, Value, rank_gt};

verus! {

/// One committed batch of operations: the operations of the log from the end
/// of the previous change up to `ops_end`.
#[derive(Debug)]
pub struct Change {
    pub hash: ChangeHash,
    pub deps: Vec<ChangeHash>,
    pub message: Option<String>,
    pub time: i64,
    pub ops_end: usize,
}

#[derive(Debug)]
pub struct Automerge {
    pub actor: u64,
    pub max_counter: u64,
    pub ops: Vec<Op>,
    pub changes: Vec<Change>,
}

/// What an operation holds, as a value.
pub open spec fn op_value(op: Op) -> Value {
    match op.action {
        OpAction::Make(t) => Value::Object(t),
        OpAction::Put(v) => Value::Scalar(v),
        OpAction::Delete => Value::Scalar(ScalarValue::Null),
    }
}

/// The number of operations visible at `heads`: those of the changes up to the
/// latest known marker among them.
pub open spec fn prefix_at(changes: Seq<Change>, heads: Seq<ChangeHash>) -> int
    decreases heads.len(),
{
    if heads.len() == 0 {
        0
    } else {
        let rest = prefix_at(changes, heads.drop_last());
        let h = heads.last().seq;
        if 1 <= h <= changes.len() && changes[h - 1].ops_end > rest {
            changes[h - 1].ops_end as int
        } else {
            rest
        }
    }
}

/// `r` is what `get` owes on property `prop` of `obj` among the first `n` operations.
pub open spec fn get_result(
    ops: Seq<Op>,
    n: int,
    obj: OpId,
    prop: Prop,
    r: Result<Option<(Value, OpId)>, AutomergeError>,
) -> bool {
    match obj_type_of(ops, n, obj) {
        None => r == Err::<Option<(Value, OpId)>, AutomergeError>(AutomergeError::NotFound),
        Some(t) => match prop {
            Prop::Key(k) => if t != ObjType::Dict {
                r == Err::<Option<(Value, OpId)>, AutomergeError>(AutomergeError::WrongType)
            } else {
                match r {
                    Ok(None) => forall|i: int| !map_live(ops, n, obj, k@, i),
                    Ok(Some(p)) => exists|w: int|
                        map_live(ops, n, obj, k@, w) && p.0 == op_value(ops[w]) && p.1 == ops[w].id
                            && forall|i: int| map_live(ops, n, obj, k@, i) ==> !rank_gt(ops[i].id, ops[w].id),
                    Err(_) => false,
                }
            },
            Prop::Index(idx) => if t == ObjType::Dict {
                r == Err::<Option<(Value, OpId)>, AutomergeError>(AutomergeError::WrongType)
            } else {
                let live = live_elems(ops, n as nat, obj);
                if idx < live.len() {
                    r == Ok::<Option<(Value, OpId)>, AutomergeError>(
                        Some((op_value(ops[live[idx as int] as int]), ops[live[idx as int] as int].id)),
                    )
                } else {
                    r == Ok::<Option<(Value, OpId)>, AutomergeError>(None)
                }
            },
        },
    }
}

/// `get` owes one result only, as no two operations share an id.
pub proof fn lemma_get_unique(ops: Seq<Op>, n: int, obj: OpId, prop: Prop,
    r1: Result<Option<(Value, OpId)>, AutomergeError>, r2: Result<Option<(Value, OpId)>, AutomergeError>)
    requires
        ids_distinct(ops),
        0 <= n <= ops.len(),
        get_result(ops, n, obj, prop, r1),
        get_result(ops, n, obj, prop, r2),
    ensures
        r1 == r2,
{
    if obj_type_of(ops, n, obj) == Some(ObjType::Dict) && prop is Key {
        let k = prop->Key_0;
        assert(forall|i: int| map_live(ops, n, obj, k@, i) ==> 0 <= i < n);
        match r1 {
            Ok(Some(p1)) => {
                let w1 = choose|w: int|
                    map_live(ops, n, obj, k@, w) && p1.0 == op_value(ops[w]) && p1.1 == ops[w].id
                        && forall|i: int| map_live(ops, n, obj, k@, i) ==> !rank_gt(ops[i].id, ops[w].id);
                match r2 {
                    Ok(Some(p2)) => {
                        let w2 = choose|w: int|
                            map_live(ops, n, obj, k@, w) && p2.0 == op_value(ops[w]) && p2.1 == ops[w].id
                                && forall|i: int| map_live(ops, n, obj, k@, i) ==> !rank_gt(ops[i].id, ops[w].id);
                        assert(ops[w1].id == ops[w2].id);
                        if w1 != w2 {
                            assert(ops[w1].id != ops[w2].id);
                        }
                    },
                    Ok(None) => {
                        assert(forall|i: int| !map_live(ops, n, obj, prop->Key_0@, i));
                    },
                    Err(_) => {},
                }
            },
            Ok(None) => {
                assert(forall|i: int| !map_live(ops, n, obj, prop->Key_0@, i));
                match r2 {
                    Ok(Some(p2)) => {
                        let w2 = choose|w: int|
                            map_live(ops, n, obj, k@, w) && p2.0 == op_value(ops[w]) && p2.1 == ops[w].id
                                && forall|i: int| map_live(ops, n, obj, k@, i) ==> !rank_gt(ops[i].id, ops[w].id);
                    },
                    _ => {},
                }
            },
            Err(_) => {},
        }
    }
}

/// `r` is what `text` owes on `obj` among the first `n` operations.
pub open spec fn text_result(ops: Seq<Op>, n: int, obj: OpId, r: Result<String, AutomergeError>) -> bool {
    match obj_type_of(ops, n, obj) {
        None => r == Err::<String, AutomergeError>(AutomergeError::NotFound),
        Some(t) => if t != ObjType::Text {
            r == Err::<String, AutomergeError>(AutomergeError::WrongType)
        } else {
            let live = live_elems(ops, n as nat, obj);
            r is Ok && r->Ok_0@ == text_of(ops, live, live.len())
        },
    }
}

fn value_of(op: &Op) -> (r: Value)
    ensures
        r == op_value(*op),
{
    match &op.action {
        OpAction::Make(t) => Value::Object(*t),
        OpAction::Put(v) => Value::Scalar(v.duplicate()),
        OpAction::Delete => Value::Scalar(ScalarValue::Null),
    }
}

fn text_piece(op: &Op) -> (r: &str)
    ensures
        r@ == elem_text(*op),
{
    match &op.action {
        OpAction::Put(ScalarValue::Str(s)) => s.as_str(),
        _ => {
            proof {
                reveal_strlit("");
            }
            ""
        },
    }
}

impl Automerge {
    pub open spec fn wf(&self) -> bool {
        &&& self.changes@.len() < u64::MAX
        &&& forall|i: int| 0 <= i < self.changes@.len() ==> (#[trigger] self.changes@[i]).hash.seq == i + 1
        &&& forall|i: int| 0 <= i < self.changes@.len() ==> (#[trigger] self.changes@[i]).ops_end <= self.ops@.len()
        &&& forall|i: int| 0 <= i < self.ops@.len() ==> (#[trigger] self.ops@[i]).id.counter <= self.max_counter
        &&& ids_distinct(self.ops@)
        &&& preds_earlier(self.ops@)
        &&& objects_earlier(self.ops@)
    }

    /// Every operation of the log belongs to a committed change.
    pub open spec fn settled(&self) -> bool {
        &&& self.changes@.len() == 0 ==> self.ops@.len() == 0
        &&& self.changes@.len() > 0 ==> self.changes@.last().ops_end == self.ops@.len()
    }

    /// The operation log.
    pub open spec fn log(&self) -> Seq<Op> {
        self.ops@
    }

    /// The committed changes, oldest first.
    pub open spec fn history(&self) -> Seq<Change> {
        self.changes@
    }

    pub open spec fn actor_id(&self) -> u64 {
        self.actor
    }

    pub fn new(actor: u64) -> (r: Automerge)
        ensures
            r.wf(),
            r.settled(),
            r.log().len() == 0,
            r.history().len() == 0,
            r.actor_id() == actor,
    {
        Automerge { actor, max_counter: 0, ops: Vec::new(), changes: Vec::new() }
    }

    pub fn get_actor(&self) -> (r: u64)
        ensures
            r == self.actor_id(),
    {
        self.actor
    }

    /// The markers of the current version: the latest change, if there is one.
    pub fn get_heads(&self) -> (r: Vec<ChangeHash>)
        requires
            self.wf(),
        ensures
            self.history().len() == 0 ==> r@.len() == 0,
            self.history().len() > 0 ==> r@ == seq![ChangeHash { seq: self.history().len() as u64 }],
    {
        let mut r: Vec<ChangeHash> = Vec::new();
        if self.changes.len() > 0 {
            r.push(ChangeHash { seq: self.changes.len() as u64 });
        }
        r
    }

    /// The number of operations visible at `heads`.
    pub fn prefix_len(&self, heads: &[ChangeHash]) -> (r: usize)
        requires
            self.wf(),
        ensures
            r == prefix_at(self.history(), heads@),
            r <= self.log().len(),
    {
        let mut n: usize = 0;
        let mut i: usize = 0;
        while i < heads.len()
            invariant
                self.wf(),
                i <= heads@.len(),
                n == prefix_at(self.history(), heads@.take(i as int)),
                n <= self.log().len(),
            decreases heads.len() - i,
        {
            let h = heads[i].seq;
            assert(heads@.take(i as int + 1).drop_last() =~= heads@.take(i as int));
            if 1 <= h && h <= self.changes.len() as u64 && self.changes[(h - 1) as usize].ops_end > n {
                n = self.changes[(h - 1) as usize].ops_end;
            }
            i += 1;
        }
        assert(heads@.take(heads@.len() as int) =~= heads@);
        n
    }

    pub(crate) fn get_in(&self, n: usize, obj: OpId, prop: &Prop) -> (r: Result<Option<(Value, OpId)>, AutomergeError>)
        requires
            self.wf(),
            n <= self.log().len(),
        ensures
            get_result(self.log(), n as int, obj, *prop, r),
    {
        let t = match object_type_in(&self.ops, n, obj) {
            None => {
                return Err(AutomergeError::NotFound);
            },
            Some(t) => t,
        };
        match prop {
            Prop::Key(k) => {
                if t != ObjType::Dict {
                    return Err(AutomergeError::WrongType);
                }
                match map_winner(&self.ops, n, obj, k) {
                    None => Ok(None),
                    Some(w) => Ok(Some((value_of(&self.ops[w]), self.ops[w].id))),
                }
            },
            Prop::Index(idx) => {
                if t == ObjType::Dict {
                    return Err(AutomergeError::WrongType);
                }
                let (live, _pos) = live_elements(&self.ops, n, obj);
                if *idx < live.len() {
                    let e = live[*idx];
                    Ok(Some((value_of(&self.ops[e]), self.ops[e].id)))
                } else {
                    Ok(None)
                }
            },
        }
    }

    /// The winning value of `prop` in `obj`, with the id of the operation that wrote it.
    pub fn get(&self, obj: OpId, prop: &Prop) -> (r: Result<Option<(Value, OpId)>, AutomergeError>)
        requires
            self.wf(),
        ensures
            get_result(self.log(), self.log().len() as int, obj, *prop, r),
    {
        self.get_in(self.ops.len(), obj, prop)
    }

    /// `get` on the version named by `heads`.
    pub fn get_at(&self, obj: OpId, prop: &Prop, heads: &[ChangeHash]) -> (r: Result<Option<(Value, OpId)>, AutomergeError>)
        requires
            self.wf(),
        ensures
            get_result(self.log(), prefix_at(self.history(), heads@), obj, *prop, r),
    {
        let n = self.prefix_len(heads);
        self.get_in(n, obj, prop)
    }

    pub(crate) fn text_in(&self, n: usize, obj: OpId) -> (r: Result<String, AutomergeError>)
        requires
            self.wf(),
            n <= self.log().len(),
        ensures
            text_result(self.log(), n as int, obj, r),
    {
        let t = match object_type_in(&self.ops, n, obj) {
            None => {
                return Err(AutomergeError::NotFound);
            },
            Some(t) => t,
        };
        if t != ObjType::Text {
            return Err(AutomergeError::WrongType);
        }
        let (live, _pos) = live_elements(&self.ops, n, obj);
        let mut s = String::new();
        let mut k: usize = 0;
        while k < live.len()
            invariant
                n <= self.ops@.len(),
                live@ == live_elems(self.ops@, n as nat, obj),
                forall|j: int| 0 <= j < live@.len() ==> live@[j] < n,
                k <= live.len(),
                s@ == text_of(self.ops@, live@, k as nat),
            decreases live.len() - k,
        {
            let piece = text_piece(&self.ops[live[k]]);
            s.append(piece);
            k += 1;
        }
        Ok(s)
    }

    /// The characters of text object `obj`, in order.
    pub fn text(&self, obj: OpId) -> (r: Result<String, AutomergeError>)
        requires
            self.wf(),
        ensures
            text_result(self.log(), self.log().len() as int, obj, r),
    {
        self.text_in(self.ops.len(), obj)
    }

    /// `text` on the version named by `heads`.
    pub fn text_at(&self, obj: OpId, heads: &[ChangeHash]) -> (r: Result<String, AutomergeError>)
        requires
            self.wf(),
        ensures
            text_result(self.log(), prefix_at(self.history(), heads@), obj, r),
    {
        let n = self.prefix_len(heads);
        self.text_in(n, obj)
    }

    /// The kind of `obj`, or `None` where no such object exists.
    pub fn object_type(&self, obj: OpId) -> (r: Option<ObjType>)
        requires
            self.wf(),
        ensures
            r == obj_type_of(self.log(), self.log().len() as int, obj),
    {
        object_type_in(&self.ops, self.ops.len(), obj)
    }

    /// Distinct keys of map `obj` that hold a live value, in increasing order;
    /// `None` where `obj` is not a map.
    pub(crate) fn keys_in(&self, n: usize, obj: OpId) -> (r: Option<Vec<String>>)
        requires
            self.wf(),
            n <= self.log().len(),
        ensures
            obj_type_of(self.log(), n as int, obj) != Some(ObjType::Dict) ==> r is None,
            obj_type_of(self.log(), n as int, obj) == Some(ObjType::Dict) ==> r is Some,
            r is Some ==> keys_exact(self.log(), n as int, obj, r->Some_0@),
            r is Some ==> keys_sorted(r->Some_0@),
    {
        match object_type_in(&self.ops, n, obj) {
            Some(ObjType::Dict) => {},
            _ => {
                return None;
            },
        }
        let ghost ops = self.ops@;
        let mut keys: Vec<String> = Vec::new();
        let mut i: usize = 0;
        while i < n
            invariant
                n <= ops.len(),
                ops == self.ops@,
                i <= n,
                forall|j: int| 0 <= j < keys@.len() ==> has_live_key(ops, n as int, obj, (#[trigger] keys@[j])@),
                forall|ii: int| 0 <= ii < i && #[trigger] map_live(ops, n as int, obj, ops[ii].key->Field_0@, ii)
                    ==> exists|j: int| 0 <= j < keys@.len() && keys@[j]@ == ops[ii].key->Field_0@,
                forall|a: int, b: int| 0 <= a < b < keys@.len() ==> keys@[a]@ != keys@[b]@,
            decreases n - i,
        {
            let op = &self.ops[i];
            if op.obj == obj {
                match (&op.key, &op.action) {
                    (Key::Field(k), OpAction::Put(_)) | (Key::Field(k), OpAction::Make(_)) => {
                        if !is_superseded(&self.ops, n, op.id) {
                            proof {
                                assert(map_live(ops, n as int, obj, k@, i as int));
                            }
                            let mut j: usize = 0;
                            let mut found = false;
                            while j < keys.len()
                                invariant
                                    j <= keys.len(),
                                    !found ==> forall|jj: int| 0 <= jj < j ==> keys@[jj]@ != k@,
                                    found ==> exists|jj: int| 0 <= jj < keys@.len() && keys@[jj]@ == k@,
                                decreases keys.len() - j,
                            {
                                if keys[j].eq(k) {
                                    found = true;
                                }
                                j += 1;
                            }
                            if !found {
                                let ghost old_keys = keys@;
                                keys.push(k.clone());
                                proof {
                                    assert(keys@[old_keys.len() as int] == *k);
                                    assert forall|ii: int| 0 <= ii < i + 1 && #[trigger] map_live(ops, n as int, obj, ops[ii].key->Field_0@, ii)
                                        implies exists|j: int| 0 <= j < keys@.len() && keys@[j]@ == ops[ii].key->Field_0@ by {
                                        if ii < i {
                                            let j0 = choose|j: int| 0 <= j < old_keys.len() && old_keys[j]@ == ops[ii].key->Field_0@;
                                            assert(keys@[j0] == old_keys[j0]);
                                        } else {
                                            assert(keys@[old_keys.len() as int]@ == ops[ii].key->Field_0@);
                                        }
                                    }
                                }
                            }
                        }
                    },
                    _ => {},
                }
            }
            i += 1;
        }
        proof {
            assert forall|ii: int| #[trigger] map_live(ops, n as int, obj, ops[ii].key->Field_0@, ii)
                implies exists|j: int| 0 <= j < keys@.len() && keys@[j]@ == ops[ii].key->Field_0@ by {
                assert(0 <= ii < i);
            }
        }
        let sorted = sort_strings(&keys);
        proof {
            assert forall|j: int| 0 <= j < sorted@.len() implies has_live_key(ops, n as int, obj, (#[trigger] sorted@[j])@) by {
                let kk = choose|kk: int| 0 <= kk < keys@.len() && keys@[kk]@ == sorted@[j]@;
                assert(has_live_key(ops, n as int, obj, keys@[kk]@));
            }
            assert forall|ii: int| #[trigger] map_live(ops, n as int, obj, ops[ii].key->Field_0@, ii)
                implies exists|j: int| 0 <= j < sorted@.len() && sorted@[j]@ == ops[ii].key->Field_0@ by {
                let kk = choose|kk: int| 0 <= kk < keys@.len() && keys@[kk]@ == ops[ii].key->Field_0@;
                assert(in_strs(sorted@, keys@[kk]@));
            }
            assert forall|a: int, b: int| 0 <= a < b < sorted@.len() implies sorted@[a]@ != sorted@[b]@ by {
                lemma_str_lt_total(sorted@[a]@, sorted@[b]@);
            }
        }
        Some(sorted)
    }

    /// The keys of map `obj`; empty where `obj` is not a map.
    pub fn keys(&self, obj: OpId) -> (r: Keys)
        requires
            self.wf(),
        ensures
            obj_type_of(self.log(), self.log().len() as int, obj) != Some(ObjType::Dict) ==> r.items@.len() == 0,
            obj_type_of(self.log(), self.log().len() as int, obj) == Some(ObjType::Dict)
                ==> keys_exact(self.log(), self.log().len() as int, obj, r.items@),
            keys_sorted(r.items@),
    {
        Keys::new(self.keys_in(self.ops.len(), obj))
    }

    /// `keys` on the version named by `heads`.
    pub fn keys_at(&self, obj: OpId, heads: &[ChangeHash]) -> (r: KeysAt)
        requires
            self.wf(),
        ensures
            obj_type_of(self.log(), prefix_at(self.history(), heads@), obj) != Some(ObjType::Dict) ==> r.items@.len() == 0,
            obj_type_of(self.log(), prefix_at(self.history(), heads@), obj) == Some(ObjType::Dict)
                ==> keys_exact(self.log(), prefix_at(self.history(), heads@), obj, r.items@),
            keys_sorted(r.items@),
    {
        let n = self.prefix_len(heads);
        KeysAt::new(self.keys_in(n, obj))
    }

    pub(crate) fn length_in(&self, n: usize, obj: OpId) -> (r: usize)
        requires
            self.wf(),
            n <= self.log().len(),
        ensures
            obj_type_of(self.log(), n as int, obj) is None ==> r == 0,
            obj_type_of(self.log(), n as int, obj) matches Some(t) && t != ObjType::Dict
                ==> r == live_elems(self.log(), n as nat, obj).len(),
            obj_type_of(self.log(), n as int, obj) == Some(ObjType::Dict) ==> exists|v: Seq<String>| r == v.len() && #[trigger] keys_exact(self.log(), n as int, obj, v),
    {
        match object_type_in(&self.ops, n, obj) {
            None => 0,
            Some(ObjType::Dict) => {
                let keys = self.keys_in(n, obj);
                match keys {
                    Some(v) => v.len(),
                    None => 0,
                }
            },
            Some(_) => {
                let (live, _pos) = live_elements(&self.ops, n, obj);
                live.len()
            },
        }
    }

    /// The number of live keys of a map or live elements of a list; zero for an absent object.
    pub fn length(&self, obj: OpId) -> (r: usize)
        requires
            self.wf(),
        ensures
            obj_type_of(self.log(), self.log().len() as int, obj) is None ==> r == 0,
            obj_type_of(self.log(), self.log().len() as int, obj) matches Some(t) && t != ObjType::Dict
                ==> r == live_elems(self.log(), self.log().len(), obj).len(),
            obj_type_of(self.log(), self.log().len() as int, obj) == Some(ObjType::Dict) ==> exists|v: Seq<String>| r == v.len() && #[trigger] keys_exact(self.log(), self.log().len() as int, obj, v),
    {
        self.length_in(self.ops.len(), obj)
    }

    /// `length` on the version named by `heads`.
    pub fn length_at(&self, obj: OpId, heads: &[ChangeHash]) -> (r: usize)
        requires
            self.wf(),
        ensures
            obj_type_of(self.log(), prefix_at(self.history(), heads@), obj) is None ==> r == 0,
            obj_type_of(self.log(), prefix_at(self.history(), heads@), obj) == Some(ObjType::Dict)
                ==> exists|v: Seq<String>| r == v.len() && #[trigger] keys_exact(self.log(), prefix_at(self.history(), heads@), obj, v),
            obj_type_of(self.log(), prefix_at(self.history(), heads@), obj) matches Some(t) && t != ObjType::Dict
                ==> r == live_elems(self.log(), prefix_at(self.history(), heads@) as nat, obj).len(),
    {
        let n = self.prefix_len(heads);
        self.length_in(n, obj)
    }

    /// The live elements of list `obj` with visible index in `start..end`; `None`
    /// where `obj` is not a list or text.
    pub(crate) fn list_range_in(&self, n: usize, obj: OpId, start: usize, end: usize) -> (r: Option<Vec<(usize, Value, OpId)>>)
        requires
            self.wf(),
            n <= self.log().len(),
        ensures
            !(obj_type_of(self.log(), n as int, obj) matches Some(t) && t != ObjType::Dict) ==> r is None,
            obj_type_of(self.log(), n as int, obj) matches Some(t) && t != ObjType::Dict ==> r is Some
                && list_range_exact(self.log(), n as nat, obj, start, end, r->Some_0@)
                && live_elems(self.log(), n as nat, obj).len() <= usize::MAX,
    {
        match object_type_in(&self.ops, n, obj) {
            Some(ObjType::List) | Some(ObjType::Text) => {},
            _ => {
                return None;
            },
        }
        let (live, _pos) = live_elements(&self.ops, n, obj);
        let stop = if end < live.len() { end } else { live.len() };
        let mut items: Vec<(usize, Value, OpId)> = Vec::new();
        if start >= stop {
            return Some(items);
        }
        let mut k: usize = start;
        while k < stop
            invariant
                n <= self.ops@.len(),
                live@ == live_elems(self.ops@, n as nat, obj),
                forall|j: int| 0 <= j < live@.len() ==> live@[j] < n,
                stop <= live@.len(),
                start <= k <= stop,
                items@.len() == k - start,
                forall|j: int| 0 <= j < items@.len() ==> #[trigger] items@[j] == (
                    (start + j) as usize,
                    op_value(self.ops@[live@[start + j] as int]),
                    self.ops@[live@[start + j] as int].id,
                ),
            decreases stop - k,
        {
            let e = live[k];
            items.push((k, value_of(&self.ops[e]), self.ops[e].id));
            k += 1;
        }
        Some(items)
    }

    /// Elements of list `obj` with index in `start..end`, in index order.
    pub fn list_range(&self, obj: OpId, start: usize, end: usize) -> (r: ListRange)
        requires
            self.wf(),
        ensures
            !(obj_type_of(self.log(), self.log().len() as int, obj) matches Some(t) && t != ObjType::Dict) ==> r.items@.len() == 0,
            obj_type_of(self.log(), self.log().len() as int, obj) matches Some(t) && t != ObjType::Dict
                ==> list_range_exact(self.log(), self.log().len() as nat, obj, start, end, r.items@),
    {
        ListRange::new(self.list_range_in(self.ops.len(), obj, start, end))
    }

    /// `list_range` on the version named by `heads`.
    pub fn list_range_at(&self, obj: OpId, start: usize, end: usize, heads: &[ChangeHash]) -> (r: ListRangeAt)
        requires
            self.wf(),
        ensures
            !(obj_type_of(self.log(), prefix_at(self.history(), heads@), obj) matches Some(t) && t != ObjType::Dict)
                ==> r.items@.len() == 0,
            obj_type_of(self.log(), prefix_at(self.history(), heads@), obj) matches Some(t) && t != ObjType::Dict
                ==> list_range_exact(self.log(), prefix_at(self.history(), heads@) as nat, obj, start, end, r.items@),
    {
        let n = self.prefix_len(heads);
        ListRangeAt::new(self.list_range_in(n, obj, start, end))
    }

    /// Every live value of `prop` in `obj`, the `get` winner first.
    pub(crate) fn get_all_in(&self, n: usize, obj: OpId, prop: &Prop) -> (r: Result<Vec<(Value, OpId)>, AutomergeError>)
        requires
            self.wf(),
            n <= self.log().len(),
        ensures
            get_all_result(self.log(), n as int, obj, *prop, r),
    {
        let t = match object_type_in(&self.ops, n, obj) {
            None => {
                return Err(AutomergeError::NotFound);
            },
            Some(t) => t,
        };
        match prop {
            Prop::Key(k) => {
                if t != ObjType::Dict {
                    return Err(AutomergeError::WrongType);
                }
                let w = map_live_writes(&self.ops, n, obj, k);
                let mut out: Vec<(Value, OpId)> = Vec::new();
                let mut j: usize = 0;
                while j < w.len()
                    invariant
                        n <= self.ops@.len(),
                        forall|jj: int| 0 <= jj < w@.len() ==> map_live(self.ops@, n as int, obj, k@, #[trigger] w@[jj] as int),
                        j <= w@.len(),
                        out@.len() == j,
                        forall|jj: int| 0 <= jj < w@.len() ==> #[trigger] w@[jj] < n,
                        forall|jj: int| 0 <= jj < j ==> #[trigger] out@[jj] == (op_value(self.ops@[w@[jj] as int]), self.ops@[w@[jj] as int].id),
                    decreases w.len() - j,
                {
                    out.push((value_of(&self.ops[w[j]]), self.ops[w[j]].id));
                    j += 1;
                }
                proof {
                    let ops = self.ops@;
                    assert forall|jj: int| 0 <= jj < out@.len() implies is_live_entry(ops, n as int, obj, k@, #[trigger] out@[jj]) by {
                        assert(map_live(ops, n as int, obj, k@, w@[jj] as int));
                    }
                    assert forall|i: int| #[trigger] map_live(ops, n as int, obj, k@, i) implies out@.contains((op_value(ops[i]), ops[i].id)) by {
                        let j = choose|j: int| 0 <= j < w@.len() && w@[j] == i;
                        assert(out@[j] == (op_value(ops[i]), ops[i].id));
                    }
                    assert forall|a: int, b: int| 0 <= a < b < out@.len() implies rank_gt(out@[a].1, out@[b].1) by {
                        assert(out@[a].1 == ops[w@[a] as int].id && out@[b].1 == ops[w@[b] as int].id);
                    }
                }
                Ok(out)
            },
            Prop::Index(idx) => {
                if t == ObjType::Dict {
                    return Err(AutomergeError::WrongType);
                }
                let (live, _pos) = live_elements(&self.ops, n, obj);
                let mut out: Vec<(Value, OpId)> = Vec::new();
                if *idx < live.len() {
                    let e = live[*idx];
                    out.push((value_of(&self.ops[e]), self.ops[e].id));
                }
                Ok(out)
            },
        }
    }

    /// Every live value of `prop` in `obj`, from the greatest tie-break rank down.
    pub fn get_all(&self, obj: OpId, prop: &Prop) -> (r: Result<Vec<(Value, OpId)>, AutomergeError>)
        requires
            self.wf(),
        ensures
            get_all_result(self.log(), self.log().len() as int, obj, *prop, r),
    {
        self.get_all_in(self.ops.len(), obj, prop)
    }

    /// `get_all` on the version named by `heads`.
    pub fn get_all_at(&self, obj: OpId, prop: &Prop, heads: &[ChangeHash]) -> (r: Result<Vec<(Value, OpId)>, AutomergeError>)
        requires
            self.wf(),
        ensures
            get_all_result(self.log(), prefix_at(self.history(), heads@), obj, *prop, r),
    {
        let n = self.prefix_len(heads);
        self.get_all_in(n, obj, prop)
    }

    /// Values of a list in order, or the winning value of each key of a map in
    /// key order, without indices or keys; `None` for an absent object.
    pub(crate) fn values_in(&self, n: usize, obj: OpId) -> (r: Option<Vec<(Value, OpId)>>)
        requires
            self.wf(),
            n <= self.log().len(),
        ensures
            obj_type_of(self.log(), n as int, obj) is None ==> r is None,
            obj_type_of(self.log(), n as int, obj) matches Some(t) && t != ObjType::Dict ==> r is Some && {
                let live = live_elems(self.log(), n as nat, obj);
                let v = r->Some_0@;
                &&& v.len() == live.len()
                &&& forall|j: int| 0 <= j < v.len() ==> #[trigger] v[j] == (op_value(self.log()[live[j] as int]), self.log()[live[j] as int].id)
            },
            obj_type_of(self.log(), n as int, obj) == Some(ObjType::Dict) ==> r is Some
                && map_values_exact(self.log(), n as int, obj, r->Some_0@),
    {
        if let Some(ObjType::Dict) = object_type_in(&self.ops, n, obj) {
            let none: Option<String> = None;
            let entries = self.map_entries_in(n, obj, &none, &none);
            let entries = match entries {
                Some(e) => e,
                None => {
                    return None;
                },
            };
            let mut out: Vec<(Value, OpId)> = Vec::new();
            let mut j: usize = 0;
            while j < entries.len()
                invariant
                    j <= entries@.len(),
                    out@.len() == j,
                    forall|jj: int| 0 <= jj < j ==> #[trigger] out@[jj] == (entries@[jj].1, entries@[jj].2),
                decreases entries.len() - j,
            {
                out.push((entries[j].1.duplicate(), entries[j].2));
                j += 1;
            }
            proof {
                assert(map_entries_exact(self.ops@, n as int, obj, none, none, entries@));
            }
            return Some(out);
        }
        match self.list_range_in(n, obj, 0, usize::MAX) {
            None => None,
            Some(items) => {
                assert(items@.len() == live_elems(self.ops@, n as nat, obj).len());
                let ghost live = live_elems(self.ops@, n as nat, obj);
                let mut out: Vec<(Value, OpId)> = Vec::new();
                let mut j: usize = 0;
                while j < items.len()
                    invariant
                        items@.len() == live.len(),
                        j <= items@.len(),
                        out@.len() == j,
                        forall|jj: int| 0 <= jj < items@.len() ==> #[trigger] items@[jj] == (
                            jj as usize, op_value(self.ops@[live[jj] as int]), self.ops@[live[jj] as int].id),
                        forall|jj: int| 0 <= jj < j ==> #[trigger] out@[jj] == (op_value(self.ops@[live[jj] as int]), self.ops@[live[jj] as int].id),
                    decreases items.len() - j,
                {
                    let (_i, v, id) = &items[j];
                    out.push((v.duplicate(), *id));
                    j += 1;
                }
                Some(out)
            },
        }
    }

    /// Values of list `obj` in order, or of each key of map `obj` in key order;
    /// empty for an absent object.
    pub fn values(&self, obj: OpId) -> (r: Values)
        requires
            self.wf(),
        ensures
            obj_type_of(self.log(), self.log().len() as int, obj) is None ==> r.items@.len() == 0,
            obj_type_of(self.log(), self.log().len() as int, obj) matches Some(t) && t != ObjType::Dict ==> {
                let live = live_elems(self.log(), self.log().len(), obj);
                &&& r.items@.len() == live.len()
                &&& forall|j: int| 0 <= j < live.len() ==> #[trigger] r.items@[j] == (op_value(self.log()[live[j] as int]), self.log()[live[j] as int].id)
            },
            obj_type_of(self.log(), self.log().len() as int, obj) == Some(ObjType::Dict)
                ==> map_values_exact(self.log(), self.log().len() as int, obj, r.items@),
    {
        Values::new(self.values_in(self.ops.len(), obj))
    }

    /// `values` on the version named by `heads`.
    pub fn values_at(&self, obj: OpId, heads: &[ChangeHash]) -> (r: Values)
        requires
            self.wf(),
        ensures
            obj_type_of(self.log(), prefix_at(self.history(), heads@), obj) is None ==> r.items@.len() == 0,
            obj_type_of(self.log(), prefix_at(self.history(), heads@), obj) matches Some(t) && t != ObjType::Dict ==> {
                let live = live_elems(self.log(), prefix_at(self.history(), heads@) as nat, obj);
                &&& r.items@.len() == live.len()
                &&& forall|j: int| 0 <= j < live.len() ==> #[trigger] r.items@[j] == (op_value(self.log()[live[j] as int]), self.log()[live[j] as int].id)
            },
            obj_type_of(self.log(), prefix_at(self.history(), heads@), obj) == Some(ObjType::Dict)
                ==> map_values_exact(self.log(), prefix_at(self.history(), heads@), obj, r.items@),
    {
        let n = self.prefix_len(heads);
        Values::new(self.values_in(n, obj))
    }

    /// The entries of map `obj` among the first `n` operations whose key lies in
    /// the range from `start` (included) to `end` (excluded), in key order, each
    /// with its winning value; `None` where `obj` is not a map.
    pub(crate) fn map_entries_in(&self, n: usize, obj: OpId, start: &Option<String>, end: &Option<String>) -> (r: Option<Vec<(String, Value, OpId)>>)
        requires
            self.wf(),
            n <= self.log().len(),
        ensures
            obj_type_of(self.log(), n as int, obj) != Some(ObjType::Dict) ==> r is None,
            obj_type_of(self.log(), n as int, obj) == Some(ObjType::Dict) ==> r is Some
                && map_entries_exact(self.log(), n as int, obj, *start, *end, r->Some_0@),
    {
        let keys = match self.keys_in(n, obj) {
            None => {
                return None;
            },
            Some(k) => k,
        };
        let mut out: Vec<(String, Value, OpId)> = Vec::new();
        let mut j: usize = 0;
        while j < keys.len()
            invariant
                self.wf(),
                n <= self.log().len(),
                obj_type_of(self.log(), n as int, obj) == Some(ObjType::Dict),
                j <= keys@.len(),
                forall|jj: int| 0 <= jj < out@.len() ==> get_result(self.log(), n as int, obj,
                    Prop::Key((#[trigger] out@[jj]).0), Ok(Some((out@[jj].1, out@[jj].2)))),
                keys_sorted(keys@),
                forall|a: int, b: int| 0 <= a < b < out@.len() ==> str_lt(out@[a].0@, out@[b].0@),
                forall|a: int, m: int| 0 <= a < out@.len() && j <= m < keys@.len() ==> str_lt(out@[a].0@, keys@[m]@),
                keys_exact(self.log(), n as int, obj, keys@),
                forall|jj: int| 0 <= jj < out@.len() ==> in_range((#[trigger] out@[jj]).0@, *start, *end),
                forall|m: int| 0 <= m < j && in_range(keys@[m]@, *start, *end) ==> exists|a: int| 0 <= a < out@.len() && out@[a].0@ == (#[trigger] keys@[m])@,
            decreases keys.len() - j,
        {
            let k = keys[j].clone();
            if !key_in_range(&k, start, end) {
                proof {
                    assert forall|m: int| 0 <= m < j + 1 && in_range(keys@[m]@, *start, *end) implies exists|a: int| 0 <= a < out@.len() && out@[a].0@ == (#[trigger] keys@[m])@ by {
                        if m == j {
                            assert(!in_range(keys@[m]@, *start, *end));
                        }
                    }
                }
                j += 1;
                continue;
            }
            proof {
                assert(has_live_key(self.log(), n as int, obj, keys@[j as int]@));
            }
            let prop = Prop::Key(k.clone());
            let got = self.get_in(n, obj, &prop);
            proof {
                assert(k == keys@[j as int]);
                assert(prop->Key_0@ == keys@[j as int]@);
                if got is Ok && got->Ok_0 is None {
                    assert(forall|i: int| !map_live(self.ops@, n as int, obj, prop->Key_0@, i));
                    let w = choose|w: int| map_live(self.ops@, n as int, obj, keys@[j as int]@, w);
                    assert(false);
                }
            }
            match got {
                Ok(Some((v, id))) => {
                    let ghost old_out = out@;
                    out.push((k, v, id));
                    proof {
                        assert forall|a: int, b: int| 0 <= a < b < out@.len() implies str_lt(out@[a].0@, out@[b].0@) by {
                            if b < old_out.len() {
                                assert(out@[a] == old_out[a] && out@[b] == old_out[b]);
                            } else {
                                assert(out@[a] == old_out[a]);
                            }
                        }
                        assert forall|a: int, m: int| 0 <= a < out@.len() && j + 1 <= m < keys@.len() implies str_lt(out@[a].0@, keys@[m]@) by {
                            if a < old_out.len() {
                                assert(out@[a] == old_out[a]);
                            } else {
                                assert(out@[a].0@ == keys@[j as int]@);
                            }
                        }
                        assert forall|m: int| 0 <= m < j + 1 && in_range(keys@[m]@, *start, *end) implies exists|a: int| 0 <= a < out@.len() && out@[a].0@ == (#[trigger] keys@[m])@ by {
                            if m < j {
                                let a = choose|a: int| 0 <= a < old_out.len() && old_out[a].0@ == keys@[m]@;
                                assert(out@[a] == old_out[a]);
                            } else {
                                assert(out@[old_out.len() as int].0@ == keys@[m]@);
                            }
                        }
                    }
                },
                _ => {},
            }
            j += 1;
        }
        Some(out)
    }

    /// The entries of map `obj` with key in `start..end` (an absent bound is
    /// open), in key order, each with its winning value.
    pub fn map_range(&self, obj: OpId, start: &Option<String>, end: &Option<String>) -> (r: MapRange)
        requires
            self.wf(),
        ensures
            obj_type_of(self.log(), self.log().len() as int, obj) != Some(ObjType::Dict) ==> r.items@.len() == 0,
            obj_type_of(self.log(), self.log().len() as int, obj) == Some(ObjType::Dict)
                ==> map_entries_exact(self.log(), self.log().len() as int, obj, *start, *end, r.items@),
    {
        MapRange::new(self.map_entries_in(self.ops.len(), obj, start, end))
    }

    /// `map_range` on the version named by `heads`.
    pub fn map_range_at(&self, obj: OpId, start: &Option<String>, end: &Option<String>, heads: &[ChangeHash]) -> (r: MapRangeAt)
        requires
            self.wf(),
        ensures
            obj_type_of(self.log(), prefix_at(self.history(), heads@), obj) != Some(ObjType::Dict) ==> r.items@.len() == 0,
            obj_type_of(self.log(), prefix_at(self.history(), heads@), obj) == Some(ObjType::Dict)
                ==> map_entries_exact(self.log(), prefix_at(self.history(), heads@), obj, *start, *end, r.items@),
    {
        let n = self.prefix_len(heads);
        MapRangeAt::new(self.map_entries_in(n, obj, start, end))
    }

    /// The object that holds `obj` and where, or `None` for the root and for
    /// objects that are absent or no longer reachable.
    pub(crate) fn parent_object_in(&self, n: usize, obj: OpId) -> (r: Option<(OpId, Prop)>)
        requires
            self.wf(),
            n <= self.log().len(),
        ensures
            r == parent_of(self.log(), n as int, obj),
    {
        proof {
            reveal(parent_of);
        }
        if obj == crate::types::root() {
            return None;
        }
        let found = find_make(&self.ops, n, obj);
        proof {
            crate::opset::lemma_first_make(self.ops@, n as int, obj, 0);
            if found is Some {
                let i = found->Some_0 as int;
                let k = crate::opset::first_make(self.ops@, n as int, obj, 0)->Some_0;
                if k < i {
                    assert(!makes(self.ops@, n as int, obj, k));
                } else if k > i {
                    assert(!makes(self.ops@, n as int, obj, i));
                }
            }
        }
        match found {
            None => None,
            Some(i) => self.parent_at(n, i),
        }
    }

    /// Where the object made by operation `i` sits in its parent.
    fn parent_at(&self, n: usize, i: usize) -> (r: Option<(OpId, Prop)>)
        requires
            self.wf(),
            i < n <= self.log().len(),
        ensures
            r == parent_at_spec(self.log(), n as int, i as int),
    {
        let parent = self.ops[i].obj;
        match &self.ops[i].key {
            Key::Field(k) => Some((parent, Prop::Key(k.clone()))),
            Key::Insert(_) => {
                let (live, _pos) = live_elements(&self.ops, n, parent);
                match position_in(&live, i) {
                    Some(j) => Some((parent, Prop::Index(j))),
                    None => None,
                }
            },
            Key::Elem(_) => None,
        }
    }

    /// The object that holds `obj`, and the key or index under which it does.
    pub fn parent_object(&self, obj: OpId) -> (r: Option<(OpId, Prop)>)
        requires
            self.wf(),
        ensures
            r == parent_of(self.log(), self.log().len() as int, obj),
    {
        self.parent_object_in(self.ops.len(), obj)
    }

    /// A walk up the parents of `obj`, nearest first.
    pub fn parents(&self, obj: OpId) -> (r: Parents<'_>)
        ensures
            r.obj == obj,
            r.doc == self,
    {
        Parents { obj, doc: self }
    }
}

/// The first position at or after `j` where `live` holds `i`.
pub open spec fn index_of(live: Seq<usize>, i: int, j: int) -> Option<int>
    decreases live.len() - j,
{
    if j < 0 || j >= live.len() {
        None
    } else if live[j] as int == i {
        Some(j)
    } else {
        index_of(live, i, j + 1)
    }
}

fn position_in(live: &Vec<usize>, i: usize) -> (r: Option<usize>)
    ensures
        r is None ==> index_of(live@, i as int, 0) is None,
        r matches Some(j) ==> index_of(live@, i as int, 0) == Some(j as int),
{
    let mut j: usize = 0;
    while j < live.len()
        invariant
            j <= live@.len(),
            index_of(live@, i as int, 0) == index_of(live@, i as int, j as int),
        decreases live.len() - j,
    {
        if live[j] == i {
            return Some(j);
        }
        j += 1;
    }
    None
}

/// Where the object made by operation `i` sits: the key it was written
/// under, or the visible index of its list element (`None` once deleted).
pub open spec fn parent_at_spec(ops: Seq<Op>, n: int, i: int) -> Option<(OpId, Prop)> {
    match ops[i].key {
        Key::Field(k) => Some((ops[i].obj, Prop::Key(k))),
        Key::Insert(_) => match index_of(live_elems(ops, n as nat, ops[i].obj), i, 0) {
            Some(j) => Some((ops[i].obj, Prop::Index(j as usize))),
            None => None,
        },
        Key::Elem(_) => None,
    }
}

/// Where `obj` sits in its parent among the first `n` operations; `None` for
/// the root and for objects that are absent or whose list element was deleted.
#[verifier::opaque]
pub open spec fn parent_of(ops: Seq<Op>, n: int, obj: OpId) -> Option<(OpId, Prop)> {
    if obj == crate::types::spec_root() {
        None
    } else {
        match crate::opset::first_make(ops, n, obj, 0) {
            None => None,
            Some(i) => parent_at_spec(ops, n, i),
        }
    }
}

/// `e` is the value and id of a live write of `key` in map `obj`.
pub open spec fn is_live_entry(ops: Seq<Op>, n: int, obj: OpId, key: Seq<char>, e: (Value, OpId)) -> bool {
    exists|i: int| map_live(ops, n, obj, key, i) && e == (op_value(ops[i]), ops[i].id)
}

/// `v` lists, in index order, the live elements of list `obj` whose visible
/// index lies in `start..end`.
pub open spec fn list_range_exact(ops: Seq<Op>, n: nat, obj: OpId, start: usize, end: usize, v: Seq<(usize, Value, OpId)>) -> bool {
    let live = live_elems(ops, n, obj);
    let stop = if end < live.len() { end as int } else { live.len() as int };
    &&& v.len() == if start < stop { stop - start } else { 0 }
    &&& forall|j: int| 0 <= j < v.len() ==> #[trigger] v[j] == (
        (start + j) as usize,
        op_value(ops[live[start + j] as int]),
        ops[live[start + j] as int].id,
    )
}

/// `r` is what `get_all` owes on `prop` of `obj` among the first `n` operations.
pub open spec fn get_all_result(ops: Seq<Op>, n: int, obj: OpId, prop: Prop, r: Result<Vec<(Value, OpId)>, AutomergeError>) -> bool {
    match obj_type_of(ops, n, obj) {
        None => r == Err::<Vec<(Value, OpId)>, AutomergeError>(AutomergeError::NotFound),
        Some(t) => match prop {
            Prop::Key(k) => if t != ObjType::Dict {
                r == Err::<Vec<(Value, OpId)>, AutomergeError>(AutomergeError::WrongType)
            } else {
                r is Ok && {
                    let v = r->Ok_0@;
                    &&& forall|j: int| 0 <= j < v.len() ==> is_live_entry(ops, n, obj, k@, #[trigger] v[j])
                    &&& forall|i: int| #[trigger] map_live(ops, n, obj, k@, i) ==> v.contains((op_value(ops[i]), ops[i].id))
                    &&& forall|a: int, b: int| 0 <= a < b < v.len() ==> rank_gt(v[a].1, v[b].1)
                }
            },
            Prop::Index(idx) => if t == ObjType::Dict {
                r == Err::<Vec<(Value, OpId)>, AutomergeError>(AutomergeError::WrongType)
            } else {
                let live = live_elems(ops, n as nat, obj);
                r is Ok && if idx < live.len() {
                    r->Ok_0@ == seq![(op_value(ops[live[idx as int] as int]), ops[live[idx as int] as int].id)]
                } else {
                    r->Ok_0@.len() == 0
                }
            },
        },
    }
}

/// `k` lies in the range from `start` (included) to `end` (excluded); an
/// absent bound is open.
pub open spec fn in_range(k: Seq<char>, start: Option<String>, end: Option<String>) -> bool {
    &&& (start is Some ==> !str_lt(k, start->Some_0@))
    &&& (end is Some ==> str_lt(k, end->Some_0@))
}

fn key_in_range(k: &String, start: &Option<String>, end: &Option<String>) -> (r: bool)
    ensures
        r == in_range(k@, *start, *end),
{
    let lo = match start {
        Some(s) => !crate::opset::string_lt(k, s),
        None => true,
    };
    let hi = match end {
        Some(e) => crate::opset::string_lt(k, e),
        None => true,
    };
    lo && hi
}

/// `v` lists, in strictly increasing key order, each live key of map `obj`
/// that lies in the range, with its winning value and id, and nothing else.
pub open spec fn map_entries_exact(ops: Seq<Op>, n: int, obj: OpId, start: Option<String>, end: Option<String>, v: Seq<(String, Value, OpId)>) -> bool {
    &&& forall|j: int| 0 <= j < v.len() ==> get_result(ops, n, obj, Prop::Key((#[trigger] v[j]).0), Ok(Some((v[j].1, v[j].2))))
    &&& forall|j: int| 0 <= j < v.len() ==> in_range((#[trigger] v[j]).0@, start, end)
    &&& forall|a: int, b: int| 0 <= a < b < v.len() ==> str_lt(v[a].0@, v[b].0@)
    &&& forall|i: int| #[trigger] map_live(ops, n, obj, ops[i].key->Field_0@, i) && in_range(ops[i].key->Field_0@, start, end)
        ==> exists|j: int| 0 <= j < v.len() && v[j].0@ == ops[i].key->Field_0@
}

/// `v` holds the winning value and id of each live key of map `obj`, in key order.
pub open spec fn map_values_exact(ops: Seq<Op>, n: int, obj: OpId, v: Seq<(Value, OpId)>) -> bool {
    exists|e: Seq<(String, Value, OpId)>| #[trigger] map_entries_exact(ops, n, obj, None, None, e)
        && v.len() == e.len() && forall|j: int| 0 <= j < v.len() ==> #[trigger] v[j] == (e[j].1, e[j].2)
}

/// The keys of `v` are in strictly increasing order.
pub open spec fn keys_sorted(v: Seq<String>) -> bool {
    forall|a: int, b: int| 0 <= a < b < v.len() ==> str_lt(v[a]@, v[b]@)
}

/// `v` holds, once each, exactly the keys of map `obj` that have a live value.
pub open spec fn keys_exact(ops: Seq<Op>, n: int, obj: OpId, v: Seq<String>) -> bool {
    &&& forall|j: int| 0 <= j < v.len() ==> has_live_key(ops, n, obj, (#[trigger] v[j])@)
    &&& forall|i: int| #[trigger] map_live(ops, n, obj, ops[i].key->Field_0@, i)
        ==> exists|j: int| 0 <= j < v.len() && v[j]@ == ops[i].key->Field_0@
    &&& forall|a: int, b: int| 0 <= a < b < v.len() ==> v[a]@ != v[b]@
}

/// Some live write of `key` in map `obj` among the first `n` operations.
pub open spec fn has_live_key(ops: Seq<Op>, n: int, obj: OpId, key: Seq<char>) -> bool {
    exists|i: int| map_live(ops, n, obj, key, i)
}

} // verus!
