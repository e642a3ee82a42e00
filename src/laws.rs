//! Properties that hold across calls: rollback restores the document, and a
//! read of a past version never changes as history grows.
use vstd::prelude::*;
use crate::doc::{Automerge, get_result, prefix_at};
use crate::opset::{
    lemma_first_make_prefix, lemma_list_elems_bounded, list_elems, live_elems, live_positions,
    map_live, obj_type_of, superseded,
};
use crate::transaction::{Transaction, rolled_back};
use crate::types::{ChangeHash, Op, OpId, Prop, Value};

verus! {

/// Every read of the first `n` operations is a function of those operations alone.
pub proof fn lemma_reads_prefix(ops1: Seq<Op>, ops2: Seq<Op>, n: int)
    requires
        0 <= n <= ops1.len(),
        n <= ops2.len(),
        n <= usize::MAX,
        ops1.take(n) == ops2.take(n),
    ensures
        forall|i: int| 0 <= i < n ==> ops1[i] == ops2[i],
        forall|id: OpId| #[trigger] superseded(ops1, n, id) == superseded(ops2, n, id),
        forall|obj: OpId| #[trigger] obj_type_of(ops1, n, obj) == obj_type_of(ops2, n, obj),
        forall|obj: OpId| #[trigger] live_elems(ops1, n as nat, obj) == live_elems(ops2, n as nat, obj),
{
    assert forall|i: int| 0 <= i < n implies ops1[i] == ops2[i] by {
        assert(ops1[i] == ops1.take(n)[i]);
        assert(ops2[i] == ops2.take(n)[i]);
    }
    assert forall|id: OpId| #[trigger] superseded(ops1, n, id) == superseded(ops2, n, id) by {
        reveal(superseded);
    }
    assert forall|obj: OpId| #[trigger] obj_type_of(ops1, n, obj) == obj_type_of(ops2, n, obj) by {
        lemma_first_make_prefix(ops1, ops2, n, obj, 0);
        crate::opset::lemma_first_make(ops1, n, obj, 0);
    }
    assert forall|obj: OpId| #[trigger] live_elems(ops1, n as nat, obj) == live_elems(ops2, n as nat, obj) by {
        lemma_list_elems_prefix(ops1, ops2, n, n as nat, obj);
        let elems = list_elems(ops1, n as nat, obj);
        lemma_list_elems_bounded(ops1, n as nat, obj);
        lemma_live_positions_prefix(ops1, ops2, n, elems, elems.len());
    }
}

proof fn lemma_list_elems_prefix(ops1: Seq<Op>, ops2: Seq<Op>, n: int, m: nat, obj: OpId)
    requires
        m <= n,
        forall|i: int| 0 <= i < n ==> ops1[i] == ops2[i],
    ensures
        list_elems(ops1, m, obj) == list_elems(ops2, m, obj),
    decreases m,
{
    if m > 0 {
        lemma_list_elems_prefix(ops1, ops2, n, (m - 1) as nat, obj);
    }
}

proof fn lemma_live_positions_prefix(ops1: Seq<Op>, ops2: Seq<Op>, n: int, elems: Seq<usize>, k: nat)
    requires
        k <= elems.len(),
        forall|e: int| 0 <= e < elems.len() ==> elems[e] < n,
        forall|i: int| 0 <= i < n ==> ops1[i] == ops2[i],
        forall|id: OpId| #[trigger] superseded(ops1, n, id) == superseded(ops2, n, id),
    ensures
        live_positions(ops1, n, elems, k) == live_positions(ops2, n, elems, k),
    decreases k,
{
    if k > 0 {
        lemma_live_positions_prefix(ops1, ops2, n, elems, (k - 1) as nat);
        assert(ops1[elems[k - 1] as int] == ops2[elems[k - 1] as int]);
    }
}

/// `get` on the first `n` operations owes the same result whatever follows them.
pub proof fn lemma_get_prefix(ops1: Seq<Op>, ops2: Seq<Op>, n: int, obj: OpId, prop: Prop, r: Result<Option<(Value, OpId)>, crate::types::AutomergeError>)
    requires
        0 <= n <= ops1.len(),
        n <= ops2.len(),
        n <= usize::MAX,
        ops1.take(n) == ops2.take(n),
    ensures
        get_result(ops1, n, obj, prop, r) == get_result(ops2, n, obj, prop, r),
{
    lemma_reads_prefix(ops1, ops2, n);
    lemma_list_elems_bounded(ops1, n as nat, obj);
    match prop {
        Prop::Key(k) => {
            assert forall|i: int| #[trigger] map_live(ops1, n, obj, k@, i) == map_live(ops2, n, obj, k@, i) by {
                if 0 <= i < n {
                    assert(ops1[i] == ops2[i]);
                }
            }
            if obj_type_of(ops1, n, obj) == Some(crate::types::ObjType::Dict) {
                if get_result(ops1, n, obj, prop, r) {
                    lemma_get_key_one_way(ops1, ops2, n, obj, k, r);
                }
                if get_result(ops2, n, obj, prop, r) {
                    lemma_get_key_one_way(ops2, ops1, n, obj, k, r);
                }
            }
        },
        Prop::Index(idx) => {
            let live = live_elems(ops1, n as nat, obj);
            if idx < live.len() {
                crate::opset::lemma_live_elems_bounded(ops1, n as nat, obj);
                assert(ops1[live[idx as int] as int] == ops2[live[idx as int] as int]);
            }
        },
    }
}

proof fn lemma_get_key_one_way(ops1: Seq<Op>, ops2: Seq<Op>, n: int, obj: OpId, k: String, r: Result<Option<(Value, OpId)>, crate::types::AutomergeError>)
    requires
        forall|i: int| 0 <= i < n ==> ops1[i] == ops2[i],
        forall|i: int| #[trigger] map_live(ops1, n, obj, k@, i) == map_live(ops2, n, obj, k@, i),
        obj_type_of(ops1, n, obj) == Some(crate::types::ObjType::Dict),
        obj_type_of(ops1, n, obj) == obj_type_of(ops2, n, obj),
        get_result(ops1, n, obj, Prop::Key(k), r),
    ensures
        get_result(ops2, n, obj, Prop::Key(k), r),
{
    match r {
        Ok(Some(p)) => {
            let w = choose|w: int|
                map_live(ops1, n, obj, k@, w) && p.0 == crate::doc::op_value(ops1[w]) && p.1 == ops1[w].id
                    && forall|i: int| map_live(ops1, n, obj, k@, i) ==> !crate::types::rank_gt(ops1[i].id, ops1[w].id);
            assert(map_live(ops2, n, obj, k@, w));
            assert(ops1[w] == ops2[w]);
            assert forall|i: int| map_live(ops2, n, obj, k@, i) implies !crate::types::rank_gt(ops2[i].id, ops2[w].id) by {
                assert(map_live(ops1, n, obj, k@, i));
                assert(ops1[i] == ops2[i]);
            }
        },
        Ok(None) => {
            let prop = Prop::Key(k);
            assert(get_result(ops1, n, obj, prop, r));
            assert(prop is Key && prop->Key_0 == k);
            assert(forall|i: int| !map_live(ops1, n, obj, prop->Key_0@, i));
            assert forall|i: int| !map_live(ops2, n, obj, k@, i) by {
                assert(!map_live(ops1, n, obj, k@, i));
            }
        },
        Err(_) => {},
    }
}

proof fn lemma_prefix_at_same(h1: Seq<crate::doc::Change>, h2: Seq<crate::doc::Change>, heads: Seq<ChangeHash>)
    requires
        h1.len() <= h2.len(),
        h2.take(h1.len() as int) == h1,
        forall|j: int| 0 <= j < heads.len() ==> 1 <= (#[trigger] heads[j]).seq <= h1.len(),
    ensures
        prefix_at(h1, heads) == prefix_at(h2, heads),
    decreases heads.len(),
{
    if heads.len() > 0 {
        let h = heads.last().seq;
        assert(heads[heads.len() - 1].seq == h);
        assert(h1[h - 1] == h2.take(h1.len() as int)[h - 1]);
        lemma_prefix_at_same(h1, h2, heads.drop_last());
    }
}

proof fn lemma_prefix_at_bounded(d: Automerge, heads: Seq<ChangeHash>)
    requires
        d.wf(),
    ensures
        0 <= prefix_at(d.history(), heads) <= d.log().len(),
    decreases heads.len(),
{
    if heads.len() > 0 {
        lemma_prefix_at_bounded(d, heads.drop_last());
        let h = heads.last().seq;
        if 1 <= h <= d.history().len() {
            assert(d.changes@[h - 1].ops_end <= d.ops@.len());
        }
    }
}

/// A read of a past version is stable: once `heads` names changes of `d1`,
/// `get_at` on `heads` owes the same result on every later document `d2` whose
/// log and history extend those of `d1`, as every write and commit does.
pub proof fn lemma_get_at_stable(
    d1: Automerge,
    d2: Automerge,
    heads: Seq<ChangeHash>,
    obj: OpId,
    prop: Prop,
    r: Result<Option<(Value, OpId)>, crate::types::AutomergeError>,
)
    requires
        d1.wf(),
        d2.wf(),
        d2.log().len() <= usize::MAX,
        d1.log().len() <= d2.log().len(),
        d2.log().take(d1.log().len() as int) == d1.log(),
        d1.history().len() <= d2.history().len(),
        d2.history().take(d1.history().len() as int) == d1.history(),
        forall|j: int| 0 <= j < heads.len() ==> 1 <= (#[trigger] heads[j]).seq <= d1.history().len(),
    ensures
        prefix_at(d1.history(), heads) == prefix_at(d2.history(), heads),
        get_result(d1.log(), prefix_at(d1.history(), heads), obj, prop, r)
            == get_result(d2.log(), prefix_at(d2.history(), heads), obj, prop, r),
{
    lemma_prefix_at_same(d1.history(), d2.history(), heads);
    lemma_prefix_at_bounded(d1, heads);
    let p = prefix_at(d1.history(), heads);
    assert(d1.log().take(p) =~= d2.log().take(p)) by {
        assert forall|i: int| 0 <= i < p implies d1.log().take(p)[i] == d2.log().take(p)[i] by {
            assert(d2.log().take(d1.log().len() as int)[i] == d2.log()[i]);
        }
    }
    lemma_get_prefix(d1.log(), d2.log(), p, obj, prop, r);
}

/// Rolling back restores the document the transaction was opened on: the same
/// log and history, so every read owes the same result as before the transaction.
pub proof fn lemma_rollback_restores(doc: Automerge, tx: Transaction, count: usize, d: Automerge, obj: OpId, prop: Prop,
    r: Result<Option<(Value, OpId)>, crate::types::AutomergeError>)
    requires
        tx.wf(),
        tx.base_log() == doc.log(),
        tx.doc.history() == doc.history(),
        rolled_back(tx, count, d),
    ensures
        d.log() == doc.log(),
        d.history() == doc.history(),
        get_result(d.log(), d.log().len() as int, obj, prop, r) == get_result(doc.log(), doc.log().len() as int, obj, prop, r),
        obj_type_of(d.log(), d.log().len() as int, obj) == obj_type_of(doc.log(), doc.log().len() as int, obj),
        live_elems(d.log(), d.log().len(), obj) == live_elems(doc.log(), doc.log().len(), obj),
{
}

/// Every live write of `key` in `obj` in the first log has a live twin, with
/// the same id and value, in the second.
pub open spec fn live_writes_within(ops1: Seq<Op>, n1: int, ops2: Seq<Op>, n2: int, obj: OpId, key: Seq<char>) -> bool {
    forall|i: int| #[trigger] map_live(ops1, n1, obj, key, i) ==> exists|j: int|
        map_live(ops2, n2, obj, key, j) && ops2[j].id == ops1[i].id && crate::doc::op_value(ops2[j]) == crate::doc::op_value(ops1[i])
}

/// No two live writes of `key` in `obj` share an id.
pub open spec fn live_ids_unique(ops: Seq<Op>, n: int, obj: OpId, key: Seq<char>) -> bool {
    forall|i: int, j: int| #[trigger] map_live(ops, n, obj, key, i) && #[trigger] map_live(ops, n, obj, key, j)
        && ops[i].id == ops[j].id ==> i == j
}

/// Concurrent writes to one map key resolve the same way in every replica:
/// two replicas that hold the same live writes of a key, in whatever order
/// they merged them, owe the same `get` result, the write with the greatest
/// `(counter, actor)`.
pub proof fn lemma_get_merge_order_independent(
    ops1: Seq<Op>,
    n1: int,
    ops2: Seq<Op>,
    n2: int,
    obj: OpId,
    key: String,
    r1: Result<Option<(Value, OpId)>, crate::types::AutomergeError>,
    r2: Result<Option<(Value, OpId)>, crate::types::AutomergeError>,
)
    requires
        obj_type_of(ops1, n1, obj) == Some(crate::types::ObjType::Dict),
        obj_type_of(ops2, n2, obj) == Some(crate::types::ObjType::Dict),
        live_writes_within(ops1, n1, ops2, n2, obj, key@),
        live_writes_within(ops2, n2, ops1, n1, obj, key@),
        live_ids_unique(ops1, n1, obj, key@),
        live_ids_unique(ops2, n2, obj, key@),
        get_result(ops1, n1, obj, Prop::Key(key), r1),
        get_result(ops2, n2, obj, Prop::Key(key), r2),
    ensures
        r1 == r2,
{
    let prop = Prop::Key(key);
    assert(prop is Key && prop->Key_0 == key);
    match r1 {
        Ok(Some(won1)) => {
            let w1 = choose|w: int|
                map_live(ops1, n1, obj, key@, w) && won1.0 == crate::doc::op_value(ops1[w]) && won1.1 == ops1[w].id
                    && forall|i: int| map_live(ops1, n1, obj, key@, i) ==> !crate::types::rank_gt(ops1[i].id, ops1[w].id);
            let c1 = choose|j: int| map_live(ops2, n2, obj, key@, j) && ops2[j].id == ops1[w1].id
                && crate::doc::op_value(ops2[j]) == crate::doc::op_value(ops1[w1]);
            match r2 {
                Ok(Some(won2)) => {
                    let w2 = choose|w: int|
                        map_live(ops2, n2, obj, key@, w) && won2.0 == crate::doc::op_value(ops2[w]) && won2.1 == ops2[w].id
                            && forall|i: int| map_live(ops2, n2, obj, key@, i) ==> !crate::types::rank_gt(ops2[i].id, ops2[w].id);
                    let c2 = choose|j: int| map_live(ops1, n1, obj, key@, j) && ops1[j].id == ops2[w2].id
                        && crate::doc::op_value(ops1[j]) == crate::doc::op_value(ops2[w2]);
                    assert(!crate::types::rank_gt(ops2[c1].id, ops2[w2].id));
                    assert(!crate::types::rank_gt(ops1[c2].id, ops1[w1].id));
                    assert(ops2[c1].id == ops2[w2].id);
                    assert(c1 == w2);
                },
                Ok(None) => {
                    assert(!map_live(ops2, n2, obj, key@, c1));
                },
                Err(_) => {},
            }
        },
        Ok(None) => {
            assert(forall|i: int| !map_live(ops1, n1, obj, prop->Key_0@, i));
            match r2 {
                Ok(Some(won2)) => {
                    let w2 = choose|w: int|
                        map_live(ops2, n2, obj, key@, w) && won2.0 == crate::doc::op_value(ops2[w]) && won2.1 == ops2[w].id
                            && forall|i: int| map_live(ops2, n2, obj, key@, i) ==> !crate::types::rank_gt(ops2[i].id, ops2[w].id);
                    assert(map_live(ops2, n2, obj, key@, w2));
                    let c2 = choose|j: int| map_live(ops1, n1, obj, key@, j) && ops1[j].id == ops2[w2].id
                        && crate::doc::op_value(ops1[j]) == crate::doc::op_value(ops2[w2]);
                    assert(!map_live(ops1, n1, obj, key@, c2));
                },
                _ => {},
            }
        },
        Err(_) => {},
    }
}

/// The position of the operation that created `obj`, plus one; zero where there is none.
pub open spec fn make_rank(ops: Seq<Op>, obj: OpId) -> int {
    match crate::opset::first_make(ops, ops.len() as int, obj, 0) {
        Some(i) => i + 1,
        None => 0,
    }
}

/// Every parent was created before its child, so a walk up the parents
/// (`Parents::next` again and again) ends: each step reaches the root or an
/// object created earlier.
pub proof fn lemma_parent_created_earlier(ops: Seq<Op>, obj: OpId)
    requires
        crate::opset::objects_earlier(ops),
        crate::doc::parent_of(ops, ops.len() as int, obj) is Some,
    ensures
        crate::doc::parent_of(ops, ops.len() as int, obj)->Some_0.0 == crate::types::spec_root()
            || make_rank(ops, crate::doc::parent_of(ops, ops.len() as int, obj)->Some_0.0) < make_rank(ops, obj),
{
    reveal(crate::doc::parent_of);
    let n = ops.len() as int;
    crate::opset::lemma_first_make(ops, n, obj, 0);
    let i = crate::opset::first_make(ops, n, obj, 0)->Some_0;
    let p = ops[i].obj;
    if p != crate::types::spec_root() {
        let j = choose|j: int| 0 <= j < i && crate::opset::makes(ops, i, ops[i].obj, j);
        assert(crate::opset::makes(ops, n, p, j));
        crate::opset::lemma_first_make(ops, n, p, 0);
    }
}

} // verus!
