//! Queries over a prefix of the operation log. A document at a version is the
//! first `n` operations of its log; every read below is a function of that prefix.
use vstd::prelude::*;
use crate::types::{Key, Op, OpAction, OpId, ObjType, rank_gt, ranks_above, spec_root};

verus! {

/// Some operation among the first `n` lists `id` as superseded.
#[verifier::opaque]
pub open spec fn superseded(ops: Seq<Op>, n: int, id: OpId) -> bool {
    exists|j: int, k: int|
        0 <= j < n && 0 <= k < ops[j].pred@.len() && #[trigger] ops[j].pred@[k] == id
}

/// The operation puts a value or creates an object (rather than deleting).
pub open spec fn holds_value(op: Op) -> bool {
    op.action is Put || op.action is Make
}

/// Operation `i` is a live write of `key` in map `obj` within the first `n` operations.
pub open spec fn map_live(ops: Seq<Op>, n: int, obj: OpId, key: Seq<char>, i: int) -> bool {
    &&& 0 <= i < n
    &&& ops[i].obj == obj
    &&& ops[i].key is Field
    &&& ops[i].key->Field_0@ == key
    &&& holds_value(ops[i])
    &&& !superseded(ops, n, ops[i].id)
}

/// Operation `i` creates object `obj`.
pub open spec fn makes(ops: Seq<Op>, n: int, obj: OpId, i: int) -> bool {
    0 <= i < n && ops[i].id == obj && ops[i].action is Make
}

/// No two operations of the log share an id.
pub open spec fn ids_distinct(ops: Seq<Op>) -> bool {
    forall|i: int, j: int| 0 <= i < ops.len() && 0 <= j < ops.len() && i != j ==> #[trigger] ops[i].id != #[trigger] ops[j].id
}

/// Every operation supersedes only operations issued before it.
pub open spec fn preds_earlier(ops: Seq<Op>) -> bool {
    forall|i: int, k: int| 0 <= i < ops.len() && 0 <= k < ops[i].pred@.len() ==> (#[trigger] ops[i].pred@[k]).counter < ops[i].id.counter
}

/// Every operation writes into the root or into an object created before it.
pub open spec fn objects_earlier(ops: Seq<Op>) -> bool {
    forall|i: int| 0 <= i < ops.len() ==> (#[trigger] ops[i]).obj == spec_root() || exists|j: int| 0 <= j < i && makes(ops, i, ops[i].obj, j)
}

/// The first operation at or after `i` and before `n` that creates `obj`.
pub open spec fn first_make(ops: Seq<Op>, n: int, obj: OpId, i: int) -> Option<int>
    decreases n - i,
{
    if i >= n || i < 0 {
        None
    } else if makes(ops, n, obj, i) {
        Some(i)
    } else {
        first_make(ops, n, obj, i + 1)
    }
}

/// The kind of object `obj` in the first `n` operations, if it exists.
pub open spec fn obj_type_of(ops: Seq<Op>, n: int, obj: OpId) -> Option<ObjType> {
    if obj == spec_root() {
        Some(ObjType::Dict)
    } else {
        match first_make(ops, n, obj, 0) {
            Some(i) => Some(ops[i].action->Make_0),
            None => None,
        }
    }
}

pub proof fn lemma_first_make(ops: Seq<Op>, n: int, obj: OpId, i: int)
    requires
        0 <= i,
    ensures
        first_make(ops, n, obj, i) matches Some(k) ==> i <= k < n && makes(ops, n, obj, k)
            && forall|j: int| i <= j < k ==> !makes(ops, n, obj, j),
        first_make(ops, n, obj, i) is None ==> forall|j: int| i <= j ==> !makes(ops, n, obj, j),
    decreases n - i,
{
    if i < n {
        lemma_first_make(ops, n, obj, i + 1);
    }
}

/// `first_make` reads only the first `n` operations.
pub proof fn lemma_first_make_prefix(ops1: Seq<Op>, ops2: Seq<Op>, n: int, obj: OpId, i: int)
    requires
        0 <= n <= ops1.len(),
        n <= ops2.len(),
        ops1.take(n) == ops2.take(n),
    ensures
        first_make(ops1, n, obj, i) == first_make(ops2, n, obj, i),
    decreases n - i,
{
    if 0 <= i < n {
        assert(ops1[i] == ops1.take(n)[i]);
        assert(ops2[i] == ops2.take(n)[i]);
        lemma_first_make_prefix(ops1, ops2, n, obj, i + 1);
    }
}

pub fn is_superseded(ops: &Vec<Op>, n: usize, id: OpId) -> (r: bool)
    requires
        n <= ops.len(),
    ensures
        r == superseded(ops@, n as int, id),
{
    proof {
        reveal(superseded);
    }
    let mut j: usize = 0;
    while j < n
        invariant
            j <= n <= ops.len(),
            forall|jj: int, k: int|
                0 <= jj < j && 0 <= k < ops@[jj].pred@.len() ==> #[trigger] ops@[jj].pred@[k] != id,
        decreases n - j,
    {
        let pred = &ops[j].pred;
        let mut k: usize = 0;
        while k < pred.len()
            invariant
                j < n <= ops.len(),
                pred@ == ops@[j as int].pred@,
                k <= pred.len(),
                forall|jj: int, kk: int|
                    0 <= jj < j && 0 <= kk < ops@[jj].pred@.len() ==> #[trigger] ops@[jj].pred@[kk] != id,
                forall|kk: int| 0 <= kk < k ==> pred@[kk] != id,
            decreases pred.len() - k,
        {
            if pred[k] == id {
                assert(ops@[j as int].pred@[k as int] == id);
                proof {
                    reveal(superseded);
                }
                return true;
            }
            k += 1;
        }
        j += 1;
    }
    false
}

/// Whether operation `i` writes `key` of map `obj` with a value.
fn writes_field(op: &Op, obj: OpId, key: &String) -> (r: bool)
    ensures
        r == (op.obj == obj && op.key is Field && op.key->Field_0@ == key@ && holds_value(*op)),
{
    if op.obj != obj {
        return false;
    }
    match &op.action {
        OpAction::Delete => {
            return false;
        },
        _ => {},
    }
    match &op.key {
        Key::Field(k) => k.eq(key),
        _ => false,
    }
}

/// The live write of `key` in `obj` that wins the tie-break, if any.
pub fn map_winner(ops: &Vec<Op>, n: usize, obj: OpId, key: &String) -> (r: Option<usize>)
    requires
        n <= ops.len(),
    ensures
        match r {
            None => forall|i: int| !map_live(ops@, n as int, obj, key@, i),
            Some(w) => map_live(ops@, n as int, obj, key@, w as int) && forall|i: int|
                map_live(ops@, n as int, obj, key@, i) ==> !rank_gt(ops@[i].id, ops@[w as int].id),
        },
{
    let mut best: Option<usize> = None;
    let mut i: usize = 0;
    while i < n
        invariant
            i <= n <= ops.len(),
            match best {
                None => forall|ii: int| 0 <= ii < i ==> !map_live(ops@, n as int, obj, key@, ii),
                Some(w) => w < i && map_live(ops@, n as int, obj, key@, w as int) && forall|ii: int|
                    0 <= ii < i && map_live(ops@, n as int, obj, key@, ii) ==> !rank_gt(
                        ops@[ii].id,
                        ops@[w as int].id,
                    ),
            },
        decreases n - i,
    {
        if writes_field(&ops[i], obj, key) && !is_superseded(ops, n, ops[i].id) {
            match best {
                None => {
                    best = Some(i);
                },
                Some(w) => {
                    if ranks_above(ops[i].id, ops[w].id) {
                        best = Some(i);
                    }
                },
            }
        }
        i += 1;
    }
    best
}

/// The first operation that creates `obj`, if any.
pub fn find_make(ops: &Vec<Op>, n: usize, obj: OpId) -> (r: Option<usize>)
    requires
        n <= ops.len(),
    ensures
        match r {
            None => forall|i: int| !makes(ops@, n as int, obj, i),
            Some(i) => makes(ops@, n as int, obj, i as int) && forall|j: int|
                0 <= j < i ==> !makes(ops@, n as int, obj, j),
        },
{
    let mut i: usize = 0;
    while i < n
        invariant
            i <= n <= ops.len(),
            forall|j: int| 0 <= j < i ==> !makes(ops@, n as int, obj, j),
        decreases n - i,
    {
        if ops[i].id == obj {
            match &ops[i].action {
                OpAction::Make(_) => {
                    return Some(i);
                },
                _ => {},
            }
        }
        i += 1;
    }
    None
}

/// The kind of object `obj`, or `None` where no such object exists.
pub fn object_type_in(ops: &Vec<Op>, n: usize, obj: OpId) -> (r: Option<ObjType>)
    requires
        n <= ops.len(),
    ensures
        r == obj_type_of(ops@, n as int, obj),
{
    if obj == crate::types::root() {
        return Some(ObjType::Dict);
    }
    match find_make(ops, n, obj) {
        None => {
            proof {
                lemma_first_make(ops@, n as int, obj, 0);
            }
            None
        },
        Some(i) => {
            proof {
                lemma_first_make(ops@, n as int, obj, 0);
                let k = first_make(ops@, n as int, obj, 0)->Some_0;
                if k < i {
                    assert(!makes(ops@, n as int, obj, k));
                } else if k > i {
                    assert(!makes(ops@, n as int, obj, i as int));
                }
            }
            match &ops[i].action {
                OpAction::Make(t) => Some(*t),
                _ => None,
            }
        },
    }
}

/// The elements of list `obj` after the first `n` operations, deleted ones
/// included, as indices of the operations that inserted them, in list order.
pub open spec fn list_elems(ops: Seq<Op>, n: nat, obj: OpId) -> Seq<usize>
    decreases n,
{
    if n == 0 {
        Seq::empty()
    } else {
        let prev = list_elems(ops, (n - 1) as nat, obj);
        let op = ops[n - 1];
        if op.obj == obj && op.key is Insert && holds_value(op) {
            let p = op.key->Insert_0;
            if p <= prev.len() {
                prev.insert(p as int, (n - 1) as usize)
            } else {
                prev.push((n - 1) as usize)
            }
        } else {
            prev
        }
    }
}

/// Positions, within `elems`, of the elements not yet deleted among the first `k`.
pub open spec fn live_positions(ops: Seq<Op>, n: int, elems: Seq<usize>, k: nat) -> Seq<usize>
    decreases k,
{
    if k == 0 {
        Seq::empty()
    } else {
        let prev = live_positions(ops, n, elems, (k - 1) as nat);
        if !superseded(ops, n, ops[elems[k - 1] as int].id) {
            prev.push((k - 1) as usize)
        } else {
            prev
        }
    }
}

/// The visible elements of list `obj` after the first `n` operations, in order.
pub open spec fn live_elems(ops: Seq<Op>, n: nat, obj: OpId) -> Seq<usize> {
    let elems = list_elems(ops, n, obj);
    live_positions(ops, n as int, elems, elems.len()).map_values(|p: usize| elems[p as int])
}

/// The characters that one text element contributes.
pub open spec fn elem_text(op: Op) -> Seq<char> {
    if op.action is Put && op.action->Put_0 is Str {
        op.action->Put_0->Str_0@
    } else {
        Seq::empty()
    }
}

/// The text of the first `k` of the visible elements `live`.
pub open spec fn text_of(ops: Seq<Op>, live: Seq<usize>, k: nat) -> Seq<char>
    decreases k,
{
    if k == 0 {
        Seq::empty()
    } else {
        text_of(ops, live, (k - 1) as nat) + elem_text(ops[live[k - 1] as int])
    }
}

pub proof fn lemma_list_elems_bounded(ops: Seq<Op>, n: nat, obj: OpId)
    requires
        n <= usize::MAX,
    ensures
        forall|e: int| 0 <= e < list_elems(ops, n, obj).len() ==> list_elems(ops, n, obj)[e] < n,
    decreases n,
{
    if n > 0 {
        lemma_list_elems_bounded(ops, (n - 1) as nat, obj);
        let prev = list_elems(ops, (n - 1) as nat, obj);
        let op = ops[n - 1];
        if op.obj == obj && op.key is Insert && holds_value(op) {
            let p = op.key->Insert_0;
            if p <= prev.len() {
                let s = prev.insert(p as int, (n - 1) as usize);
                assert forall|e: int| 0 <= e < s.len() implies s[e] < n by {
                    if e < p {
                        assert(s[e] == prev[e]);
                    } else if e > p {
                        assert(s[e] == prev[e - 1]);
                    }
                }
            }
        }
    }
}

pub proof fn lemma_live_positions_bounded(ops: Seq<Op>, n: int, elems: Seq<usize>, k: nat)
    ensures
        live_positions(ops, n, elems, k).len() <= k,
        forall|p: int| 0 <= p < live_positions(ops, n, elems, k).len() ==> live_positions(ops, n, elems, k)[p] < k,
    decreases k,
{
    if k > 0 {
        lemma_live_positions_bounded(ops, n, elems, (k - 1) as nat);
    }
}

pub proof fn lemma_live_elems_bounded(ops: Seq<Op>, n: nat, obj: OpId)
    requires
        n <= usize::MAX,
    ensures
        forall|j: int| 0 <= j < live_elems(ops, n, obj).len() ==> live_elems(ops, n, obj)[j] < n,
{
    let elems = list_elems(ops, n, obj);
    lemma_list_elems_bounded(ops, n, obj);
    lemma_live_positions_bounded(ops, n as int, elems, elems.len());
}

/// All elements of list `obj`, deleted ones included, in list order.
pub fn list_elements(ops: &Vec<Op>, n: usize, obj: OpId) -> (r: Vec<usize>)
    requires
        n <= ops.len(),
    ensures
        r@ == list_elems(ops@, n as nat, obj),
{
    let mut elems: Vec<usize> = Vec::new();
    let mut i: usize = 0;
    while i < n
        invariant
            i <= n <= ops.len(),
            elems@ == list_elems(ops@, i as nat, obj),
        decreases n - i,
    {
        let op = &ops[i];
        if op.obj == obj {
            match (&op.key, &op.action) {
                (Key::Insert(p), OpAction::Put(_)) | (Key::Insert(p), OpAction::Make(_)) => {
                    if *p <= elems.len() {
                        elems.insert(*p, i);
                    } else {
                        elems.push(i);
                    }
                },
                _ => {},
            }
        }
        i += 1;
    }
    elems
}

/// The visible elements of list `obj`, in order, with their positions among all elements.
pub fn live_elements(ops: &Vec<Op>, n: usize, obj: OpId) -> (r: (Vec<usize>, Vec<usize>))
    requires
        n <= ops.len(),
    ensures
        r.1@ == live_positions(ops@, n as int, list_elems(ops@, n as nat, obj), list_elems(ops@, n as nat, obj).len()),
        r.0@ == live_elems(ops@, n as nat, obj),
        r.0@.len() == r.1@.len(),
        forall|j: int| 0 <= j < r.0@.len() ==> r.0@[j] < n,
        forall|j: int| 0 <= j < r.1@.len() ==> r.1@[j] < list_elems(ops@, n as nat, obj).len(),
{
    let elems = list_elements(ops, n, obj);
    proof {
        lemma_list_elems_bounded(ops@, n as nat, obj);
    }
    let mut live: Vec<usize> = Vec::new();
    let mut pos: Vec<usize> = Vec::new();
    let mut k: usize = 0;
    while k < elems.len()
        invariant
            n <= ops.len(),
            elems@ == list_elems(ops@, n as nat, obj),
            forall|e: int| 0 <= e < elems@.len() ==> elems@[e] < n,
            k <= elems.len(),
            pos@ == live_positions(ops@, n as int, elems@, k as nat),
            live@ == pos@.map_values(|p: usize| elems@[p as int]),
        decreases elems.len() - k,
    {
        proof {
            lemma_live_positions_bounded(ops@, n as int, elems@, k as nat);
        }
        let e = elems[k];
        if !is_superseded(ops, n, ops[e].id) {
            live.push(e);
            pos.push(k);
            assert(live@ =~= pos@.map_values(|p: usize| elems@[p as int]));
        }
        k += 1;
    }
    proof {
        lemma_live_positions_bounded(ops@, n as int, elems@, k as nat);
    }
    (live, pos)
}

/// The live writes of `key` in `obj`, as operation indices, from the greatest
/// tie-break rank down.
pub fn map_live_writes(ops: &Vec<Op>, n: usize, obj: OpId, key: &String) -> (r: Vec<usize>)
    requires
        n <= ops.len(),
        ids_distinct(ops@),
    ensures
        forall|j: int| 0 <= j < r@.len() ==> map_live(ops@, n as int, obj, key@, #[trigger] r@[j] as int),
        forall|i: int| map_live(ops@, n as int, obj, key@, i) ==> exists|j: int| 0 <= j < r@.len() && r@[j] == i,
        forall|a: int, b: int| 0 <= a < b < r@.len() ==> rank_gt(ops@[r@[a] as int].id, ops@[r@[b] as int].id),
{
    let mut r: Vec<usize> = Vec::new();
    let mut i: usize = 0;
    while i < n
        invariant
            i <= n <= ops.len(),
            ids_distinct(ops@),
            forall|j: int| 0 <= j < r@.len() ==> map_live(ops@, n as int, obj, key@, #[trigger] r@[j] as int),
            forall|j: int| 0 <= j < r@.len() ==> #[trigger] r@[j] < i,
            forall|ii: int| 0 <= ii < i && map_live(ops@, n as int, obj, key@, ii) ==> exists|j: int| 0 <= j < r@.len() && r@[j] == ii,
            forall|a: int, b: int| 0 <= a < b < r@.len() ==> rank_gt(ops@[r@[a] as int].id, ops@[r@[b] as int].id),
        decreases n - i,
    {
        if writes_field(&ops[i], obj, key) && !is_superseded(ops, n, ops[i].id) {
            let mut p: usize = 0;
            while p < r.len() && !ranks_above(ops[i].id, ops[r[p]].id)
                invariant
                    i < n <= ops.len(),
                    ids_distinct(ops@),
                    p <= r.len(),
                    forall|j: int| 0 <= j < p ==> !rank_gt(ops@[i as int].id, ops@[r@[j] as int].id),
                    forall|j: int| 0 <= j < r@.len() ==> #[trigger] r@[j] < i,
                decreases r.len() - p,
            {
                p += 1;
            }
            let ghost old_r = r@;
            r.insert(p, i);
            proof {
                assert forall|j: int| 0 <= j < r@.len() implies map_live(ops@, n as int, obj, key@, #[trigger] r@[j] as int) by {
                    if j < p { assert(r@[j] == old_r[j]); } else if j > p { assert(r@[j] == old_r[j - 1]); }
                }
                assert forall|j: int| 0 <= j < r@.len() implies #[trigger] r@[j] < i + 1 by {
                    if j < p { assert(r@[j] == old_r[j]); } else if j > p { assert(r@[j] == old_r[j - 1]); }
                }
                assert forall|ii: int| 0 <= ii < i + 1 && map_live(ops@, n as int, obj, key@, ii) implies exists|j: int| 0 <= j < r@.len() && r@[j] == ii by {
                    if ii < i {
                        let j0 = choose|j: int| 0 <= j < old_r.len() && old_r[j] == ii;
                        if j0 < p { assert(r@[j0] == ii); } else { assert(r@[j0 + 1] == ii); }
                    } else {
                        assert(r@[p as int] == ii);
                    }
                }
                assert forall|a: int, b: int| 0 <= a < b < r@.len() implies rank_gt(ops@[r@[a] as int].id, ops@[r@[b] as int].id) by {
                    if b < p {
                        assert(r@[a] == old_r[a] && r@[b] == old_r[b]);
                    } else if b == p {
                        assert(r@[a] == old_r[a]);
                        assert(old_r[a] < i);
                        assert(ops@[old_r[a] as int].id != ops@[i as int].id);
                    } else if a == p {
                        assert(r@[b] == old_r[b - 1]);
                        assert(rank_gt(ops@[i as int].id, ops@[old_r[p as int] as int].id));
                        if b - 1 > p {
                            assert(rank_gt(ops@[old_r[p as int] as int].id, ops@[old_r[b - 1] as int].id));
                        }
                    } else if a < p {
                        assert(r@[a] == old_r[a] && r@[b] == old_r[b - 1]);
                    } else {
                        assert(r@[a] == old_r[a - 1] && r@[b] == old_r[b - 1]);
                    }
                }
            }
        }
        i += 1;
    }
    r
}

/// `a` comes strictly before `b` in lexicographic order of code points, the
/// order in which `String` compares.
pub open spec fn str_lt(a: Seq<char>, b: Seq<char>) -> bool
    decreases a.len(),
{
    if b.len() == 0 {
        false
    } else if a.len() == 0 {
        true
    } else if a[0] == b[0] {
        str_lt(a.drop_first(), b.drop_first())
    } else {
        a[0] < b[0]
    }
}

pub proof fn lemma_str_lt_total(a: Seq<char>, b: Seq<char>)
    ensures
        !str_lt(a, a),
        str_lt(a, b) ==> !str_lt(b, a),
        a != b ==> str_lt(a, b) || str_lt(b, a),
    decreases a.len(),
{
    if a.len() > 0 {
        lemma_str_lt_total(a.drop_first(), a.drop_first());
        if b.len() > 0 {
            lemma_str_lt_total(a.drop_first(), b.drop_first());
            if a[0] == b[0] && a != b {
                assert(a.drop_first() != b.drop_first()) by {
                    if a.drop_first() == b.drop_first() {
                        assert(a =~= seq![a[0]] + a.drop_first());
                        assert(b =~= seq![b[0]] + b.drop_first());
                    }
                }
            }
        }
    } else if b.len() == 0 {
        assert(a =~= b);
    }
}

pub proof fn lemma_str_lt_trans(a: Seq<char>, b: Seq<char>, c: Seq<char>)
    requires
        str_lt(a, b),
        str_lt(b, c),
    ensures
        str_lt(a, c),
    decreases a.len(),
{
    if a.len() > 0 && b.len() > 0 && c.len() > 0 && a[0] == b[0] && b[0] == c[0] {
        lemma_str_lt_trans(a.drop_first(), b.drop_first(), c.drop_first());
    }
}

/// Compares two strings in lexicographic order of code points.
pub fn string_lt(a: &String, b: &String) -> (r: bool)
    ensures
        r == str_lt(a@, b@),
{
    let la = a.as_str().unicode_len();
    let lb = b.as_str().unicode_len();
    let mut i: usize = 0;
    assert(a@.skip(0) =~= a@);
    assert(b@.skip(0) =~= b@);
    while i < la && i < lb
        invariant
            la == a@.len(),
            lb == b@.len(),
            i <= la,
            i <= lb,
            str_lt(a@, b@) == str_lt(a@.skip(i as int), b@.skip(i as int)),
        decreases la - i,
    {
        let ca = a.as_str().get_char(i);
        let cb = b.as_str().get_char(i);
        assert(a@.skip(i as int)[0] == ca);
        assert(b@.skip(i as int)[0] == cb);
        if ca != cb {
            return ca < cb;
        }
        assert(a@.skip(i as int).drop_first() =~= a@.skip(i as int + 1));
        assert(b@.skip(i as int).drop_first() =~= b@.skip(i as int + 1));
        i += 1;
    }
    i == la && i < lb
}

/// Some string of `v` reads `x`.
pub open spec fn in_strs(v: Seq<String>, x: Seq<char>) -> bool {
    exists|k: int| 0 <= k < v.len() && v[k]@ == x
}

/// The strings of `v`, which are distinct, in increasing order.
pub fn sort_strings(v: &Vec<String>) -> (r: Vec<String>)
    requires
        forall|a: int, b: int| 0 <= a < b < v@.len() ==> v@[a]@ != v@[b]@,
    ensures
        forall|j: int| 0 <= j < r@.len() ==> in_strs(v@, (#[trigger] r@[j])@),
        forall|k: int| 0 <= k < v@.len() ==> in_strs(r@, (#[trigger] v@[k])@),
        forall|a: int, b: int| 0 <= a < b < r@.len() ==> str_lt(r@[a]@, r@[b]@),
{
    let mut r: Vec<String> = Vec::new();
    let mut k: usize = 0;
    while k < v.len()
        invariant
            k <= v@.len(),
            forall|a: int, b: int| 0 <= a < b < v@.len() ==> v@[a]@ != v@[b]@,
            forall|j: int| 0 <= j < r@.len() ==> exists|kk: int| 0 <= kk < k && v@[kk]@ == (#[trigger] r@[j])@,
            forall|kk: int| 0 <= kk < k ==> in_strs(r@, (#[trigger] v@[kk])@),
            forall|a: int, b: int| 0 <= a < b < r@.len() ==> str_lt(r@[a]@, r@[b]@),
        decreases v.len() - k,
    {
        let x = v[k].clone();
        let mut p: usize = 0;
        while p < r.len() && string_lt(&r[p], &x)
            invariant
                p <= r@.len(),
                forall|j: int| 0 <= j < p ==> str_lt((#[trigger] r@[j])@, x@),
            decreases r.len() - p,
        {
            p += 1;
        }
        let ghost old_r = r@;
        proof {
            if p < old_r.len() {
                let kk = choose|kk: int| 0 <= kk < k && v@[kk]@ == old_r[p as int]@;
                assert(old_r[p as int]@ != x@);
                lemma_str_lt_total(x@, old_r[p as int]@);
            }
        }
        r.insert(p, x);
        proof {
            assert forall|j: int| 0 <= j < r@.len() implies exists|kk: int| 0 <= kk < k + 1 && v@[kk]@ == (#[trigger] r@[j])@ by {
                if j < p {
                    assert(r@[j] == old_r[j]);
                } else if j > p {
                    assert(r@[j] == old_r[j - 1]);
                } else {
                    assert(v@[k as int]@ == r@[j]@);
                }
            }
            assert forall|kk: int| 0 <= kk < k + 1 implies in_strs(r@, (#[trigger] v@[kk])@) by {
                if kk < k {
                    let j = choose|j: int| 0 <= j < old_r.len() && old_r[j]@ == v@[kk]@;
                    if j < p {
                        assert(r@[j] == old_r[j]);
                    } else {
                        assert(r@[j + 1] == old_r[j]);
                    }
                } else {
                    assert(r@[p as int] == x);
                }
            }
            assert forall|a: int, b: int| 0 <= a < b < r@.len() implies str_lt(r@[a]@, r@[b]@) by {
                if b < p {
                    assert(r@[a] == old_r[a] && r@[b] == old_r[b]);
                } else if b == p {
                    assert(r@[a] == old_r[a]);
                } else if a == p {
                    assert(r@[b] == old_r[b - 1]);
                    if b - 1 > p {
                        lemma_str_lt_trans(x@, old_r[p as int]@, old_r[b - 1]@);
                    }
                } else if a < p {
                    assert(r@[a] == old_r[a] && r@[b] == old_r[b - 1]);
                    if b - 1 > p {
                        lemma_str_lt_trans(x@, old_r[p as int]@, old_r[b - 1]@);
                    }
                    lemma_str_lt_trans(old_r[a]@, x@, old_r[b - 1]@);
                } else {
                    assert(r@[a] == old_r[a - 1] && r@[b] == old_r[b - 1]);
                }
            }
        }
        k += 1;
    }
    proof {
        assert forall|j: int| 0 <= j < r@.len() implies in_strs(v@, (#[trigger] r@[j])@) by {
            let kk = choose|kk: int| 0 <= kk < k && v@[kk]@ == r@[j]@;
        }
    }
    r
}

} // verus!
