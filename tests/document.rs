use automerge::column::{rle_decode, rle_encode, ByteRange, Column, ColumnId, ColumnSpec, ColumnType, GenericColumnRange};
use automerge::doc::Automerge;
use automerge::iters::{Keys, Values};
use automerge::transaction::{CommitOptions, NoObserver, OpObserver};
use automerge::types::{ranks_above, root, AutomergeError, Key, ObjType, Op, OpAction, OpId, Prop, ScalarValue, Value};

fn key(k: &str) -> Prop {
    Prop::Key(k.to_string())
}

fn text_of(v: &Value) -> String {
    match v {
        Value::Scalar(ScalarValue::Str(s)) => s.clone(),
        other => panic!("not a string: {:?}", other),
    }
}

fn int_of(v: &Value) -> i64 {
    match v {
        Value::Scalar(ScalarValue::Int(i)) => *i,
        Value::Scalar(ScalarValue::Counter(i)) => *i,
        other => panic!("not an integer: {:?}", other),
    }
}

fn s(x: &str) -> ScalarValue {
    ScalarValue::Str(x.to_string())
}

#[test]
fn todos_history_scenario() {
    let doc = Automerge::new(1);
    let mut tx = doc.transaction();
    let todos = tx.put_object(root(), &key("todos"), ObjType::List).unwrap();
    tx.insert(todos, 0, s("buy milk")).unwrap();
    let (h1, doc) = tx.commit();
    let heads = vec![h1];
    let mut tx = doc.transaction();
    tx.insert(todos, 1, s("call mom")).unwrap();
    let (h2, doc) = tx.commit();
    assert_ne!(h1, h2);
    let (v, _) = doc.get_at(todos, &Prop::Index(0), &heads).unwrap().unwrap();
    assert_eq!(text_of(&v), "buy milk");
    assert!(doc.get_at(todos, &Prop::Index(1), &heads).unwrap().is_none());
    let mut range = doc.list_range(todos, 0, usize::MAX);
    let (i0, v0, _) = range.next().unwrap();
    let (i1, v1, _) = range.next().unwrap();
    assert!(range.next().is_none());
    assert_eq!((i0, text_of(&v0).as_str()), (0, "buy milk"));
    assert_eq!((i1, text_of(&v1).as_str()), (1, "call mom"));
}

#[test]
fn rolled_back_put_is_not_visible() {
    let doc = Automerge::new(1);
    let mut tx = doc.transaction();
    tx.put(root(), &key("x"), ScalarValue::Int(1)).unwrap();
    let (count, doc) = tx.rollback();
    assert_eq!(count, 1);
    assert!(doc.get(root(), &key("x")).unwrap().is_none());
    assert_eq!(doc.length(root()), 0);
    assert!(doc.keys(root()).next().is_none());
}

#[test]
fn commit_leaves_nothing_pending() {
    let doc = Automerge::new(7);
    let mut tx = doc.transaction();
    tx.put(root(), &key("a"), ScalarValue::Int(1)).unwrap();
    tx.put(root(), &key("b"), ScalarValue::Int(2)).unwrap();
    assert_eq!(tx.pending_ops(), 2);
    let (h, doc) = tx.commit_with(CommitOptions::<NoObserver> { message: Some("two keys".to_string()), time: Some(42), op_observer: None });
    assert_eq!(h.seq, 1);
    assert_eq!(doc.get_heads(), vec![h]);
    let tx = doc.transaction();
    assert_eq!(tx.pending_ops(), 0);
    assert_eq!(tx.get_heads(), vec![h]);
    let (count, doc) = tx.rollback();
    assert_eq!(count, 0);
    assert_eq!(doc.changes[0].message.as_deref(), Some("two keys"));
    assert_eq!(doc.changes[0].time, 42);
}

#[test]
fn rollback_restores_reads() {
    let doc = Automerge::new(1);
    let mut tx = doc.transaction();
    tx.put(root(), &key("a"), ScalarValue::Int(1)).unwrap();
    let (_, doc) = tx.commit();
    let mut tx = doc.transaction();
    tx.put(root(), &key("a"), ScalarValue::Int(5)).unwrap();
    tx.put(root(), &key("b"), ScalarValue::Int(6)).unwrap();
    assert_eq!(tx.length(root()), 2);
    let (count, doc) = tx.rollback();
    assert_eq!(count, 2);
    let (v, _) = doc.get(root(), &key("a")).unwrap().unwrap();
    assert_eq!(int_of(&v), 1);
    assert_eq!(doc.length(root()), 1);
    let mut keys = doc.keys(root());
    assert_eq!(keys.next().as_deref(), Some("a"));
    assert!(keys.next().is_none());
}

#[test]
fn get_at_is_stable_after_later_commits() {
    let doc = Automerge::new(1);
    let mut tx = doc.transaction();
    tx.put(root(), &key("k"), ScalarValue::Int(1)).unwrap();
    let (h1, mut doc) = tx.commit();
    for i in 2..6 {
        let mut tx = doc.transaction();
        tx.put(root(), &key("k"), ScalarValue::Int(i)).unwrap();
        doc = tx.commit().1;
        let (v, _) = doc.get_at(root(), &key("k"), &[h1]).unwrap().unwrap();
        assert_eq!(int_of(&v), 1);
    }
    let (v, _) = doc.get(root(), &key("k")).unwrap().unwrap();
    assert_eq!(int_of(&v), 5);
    assert_eq!(doc.length_at(root(), &[h1]), 1);
}

#[test]
fn text_follows_inserts_and_deletes() {
    let doc = Automerge::new(3);
    let mut tx = doc.transaction();
    let t = tx.put_object(root(), &key("t"), ObjType::Text).unwrap();
    tx.insert(t, 0, s("a")).unwrap();
    tx.insert(t, 1, s("c")).unwrap();
    tx.insert(t, 1, s("b")).unwrap();
    assert_eq!(tx.text(t).unwrap(), "abc");
    tx.delete(t, &Prop::Index(0)).unwrap();
    assert_eq!(tx.text(t).unwrap(), "bc");
    assert_eq!(tx.length(t), 2);
    tx.splice(t, 1, 1, vec![s("x"), s("y")]).unwrap();
    assert_eq!(tx.text(t).unwrap(), "bxy");
    assert_eq!(tx.length(t), 3);
    let (h, doc) = tx.commit();
    assert_eq!(doc.text_at(t, &[h]).unwrap(), "bxy");
    assert_eq!(doc.text_at(t, &[]), Err(AutomergeError::NotFound));
}

#[test]
fn overwrite_keeps_one_live_value() {
    let doc = Automerge::new(2);
    let mut tx = doc.transaction();
    tx.put(root(), &key("x"), ScalarValue::Int(1)).unwrap();
    tx.put(root(), &key("x"), ScalarValue::Int(2)).unwrap();
    let all = tx.get_all(root(), &key("x")).unwrap();
    assert_eq!(all.len(), 1);
    assert_eq!(int_of(&all[0].0), 2);
    assert_eq!(all[0].1, OpId { counter: 2, actor: 2 });
}

#[test]
fn tie_break_prefers_counter_then_actor() {
    let a = OpId { counter: 3, actor: 1 };
    let b = OpId { counter: 3, actor: 2 };
    let c = OpId { counter: 4, actor: 0 };
    assert!(ranks_above(b, a));
    assert!(!ranks_above(a, b));
    assert!(ranks_above(c, b));
    assert!(!ranks_above(a, a));
}

#[test]
fn errors_for_missing_objects_and_bad_positions() {
    let doc = Automerge::new(1);
    let mut tx = doc.transaction();
    let missing = OpId { counter: 99, actor: 9 };
    assert_eq!(tx.put(missing, &key("x"), ScalarValue::Null), Err(AutomergeError::NotFound));
    assert_eq!(tx.insert(root(), 0, ScalarValue::Null), Err(AutomergeError::WrongType));
    let l = tx.put_object(root(), &key("l"), ObjType::List).unwrap();
    assert_eq!(tx.insert(l, 1, ScalarValue::Null), Err(AutomergeError::OutOfRange));
    assert_eq!(tx.delete(l, &Prop::Index(0)), Err(AutomergeError::OutOfRange));
    assert_eq!(tx.put(l, &key("x"), ScalarValue::Null), Err(AutomergeError::WrongType));
    assert_eq!(tx.text(root()), Err(AutomergeError::WrongType));
    assert!(matches!(tx.get(missing, &key("x")), Err(AutomergeError::NotFound)));
    assert_eq!(tx.splice(l, 0, 1, vec![]), Err(AutomergeError::OutOfRange));
    assert_eq!(tx.pending_ops(), 1);
}

#[test]
fn counters_increment() {
    let doc = Automerge::new(1);
    let mut tx = doc.transaction();
    tx.put(root(), &key("n"), ScalarValue::Counter(10)).unwrap();
    tx.increment(root(), &key("n"), 5).unwrap();
    let (v, _) = tx.get(root(), &key("n")).unwrap().unwrap();
    assert_eq!(int_of(&v), 15);
    tx.put(root(), &key("s"), s("str")).unwrap();
    assert_eq!(tx.increment(root(), &key("s"), 1), Err(AutomergeError::WrongType));
    tx.put(root(), &key("m"), ScalarValue::Counter(i64::MAX)).unwrap();
    assert_eq!(tx.increment(root(), &key("m"), 1), Err(AutomergeError::CounterOverflow));
}

#[test]
fn nested_objects_know_their_parents() {
    let doc = Automerge::new(1);
    let mut tx = doc.transaction();
    let m = tx.put_object(root(), &key("m"), ObjType::Dict).unwrap();
    let l = tx.put_object(m, &key("l"), ObjType::List).unwrap();
    let inner = tx.insert_object(l, 0, ObjType::Dict).unwrap();
    assert_eq!(tx.object_type(inner), Some(ObjType::Dict));
    assert_eq!(tx.object_type(l), Some(ObjType::List));
    assert!(tx.parent_object(root()).is_none());
    let mut parents = tx.parents(inner);
    let (p0, prop0) = parents.next().unwrap();
    assert_eq!(p0, l);
    assert!(matches!(prop0, Prop::Index(0)));
    let (p1, prop1) = parents.next().unwrap();
    assert_eq!(p1, m);
    assert!(matches!(prop1, Prop::Key(ref k) if k == "l"));
    let (p2, _) = parents.next().unwrap();
    assert_eq!(p2, root());
    assert!(parents.next().is_none());
}

#[test]
fn map_range_and_values() {
    let doc = Automerge::new(1);
    let mut tx = doc.transaction();
    tx.put(root(), &key("a"), ScalarValue::Int(1)).unwrap();
    tx.put(root(), &key("b"), ScalarValue::Int(2)).unwrap();
    let l = tx.put_object(root(), &key("l"), ObjType::List).unwrap();
    tx.insert(l, 0, ScalarValue::Int(7)).unwrap();
    tx.insert(l, 1, ScalarValue::Int(8)).unwrap();
    let (h, doc) = tx.commit();
    let mut range = doc.map_range_at(root(), &None, &None, &[h]);
    let (k0, v0, _) = range.next().unwrap();
    assert_eq!((k0.as_str(), int_of(&v0)), ("a", 1));
    let (k2, _, _) = range.next_back().unwrap();
    assert_eq!(k2, "l");
    let mut values = doc.values(l);
    assert_eq!(int_of(&values.next().unwrap().0), 7);
    assert_eq!(int_of(&values.next().unwrap().0), 8);
    assert!(values.next().is_none());
    assert!(doc.values(OpId { counter: 50, actor: 1 }).next().is_none());
    assert!(Values::empty().next().is_none());
    assert!(Keys::new(None).next().is_none());
    let mut ks = doc.keys_at(root(), &[h]);
    assert_eq!(ks.next_back().as_deref(), Some("l"));
}

#[test]
fn run_length_round_trip() {
    let cases: Vec<Vec<u64>> = vec![vec![], vec![5], vec![1, 1, 1, 2, 2, 3], vec![u64::MAX, u64::MAX, 0]];
    for values in cases {
        let runs = rle_encode(&values);
        assert_eq!(rle_decode(&runs), values);
    }
    assert_eq!(rle_encode(&vec![4, 4, 4, 9]), vec![(4, 3), (9, 1)]);
    assert_eq!(rle_decode(&vec![(2, 0), (3, 2)]), vec![3, 3]);
}

#[test]
fn column_accessors() {
    let spec = ColumnSpec::new(ColumnId { id: 3 }, ColumnType::DeltaInteger);
    let ranges = GenericColumnRange { parts: vec![ByteRange { start: 4, end: 9 }, ByteRange { start: 9, end: 20 }] };
    let col = Column::new(spec, ranges);
    assert_eq!(col.range(), ByteRange { start: 4, end: 20 });
    assert_eq!(col.col_type(), ColumnType::DeltaInteger);
    assert_eq!(col.id(), ColumnId { id: 3 });
    assert_eq!(col.spec(), spec);
    assert_eq!(col.into_ranges().parts.len(), 2);
}

fn replica(first: (u64, i64), second: (u64, i64)) -> Automerge {
    let mut doc = Automerge::new(9);
    for (actor, value) in [first, second] {
        doc.ops.push(Op {
            id: OpId { counter: 1, actor },
            obj: root(),
            key: Key::Field("k".to_string()),
            action: OpAction::Put(ScalarValue::Int(value)),
            pred: vec![],
        });
    }
    doc.max_counter = 1;
    doc
}

#[test]
fn concurrent_puts_converge() {
    let ab = replica((1, 10), (2, 20));
    let ba = replica((2, 20), (1, 10));
    for doc in [&ab, &ba] {
        let all = doc.get_all(root(), &key("k")).unwrap();
        assert_eq!(all.len(), 2);
        assert_eq!((int_of(&all[0].0), all[0].1), (20, OpId { counter: 1, actor: 2 }));
        assert_eq!((int_of(&all[1].0), all[1].1), (10, OpId { counter: 1, actor: 1 }));
        let (v, id) = doc.get(root(), &key("k")).unwrap().unwrap();
        assert_eq!((int_of(&v), id), (20, OpId { counter: 1, actor: 2 }));
    }
    let mut tx = ab.transaction();
    tx.put(root(), &key("k"), ScalarValue::Int(30)).unwrap();
    let all = tx.get_all(root(), &key("k")).unwrap();
    assert_eq!(all.len(), 1);
    assert_eq!(int_of(&all[0].0), 30);
}

#[test]
fn keys_come_in_increasing_order() {
    let doc = Automerge::new(1);
    let mut tx = doc.transaction();
    for k in ["pear", "apple", "Zoo", "banana", "apple"] {
        tx.put(root(), &key(k), ScalarValue::Null).unwrap();
    }
    tx.delete(root(), &key("banana")).unwrap();
    let mut keys = tx.keys(root());
    let mut seen = Vec::new();
    while let Some(k) = keys.next() {
        seen.push(k);
    }
    assert_eq!(seen, vec!["Zoo", "apple", "pear"]);
    assert_eq!(tx.length(root()), 3);
    let (h, doc) = tx.commit();
    let mut range = doc.map_range_at(root(), &None, &None, &[h]);
    assert_eq!(range.next().unwrap().0, "Zoo");
    assert_eq!(range.next_back().unwrap().0, "pear");
    assert_eq!(range.next().unwrap().0, "apple");
    assert!(range.next().is_none());
}

struct Recorder {
    seen: Vec<OpId>,
}

impl OpObserver for Recorder {
    fn observe(&mut self, op: &Op) {
        self.seen.push(op.id);
    }
}

#[test]
fn observer_sees_folded_ops_in_order() {
    let doc = Automerge::new(4);
    let mut tx = doc.transaction();
    tx.put(root(), &key("a"), ScalarValue::Int(1)).unwrap();
    let (_, doc) = tx.commit();
    let mut tx = doc.transaction();
    tx.put(root(), &key("b"), ScalarValue::Int(2)).unwrap();
    tx.put(root(), &key("c"), ScalarValue::Int(3)).unwrap();
    let mut rec = Recorder { seen: vec![] };
    let (_, doc) = tx.commit_with(CommitOptions { message: None, time: None, op_observer: Some(&mut rec) });
    assert_eq!(rec.seen, vec![OpId { counter: 2, actor: 4 }, OpId { counter: 3, actor: 4 }]);
    assert!(doc.changes[1].time > 0);
}

#[test]
fn map_range_respects_bounds_and_values_cover_maps() {
    let doc = Automerge::new(1);
    let mut tx = doc.transaction();
    for (k, v) in [("d", 4), ("a", 1), ("c", 3), ("b", 2)] {
        tx.put(root(), &key(k), ScalarValue::Int(v)).unwrap();
    }
    let mut range = tx.map_range(root(), &Some("b".to_string()), &Some("d".to_string()));
    let (k0, v0, _) = range.next().unwrap();
    let (k1, v1, _) = range.next().unwrap();
    assert!(range.next().is_none());
    assert_eq!((k0.as_str(), int_of(&v0)), ("b", 2));
    assert_eq!((k1.as_str(), int_of(&v1)), ("c", 3));
    let mut open_end = tx.map_range(root(), &Some("c".to_string()), &None);
    assert_eq!(open_end.next().unwrap().0, "c");
    assert_eq!(open_end.next().unwrap().0, "d");
    assert!(open_end.next().is_none());
    let mut values = tx.values(root());
    let got: Vec<i64> = (0..4).map(|_| int_of(&values.next().unwrap().0)).collect();
    assert_eq!(got, vec![1, 2, 3, 4]);
    assert!(values.next().is_none());
}

#[test]
fn parent_walk_stops_at_deleted_element() {
    let doc = Automerge::new(1);
    let mut tx = doc.transaction();
    let l = tx.put_object(root(), &key("l"), ObjType::List).unwrap();
    let inner = tx.insert_object(l, 0, ObjType::Dict).unwrap();
    assert!(matches!(tx.parent_object(inner), Some((p, Prop::Index(0))) if p == l));
    tx.delete(l, &Prop::Index(0)).unwrap();
    assert!(tx.parent_object(inner).is_none());
    assert!(tx.parents(inner).next().is_none());
}

#[test]
fn column_ranges_checked_against_buffer() {
    let spec = ColumnSpec::new(ColumnId { id: 1 }, ColumnType::Integer);
    let ok = Column::new(spec, GenericColumnRange { parts: vec![ByteRange { start: 0, end: 3 }, ByteRange { start: 3, end: 8 }] });
    assert_eq!(ok.check(8), Ok(()));
    assert_eq!(ok.check(7), Err(AutomergeError::DecodeError));
    let gap = GenericColumnRange { parts: vec![ByteRange { start: 0, end: 3 }, ByteRange { start: 4, end: 8 }] };
    assert_eq!(gap.check(100), Err(AutomergeError::DecodeError));
    let backwards = GenericColumnRange { parts: vec![ByteRange { start: 5, end: 3 }] };
    assert_eq!(backwards.check(100), Err(AutomergeError::DecodeError));
    assert_eq!(GenericColumnRange { parts: vec![] }.check(0), Err(AutomergeError::DecodeError));
}
