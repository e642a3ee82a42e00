use vstd::prelude::*;

verus! {

/// Identifier of one operation: a per-actor counter and the actor that issued it.
/// Objects are identified by the operation that created them.
#[derive(Clone, Copy, Debug, PartialEq, Eq, Structural)]
pub struct OpId {
    pub counter: u64,
    pub actor: u64,
}

/// The identifier of the root map of every document.
pub open spec fn spec_root() -> OpId {
    OpId { counter: 0, actor: 0 }
}

pub fn root() -> (r: OpId)
    ensures
        r == spec_root(),
{
    OpId { counter: 0, actor: 0 }
}

/// Tie-break order of operations: greater counter first, then greater actor.
pub open spec fn rank_gt(a: OpId, b: OpId) -> bool {
    a.counter > b.counter || (a.counter == b.counter && a.actor > b.actor)
}

pub fn ranks_above(a: OpId, b: OpId) -> (r: bool)
    ensures
        r == rank_gt(a, b),
{
    a.counter > b.counter || (a.counter == b.counter && a.actor > b.actor)
}

#[derive(Clone, Copy, Debug, PartialEq, Eq, Structural)]
pub enum ObjType {
    Dict,
    List,
    Text,
}

#[derive(Debug)]
pub enum ScalarValue {
    Null,
    Int(i64),
    Counter(i64),
    Str(String),
}

impl ScalarValue {
    pub fn duplicate(&self) -> (r: ScalarValue)
        ensures
            r == *self,
    {
        match self {
            ScalarValue::Null => ScalarValue::Null,
            ScalarValue::Int(i) => ScalarValue::Int(*i),
            ScalarValue::Counter(c) => ScalarValue::Counter(*c),
            ScalarValue::Str(s) => ScalarValue::Str(s.clone()),
        }
    }
}

/// What a property holds: a nested container or a scalar.
#[derive(Debug)]
pub enum Value {
    Object(ObjType),
    Scalar(ScalarValue),
}

impl Value {
    pub fn duplicate(&self) -> (r: Value)
        ensures
            r == *self,
    {
        match self {
            Value::Object(t) => Value::Object(*t),
            Value::Scalar(v) => Value::Scalar(v.duplicate()),
        }
    }
}

/// A property of an object: a key of a map or an index of a list.
#[derive(Debug)]
pub enum Prop {
    Key(String),
    Index(usize),
}

/// Where an operation writes inside its object.
#[derive(Debug)]
pub enum Key {
    /// A key of a map.
    Field(String),
    /// A new list element, placed at this position among all elements of the
    /// list, deleted ones included.
    Insert(usize),
    /// An existing list element, named by the operation that inserted it.
    Elem(OpId),
}

#[derive(Debug)]
pub enum OpAction {
    Put(ScalarValue),
    Make(ObjType),
    Delete,
}

/// One immutable edit. `pred` lists the operations that it supersedes.
#[derive(Debug)]
pub struct Op {
    pub id: OpId,
    pub obj: OpId,
    pub key: Key,
    pub action: OpAction,
    pub pred: Vec<OpId>,
}

#[derive(Clone, Copy, Debug, PartialEq, Eq, Structural)]
pub enum AutomergeError {
    NotFound,
    WrongType,
    OutOfRange,
    InvalidHandle,
    DecodeError,
    CounterOverflow,
}

/// A history marker: the sequence number of a committed change, from 1.
#[derive(Clone, Copy, Debug, PartialEq, Eq, Structural)]
pub struct ChangeHash {
    pub seq: u64,
}

} // verus!
