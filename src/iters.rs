//! Query results handed out one at a time. Each is a snapshot taken when it was
//! built; an absent object gives an iterator that is exhausted from the start.
use vstd::prelude::*;
use crate::doc::{parent_of, Automerge};
use crate::types::{OpId, Prop, Value};

verus! {

/// Keys of a map in the current version.
#[derive(Debug)]
pub struct Keys {
    pub items: Vec<String>,
}

/// Keys of a map in a past version.
#[derive(Debug)]
pub struct KeysAt {
    pub items: Vec<String>,
}

/// Elements of a list in the current version, with their indices.
#[derive(Debug)]
pub struct ListRange {
    pub items: Vec<(usize, Value, OpId)>,
}

/// Elements of a list in a past version, with their indices.
#[derive(Debug)]
pub struct ListRangeAt {
    pub items: Vec<(usize, Value, OpId)>,
}

/// Entries of a map in the current version.
#[derive(Debug)]
pub struct MapRange {
    pub items: Vec<(String, Value, OpId)>,
}

/// Entries of a map in a past version.
#[derive(Debug)]
pub struct MapRangeAt {
    pub items: Vec<(String, Value, OpId)>,
}

/// Values of an object without their keys or indices.
#[derive(Debug)]
pub struct Values {
    pub items: Vec<(Value, OpId)>,
}

/// A walk up the parents of an object, nearest first. Each step moves to the
/// parent of the object reached so far; the walk ends where there is none.
#[derive(Debug)]
pub struct Parents<'a> {
    pub obj: OpId,
    pub doc: &'a Automerge,
}

impl Keys {
    pub fn new(keys: Option<Vec<String>>) -> (r: Keys)
        ensures
            keys is None ==> r.items@.len() == 0,
            keys is Some ==> r.items@ == keys->Some_0@,
    {
        match keys {
            Some(items) => Keys { items },
            None => Keys { items: Vec::new() },
        }
    }

    pub fn next(&mut self) -> (r: Option<String>)
        ensures
            old(self).items@.len() == 0 ==> r is None && final(self).items@ == old(self).items@,
            old(self).items@.len() > 0 ==> r == Some(old(self).items@[0]) && final(self).items@ == old(self).items@.drop_first(),
    {
        if self.items.len() == 0 {
            None
        } else {
            let r = self.items.remove(0);
            assert(self.items@ =~= old(self).items@.drop_first());
            Some(r)
        }
    }

    pub fn next_back(&mut self) -> (r: Option<String>)
        ensures
            old(self).items@.len() == 0 ==> r is None && final(self).items@ == old(self).items@,
            old(self).items@.len() > 0 ==> r == Some(old(self).items@.last()) && final(self).items@ == old(self).items@.drop_last(),
    {
        self.items.pop()
    }
}

impl KeysAt {
    pub fn new(keys: Option<Vec<String>>) -> (r: KeysAt)
        ensures
            keys is None ==> r.items@.len() == 0,
            keys is Some ==> r.items@ == keys->Some_0@,
    {
        match keys {
            Some(items) => KeysAt { items },
            None => KeysAt { items: Vec::new() },
        }
    }

    pub fn next(&mut self) -> (r: Option<String>)
        ensures
            old(self).items@.len() == 0 ==> r is None && final(self).items@ == old(self).items@,
            old(self).items@.len() > 0 ==> r == Some(old(self).items@[0]) && final(self).items@ == old(self).items@.drop_first(),
    {
        if self.items.len() == 0 {
            None
        } else {
            let r = self.items.remove(0);
            assert(self.items@ =~= old(self).items@.drop_first());
            Some(r)
        }
    }

    pub fn next_back(&mut self) -> (r: Option<String>)
        ensures
            old(self).items@.len() == 0 ==> r is None && final(self).items@ == old(self).items@,
            old(self).items@.len() > 0 ==> r == Some(old(self).items@.last()) && final(self).items@ == old(self).items@.drop_last(),
    {
        self.items.pop()
    }
}

impl ListRange {
    pub fn new(range: Option<Vec<(usize, Value, OpId)>>) -> (r: ListRange)
        ensures
            range is None ==> r.items@.len() == 0,
            range is Some ==> r.items@ == range->Some_0@,
    {
        match range {
            Some(items) => ListRange { items },
            None => ListRange { items: Vec::new() },
        }
    }

    pub fn next(&mut self) -> (r: Option<(usize, Value, OpId)>)
        ensures
            old(self).items@.len() == 0 ==> r is None && final(self).items@ == old(self).items@,
            old(self).items@.len() > 0 ==> r == Some(old(self).items@[0]) && final(self).items@ == old(self).items@.drop_first(),
    {
        if self.items.len() == 0 {
            None
        } else {
            let r = self.items.remove(0);
            assert(self.items@ =~= old(self).items@.drop_first());
            Some(r)
        }
    }
}

impl ListRangeAt {
    pub fn new(range: Option<Vec<(usize, Value, OpId)>>) -> (r: ListRangeAt)
        ensures
            range is None ==> r.items@.len() == 0,
            range is Some ==> r.items@ == range->Some_0@,
    {
        match range {
            Some(items) => ListRangeAt { items },
            None => ListRangeAt { items: Vec::new() },
        }
    }

    pub fn next(&mut self) -> (r: Option<(usize, Value, OpId)>)
        ensures
            old(self).items@.len() == 0 ==> r is None && final(self).items@ == old(self).items@,
            old(self).items@.len() > 0 ==> r == Some(old(self).items@[0]) && final(self).items@ == old(self).items@.drop_first(),
    {
        if self.items.len() == 0 {
            None
        } else {
            let r = self.items.remove(0);
            assert(self.items@ =~= old(self).items@.drop_first());
            Some(r)
        }
    }
}

impl MapRangeAt {
    pub fn new(range: Option<Vec<(String, Value, OpId)>>) -> (r: MapRangeAt)
        ensures
            range is None ==> r.items@.len() == 0,
            range is Some ==> r.items@ == range->Some_0@,
    {
        match range {
            Some(items) => MapRangeAt { items },
            None => MapRangeAt { items: Vec::new() },
        }
    }

    pub fn next(&mut self) -> (r: Option<(String, Value, OpId)>)
        ensures
            old(self).items@.len() == 0 ==> r is None && final(self).items@ == old(self).items@,
            old(self).items@.len() > 0 ==> r == Some(old(self).items@[0]) && final(self).items@ == old(self).items@.drop_first(),
    {
        if self.items.len() == 0 {
            None
        } else {
            let r = self.items.remove(0);
            assert(self.items@ =~= old(self).items@.drop_first());
            Some(r)
        }
    }

    pub fn next_back(&mut self) -> (r: Option<(String, Value, OpId)>)
        ensures
            old(self).items@.len() == 0 ==> r is None && final(self).items@ == old(self).items@,
            old(self).items@.len() > 0 ==> r == Some(old(self).items@.last()) && final(self).items@ == old(self).items@.drop_last(),
    {
        self.items.pop()
    }
}

impl MapRange {
    pub fn new(range: Option<Vec<(String, Value, OpId)>>) -> (r: MapRange)
        ensures
            range is None ==> r.items@.len() == 0,
            range is Some ==> r.items@ == range->Some_0@,
    {
        match range {
            Some(items) => MapRange { items },
            None => MapRange { items: Vec::new() },
        }
    }

    pub fn next(&mut self) -> (r: Option<(String, Value, OpId)>)
        ensures
            old(self).items@.len() == 0 ==> r is None && final(self).items@ == old(self).items@,
            old(self).items@.len() > 0 ==> r == Some(old(self).items@[0]) && final(self).items@ == old(self).items@.drop_first(),
    {
        if self.items.len() == 0 {
            None
        } else {
            let r = self.items.remove(0);
            assert(self.items@ =~= old(self).items@.drop_first());
            Some(r)
        }
    }

    pub fn next_back(&mut self) -> (r: Option<(String, Value, OpId)>)
        ensures
            old(self).items@.len() == 0 ==> r is None && final(self).items@ == old(self).items@,
            old(self).items@.len() > 0 ==> r == Some(old(self).items@.last()) && final(self).items@ == old(self).items@.drop_last(),
    {
        self.items.pop()
    }
}

impl Values {
    pub fn new(range: Option<Vec<(Value, OpId)>>) -> (r: Values)
        ensures
            range is None ==> r.items@.len() == 0,
            range is Some ==> r.items@ == range->Some_0@,
    {
        match range {
            Some(items) => Values { items },
            None => Values::empty(),
        }
    }

    /// An iterator that yields nothing.
    pub fn empty() -> (r: Values)
        ensures
            r.items@.len() == 0,
    {
        Values { items: Vec::new() }
    }

    pub fn next(&mut self) -> (r: Option<(Value, OpId)>)
        ensures
            old(self).items@.len() == 0 ==> r is None && final(self).items@ == old(self).items@,
            old(self).items@.len() > 0 ==> r == Some(old(self).items@[0]) && final(self).items@ == old(self).items@.drop_first(),
    {
        if self.items.len() == 0 {
            None
        } else {
            let r = self.items.remove(0);
            assert(self.items@ =~= old(self).items@.drop_first());
            Some(r)
        }
    }
}

impl<'a> Parents<'a> {
    pub fn next(&mut self) -> (r: Option<(OpId, Prop)>)
        requires
            old(self).doc.wf(),
        ensures
            final(self).doc == old(self).doc,
            r == parent_of(old(self).doc.log(), old(self).doc.log().len() as int, old(self).obj),
            r matches Some(p) ==> final(self).obj == p.0,
            r is None ==> final(self).obj == old(self).obj,
    {
        match self.doc.parent_object(self.obj) {
            Some((obj, prop)) => {
                self.obj = obj;
                Some((obj, prop))
            },
            None => None,
        }
    }
}

} // verus!
