//! Columns of the encoded form: which logical field a column carries, the
//! byte ranges it occupies, and the run-length packing of integer columns.
use vstd::prelude::*;
use crate::types::AutomergeError;

verus! {

/// What a column encodes and how.
#[derive(Clone, Copy, Debug, PartialEq, Eq, Structural)]
pub enum ColumnType {
    Group,
    Actor,
    Integer,
    DeltaInteger,
    Boolean,
    Text,
    ValueMetadata,
    Value,
}

#[derive(Clone, Copy, Debug, PartialEq, Eq, Structural)]
pub struct ColumnId {
    pub id: u32,
}

/// The semantic role of a column: its id and its type.
#[derive(Clone, Copy, Debug, PartialEq, Eq, Structural)]
pub struct ColumnSpec {
    pub id: ColumnId,
    pub col_type: ColumnType,
}

impl ColumnSpec {
    pub fn new(id: ColumnId, col_type: ColumnType) -> (r: ColumnSpec)
        ensures
            r.id == id && r.col_type == col_type,
    {
        ColumnSpec { id, col_type }
    }

    pub fn col_type(&self) -> (r: ColumnType)
        ensures
            r == self.col_type,
    {
        self.col_type
    }

    pub fn id(&self) -> (r: ColumnId)
        ensures
            r == self.id,
    {
        self.id
    }
}

/// A span of bytes `start..end` in an encoded buffer.
#[derive(Clone, Copy, Debug, PartialEq, Eq, Structural)]
pub struct ByteRange {
    pub start: usize,
    pub end: usize,
}

/// The primitive ranges that make up one logical column, laid end to end.
#[derive(Debug)]
pub struct GenericColumnRange {
    pub parts: Vec<ByteRange>,
}

impl GenericColumnRange {
    /// The parts are non-empty, each well ordered, each starting where the last ended.
    pub open spec fn wf(&self) -> bool {
        &&& self.parts@.len() > 0
        &&& forall|i: int| 0 <= i < self.parts@.len() ==> (#[trigger] self.parts@[i]).start <= self.parts@[i].end
        &&& forall|i: int| 0 < i < self.parts@.len() ==> (#[trigger] self.parts@[i]).start == self.parts@[i - 1].end
    }

    /// Accepts the parts only where they are laid end to end, each well
    /// ordered, and end within a buffer of `buf_len` bytes; otherwise the
    /// column cannot be decoded.
    pub fn check(&self, buf_len: usize) -> (r: Result<(), AutomergeError>)
        ensures
            r is Ok <==> self.wf() && self.parts@.last().end <= buf_len,
            r is Err ==> r == Err::<(), AutomergeError>(AutomergeError::DecodeError),
    {
        if self.parts.len() == 0 {
            return Err(AutomergeError::DecodeError);
        }
        let mut i: usize = 0;
        while i < self.parts.len()
            invariant
                self.parts@.len() > 0,
                i <= self.parts@.len(),
                forall|j: int| 0 <= j < i ==> (#[trigger] self.parts@[j]).start <= self.parts@[j].end,
                forall|j: int| 0 < j < i ==> (#[trigger] self.parts@[j]).start == self.parts@[j - 1].end,
            decreases self.parts.len() - i,
        {
            if self.parts[i].start > self.parts[i].end {
                return Err(AutomergeError::DecodeError);
            }
            if i > 0 && self.parts[i].start != self.parts[i - 1].end {
                return Err(AutomergeError::DecodeError);
            }
            i += 1;
        }
        if self.parts[self.parts.len() - 1].end > buf_len {
            return Err(AutomergeError::DecodeError);
        }
        Ok(())
    }

    /// The whole span that the parts cover.
    pub fn range(&self) -> (r: ByteRange)
        requires
            self.wf(),
        ensures
            r.start == self.parts@[0].start,
            r.end == self.parts@.last().end,
    {
        ByteRange { start: self.parts[0].start, end: self.parts[self.parts.len() - 1].end }
    }
}

/// A logical column: one field of the operations, stored in one or more
/// primitive ranges.
#[derive(Debug)]
pub struct Column {
    pub spec: ColumnSpec,
    pub range: GenericColumnRange,
}

impl Column {
    pub fn new(spec: ColumnSpec, range: GenericColumnRange) -> (r: Column)
        ensures
            r.spec == spec,
            r.range == range,
    {
        Column { spec, range }
    }

    /// The bytes that the column occupies.
    pub fn range(&self) -> (r: ByteRange)
        requires
            self.range.wf(),
        ensures
            r.start == self.range.parts@[0].start,
            r.end == self.range.parts@.last().end,
    {
        self.range.range()
    }

    /// Accepts the column only where its ranges are well formed and lie within
    /// a buffer of `buf_len` bytes; otherwise it fails with `DecodeError`.
    pub fn check(&self, buf_len: usize) -> (r: Result<(), AutomergeError>)
        ensures
            r is Ok <==> self.range.wf() && self.range.parts@.last().end <= buf_len,
            r is Err ==> r == Err::<(), AutomergeError>(AutomergeError::DecodeError),
    {
        self.range.check(buf_len)
    }

    /// The primitive ranges that make up the column.
    pub fn into_ranges(self) -> (r: GenericColumnRange)
        ensures
            r == self.range,
    {
        self.range
    }

    pub fn col_type(&self) -> (r: ColumnType)
        ensures
            r == self.spec.col_type,
    {
        self.spec.col_type()
    }

    pub fn id(&self) -> (r: ColumnId)
        ensures
            r == self.spec.id,
    {
        self.spec.id()
    }

    pub fn spec(&self) -> (r: ColumnSpec)
        ensures
            r == self.spec,
    {
        self.spec
    }
}

/// The values that a list of `(value, count)` runs stands for, in order.
pub open spec fn expand(runs: Seq<(u64, u64)>) -> Seq<u64>
    decreases runs.len(),
{
    if runs.len() == 0 {
        Seq::empty()
    } else {
        expand(runs.drop_last()) + Seq::new(runs.last().1 as nat, |_i: int| runs.last().0)
    }
}

/// Packs `values` into runs of equal values; no run is empty.
pub fn rle_encode(values: &Vec<u64>) -> (r: Vec<(u64, u64)>)
    ensures
        expand(r@) == values@,
        forall|j: int| 0 <= j < r@.len() ==> (#[trigger] r@[j]).1 > 0,
{
    let mut runs: Vec<(u64, u64)> = Vec::new();
    let mut i: usize = 0;
    while i < values.len()
        invariant
            i <= values@.len(),
            expand(runs@) == values@.take(i as int),
            forall|j: int| 0 <= j < runs@.len() ==> (#[trigger] runs@[j]).1 > 0,
        decreases values.len() - i,
    {
        let v = values[i];
        let ghost old_runs = runs@;
        let n = runs.len();
        if n > 0 && runs[n - 1].0 == v && runs[n - 1].1 < u64::MAX {
            let (lv, lc) = runs[n - 1];
            runs.set(n - 1, (lv, lc + 1));
            proof {
                assert(runs@.drop_last() =~= old_runs.drop_last());
                assert(Seq::new((lc + 1) as nat, |_i: int| lv) =~= Seq::new(lc as nat, |_i: int| lv).push(v));
                assert(values@.take(i as int + 1) =~= values@.take(i as int).push(v));
            }
        } else {
            runs.push((v, 1));
            proof {
                assert(runs@.drop_last() =~= old_runs);
                assert(Seq::new(1, |_i: int| v) =~= seq![v]);
                assert(values@.take(i as int + 1) =~= values@.take(i as int).push(v));
            }
        }
        i += 1;
    }
    assert(values@.take(values@.len() as int) =~= values@);
    runs
}

/// Unpacks runs into the values they stand for.
pub fn rle_decode(runs: &Vec<(u64, u64)>) -> (r: Vec<u64>)
    ensures
        r@ == expand(runs@),
{
    let mut out: Vec<u64> = Vec::new();
    let mut j: usize = 0;
    while j < runs.len()
        invariant
            j <= runs@.len(),
            out@ == expand(runs@.take(j as int)),
        decreases runs.len() - j,
    {
        let (v, c) = runs[j];
        let ghost before = out@;
        let mut k: u64 = 0;
        while k < c
            invariant
                k <= c,
                out@ == before + Seq::new(k as nat, |_i: int| v),
            decreases c - k,
        {
            out.push(v);
            k += 1;
            assert(Seq::new(k as nat, |_i: int| v) =~= Seq::new((k - 1) as nat, |_i: int| v).push(v));
            assert(out@ =~= before + Seq::new(k as nat, |_i: int| v));
        }
        assert(runs@.take(j as int + 1).drop_last() =~= runs@.take(j as int));
        j += 1;
    }
    assert(runs@.take(runs@.len() as int) =~= runs@);
    out
}

/// Decoding what was encoded gives back the values, for every sequence of values.
pub proof fn lemma_rle_round_trip(values: Seq<u64>, runs: Seq<(u64, u64)>, decoded: Seq<u64>)
    requires
        expand(runs) == values,
        decoded == expand(runs),
    ensures
        decoded == values,
{
}

} // verus!
