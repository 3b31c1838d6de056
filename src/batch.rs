//! Columnar batches, their mathematical view, and applying a permutation to one.
use vstd::prelude::*;
use crate::order::Value;

verus! {

/// The logical type of a column.
#[derive(Clone, Copy, Debug, PartialEq, Eq, Structural)]
pub enum DataKind {
    Int64,
    /// 64-bit floats; the generated ones are whole numbers, held exactly as integers.
    Float64,
    Utf8,
    /// Strings held as codes into a table of distinct values.
    Dictionary,
}

/// One field of a schema: a column's name and logical type.
#[derive(Clone, Copy, Debug, PartialEq, Eq)]
pub struct Field {
    pub name: &'static str,
    pub kind: DataKind,
}

/// The values of one column.
#[derive(Clone, Debug, PartialEq, Eq)]
pub enum Column {
    Int64(Vec<i64>),
    /// Whole-number float values.
    Float64(Vec<i64>),
    /// UTF-8 strings, as their bytes.
    Utf8(Vec<Vec<u8>>),
    /// A table of distinct strings and one code per row into it.
    Dictionary { values: Vec<Vec<u8>>, keys: Vec<usize> },
}

/// The mathematical view of a column.
pub enum ColumnView {
    Int64(Seq<i64>),
    Float64(Seq<i64>),
    Utf8(Seq<Seq<u8>>),
    Dictionary { values: Seq<Seq<u8>>, keys: Seq<usize> },
}

pub open spec fn bytes_view(v: Seq<Vec<u8>>) -> Seq<Seq<u8>> {
    v.map_values(|x: Vec<u8>| x@)
}

impl View for Column {
    type V = ColumnView;

    open spec fn view(&self) -> ColumnView {
        match self {
            Column::Int64(v) => ColumnView::Int64(v@),
            Column::Float64(v) => ColumnView::Float64(v@),
            Column::Utf8(v) => ColumnView::Utf8(bytes_view(v@)),
            Column::Dictionary { values, keys } => ColumnView::Dictionary {
                values: bytes_view(values@),
                keys: keys@,
            },
        }
    }
}

impl ColumnView {
    pub open spec fn kind(self) -> DataKind {
        match self {
            ColumnView::Int64(_) => DataKind::Int64,
            ColumnView::Float64(_) => DataKind::Float64,
            ColumnView::Utf8(_) => DataKind::Utf8,
            ColumnView::Dictionary { .. } => DataKind::Dictionary,
        }
    }

    pub open spec fn len(self) -> nat {
        match self {
            ColumnView::Int64(v) => v.len(),
            ColumnView::Float64(v) => v.len(),
            ColumnView::Utf8(v) => v.len(),
            ColumnView::Dictionary { keys, .. } => keys.len(),
        }
    }

    /// Every dictionary code points into the table.
    pub open spec fn wf(self) -> bool {
        match self {
            ColumnView::Dictionary { values, keys } => forall|i: int|
                0 <= i < keys.len() ==> #[trigger] keys[i] < values.len(),
            _ => true,
        }
    }

    /// The logical value of row `i`; a dictionary code is decoded.
    pub open spec fn cell(self, i: int) -> Value {
        match self {
            ColumnView::Int64(v) => Value::Int(v[i] as int),
            ColumnView::Float64(v) => Value::Int(v[i] as int),
            ColumnView::Utf8(v) => Value::Bytes(v[i]),
            ColumnView::Dictionary { values, keys } => Value::Bytes(values[keys[i] as int]),
        }
    }

    /// The column whose row `k` is row `p[k]` of this one; a dictionary keeps its table.
    pub open spec fn take(self, p: Seq<usize>) -> ColumnView {
        match self {
            ColumnView::Int64(v) => ColumnView::Int64(p.map_values(|i: usize| v[i as int])),
            ColumnView::Float64(v) => ColumnView::Float64(p.map_values(|i: usize| v[i as int])),
            ColumnView::Utf8(v) => ColumnView::Utf8(p.map_values(|i: usize| v[i as int])),
            ColumnView::Dictionary { values, keys } => ColumnView::Dictionary {
                values,
                keys: p.map_values(|i: usize| keys[i as int]),
            },
        }
    }
}

/// A columnar batch: a schema, one column per field, and the row count they share.
#[derive(Clone, Debug, PartialEq, Eq)]
pub struct Batch {
    pub schema: Vec<Field>,
    pub columns: Vec<Column>,
    pub row_count: usize,
}

/// The mathematical view of a batch.
pub struct BatchView {
    pub kinds: Seq<DataKind>,
    pub names: Seq<&'static str>,
    pub columns: Seq<ColumnView>,
    pub row_count: nat,
}

impl View for Batch {
    type V = BatchView;

    open spec fn view(&self) -> BatchView {
        BatchView {
            kinds: self.schema@.map_values(|f: Field| f.kind),
            names: self.schema@.map_values(|f: Field| f.name),
            columns: self.columns@.map_values(|c: Column| c@),
            row_count: self.row_count as nat,
        }
    }
}

impl BatchView {
    /// One column per field, of the field's type, each as long as the batch.
    pub open spec fn wf(self) -> bool {
        &&& self.row_count <= usize::MAX
        &&& self.kinds.len() == self.names.len()
        &&& self.columns.len() == self.kinds.len()
        &&& forall|c: int| 0 <= c < self.columns.len() ==> {
            &&& (#[trigger] self.columns[c]).kind() == self.kinds[c]
            &&& self.columns[c].len() == self.row_count
            &&& self.columns[c].wf()
        }
    }

    /// Row `i` as a sequence of values in schema order.
    pub open spec fn row(self, i: int) -> Seq<Value> {
        Seq::new(self.columns.len(), |c: int| self.columns[c].cell(i))
    }

    /// Every row is no greater than the next under the composite order.
    pub open spec fn is_sorted(self) -> bool {
        forall|i: int, j: int|
            0 <= i < j < self.row_count ==> !crate::order::row_lt(#[trigger] self.row(j), #[trigger] self.row(i))
    }

    /// The batch with the same schema whose row `k` is row `p[k]` of this one.
    pub open spec fn take(self, p: Seq<usize>) -> BatchView {
        BatchView {
            kinds: self.kinds,
            names: self.names,
            columns: self.columns.map_values(|c: ColumnView| c.take(p)),
            row_count: p.len(),
        }
    }
}

/// `p` lists each of `0..n` exactly once.
pub open spec fn is_permutation(p: Seq<usize>, n: nat) -> bool {
    &&& p.len() == n
    &&& forall|i: int| 0 <= i < p.len() ==> #[trigger] p[i] < n
    &&& forall|i: int, j: int| 0 <= i < j < p.len() ==> #[trigger] p[i] != #[trigger] p[j]
}

/// The identity permutation on `0..n`.
pub open spec fn identity(n: nat) -> Seq<usize> {
    Seq::new(n, |i: int| i as usize)
}

/// The identity permutation `[0, 1, ..., n-1]`.
pub fn identity_permutation(n: usize) -> (r: Vec<usize>)
    ensures
        r@ == identity(n as nat),
{
    let mut r: Vec<usize> = Vec::with_capacity(n);
    let mut k: usize = 0;
    while k < n
        invariant
            k <= n,
            r@ =~= identity(k as nat),
        decreases n - k,
    {
        r.push(k);
        k += 1;
    }
    r
}

fn take_values<T: Copy>(v: &Vec<T>, p: &Vec<usize>) -> (r: Vec<T>)
    requires
        forall|i: int| 0 <= i < p.len() ==> #[trigger] p[i] < v.len(),
    ensures
        r@ == p@.map_values(|i: usize| v@[i as int]),
{
    let mut r: Vec<T> = Vec::with_capacity(p.len());
    let mut k: usize = 0;
    while k < p.len()
        invariant
            k <= p.len(),
            forall|i: int| 0 <= i < p.len() ==> #[trigger] p[i] < v.len(),
            r@ == p@.take(k as int).map_values(|i: usize| v@[i as int]),
        decreases p.len() - k,
    {
        r.push(v[p[k]]);
        k += 1;
        assert(p@.take(k as int) =~= p@.take(k - 1).push(p@[k - 1]));
    }
    assert(p@.take(k as int) =~= p@);
    r
}

fn clone_bytes(v: &Vec<u8>) -> (r: Vec<u8>)
    ensures
        r@ == v@,
{
    let r = v.clone();
    assert(r@ =~= v@);
    r
}

fn take_bytes(v: &Vec<Vec<u8>>, p: &Vec<usize>) -> (r: Vec<Vec<u8>>)
    requires
        forall|i: int| 0 <= i < p.len() ==> #[trigger] p[i] < v.len(),
    ensures
        bytes_view(r@) == p@.map_values(|i: usize| bytes_view(v@)[i as int]),
{
    let mut r: Vec<Vec<u8>> = Vec::with_capacity(p.len());
    let mut k: usize = 0;
    while k < p.len()
        invariant
            k <= p.len(),
            forall|i: int| 0 <= i < p.len() ==> #[trigger] p[i] < v.len(),
            r.len() == k,
            forall|j: int| 0 <= j < k ==> (#[trigger] r@[j])@ == v@[p@[j] as int]@,
        decreases p.len() - k,
    {
        r.push(clone_bytes(&v[p[k]]));
        k += 1;
    }
    assert(bytes_view(r@) =~= p@.map_values(|i: usize| bytes_view(v@)[i as int]));
    r
}

impl Column {
    /// The column whose row `k` is row `p[k]` of this one.
    pub fn take(&self, p: &Vec<usize>) -> (r: Column)
        requires
            self@.wf(),
            forall|i: int| 0 <= i < p.len() ==> #[trigger] p[i] < self@.len(),
        ensures
            r@ == self@.take(p@),
    {
        match self {
            Column::Int64(v) => Column::Int64(take_values(v, p)),
            Column::Float64(v) => Column::Float64(take_values(v, p)),
            Column::Utf8(v) => Column::Utf8(take_bytes(v, p)),
            Column::Dictionary { values, keys } => {
                let all: Vec<usize> = identity_permutation(values.len());
                let table = take_bytes(values, &all);
                assert(all@.map_values(|i: usize| bytes_view(values@)[i as int]) =~= bytes_view(
                    values@,
                ));
                Column::Dictionary { values: table, keys: take_values(keys, p) }
            },
        }
    }
}

/// Reorders every column of `batch`: row `k` of the result is row `p[k]` of `batch`.
/// Indices are not checked at run time: that they are in bounds is a precondition,
/// proved at every call (a permutation computed from the batch meets it).
pub fn apply_permutation(batch: &Batch, p: &Vec<usize>) -> (r: Batch)
    requires
        batch@.wf(),
        forall|i: int| 0 <= i < p.len() ==> #[trigger] p[i] < batch.row_count,
    ensures
        r@ == batch@.take(p@),
        r@.wf(),
        r.schema@ == batch.schema@,
        forall|k: int| 0 <= k < p.len() ==> #[trigger] r@.row(k) == batch@.row(p[k] as int),
{
    let mut columns: Vec<Column> = Vec::with_capacity(batch.columns.len());
    let mut c: usize = 0;
    while c < batch.columns.len()
        invariant
            c <= batch.columns.len(),
            batch@.wf(),
            forall|i: int| 0 <= i < p.len() ==> #[trigger] p[i] < batch.row_count,
            columns.len() == c,
            forall|i: int| 0 <= i < c ==> (#[trigger] columns@[i])@ == batch.columns@[i]@.take(p@),
        decreases batch.columns.len() - c,
    {
        assert(batch@.columns[c as int] == batch.columns@[c as int]@);
        let col = batch.columns[c].take(p);
        columns.push(col);
        c += 1;
    }
    let r = Batch { schema: batch.schema.clone(), columns, row_count: p.len() };
    assert(r.schema@ =~= batch.schema@);
    assert(r@.columns =~= batch@.take(p@).columns);
    assert(r@.kinds =~= batch@.kinds);
    assert(r@.names =~= batch@.names);
    assert forall|k: int| 0 <= k < p.len() implies #[trigger] r@.row(k) == batch@.row(p[k] as int) by {
        assert(r@.row(k) =~= batch@.row(p[k] as int));
    }
    r
}

impl Column {
    /// The number of rows.
    pub fn len(&self) -> (r: usize)
        ensures
            r == self@.len(),
    {
        match self {
            Column::Int64(v) => v.len(),
            Column::Float64(v) => v.len(),
            Column::Utf8(v) => v.len(),
            Column::Dictionary { keys, .. } => keys.len(),
        }
    }

    /// The logical type.
    pub fn kind(&self) -> (r: DataKind)
        ensures
            r == self@.kind(),
    {
        match self {
            Column::Int64(_) => DataKind::Int64,
            Column::Float64(_) => DataKind::Float64,
            Column::Utf8(_) => DataKind::Utf8,
            Column::Dictionary { .. } => DataKind::Dictionary,
        }
    }

    /// Whether every dictionary code points into the table.
    #[verifier::loop_isolation(false)]
    pub fn is_valid(&self) -> (r: bool)
        ensures
            r == self@.wf(),
    {
        match self {
            Column::Dictionary { values, keys } => {
                let mut i: usize = 0;
                while i < keys.len()
                    invariant
                        i <= keys.len(),
                        forall|j: int| 0 <= j < i ==> #[trigger] keys@[j] < values@.len(),
                    decreases keys.len() - i,
                {
                    if keys[i] >= values.len() {
                        let ghost cv = ColumnView::Dictionary { values: bytes_view(values@), keys: keys@ };
                        assert(cv == self@);
                        assert(bytes_view(values@).len() == values@.len());
                        assert(!(cv->keys[i as int] < cv->values.len()));
                        return false;
                    }
                    i += 1;
                }
                true
            },
            _ => true,
        }
    }
}

impl Batch {
    /// Whether the batch is well formed: one column per field, of the field's type,
    /// each `row_count` long, with every dictionary code in range.
    pub fn is_valid(&self) -> (r: bool)
        ensures
            r == self@.wf(),
    {
        if self.columns.len() != self.schema.len() {
            return false;
        }
        let mut c: usize = 0;
        while c < self.columns.len()
            invariant
                c <= self.columns.len(),
                self.columns.len() == self.schema.len(),
                forall|d: int| 0 <= d < c ==> {
                    &&& (#[trigger] self@.columns[d]).kind() == self@.kinds[d]
                    &&& self@.columns[d].len() == self@.row_count
                    &&& self@.columns[d].wf()
                },
            decreases self.columns.len() - c,
        {
            let col = &self.columns[c];
            assert(self@.columns[c as int] == col@);
            assert(self@.kinds[c as int] == self.schema@[c as int].kind);
            if col.kind() != self.schema[c].kind || col.len() != self.row_count || !col.is_valid() {
                return false;
            }
            c += 1;
        }
        true
    }
}

/// Taking the rows of a batch in identity order gives the batch back.
pub proof fn lemma_take_identity(b: BatchView)
    requires
        b.wf(),
    ensures
        b.take(identity(b.row_count)) == b,
{
    let id = identity(b.row_count);
    assert forall|c: int| 0 <= c < b.columns.len() implies #[trigger] b.columns[c].take(id) == b.columns[c] by {
        match b.columns[c] {
            ColumnView::Int64(v) => {
                assert(id.map_values(|i: usize| v[i as int]) =~= v);
            },
            ColumnView::Float64(v) => {
                assert(id.map_values(|i: usize| v[i as int]) =~= v);
            },
            ColumnView::Utf8(v) => {
                assert(id.map_values(|i: usize| v[i as int]) =~= v);
            },
            ColumnView::Dictionary { values, keys } => {
                assert(id.map_values(|i: usize| keys[i as int]) =~= keys);
            },
        }
    }
    assert(b.take(id).columns =~= b.columns);
}

} // verus!
