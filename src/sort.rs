//! The two sort strategies: both compute a permutation that orders a batch's rows by
//! every column ascending, leftmost column first.
use vstd::prelude::*;
use crate::order::{bytes_lt, byte_lt, row_lt, value_lt, value_order, lemma_bytes_strict_total,
    lemma_value_strict_total, lemma_lex_skip, lemma_lex_irreflexive, lemma_row_le_transitive,
    lemma_row_lt_transitive, lemma_lex_total};
use crate::batch::{Batch, BatchView, Column, Field, is_permutation, identity, apply_permutation,
    lemma_take_identity};
use crate::encode::{encode_rows, row_key, lemma_row_key_order, lemma_batch_rows_comparable};

verus! {

/// Three-way comparison of byte strings: negative, zero or positive.
pub fn compare_bytes(a: &Vec<u8>, b: &Vec<u8>) -> (r: i8)
    ensures
        (r < 0) == bytes_lt(a@, b@),
        (r == 0) == (a@ == b@),
        (r > 0) == bytes_lt(b@, a@),
{
    proof {
        lemma_bytes_strict_total();
    }
    let mut i: usize = 0;
    while i < a.len() && i < b.len() && a[i] == b[i]
        invariant
            i <= a.len(),
            i <= b.len(),
            a@.take(i as int) == b@.take(i as int),
        decreases a.len() - i,
    {
        assert(a@.take(i + 1) =~= a@.take(i as int).push(a@[i as int]));
        assert(b@.take(i + 1) =~= b@.take(i as int).push(b@[i as int]));
        i += 1;
    }
    proof {
        lemma_lex_skip(a@, b@, i as int, byte_lt());
        lemma_lex_skip(b@, a@, i as int, byte_lt());
    }
    if i < a.len() && i < b.len() {
        assert(a@.skip(i as int)[0] == a@[i as int]);
        assert(b@.skip(i as int)[0] == b@[i as int]);
        assert(a@[i as int] != b@[i as int]);
        if a[i] < b[i] {
            -1
        } else {
            1
        }
    } else if i < b.len() {
        assert(a@.skip(i as int).len() == 0);
        -1
    } else if i < a.len() {
        assert(b@.skip(i as int).len() == 0);
        1
    } else {
        proof {
            assert(a@ =~= a@.take(i as int));
            assert(b@ =~= b@.take(i as int));
            lemma_lex_irreflexive(a@, byte_lt());
        }
        0
    }
}

fn compare_i64(x: i64, y: i64) -> (r: i8)
    ensures
        (r < 0) == (x < y),
        (r == 0) == (x == y),
        (r > 0) == (y < x),
{
    if x < y {
        -1
    } else if x == y {
        0
    } else {
        1
    }
}

/// Three-way comparison of rows `i` and `j` of one column.
pub fn compare_cells(col: &Column, i: usize, j: usize) -> (r: i8)
    requires
        col@.wf(),
        i < col@.len(),
        j < col@.len(),
    ensures
        (r < 0) == value_lt(col@.cell(i as int), col@.cell(j as int)),
        (r == 0) == (col@.cell(i as int) == col@.cell(j as int)),
        (r > 0) == value_lt(col@.cell(j as int), col@.cell(i as int)),
{
    match col {
        Column::Int64(v) => compare_i64(v[i], v[j]),
        Column::Float64(v) => compare_i64(v[i], v[j]),
        Column::Utf8(v) => compare_bytes(&v[i], &v[j]),
        Column::Dictionary { values, keys } => {
            assert(keys@[i as int] < values@.len() && keys@[j as int] < values@.len());
            compare_bytes(&values[keys[i]], &values[keys[j]])
        },
    }
}

/// Whether row `i` comes strictly before row `j`, comparing column by column.
pub fn row_less(batch: &Batch, i: usize, j: usize) -> (r: bool)
    requires
        batch@.wf(),
        i < batch.row_count,
        j < batch.row_count,
    ensures
        r == row_lt(batch@.row(i as int), batch@.row(j as int)),
{
    let ghost ri = batch@.row(i as int);
    let ghost rj = batch@.row(j as int);
    proof {
        lemma_value_strict_total();
    }
    let mut c: usize = 0;
    while c < batch.columns.len()
        invariant
            batch@.wf(),
            i < batch.row_count,
            j < batch.row_count,
            ri == batch@.row(i as int),
            rj == batch@.row(j as int),
            c <= batch.columns.len(),
            ri.take(c as int) == rj.take(c as int),
        decreases batch.columns.len() - c,
    {
        assert(batch@.columns[c as int] == batch.columns@[c as int]@);
        let d = compare_cells(&batch.columns[c], i, j);
        if d != 0 {
            proof {
                lemma_value_strict_total();
                lemma_lex_skip(ri, rj, c as int, value_order());
                assert(ri.skip(c as int)[0] == ri[c as int]);
                assert(rj.skip(c as int)[0] == rj[c as int]);
            }
            return d < 0;
        }
        assert(ri.take(c + 1) =~= ri.take(c as int).push(ri[c as int]));
        assert(rj.take(c + 1) =~= rj.take(c as int).push(rj[c as int]));
        c += 1;
    }
    proof {
        assert(ri =~= ri.take(c as int));
        assert(rj =~= rj.take(c as int));
        lemma_lex_irreflexive(ri, value_order());
    }
    false
}

/// Row `p[a]` is not greater than row `p[b]`.
pub open spec fn in_order(b: BatchView, p: Seq<usize>, x: int, y: int) -> bool {
    !row_lt(b.row(p[y] as int), b.row(p[x] as int))
}

/// `p` lists the rows of `b` in ascending composite order.
pub open spec fn sorts(b: BatchView, p: Seq<usize>) -> bool {
    forall|x: int, y: int| 0 <= x < y < p.len() ==> #[trigger] in_order(b, p, x, y)
}

/// If rows `p[x]` and `p[y]` are equal, they keep their input order.
pub open spec fn tie_ordered(b: BatchView, p: Seq<usize>, x: int, y: int) -> bool {
    b.row(p[x] as int) == b.row(p[y] as int) ==> p[x] < p[y]
}

/// Rows equal in every column keep their input order in `p`.
pub open spec fn stable(b: BatchView, p: Seq<usize>) -> bool {
    forall|x: int, y: int| 0 <= x < y < p.len() ==> #[trigger] tie_ordered(b, p, x, y)
}

/// Row `p[x]` is strictly less than row `p[y]`.
pub open spec fn strictly_before(b: BatchView, p: Seq<usize>, x: int, y: int) -> bool {
    row_lt(b.row(p[x] as int), b.row(p[y] as int))
}

/// Whether row `x` comes strictly before row `y`, by one strategy: comparing the rows
/// column by column, or comparing their keys byte by byte.
fn less(batch: &Batch, keys: &Vec<Vec<u8>>, use_keys: bool, x: usize, y: usize) -> (r: bool)
    requires
        batch@.wf(),
        x < batch.row_count,
        y < batch.row_count,
        use_keys ==> keys.len() == batch.row_count,
        use_keys ==> forall|i: int| 0 <= i < keys.len() ==> (#[trigger] keys@[i])@ == row_key(batch@.row(i)),
    ensures
        r == row_lt(batch@.row(x as int), batch@.row(y as int)),
{
    if use_keys {
        proof {
            lemma_batch_rows_comparable(batch@, x as int, y as int);
            lemma_row_key_order(batch@.row(x as int), batch@.row(y as int));
        }
        compare_bytes(&keys[x], &keys[y]) < 0
    } else {
        row_less(batch, x, y)
    }
}

/// Insertion sort of the row indices, by the chosen strategy's comparison.
fn sort_indices(batch: &Batch, keys: &Vec<Vec<u8>>, use_keys: bool) -> (p: Vec<usize>)
    requires
        batch@.wf(),
        use_keys ==> keys.len() == batch.row_count,
        use_keys ==> forall|i: int| 0 <= i < keys.len() ==> (#[trigger] keys@[i])@ == row_key(batch@.row(i)),
    ensures
        is_permutation(p@, batch.row_count as nat),
        sorts(batch@, p@),
        stable(batch@, p@),
        batch@.is_sorted() ==> p@ == identity(batch.row_count as nat),
{
    let n = batch.row_count;
    let ghost b = batch@;
    let mut p: Vec<usize> = crate::batch::identity_permutation(n);
    let mut i: usize = 0;
    while i < n
        invariant
            b == batch@,
            batch@.wf(),
            n == batch.row_count,
            use_keys ==> keys.len() == batch.row_count,
            use_keys ==> forall|k: int| 0 <= k < keys.len() ==> (#[trigger] keys@[k])@ == row_key(batch@.row(k)),
            i <= n,
            is_permutation(p@, n as nat),
            forall|x: int, y: int| 0 <= x < y < i ==> #[trigger] in_order(b, p@, x, y),
            forall|x: int, y: int| 0 <= x < y < i ==> #[trigger] tie_ordered(b, p@, x, y),
            forall|x: int| i <= x < n ==> #[trigger] p@[x] == x,
            b.is_sorted() ==> p@ == identity(n as nat),
        decreases n - i,
    {
        let mut j: usize = i;
        while j > 0 && less(batch, keys, use_keys, p[j], p[j - 1])
            invariant
                b == batch@,
                batch@.wf(),
                n == batch.row_count,
                use_keys ==> keys.len() == batch.row_count,
                use_keys ==> forall|k: int| 0 <= k < keys.len() ==> (#[trigger] keys@[k])@ == row_key(batch@.row(k)),
                i < n,
                j <= i,
                is_permutation(p@, n as nat),
                forall|x: int, y: int| 0 <= x < y <= i && x != j && y != j ==> #[trigger] in_order(b, p@, x, y),
                forall|x: int, y: int| 0 <= x < y <= i && x != j && y != j ==> #[trigger] tie_ordered(b, p@, x, y),
                forall|y: int| j < y <= i ==> #[trigger] strictly_before(b, p@, j as int, y),
                p@[j as int] == i,
                forall|x: int| i < x < n ==> #[trigger] p@[x] == x,
                b.is_sorted() ==> p@ == identity(n as nat) && j == i,
            decreases j,
        {
            let ghost q = p@;
            let t = p[j];
            assert(t == i);
            let s = p[j - 1];
            p.set(j, s);
            p.set(j - 1, t);
            proof {
                assert(row_lt(b.row(t as int), b.row(s as int)));
                if b.is_sorted() {
                    assert(!row_lt(b.row(j as int), b.row(j - 1)));
                }
                assert forall|x: int, y: int| 0 <= x < y < p.len() implies #[trigger] p@[x] != #[trigger] p@[y] by {
                    if x != j && x != j - 1 && y != j && y != j - 1 {
                        assert(q[x] != q[y]);
                    } else {
                        let x0 = if x == j { j - 1 } else if x == j - 1 { j as int } else { x };
                        let y0 = if y == j { j - 1 } else if y == j - 1 { j as int } else { y };
                        assert(p@[x] == q[x0] && p@[y] == q[y0]);
                        if x0 < y0 {
                            assert(q[x0] != q[y0]);
                        } else {
                            assert(q[y0] != q[x0]);
                        }
                    }
                }
                assert forall|x: int, y: int| 0 <= x < y <= i && x != j - 1 && y != j - 1 implies #[trigger] in_order(b, p@, x, y) by {
                    if y == j {
                        assert(in_order(b, q, x, j - 1));
                    } else if x == j {
                        assert(in_order(b, q, j - 1, y));
                    } else {
                        assert(in_order(b, q, x, y));
                    }
                }
                assert forall|x: int, y: int| 0 <= x < y <= i && x != j - 1 && y != j - 1 implies #[trigger] tie_ordered(b, p@, x, y) by {
                    if y == j {
                        assert(tie_ordered(b, q, x, j - 1));
                    } else if x == j {
                        assert(tie_ordered(b, q, j - 1, y));
                    } else {
                        assert(tie_ordered(b, q, x, y));
                    }
                }
                assert forall|y: int| j - 1 < y <= i implies #[trigger] strictly_before(b, p@, j - 1, y) by {
                    if y != j {
                        assert(strictly_before(b, q, j as int, y));
                    }
                }
            }
            j -= 1;
        }
        proof {
            assert forall|x: int, y: int| 0 <= x < y < i + 1 implies #[trigger] in_order(b, p@, x, y) by {
                if y == j && x < j - 1 {
                    assert(in_order(b, p@, x, j - 1));
                    assert(in_order(b, p@, j - 1, j as int));
                    lemma_row_le_transitive(b.row(p@[x] as int), b.row(p@[j - 1] as int), b.row(p@[y] as int));
                } else if x == j {
                    assert(strictly_before(b, p@, x, y));
                    lemma_value_strict_total();
                    if row_lt(b.row(p@[y] as int), b.row(p@[x] as int)) {
                        lemma_row_lt_transitive(b.row(p@[x] as int), b.row(p@[y] as int), b.row(p@[x] as int));
                        lemma_lex_irreflexive(b.row(p@[x] as int), value_order());
                    }
                }
            }
            assert forall|x: int, y: int| 0 <= x < y < i + 1 implies #[trigger] tie_ordered(b, p@, x, y) by {
                if x == j {
                    assert(strictly_before(b, p@, x, y));
                    lemma_value_strict_total();
                    lemma_lex_irreflexive(b.row(p@[x] as int), value_order());
                } else if y == j {
                    if p@[x] > i {
                        let z = p@[x] as int;
                        assert(p@[z] == z);
                    }
                    assert(p@[x] != p@[y]);
                }
            }
        }
        i += 1;
    }
    p
}

/// How a permutation is computed.
#[derive(Clone, Copy, Debug, PartialEq, Eq, Structural)]
pub enum SortStrategy {
    /// Compare rows column by column.
    Comparator,
    /// Encode each row into one byte key, then compare the keys.
    RowEncoding,
}

/// The permutation that orders the rows of `batch` by every column ascending.
/// Rows that are equal in every column keep their input order, so an input already in
/// order gives the identity.
pub fn sort_to_indices(batch: &Batch, strategy: SortStrategy) -> (p: Vec<usize>)
    requires
        batch@.wf(),
    ensures
        is_permutation(p@, batch.row_count as nat),
        sorts(batch@, p@),
        stable(batch@, p@),
        batch@.is_sorted() ==> p@ == identity(batch.row_count as nat),
{
    match strategy {
        SortStrategy::Comparator => {
            let none: Vec<Vec<u8>> = Vec::new();
            sort_indices(batch, &none, false)
        },
        SortStrategy::RowEncoding => {
            let keys = encode_rows(batch);
            sort_indices(batch, &keys, true)
        },
    }
}

/// A permutation of `0..n` reaches every index below `n`.
pub proof fn lemma_permutation_onto(p: Seq<usize>, n: nat, v: usize)
    requires
        is_permutation(p, n),
        v < n,
    ensures
        exists|k: int| 0 <= k < n && p[k] == v,
{
    let ids = p.map_values(|x: usize| x as int);
    assert(ids.no_duplicates()) by {
        assert forall|i: int, j: int| 0 <= i < ids.len() && 0 <= j < ids.len() && i != j implies ids[i] != ids[j] by {
            if i < j {
                assert(p[i] != p[j]);
            } else {
                assert(p[j] != p[i]);
            }
        }
    }
    ids.unique_seq_to_set();
    let range = vstd::set_lib::set_int_range(0, n as int);
    vstd::set_lib::lemma_int_range(0, n as int);
    assert(ids.to_set().subset_of(range)) by {
        assert forall|x: int| ids.to_set().contains(x) implies range.contains(x) by {
            let k = choose|k: int| 0 <= k < ids.len() && ids[k] == x;
            assert(p[k] < n);
        }
    }
    vstd::seq_lib::seq_to_set_is_finite(ids);
    vstd::set_lib::lemma_subset_equality(ids.to_set(), range);
    assert(range.contains(v as int));
    assert(ids.to_set().contains(v as int));
    let k = choose|k: int| 0 <= k < ids.len() && ids[k] == v as int;
    assert(p[k] == v);
}

proof fn lemma_sorted_prefix_equal(b: BatchView, pa: Seq<usize>, pb: Seq<usize>, k: int)
    requires
        is_permutation(pa, b.row_count),
        is_permutation(pb, b.row_count),
        sorts(b, pa),
        sorts(b, pb),
        stable(b, pa),
        stable(b, pb),
        0 <= k <= b.row_count,
    ensures
        forall|m: int| 0 <= m < k ==> pa[m] == pb[m],
    decreases k,
{
    if k > 0 {
        lemma_sorted_prefix_equal(b, pa, pb, k - 1);
        let m = k - 1;
        let x = pa[m];
        let y = pb[m];
        lemma_permutation_onto(pb, b.row_count, x);
        lemma_permutation_onto(pa, b.row_count, y);
        let k2 = choose|k2: int| 0 <= k2 < b.row_count && pb[k2] == x;
        let k1 = choose|k1: int| 0 <= k1 < b.row_count && pa[k1] == y;
        if k2 < m {
            assert(pa[k2] == pb[k2]);
            assert(pa[k2] != pa[m]);
        }
        if k1 < m {
            assert(pa[k1] == pb[k1]);
            assert(pb[k1] != pb[m]);
        }
        if x != y {
            assert(in_order(b, pb, m, k2) && tie_ordered(b, pb, m, k2));
            assert(in_order(b, pa, m, k1) && tie_ordered(b, pa, m, k1));
            lemma_value_strict_total();
            if b.row(x as int) != b.row(y as int) {
                lemma_lex_total(b.row(x as int), b.row(y as int), value_order());
            }
        }
    }
}

/// The two strategies agree: a permutation that sorts a batch and keeps tied rows in
/// input order is unique, so the comparator and the row-encoding strategy, which both
/// promise one, return the same permutation, and the same sorted batch.
pub proof fn lemma_strategies_agree(b: BatchView, pa: Seq<usize>, pb: Seq<usize>)
    requires
        is_permutation(pa, b.row_count),
        is_permutation(pb, b.row_count),
        sorts(b, pa),
        sorts(b, pb),
        stable(b, pa),
        stable(b, pb),
    ensures
        pa == pb,
        b.take(pa) == b.take(pb),
{
    lemma_sorted_prefix_equal(b, pa, pb, b.row_count as int);
    assert(pa =~= pb);
}

/// One sort key: a column, its direction and where nulls go.
#[derive(Clone, Copy, Debug, PartialEq, Eq, Structural)]
pub struct SortKey {
    pub column: usize,
    pub descending: bool,
    pub nulls_first: bool,
}

/// The key list this system sorts by: every column of the schema, in schema order,
/// ascending, nulls last.
pub open spec fn is_full_ascending(keys: Seq<SortKey>, fields: nat) -> bool {
    &&& keys.len() == fields
    &&& forall|i: int| 0 <= i < keys.len() ==> #[trigger] keys[i] == (SortKey {
        column: i as usize,
        descending: false,
        nulls_first: false,
    })
}

/// Make sort keys for each column in `schema`.
pub fn make_sort_exprs(schema: &Vec<Field>) -> (r: Vec<SortKey>)
    ensures
        is_full_ascending(r@, schema.len() as nat),
{
    let mut r: Vec<SortKey> = Vec::with_capacity(schema.len());
    let mut i: usize = 0;
    while i < schema.len()
        invariant
            i <= schema.len(),
            is_full_ascending(r@, i as nat),
        decreases schema.len() - i,
    {
        r.push(SortKey { column: i, descending: false, nulls_first: false });
        i += 1;
    }
    r
}

fn check_keys(keys: &Vec<SortKey>, fields: usize) -> (r: bool)
    ensures
        r == is_full_ascending(keys@, fields as nat),
{
    if keys.len() != fields {
        return false;
    }
    let mut i: usize = 0;
    while i < keys.len()
        invariant
            i <= keys.len(),
            keys.len() == fields,
            is_full_ascending(keys@.take(i as int), i as nat),
        decreases keys.len() - i,
    {
        let k = keys[i];
        if k.column != i || k.descending || k.nulls_first {
            assert(!(keys@[i as int] == (SortKey { column: i, descending: false, nulls_first: false })));
            return false;
        }
        assert(keys@.take(i + 1) =~= keys@.take(i as int).push(k));
        i += 1;
    }
    assert(keys@.take(i as int) =~= keys@);
    true
}

/// Why a batch could not be sorted.
#[derive(Clone, Copy, Debug, PartialEq, Eq, Structural)]
pub enum SortError {
    /// The columns do not match the schema, differ in length, or hold a dictionary
    /// code out of range: the values cannot be compared.
    MalformedBatch,
    /// The key list is not every column ascending, in schema order.
    UnsupportedKeys,
}

/// Sorts `batch` by `keys` (every column ascending, leftmost first) with the comparator
/// or the row-encoding strategy, and materializes the sorted batch.
pub fn sort_batch(batch: Batch, keys: &Vec<SortKey>, use_row_encoding: bool) -> (r: Result<Batch, SortError>)
    ensures
        r is Err ==> r == Err::<Batch, SortError>(if !batch@.wf() {
            SortError::MalformedBatch
        } else {
            SortError::UnsupportedKeys
        }),
        r is Ok <==> batch@.wf() && is_full_ascending(keys@, batch.schema.len() as nat),
        r matches Ok(out) ==> exists|p: Seq<usize>|
            {
                &&& is_permutation(p, batch.row_count as nat)
                &&& sorts(batch@, p)
                &&& stable(batch@, p)
                &&& out@ == batch@.take(p)
            },
        r matches Ok(out) ==> out@.wf() && out@.is_sorted(),
        batch@.is_sorted() ==> (r matches Ok(out) ==> out@ == batch@),
{
    if !batch.is_valid() {
        return Err(SortError::MalformedBatch);
    }
    if !check_keys(keys, batch.schema.len()) {
        return Err(SortError::UnsupportedKeys);
    }
    let strategy = if use_row_encoding {
        SortStrategy::RowEncoding
    } else {
        SortStrategy::Comparator
    };
    let p = sort_to_indices(&batch, strategy);
    let out = apply_permutation(&batch, &p);
    proof {
        assert(out@.row_count == batch.row_count);
        assert forall|x: int, y: int| 0 <= x < y < out@.row_count implies !row_lt(
            #[trigger] out@.row(y),
            #[trigger] out@.row(x),
        ) by {
            assert(in_order(batch@, p@, x, y));
        }
        if batch@.is_sorted() {
            lemma_take_identity(batch@);
        }
    }
    Ok(out)
}

} // verus!
