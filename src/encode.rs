//! The row encoding: each row becomes one byte string whose lexicographic order is
//! the composite order of the rows.
//!
//! An integer becomes 8 big-endian bytes of its value offset by 2^63, so that byte
//! order is numeric order. A string becomes `1, b` for each byte `b`, then a `0`:
//! the terminator sorts a proper prefix first and keeps the key prefix-free.
use vstd::prelude::*;
use vstd::arithmetic::div_mod::{lemma_fundamental_div_mod, lemma_div_is_ordered, lemma_mod_bound};
use crate::order::{Value, bytes_lt, byte_lt, row_lt, value_lt, row_order, lemma_bytes_strict_total,
    lemma_lex_common_prefix, lemma_lex_irreflexive, lemma_lex_transitive, lemma_row_strict_total};
use crate::batch::{Batch, BatchView, Column};

verus! {

pub open spec fn pow256(k: nat) -> nat
    decreases k,
{
    if k == 0 {
        1
    } else {
        256 * pow256((k - 1) as nat)
    }
}

/// The `k` big-endian base-256 digits of `u`.
pub open spec fn big_endian(u: nat, k: nat) -> Seq<u8>
    decreases k,
{
    if k == 0 {
        seq![]
    } else {
        let p = pow256((k - 1) as nat);
        seq![(u / p) as u8] + big_endian(u % p, (k - 1) as nat)
    }
}

/// The key of a 64-bit integer.
pub open spec fn int_key(x: int) -> Seq<u8> {
    big_endian((x + 0x8000_0000_0000_0000) as nat, 8)
}

/// The key of a string of bytes.
pub open spec fn str_key(s: Seq<u8>) -> Seq<u8>
    decreases s.len(),
{
    if s.len() == 0 {
        seq![0u8]
    } else {
        seq![1u8, s[0]] + str_key(s.drop_first())
    }
}

pub open spec fn value_key(v: Value) -> Seq<u8> {
    match v {
        Value::Int(x) => int_key(x),
        Value::Bytes(s) => str_key(s),
    }
}

/// The key of a row: the keys of its values, in schema order.
pub open spec fn row_key(r: Seq<Value>) -> Seq<u8>
    decreases r.len(),
{
    if r.len() == 0 {
        seq![]
    } else {
        value_key(r[0]) + row_key(r.drop_first())
    }
}

pub open spec fn is_i64(v: Value) -> bool {
    match v {
        Value::Int(x) => i64::MIN <= x <= i64::MAX,
        Value::Bytes(_) => true,
    }
}

/// Two rows whose columns hold values of the same kinds, as rows of one batch do.
pub open spec fn comparable_rows(a: Seq<Value>, b: Seq<Value>) -> bool {
    &&& a.len() == b.len()
    &&& forall|c: int| 0 <= c < a.len() ==> is_i64(#[trigger] a[c]) && is_i64(b[c])
    &&& forall|c: int| 0 <= c < a.len() ==> (#[trigger] a[c] is Int) == (b[c] is Int)
}

proof fn lemma_pow256_pos(k: nat)
    ensures
        pow256(k) > 0,
    decreases k,
{
    if k > 0 {
        lemma_pow256_pos((k - 1) as nat);
    }
}

proof fn lemma_big_endian_order(u1: nat, u2: nat, k: nat, r1: Seq<u8>, r2: Seq<u8>)
    requires
        u1 < u2 < pow256(k),
    ensures
        bytes_lt(big_endian(u1, k) + r1, big_endian(u2, k) + r2),
    decreases k,
{
    lemma_bytes_strict_total();
    let p = pow256((k - 1) as nat);
    lemma_pow256_pos((k - 1) as nat);
    lemma_fundamental_div_mod(u1 as int, p as int);
    lemma_fundamental_div_mod(u2 as int, p as int);
    lemma_mod_bound(u1 as int, p as int);
    lemma_mod_bound(u2 as int, p as int);
    lemma_div_is_ordered(u1 as int, u2 as int, p as int);
    let q1 = u1 / p;
    let q2 = u2 / p;
    assert(q2 < 256) by (nonlinear_arith)
        requires
            u2 == p * q2 + u2 % p,
            u2 % p >= 0,
            u2 < 256 * p,
            p > 0,
    ;
    let x = big_endian(u1, k) + r1;
    let y = big_endian(u2, k) + r2;
    let t1 = big_endian(u1 % p, (k - 1) as nat) + r1;
    let t2 = big_endian(u2 % p, (k - 1) as nat) + r2;
    assert(x =~= seq![q1 as u8] + t1);
    assert(y =~= seq![q2 as u8] + t2);
    if q1 < q2 {
        assert(x[0] == q1 as u8);
        assert(y[0] == q2 as u8);
    } else {
        assert(u1 % p < u2 % p);
        lemma_big_endian_order(u1 % p, u2 % p, (k - 1) as nat, r1, r2);
        lemma_lex_common_prefix(seq![q1 as u8], t1, t2, byte_lt());
    }
}

proof fn lemma_str_key_order(s1: Seq<u8>, s2: Seq<u8>, r1: Seq<u8>, r2: Seq<u8>)
    requires
        bytes_lt(s1, s2),
    ensures
        bytes_lt(str_key(s1) + r1, str_key(s2) + r2),
    decreases s1.len(),
{
    lemma_bytes_strict_total();
    let x = str_key(s1) + r1;
    let y = str_key(s2) + r2;
    if s1.len() == 0 {
        assert(x[0] == 0u8);
        assert(y[0] == 1u8);
    } else {
        let t1 = str_key(s1.drop_first()) + r1;
        let t2 = str_key(s2.drop_first()) + r2;
        assert(x =~= seq![1u8] + (seq![s1[0]] + t1));
        assert(y =~= seq![1u8] + (seq![s2[0]] + t2));
        lemma_lex_common_prefix(seq![1u8], seq![s1[0]] + t1, seq![s2[0]] + t2, byte_lt());
        if s1[0] == s2[0] {
            lemma_str_key_order(s1.drop_first(), s2.drop_first(), r1, r2);
            lemma_lex_common_prefix(seq![s1[0]], t1, t2, byte_lt());
        } else {
            assert((seq![s1[0]] + t1)[0] == s1[0]);
            assert((seq![s2[0]] + t2)[0] == s2[0]);
        }
    }
}

proof fn lemma_value_key_order(a: Value, b: Value, r1: Seq<u8>, r2: Seq<u8>)
    requires
        value_lt(a, b),
        is_i64(a),
        is_i64(b),
        (a is Int) == (b is Int),
    ensures
        bytes_lt(value_key(a) + r1, value_key(b) + r2),
{
    match (a, b) {
        (Value::Int(x), Value::Int(y)) => {
            assert(pow256(8) == 0x1_0000_0000_0000_0000) by {
                reveal_with_fuel(pow256, 9);
            }
            lemma_big_endian_order(
                (x + 0x8000_0000_0000_0000) as nat,
                (y + 0x8000_0000_0000_0000) as nat,
                8,
                r1,
                r2,
            );
        },
        (Value::Bytes(s), Value::Bytes(t)) => {
            lemma_str_key_order(s, t, r1, r2);
        },
        _ => {},
    }
}

proof fn lemma_row_key_lt(a: Seq<Value>, b: Seq<Value>)
    requires
        comparable_rows(a, b),
        row_lt(a, b),
    ensures
        bytes_lt(row_key(a), row_key(b)),
    decreases a.len(),
{
    lemma_bytes_strict_total();
    assert(a.len() > 0);
    assert(is_i64(a[0]) && is_i64(b[0]));
    assert((a[0] is Int) == (b[0] is Int));
    if value_lt(a[0], b[0]) {
        lemma_value_key_order(a[0], b[0], row_key(a.drop_first()), row_key(b.drop_first()));
    } else {
        assert(a[0] == b[0]);
        assert forall|c: int| 0 <= c < a.drop_first().len() implies is_i64(#[trigger] a.drop_first()[c])
            && is_i64(b.drop_first()[c]) by {
            assert(is_i64(a[c + 1]) && is_i64(b[c + 1]));
        }
        assert forall|c: int| 0 <= c < a.drop_first().len() implies (#[trigger] a.drop_first()[c] is Int)
            == (b.drop_first()[c] is Int) by {
            assert((a[c + 1] is Int) == (b[c + 1] is Int));
        }
        lemma_row_key_lt(a.drop_first(), b.drop_first());
        lemma_lex_common_prefix(value_key(a[0]), row_key(a.drop_first()), row_key(b.drop_first()), byte_lt());
    }
}

/// For rows of one batch, comparing their keys byte by byte gives the composite row order.
pub proof fn lemma_row_key_order(a: Seq<Value>, b: Seq<Value>)
    requires
        comparable_rows(a, b),
    ensures
        bytes_lt(row_key(a), row_key(b)) == row_lt(a, b),
{
    lemma_bytes_strict_total();
    lemma_row_strict_total();
    if row_lt(a, b) {
        lemma_row_key_lt(a, b);
    } else if a == b {
        lemma_lex_irreflexive(row_key(a), byte_lt());
    } else {
        assert(row_order()(a, b) || row_order()(b, a));
        assert(row_lt(b, a));
        assert(comparable_rows(b, a)) by {
            assert forall|c: int| 0 <= c < b.len() implies is_i64(#[trigger] b[c]) && is_i64(a[c]) by {
                assert(is_i64(a[c]));
            }
            assert forall|c: int| 0 <= c < b.len() implies (#[trigger] b[c] is Int) == (a[c] is Int) by {
                assert((a[c] is Int) == (b[c] is Int));
            }
        }
        lemma_row_key_lt(b, a);
        if bytes_lt(row_key(a), row_key(b)) {
            lemma_lex_transitive(row_key(a), row_key(b), row_key(a), byte_lt());
            lemma_lex_irreflexive(row_key(a), byte_lt());
        }
    }
}

/// Any two rows of a well-formed batch are comparable.
pub proof fn lemma_batch_rows_comparable(b: BatchView, i: int, j: int)
    requires
        b.wf(),
        0 <= i < b.row_count,
        0 <= j < b.row_count,
    ensures
        comparable_rows(b.row(i), b.row(j)),
{
    assert forall|c: int| 0 <= c < b.row(i).len() implies is_i64(#[trigger] b.row(i)[c]) && is_i64(b.row(j)[c]) by {
        let col = b.columns[c];
    }
    assert forall|c: int| 0 <= c < b.row(i).len() implies (#[trigger] b.row(i)[c] is Int) == (b.row(j)[c] is Int) by {
        let col = b.columns[c];
    }
}

fn push_big_endian(out: &mut Vec<u8>, x: u64, k: u64, p: u64)
    requires
        1 <= k <= 8,
        p == pow256((k - 1) as nat),
        x < pow256(k as nat),
    ensures
        final(out)@ == old(out)@ + big_endian(x as nat, k as nat),
    decreases k,
{
    proof {
        lemma_pow256_pos((k - 1) as nat);
    }
    assert(x / p < 256) by (nonlinear_arith)
        requires
            x < 256 * p,
            p > 0,
    ;
    out.push((x / p) as u8);
    if k > 1 {
        assert(p / 256 == pow256((k - 2) as nat)) by {
            assert(p == 256 * pow256((k - 2) as nat));
        }
        proof {
            lemma_mod_bound(x as int, p as int);
        }
        push_big_endian(out, x % p, k - 1, p / 256);
    }
    assert(big_endian(x as nat, k as nat) =~= seq![(x / p) as u8] + big_endian((x % p) as nat, (k - 1) as nat));
    assert(final(out)@ =~= old(out)@ + big_endian(x as nat, k as nat));
}

fn push_int_key(out: &mut Vec<u8>, x: i64)
    ensures
        final(out)@ == old(out)@ + int_key(x as int),
{
    let u: u64 = if x < 0 {
        ((x + 1) + 9223372036854775807) as u64
    } else {
        x as u64 + 9223372036854775808
    };
    assert(pow256(8) == 0x1_0000_0000_0000_0000 && pow256(7) == 0x100_0000_0000_0000) by {
        reveal_with_fuel(pow256, 9);
    }
    push_big_endian(out, u, 8, 0x100_0000_0000_0000);
}

fn push_str_key(out: &mut Vec<u8>, s: &Vec<u8>)
    ensures
        final(out)@ == old(out)@ + str_key(s@),
{
    let mut i: usize = 0;
    assert(s@.skip(0) =~= s@);
    while i < s.len()
        invariant
            i <= s.len(),
            out@ + str_key(s@.skip(i as int)) == old(out)@ + str_key(s@),
        decreases s.len() - i,
    {
        let ghost before = out@;
        assert(s@.skip(i as int).drop_first() =~= s@.skip(i + 1));
        out.push(1u8);
        out.push(s[i]);
        i += 1;
        assert(before + str_key(s@.skip(i - 1)) =~= out@ + str_key(s@.skip(i as int)));
    }
    assert(str_key(s@.skip(i as int)) =~= seq![0u8]);
    out.push(0u8);
    assert(out@ =~= old(out)@ + str_key(s@));
}

/// Appends the key of row `i`'s value in column `col`.
fn push_value_key(out: &mut Vec<u8>, col: &Column, i: usize)
    requires
        col@.wf(),
        i < col@.len(),
    ensures
        final(out)@ == old(out)@ + value_key(col@.cell(i as int)),
{
    match col {
        Column::Int64(v) => push_int_key(out, v[i]),
        Column::Float64(v) => push_int_key(out, v[i]),
        Column::Utf8(v) => push_str_key(out, &v[i]),
        Column::Dictionary { values, keys } => {
            assert(keys@[i as int] < values@.len());
            push_str_key(out, &values[keys[i]]);
        },
    }
}

/// The key of row `i` of `batch`.
pub fn encode_row(batch: &Batch, i: usize) -> (r: Vec<u8>)
    requires
        batch@.wf(),
        i < batch.row_count,
    ensures
        r@ == row_key(batch@.row(i as int)),
{
    let ghost row = batch@.row(i as int);
    let mut out: Vec<u8> = Vec::new();
    let mut c: usize = 0;
    assert(row.skip(0) =~= row);
    assert(out@ + row_key(row) =~= row_key(row));
    while c < batch.columns.len()
        invariant
            batch@.wf(),
            i < batch.row_count,
            row == batch@.row(i as int),
            c <= batch.columns.len(),
            out@ + row_key(row.skip(c as int)) == row_key(row),
        decreases batch.columns.len() - c,
    {
        assert(batch@.columns[c as int] == batch.columns@[c as int]@);
        let ghost before = out@;
        push_value_key(&mut out, &batch.columns[c], i);
        assert(row.skip(c as int).drop_first() =~= row.skip(c + 1));
        assert(row.skip(c as int)[0] == row[c as int]);
        c += 1;
        assert(before + row_key(row.skip(c - 1)) =~= out@ + row_key(row.skip(c as int)));
    }
    assert(row.skip(c as int) =~= Seq::<Value>::empty());
    assert(out@ =~= row_key(row));
    out
}

/// The keys of every row of `batch`, in row order.
pub fn encode_rows(batch: &Batch) -> (r: Vec<Vec<u8>>)
    requires
        batch@.wf(),
    ensures
        r.len() == batch.row_count,
        forall|i: int| 0 <= i < r.len() ==> (#[trigger] r@[i])@ == row_key(batch@.row(i)),
{
    let mut r: Vec<Vec<u8>> = Vec::with_capacity(batch.row_count);
    let mut i: usize = 0;
    while i < batch.row_count
        invariant
            batch@.wf(),
            i <= batch.row_count,
            r.len() == i,
            forall|j: int| 0 <= j < i ==> (#[trigger] r@[j])@ == row_key(batch@.row(j)),
        decreases batch.row_count - i,
    {
        r.push(encode_row(batch, i));
        i += 1;
    }
    r
}

} // verus!
