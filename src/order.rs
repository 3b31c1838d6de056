//! Lexicographic orders over sequences, and the value order of a batch.
use vstd::prelude::*;

verus! {

/// A value of one cell, as the comparisons see it: a number, or a string of bytes.
pub enum Value {
    Int(int),
    Bytes(Seq<u8>),
}

/// Strict lexicographic order of two sequences, under a strict order of their elements.
/// A proper prefix comes first.
pub open spec fn lex_lt<T>(a: Seq<T>, b: Seq<T>, lt: spec_fn(T, T) -> bool) -> bool
    decreases a.len(),
{
    if a.len() == 0 {
        b.len() > 0
    } else if b.len() == 0 {
        false
    } else if lt(a[0], b[0]) {
        true
    } else if a[0] == b[0] {
        lex_lt(a.drop_first(), b.drop_first(), lt)
    } else {
        false
    }
}

/// `lt` is irreflexive, transitive and total on distinct elements.
pub open spec fn strict_total<T>(lt: spec_fn(T, T) -> bool) -> bool {
    &&& forall|x: T| !#[trigger] lt(x, x)
    &&& forall|x: T, y: T, z: T| #[trigger] lt(x, y) && #[trigger] lt(y, z) ==> lt(x, z)
    &&& forall|x: T, y: T| x != y ==> #[trigger] lt(x, y) || #[trigger] lt(y, x)
}

/// The order of bytes.
pub open spec fn byte_lt() -> spec_fn(u8, u8) -> bool {
    |x: u8, y: u8| x < y
}

/// Strict lexicographic order of byte strings.
pub open spec fn bytes_lt(a: Seq<u8>, b: Seq<u8>) -> bool {
    lex_lt(a, b, byte_lt())
}

/// The order of two cell values: numbers by value, byte strings lexicographically.
/// (A column holds one kind only; numbers before strings makes the order total.)
pub open spec fn value_lt(a: Value, b: Value) -> bool {
    match (a, b) {
        (Value::Int(x), Value::Int(y)) => x < y,
        (Value::Bytes(x), Value::Bytes(y)) => bytes_lt(x, y),
        (Value::Int(_), Value::Bytes(_)) => true,
        (Value::Bytes(_), Value::Int(_)) => false,
    }
}

pub open spec fn value_order() -> spec_fn(Value, Value) -> bool {
    |x: Value, y: Value| value_lt(x, y)
}

/// Composite order of rows: the leftmost column is the primary key.
pub open spec fn row_lt(a: Seq<Value>, b: Seq<Value>) -> bool {
    lex_lt(a, b, value_order())
}

pub proof fn lemma_lex_irreflexive<T>(a: Seq<T>, lt: spec_fn(T, T) -> bool)
    requires
        strict_total(lt),
    ensures
        !lex_lt(a, a, lt),
    decreases a.len(),
{
    if a.len() > 0 {
        lemma_lex_irreflexive(a.drop_first(), lt);
    }
}

pub proof fn lemma_lex_transitive<T>(a: Seq<T>, b: Seq<T>, c: Seq<T>, lt: spec_fn(T, T) -> bool)
    requires
        strict_total(lt),
        lex_lt(a, b, lt),
        lex_lt(b, c, lt),
    ensures
        lex_lt(a, c, lt),
    decreases a.len(),
{
    if a.len() > 0 && b.len() > 0 && c.len() > 0 {
        if a[0] == b[0] && b[0] == c[0] {
            lemma_lex_transitive(a.drop_first(), b.drop_first(), c.drop_first(), lt);
        }
    }
}

pub proof fn lemma_lex_total<T>(a: Seq<T>, b: Seq<T>, lt: spec_fn(T, T) -> bool)
    requires
        strict_total(lt),
        a != b,
    ensures
        lex_lt(a, b, lt) || lex_lt(b, a, lt),
    decreases a.len(),
{
    if a.len() > 0 && b.len() > 0 && a[0] == b[0] {
        if a.drop_first() == b.drop_first() {
            assert(a =~= seq![a[0]] + a.drop_first());
            assert(b =~= seq![b[0]] + b.drop_first());
        }
        lemma_lex_total(a.drop_first(), b.drop_first(), lt);
    } else if a.len() == 0 && b.len() == 0 {
        assert(a =~= b);
    }
}

/// A lexicographic order over a strict total order is a strict total order.
pub proof fn lemma_lex_strict_total<T>(lt: spec_fn(T, T) -> bool)
    requires
        strict_total(lt),
    ensures
        strict_total(|a: Seq<T>, b: Seq<T>| lex_lt(a, b, lt)),
{
    assert forall|x: Seq<T>| !lex_lt(x, x, lt) by {
        lemma_lex_irreflexive(x, lt);
    }
    assert forall|x: Seq<T>, y: Seq<T>, z: Seq<T>|
        lex_lt(x, y, lt) && lex_lt(y, z, lt) implies lex_lt(x, z, lt) by {
        lemma_lex_transitive(x, y, z, lt);
    }
    assert forall|x: Seq<T>, y: Seq<T>| x != y implies lex_lt(x, y, lt) || lex_lt(y, x, lt) by {
        lemma_lex_total(x, y, lt);
    }
}

/// Sequences that agree on their first `i` elements compare as what follows them does.
pub proof fn lemma_lex_skip<T>(a: Seq<T>, b: Seq<T>, i: int, lt: spec_fn(T, T) -> bool)
    requires
        strict_total(lt),
        0 <= i <= a.len(),
        i <= b.len(),
        a.take(i) == b.take(i),
    ensures
        lex_lt(a, b, lt) == lex_lt(a.skip(i), b.skip(i), lt),
    decreases i,
{
    if i > 0 {
        assert(a[0] == a.take(i)[0]);
        assert(b[0] == b.take(i)[0]);
        assert(a[0] == b[0]);
        assert(a.drop_first().take(i - 1) =~= a.take(i).drop_first());
        assert(b.drop_first().take(i - 1) =~= b.take(i).drop_first());
        lemma_lex_skip(a.drop_first(), b.drop_first(), i - 1, lt);
        assert(a.drop_first().skip(i - 1) =~= a.skip(i));
        assert(b.drop_first().skip(i - 1) =~= b.skip(i));
    } else {
        assert(a.skip(0) =~= a);
        assert(b.skip(0) =~= b);
    }
}

/// A common prefix does not change the comparison.
pub proof fn lemma_lex_common_prefix<T>(p: Seq<T>, x: Seq<T>, y: Seq<T>, lt: spec_fn(T, T) -> bool)
    requires
        strict_total(lt),
    ensures
        lex_lt(p + x, p + y, lt) == lex_lt(x, y, lt),
{
    assert((p + x).take(p.len() as int) =~= p);
    assert((p + y).take(p.len() as int) =~= p);
    lemma_lex_skip(p + x, p + y, p.len() as int, lt);
    assert((p + x).skip(p.len() as int) =~= x);
    assert((p + y).skip(p.len() as int) =~= y);
}

pub proof fn lemma_bytes_strict_total()
    ensures
        strict_total(byte_lt()),
        strict_total(|a: Seq<u8>, b: Seq<u8>| lex_lt(a, b, byte_lt())),
{
    lemma_lex_strict_total(byte_lt());
}

pub proof fn lemma_value_strict_total()
    ensures
        strict_total(value_order()),
{
    lemma_bytes_strict_total();
    assert forall|x: Value, y: Value, z: Value|
        value_lt(x, y) && value_lt(y, z) implies value_lt(x, z) by {
        if let (Value::Bytes(a), Value::Bytes(b), Value::Bytes(c)) = (x, y, z) {
            lemma_lex_transitive(a, b, c, byte_lt());
        }
    }
    assert forall|x: Value| !value_lt(x, x) by {
        if let Value::Bytes(a) = x {
            lemma_lex_irreflexive(a, byte_lt());
        }
    }
    assert forall|x: Value, y: Value| x != y implies value_lt(x, y) || value_lt(y, x) by {
        if let (Value::Bytes(a), Value::Bytes(b)) = (x, y) {
            lemma_lex_total(a, b, byte_lt());
        }
    }
}

pub open spec fn row_order() -> spec_fn(Seq<Value>, Seq<Value>) -> bool {
    |a: Seq<Value>, b: Seq<Value>| row_lt(a, b)
}

/// The composite row order is a strict total order.
pub proof fn lemma_row_strict_total()
    ensures
        strict_total(row_order()),
{
    lemma_value_strict_total();
    assert forall|x: Seq<Value>| !row_lt(x, x) by {
        lemma_lex_irreflexive(x, value_order());
    }
    assert forall|x: Seq<Value>, y: Seq<Value>, z: Seq<Value>|
        row_lt(x, y) && row_lt(y, z) implies row_lt(x, z) by {
        lemma_lex_transitive(x, y, z, value_order());
    }
    assert forall|x: Seq<Value>, y: Seq<Value>| x != y implies row_lt(x, y) || row_lt(y, x) by {
        lemma_lex_total(x, y, value_order());
    }
}


/// "Not greater than" is transitive for the row order.
pub proof fn lemma_row_le_transitive(a: Seq<Value>, b: Seq<Value>, c: Seq<Value>)
    requires
        !row_lt(b, a),
        !row_lt(c, b),
    ensures
        !row_lt(c, a),
{
    lemma_value_strict_total();
    if row_lt(c, a) {
        if a != b {
            lemma_lex_total(a, b, value_order());
            lemma_lex_transitive(c, a, b, value_order());
        }
    }
}

/// The row order is transitive.
pub proof fn lemma_row_lt_transitive(a: Seq<Value>, b: Seq<Value>, c: Seq<Value>)
    requires
        row_lt(a, b),
        row_lt(b, c),
    ensures
        row_lt(a, c),
{
    lemma_value_strict_total();
    lemma_lex_transitive(a, b, c, value_order());
}

} // verus!
