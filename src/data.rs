//! Deterministic synthetic data: value generators and the batches of each benchmark case.
use vstd::prelude::*;
use crate::batch::{Batch, BatchView, Column, ColumnView, DataKind, Field, bytes_view, is_permutation,
    apply_permutation};
use crate::sort::{SortStrategy, sort_to_indices, sorts, stable, lemma_strategies_agree};
use crate::order::Value;
use crate::rng::{Source, drawn_below, drawn_alphanumeric};

verus! {

/// The seed every generation starts from.
pub const SEED: u64 = 42;

/// The number of distinct low-cardinality strings.
pub const LOW_CARDINALITY: u64 = 100;

/// The length of a high-cardinality string.
pub const HIGH_CARDINALITY_LEN: usize = 20;

/// How many characters one high-cardinality string may draw before it gives up
/// (20 letters need about 24 draws).
pub const MAX_STRING_DRAWS: u64 = 0xffff_ffff_ffff_ffff;

/// `k` copies of a range draw's bound, as a history lists them.
pub open spec fn repeated(bound: u64, k: nat) -> Seq<u64> {
    Seq::new(k, |i: int| bound)
}

/// The `count` values that successive draws below `bound` give, after `history`.
pub open spec fn draws(seed: u64, history: Seq<u64>, bound: u64, count: nat) -> Seq<u64>
    decreases count,
{
    if count == 0 {
        seq![]
    } else {
        draws(seed, history, bound, (count - 1) as nat).push(
            drawn_below(seed, history + repeated(bound, (count - 1) as nat), bound),
        )
    }
}

pub open spec fn is_ascii_alphabetic(c: u8) -> bool {
    (65 <= c <= 90) || (97 <= c <= 122)
}

/// The letters kept from successive alphanumeric draws (digits are dropped) until
/// `need` letters are kept or `fuel` draws are spent, and the history after them.
pub open spec fn letters(seed: u64, history: Seq<u64>, need: nat, fuel: nat) -> (Seq<u8>, Seq<u64>)
    decreases fuel,
{
    if need == 0 || fuel == 0 {
        (seq![], history)
    } else {
        let c = drawn_alphanumeric(seed, history);
        if is_ascii_alphabetic(c) {
            let rest = letters(seed, history.push(0), (need - 1) as nat, (fuel - 1) as nat);
            (seq![c] + rest.0, rest.1)
        } else {
            letters(seed, history.push(0), need, (fuel - 1) as nat)
        }
    }
}

/// One high-cardinality string drawn after `history`, and the history after it.
pub open spec fn random_string_after(seed: u64, history: Seq<u64>) -> (Seq<u8>, Seq<u64>) {
    letters(seed, history, HIGH_CARDINALITY_LEN as nat, MAX_STRING_DRAWS as nat)
}

/// `count` successive high-cardinality strings, and the history after them.
pub open spec fn random_strings(seed: u64, history: Seq<u64>, count: nat) -> (Seq<Seq<u8>>, Seq<u64>)
    decreases count,
{
    if count == 0 {
        (seq![], history)
    } else {
        let prev = random_strings(seed, history, (count - 1) as nat);
        let next = random_string_after(seed, prev.1);
        (prev.0.push(next.0), next.1)
    }
}

/// The decimal digits of `s`.
pub open spec fn decimal(s: nat) -> Seq<u8>
    decreases s,
{
    if s < 10 {
        seq![(48 + s) as u8]
    } else {
        decimal(s / 10).push((48 + s % 10) as u8)
    }
}

/// The low-cardinality string number `s`: `value` and the digits of `s`.
pub open spec fn value_name(s: nat) -> Seq<u8> {
    seq![118u8, 97u8, 108u8, 117u8, 101u8] + decimal(s)
}

/// The pool of low-cardinality strings: `value0` ... `value99`.
pub open spec fn low_cardinality_pool() -> Seq<Seq<u8>> {
    Seq::new(LOW_CARDINALITY as nat, |k: int| value_name(k as nat))
}

/// `s` is one of `value0` ... `value99`.
pub open spec fn is_low_name(s: Seq<u8>) -> bool {
    low_cardinality_pool().contains(s)
}

/// Every byte of `s` is an ASCII letter.
pub open spec fn all_letters(s: Seq<u8>) -> bool {
    forall|j: int| 0 <= j < s.len() ==> is_ascii_alphabetic(#[trigger] s[j])
}

proof fn lemma_low_name(k: nat)
    requires
        k < LOW_CARDINALITY,
    ensures
        is_low_name(value_name(k)),
{
    assert(low_cardinality_pool()[k as int] == value_name(k));
}

fn value_name_of(s: u64) -> (r: Vec<u8>)
    requires
        s < 100,
    ensures
        r@ == value_name(s as nat),
{
    let mut r: Vec<u8> = vec![118u8, 97u8, 108u8, 117u8, 101u8];
    if s >= 10 {
        r.push((48 + s / 10) as u8);
        assert(decimal((s / 10) as nat) =~= seq![(48 + s / 10) as u8]);
    }
    r.push((48 + s % 10) as u8);
    proof {
        reveal_with_fuel(decimal, 2);
    }
    assert(r@ =~= value_name(s as nat));
    r
}

/// Makes the column values of one benchmark case from one seeded generator.
pub struct DataGenerator {
    pub src: Source,
    pub row_count: usize,
}

impl DataGenerator {
    pub fn new(row_count: usize) -> (r: Self)
        ensures
            r.src.seed() == SEED,
            r.src.history() == Seq::<u64>::empty(),
            r.row_count == row_count,
    {
        DataGenerator { src: Source::new(SEED), row_count }
    }

    /// `row_count` draws below `bound`.
    fn draw_values(&mut self, bound: u64) -> (r: Vec<u64>)
        requires
            bound > 0,
        ensures
            r@ == draws(old(self).src.seed(), old(self).src.history(), bound, old(self).row_count as nat),
            final(self).src.seed() == old(self).src.seed(),
            final(self).src.history() == old(self).src.history() + repeated(bound, old(self).row_count as nat),
            final(self).row_count == old(self).row_count,
            r.len() == old(self).row_count,
            forall|j: int| 0 <= j < r.len() ==> #[trigger] r@[j] < bound,
    {
        let ghost h0 = self.src.history();
        let mut r: Vec<u64> = Vec::with_capacity(self.row_count);
        let mut k: usize = 0;
        assert(h0 + repeated(bound, 0) =~= h0);
        while k < self.row_count
            invariant
                bound > 0,
                k <= self.row_count,
                self.row_count == old(self).row_count,
                self.src.seed() == old(self).src.seed(),
                h0 == old(self).src.history(),
                self.src.history() == h0 + repeated(bound, k as nat),
                r@ == draws(self.src.seed(), h0, bound, k as nat),
                r.len() == k,
                forall|j: int| 0 <= j < r.len() ==> #[trigger] r@[j] < bound,
            decreases self.row_count - k,
        {
            let v = self.src.below(bound);
            r.push(v);
            k += 1;
            assert(self.src.history() =~= h0 + repeated(bound, k as nat));
        }
        r
    }

    /// Integers drawn uniformly from `0..row_count` (about a third repeat).
    pub fn i64_values(&mut self) -> (r: Vec<i64>)
        requires
            old(self).row_count <= i64::MAX,
        ensures
            r@ == draws(old(self).src.seed(), old(self).src.history(), old(self).row_count as u64, old(self).row_count as nat).map_values(|v: u64| v as i64),
            final(self).src.seed() == old(self).src.seed(),
            final(self).src.history() == old(self).src.history() + repeated(old(self).row_count as u64, old(self).row_count as nat),
            final(self).row_count == old(self).row_count,
            r.len() == old(self).row_count,
            forall|j: int| 0 <= j < r.len() ==> 0 <= #[trigger] r@[j] < old(self).row_count,
    {
        if self.row_count == 0 {
            let ghost h = self.src.history();
            assert(h + repeated(0, 0) =~= h);
            return Vec::new();
        }
        let raw = self.draw_values(self.row_count as u64);
        let mut r: Vec<i64> = Vec::with_capacity(raw.len());
        let mut k: usize = 0;
        while k < raw.len()
            invariant
                k <= raw.len(),
                raw.len() == self.row_count,
                self.row_count <= i64::MAX,
                forall|j: int| 0 <= j < raw.len() ==> #[trigger] raw@[j] < self.row_count,
                r@ =~= raw@.take(k as int).map_values(|v: u64| v as i64),
            decreases raw.len() - k,
        {
            r.push(raw[k] as i64);
            k += 1;
            assert(raw@.take(k as int) =~= raw@.take(k - 1).push(raw@[k - 1]));
        }
        assert(raw@.take(k as int) =~= raw@);
        assert forall|j: int| 0 <= j < r.len() implies 0 <= #[trigger] r@[j] < self.row_count by {
            assert(r@[j] == raw@[j] as i64);
        }
        r
    }

    /// Strings drawn uniformly, with replacement, from `value0` ... `value99`.
    pub fn utf8_low_cardinality_values(&mut self) -> (r: Vec<Vec<u8>>)
        ensures
            bytes_view(r@) == draws(old(self).src.seed(), old(self).src.history(), LOW_CARDINALITY, old(self).row_count as nat).map_values(
                |i: u64| value_name(i as nat),
            ),
            final(self).src.seed() == old(self).src.seed(),
            final(self).src.history() == old(self).src.history() + repeated(LOW_CARDINALITY, old(self).row_count as nat),
            final(self).row_count == old(self).row_count,
            r.len() == old(self).row_count,
            forall|j: int| 0 <= j < old(self).row_count ==> #[trigger] draws(old(self).src.seed(), old(self).src.history(), LOW_CARDINALITY, old(self).row_count as nat)[j] < LOW_CARDINALITY,
            forall|j: int| 0 <= j < r.len() ==> is_low_name(#[trigger] r@[j]@),
    {
        let mut strings: Vec<Vec<u8>> = Vec::with_capacity(100);
        let mut s: u64 = 0;
        while s < LOW_CARDINALITY
            invariant
                s <= LOW_CARDINALITY,
                strings.len() == s,
                forall|j: int| 0 <= j < s ==> (#[trigger] strings@[j])@ == value_name(j as nat),
            decreases LOW_CARDINALITY - s,
        {
            strings.push(value_name_of(s));
            s += 1;
        }
        let idx = self.draw_values(LOW_CARDINALITY);
        let mut r: Vec<Vec<u8>> = Vec::with_capacity(idx.len());
        let mut k: usize = 0;
        while k < idx.len()
            invariant
                k <= idx.len(),
                strings.len() == LOW_CARDINALITY,
                forall|j: int| 0 <= j < LOW_CARDINALITY ==> (#[trigger] strings@[j])@ == value_name(j as nat),
                forall|j: int| 0 <= j < idx.len() ==> #[trigger] idx@[j] < LOW_CARDINALITY,
                r.len() == k,
                forall|j: int| 0 <= j < k ==> (#[trigger] r@[j])@ == value_name(idx@[j] as nat),
            decreases idx.len() - k,
        {
            let i = idx[k] as usize;
            r.push(copy_bytes(&strings[i]));
            k += 1;
        }
        assert(bytes_view(r@) =~= idx@.map_values(|i: u64| value_name(i as nat)));
        assert forall|j: int| 0 <= j < r.len() implies is_low_name(#[trigger] r@[j]@) by {
            lemma_low_name(idx@[j] as nat);
        }
        r
    }

    /// A string of 20 letters: alphanumeric draws with the digits dropped. It is shorter
    /// only if `MAX_STRING_DRAWS` draws gave fewer than 20 letters.
    pub fn random_string(&mut self) -> (r: Vec<u8>)
        ensures
            r@ == random_string_after(old(self).src.seed(), old(self).src.history()).0,
            final(self).src.history() == random_string_after(old(self).src.seed(), old(self).src.history()).1,
            final(self).src.seed() == old(self).src.seed(),
            final(self).row_count == old(self).row_count,
            all_letters(r@),
            r.len() <= HIGH_CARDINALITY_LEN,
            final(self).src.history().len() >= old(self).src.history().len(),
            r.len() < HIGH_CARDINALITY_LEN ==> final(self).src.history().len() == old(self).src.history().len()
                + MAX_STRING_DRAWS,
    {
        let ghost h0 = self.src.history();
        let ghost target = random_string_after(self.src.seed(), h0);
        let mut r: Vec<u8> = Vec::new();
        let mut budget: u64 = MAX_STRING_DRAWS;
        assert(r@ + target.0 =~= target.0);
        while r.len() < HIGH_CARDINALITY_LEN && budget > 0
            invariant
                r.len() <= HIGH_CARDINALITY_LEN,
                self.row_count == old(self).row_count,
                self.src.seed() == old(self).src.seed(),
                h0 == old(self).src.history(),
                target == random_string_after(self.src.seed(), h0),
                target.0 == r@ + letters(self.src.seed(), self.src.history(), (HIGH_CARDINALITY_LEN - r.len()) as nat, budget as nat).0,
                target.1 == letters(self.src.seed(), self.src.history(), (HIGH_CARDINALITY_LEN - r.len()) as nat, budget as nat).1,
                all_letters(r@),
                self.src.history().len() == h0.len() + (MAX_STRING_DRAWS - budget),
            decreases budget,
        {
            let ghost h = self.src.history();
            let ghost need = (HIGH_CARDINALITY_LEN - r.len()) as nat;
            let ghost before = r@;
            let c = self.src.alphanumeric();
            budget -= 1;
            if (65 <= c && c <= 90) || (97 <= c && c <= 122) {
                r.push(c);
                assert(before + letters(self.src.seed(), h, need, (budget + 1) as nat).0 =~= r@ + letters(
                    self.src.seed(),
                    self.src.history(),
                    (HIGH_CARDINALITY_LEN - r.len()) as nat,
                    budget as nat,
                ).0);
            }
        }
        assert(r@ + seq![] =~= r@);
        r
    }

    /// `row_count` strings of 20 random letters (almost surely all distinct). A string
    /// is shorter only if its `MAX_STRING_DRAWS` draws gave fewer than 20 letters.
    pub fn utf8_high_cardinality_values(&mut self) -> (r: Vec<Vec<u8>>)
        ensures
            bytes_view(r@) == random_strings(old(self).src.seed(), old(self).src.history(), old(self).row_count as nat).0,
            final(self).src.history() == random_strings(old(self).src.seed(), old(self).src.history(), old(self).row_count as nat).1,
            final(self).src.seed() == old(self).src.seed(),
            final(self).row_count == old(self).row_count,
            r.len() == old(self).row_count,
            forall|j: int| 0 <= j < r.len() ==> all_letters(#[trigger] r@[j]@) && r@[j]@.len() <= HIGH_CARDINALITY_LEN,
            forall|j: int| 0 <= j < r.len() && #[trigger] r@[j]@.len() < HIGH_CARDINALITY_LEN ==> final(self).src.history().len()
                >= old(self).src.history().len() + MAX_STRING_DRAWS,
    {
        let ghost h0 = self.src.history();
        let mut r: Vec<Vec<u8>> = Vec::with_capacity(self.row_count);
        let mut k: usize = 0;
        assert(bytes_view(r@) =~= random_strings(self.src.seed(), h0, 0).0);
        while k < self.row_count
            invariant
                k <= self.row_count,
                self.row_count == old(self).row_count,
                self.src.seed() == old(self).src.seed(),
                h0 == old(self).src.history(),
                bytes_view(r@) == random_strings(self.src.seed(), h0, k as nat).0,
                self.src.history() == random_strings(self.src.seed(), h0, k as nat).1,
                r.len() == k,
                self.src.history().len() >= h0.len(),
                forall|j: int| 0 <= j < r.len() ==> all_letters(#[trigger] r@[j]@) && r@[j]@.len() <= HIGH_CARDINALITY_LEN,
                forall|j: int| 0 <= j < r.len() && #[trigger] r@[j]@.len() < HIGH_CARDINALITY_LEN ==> self.src.history().len()
                    >= h0.len() + MAX_STRING_DRAWS,
            decreases self.row_count - k,
        {
            let s = self.random_string();
            r.push(s);
            k += 1;
            assert(bytes_view(r@) =~= random_strings(self.src.seed(), h0, k as nat).0);
        }
        r
    }
}

fn copy_bytes(v: &Vec<u8>) -> (r: Vec<u8>)
    ensures
        r@ == v@,
{
    let r = v.clone();
    assert(r@ =~= v@);
    r
}

/// Where `x` first occurs in `t`, or `t.len()` if it does not.
pub open spec fn position(t: Seq<Seq<u8>>, x: Seq<u8>) -> nat
    decreases t.len(),
{
    if t.len() == 0 {
        0
    } else if t[0] == x {
        0
    } else {
        1 + position(t.drop_first(), x)
    }
}

/// Dictionary encoding: the distinct values in order of first occurrence, and the code
/// of each row.
pub open spec fn dict_encode(v: Seq<Seq<u8>>) -> (Seq<Seq<u8>>, Seq<usize>)
    decreases v.len(),
{
    if v.len() == 0 {
        (seq![], seq![])
    } else {
        let prev = dict_encode(v.drop_last());
        let j = position(prev.0, v.last());
        if j < prev.0.len() {
            (prev.0, prev.1.push(j as usize))
        } else {
            (prev.0.push(v.last()), prev.1.push(prev.0.len() as usize))
        }
    }
}

proof fn lemma_position(t: Seq<Seq<u8>>, x: Seq<u8>, j: int)
    requires
        0 <= j <= t.len(),
        forall|m: int| 0 <= m < j ==> t[m] != x,
        j == t.len() || t[j] == x,
    ensures
        position(t, x) == j,
    decreases j,
{
    if j > 0 {
        lemma_position(t.drop_first(), x, j - 1);
    }
}

proof fn lemma_position_found(t: Seq<Seq<u8>>, x: Seq<u8>)
    requires
        position(t, x) < t.len(),
    ensures
        t[position(t, x) as int] == x,
    decreases t.len(),
{
    if t.len() > 0 && t[0] != x {
        lemma_position_found(t.drop_first(), x);
    }
}

fn find_bytes(t: &Vec<Vec<u8>>, x: &Vec<u8>) -> (r: usize)
    ensures
        r == position(bytes_view(t@), x@),
        r <= t.len(),
        r == t.len() ==> forall|m: int| 0 <= m < t.len() ==> (#[trigger] t@[m])@ != x@,
{
    let mut j: usize = 0;
    while j < t.len()
        invariant
            j <= t.len(),
            forall|m: int| 0 <= m < j ==> (#[trigger] t@[m])@ != x@,
        decreases t.len() - j,
    {
        if crate::sort::compare_bytes(&t[j], x) == 0 {
            proof {
                lemma_position(bytes_view(t@), x@, j as int);
            }
            return j;
        }
        j += 1;
    }
    proof {
        lemma_position(bytes_view(t@), x@, j as int);
    }
    j
}

/// The dictionary-encoded column holding the strings `v`.
pub fn dictionary_encode(v: &Vec<Vec<u8>>) -> (r: Column)
    ensures
        r@ == (ColumnView::Dictionary { values: dict_encode(bytes_view(v@)).0, keys: dict_encode(bytes_view(v@)).1 }),
        r@.wf(),
        r@.len() == v.len(),
        forall|i: int| 0 <= i < v.len() ==> #[trigger] r@.cell(i) == crate::order::Value::Bytes(v@[i]@),
        r@->values.no_duplicates(),
        (forall|i: int| 0 <= i < v.len() ==> is_low_name(#[trigger] v@[i]@)) ==> distinct_low_table(r@),
{
    let ghost all_low = forall|i: int| 0 <= i < v.len() ==> is_low_name(#[trigger] v@[i]@);
    let mut values: Vec<Vec<u8>> = Vec::new();
    let mut keys: Vec<usize> = Vec::with_capacity(v.len());
    let mut k: usize = 0;
    while k < v.len()
        invariant
            k <= v.len(),
            (bytes_view(values@), keys@) == dict_encode(bytes_view(v@).take(k as int)),
            keys.len() == k,
            forall|i: int| 0 <= i < keys.len() ==> #[trigger] keys@[i] < values.len(),
            forall|i: int| 0 <= i < keys.len() ==> (#[trigger] values@[keys@[i] as int])@ == v@[i]@,
            bytes_view(values@).no_duplicates(),
            all_low == forall|i: int| 0 <= i < v.len() ==> is_low_name(#[trigger] v@[i]@),
            all_low ==> forall|j: int| 0 <= j < values.len() ==> is_low_name(#[trigger] values@[j]@),
        decreases v.len() - k,
    {
        let ghost before = bytes_view(v@).take(k as int);
        assert(bytes_view(v@).take(k + 1).drop_last() =~= before);
        assert(bytes_view(v@).take(k + 1).last() == v@[k as int]@);
        let j = find_bytes(&values, &v[k]);
        if j < values.len() {
            proof {
                lemma_position_found(bytes_view(values@), v@[k as int]@);
            }
            keys.push(j);
        } else {
            let ghost old_table = bytes_view(values@);
            keys.push(values.len());
            values.push(copy_bytes(&v[k]));
            assert(bytes_view(values@) =~= dict_encode(before).0.push(v@[k as int]@));
            assert(bytes_view(values@) =~= old_table.push(v@[k as int]@));
            assert forall|a: int, b: int| 0 <= a < values.len() && 0 <= b < values.len() && a != b implies bytes_view(values@)[a]
                != bytes_view(values@)[b] by {
                if a < old_table.len() && b < old_table.len() {
                    assert(old_table[a] != old_table[b]);
                } else if a < old_table.len() {
                    assert(values@[a]@ != v@[k as int]@);
                } else {
                    assert(values@[b]@ != v@[k as int]@);
                }
            }
        }
        k += 1;
    }
    assert(bytes_view(v@).take(k as int) =~= bytes_view(v@));
    proof {
        if all_low {
            lemma_distinct_low_len(bytes_view(values@));
        }
    }
    Column::Dictionary { values, keys }
}

/// Distinct strings of the pool number at most 100.
proof fn lemma_distinct_low_len(t: Seq<Seq<u8>>)
    requires
        t.no_duplicates(),
        forall|j: int| 0 <= j < t.len() ==> is_low_name(#[trigger] t[j]),
    ensures
        t.len() <= LOW_CARDINALITY,
{
    let pool = low_cardinality_pool();
    t.unique_seq_to_set();
    pool.lemma_cardinality_of_set();
    vstd::seq_lib::seq_to_set_is_finite(pool);
    assert(t.to_set().subset_of(pool.to_set())) by {
        assert forall|x: Seq<u8>| t.to_set().contains(x) implies pool.to_set().contains(x) by {
            let j = choose|j: int| 0 <= j < t.len() && t[j] == x;
            assert(is_low_name(t[j]));
        }
    }
    vstd::set_lib::lemma_len_subset(t.to_set(), pool.to_set());
}

/// `v` is an integer in `0..n`.
pub open spec fn int_below(v: Value, n: nat) -> bool {
    match v {
        Value::Int(x) => 0 <= x < n,
        _ => false,
    }
}

/// `v` is one of `value0` ... `value99`.
pub open spec fn low_name_value(v: Value) -> bool {
    match v {
        Value::Bytes(s) => is_low_name(s),
        _ => false,
    }
}

/// `v` is a string of at most 20 ASCII letters.
pub open spec fn letters_value(v: Value) -> bool {
    match v {
        Value::Bytes(s) => all_letters(s) && s.len() <= HIGH_CARDINALITY_LEN,
        _ => false,
    }
}

/// Every cell of `c` is an integer in `0..n`.
pub open spec fn cells_below(c: ColumnView, n: nat) -> bool {
    forall|i: int| 0 <= i < c.len() ==> int_below(#[trigger] c.cell(i), n)
}

/// Every cell of `c`, decoded, is one of `value0` ... `value99`.
pub open spec fn cells_low_names(c: ColumnView) -> bool {
    forall|i: int| 0 <= i < c.len() ==> low_name_value(#[trigger] c.cell(i))
}

/// Every cell of `c` is a string of at most 20 ASCII letters.
pub open spec fn cells_letters(c: ColumnView) -> bool {
    forall|i: int| 0 <= i < c.len() ==> letters_value(#[trigger] c.cell(i))
}

proof fn lemma_fresh_low_names(v: Seq<Vec<u8>>)
    requires
        forall|j: int| 0 <= j < v.len() ==> is_low_name(#[trigger] v[j]@),
    ensures
        cells_low_names(ColumnView::Utf8(bytes_view(v))),
{
    assert forall|i: int| 0 <= i < v.len() implies low_name_value(#[trigger] ColumnView::Utf8(bytes_view(v)).cell(i)) by {
        assert(bytes_view(v)[i] == v[i]@);
    }
}

proof fn lemma_fresh_letters(v: Seq<Vec<u8>>)
    requires
        forall|j: int| 0 <= j < v.len() ==> all_letters(#[trigger] v[j]@) && v[j]@.len() <= HIGH_CARDINALITY_LEN,
    ensures
        cells_letters(ColumnView::Utf8(bytes_view(v))),
{
    assert forall|i: int| 0 <= i < v.len() implies letters_value(#[trigger] ColumnView::Utf8(bytes_view(v)).cell(i)) by {
        assert(bytes_view(v)[i] == v[i]@);
    }
}

proof fn lemma_fresh_below(v: Seq<i64>, n: nat)
    requires
        forall|j: int| 0 <= j < v.len() ==> 0 <= #[trigger] v[j] < n,
    ensures
        cells_below(ColumnView::Int64(v), n),
        cells_below(ColumnView::Float64(v), n),
{
    assert forall|i: int| 0 <= i < v.len() implies int_below(#[trigger] ColumnView::Int64(v).cell(i), n) by {
        assert(0 <= v[i] < n);
    }
    assert forall|i: int| 0 <= i < v.len() implies int_below(#[trigger] ColumnView::Float64(v).cell(i), n) by {
        assert(0 <= v[i] < n);
    }
}

/// Cells taken from other cells of a column keep the ranges those held.
proof fn lemma_cells_carried(from: ColumnView, to: ColumnView, q: Seq<usize>, n: nat)
    requires
        to.len() == q.len(),
        forall|k: int| 0 <= k < q.len() ==> #[trigger] q[k] < from.len(),
        forall|k: int| 0 <= k < q.len() ==> #[trigger] to.cell(k) == from.cell(q[k] as int),
    ensures
        cells_low_names(from) ==> cells_low_names(to),
        cells_letters(from) ==> cells_letters(to),
        cells_below(from, n) ==> cells_below(to, n),
{
    assert forall|k: int| 0 <= k < to.len() implies #[trigger] to.cell(k) == from.cell(q[k] as int) && 0 <= q[k] < from.len() by {}
}

proof fn lemma_same_cells(from: ColumnView, to: ColumnView, n: nat)
    requires
        to.len() == from.len(),
        forall|k: int| 0 <= k < to.len() ==> #[trigger] to.cell(k) == from.cell(k),
    ensures
        cells_low_names(from) ==> cells_low_names(to),
        cells_letters(from) ==> cells_letters(to),
        cells_below(from, n) ==> cells_below(to, n),
{
}

/// Sorting keeps every column's cells in the ranges they were drawn from.
proof fn lemma_sorted_ranges(b: BatchView, r: BatchView, n: nat)
    requires
        b.wf(),
        r.wf(),
        r.row_count == b.row_count,
        r.columns.len() == b.columns.len(),
        is_permutation(sorting_permutation(b), b.row_count),
        forall|c: int, k: int| 0 <= c < b.columns.len() && 0 <= k < b.row_count ==> #[trigger] r.columns[c].cell(k)
            == b.columns[c].cell(sorting_permutation(b)[k] as int),
    ensures
        forall|c: int| 0 <= c < b.columns.len() ==> {
            &&& cells_low_names(b.columns[c]) ==> cells_low_names(#[trigger] r.columns[c])
            &&& cells_letters(b.columns[c]) ==> cells_letters(r.columns[c])
            &&& cells_below(b.columns[c], n) ==> cells_below(r.columns[c], n)
        },
{
    let q = sorting_permutation(b);
    assert forall|c: int| 0 <= c < b.columns.len() implies {
        &&& cells_low_names(b.columns[c]) ==> cells_low_names(#[trigger] r.columns[c])
        &&& cells_letters(b.columns[c]) ==> cells_letters(r.columns[c])
        &&& cells_below(b.columns[c], n) ==> cells_below(r.columns[c], n)
    } by {
        assert forall|k: int| 0 <= k < q.len() implies #[trigger] r.columns[c].cell(k) == b.columns[c].cell(q[k] as int) by {}
        lemma_cells_carried(b.columns[c], r.columns[c], q, n);
    }
}

/// A dictionary column whose table holds distinct strings of the pool, at most 100.
pub open spec fn distinct_low_table(c: ColumnView) -> bool {
    match c {
        ColumnView::Dictionary { values, .. } => {
            &&& values.no_duplicates()
            &&& values.len() <= LOW_CARDINALITY
            &&& forall|j: int| 0 <= j < values.len() ==> is_low_name(#[trigger] values[j])
        },
        _ => false,
    }
}

/// A sorting permutation of `b` that keeps tied rows in input order (there is exactly one).
pub open spec fn sorting_permutation(b: BatchView) -> Seq<usize> {
    choose|p: Seq<usize>| is_permutation(p, b.row_count) && sorts(b, p) && stable(b, p)
}

/// `b` with its rows in ascending composite order.
pub open spec fn sorted_view(b: BatchView) -> BatchView {
    b.take(sorting_permutation(b))
}

/// Sorts the rows of a freshly drawn batch.
fn sort_rows(batch: Batch) -> (r: Batch)
    requires
        batch@.wf(),
    ensures
        r@ == sorted_view(batch@),
        r@.wf(),
        r@.is_sorted(),
        r.schema@ == batch.schema@,
        r.row_count == batch.row_count,
        is_permutation(sorting_permutation(batch@), batch.row_count as nat),
        forall|c: int, k: int| 0 <= c < batch@.columns.len() && 0 <= k < batch.row_count ==> #[trigger] r@.columns[c].cell(k)
            == batch@.columns[c].cell(sorting_permutation(batch@)[k] as int),
{
    let p = sort_to_indices(&batch, SortStrategy::Comparator);
    let r = apply_permutation(&batch, &p);
    proof {
        assert forall|x: int, y: int| 0 <= x < y < r@.row_count implies !crate::order::row_lt(
            #[trigger] r@.row(y),
            #[trigger] r@.row(x),
        ) by {
            assert(crate::sort::in_order(batch@, p@, x, y));
        }
        let q = sorting_permutation(batch@);
        assert(is_permutation(q, batch@.row_count) && sorts(batch@, q) && stable(batch@, q));
        lemma_strategies_agree(batch@, p@, q);
    }
    r
}

/// The low-cardinality strings drawn after `history` from the seeded generator.
pub open spec fn low_names(history: Seq<u64>, n: nat) -> Seq<Seq<u8>> {
    draws(SEED, history, LOW_CARDINALITY, n).map_values(|i: u64| value_name(i as nat))
}

/// The integers drawn below `n` after `history` from the seeded generator.
pub open spec fn int_draws(history: Seq<u64>, n: nat) -> Seq<i64> {
    draws(SEED, history, n as u64, n).map_values(|v: u64| v as i64)
}

/// The strings column replaced by its dictionary encoding.
pub open spec fn to_dictionary(c: ColumnView) -> ColumnView {
    match c {
        ColumnView::Utf8(v) => ColumnView::Dictionary { values: dict_encode(v).0, keys: dict_encode(v).1 },
        _ => c,
    }
}

/// `b` with its first `count` columns dictionary encoded.
pub open spec fn with_dictionaries(b: BatchView, count: nat) -> BatchView {
    BatchView {
        kinds: Seq::new(b.kinds.len(), |c: int| if c < count { DataKind::Dictionary } else { b.kinds[c] }),
        names: b.names,
        columns: Seq::new(b.columns.len(), |c: int| if c < count { to_dictionary(b.columns[c]) } else { b.columns[c] }),
        row_count: b.row_count,
    }
}

/// The rows of (low, low, high) strings as drawn, before sorting.
pub open spec fn utf8_tuple_drawn(n: nat) -> BatchView {
    let h1 = repeated(LOW_CARDINALITY, n);
    let h2 = h1 + repeated(LOW_CARDINALITY, n);
    BatchView {
        kinds: seq![DataKind::Utf8, DataKind::Utf8, DataKind::Utf8],
        names: seq!["utf_low1", "utf_low2", "utf_high"],
        columns: seq![
            ColumnView::Utf8(low_names(seq![], n)),
            ColumnView::Utf8(low_names(h1, n)),
            ColumnView::Utf8(random_strings(SEED, h2, n).0),
        ],
        row_count: n,
    }
}

/// The rows of (float, low, low, integer) as drawn, before sorting.
pub open spec fn mixed_tuple_drawn(n: nat) -> BatchView {
    let h1 = repeated(n as u64, n);
    let h2 = h1 + repeated(LOW_CARDINALITY, n);
    let h3 = h2 + repeated(LOW_CARDINALITY, n);
    BatchView {
        kinds: seq![DataKind::Float64, DataKind::Utf8, DataKind::Utf8, DataKind::Int64],
        names: seq!["f64", "utf_low1", "utf_low2", "i64"],
        columns: seq![
            ColumnView::Float64(int_draws(seq![], n)),
            ColumnView::Utf8(low_names(h1, n)),
            ColumnView::Utf8(low_names(h2, n)),
            ColumnView::Int64(int_draws(h3, n)),
        ],
        row_count: n,
    }
}

/// The rows of three low-cardinality strings as drawn, before sorting and encoding.
pub open spec fn dictionary_tuple_drawn(n: nat) -> BatchView {
    let h1 = repeated(LOW_CARDINALITY, n);
    let h2 = h1 + repeated(LOW_CARDINALITY, n);
    BatchView {
        kinds: seq![DataKind::Utf8, DataKind::Utf8, DataKind::Utf8],
        names: seq!["a", "b", "c"],
        columns: seq![
            ColumnView::Utf8(low_names(seq![], n)),
            ColumnView::Utf8(low_names(h1, n)),
            ColumnView::Utf8(low_names(h2, n)),
        ],
        row_count: n,
    }
}

/// The rows of three low-cardinality strings and an integer as drawn, before sorting
/// and encoding.
pub open spec fn mixed_dictionary_tuple_drawn(n: nat) -> BatchView {
    let h1 = repeated(LOW_CARDINALITY, n);
    let h2 = h1 + repeated(LOW_CARDINALITY, n);
    let h3 = h2 + repeated(LOW_CARDINALITY, n);
    BatchView {
        kinds: seq![DataKind::Utf8, DataKind::Utf8, DataKind::Utf8, DataKind::Int64],
        names: seq!["a", "b", "c", "d"],
        columns: seq![
            ColumnView::Utf8(low_names(seq![], n)),
            ColumnView::Utf8(low_names(h1, n)),
            ColumnView::Utf8(low_names(h2, n)),
            ColumnView::Int64(int_draws(h3, n)),
        ],
        row_count: n,
    }
}

fn field(name: &'static str, kind: DataKind) -> (r: Field)
    ensures
        r.name == name,
        r.kind == kind,
{
    Field { name, kind }
}

/// Create a batch of (utf8_low, utf8_low, utf8_high), sorted by all three columns.
pub fn utf8_tuple_streams(size: usize) -> (r: Batch)
    ensures
        r@ == sorted_view(utf8_tuple_drawn(size as nat)),
        r@.wf(),
        r@.is_sorted(),
        r.row_count == size,
        Case::Utf8Tuple.values_in_range(r@, size as nat),
{
    let mut gen = DataGenerator::new(size);
    let a = gen.utf8_low_cardinality_values();
    let b = gen.utf8_low_cardinality_values();
    let c = gen.utf8_high_cardinality_values();
    let batch = Batch {
        schema: vec![field("utf_low1", DataKind::Utf8), field("utf_low2", DataKind::Utf8), field("utf_high", DataKind::Utf8)],
        columns: vec![Column::Utf8(a), Column::Utf8(b), Column::Utf8(c)],
        row_count: size,
    };
    assert(Seq::<u64>::empty() + repeated(LOW_CARDINALITY, size as nat) =~= repeated(LOW_CARDINALITY, size as nat));
    assert(batch@.kinds =~= utf8_tuple_drawn(size as nat).kinds);
    assert(batch@.names =~= utf8_tuple_drawn(size as nat).names);
    assert(batch@.columns =~= utf8_tuple_drawn(size as nat).columns);
    let ghost drawn = batch@;
    proof {
        lemma_fresh_low_names(a@);
        lemma_fresh_low_names(b@);
        lemma_fresh_letters(c@);
    }
    let r = sort_rows(batch);
    proof {
        lemma_sorted_ranges(drawn, r@, size as nat);
        assert(drawn.columns[0] == ColumnView::Utf8(bytes_view(a@)));
        assert(drawn.columns[1] == ColumnView::Utf8(bytes_view(b@)));
        assert(drawn.columns[2] == ColumnView::Utf8(bytes_view(c@)));
    }
    r
}

fn dictionary_of(col: &Column) -> (r: Column)
    requires
        col@ is Utf8,
    ensures
        r@ == to_dictionary(col@),
        r@.wf(),
        r@.len() == col@.len(),
        forall|i: int| 0 <= i < col@.len() ==> #[trigger] r@.cell(i) == col@.cell(i),
        cells_low_names(col@) ==> distinct_low_table(r@),
{
    match col {
        Column::Utf8(v) => {
            assert(cells_low_names(col@) ==> forall|i: int| 0 <= i < v.len() ==> is_low_name(#[trigger] v@[i]@)) by {
                if cells_low_names(col@) {
                    assert forall|i: int| 0 <= i < v.len() implies is_low_name(#[trigger] v@[i]@) by {
                        assert(low_name_value(col@.cell(i)));
                    }
                }
            }
            dictionary_encode(v)
        },
        _ => Column::Int64(Vec::new()),
    }
}

/// Dictionary-encodes the first `count` columns, which hold strings.
fn encode_leading_dictionaries(batch: Batch, count: usize) -> (r: Batch)
    requires
        batch@.wf(),
        count <= batch.columns.len(),
        forall|c: int| 0 <= c < count ==> #[trigger] batch@.kinds[c] == DataKind::Utf8,
    ensures
        r@ == with_dictionaries(batch@, count as nat),
        r@.wf(),
        r.row_count == batch.row_count,
        forall|d: int, i: int| 0 <= d < batch@.columns.len() && 0 <= i < batch.row_count ==> #[trigger] r@.columns[d].cell(i)
            == batch@.columns[d].cell(i),
        forall|d: int| 0 <= d < count && cells_low_names(batch@.columns[d]) ==> distinct_low_table(#[trigger] r@.columns[d]),
        batch@.is_sorted() ==> r@.is_sorted(),
{
    let mut schema: Vec<Field> = Vec::with_capacity(batch.schema.len());
    let mut columns: Vec<Column> = Vec::with_capacity(batch.columns.len());
    let ghost target = with_dictionaries(batch@, count as nat);
    let mut c: usize = 0;
    while c < batch.columns.len()
        invariant
            batch@.wf(),
            target == with_dictionaries(batch@, count as nat),
            count <= batch.columns.len(),
            forall|d: int| 0 <= d < count ==> #[trigger] batch@.kinds[d] == DataKind::Utf8,
            c <= batch.columns.len(),
            schema.len() == c,
            columns.len() == c,
            forall|d: int| 0 <= d < c ==> (#[trigger] schema@[d]).kind == target.kinds[d] && schema@[d].name == target.names[d],
            forall|d: int| 0 <= d < c ==> (#[trigger] columns@[d])@ == target.columns[d],
            forall|d: int| 0 <= d < c ==> (#[trigger] columns@[d])@.wf() && columns@[d]@.len() == batch.row_count,
            forall|d: int, i: int| 0 <= d < c && 0 <= i < batch.row_count ==> #[trigger] columns@[d]@.cell(i) == batch@.columns[d].cell(i),
            forall|d: int| 0 <= d < c && d < count && cells_low_names(batch@.columns[d]) ==> distinct_low_table(#[trigger] columns@[d]@),
        decreases batch.columns.len() - c,
    {
        assert(batch@.columns[c as int] == batch.columns@[c as int]@);
        assert(batch@.kinds[c as int] == batch.schema@[c as int].kind);
        if c < count {
            schema.push(field(batch.schema[c].name, DataKind::Dictionary));
            columns.push(dictionary_of(&batch.columns[c]));
        } else {
            schema.push(batch.schema[c]);
            columns.push(batch.columns[c].take(&crate::batch::identity_permutation(batch.row_count)));
            proof {
                crate::batch::lemma_take_identity(batch@);
                assert(batch@.take(crate::batch::identity(batch@.row_count)).columns[c as int] == batch@.columns[c as int]);
            }
        }
        c += 1;
    }
    let r = Batch { schema, columns, row_count: batch.row_count };
    assert(r@.kinds =~= target.kinds);
    assert(r@.names =~= target.names);
    assert(r@.columns =~= target.columns);
    assert forall|i: int| 0 <= i < r@.row_count implies #[trigger] r@.row(i) == batch@.row(i) by {
        assert(r@.row(i) =~= batch@.row(i));
    }
    assert forall|d: int, i: int| 0 <= d < batch@.columns.len() && 0 <= i < batch.row_count implies #[trigger] r@.columns[d].cell(i)
        == batch@.columns[d].cell(i) by {
        assert(r@.columns[d] == columns@[d]@);
    }
    assert forall|d: int| 0 <= d < count && cells_low_names(batch@.columns[d]) implies distinct_low_table(#[trigger] r@.columns[d]) by {
        assert(r@.columns[d] == columns@[d]@);
    }
    r
}

/// Create a batch of (f64, utf8_low, utf8_low, i64), sorted by all four columns.
pub fn mixed_tuple_streams(size: usize) -> (r: Batch)
    requires
        size <= i64::MAX,
    ensures
        r@ == sorted_view(mixed_tuple_drawn(size as nat)),
        r@.wf(),
        r@.is_sorted(),
        r.row_count == size,
        Case::MixedTuple.values_in_range(r@, size as nat),
{
    let mut gen = DataGenerator::new(size);
    let f = gen.i64_values();
    let a = gen.utf8_low_cardinality_values();
    let b = gen.utf8_low_cardinality_values();
    let d = gen.i64_values();
    let batch = Batch {
        schema: vec![
            field("f64", DataKind::Float64),
            field("utf_low1", DataKind::Utf8),
            field("utf_low2", DataKind::Utf8),
            field("i64", DataKind::Int64),
        ],
        columns: vec![Column::Float64(f), Column::Utf8(a), Column::Utf8(b), Column::Int64(d)],
        row_count: size,
    };
    assert(Seq::<u64>::empty() + repeated(size as u64, size as nat) =~= repeated(size as u64, size as nat));
    assert(batch@.kinds =~= mixed_tuple_drawn(size as nat).kinds);
    assert(batch@.names =~= mixed_tuple_drawn(size as nat).names);
    assert(batch@.columns =~= mixed_tuple_drawn(size as nat).columns);
    let ghost drawn = batch@;
    proof {
        lemma_fresh_below(f@, size as nat);
        lemma_fresh_low_names(a@);
        lemma_fresh_low_names(b@);
        lemma_fresh_below(d@, size as nat);
    }
    let r = sort_rows(batch);
    proof {
        lemma_sorted_ranges(drawn, r@, size as nat);
        assert(drawn.columns[0] == ColumnView::Float64(f@));
        assert(drawn.columns[1] == ColumnView::Utf8(bytes_view(a@)));
        assert(drawn.columns[2] == ColumnView::Utf8(bytes_view(b@)));
        assert(drawn.columns[3] == ColumnView::Int64(d@));
    }
    r
}

/// Create a batch of (utf8_dict, utf8_dict, utf8_dict), sorted by all three columns.
pub fn dictionary_tuple_streams(size: usize) -> (r: Batch)
    ensures
        r@ == with_dictionaries(sorted_view(dictionary_tuple_drawn(size as nat)), 3),
        r@.wf(),
        r@.is_sorted(),
        r.row_count == size,
        Case::DictionaryTuple.values_in_range(r@, size as nat),
{
    let mut gen = DataGenerator::new(size);
    let a = gen.utf8_low_cardinality_values();
    let b = gen.utf8_low_cardinality_values();
    let c = gen.utf8_low_cardinality_values();
    let batch = Batch {
        schema: vec![field("a", DataKind::Utf8), field("b", DataKind::Utf8), field("c", DataKind::Utf8)],
        columns: vec![Column::Utf8(a), Column::Utf8(b), Column::Utf8(c)],
        row_count: size,
    };
    assert(Seq::<u64>::empty() + repeated(LOW_CARDINALITY, size as nat) =~= repeated(LOW_CARDINALITY, size as nat));
    assert(batch@.kinds =~= dictionary_tuple_drawn(size as nat).kinds);
    assert(batch@.names =~= dictionary_tuple_drawn(size as nat).names);
    assert(batch@.columns =~= dictionary_tuple_drawn(size as nat).columns);
    let ghost drawn = batch@;
    proof {
        lemma_fresh_low_names(a@);
        lemma_fresh_low_names(b@);
        lemma_fresh_low_names(c@);
    }
    let sorted = sort_rows(batch);
    let ghost sv = sorted@;
    proof {
        lemma_sorted_ranges(drawn, sv, size as nat);
        assert(drawn.columns[0] == ColumnView::Utf8(bytes_view(a@)));
        assert(drawn.columns[1] == ColumnView::Utf8(bytes_view(b@)));
        assert(drawn.columns[2] == ColumnView::Utf8(bytes_view(c@)));
    }
    let r = encode_leading_dictionaries(sorted, 3);
    proof {
        assert forall|c: int| 0 <= c < sv.columns.len() implies (cells_below(sv.columns[c], size as nat) ==> cells_below(
            #[trigger] r@.columns[c],
            size as nat,
        )) && (cells_low_names(sv.columns[c]) ==> cells_low_names(r@.columns[c])) by {
            assert forall|k: int| 0 <= k < r@.columns[c].len() implies #[trigger] r@.columns[c].cell(k) == sv.columns[c].cell(k) by {}
            lemma_same_cells(sv.columns[c], r@.columns[c], size as nat);
        }
    }
    r
}

/// Create a batch of (utf8_dict, utf8_dict, utf8_dict, i64), sorted by all four columns.
pub fn mixed_dictionary_tuple_streams(size: usize) -> (r: Batch)
    requires
        size <= i64::MAX,
    ensures
        r@ == with_dictionaries(sorted_view(mixed_dictionary_tuple_drawn(size as nat)), 3),
        r@.wf(),
        r@.is_sorted(),
        r.row_count == size,
        Case::MixedDictionaryTuple.values_in_range(r@, size as nat),
{
    let mut gen = DataGenerator::new(size);
    let a = gen.utf8_low_cardinality_values();
    let b = gen.utf8_low_cardinality_values();
    let c = gen.utf8_low_cardinality_values();
    let d = gen.i64_values();
    let batch = Batch {
        schema: vec![
            field("a", DataKind::Utf8),
            field("b", DataKind::Utf8),
            field("c", DataKind::Utf8),
            field("d", DataKind::Int64),
        ],
        columns: vec![Column::Utf8(a), Column::Utf8(b), Column::Utf8(c), Column::Int64(d)],
        row_count: size,
    };
    assert(Seq::<u64>::empty() + repeated(LOW_CARDINALITY, size as nat) =~= repeated(LOW_CARDINALITY, size as nat));
    assert(batch@.kinds =~= mixed_dictionary_tuple_drawn(size as nat).kinds);
    assert(batch@.names =~= mixed_dictionary_tuple_drawn(size as nat).names);
    assert(batch@.columns =~= mixed_dictionary_tuple_drawn(size as nat).columns);
    let ghost drawn = batch@;
    proof {
        lemma_fresh_low_names(a@);
        lemma_fresh_low_names(b@);
        lemma_fresh_low_names(c@);
        lemma_fresh_below(d@, size as nat);
    }
    let sorted = sort_rows(batch);
    let ghost sv = sorted@;
    proof {
        lemma_sorted_ranges(drawn, sv, size as nat);
        assert(drawn.columns[0] == ColumnView::Utf8(bytes_view(a@)));
        assert(drawn.columns[1] == ColumnView::Utf8(bytes_view(b@)));
        assert(drawn.columns[2] == ColumnView::Utf8(bytes_view(c@)));
    }
    let r = encode_leading_dictionaries(sorted, 3);
    proof {
        assert forall|c: int| 0 <= c < sv.columns.len() implies (cells_below(sv.columns[c], size as nat) ==> cells_below(
            #[trigger] r@.columns[c],
            size as nat,
        )) && (cells_low_names(sv.columns[c]) ==> cells_low_names(r@.columns[c])) by {
            assert forall|k: int| 0 <= k < r@.columns[c].len() implies #[trigger] r@.columns[c].cell(k) == sv.columns[c].cell(k) by {}
            lemma_same_cells(sv.columns[c], r@.columns[c], size as nat);
        }
    }
    r
}

/// Create a one-column batch of random low-cardinality strings, unsorted.
pub fn utf8_low_cardinality_streams(size: usize) -> (r: Batch)
    ensures
        r@ == (BatchView {
            kinds: seq![DataKind::Utf8],
            names: seq!["utf_low"],
            columns: seq![ColumnView::Utf8(low_names(seq![], size as nat))],
            row_count: size as nat,
        }),
        r@.wf(),
        cells_low_names(r@.columns[0]),
{
    let mut gen = DataGenerator::new(size);
    let a = gen.utf8_low_cardinality_values();
    let r = Batch { schema: vec![field("utf_low", DataKind::Utf8)], columns: vec![Column::Utf8(a)], row_count: size };
    assert(r@.kinds =~= seq![DataKind::Utf8]);
    assert(r@.names =~= seq!["utf_low"]);
    assert(r@.columns =~= seq![ColumnView::Utf8(low_names(seq![], size as nat))]);
    proof {
        lemma_fresh_low_names(a@);
    }
    r
}

/// Create a one-column batch of random high-cardinality (almost surely distinct)
/// strings, unsorted.
pub fn utf8_high_cardinality_streams(size: usize) -> (r: Batch)
    ensures
        r@ == (BatchView {
            kinds: seq![DataKind::Utf8],
            names: seq!["utf_high"],
            columns: seq![ColumnView::Utf8(random_strings(SEED, seq![], size as nat).0)],
            row_count: size as nat,
        }),
        r@.wf(),
        cells_letters(r@.columns[0]),
{
    let mut gen = DataGenerator::new(size);
    let a = gen.utf8_high_cardinality_values();
    let r = Batch { schema: vec![field("utf_high", DataKind::Utf8)], columns: vec![Column::Utf8(a)], row_count: size };
    assert(r@.kinds =~= seq![DataKind::Utf8]);
    assert(r@.names =~= seq!["utf_high"]);
    assert(r@.columns =~= seq![ColumnView::Utf8(random_strings(SEED, seq![], size as nat).0)]);
    proof {
        lemma_fresh_letters(a@);
    }
    r
}

/// Create a one-column batch of dictionary-encoded low-cardinality strings, unsorted.
pub fn dictionary_streams(size: usize) -> (r: Batch)
    ensures
        r@ == (BatchView {
            kinds: seq![DataKind::Dictionary],
            names: seq!["dict"],
            columns: seq![to_dictionary(ColumnView::Utf8(low_names(seq![], size as nat)))],
            row_count: size as nat,
        }),
        r@.wf(),
        cells_low_names(r@.columns[0]),
        distinct_low_table(r@.columns[0]),
{
    let mut gen = DataGenerator::new(size);
    let a = gen.utf8_low_cardinality_values();
    let d = dictionary_encode(&a);
    let r = Batch { schema: vec![field("dict", DataKind::Dictionary)], columns: vec![d], row_count: size };
    assert(r@.kinds =~= seq![DataKind::Dictionary]);
    assert(r@.names =~= seq!["dict"]);
    assert(r@.columns =~= seq![to_dictionary(ColumnView::Utf8(low_names(seq![], size as nat)))]);
    proof {
        assert forall|k: int| 0 <= k < r@.columns[0].len() implies low_name_value(#[trigger] r@.columns[0].cell(k)) by {
            assert(r@.columns[0] == d@);
            assert(d@.cell(k) == Value::Bytes(a@[k]@));
        }
    }
    r
}

/// A benchmark case: a fixed combination of column types.
#[derive(Clone, Copy, Debug, PartialEq, Eq, Structural)]
pub enum Case {
    /// low-cardinality string, low-cardinality string, high-cardinality string
    Utf8Tuple,
    /// float, low-cardinality string, low-cardinality string, integer
    MixedTuple,
    /// three dictionary strings
    DictionaryTuple,
    /// three dictionary strings and an integer
    MixedDictionaryTuple,
}

impl Case {
    /// The batch that generation gives for this case and `n` rows: the drawn rows,
    /// sorted by every column, with the string columns of the dictionary cases encoded.
    pub open spec fn generated(self, n: nat) -> BatchView {
        match self {
            Case::Utf8Tuple => sorted_view(utf8_tuple_drawn(n)),
            Case::MixedTuple => sorted_view(mixed_tuple_drawn(n)),
            Case::DictionaryTuple => with_dictionaries(sorted_view(dictionary_tuple_drawn(n)), 3),
            Case::MixedDictionaryTuple => with_dictionaries(sorted_view(mixed_dictionary_tuple_drawn(n)), 3),
        }
    }

    /// The column types of this case, in schema order.
    pub open spec fn kinds(self) -> Seq<DataKind> {
        match self {
            Case::Utf8Tuple => seq![DataKind::Utf8, DataKind::Utf8, DataKind::Utf8],
            Case::MixedTuple => seq![DataKind::Float64, DataKind::Utf8, DataKind::Utf8, DataKind::Int64],
            Case::DictionaryTuple => seq![DataKind::Dictionary, DataKind::Dictionary, DataKind::Dictionary],
            Case::MixedDictionaryTuple => seq![
                DataKind::Dictionary,
                DataKind::Dictionary,
                DataKind::Dictionary,
                DataKind::Int64,
            ],
        }
    }

    /// A fresh batch of `size` rows for this case; the same case and size always give
    /// the same batch.
    pub fn generate_batch(&self, size: usize) -> (r: Batch)
        requires
            size <= i64::MAX,
        ensures
            r@ == self.generated(size as nat),
            r@.wf(),
            r@.is_sorted(),
            r@.row_count == size,
            r@.kinds == self.kinds(),
            r@.names == self.names(),
            self.values_in_range(r@, size as nat),
    {
        let r = match self {
            Case::Utf8Tuple => utf8_tuple_streams(size),
            Case::MixedTuple => mixed_tuple_streams(size),
            Case::DictionaryTuple => dictionary_tuple_streams(size),
            Case::MixedDictionaryTuple => mixed_dictionary_tuple_streams(size),
        };
        assert(r@.kinds =~= self.kinds());
        assert(r@.names =~= self.names());
        r
    }

    /// The column names of this case, in schema order.
    pub open spec fn names(self) -> Seq<&'static str> {
        match self {
            Case::Utf8Tuple => seq!["utf_low1", "utf_low2", "utf_high"],
            Case::MixedTuple => seq!["f64", "utf_low1", "utf_low2", "i64"],
            Case::DictionaryTuple => seq!["a", "b", "c"],
            Case::MixedDictionaryTuple => seq!["a", "b", "c", "d"],
        }
    }

    /// The schema of this case's batches, without generating one.
    pub fn schema(&self) -> (r: Vec<Field>)
        ensures
            r@.map_values(|f: Field| f.kind) == self.kinds(),
            r@.map_values(|f: Field| f.name) == self.names(),
    {
        let r = match self {
            Case::Utf8Tuple => vec![field("utf_low1", DataKind::Utf8), field("utf_low2", DataKind::Utf8), field("utf_high", DataKind::Utf8)],
            Case::MixedTuple => vec![
                field("f64", DataKind::Float64),
                field("utf_low1", DataKind::Utf8),
                field("utf_low2", DataKind::Utf8),
                field("i64", DataKind::Int64),
            ],
            Case::DictionaryTuple => vec![field("a", DataKind::Dictionary), field("b", DataKind::Dictionary), field("c", DataKind::Dictionary)],
            Case::MixedDictionaryTuple => vec![
                field("a", DataKind::Dictionary),
                field("b", DataKind::Dictionary),
                field("c", DataKind::Dictionary),
                field("d", DataKind::Int64),
            ],
        };
        assert(r@.map_values(|f: Field| f.kind) =~= self.kinds());
        assert(r@.map_values(|f: Field| f.name) =~= self.names());
        r
    }

    /// The case's name, as a report labels it.
    pub open spec fn label(self) -> &'static str {
        match self {
            Case::Utf8Tuple => "utf8_tuple",
            Case::MixedTuple => "mixed_tuple",
            Case::DictionaryTuple => "dictionary_tuple",
            Case::MixedDictionaryTuple => "mixed_dictionary_tuple",
        }
    }

    /// The values of a batch of `n` rows of this case stay in the ranges they are drawn
    /// from: numbers in `0..n`; low-cardinality strings (decoded, for a dictionary) among
    /// `value0` ... `value99`, with each dictionary table holding distinct strings, at most
    /// 100; high-cardinality strings of at most 20 ASCII letters.
    pub open spec fn values_in_range(self, b: BatchView, n: nat) -> bool {
        match self {
            Case::Utf8Tuple => {
                &&& cells_low_names(b.columns[0])
                &&& cells_low_names(b.columns[1])
                &&& cells_letters(b.columns[2])
            },
            Case::MixedTuple => {
                &&& cells_below(b.columns[0], n)
                &&& cells_low_names(b.columns[1])
                &&& cells_low_names(b.columns[2])
                &&& cells_below(b.columns[3], n)
            },
            Case::DictionaryTuple => {
                &&& cells_low_names(b.columns[0]) && distinct_low_table(b.columns[0])
                &&& cells_low_names(b.columns[1]) && distinct_low_table(b.columns[1])
                &&& cells_low_names(b.columns[2]) && distinct_low_table(b.columns[2])
            },
            Case::MixedDictionaryTuple => {
                &&& cells_low_names(b.columns[0]) && distinct_low_table(b.columns[0])
                &&& cells_low_names(b.columns[1]) && distinct_low_table(b.columns[1])
                &&& cells_low_names(b.columns[2]) && distinct_low_table(b.columns[2])
                &&& cells_below(b.columns[3], n)
            },
        }
    }

    /// The case's name, as a report labels it.
    pub fn name(&self) -> (r: &'static str)
        ensures
            r == self.label(),
    {
        match self {
            Case::Utf8Tuple => "utf8_tuple",
            Case::MixedTuple => "mixed_tuple",
            Case::DictionaryTuple => "dictionary_tuple",
            Case::MixedDictionaryTuple => "mixed_dictionary_tuple",
        }
    }
}

/// The seed that assigns rows to streams.
pub const SPLIT_SEED: u64 = 1337;

/// The positions `i` with `assignments[i] == stream`, in increasing order.
pub open spec fn selected(assignments: Seq<u64>, stream: u64) -> Seq<usize>
    decreases assignments.len(),
{
    if assignments.len() == 0 {
        seq![]
    } else {
        let prev = selected(assignments.drop_last(), stream);
        if assignments.last() == stream {
            prev.push((assignments.len() - 1) as usize)
        } else {
            prev
        }
    }
}

proof fn lemma_selected_bounds(assignments: Seq<u64>, stream: u64)
    requires
        assignments.len() <= usize::MAX,
    ensures
        forall|k: int| 0 <= k < selected(assignments, stream).len() ==> #[trigger] selected(assignments, stream)[k] < assignments.len(),
    decreases assignments.len(),
{
    if assignments.len() > 0 {
        let prev = selected(assignments.drop_last(), stream);
        lemma_selected_bounds(assignments.drop_last(), stream);
        assert forall|k: int| 0 <= k < selected(assignments, stream).len() implies #[trigger] selected(assignments, stream)[k]
            < assignments.len() by {
            if k < prev.len() {
                assert(selected(assignments, stream)[k] == prev[k]);
            }
        }
    }
}

/// Returns a batch that holds the rows `i` of `input_batch` with
/// `stream_assignments[i] == stream`, in their order.
pub fn take_columns(input_batch: &Batch, stream_assignments: &Vec<u64>, stream: u64) -> (r: Batch)
    requires
        input_batch@.wf(),
        stream_assignments.len() == input_batch.row_count,
    ensures
        r@ == input_batch@.take(selected(stream_assignments@, stream)),
        r@.wf(),
{
    let mut indices: Vec<usize> = Vec::new();
    let mut i: usize = 0;
    while i < stream_assignments.len()
        invariant
            i <= stream_assignments.len(),
            indices@ == selected(stream_assignments@.take(i as int), stream),
        decreases stream_assignments.len() - i,
    {
        assert(stream_assignments@.take(i + 1).drop_last() =~= stream_assignments@.take(i as int));
        if stream_assignments[i] == stream {
            indices.push(i);
        }
        i += 1;
    }
    assert(stream_assignments@.take(i as int) =~= stream_assignments@);
    proof {
        lemma_selected_bounds(stream_assignments@, stream);
    }
    apply_permutation(input_batch, &indices)
}

/// Splits `input_batch` randomly into `num_streams` streams of one batch each: every
/// row goes to the stream drawn for it from a generator seeded with `SPLIT_SEED`.
/// An empty batch may be split into no streams.
pub fn split_batch(input_batch: Batch, num_streams: u64) -> (r: Vec<Vec<Batch>>)
    requires
        input_batch@.wf(),
        num_streams > 0 || input_batch.row_count == 0,
    ensures
        r.len() == num_streams,
        forall|i: int| 0 <= i < input_batch.row_count ==> #[trigger] draws(SPLIT_SEED, seq![], num_streams, input_batch.row_count as nat)[i]
            < num_streams,
        forall|s: int| 0 <= s < r.len() ==> (#[trigger] r@[s]).len() == 1 && r@[s][0]@ == input_batch@.take(
            selected(draws(SPLIT_SEED, seq![], num_streams, input_batch.row_count as nat), s as u64),
        ),
{
    let stream_assignments = if num_streams == 0 {
        let none: Vec<u64> = Vec::new();
        assert(none@ =~= draws(SPLIT_SEED, seq![], num_streams, 0));
        none
    } else {
        let mut gen = DataGenerator { src: Source::new(SPLIT_SEED), row_count: input_batch.row_count };
        gen.draw_values(num_streams)
    };
    let mut r: Vec<Vec<Batch>> = Vec::new();
    let mut stream: u64 = 0;
    while stream < num_streams
        invariant
            input_batch@.wf(),
            stream <= num_streams,
            stream_assignments.len() == input_batch.row_count,
            stream_assignments@ == draws(SPLIT_SEED, seq![], num_streams, input_batch.row_count as nat),
            r.len() == stream,
            forall|s: int| 0 <= s < r.len() ==> (#[trigger] r@[s]).len() == 1 && r@[s][0]@ == input_batch@.take(
                selected(stream_assignments@, s as u64),
            ),
        decreases num_streams - stream,
    {
        let b = take_columns(&input_batch, &stream_assignments, stream);
        r.push(vec![b]);
        stream += 1;
    }
    r
}

} // verus!
