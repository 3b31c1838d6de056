use bench_arrow_sort::rng::Source;
use bench_arrow_sort::{
    apply_permutation, check_config, split_batch, take_columns, data_points, dictionary_streams, dictionary_tuple_streams, encode_row,
    identity_permutation, make_sort_exprs, mixed_dictionary_tuple_streams, mixed_tuple_streams, sort_batch,
    sort_to_indices, sweep_sizes, utf8_high_cardinality_streams, utf8_low_cardinality_streams, utf8_tuple_streams,
    Batch, Benchmark, Case, Column, ConfigError, DataKind, DataPoint, Field, SortError, SortKey, SortStrategy,
};

const CASES: [Case; 4] = [Case::Utf8Tuple, Case::MixedTuple, Case::DictionaryTuple, Case::MixedDictionaryTuple];

fn cell(col: &Column, i: usize) -> Result<i64, Vec<u8>> {
    match col {
        Column::Int64(v) | Column::Float64(v) => Ok(v[i]),
        Column::Utf8(v) => Err(v[i].clone()),
        Column::Dictionary { values, keys } => Err(values[keys[i]].clone()),
    }
}

fn row(b: &Batch, i: usize) -> Vec<Result<i64, Vec<u8>>> {
    b.columns.iter().map(|c| cell(c, i)).collect()
}

fn assert_rows_sorted(b: &Batch) {
    for i in 1..b.row_count {
        assert!(row(b, i - 1) <= row(b, i), "rows {} and {} out of order", i - 1, i);
    }
}

fn is_bijection(p: &[usize], n: usize) -> bool {
    let mut seen = vec![false; n];
    if p.len() != n {
        return false;
    }
    for &i in p {
        if i >= n || seen[i] {
            return false;
        }
        seen[i] = true;
    }
    true
}

fn reversed(b: &Batch) -> Batch {
    let p: Vec<usize> = (0..b.row_count).rev().collect();
    apply_permutation(b, &p)
}

#[test]
fn generation_is_deterministic() {
    for case in CASES {
        for n in [0usize, 1, 7, 150] {
            assert_eq!(case.generate_batch(n), case.generate_batch(n));
        }
    }
}

#[test]
fn generated_batches_are_presorted_and_well_formed() {
    for case in CASES {
        let b = case.generate_batch(300);
        assert!(b.is_valid());
        assert_eq!(b.row_count, 300);
        assert_rows_sorted(&b);
        let kinds: Vec<DataKind> = b.schema.iter().map(|f| f.kind).collect();
        let expected: Vec<DataKind> = case.schema().iter().map(|f| f.kind).collect();
        assert_eq!(kinds, expected);
        assert_eq!(b.schema, case.schema());
    }
}

#[test]
fn permutations_are_bijections() {
    for case in CASES {
        let b = reversed(&case.generate_batch(120));
        for strategy in [SortStrategy::Comparator, SortStrategy::RowEncoding] {
            let p = sort_to_indices(&b, strategy);
            assert!(is_bijection(&p, b.row_count));
        }
    }
}

#[test]
fn strategies_agree_on_distinct_rows() {
    let b = reversed(&utf8_tuple_streams(250));
    let keys = make_sort_exprs(&b.schema);
    let by_cmp = sort_batch(b.clone(), &keys, false).unwrap();
    let by_rows = sort_batch(b.clone(), &keys, true).unwrap();
    assert_eq!(by_cmp, by_rows);
    assert_rows_sorted(&by_cmp);
    assert_eq!(by_cmp, utf8_tuple_streams(250));
}

#[test]
fn strategies_agree_on_every_case() {
    for case in CASES {
        let b = reversed(&case.generate_batch(200));
        assert_eq!(sort_to_indices(&b, SortStrategy::Comparator), sort_to_indices(&b, SortStrategy::RowEncoding));
    }
}

#[test]
fn resorting_a_sorted_batch_gives_it_back() {
    for case in CASES {
        let b = case.generate_batch(180);
        let keys = make_sort_exprs(&b.schema);
        assert_eq!(sort_batch(b.clone(), &keys, false).unwrap(), b);
        assert_eq!(sort_batch(b.clone(), &keys, true).unwrap(), b);
    }
}

#[test]
fn identity_permutation_round_trip() {
    for case in CASES {
        let b = reversed(&case.generate_batch(64));
        let id = identity_permutation(b.row_count);
        assert_eq!(id, (0..64).collect::<Vec<usize>>());
        assert_eq!(apply_permutation(&b, &id), b);
    }
}

#[test]
fn utf8_tuple_five_rows_scenario() {
    let b = Case::Utf8Tuple.generate_batch(5);
    assert_eq!(b.row_count, 5);
    assert_rows_sorted(&b);
    let identity: Vec<usize> = (0..5).collect();
    assert_eq!(sort_to_indices(&b, SortStrategy::Comparator), identity);
    assert_eq!(sort_to_indices(&b, SortStrategy::RowEncoding), identity);
    let keys = make_sort_exprs(&b.schema);
    let by_cmp = sort_batch(b.clone(), &keys, false).unwrap();
    let by_rows = sort_batch(b.clone(), &keys, true).unwrap();
    assert_eq!(by_cmp, by_rows);
    assert_eq!(by_cmp, b);
}

#[test]
fn empty_batch_scenario() {
    for case in CASES {
        let b = case.generate_batch(0);
        assert_eq!(b.row_count, 0);
        assert_eq!(b.schema, case.schema());
        assert_eq!(b.columns.len(), case.schema().len());
        assert!(b.columns.iter().all(|c| c.len() == 0));
        assert!(sort_to_indices(&b, SortStrategy::Comparator).is_empty());
        assert!(sort_to_indices(&b, SortStrategy::RowEncoding).is_empty());
        let keys = make_sort_exprs(&b.schema);
        assert_eq!(sort_batch(b.clone(), &keys, true).unwrap(), b);
    }
}

#[test]
fn single_size_sweep_scenario() {
    assert_eq!(sweep_sizes(100, 100, 50).unwrap(), vec![100]);
    assert_eq!(check_config(100, 100, 50, 3), Ok(()));
    let mut bench = Benchmark::new(3);
    bench.record(100, 3001, 299);
    assert_eq!(
        bench.points,
        vec![
            DataPoint { batch_size: 100, runtime_micros: 1000, used_row_encoding: false },
            DataPoint { batch_size: 100, runtime_micros: 99, used_row_encoding: true },
        ]
    );
}

#[test]
fn sweep_sizes_step_through_the_range() {
    assert_eq!(sweep_sizes(10, 50, 20).unwrap(), vec![10, 30, 50]);
    assert_eq!(sweep_sizes(10, 55, 20).unwrap(), vec![10, 30, 50]);
    assert_eq!(sweep_sizes(0, 0, 1).unwrap(), vec![0]);
    assert_eq!(sweep_sizes(usize::MAX - 1, usize::MAX, 7).unwrap(), vec![usize::MAX - 1]);
}

#[test]
fn configuration_errors() {
    assert_eq!(sweep_sizes(5, 4, 1), Err(ConfigError::EmptySweep));
    assert_eq!(sweep_sizes(1, 4, 0), Err(ConfigError::ZeroStep));
    assert_eq!(check_config(1, 4, 1, 0), Err(ConfigError::ZeroIterations));
    assert_eq!(check_config(1, 4, 0, 2), Err(ConfigError::ZeroStep));
    assert_eq!(check_config(5, 4, 1, 2), Err(ConfigError::EmptySweep));
}

#[test]
fn averages_round_down() {
    let (a, b) = data_points(7, 10, 11, 4);
    assert_eq!(a, DataPoint { batch_size: 7, runtime_micros: 2, used_row_encoding: false });
    assert_eq!(b, DataPoint { batch_size: 7, runtime_micros: 2, used_row_encoding: true });
    assert_eq!(bench_arrow_sort::average_micros(0, 3), 0);
}

#[test]
fn malformed_batch_is_refused() {
    let b = Batch {
        schema: vec![Field { name: "d", kind: DataKind::Dictionary }],
        columns: vec![Column::Dictionary { values: vec![b"x".to_vec()], keys: vec![0, 3] }],
        row_count: 2,
    };
    assert!(!b.is_valid());
    let keys = make_sort_exprs(&b.schema);
    assert_eq!(sort_batch(b, &keys, false), Err(SortError::MalformedBatch));
    let short = Batch {
        schema: vec![Field { name: "i", kind: DataKind::Int64 }],
        columns: vec![Column::Int64(vec![1, 2])],
        row_count: 3,
    };
    assert_eq!(sort_batch(short, &make_sort_exprs(&[Field { name: "i", kind: DataKind::Int64 }].to_vec()), true), Err(SortError::MalformedBatch));
    let mistyped = Batch {
        schema: vec![Field { name: "i", kind: DataKind::Utf8 }],
        columns: vec![Column::Int64(vec![1])],
        row_count: 1,
    };
    assert!(!mistyped.is_valid());
}

#[test]
fn unsupported_keys_are_refused() {
    let b = utf8_tuple_streams(4);
    let mut keys = make_sort_exprs(&b.schema);
    keys[1].descending = true;
    assert_eq!(sort_batch(b.clone(), &keys, false), Err(SortError::UnsupportedKeys));
    let keys = vec![SortKey { column: 0, descending: false, nulls_first: false }];
    assert_eq!(sort_batch(b, &keys, true), Err(SortError::UnsupportedKeys));
}

#[test]
fn sort_keys_cover_every_column_ascending() {
    let keys = make_sort_exprs(&Case::MixedTuple.schema());
    assert_eq!(keys.len(), 4);
    for (i, k) in keys.iter().enumerate() {
        assert_eq!(*k, SortKey { column: i, descending: false, nulls_first: false });
    }
}

#[test]
fn mixed_values_sort_numerically_and_bytewise() {
    let b = Batch {
        schema: vec![Field { name: "i", kind: DataKind::Int64 }, Field { name: "s", kind: DataKind::Utf8 }],
        columns: vec![
            Column::Int64(vec![5, -3, 5, i64::MIN, i64::MAX, -3]),
            Column::Utf8(vec![b"abc".to_vec(), b"b".to_vec(), b"ab".to_vec(), b"".to_vec(), b"a".to_vec(), b"a".to_vec()]),
        ],
        row_count: 6,
    };
    let expected = vec![3, 5, 1, 2, 0, 4];
    assert_eq!(sort_to_indices(&b, SortStrategy::Comparator), expected);
    assert_eq!(sort_to_indices(&b, SortStrategy::RowEncoding), expected);
}

#[test]
fn ties_keep_input_order() {
    let b = Batch {
        schema: vec![Field { name: "i", kind: DataKind::Int64 }],
        columns: vec![Column::Int64(vec![2, 1, 2, 1])],
        row_count: 4,
    };
    assert_eq!(sort_to_indices(&b, SortStrategy::Comparator), vec![1, 3, 0, 2]);
    assert_eq!(sort_to_indices(&b, SortStrategy::RowEncoding), vec![1, 3, 0, 2]);
}

#[test]
fn row_keys_have_the_documented_layout() {
    let b = Batch {
        schema: vec![Field { name: "i", kind: DataKind::Int64 }, Field { name: "s", kind: DataKind::Utf8 }],
        columns: vec![Column::Int64(vec![-1, 1]), Column::Utf8(vec![b"ab".to_vec(), b"".to_vec()])],
        row_count: 2,
    };
    assert_eq!(encode_row(&b, 0), vec![0x7f, 0xff, 0xff, 0xff, 0xff, 0xff, 0xff, 0xff, 1, b'a', 1, b'b', 0]);
    assert_eq!(encode_row(&b, 1), vec![0x80, 0, 0, 0, 0, 0, 0, 1, 0]);
    assert!(encode_row(&b, 0) < encode_row(&b, 1));
}

#[test]
fn low_cardinality_strings_come_from_the_pool() {
    let b = utf8_low_cardinality_streams(500);
    assert_eq!(b.schema, vec![Field { name: "utf_low", kind: DataKind::Utf8 }]);
    let pool: Vec<Vec<u8>> = (0..100).map(|i| format!("value{i}").into_bytes()).collect();
    match &b.columns[0] {
        Column::Utf8(v) => {
            assert_eq!(v.len(), 500);
            assert!(v.iter().all(|s| pool.contains(s)));
            let distinct: std::collections::HashSet<&Vec<u8>> = v.iter().collect();
            assert!(distinct.len() > 50);
        }
        other => panic!("unexpected column {other:?}"),
    }
}

#[test]
fn high_cardinality_strings_are_twenty_letters() {
    let b = utf8_high_cardinality_streams(300);
    match &b.columns[0] {
        Column::Utf8(v) => {
            assert_eq!(v.len(), 300);
            assert!(v.iter().all(|s| s.len() == 20 && s.iter().all(|c| c.is_ascii_alphabetic())));
            let distinct: std::collections::HashSet<&Vec<u8>> = v.iter().collect();
            assert_eq!(distinct.len(), 300);
        }
        other => panic!("unexpected column {other:?}"),
    }
}

#[test]
fn dictionary_column_decodes_to_the_strings() {
    let d = dictionary_streams(400);
    let s = utf8_low_cardinality_streams(400);
    assert_eq!(d.schema, vec![Field { name: "dict", kind: DataKind::Dictionary }]);
    assert!(d.is_valid());
    match (&d.columns[0], &s.columns[0]) {
        (Column::Dictionary { values, keys }, Column::Utf8(strings)) => {
            let decoded: Vec<Vec<u8>> = keys.iter().map(|&k| values[k].clone()).collect();
            assert_eq!(&decoded, strings);
            let distinct: std::collections::HashSet<&Vec<u8>> = values.iter().collect();
            assert_eq!(distinct.len(), values.len());
            assert_eq!(values[0], strings[0]);
        }
        _ => panic!("unexpected columns"),
    }
}

#[test]
fn case_streams_match_generate_batch() {
    assert_eq!(Case::Utf8Tuple.generate_batch(33), utf8_tuple_streams(33));
    assert_eq!(Case::MixedTuple.generate_batch(33), mixed_tuple_streams(33));
    assert_eq!(Case::DictionaryTuple.generate_batch(33), dictionary_tuple_streams(33));
    assert_eq!(Case::MixedDictionaryTuple.generate_batch(33), mixed_dictionary_tuple_streams(33));
}

#[test]
fn mixed_tuple_numbers_stay_below_row_count() {
    let b = mixed_tuple_streams(90);
    for c in [0, 3] {
        match &b.columns[c] {
            Column::Int64(v) | Column::Float64(v) => assert!(v.iter().all(|&x| (0..90).contains(&x))),
            other => panic!("unexpected column {other:?}"),
        }
    }
}

#[test]
fn seeded_source_draws_in_range_and_repeats() {
    let mut a = Source::new(42);
    let mut b = Source::new(42);
    let xs: Vec<u64> = (0..50).map(|_| a.below(7)).collect();
    let ys: Vec<u64> = (0..50).map(|_| b.below(7)).collect();
    assert_eq!(xs, ys);
    assert!(xs.iter().all(|&x| x < 7));
    assert!(xs.iter().any(|&x| x != xs[0]));
    let c = a.alphanumeric();
    assert!(c.is_ascii_alphanumeric());
}

#[test]
fn take_columns_keeps_the_assigned_rows_in_order() {
    let b = Batch {
        schema: vec![Field { name: "i", kind: DataKind::Int64 }, Field { name: "s", kind: DataKind::Utf8 }],
        columns: vec![
            Column::Int64(vec![10, 11, 12, 13, 14]),
            Column::Utf8(vec![b"a".to_vec(), b"b".to_vec(), b"c".to_vec(), b"d".to_vec(), b"e".to_vec()]),
        ],
        row_count: 5,
    };
    let t = take_columns(&b, &vec![1, 0, 1, 2, 1], 1);
    assert_eq!(t.row_count, 3);
    assert_eq!(t.columns[0], Column::Int64(vec![10, 12, 14]));
    assert_eq!(t.columns[1], Column::Utf8(vec![b"a".to_vec(), b"c".to_vec(), b"e".to_vec()]));
    assert_eq!(t.schema, b.schema);
    let none = take_columns(&b, &vec![0, 0, 0, 0, 0], 3);
    assert_eq!(none.row_count, 0);
}

#[test]
fn split_batch_partitions_every_row_once() {
    let b = dictionary_tuple_streams(240);
    let streams = split_batch(b.clone(), 4);
    assert_eq!(streams.len(), 4);
    assert!(streams.iter().all(|s| s.len() == 1));
    let total: usize = streams.iter().map(|s| s[0].row_count).sum();
    assert_eq!(total, 240);
    assert!(streams.iter().all(|s| s[0].row_count > 0 && s[0].is_valid()));
    assert_eq!(split_batch(b.clone(), 4), streams);
    let mut all: Vec<_> = streams.iter().flat_map(|s| (0..s[0].row_count).map(move |i| row(&s[0], i))).collect();
    let mut orig: Vec<_> = (0..b.row_count).map(|i| row(&b, i)).collect();
    all.sort();
    orig.sort();
    assert_eq!(all, orig);
}

#[test]
fn case_names() {
    assert_eq!(Case::Utf8Tuple.name(), "utf8_tuple");
    assert_eq!(Case::MixedDictionaryTuple.name(), "mixed_dictionary_tuple");
}

#[test]
fn split_of_empty_batch_into_no_streams() {
    let b = utf8_tuple_streams(0);
    assert!(split_batch(b, 0).is_empty());
}

#[test]
fn one_stream_receives_the_whole_batch() {
    let b = mixed_tuple_streams(57);
    let streams = split_batch(b.clone(), 1);
    assert_eq!(streams.len(), 1);
    assert_eq!(streams[0].len(), 1);
    assert_eq!(streams[0][0], b);
}

#[test]
fn single_row_numbers_are_zero() {
    let b = mixed_tuple_streams(1);
    assert_eq!(b.columns[0], Column::Float64(vec![0]));
    assert_eq!(b.columns[3], Column::Int64(vec![0]));
    let d = mixed_dictionary_tuple_streams(1);
    assert_eq!(d.columns[3], Column::Int64(vec![0]));
    for c in 0..3 {
        match &d.columns[c] {
            Column::Dictionary { values, keys } => {
                assert_eq!(values.len(), 1);
                assert_eq!(keys, &vec![0]);
                assert!(values[0].starts_with(b"value"));
            }
            other => panic!("unexpected column {other:?}"),
        }
    }
}

#[test]
fn dictionary_tables_are_distinct_pool_strings() {
    let pool: Vec<Vec<u8>> = (0..100).map(|i| format!("value{i}").into_bytes()).collect();
    for b in [dictionary_tuple_streams(1000), mixed_dictionary_tuple_streams(1000)] {
        for c in 0..3 {
            match &b.columns[c] {
                Column::Dictionary { values, keys } => {
                    assert!(values.len() <= 100);
                    assert!(values.iter().all(|v| pool.contains(v)));
                    let distinct: std::collections::HashSet<&Vec<u8>> = values.iter().collect();
                    assert_eq!(distinct.len(), values.len());
                    assert!(keys.iter().all(|&k| k < values.len()));
                }
                other => panic!("unexpected column {other:?}"),
            }
        }
    }
}

#[test]
fn generated_numbers_stay_below_the_row_count() {
    for case in [Case::MixedTuple, Case::MixedDictionaryTuple] {
        let b = case.generate_batch(40);
        for col in &b.columns {
            if let Column::Int64(v) | Column::Float64(v) = col {
                assert!(v.iter().all(|&x| (0..40).contains(&x)));
            }
        }
    }
}

#[test]
fn case_schema_names() {
    let names: Vec<&str> = Case::MixedTuple.schema().iter().map(|f| f.name).collect();
    assert_eq!(names, vec!["f64", "utf_low1", "utf_low2", "i64"]);
    let names: Vec<&str> = Case::MixedDictionaryTuple.schema().iter().map(|f| f.name).collect();
    assert_eq!(names, vec!["a", "b", "c", "d"]);
}
