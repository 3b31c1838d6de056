//! Two strategies for sorting a columnar batch by every column, ascending: a
//! comparator over column values, and a byte-comparable row encoding. Batches come
//! from a seeded generator, so every benchmark case is reproducible.
pub mod order;
pub mod batch;
pub mod encode;
pub mod sort;
pub mod rng;
pub mod data;
pub mod bench;

pub use batch::{Batch, Column, DataKind, Field, apply_permutation, identity_permutation};
pub use bench::{Benchmark, ConfigError, DataPoint, check_config, data_points, average_micros, sweep_sizes};
pub use data::{
    Case, DataGenerator, dictionary_streams, split_batch, take_columns, dictionary_tuple_streams, mixed_dictionary_tuple_streams,
    mixed_tuple_streams, utf8_high_cardinality_streams, utf8_low_cardinality_streams, utf8_tuple_streams,
};
pub use encode::{encode_row, encode_rows};
pub use sort::{SortError, SortKey, SortStrategy, make_sort_exprs, sort_batch, sort_to_indices};
