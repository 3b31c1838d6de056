//! The benchmark protocol's arithmetic: which batch sizes a sweep visits, and the
//! data points that its timings average to.
use vstd::prelude::*;

verus! {

/// One measurement: a batch size, a strategy and its average time.
#[derive(Clone, Copy, Debug, PartialEq, Eq, Structural)]
pub struct DataPoint {
    pub batch_size: usize,
    pub runtime_micros: u128,
    pub used_row_encoding: bool,
}

/// Why a sweep was refused before any measurement.
#[derive(Clone, Copy, Debug, PartialEq, Eq, Structural)]
pub enum ConfigError {
    /// The iteration count is 0.
    ZeroIterations,
    /// The step size is 0.
    ZeroStep,
    /// The start size is above the end size, so the sweep is empty.
    EmptySweep,
}

/// The sizes `begin, begin + step, ...` up to and including `end`.
pub open spec fn sweep(begin: nat, end: nat, step: nat) -> Seq<nat>
    recommends
        step > 0,
        begin <= end,
{
    Seq::new(((end - begin) as int / step as int + 1) as nat, |k: int| (begin + k * step) as nat)
}

/// The error a sweep configuration gets, if any.
pub open spec fn config_error(begin: nat, end: nat, step: nat, iters: nat) -> Option<ConfigError> {
    if iters == 0 {
        Some(ConfigError::ZeroIterations)
    } else if step == 0 {
        Some(ConfigError::ZeroStep)
    } else if begin > end {
        Some(ConfigError::EmptySweep)
    } else {
        None
    }
}

/// Checks a sweep configuration.
pub fn check_config(begin: usize, end: usize, step: usize, iters: u128) -> (r: Result<(), ConfigError>)
    ensures
        r matches Ok(_) <==> config_error(begin as nat, end as nat, step as nat, iters as nat) is None,
        r matches Err(e) ==> config_error(begin as nat, end as nat, step as nat, iters as nat) == Some(e),
{
    if iters == 0 {
        Err(ConfigError::ZeroIterations)
    } else if step == 0 {
        Err(ConfigError::ZeroStep)
    } else if begin > end {
        Err(ConfigError::EmptySweep)
    } else {
        Ok(())
    }
}

/// The batch sizes of a sweep from `begin` to `end` inclusive, `step` apart.
pub fn sweep_sizes(begin: usize, end: usize, step: usize) -> (r: Result<Vec<usize>, ConfigError>)
    ensures
        r matches Ok(v) ==> step > 0 && begin <= end && v@.map_values(|s: usize| s as nat) == sweep(begin as nat, end as nat, step as nat),
        r matches Err(e) ==> e == (if step == 0 { ConfigError::ZeroStep } else { ConfigError::EmptySweep }),
        r is Ok <==> step > 0 && begin <= end,
{
    if step == 0 {
        return Err(ConfigError::ZeroStep);
    }
    if begin > end {
        return Err(ConfigError::EmptySweep);
    }
    let ghost count: int = (end - begin) as int / step as int + 1;
    proof {
        vstd::arithmetic::div_mod::lemma_div_pos_is_pos((end - begin) as int, step as int);
        vstd::arithmetic::div_mod::lemma_small_mod(0, step as nat);
        vstd::arithmetic::div_mod::lemma_basic_div(0, step as int);
    }
    let mut r: Vec<usize> = Vec::new();
    let mut size: usize = begin;
    loop
        invariant_except_break
            count == (end - begin) as int / step as int + 1,
            count >= 1,
            step > 0,
            begin <= size <= end,
            (size - begin) % (step as int) == 0,
            r.len() == (size - begin) / (step as int),
            forall|k: int| 0 <= k < r.len() ==> #[trigger] r@[k] == begin + k * step,
        ensures
            r@.map_values(|s: usize| s as nat) =~= sweep(begin as nat, end as nat, step as nat),
        decreases end - size,
    {
        r.push(size);
        assert(r@[r.len() - 1] == begin + (r.len() - 1) * step) by (nonlinear_arith)
            requires
                r@[r.len() - 1] == size,
                r.len() - 1 == (size - begin) / (step as int),
                (size - begin) % (step as int) == 0,
                step > 0,
        {
            assert((size - begin) == step * ((size - begin) / (step as int)) + (size - begin) % (step as int));
        }
        if end - size < step {
            proof {
                assert(r.len() == count) by (nonlinear_arith)
                    requires
                        r.len() == (size - begin) / (step as int) + 1,
                        (size - begin) % (step as int) == 0,
                        0 <= end - size < step,
                        step > 0,
                        count == (end - begin) as int / (step as int) + 1,
                {
                    let q = (size - begin) / (step as int);
                    assert(size - begin == step * q) by {
                        assert((size - begin) == step * ((size - begin) / (step as int)) + (size - begin) % (step as int));
                    }
                    assert(end - begin == step * q + (end - size));
                    vstd::arithmetic::div_mod::lemma_fundamental_div_mod_converse(
                        end - begin,
                        step as int,
                        q,
                        end - size,
                    );
                }
            }
            break;
        }
        proof {
            assert((size + step - begin) % (step as int) == 0 && (size + step - begin) / (step as int) == (size - begin) / (step as int) + 1) by {
                vstd::arithmetic::div_mod::lemma_mod_add_multiples_vanish(size - begin, step as int);
                vstd::arithmetic::div_mod::lemma_div_plus_one(size - begin, step as int);
            }
        }
        size = size + step;
    }
    Ok(r)
}

/// The average of `iters` runs that took `total_micros` together, rounded down.
pub fn average_micros(total_micros: u128, iters: u128) -> (r: u128)
    requires
        iters > 0,
    ensures
        r == total_micros / iters,
{
    total_micros / iters
}

/// The data points of one batch size: the comparator's average, then the row
/// encoding's, each the total over `iters` runs divided by `iters`.
pub fn data_points(batch_size: usize, comparator_total_micros: u128, row_encoding_total_micros: u128, iters: u128) -> (r: (
    DataPoint,
    DataPoint,
))
    requires
        iters > 0,
    ensures
        r.0 == (DataPoint {
            batch_size,
            runtime_micros: comparator_total_micros / iters,
            used_row_encoding: false,
        }),
        r.1 == (DataPoint {
            batch_size,
            runtime_micros: row_encoding_total_micros / iters,
            used_row_encoding: true,
        }),
{
    (
        DataPoint {
            batch_size,
            runtime_micros: average_micros(comparator_total_micros, iters),
            used_row_encoding: false,
        },
        DataPoint {
            batch_size,
            runtime_micros: average_micros(row_encoding_total_micros, iters),
            used_row_encoding: true,
        },
    )
}

/// The measurements of one run: one pair of data points per batch size, in the
/// order the sweep visits them.
pub struct Benchmark {
    pub iters: u128,
    pub points: Vec<DataPoint>,
}

impl Benchmark {
    pub fn new(iters: u128) -> (r: Benchmark)
        requires
            iters > 0,
        ensures
            r.iters == iters,
            r.points@ == Seq::<DataPoint>::empty(),
    {
        Benchmark { iters, points: Vec::new() }
    }

    /// Records the total times of both strategies over `iters` runs at `batch_size`.
    pub fn record(&mut self, batch_size: usize, comparator_total_micros: u128, row_encoding_total_micros: u128)
        requires
            old(self).iters > 0,
        ensures
            final(self).iters == old(self).iters,
            final(self).points@ == old(self).points@.push(DataPoint {
                batch_size,
                runtime_micros: comparator_total_micros / old(self).iters,
                used_row_encoding: false,
            }).push(DataPoint {
                batch_size,
                runtime_micros: row_encoding_total_micros / old(self).iters,
                used_row_encoding: true,
            }),
    {
        let (a, b) = data_points(batch_size, comparator_total_micros, row_encoding_total_micros, self.iters);
        self.points.push(a);
        self.points.push(b);
    }
}

} // verus!
