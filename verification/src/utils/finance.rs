//! The pricing of jobs.

use vstd::prelude::*;

verus! {

/// The number of rows charged as one unit of dataset size.
pub const SIZE_DENOMINATOR: i32 = 1000;

/// Integer division rounding towards zero, as Rust's `/` on integers does.
pub open spec fn div_toward_zero(a: int, b: int) -> int
    recommends
        b > 0,
{
    if a >= 0 {
        a / b
    } else {
        -((-a) / b)
    }
}

/// The number of size units a dataset of `size` rows is charged for: whole
/// thousands of rows, but at least one.
pub open spec fn size_units(size: int) -> int {
    let units = div_toward_zero(size, SIZE_DENOMINATOR as int);
    if units > 1 {
        units
    } else {
        1
    }
}

/// The cost of a job run on `models` models over a dataset of
/// `dimensionality` columns and `size` rows.
pub open spec fn spec_job_cost(models: int, dimensionality: int, size: int) -> int {
    models * dimensionality * size_units(size)
}

/// Computes the cost of a job: the number of models times the number of
/// columns times the number of whole thousands of rows, counting at least one
/// thousand.
pub fn job_cost(models: i32, dimensionality: i32, size: i32) -> (cost: i32)
    requires
        i32::MIN <= models * dimensionality <= i32::MAX,
        i32::MIN <= spec_job_cost(models as int, dimensionality as int, size as int) <= i32::MAX,
    ensures
        cost == spec_job_cost(models as int, dimensionality as int, size as int),
        size >= SIZE_DENOMINATOR ==> cost == models * dimensionality * (size / SIZE_DENOMINATOR),
        size < 2 * SIZE_DENOMINATOR ==> cost == models * dimensionality,
{
    proof {
        law_cost_counts_every_thousand_rows(models as int, dimensionality as int, size as int);
    }
    let units = size / SIZE_DENOMINATOR;
    let units = if units > 1 {
        units
    } else {
        1
    };
    assert(units == size_units(size as int));
    models * dimensionality * units
}

/// A job is charged for every whole thousand of its rows, with no upper
/// bound, and for one thousand when it has fewer than two thousand rows; so
/// every further thousand rows adds the price of one thousand.
pub proof fn law_cost_counts_every_thousand_rows(models: int, dimensionality: int, size: int)
    ensures
        size >= 1000 ==> spec_job_cost(models, dimensionality, size) == models * dimensionality
            * (size / 1000),
        size < 2000 ==> spec_job_cost(models, dimensionality, size) == models * dimensionality,
        size >= 1000 ==> spec_job_cost(models, dimensionality, size + 1000) == spec_job_cost(
            models,
            dimensionality,
            size,
        ) + models * dimensionality,
{
    if size >= 1000 {
        assert((size + 1000) / 1000 == size / 1000 + 1) by (nonlinear_arith)
            requires
                size >= 1000,
        ;
        assert(size / 1000 >= 1) by (nonlinear_arith)
            requires
                size >= 1000,
        ;
        let md = models * dimensionality;
        assert(md * (size / 1000 + 1) == md * (size / 1000) + md) by (nonlinear_arith);
    }
    if size < 2000 && size >= 0 {
        assert(size / 1000 <= 1) by (nonlinear_arith)
            requires
                0 <= size < 2000,
        ;
    }
    if size < 0 {
        assert((-size) / 1000 >= 0) by (nonlinear_arith)
            requires
                size < 0,
        ;
    }
}

} // verus!
