//! The bookkeeping of running a job on a cluster: counting down the models
//! still working, the average time they took, and the settings for telling
//! the project's owner that it finished.

use vstd::prelude::*;

use crate::utils::finance::div_toward_zero;

verus! {

/// The configuration for sending emails.
#[derive(Debug)]
pub struct Config {
    /// The address to send from.
    pub from_address: String,
    /// The name to send from.
    pub from_name: String,
    /// The application specific password for Gmail.
    pub app_password: String,
}

/// The sum of a list of computation times.
pub open spec fn total_time(times: Seq<i64>) -> int
    decreases times.len(),
{
    if times.len() == 0 {
        0
    } else {
        total_time(times.drop_last()) + times.last()
    }
}

/// Whether every running total of `times`, from the first time on, fits in
/// an `i64`.
pub open spec fn running_totals_fit(times: Seq<i64>) -> bool {
    forall|k: int|
        0 <= k <= times.len() ==> i64::MIN <= #[trigger] total_time(times.take(k)) <= i64::MAX
}

/// The average computation time of a cluster's models, rounded towards
/// zero, or zero when no model reported a time.
pub open spec fn spec_average_job_time(times: Seq<i64>) -> int {
    if times.len() == 0 {
        0
    } else {
        div_toward_zero(total_time(times), times.len() as int)
    }
}

/// Whether `average` is the mean of values adding up to `total` over `n` of
/// them, rounded towards zero: `average * n` is within one `n` of `total`,
/// on the side of zero.
pub open spec fn averages(average: int, total: int, n: int) -> bool {
    &&& total >= 0 ==> average * n <= total < average * n + n
    &&& total < 0 ==> average * n - n < total <= average * n
}

/// The average job time of a non-empty list of times is the sum of all of
/// them divided by their number, rounded towards zero: multiplied back by
/// the number of times it comes within one of that number of the sum, on
/// the side of zero.
pub proof fn law_average_is_the_truncated_mean(times: Seq<i64>)
    requires
        times.len() > 0,
    ensures
        averages(spec_average_job_time(times), total_time(times), times.len() as int),
{
    let n = times.len() as int;
    let t = total_time(times);
    if t >= 0 {
        let q = t / n;
        let r = t % n;
        assert(t == q * n + r && 0 <= r < n) by (nonlinear_arith)
            requires
                n > 0,
                q == t / n,
                r == t % n,
        ;
        assert(q * n <= t < q * n + n);
    } else {
        let q = (-t) / n;
        let r = (-t) % n;
        assert(-t == q * n + r && 0 <= r < n) by (nonlinear_arith)
            requires
                n > 0,
                q == (-t) / n,
                r == (-t) % n,
        ;
        assert((-q) * n == -(q * n)) by (nonlinear_arith);
        assert((-q) * n - n < t <= (-q) * n);
    }
}

/// Averages the computation times the models of a cluster reported.
pub fn average_job_time(times: &[i64]) -> (average: i64)
    requires
        times@.len() <= i64::MAX,
        running_totals_fit(times@),
    ensures
        average == spec_average_job_time(times@),
        times@.len() == 0 ==> average == 0,
        times@.len() > 0 ==> averages(average as int, total_time(times@), times@.len() as int),
{
    if times.len() == 0 {
        return 0;
    }
    proof {
        law_average_is_the_truncated_mean(times@);
    }
    let mut total: i64 = 0;
    let mut i: usize = 0;
    while i < times.len()
        invariant
            i <= times@.len(),
            running_totals_fit(times@),
            total == total_time(times@.take(i as int)),
        decreases times@.len() - i,
    {
        assert(times@.take(i as int + 1).drop_last() =~= times@.take(i as int));
        assert(i64::MIN <= total_time(times@.take(i as int + 1)) <= i64::MAX);
        total = total + times[i];
        i += 1;
    }
    assert(times@.take(times@.len() as int) =~= times@);
    let count: i64 = times.len() as i64;
    total / count
}

/// The number of models still working after one more finishes, and whether
/// that was the last of them, so that whoever waits for the cluster is woken.
pub open spec fn spec_countdown(counter: usize) -> (usize, bool) {
    ((counter - 1) as usize, counter - 1 == 0)
}

/// Counts down the models of a cluster that are still working.
pub fn countdown(counter: usize) -> (next: (usize, bool))
    requires
        counter > 0,
    ensures
        next == spec_countdown(counter),
        next.0 + 1 == counter,
        next.1 <==> next.0 == 0,
{
    let remaining = counter - 1;
    (remaining, remaining == 0)
}

/// Counting down takes one model off those still working, and the cluster
/// is woken exactly when none is left: never while a model still works.
pub proof fn law_countdown_wakes_only_at_the_last(counter: usize)
    requires
        counter > 0,
    ensures
        spec_countdown(counter).0 + 1 == counter,
        spec_countdown(counter).1 <==> spec_countdown(counter).0 == 0,
        spec_countdown(counter).1 <==> counter == 1,
{
}

} // verus!
