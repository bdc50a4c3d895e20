use vstd::prelude::*;
use crate::error::CycleError;

verus! {

/// One whole in the fixed-point ratios of this library: a commission or a
/// rate `x` stands for `x / RATIO_ONE`.
pub const RATIO_ONE: u64 = 1_000_000_000_000;

/// The sum of a sequence of amounts.
pub open spec fn sum_of(s: Seq<u64>) -> int
    decreases s.len(),
{
    if s.len() == 0 {
        0
    } else {
        sum_of(s.drop_last()) + s.last()
    }
}

/// The arithmetic mean, rounded down; absent for an empty sequence.
pub open spec fn mean_spec(s: Seq<u64>) -> Option<u64> {
    if s.len() == 0 {
        None
    } else {
        Some((sum_of(s) / s.len() as int) as u64)
    }
}

/// What to do with a validator whose query failed.
#[derive(Debug, Clone, Copy, PartialEq, Eq, Structural)]
pub enum FailurePolicy {
    /// Fail the whole aggregation.
    Strict,
    /// Count the validator as contributing zero.
    Lenient,
}

/// A query outcome with a failed query read as zero.
pub open spec fn or_zero(o: Option<u64>) -> u64 {
    match o {
        Some(v) => v,
        None => 0,
    }
}

pub open spec fn filled(s: Seq<Option<u64>>) -> Seq<u64> {
    s.map_values(|o: Option<u64>| or_zero(o))
}

pub open spec fn has_missing(s: Seq<Option<u64>>) -> bool {
    exists|i: int| 0 <= i < s.len() && s[i] is None
}

pub open spec fn all_ratios(s: Seq<u64>) -> bool {
    forall|i: int| 0 <= i < s.len() ==> s[i] <= RATIO_ONE
}

/// The samples that the per-validator query outcomes give under `policy`.
pub open spec fn samples_spec(s: Seq<Option<u64>>, policy: FailurePolicy) -> Result<
    Seq<u64>,
    CycleError,
> {
    if policy is Strict && has_missing(s) {
        Err(CycleError::Transport)
    } else {
        Ok(filled(s))
    }
}

/// The net annual rate: the inflation rate less the validators' commission.
pub open spec fn net_apr_spec(inflation: u64, commission: u64) -> int {
    inflation * (RATIO_ONE - commission) / (RATIO_ONE as int)
}

/// What the optimizer needs from a snapshot of the chain. Ratios are in
/// units of `1 / RATIO_ONE`, amounts in the token's smallest unit.
#[derive(Debug, Clone, Copy, PartialEq, Eq, Structural)]
pub struct AggregateMetrics {
    pub mean_commission: u64,
    pub total_bonded: u128,
    pub net_apr: u64,
}

/// The aggregation of per-validator commissions and bonds: an empty input is
/// refused, a failed query fails a strict aggregation and counts as zero in
/// a lenient one, and a commission above one whole is malformed.
pub open spec fn aggregate_spec(
    inflation: u64,
    commissions: Seq<Option<u64>>,
    bonds: Seq<Option<u64>>,
    policy: FailurePolicy,
) -> Result<AggregateMetrics, CycleError> {
    if commissions.len() == 0 || bonds.len() == 0 {
        Err(CycleError::EmptyInput)
    } else if policy is Strict && (has_missing(commissions) || has_missing(bonds)) {
        Err(CycleError::Transport)
    } else if !all_ratios(filled(commissions)) {
        Err(CycleError::Conversion)
    } else {
        let c = mean_spec(filled(commissions))->0;
        Ok(
            AggregateMetrics {
                mean_commission: c,
                total_bonded: sum_of(filled(bonds)) as u128,
                net_apr: net_apr_spec(inflation, c) as u64,
            },
        )
    }
}

proof fn lemma_sum_step(s: Seq<u64>, i: int)
    requires
        0 <= i < s.len(),
    ensures
        sum_of(s.take(i + 1)) == sum_of(s.take(i)) + s[i],
{
    assert(s.take(i + 1).drop_last() =~= s.take(i));
}

proof fn lemma_sum_bounds(s: Seq<u64>)
    ensures
        0 <= sum_of(s) <= s.len() * (u64::MAX as int),
    decreases s.len(),
{
    if s.len() > 0 {
        lemma_sum_bounds(s.drop_last());
        assert(sum_of(s) <= s.len() * (u64::MAX as int)) by (nonlinear_arith)
            requires
                sum_of(s) == sum_of(s.drop_last()) + s.last(),
                sum_of(s.drop_last()) <= (s.len() - 1) * (u64::MAX as int),
                s.last() <= u64::MAX,
        ;
    }
}

/// The sum of `values`, which cannot overflow: fewer than 2^64 amounts of
/// under 2^64 each.
pub fn total(values: &Vec<u64>) -> (r: u128)
    ensures
        r == sum_of(values@),
{
    let mut acc: u128 = 0;
    let mut i: usize = 0;
    while i < values.len()
        invariant
            i <= values@.len(),
            acc == sum_of(values@.take(i as int)),
        decreases values@.len() - i,
    {
        proof {
            lemma_sum_step(values@, i as int);
            lemma_sum_bounds(values@.take(i as int + 1));
            assert((i as int + 1) * (u64::MAX as int) <= (usize::MAX as int) * (u64::MAX as int))
                by (nonlinear_arith)
                requires
                    i < usize::MAX,
            ;
            assert((usize::MAX as int) * (u64::MAX as int) <= u128::MAX) by (nonlinear_arith)
                requires
                    usize::MAX <= u64::MAX,
            ;
        }
        acc = acc + values[i] as u128;
        i = i + 1;
    }
    assert(values@.take(values@.len() as int) =~= values@);
    acc
}

/// The arithmetic mean of `values`, rounded down; `None` when there are none.
pub fn mean(values: &Vec<u64>) -> (r: Option<u64>)
    ensures
        r == mean_spec(values@),
        values@.len() == 0 <==> r is None,
        values@.len() == 1 ==> r == Some(values@[0]),
{
    if values.len() == 0 {
        return None;
    }
    let s: u128 = total(values);
    proof {
        lemma_sum_bounds(values@);
        let n = values@.len() as int;
        assert(sum_of(values@) / n <= u64::MAX) by (nonlinear_arith)
            requires
                0 <= sum_of(values@) <= n * (u64::MAX as int),
                n > 0,
        ;
        if n == 1 {
            assert(values@.drop_last() =~= Seq::<u64>::empty());
            assert(sum_of(values@.drop_last()) == 0);
            assert(sum_of(values@) == values@[0]);
        }
    }
    let m: u128 = s / values.len() as u128;
    proof {
        if values@.len() == 1 {
            assert(m == s / 1);
        }
    }
    Some(m as u64)
}

/// The samples of a per-validator query: under `Strict` a failed query fails
/// the whole with a transport error; under `Lenient` it counts as zero.
pub fn collect_samples(outcomes: &Vec<Option<u64>>, policy: FailurePolicy) -> (r: Result<
    Vec<u64>,
    CycleError,
>)
    ensures
        match samples_spec(outcomes@, policy) {
            Ok(s) => r is Ok && r->Ok_0@ == s,
            Err(e) => r == Err::<Vec<u64>, CycleError>(e),
        },
{
    let mut out: Vec<u64> = Vec::new();
    let mut i: usize = 0;
    while i < outcomes.len()
        invariant
            i <= outcomes@.len(),
            out@ == filled(outcomes@).take(i as int),
            policy is Strict ==> forall|j: int| 0 <= j < i ==> outcomes@[j] is Some,
        decreases outcomes@.len() - i,
    {
        match outcomes[i] {
            Some(v) => out.push(v),
            None => {
                if let FailurePolicy::Strict = policy {
                    return Err(CycleError::Transport);
                }
                out.push(0);
            },
        }
        assert(out@ =~= filled(outcomes@).take(i as int + 1));
        i = i + 1;
    }
    assert(out@ =~= filled(outcomes@));
    Ok(out)
}

/// Whether every value is a ratio between zero and one whole.
pub fn are_ratios(values: &Vec<u64>) -> (r: bool)
    ensures
        r == all_ratios(values@),
{
    let mut i: usize = 0;
    while i < values.len()
        invariant
            i <= values@.len(),
            forall|j: int| 0 <= j < i ==> values@[j] <= RATIO_ONE,
        decreases values@.len() - i,
    {
        if values[i] > RATIO_ONE {
            return false;
        }
        i = i + 1;
    }
    true
}

/// The net annual rate for an inflation rate and a mean commission, both in
/// units of `1 / RATIO_ONE`, rounded down.
pub fn net_apr(inflation: u64, mean_commission: u64) -> (r: u64)
    requires
        mean_commission <= RATIO_ONE,
    ensures
        r == net_apr_spec(inflation, mean_commission),
        r <= inflation,
{
    let keep: u128 = (RATIO_ONE - mean_commission) as u128;
    proof {
        assert(inflation * keep <= inflation * (RATIO_ONE as int)) by (nonlinear_arith)
            requires
                keep <= RATIO_ONE,
        ;
        assert(inflation * keep / (RATIO_ONE as int) <= inflation) by (nonlinear_arith)
            requires
                inflation * keep <= inflation * (RATIO_ONE as int),
        ;
    }
    (inflation as u128 * keep / RATIO_ONE as u128) as u64
}

/// Reduces the per-validator query outcomes of one epoch to the optimizer's
/// inputs: the mean commission, the total bonded amount, and the net rate.
pub fn aggregate(
    inflation: u64,
    commissions: &Vec<Option<u64>>,
    bonds: &Vec<Option<u64>>,
    policy: FailurePolicy,
) -> (r: Result<AggregateMetrics, CycleError>)
    ensures
        r == aggregate_spec(inflation, commissions@, bonds@, policy),
{
    if commissions.len() == 0 || bonds.len() == 0 {
        return Err(CycleError::EmptyInput);
    }
    let cs = match collect_samples(commissions, policy) {
        Ok(v) => v,
        Err(e) => {
            return Err(e);
        },
    };
    let bs = match collect_samples(bonds, policy) {
        Ok(v) => v,
        Err(e) => {
            return Err(e);
        },
    };
    if !are_ratios(&cs) {
        return Err(CycleError::Conversion);
    }
    let c = match mean(&cs) {
        Some(m) => m,
        None => {
            return Err(CycleError::EmptyInput);
        },
    };
    proof {
        lemma_mean_of_ratios(cs@);
    }
    let bonded: u128 = total(&bs);
    Ok(AggregateMetrics { mean_commission: c, total_bonded: bonded, net_apr: net_apr(inflation, c) })
}

proof fn lemma_mean_of_ratios(s: Seq<u64>)
    requires
        s.len() > 0,
        all_ratios(s),
    ensures
        0 <= sum_of(s) / (s.len() as int) <= RATIO_ONE,
{
    lemma_sum_ratios(s);
    let n = s.len() as int;
    assert(0 <= sum_of(s) / n <= RATIO_ONE) by (nonlinear_arith)
        requires
            0 <= sum_of(s) <= n * RATIO_ONE,
            n > 0,
    ;
}

proof fn lemma_sum_ratios(s: Seq<u64>)
    requires
        all_ratios(s),
    ensures
        0 <= sum_of(s) <= s.len() * RATIO_ONE,
    decreases s.len(),
{
    if s.len() > 0 {
        assert(all_ratios(s.drop_last()));
        lemma_sum_ratios(s.drop_last());
        assert(s.last() <= RATIO_ONE);
        assert((s.len() - 1) * RATIO_ONE + RATIO_ONE == s.len() * RATIO_ONE) by (nonlinear_arith);
    }
}

} // verus!
