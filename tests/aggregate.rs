use autocompound::aggregate::{
    aggregate, collect_samples, mean, net_apr, total, AggregateMetrics, FailurePolicy, RATIO_ONE,
};
use autocompound::error::CycleError;

#[test]
fn mean_of_nothing_is_absent() {
    assert_eq!(mean(&vec![]), None);
}

#[test]
fn mean_of_one_is_that_value() {
    assert_eq!(mean(&vec![7]), Some(7));
    assert_eq!(mean(&vec![u64::MAX]), Some(u64::MAX));
    assert_eq!(mean(&vec![0]), Some(0));
}

#[test]
fn mean_rounds_down() {
    assert_eq!(mean(&vec![1, 2]), Some(1));
    assert_eq!(mean(&vec![2, 4, 9]), Some(5));
    assert_eq!(mean(&vec![u64::MAX, u64::MAX, u64::MAX]), Some(u64::MAX));
}

#[test]
fn total_does_not_overflow() {
    assert_eq!(total(&vec![]), 0);
    assert_eq!(total(&vec![u64::MAX, u64::MAX]), 2 * (u64::MAX as u128));
    assert_eq!(total(&vec![3, 4, 5]), 12);
}

#[test]
fn lenient_samples_count_failures_as_zero() {
    let r = collect_samples(&vec![Some(5), None, Some(7)], FailurePolicy::Lenient);
    assert_eq!(r, Ok(vec![5, 0, 7]));
}

#[test]
fn strict_samples_fail_on_a_failed_query() {
    let r = collect_samples(&vec![Some(5), None, Some(7)], FailurePolicy::Strict);
    assert_eq!(r, Err(CycleError::Transport));
    let ok = collect_samples(&vec![Some(5), Some(7)], FailurePolicy::Strict);
    assert_eq!(ok, Ok(vec![5, 7]));
}

#[test]
fn net_apr_takes_commission_off_inflation() {
    // 10% inflation, 10% commission: 9% net.
    assert_eq!(net_apr(100_000_000_000, 100_000_000_000), 90_000_000_000);
    assert_eq!(net_apr(100_000_000_000, 0), 100_000_000_000);
    assert_eq!(net_apr(100_000_000_000, RATIO_ONE), 0);
    assert_eq!(net_apr(3, 500_000_000_000), 1);
}

#[test]
fn aggregate_of_two_validators() {
    let r = aggregate(
        100_000_000_000,
        &vec![Some(50_000_000_000), Some(150_000_000_000)],
        &vec![Some(1_000_000), Some(2_000_000)],
        FailurePolicy::Strict,
    );
    assert_eq!(
        r,
        Ok(AggregateMetrics {
            mean_commission: 100_000_000_000,
            total_bonded: 3_000_000,
            net_apr: 90_000_000_000,
        })
    );
}

#[test]
fn aggregate_lenient_understates_on_failure() {
    let r = aggregate(
        100_000_000_000,
        &vec![Some(200_000_000_000), None],
        &vec![None, Some(2_000_000)],
        FailurePolicy::Lenient,
    );
    assert_eq!(
        r,
        Ok(AggregateMetrics {
            mean_commission: 100_000_000_000,
            total_bonded: 2_000_000,
            net_apr: 90_000_000_000,
        })
    );
}

#[test]
fn aggregate_errors() {
    let empty: Vec<Option<u64>> = vec![];
    assert_eq!(
        aggregate(1, &empty, &vec![Some(1)], FailurePolicy::Lenient),
        Err(CycleError::EmptyInput)
    );
    assert_eq!(
        aggregate(1, &vec![Some(1)], &empty, FailurePolicy::Strict),
        Err(CycleError::EmptyInput)
    );
    assert_eq!(
        aggregate(1, &vec![Some(1)], &vec![None], FailurePolicy::Strict),
        Err(CycleError::Transport)
    );
    assert_eq!(
        aggregate(1, &vec![Some(RATIO_ONE + 1)], &vec![Some(1)], FailurePolicy::Strict),
        Err(CycleError::Conversion)
    );
}
