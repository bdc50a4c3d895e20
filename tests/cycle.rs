use autocompound::control::{after_cycle, LoopStep};
use autocompound::cycle::{realized_reward, split_reward, Event, Phase};
use autocompound::error::CycleError;

#[test]
fn realized_reward_is_the_balance_growth() {
    assert_eq!(realized_reward(1_000, 1_250), Ok(250));
    assert_eq!(realized_reward(1_000, 1_000), Ok(0));
    assert_eq!(realized_reward(1_000, 999), Err(CycleError::Integrity));
}

#[test]
fn full_cycle_bonds_the_reward() {
    let p = Phase::start();
    assert_eq!(p, Phase::ReadBalancePre);
    let p = p.advance(Event::Balance(1_000));
    assert_eq!(p, Phase::SubmitClaim { balance_pre: 1_000 });
    let p = p.advance(Event::Submitted);
    assert_eq!(p, Phase::ReadBalancePost { balance_pre: 1_000 });
    let p = p.advance(Event::Balance(1_300));
    assert_eq!(p, Phase::SubmitBond { reward: 300 });
    let p = p.advance(Event::Submitted);
    assert_eq!(p, Phase::Done { reward: 300 });
    assert_eq!(p.advance(Event::TransportFailed), Phase::Done { reward: 300 });
}

#[test]
fn shrinking_balance_never_reaches_the_bond() {
    let p = Phase::start()
        .advance(Event::Balance(1_000))
        .advance(Event::Submitted)
        .advance(Event::Balance(900));
    assert_eq!(p, Phase::Failed { error: CycleError::Integrity });
    let q = p.advance(Event::Submitted).advance(Event::Balance(5_000));
    assert_eq!(q, Phase::Failed { error: CycleError::Integrity });
}

#[test]
fn transport_failure_ends_the_cycle() {
    let p = Phase::start().advance(Event::Balance(10)).advance(Event::TransportFailed);
    assert_eq!(p, Phase::Failed { error: CycleError::Transport });
}

#[test]
fn unrelated_event_leaves_the_phase() {
    let p = Phase::start();
    assert_eq!(p.advance(Event::Submitted), Phase::ReadBalancePre);
    let c = Phase::SubmitClaim { balance_pre: 4 };
    assert_eq!(c.advance(Event::Balance(9)), c);
}

#[test]
fn one_shot_exits_with_status() {
    assert_eq!(after_cycle(true, false), LoopStep::Exit { code: 0 });
    assert_eq!(after_cycle(true, true), LoopStep::Exit { code: 1 });
    assert_eq!(after_cycle(false, true), LoopStep::Sleep);
    assert_eq!(after_cycle(false, false), LoopStep::Sleep);
}

#[test]
fn reward_split_across_validators() {
    assert_eq!(split_reward(10, 3), vec![4, 3, 3]);
    assert_eq!(split_reward(9, 3), vec![3, 3, 3]);
    assert_eq!(split_reward(2, 4), vec![1, 1, 0, 0]);
    assert_eq!(split_reward(7, 1), vec![7]);
    assert_eq!(split_reward(7, 0), Vec::<u128>::new());
    let big = split_reward(u128::MAX, 2);
    assert_eq!(big, vec![u128::MAX / 2 + 1, u128::MAX / 2]);
}
