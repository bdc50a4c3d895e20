use vstd::prelude::*;
use crate::error::CycleError;

verus! {

/// The reward a claim realized: how much the balance grew across it. A
/// balance that shrank breaks the cycle's integrity and is never clamped.
pub open spec fn reward_spec(balance_pre: u128, balance_post: u128) -> Result<u128, CycleError> {
    if balance_post >= balance_pre {
        Ok((balance_post - balance_pre) as u128)
    } else {
        Err(CycleError::Integrity)
    }
}

/// The realized reward of a claim, from the balances read just before and
/// just after it.
pub fn realized_reward(balance_pre: u128, balance_post: u128) -> (r: Result<u128, CycleError>)
    ensures
        r == reward_spec(balance_pre, balance_post),
{
    if balance_post >= balance_pre {
        Ok(balance_post - balance_pre)
    } else {
        Err(CycleError::Integrity)
    }
}

/// The sum of a sequence of amounts.
pub open spec fn sum_amounts(s: Seq<u128>) -> int
    decreases s.len(),
{
    if s.len() == 0 {
        0
    } else {
        sum_amounts(s.drop_last()) + s.last()
    }
}

/// The `i`-th of `parts` near-equal shares of `reward`: the remainder of the
/// division goes one unit each to the first shares.
pub open spec fn share_spec(reward: u128, parts: u64, i: int) -> int {
    (reward as int) / (parts as int) + if i < (reward as int) % (parts as int) {
        1int
    } else {
        0int
    }
}

/// Splits a reward into `parts` shares, one per validator, that differ by at
/// most one unit and add up to the reward; no shares for no validator.
pub fn split_reward(reward: u128, parts: u64) -> (r: Vec<u128>)
    ensures
        r@.len() == parts,
        forall|i: int| 0 <= i < parts ==> r@[i] == share_spec(reward, parts, i),
        parts > 0 ==> sum_amounts(r@) == reward,
{
    let mut out: Vec<u128> = Vec::new();
    if parts == 0 {
        return out;
    }
    let q: u128 = reward / parts as u128;
    let rem: u128 = reward % parts as u128;
    let mut i: u64 = 0;
    while i < parts
        invariant
            0 < parts,
            i <= parts,
            q == (reward as int) / (parts as int),
            rem == (reward as int) % (parts as int),
            out@.len() == i,
            forall|j: int| 0 <= j < i ==> out@[j] == share_spec(reward, parts, j),
            sum_amounts(out@) == (i as int) * (q as int) + if (i as int) < (rem as int) {
                i as int
            } else {
                rem as int
            },
        decreases parts - i,
    {
        proof {
            assert((q as int) * (parts as int) + rem == reward) by (nonlinear_arith)
                requires
                    q == (reward as int) / (parts as int),
                    rem == (reward as int) % (parts as int),
                    parts > 0,
            ;
            assert(rem > 0 ==> q < u128::MAX) by (nonlinear_arith)
                requires
                    (q as int) * (parts as int) + rem == reward,
                    parts > 0,
                    reward <= u128::MAX,
            ;
        }
        let share: u128 = if (i as u128) < rem {
            q + 1
        } else {
            q
        };
        let ghost before = out@;
        out.push(share);
        proof {
            assert(out@.drop_last() =~= before);
            assert((i as int + 1) * (q as int) == (i as int) * (q as int) + q) by (nonlinear_arith);
        }
        i = i + 1;
    }
    proof {
        assert((q as int) * (parts as int) + rem == reward) by (nonlinear_arith)
            requires
                q == (reward as int) / (parts as int),
                rem == (reward as int) % (parts as int),
                parts > 0,
        ;
        assert((parts as int) * (q as int) == (q as int) * (parts as int)) by (nonlinear_arith);
    }
    out
}

/// Where a claim and re-bond cycle stands, which is also what must be done
/// next: read the balance, submit the claim, read the balance again, submit
/// the bond. `Done` and `Failed` end the cycle.
#[derive(Debug, Clone, Copy, PartialEq, Eq, Structural)]
pub enum Phase {
    ReadBalancePre,
    SubmitClaim { balance_pre: u128 },
    ReadBalancePost { balance_pre: u128 },
    SubmitBond { reward: u128 },
    Done { reward: u128 },
    Failed { error: CycleError },
}

/// What came back from performing a phase's step.
#[derive(Debug, Clone, Copy, PartialEq, Eq, Structural)]
pub enum Event {
    /// The balance that was read.
    Balance(u128),
    /// The transaction was submitted.
    Submitted,
    /// The step could not be performed.
    TransportFailed,
}

impl Phase {
    pub open spec fn is_terminal(self) -> bool {
        self is Done || self is Failed
    }

    /// The phase that follows `self` once `event` has come back. An event
    /// that does not answer the phase's step leaves the phase as it is.
    pub open spec fn next_spec(self, event: Event) -> Phase {
        if self.is_terminal() {
            self
        } else if event is TransportFailed {
            Phase::Failed { error: CycleError::Transport }
        } else {
            match (self, event) {
                (Phase::ReadBalancePre, Event::Balance(b)) => Phase::SubmitClaim { balance_pre: b },
                (Phase::SubmitClaim { balance_pre }, Event::Submitted) => Phase::ReadBalancePost {
                    balance_pre,
                },
                (Phase::ReadBalancePost { balance_pre }, Event::Balance(b)) => match reward_spec(
                    balance_pre,
                    b,
                ) {
                    Ok(reward) => Phase::SubmitBond { reward },
                    Err(error) => Phase::Failed { error },
                },
                (Phase::SubmitBond { reward }, Event::Submitted) => Phase::Done { reward },
                _ => self,
            }
        }
    }

    /// A fresh cycle, whose first step reads the balance.
    pub fn start() -> (r: Phase)
        ensures
            r == Phase::ReadBalancePre,
    {
        Phase::ReadBalancePre
    }

    /// Advances the cycle by the outcome of its current step.
    pub fn advance(self, event: Event) -> (r: Phase)
        ensures
            r == self.next_spec(event),
    {
        match self {
            Phase::Done { .. } | Phase::Failed { .. } => self,
            _ => match event {
                Event::TransportFailed => Phase::Failed { error: CycleError::Transport },
                Event::Balance(b) => match self {
                    Phase::ReadBalancePre => Phase::SubmitClaim { balance_pre: b },
                    Phase::ReadBalancePost { balance_pre } => match realized_reward(
                        balance_pre,
                        b,
                    ) {
                        Ok(reward) => Phase::SubmitBond { reward },
                        Err(error) => Phase::Failed { error },
                    },
                    _ => self,
                },
                Event::Submitted => match self {
                    Phase::SubmitClaim { balance_pre } => Phase::ReadBalancePost { balance_pre },
                    Phase::SubmitBond { reward } => Phase::Done { reward },
                    _ => self,
                },
            },
        }
    }
}

/// The cycle enters its bond step only with a reward that the two balance reads around
/// the claim show, and only when the balance did not shrink: a smaller
/// balance after the claim fails the cycle with an integrity error, and a
/// failed cycle stays failed whatever happens next.
pub proof fn lemma_bond_only_after_balance_grew(p: Phase, e: Event, pre: u128, post: u128)
    ensures
        p !is SubmitBond && p.next_spec(e) is SubmitBond ==> {
            &&& p is ReadBalancePost
            &&& e is Balance
            &&& e->0 >= p->ReadBalancePost_balance_pre
            &&& p.next_spec(e)->SubmitBond_reward == e->0 - p->ReadBalancePost_balance_pre
        },
        post < pre ==> (Phase::ReadBalancePost { balance_pre: pre }).next_spec(Event::Balance(post))
            == (Phase::Failed { error: CycleError::Integrity }),
        p is Failed ==> p.next_spec(e) == p,
{
}

} // verus!
