use vstd::prelude::*;

verus! {

/// Seconds that have passed between `last` and `now`; a clock that reads
/// earlier than `last` counts as no time passed.
pub open spec fn elapsed(last: int, now: int) -> int {
    if now >= last {
        now - last
    } else {
        0
    }
}

/// Reads the system clock as whole seconds since the Unix epoch.
/// Relies on `std::time::SystemTime::now` and `duration_since(UNIX_EPOCH)`;
/// `None` where the clock reads earlier than the epoch. Nothing is promised
/// of the value: it is whatever the clock says.
#[verifier::external_body]
fn unix_now() -> (r: Option<u64>) {
    std::time::SystemTime::now().duration_since(std::time::UNIX_EPOCH).ok().map(|d| d.as_secs())
}

/// The current time in seconds since the Unix epoch, or 0 where the clock
/// reads earlier than the epoch.
fn now_secs() -> (r: u64) {
    match unix_now() {
        Some(t) => t,
        None => 0,
    }
}

/// The reclaim scheduler: when the last claim happened, and whether one has
/// happened at all since the process started.
#[derive(Debug, Clone, Copy)]
pub struct State {
    pub last_claimed_timestamp: u64,
    pub claimed_first_time: bool,
}

impl State {
    /// Whether a claim is due at `now` for a recommended interval of
    /// `interval` seconds.
    pub open spec fn ready_at(self, interval: int, now: int) -> bool {
        !self.claimed_first_time || elapsed(self.last_claimed_timestamp as int, now) >= interval
    }

    /// Seconds still to wait at `now` before a claim is due; 0 once it is.
    pub open spec fn wait_at(self, interval: int, now: int) -> int {
        if self.ready_at(interval, now) {
            0
        } else {
            interval - elapsed(self.last_claimed_timestamp as int, now)
        }
    }

    /// A scheduler that has never claimed, started at `now`.
    pub fn init_at(now: u64) -> (r: Self)
        ensures
            r.last_claimed_timestamp == now,
            !r.claimed_first_time,
    {
        State { last_claimed_timestamp: now, claimed_first_time: false }
    }

    /// A scheduler that has never claimed, started at the current time.
    pub fn init() -> (r: Self)
        ensures
            !r.claimed_first_time,
    {
        Self::init_at(now_secs())
    }

    /// Whether a claim is due at `now` when `interval` seconds are recommended
    /// between claims: always before the first claim, and afterwards once at
    /// least `interval` seconds have passed since the last one.
    pub fn should_reclaim_at(&self, interval: u64, now: u64) -> (r: bool)
        ensures
            r == self.ready_at(interval as int, now as int),
    {
        if !self.claimed_first_time {
            return true;
        }
        let passed: u64 = if now >= self.last_claimed_timestamp {
            now - self.last_claimed_timestamp
        } else {
            0
        };
        passed >= interval
    }

    /// Whether a claim is due now; see `should_reclaim_at`.
    pub fn should_reclaim(&self, interval: u64) -> (r: bool)
        ensures
            !self.claimed_first_time ==> r,
            interval == 0 ==> r,
    {
        self.should_reclaim_at(interval, now_secs())
    }

    /// Seconds left at `now` before a claim is due for an interval of
    /// `interval` seconds; 0 when one is already due.
    pub fn next_reclaim_in_at(&self, interval: u64, now: u64) -> (r: u64)
        ensures
            r == self.wait_at(interval as int, now as int),
    {
        if self.should_reclaim_at(interval, now) {
            return 0;
        }
        let passed: u64 = if now >= self.last_claimed_timestamp {
            now - self.last_claimed_timestamp
        } else {
            0
        };
        interval - passed
    }

    /// Seconds left now before a claim is due; see `next_reclaim_in_at`.
    pub fn next_reclaim_in(&self, interval: u64) -> (r: u64)
        ensures
            r <= interval,
            !self.claimed_first_time ==> r == 0,
    {
        self.next_reclaim_in_at(interval, now_secs())
    }

    /// Records a successful claim and re-bond at `now`.
    pub fn update_at(&mut self, now: u64)
        ensures
            final(self).claimed_first_time,
            final(self).last_claimed_timestamp == now,
    {
        self.claimed_first_time = true;
        self.last_claimed_timestamp = now;
    }

    /// Records a successful claim and re-bond at the current time.
    pub fn update(&mut self)
        ensures
            final(self).claimed_first_time,
    {
        let now: u64 = now_secs();
        self.update_at(now);
    }
}

/// A scheduler that has never claimed is ready for any interval, zero
/// included, at any time.
pub proof fn lemma_fresh_state_is_ready(s: State, interval: int, now: int)
    requires
        !s.claimed_first_time,
    ensures
        s.ready_at(interval, now),
        s.wait_at(interval, now) == 0,
{
}

/// After a claim at time `t` with a recommended interval of `d` seconds, the
/// scheduler waits halfway through the interval and is ready once it has
/// passed in full.
pub proof fn lemma_claim_then_wait_then_ready(s: State, t: int, d: int)
    requires
        s.claimed_first_time,
        s.last_claimed_timestamp == t,
        d > 0,
    ensures
        !s.ready_at(d, t + d / 2),
        s.wait_at(d, t + d / 2) == d - d / 2,
        s.ready_at(d, t + d),
        s.ready_at(d, t + d + 1),
{
}

} // verus!
