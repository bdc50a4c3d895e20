use vstd::prelude::*;

verus! {

/// Seconds in the 365-day year over which compounding is simulated.
pub const SECONDS_PER_YEAR: u64 = 31_536_000;

/// The most compounding rounds a year may hold: one an hour.
pub const MAX_ROUNDS_PER_YEAR: u64 = 8760;

/// Whether a number of compounding rounds per year can be acted on: at least
/// one, and no more than one an hour.
pub open spec fn feasible_rounds(rounds_per_year: u64) -> bool {
    1 <= rounds_per_year <= MAX_ROUNDS_PER_YEAR
}

/// The whole seconds between two compounding rounds, for a feasible number
/// of rounds per year.
pub open spec fn interval_spec(rounds_per_year: u64) -> Option<u64> {
    if feasible_rounds(rounds_per_year) {
        Some((SECONDS_PER_YEAR / rounds_per_year) as u64)
    } else {
        None
    }
}

/// Converts the optimizer's rounds per year into the time to wait between
/// claims, in whole seconds (rounded down); `None` where the number of rounds
/// is zero or finer than hourly. This is the one conversion from rounds to a
/// duration that scheduling uses.
pub fn duration_between_compounding(rounds_per_year: u64) -> (r: Option<u64>)
    ensures
        r == interval_spec(rounds_per_year),
        r is Some ==> 3600 <= r->0 <= SECONDS_PER_YEAR,
{
    if rounds_per_year == 0 || rounds_per_year > MAX_ROUNDS_PER_YEAR {
        return None;
    }
    proof {
        let f = rounds_per_year as int;
        assert(3600 <= 31_536_000int / f <= 31_536_000int) by (nonlinear_arith)
            requires
                1 <= f <= 8760,
        ;
    }
    Some(SECONDS_PER_YEAR / rounds_per_year)
}

} // verus!
