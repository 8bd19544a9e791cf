//! Which beacon round backs a draw made at a given time.

use vstd::prelude::*;

verus! {

/// Time at which the beacon published its round 1, in seconds.
pub const GENESIS_TIME: u64 = 1692803367;

/// Seconds between two rounds of the beacon.
pub const PERIOD: u64 = 3;

/// The round that is current at time `now`.
pub open spec fn round_at(now: u64) -> int {
    (now - GENESIS_TIME) / (PERIOD as int) + 1
}

/// The round that is current at time `now`, which must not lie before the
/// beacon's genesis.
pub fn expected_round(now: u64) -> (round: u64)
    requires
        now >= GENESIS_TIME,
    ensures
        round == round_at(now),
        round >= 1,
{
    (now - GENESIS_TIME) / PERIOD + 1
}

/// Rounds never run backwards: a later time has the same round or a later one.
pub proof fn lemma_round_monotonic(earlier: u64, later: u64)
    requires
        GENESIS_TIME <= earlier <= later,
    ensures
        round_at(earlier) <= round_at(later),
{
}

/// A full period later the round is a later one.
pub proof fn lemma_round_advances(earlier: u64, later: u64)
    requires
        GENESIS_TIME <= earlier,
        earlier + PERIOD <= later,
    ensures
        round_at(earlier) < round_at(later),
{
}

/// Over any run of times that are each a full period after the one before,
/// the rounds are strictly increasing.
pub proof fn lemma_rounds_strictly_increase(times: Seq<u64>, i: int, j: int)
    requires
        0 <= i < j < times.len(),
        times[0] >= GENESIS_TIME,
        forall|k: int| 0 < k < times.len() ==> times[k - 1] + PERIOD <= #[trigger] times[k],
    ensures
        round_at(times[i]) < round_at(times[j]),
    decreases j - i,
{
    lemma_times_ordered(times, j - 1);
    lemma_round_advances(times[j - 1], times[j]);
    if i < j - 1 {
        lemma_rounds_strictly_increase(times, i, j - 1);
    }
}

proof fn lemma_times_ordered(times: Seq<u64>, k: int)
    requires
        0 <= k < times.len(),
        times[0] >= GENESIS_TIME,
        forall|k: int| 0 < k < times.len() ==> times[k - 1] + PERIOD <= #[trigger] times[k],
    ensures
        times[k] >= GENESIS_TIME,
    decreases k,
{
    if k > 0 {
        lemma_times_ordered(times, k - 1);
    }
}

} // verus!
