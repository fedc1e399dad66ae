//! Decisions of the tracing report service.
use vstd::prelude::*;

verus! {

/// The longest of some span durations.
pub open spec fn max_duration(durations: Seq<u64>) -> u64
    decreases durations.len(),
{
    if durations.len() == 0 {
        0
    } else if durations.len() == 1 {
        durations[0]
    } else {
        let m = max_duration(durations.drop_last());
        if durations.last() > m {
            durations.last()
        } else {
            m
        }
    }
}

/// Whether a trace is reported: its longest span lasts at least the threshold.
pub fn should_report(durations_ns: &[u64], threshold_ns: u64) -> (b: bool)
    requires
        durations_ns@.len() > 0,
    ensures
        b == (max_duration(durations_ns@) >= threshold_ns),
        b == (exists|i: int| 0 <= i < durations_ns@.len() && durations_ns@[i] >= threshold_ns),
{
    let mut m = durations_ns[0];
    let mut i: usize = 1;
    assert(durations_ns@.take(1).drop_last() =~= Seq::<u64>::empty());
    while i < durations_ns.len()
        invariant
            1 <= i <= durations_ns@.len(),
            m == max_duration(durations_ns@.take(i as int)),
        decreases durations_ns@.len() - i,
    {
        assert(durations_ns@.take(i + 1).drop_last() =~= durations_ns@.take(i as int));
        if durations_ns[i] > m {
            m = durations_ns[i];
        }
        i = i + 1;
    }
    assert(durations_ns@.take(i as int) =~= durations_ns@);
    proof {
        lemma_max_duration_is_longest(durations_ns@);
    }
    m >= threshold_ns
}

/// The longest duration is at least every duration and is one of them.
pub proof fn lemma_max_duration_is_longest(durations: Seq<u64>)
    requires
        durations.len() > 0,
    ensures
        forall|i: int| 0 <= i < durations.len() ==> durations[i] <= max_duration(durations),
        exists|i: int| 0 <= i < durations.len() && durations[i] == max_duration(durations),
    decreases durations.len(),
{
    if durations.len() == 1 {
        assert(durations[0] == max_duration(durations));
    } else {
        let rest = durations.drop_last();
        lemma_max_duration_is_longest(rest);
        let k = choose|i: int| 0 <= i < rest.len() && rest[i] == max_duration(rest);
        assert forall|i: int| 0 <= i < durations.len() implies durations[i] <= max_duration(
            durations,
        ) by {
            if i < rest.len() {
                assert(durations[i] == rest[i]);
            }
        }
        if durations.last() > max_duration(rest) {
            assert(durations[durations.len() - 1] == max_duration(durations));
        } else {
            assert(durations[k] == rest[k]);
        }
    }
}

} // verus!
