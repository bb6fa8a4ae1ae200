use vstd::prelude::*;
use crate::model::{Event, FixedEvent, same_event, shows_fixed};
use crate::content::{triggers, is_first_trigger, no_trigger};
use crate::selector::{AppState, RETRIES, picked_by, all_repeat, first_fresh};

verus! {

/// When some fixed event triggers on a non-zero day, a first one does, at
/// or before it.
proof fn lemma_first_trigger_exists(fixed: Seq<FixedEvent>, day: nat, j: int) -> (i: int)
    requires
        day != 0,
        0 <= j < fixed.len(),
        triggers(fixed[j], day),
    ensures
        i <= j,
        is_first_trigger(fixed, day, i),
    decreases j,
{
    if exists|k: int| 0 <= k < j && triggers(#[trigger] fixed[k], day) {
        let k = choose|k: int| 0 <= k < j && triggers(#[trigger] fixed[k], day);
        lemma_first_trigger_exists(fixed, day, k)
    } else {
        j
    }
}

/// Fixed events take precedence, and among those that trigger on a day the
/// one with the largest interval is returned: if the fixed event at `j`
/// triggers on `day`, the selected event is a fixed event whose interval is
/// at least that of `j`.
pub proof fn lemma_largest_interval_wins(s: AppState, t: AppState, day: nat, r: Event, j: int)
    requires
        s.wf(),
        s.selects(t, day, r),
        day != 0,
        0 <= j < s.fixed_seq().len(),
        triggers(s.fixed_seq()[j], day),
    ensures
        exists|i: int|
            0 <= i < s.fixed_seq().len() && shows_fixed(r, #[trigger] s.fixed_seq()[i])
                && s.fixed_seq()[i].interval >= s.fixed_seq()[j].interval,
        t.previous_pick() == s.previous_pick(),
{
    let i = lemma_first_trigger_exists(s.fixed_seq(), day, j);
    assert(shows_fixed(r, s.fixed_seq()[i]));
}

/// Day zero never resolves to a fixed event: it always goes through random
/// sampling, whatever the intervals.
pub proof fn lemma_day_zero_samples(s: AppState, t: AppState, r: Event)
    requires
        s.wf(),
        s.selects(t, 0, r),
    ensures
        forall|i: int| !is_first_trigger(s.fixed_seq(), 0, i),
        exists|draws: Seq<usize>|
            draws.len() == RETRIES && #[trigger] picked_by(
                draws,
                s.situations_seq(),
                s.previous_pick(),
                t.previous_pick(),
                r,
            ),
{
    assert(no_trigger(s.fixed_seq(), 0));
}

/// A random selection never repeats the previous pick: either it picks a
/// new index, which is recorded, or, after `RETRIES` draws that all repeated
/// it, it returns the first situation and leaves the record as it was.
/// The first random selection always picks.
pub proof fn lemma_no_immediate_repeat(s: AppState, t: AppState, day: nat, r: Event)
    requires
        s.wf(),
        s.selects(t, day, r),
        no_trigger(s.fixed_seq(), day),
    ensures
        t.wf(),
        ({
            ||| t.previous_pick() is Some && t.previous_pick() != s.previous_pick() && same_event(
                r,
                s.situations_seq()[t.previous_pick().unwrap() as int],
            )
            ||| t.previous_pick() == s.previous_pick() && same_event(r, s.situations_seq()[0])
        }),
        s.previous_pick() is None ==> t.previous_pick() is Some,
{
    let draws = choose|draws: Seq<usize>|
        draws.len() == RETRIES && (forall|k: int|
            0 <= k < draws.len() ==> #[trigger] draws[k] < s.situations_seq().len())
            && #[trigger] picked_by(
            draws,
            s.situations_seq(),
            s.previous_pick(),
            t.previous_pick(),
            r,
        );
    if s.previous_pick() is None {
        assert(!all_repeat(draws, s.previous_pick())) by {
            assert(Some(draws[0]) != s.previous_pick());
        }
    }
    if exists|k: int|
        first_fresh(draws, s.previous_pick(), k) && t.previous_pick() == Some(draws[k])
            && same_event(r, #[trigger] s.situations_seq()[draws[k] as int]) {
        let k = choose|k: int|
            first_fresh(draws, s.previous_pick(), k) && t.previous_pick() == Some(draws[k])
                && same_event(r, #[trigger] s.situations_seq()[draws[k] as int]);
        assert(draws[k] < s.situations_seq().len());
    }
}

/// Selecting an event leaves the parameter table as it was, so reading the
/// parameters before and after gives the same records.
pub proof fn lemma_parameters_unaffected(s: AppState, t: AppState, day: nat, r: Event)
    requires
        s.selects(t, day, r),
    ensures
        t.params_seq() == s.params_seq(),
{
}

} // verus!
