use vstd::prelude::*;
use rand::Rng;
use crate::model::{Event, FixedEvent, Parameter, same_event, shows_fixed, duplicate_parameters};
use crate::content::{
    triggers,
    sorted_desc,
    is_first_trigger,
    no_trigger,
    fixed_match,
    sort_by_interval_desc,
    with_interval,
};

verus! {

/// The smallest number of situations the random pool may hold.
pub const MIN_SITUATIONS: usize = 3;

/// How many random draws are tried before falling back to the first situation.
pub const RETRIES: usize = 10;

/// Why the content could not be accepted at startup.
#[derive(Clone, Copy, Debug, PartialEq, Eq, Structural)]
pub enum ConfigError {
    /// The situations pool holds fewer than `MIN_SITUATIONS` entries.
    TooFewSituations { found: usize },
}

/// `k` is the first draw that differs from the previous pick.
pub open spec fn first_fresh(draws: Seq<usize>, prev: Option<usize>, k: int) -> bool {
    &&& 0 <= k < draws.len()
    &&& Some(draws[k]) != prev
    &&& forall|j: int| 0 <= j < k ==> Some(#[trigger] draws[j]) == prev
}

/// Every draw repeats the previous pick.
pub open spec fn all_repeat(draws: Seq<usize>, prev: Option<usize>) -> bool {
    forall|j: int| 0 <= j < draws.len() ==> Some(#[trigger] draws[j]) == prev
}

/// The outcome of repeat-avoidance sampling over `draws`: the first draw
/// that differs from `prev` is taken and becomes `next`; when every draw
/// repeats `prev`, the first situation is returned and `next` stays `prev`.
pub open spec fn picked_by(
    draws: Seq<usize>,
    situations: Seq<Event>,
    prev: Option<usize>,
    next: Option<usize>,
    r: Event,
) -> bool {
    ||| exists|k: int|
        first_fresh(draws, prev, k) && next == Some(draws[k]) && same_event(
            r,
            #[trigger] situations[draws[k] as int],
        )
    ||| all_repeat(draws, prev) && next == prev && same_event(r, situations[0])
}

/// The loaded content together with the index of the last random pick.
pub struct AppState {
    events: Vec<Event>,
    previous_situation_idx: Option<usize>,
    fixed_events: Vec<FixedEvent>,
    parameters: Vec<Parameter>,
}

impl AppState {
    /// The pool of random situations.
    pub closed spec fn situations_seq(&self) -> Seq<Event> {
        self.events@
    }

    /// The fixed events, in the order they are scanned.
    pub closed spec fn fixed_seq(&self) -> Seq<FixedEvent> {
        self.fixed_events@
    }

    /// The parameter table.
    pub closed spec fn params_seq(&self) -> Seq<Parameter> {
        self.parameters@
    }

    /// The index of the last random pick; `None` before the first one.
    pub closed spec fn previous_pick(&self) -> Option<usize> {
        self.previous_situation_idx
    }

    /// The pool is large enough, the fixed events are in descending
    /// interval order, and the last pick is an index of the pool.
    pub open spec fn wf(&self) -> bool {
        &&& self.situations_seq().len() >= MIN_SITUATIONS
        &&& sorted_desc(self.fixed_seq())
        &&& self.previous_pick() matches Some(p) ==> p < self.situations_seq().len()
    }

    /// `next` and `r` are what selecting the event of `day` from `self` may
    /// give: the resolving fixed event, with the last pick kept; or, when no
    /// fixed event applies, the outcome of sampling over some `RETRIES`
    /// draws from the pool. The tables are left as they were.
    pub open spec fn selects(&self, next: AppState, day: nat, r: Event) -> bool {
        &&& next.situations_seq() == self.situations_seq()
        &&& next.fixed_seq() == self.fixed_seq()
        &&& next.params_seq() == self.params_seq()
        &&& forall|i: int|
            is_first_trigger(self.fixed_seq(), day, i) ==> shows_fixed(r, #[trigger] self.fixed_seq()[i])
                && next.previous_pick() == self.previous_pick()
        &&& no_trigger(self.fixed_seq(), day) ==> exists|draws: Seq<usize>|
            draws.len() == RETRIES && (forall|k: int|
                0 <= k < draws.len() ==> #[trigger] draws[k] < self.situations_seq().len())
                && #[trigger] picked_by(
                draws,
                self.situations_seq(),
                self.previous_pick(),
                next.previous_pick(),
                r,
            )
    }

    /// Builds the state from the three content tables: fails when the pool
    /// of situations is too small, and otherwise orders the fixed events by
    /// descending interval, keeping the order of those of equal interval.
    pub fn new(situations: Vec<Event>, fixed_events: Vec<FixedEvent>, parameters: Vec<Parameter>) -> (r:
        Result<AppState, ConfigError>)
        ensures
            situations@.len() < MIN_SITUATIONS <==> r is Err,
            r is Err ==> r == Err::<AppState, ConfigError>(
                ConfigError::TooFewSituations { found: situations.len() },
            ),
            r matches Ok(s) ==> {
                &&& s.wf()
                &&& s.situations_seq() == situations@
                &&& s.fixed_seq().to_multiset() == fixed_events@.to_multiset()
                &&& s.fixed_seq().len() == fixed_events@.len()
                &&& forall|x: usize| #[trigger] with_interval(s.fixed_seq(), x) == with_interval(fixed_events@, x)
                &&& s.params_seq() == parameters@
                &&& s.previous_pick() is None
            },
    {
        if situations.len() < MIN_SITUATIONS {
            return Err(ConfigError::TooFewSituations { found: situations.len() });
        }
        let fixed_events = sort_by_interval_desc(fixed_events);
        Ok(AppState { events: situations, previous_situation_idx: None, fixed_events, parameters })
    }

    /// The pool of random situations.
    pub fn situations(&self) -> (r: &Vec<Event>)
        ensures
            r@ == self.situations_seq(),
    {
        &self.events
    }

    /// The fixed events, ordered by descending interval.
    pub fn fixed_events(&self) -> (r: &Vec<FixedEvent>)
        ensures
            r@ == self.fixed_seq(),
    {
        &self.fixed_events
    }

    /// The index of the last random pick; `None` before the first one.
    pub fn previous_index(&self) -> (r: Option<usize>)
        ensures
            r == self.previous_pick(),
    {
        self.previous_situation_idx
    }

    /// Takes the first of `draws` that differs from the last pick and records
    /// it; falls back to the first situation when every draw repeats it.
    fn pick_situation(&mut self, draws: &Vec<usize>) -> (r: Event)
        requires
            old(self).wf(),
            forall|k: int| 0 <= k < draws@.len() ==> #[trigger] draws@[k] < old(self).situations_seq().len(),
        ensures
            final(self).wf(),
            final(self).situations_seq() == old(self).situations_seq(),
            final(self).fixed_seq() == old(self).fixed_seq(),
            final(self).params_seq() == old(self).params_seq(),
            picked_by(
                draws@,
                old(self).situations_seq(),
                old(self).previous_pick(),
                final(self).previous_pick(),
                r,
            ),
    {
        let mut k: usize = 0;
        while k < draws.len()
            invariant
                *self == *old(self),
                self.wf(),
                k <= draws.len(),
                forall|k: int| 0 <= k < draws@.len() ==> #[trigger] draws@[k] < self.events@.len(),
                forall|j: int| 0 <= j < k ==> Some(#[trigger] draws@[j]) == self.previous_situation_idx,
            decreases draws.len() - k,
        {
            let idx = draws[k];
            if Some(idx) != self.previous_situation_idx {
                let r = self.events[idx].duplicate();
                assert(first_fresh(draws@, self.previous_situation_idx, k as int));
                self.previous_situation_idx = Some(idx);
                return r;
            }
            k = k + 1;
        }
        self.events[0].duplicate()
    }

    /// The event of `day`, given the `RETRIES` random indices to sample
    /// with: the first fixed event, in descending interval order, whose
    /// interval divides a non-zero `day`; otherwise the first draw that
    /// differs from the last pick, which becomes the last pick; otherwise the
    /// first situation.
    pub fn select_event(&mut self, day: usize, draws: &Vec<usize>) -> (r: Event)
        requires
            old(self).wf(),
            draws@.len() == RETRIES,
            forall|k: int| 0 <= k < draws@.len() ==> #[trigger] draws@[k] < old(self).situations_seq().len(),
        ensures
            final(self).wf(),
            old(self).selects(*final(self), day as nat, r),
            !no_trigger(old(self).fixed_seq(), day as nat) ==> final(self).previous_pick()
                == old(self).previous_pick(),
            no_trigger(old(self).fixed_seq(), day as nat) ==> picked_by(
                draws@,
                old(self).situations_seq(),
                old(self).previous_pick(),
                final(self).previous_pick(),
                r,
            ),
    {
        match fixed_match(&self.fixed_events, day) {
            Some(i) => {
                let r = self.fixed_events[i].to_event();
                assert forall|j: int| is_first_trigger(self.fixed_seq(), day as nat, j) implies j
                    == i as int by {
                    if j < i {
                        assert(!triggers(self.fixed_seq()[j], day as nat));
                    } else if j > i {
                        assert(!triggers(self.fixed_seq()[i as int], day as nat));
                    }
                }
                r
            },
            None => {
                let r = self.pick_situation(draws);
                r
            },
        }
    }

    /// The event of `day`: fixed events first, then repeat-avoidance random
    /// sampling over the pool (see `select_event`).
    pub fn get_event(&mut self, day: usize) -> (r: Event)
        requires
            old(self).wf(),
        ensures
            final(self).wf(),
            old(self).selects(*final(self), day as nat, r),
    {
        let n = self.events.len();
        let mut draws: Vec<usize> = Vec::new();
        let mut k: usize = 0;
        while k < RETRIES
            invariant
                n == self.events@.len(),
                n >= MIN_SITUATIONS,
                k <= RETRIES,
                draws@.len() == k,
                forall|j: int| 0 <= j < k ==> #[trigger] draws@[j] < n,
            decreases RETRIES - k,
        {
            draws.push(random_index(n));
            k = k + 1;
        }
        self.select_event(day, &draws)
    }

    /// A copy of the parameter table.
    pub fn get_parameters(&self) -> (r: Vec<Parameter>)
        ensures
            r@ == self.params_seq(),
    {
        duplicate_parameters(&self.parameters)
    }
}

/// Relies on rand's `thread_rng().gen_range(0..n)`: an index drawn
/// uniformly below `n`. It panics on an empty range, hence `n > 0`.
#[verifier::external_body]
fn random_index(n: usize) -> (r: usize)
    requires
        n > 0,
    ensures
        r < n,
{
    rand::thread_rng().gen_range(0..n)
}

} // verus!
