use vstd::prelude::*;
use crate::model::FixedEvent;

verus! {

/// The fixed event `f` triggers on `day`: its interval divides the day.
/// An interval of zero never triggers.
pub open spec fn triggers(f: FixedEvent, day: nat) -> bool {
    f.interval > 0 && day % (f.interval as nat) == 0
}

/// The fixed events are ordered by descending interval.
pub open spec fn sorted_desc(s: Seq<FixedEvent>) -> bool {
    forall|i: int, j: int| 0 <= i < j < s.len() ==> s[i].interval >= s[j].interval
}

/// Index `i` holds the fixed event that `day` resolves to: day zero
/// resolves to none, and otherwise the first entry that triggers wins.
pub open spec fn is_first_trigger(fixed: Seq<FixedEvent>, day: nat, i: int) -> bool {
    &&& day != 0
    &&& 0 <= i < fixed.len()
    &&& triggers(fixed[i], day)
    &&& forall|j: int| 0 <= j < i ==> !triggers(#[trigger] fixed[j], day)
}

/// No fixed event applies to `day`, so the day goes to random sampling.
pub open spec fn no_trigger(fixed: Seq<FixedEvent>, day: nat) -> bool {
    day == 0 || forall|i: int| 0 <= i < fixed.len() ==> !triggers(#[trigger] fixed[i], day)
}

/// The index of the fixed event that `day` resolves to, if any.
pub fn fixed_match(fixed: &Vec<FixedEvent>, day: usize) -> (r: Option<usize>)
    ensures
        r is None <==> no_trigger(fixed@, day as nat),
        r matches Some(i) ==> is_first_trigger(fixed@, day as nat, i as int),
{
    if day == 0 {
        return None;
    }
    let mut i: usize = 0;
    while i < fixed.len()
        invariant
            day != 0,
            i <= fixed.len(),
            forall|j: int| 0 <= j < i ==> !triggers(#[trigger] fixed@[j], day as nat),
        decreases fixed.len() - i,
    {
        let interval = fixed[i].interval;
        if interval > 0 && day % interval == 0 {
            return Some(i);
        }
        i = i + 1;
    }
    None
}

/// The predicate "has interval `x`".
pub open spec fn interval_is(x: usize) -> spec_fn(FixedEvent) -> bool {
    |f: FixedEvent| f.interval == x
}

/// The entries of `s` whose interval is `x`, in their order in `s`.
pub open spec fn with_interval(s: Seq<FixedEvent>, x: usize) -> Seq<FixedEvent> {
    s.filter(interval_is(x))
}

proof fn lemma_with_interval_none(s: Seq<FixedEvent>, x: usize)
    requires
        forall|i: int| 0 <= i < s.len() ==> #[trigger] s[i].interval != x,
    ensures
        with_interval(s, x) =~= Seq::<FixedEvent>::empty(),
    decreases s.len(),
{
    reveal(Seq::filter);
    if s.len() > 0 {
        lemma_with_interval_none(s.drop_last(), x);
    }
}

proof fn lemma_with_interval_single(a: FixedEvent, x: usize)
    ensures
        with_interval(seq![a], x) =~= (if a.interval == x {
            seq![a]
        } else {
            Seq::<FixedEvent>::empty()
        }),
{
    reveal_with_fuel(Seq::filter, 2);
    assert(seq![a].drop_last() =~= Seq::<FixedEvent>::empty());
}

proof fn lemma_insert_to_multiset(s: Seq<FixedEvent>, i: int, a: FixedEvent)
    requires
        0 <= i <= s.len(),
    ensures
        s.insert(i, a).to_multiset() =~= s.to_multiset().insert(a),
{
    broadcast use vstd::seq_lib::group_to_multiset_ensures;

    let t = s.insert(i, a);
    assert(t.remove(i) =~= s);
    assert(t[i] == a);
    assert(t.to_multiset().count(a) > 0) by {
        assert(t.contains(a));
    }
}

/// Orders fixed events by descending interval, keeping every entry; entries
/// of equal interval keep their relative order.
pub fn sort_by_interval_desc(v: Vec<FixedEvent>) -> (r: Vec<FixedEvent>)
    ensures
        sorted_desc(r@),
        r@.to_multiset() == v@.to_multiset(),
        r@.len() == v@.len(),
        forall|x: usize| #[trigger] with_interval(r@, x) == with_interval(v@, x),
{
    broadcast use vstd::seq_lib::group_to_multiset_ensures;

    let ghost input = v@;
    let mut rest = v;
    let mut sorted: Vec<FixedEvent> = Vec::new();
    assert(sorted@.to_multiset().add(rest@.to_multiset()) =~= input.to_multiset());
    assert forall|x: usize| #[trigger]
        with_interval(input, x) == with_interval(rest@, x) + with_interval(sorted@, x) by {
        lemma_with_interval_none(sorted@, x);
        assert(with_interval(rest@, x) + with_interval(sorted@, x) =~= with_interval(rest@, x));
    }
    while rest.len() > 0
        invariant
            sorted_desc(sorted@),
            sorted@.to_multiset().add(rest@.to_multiset()) == input.to_multiset(),
            sorted@.len() + rest@.len() == input.len(),
            forall|x: usize|
                #[trigger] with_interval(input, x) == with_interval(rest@, x) + with_interval(
                    sorted@,
                    x,
                ),
        decreases rest.len(),
    {
        let ghost rest_before = rest@;
        let item = rest.pop().unwrap();
        assert(rest_before =~= rest@.push(item));
        let mut p: usize = 0;
        while p < sorted.len() && sorted[p].interval > item.interval
            invariant
                p <= sorted.len(),
                forall|k: int| 0 <= k < p ==> #[trigger] sorted@[k].interval > item.interval,
            decreases sorted.len() - p,
        {
            p = p + 1;
        }
        let ghost sorted_before = sorted@;
        proof {
            lemma_insert_to_multiset(sorted_before, p as int, item);
        }
        sorted.insert(p, item);
        assert(sorted_desc(sorted@)) by {
            assert forall|i: int, j: int| 0 <= i < j < sorted@.len() implies sorted@[i].interval
                >= sorted@[j].interval by {
                if j < p {
                } else if j == p {
                } else if i < p {
                    assert(sorted@[j] == sorted_before[j - 1]);
                    assert(sorted_before[p as int].interval <= item.interval);
                } else if i == p {
                    assert(sorted@[j] == sorted_before[j - 1]);
                    assert(sorted_before[p as int].interval <= item.interval);
                } else {
                    assert(sorted@[i] == sorted_before[i - 1]);
                    assert(sorted@[j] == sorted_before[j - 1]);
                }
            }
        }
        assert(rest_before.to_multiset() =~= rest@.to_multiset().insert(item)) by {
            vstd::seq_lib::to_multiset_build(rest@, item);
        }
        assert(sorted@.to_multiset() =~= sorted_before.to_multiset().insert(item));
        assert(sorted@.to_multiset().add(rest@.to_multiset()) =~= sorted_before.to_multiset().add(
            rest_before.to_multiset(),
        ));
        let ghost pre = sorted_before.subrange(0, p as int);
        let ghost post = sorted_before.subrange(p as int, sorted_before.len() as int);
        assert(sorted_before =~= pre + post);
        assert(sorted@ =~= (pre + seq![item]) + post);
        assert(rest_before =~= rest@ + seq![item]);
        assert forall|x: usize| #[trigger]
            with_interval(input, x) == with_interval(rest@, x) + with_interval(sorted@, x) by {
            Seq::filter_distributes_over_add(pre, post, interval_is(x));
            Seq::filter_distributes_over_add(pre + seq![item], post, interval_is(x));
            Seq::filter_distributes_over_add(pre, seq![item], interval_is(x));
            Seq::filter_distributes_over_add(rest@, seq![item], interval_is(x));
            lemma_with_interval_single(item, x);
            assert(with_interval(input, x) == with_interval(rest_before, x) + with_interval(
                sorted_before,
                x,
            ));
            if x == item.interval {
                lemma_with_interval_none(pre, x);
                assert(with_interval(rest@, x) + with_interval(sorted@, x) =~= with_interval(
                    rest_before,
                    x,
                ) + with_interval(sorted_before, x));
            } else {
                assert(with_interval(rest@, x) + with_interval(sorted@, x) =~= with_interval(
                    rest_before,
                    x,
                ) + with_interval(sorted_before, x));
            }
        }
    }
    assert(rest@ =~= Seq::<FixedEvent>::empty());
    assert(sorted@.to_multiset().add(rest@.to_multiset()) =~= sorted@.to_multiset());
    assert forall|x: usize| #[trigger] with_interval(sorted@, x) == with_interval(input, x) by {
        lemma_with_interval_none(rest@, x);
        assert(with_interval(rest@, x) + with_interval(sorted@, x) =~= with_interval(sorted@, x));
    }
    sorted
}

} // verus!
