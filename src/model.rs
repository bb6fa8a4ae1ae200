use vstd::prelude::*;

verus! {

/// Deltas that an action applies to the running parameter totals.
#[derive(Clone, Copy, Debug, PartialEq, Eq, Structural)]
pub struct Effects {
    pub administration: i8,
    pub colleagues: i8,
    pub parents: i8,
    pub students: i8,
    pub free_time: i8,
}

/// One choice a player may take in response to an event.
#[derive(Clone, Debug, PartialEq, Eq)]
pub struct Action {
    pub description: String,
    pub effects: Effects,
}

/// A scenario with its selectable actions.
#[derive(Clone, Debug, PartialEq, Eq)]
pub struct Event {
    pub description: String,
    pub actions: Vec<Action>,
}

/// An event that triggers on every day that is a multiple of `interval`.
#[derive(Clone, Debug, PartialEq, Eq)]
pub struct FixedEvent {
    pub interval: usize,
    pub description: String,
    pub actions: Vec<Action>,
}

/// Display and threshold metadata of one tracked parameter.
#[derive(Clone, Debug, PartialEq, Eq)]
pub struct Parameter {
    pub label: String,
    pub id: String,
    pub value: i8,
    pub message: String,
    pub warn: String,
    pub color: String,
}

/// `e` holds the description and the actions of `f`.
pub open spec fn same_event(e: Event, f: Event) -> bool {
    e.description == f.description && e.actions@ == f.actions@
}

/// `e` holds the description and the actions of the fixed event `f`.
pub open spec fn shows_fixed(e: Event, f: FixedEvent) -> bool {
    e.description == f.description && e.actions@ == f.actions@
}

impl Action {
    /// A copy equal to `self`.
    pub fn duplicate(&self) -> (r: Action)
        ensures
            r == *self,
    {
        Action { description: self.description.clone(), effects: self.effects }
    }
}

/// A copy of a sequence of actions, element for element.
pub fn duplicate_actions(actions: &Vec<Action>) -> (r: Vec<Action>)
    ensures
        r@ == actions@,
{
    let mut r: Vec<Action> = Vec::new();
    let mut i: usize = 0;
    while i < actions.len()
        invariant
            i <= actions.len(),
            r@ == actions@.subrange(0, i as int),
        decreases actions.len() - i,
    {
        r.push(actions[i].duplicate());
        i = i + 1;
    }
    assert(r@ =~= actions@);
    r
}

impl Event {
    /// A copy equal to `self`.
    pub fn duplicate(&self) -> (r: Event)
        ensures
            same_event(r, *self),
    {
        Event { description: self.description.clone(), actions: duplicate_actions(&self.actions) }
    }
}

impl FixedEvent {
    /// A copy of this fixed event's description and actions as an event.
    pub fn to_event(&self) -> (r: Event)
        ensures
            shows_fixed(r, *self),
    {
        Event { description: self.description.clone(), actions: duplicate_actions(&self.actions) }
    }
}

impl Parameter {
    /// A copy equal to `self`.
    pub fn duplicate(&self) -> (r: Parameter)
        ensures
            r == *self,
    {
        Parameter {
            label: self.label.clone(),
            id: self.id.clone(),
            value: self.value,
            message: self.message.clone(),
            warn: self.warn.clone(),
            color: self.color.clone(),
        }
    }
}

/// A copy of a sequence of parameters, element for element.
pub fn duplicate_parameters(params: &Vec<Parameter>) -> (r: Vec<Parameter>)
    ensures
        r@ == params@,
{
    let mut r: Vec<Parameter> = Vec::new();
    let mut i: usize = 0;
    while i < params.len()
        invariant
            i <= params.len(),
            r@ == params@.subrange(0, i as int),
        decreases params.len() - i,
    {
        r.push(params[i].duplicate());
        i = i + 1;
    }
    assert(r@ =~= params@);
    r
}

} // verus!
