//! The element constructors the declaration macros expand to.

use vstd::prelude::*;

use crate::builder::{
    self, event_names, is_choice, is_history, is_initial, is_state, is_transition, Partial,
    PartialObserve,
};
use crate::dsl;
use crate::element::{
    names_view, ActivityFn, DurationFn, EffectFn, EntryFn, ExitFn, FinalizerFn, GuardFn,
    OperationFn, TimepointFn, ValidatorFn,
};
use crate::event::IntoEventName;
use crate::kind;

verus! {

/// Creates a state holding `elements`.
pub fn create_state(name: &str, elements: Vec<Partial>) -> (r: Partial)
    ensures
        is_state(r, name@, elements@),
{
    dsl::state_with_behaviors(name, elements)
}

/// Creates an initial pseudostate whose transition has the one element `target`.
pub fn create_initial(target: Partial) -> (r: Partial)
    ensures
        is_initial(r, seq![target]),
{
    dsl::initial_with_target(target)
}

/// Creates a final state.
pub fn create_final(name: &str) -> (r: Partial)
    ensures
        r matches Partial::FinalState(x) && x.name@ == name@,
{
    builder::final_state(name)
}

/// Creates a choice pseudostate with `transitions`.
pub fn create_choice(name: &str, transitions: Vec<Partial>) -> (r: Partial)
    ensures
        is_choice(r, name@, transitions@),
{
    dsl::choice_with_transitions(name, transitions)
}

/// Creates a shallow history pseudostate.
pub fn create_shallow_history(name: &str, partials: Vec<Partial>) -> (r: Partial)
    ensures
        is_history(r, name@, kind::SHALLOW_HISTORY, partials@),
{
    dsl::shallow_history(name, partials)
}

/// Creates a deep history pseudostate.
pub fn create_deep_history(name: &str, partials: Vec<Partial>) -> (r: Partial)
    ensures
        is_history(r, name@, kind::DEEP_HISTORY, partials@),
{
    dsl::deep_history(name, partials)
}

/// Creates a transition shaped by `elements`.
pub fn create_transition(elements: Vec<Partial>) -> (r: Partial)
    ensures
        is_transition(r, elements@),
{
    dsl::transition(elements)
}

/// Creates a trigger on one event.
pub fn create_trigger(event: &str) -> (r: Partial)
    ensures
        r matches Partial::Trigger(x) && names_view(x.events@) == seq![event@],
{
    builder::on(event)
}

/// Creates a transition source.
pub fn create_source(path: &str) -> (r: Partial)
    ensures
        r matches Partial::Source(x) && x.source@ == path@,
{
    builder::source(path)
}

/// Creates a transition target.
pub fn create_target(path: &str) -> (r: Partial)
    ensures
        r matches Partial::Target(x) && x.target@ == path@,
{
    builder::target(path)
}

/// Creates an entry action.
pub fn create_entry(action: EntryFn) -> (r: Partial)
    ensures
        r matches Partial::Entry(x) && x.operations@ == seq![action],
{
    builder::entry(action)
}

/// Creates an exit action.
pub fn create_exit(action: ExitFn) -> (r: Partial)
    ensures
        r matches Partial::Exit(x) && x.operations@ == seq![action],
{
    builder::exit(action)
}

/// Creates an effect.
pub fn create_effect(action: EffectFn) -> (r: Partial)
    ensures
        r matches Partial::Effect(x) && x.operations@ == seq![action],
{
    builder::effect(action)
}

/// Creates an observer of the named behaviors and transitions.
pub fn create_observe(observer: OperationFn, targets: Vec<String>) -> (r: Partial)
    ensures
        r matches Partial::Observe(x) && x.observer == observer && x.targets@ == targets@,
{
    Partial::Observe(PartialObserve { observer, targets })
}

/// Creates a custom validator.
pub fn create_validator(hook: ValidatorFn) -> (r: Partial)
    ensures
        r matches Partial::Validator(x) && x.validator == hook,
{
    builder::validator(hook)
}

/// Creates a custom finalizer.
pub fn create_finalizer(hook: FinalizerFn) -> (r: Partial)
    ensures
        r matches Partial::Finalizer(x) && x.finalizer == hook,
{
    builder::finalizer(hook)
}

/// Creates a guard.
pub fn create_guard(condition: GuardFn) -> (r: Partial)
    ensures
        r matches Partial::Guard(x) && x.expression == condition,
{
    builder::guard(condition)
}

/// Creates an activity.
pub fn create_activity(activity: ActivityFn) -> (r: Partial)
    ensures
        r matches Partial::Activity(x) && x.operations@ == seq![activity],
{
    builder::activity(activity)
}

/// Creates a timer that fires after a duration.
pub fn create_after(duration_fn: DurationFn) -> (r: Partial)
    ensures
        r matches Partial::After(x) && x.duration_fn == duration_fn,
{
    dsl::after(duration_fn)
}

/// Creates a timer that fires at a point in time.
pub fn create_at(timepoint_fn: TimepointFn) -> (r: Partial)
    ensures
        r matches Partial::At(x) && x.timepoint_fn == timepoint_fn,
{
    dsl::at(timepoint_fn)
}

/// Creates a timer that fires at every period.
pub fn create_every(duration_fn: DurationFn) -> (r: Partial)
    ensures
        r matches Partial::Every(x) && x.duration_fn == duration_fn,
{
    dsl::every(duration_fn)
}

/// Creates a deferral of the events.
pub fn create_defer(events: Vec<&str>) -> (r: Partial)
    ensures
        r matches Partial::Defer(x) && names_view(x.events@) == event_names(events@),
{
    builder::defer(events)
}

} // verus!
