//! The declaration language: the functions a model is written with.

use std::sync::Arc;

use vstd::prelude::*;

use crate::builder::{
    self, event_names, is_behavior_operation, is_choice, is_history, is_initial, is_state,
    is_transition, target_names, BehaviorRole, IntoObservationTarget, Partial, PartialAfter,
    PartialAt, PartialAttribute, PartialChoice, PartialEntryPoint, PartialEvery,
    PartialExitPoint, PartialHistory, PartialInitial, PartialOnSet, PartialState,
    PartialSubmachineState, PartialTransition,
};
use crate::element::{
    names_view, ActivityFn, AttributeValue, DurationFn, EffectFn, EntryFn, ExitFn, FinalizerFn,
    GuardFn, OperationFn, TimepointFn, ValidatorFn,
};
use crate::event::IntoEventName;
use crate::kind;
use crate::model::Model;
use crate::text;
use vstd::std_specs::convert::IntoSpec;

verus! {

/// A state with no elements.
pub fn state(name: &str) -> (r: Partial)
    ensures
        is_state(r, name@, seq![]),
{
    builder::state(name)
}

/// A state holding `behaviors`.
pub fn state_with_behaviors(name: &str, behaviors: Vec<Partial>) -> (r: Partial)
    ensures
        is_state(r, name@, behaviors@),
{
    Partial::State(PartialState { name: text::owned(name), elements: behaviors })
}

/// A state holding `behaviors`.
#[allow(non_snake_case)]
pub fn State(name: &str, behaviors: Vec<Partial>) -> (r: Partial)
    ensures
        is_state(r, name@, behaviors@),
{
    state_with_behaviors(name, behaviors)
}

/// A state holding a copy of `machine`, with `partials` applied inside it.
pub fn submachine_state(name: &str, machine: Model, partials: Vec<Partial>) -> (r: Partial)
    ensures
        r matches Partial::SubmachineState(x) && x.name@ == name@ && x.machine == machine && x.elements@ == partials@,
{
    Partial::SubmachineState(PartialSubmachineState { name: text::owned(name), machine, elements: partials })
}

/// A state holding a copy of `machine`, with `partials` applied inside it.
#[allow(non_snake_case)]
pub fn SubmachineState(name: &str, machine: Model, partials: Vec<Partial>) -> (r: Partial)
    ensures
        r matches Partial::SubmachineState(x) && x.name@ == name@ && x.machine == machine && x.elements@ == partials@,
{
    submachine_state(name, machine, partials)
}

/// An initial pseudostate with no elements.
pub fn initial() -> (r: Partial)
    ensures
        is_initial(r, seq![]),
{
    builder::initial()
}

/// An initial pseudostate whose transition has the one element `target`.
pub fn initial_with_target(target: Partial) -> (r: Partial)
    ensures
        is_initial(r, seq![target]),
{
    proof {
        reveal_strlit(".initial");
        assert(".initial"@ =~= builder::initial_local_name());
    }
    let mut elements: Vec<Partial> = Vec::new();
    let ghost t = target;
    elements.push(target);
    assert(elements@ =~= seq![t]);
    Partial::Initial(PartialInitial { name: text::owned(".initial"), elements })
}

/// An initial pseudostate whose transition has `elements`.
#[allow(non_snake_case)]
pub fn Initial(elements: Vec<Partial>) -> (r: Partial)
    ensures
        is_initial(r, elements@),
{
    proof {
        reveal_strlit(".initial");
        assert(".initial"@ =~= builder::initial_local_name());
    }
    Partial::Initial(PartialInitial { name: text::owned(".initial"), elements })
}

/// A final state.
pub fn final_state(name: &str) -> (r: Partial)
    ensures
        r matches Partial::FinalState(x) && x.name@ == name@,
{
    builder::final_state(name)
}

/// A final state.
pub fn final_(name: &str) -> (r: Partial)
    ensures
        r matches Partial::FinalState(x) && x.name@ == name@,
{
    final_state(name)
}

/// A final state.
#[allow(non_snake_case)]
pub fn Final(name: &str) -> (r: Partial)
    ensures
        r matches Partial::FinalState(x) && x.name@ == name@,
{
    final_state(name)
}

/// A choice pseudostate with no transitions.
pub fn choice(name: &str) -> (r: Partial)
    ensures
        is_choice(r, name@, seq![]),
{
    builder::choice(name)
}

/// A choice pseudostate with `transitions`.
pub fn choice_with_transitions(name: &str, transitions: Vec<Partial>) -> (r: Partial)
    ensures
        is_choice(r, name@, transitions@),
{
    Partial::Choice(PartialChoice { name: text::owned(name), elements: transitions })
}

/// A choice pseudostate with `transitions`.
#[allow(non_snake_case)]
pub fn Choice(name: &str, transitions: Vec<Partial>) -> (r: Partial)
    ensures
        is_choice(r, name@, transitions@),
{
    choice_with_transitions(name, transitions)
}

/// An entry point.
pub fn entry_point(name: &str, partials: Vec<Partial>) -> (r: Partial)
    ensures
        r matches Partial::EntryPoint(x) && x.name@ == name@ && x.elements@ == partials@,
{
    Partial::EntryPoint(PartialEntryPoint { name: text::owned(name), elements: partials })
}

/// An entry point.
#[allow(non_snake_case)]
pub fn EntryPoint(name: &str, partials: Vec<Partial>) -> (r: Partial)
    ensures
        r matches Partial::EntryPoint(x) && x.name@ == name@ && x.elements@ == partials@,
{
    entry_point(name, partials)
}

/// An exit point.
pub fn exit_point(name: &str, partials: Vec<Partial>) -> (r: Partial)
    ensures
        r matches Partial::ExitPoint(x) && x.name@ == name@ && x.elements@ == partials@,
{
    Partial::ExitPoint(PartialExitPoint { name: text::owned(name), elements: partials })
}

/// An exit point.
#[allow(non_snake_case)]
pub fn ExitPoint(name: &str, partials: Vec<Partial>) -> (r: Partial)
    ensures
        r matches Partial::ExitPoint(x) && x.name@ == name@ && x.elements@ == partials@,
{
    exit_point(name, partials)
}

/// A shallow history pseudostate.
pub fn shallow_history(name: &str, partials: Vec<Partial>) -> (r: Partial)
    ensures
        is_history(r, name@, kind::SHALLOW_HISTORY, partials@),
{
    Partial::History(PartialHistory { name: text::owned(name), kind: kind::SHALLOW_HISTORY, elements: partials })
}

/// A shallow history pseudostate.
#[allow(non_snake_case)]
pub fn ShallowHistory(name: &str, partials: Vec<Partial>) -> (r: Partial)
    ensures
        is_history(r, name@, kind::SHALLOW_HISTORY, partials@),
{
    shallow_history(name, partials)
}

/// A deep history pseudostate.
pub fn deep_history(name: &str, partials: Vec<Partial>) -> (r: Partial)
    ensures
        is_history(r, name@, kind::DEEP_HISTORY, partials@),
{
    Partial::History(PartialHistory { name: text::owned(name), kind: kind::DEEP_HISTORY, elements: partials })
}

/// A deep history pseudostate.
#[allow(non_snake_case)]
pub fn DeepHistory(name: &str, partials: Vec<Partial>) -> (r: Partial)
    ensures
        is_history(r, name@, kind::DEEP_HISTORY, partials@),
{
    deep_history(name, partials)
}

/// An entry action.
pub fn entry(function: EntryFn) -> (r: Partial)
    ensures
        r matches Partial::Entry(x) && x.operations@ == seq![function],
{
    builder::entry(function)
}

/// An entry action.
#[allow(non_snake_case)]
pub fn Entry(function: EntryFn) -> (r: Partial)
    ensures
        r matches Partial::Entry(x) && x.operations@ == seq![function],
{
    entry(function)
}

/// An exit action.
pub fn exit(function: ExitFn) -> (r: Partial)
    ensures
        r matches Partial::Exit(x) && x.operations@ == seq![function],
{
    builder::exit(function)
}

/// An exit action.
#[allow(non_snake_case)]
pub fn Exit(function: ExitFn) -> (r: Partial)
    ensures
        r matches Partial::Exit(x) && x.operations@ == seq![function],
{
    exit(function)
}

/// An activity.
pub fn activity(function: ActivityFn) -> (r: Partial)
    ensures
        r matches Partial::Activity(x) && x.operations@ == seq![function],
{
    builder::activity(function)
}

/// An activity.
#[allow(non_snake_case)]
pub fn Activity(function: ActivityFn) -> (r: Partial)
    ensures
        r matches Partial::Activity(x) && x.operations@ == seq![function],
{
    activity(function)
}

/// A transition shaped by `conditions`.
pub fn transition(conditions: Vec<Partial>) -> (r: Partial)
    ensures
        is_transition(r, conditions@),
{
    Partial::Transition(PartialTransition { name: String::new(), elements: conditions })
}

/// A transition shaped by `conditions`.
#[allow(non_snake_case)]
pub fn Transition(conditions: Vec<Partial>) -> (r: Partial)
    ensures
        is_transition(r, conditions@),
{
    transition(conditions)
}

/// A trigger on one event.
pub fn on<E: IntoEventName>(event: E) -> (r: Partial)
    ensures
        r matches Partial::Trigger(x) && names_view(x.events@) == seq![event.spec_event_name()],
{
    builder::on(event)
}

/// A trigger on one event.
#[allow(non_snake_case)]
pub fn On<E: IntoEventName>(event: E) -> (r: Partial)
    ensures
        r matches Partial::Trigger(x) && names_view(x.events@) == seq![event.spec_event_name()],
{
    on(event)
}

/// A trigger on a call of the named operation.
pub fn on_call(name: &str) -> (r: Partial)
    ensures
        r matches Partial::OnCall(x) && x.name@ == name@,
{
    builder::on_call(name)
}

/// A trigger on a call of the named operation.
#[allow(non_snake_case)]
pub fn OnCall(name: &str) -> (r: Partial)
    ensures
        r matches Partial::OnCall(x) && x.name@ == name@,
{
    on_call(name)
}

/// A trigger on a change of the named attribute.
pub fn on_set(name: &str) -> (r: Partial)
    ensures
        r matches Partial::OnSet(x) && x.name@ == name@,
{
    Partial::OnSet(PartialOnSet { name: text::owned(name) })
}

/// A trigger on a change of the named attribute.
#[allow(non_snake_case)]
pub fn OnSet(name: &str) -> (r: Partial)
    ensures
        r matches Partial::OnSet(x) && x.name@ == name@,
{
    on_set(name)
}

/// A trigger on a change of the named attribute.
pub fn when(name: &str) -> (r: Partial)
    ensures
        r matches Partial::OnSet(x) && x.name@ == name@,
{
    on_set(name)
}

/// A trigger on a change of the named attribute.
#[allow(non_snake_case)]
pub fn When(name: &str) -> (r: Partial)
    ensures
        r matches Partial::OnSet(x) && x.name@ == name@,
{
    on_set(name)
}

/// An attribute with a default value.
pub fn attribute<V: Into<AttributeValue>>(name: &str, default_value: V) -> (r: Partial)
    ensures
        r matches Partial::Attribute(x) && x.name@ == name@ && x.default_value is Some && (V::obeys_into_spec() ==> *x.default_value->0 == default_value.into_spec()),
{
    Partial::Attribute(PartialAttribute { name: text::owned(name), default_value: Some(Arc::new(default_value.into())) })
}

/// An attribute with a default value.
#[allow(non_snake_case)]
pub fn Attribute<V: Into<AttributeValue>>(name: &str, default_value: V) -> (r: Partial)
    ensures
        r matches Partial::Attribute(x) && x.name@ == name@ && x.default_value is Some && (V::obeys_into_spec() ==> *x.default_value->0 == default_value.into_spec()),
{
    attribute(name, default_value)
}

/// A guard.
pub fn guard(function: GuardFn) -> (r: Partial)
    ensures
        r matches Partial::Guard(x) && x.expression == function,
{
    builder::guard(function)
}

/// A guard.
#[allow(non_snake_case)]
pub fn Guard(function: GuardFn) -> (r: Partial)
    ensures
        r matches Partial::Guard(x) && x.expression == function,
{
    guard(function)
}

/// An operation with an action.
pub fn operation(name: &str, function: OperationFn) -> (r: Partial)
    ensures
        r matches Partial::Operation(x) && x.name@ == name@ && x.action == function,
{
    builder::operation(name, function)
}

/// An operation with an action.
#[allow(non_snake_case)]
pub fn Operation(name: &str, function: OperationFn) -> (r: Partial)
    ensures
        r matches Partial::Operation(x) && x.name@ == name@ && x.action == function,
{
    operation(name, function)
}

/// An operation with a guard.
pub fn guard_operation(name: &str, function: GuardFn) -> (r: Partial)
    ensures
        r matches Partial::GuardOperation(x) && x.name@ == name@ && x.guard == function,
{
    builder::guard_operation(name, function)
}

/// Runs the named operation on entry.
pub fn entry_operation(name: &str) -> (r: Partial)
    ensures
        is_behavior_operation(r, name@, BehaviorRole::Entry),
{
    builder::entry_operation(name)
}

/// Runs the named operation on exit.
pub fn exit_operation(name: &str) -> (r: Partial)
    ensures
        is_behavior_operation(r, name@, BehaviorRole::Exit),
{
    builder::exit_operation(name)
}

/// Runs the named operation as an activity.
pub fn activity_operation(name: &str) -> (r: Partial)
    ensures
        is_behavior_operation(r, name@, BehaviorRole::Activity),
{
    builder::activity_operation(name)
}

/// Runs the named operation as an effect.
pub fn effect_operation(name: &str) -> (r: Partial)
    ensures
        is_behavior_operation(r, name@, BehaviorRole::Effect),
{
    builder::effect_operation(name)
}

/// Guards with the named operation.
pub fn guard_operation_ref(name: &str) -> (r: Partial)
    ensures
        r matches Partial::GuardOperationRef(x) && x.name@ == name@,
{
    builder::guard_operation_ref(name)
}

/// An effect.
pub fn effect(function: EffectFn) -> (r: Partial)
    ensures
        r matches Partial::Effect(x) && x.operations@ == seq![function],
{
    builder::effect(function)
}

/// An effect.
#[allow(non_snake_case)]
pub fn Effect(function: EffectFn) -> (r: Partial)
    ensures
        r matches Partial::Effect(x) && x.operations@ == seq![function],
{
    effect(function)
}

/// An observer of the named behaviors and transitions (all when none is named).
pub fn observe<E: IntoObservationTarget>(observer: OperationFn, targets: Vec<E>) -> (r: Partial)
    ensures
        r matches Partial::Observe(x) && x.observer == observer && names_view(x.targets@) == target_names(targets@),
{
    builder::observe(observer, targets)
}

/// An observer of the named behaviors and transitions (all when none is named).
#[allow(non_snake_case)]
pub fn Observe<E: IntoObservationTarget>(observer: OperationFn, targets: Vec<E>) -> (r: Partial)
    ensures
        r matches Partial::Observe(x) && x.observer == observer && names_view(x.targets@) == target_names(targets@),
{
    observe(observer, targets)
}

/// A custom validator.
pub fn validator(hook: ValidatorFn) -> (r: Partial)
    ensures
        r matches Partial::Validator(x) && x.validator == hook,
{
    builder::validator(hook)
}

/// A custom validator.
#[allow(non_snake_case)]
pub fn Validator(hook: ValidatorFn) -> (r: Partial)
    ensures
        r matches Partial::Validator(x) && x.validator == hook,
{
    builder::validator(hook)
}

/// A custom finalizer.
pub fn finalizer(hook: FinalizerFn) -> (r: Partial)
    ensures
        r matches Partial::Finalizer(x) && x.finalizer == hook,
{
    builder::finalizer(hook)
}

/// A custom finalizer.
#[allow(non_snake_case)]
pub fn Finalizer(hook: FinalizerFn) -> (r: Partial)
    ensures
        r matches Partial::Finalizer(x) && x.finalizer == hook,
{
    builder::finalizer(hook)
}

/// The source of the enclosing transition.
pub fn source(path: &str) -> (r: Partial)
    ensures
        r matches Partial::Source(x) && x.source@ == path@,
{
    builder::source(path)
}

/// The source of the enclosing transition.
#[allow(non_snake_case)]
pub fn Source(path: &str) -> (r: Partial)
    ensures
        r matches Partial::Source(x) && x.source@ == path@,
{
    source(path)
}

/// The target of the enclosing transition.
pub fn target(path: &str) -> (r: Partial)
    ensures
        r matches Partial::Target(x) && x.target@ == path@,
{
    builder::target(path)
}

/// The target of the enclosing transition.
#[allow(non_snake_case)]
pub fn Target(path: &str) -> (r: Partial)
    ensures
        r matches Partial::Target(x) && x.target@ == path@,
{
    target(path)
}

/// Fires the enclosing transition after a duration.
pub fn after(duration_fn: DurationFn) -> (r: Partial)
    ensures
        r matches Partial::After(x) && x.duration_fn == duration_fn,
{
    Partial::After(PartialAfter { duration_fn })
}

/// Fires the enclosing transition after a duration.
#[allow(non_snake_case)]
pub fn After(duration_fn: DurationFn) -> (r: Partial)
    ensures
        r matches Partial::After(x) && x.duration_fn == duration_fn,
{
    after(duration_fn)
}

/// Fires the enclosing transition at a point in time.
pub fn at(timepoint_fn: TimepointFn) -> (r: Partial)
    ensures
        r matches Partial::At(x) && x.timepoint_fn == timepoint_fn,
{
    Partial::At(PartialAt { timepoint_fn })
}

/// Fires the enclosing transition at a point in time.
#[allow(non_snake_case)]
pub fn At(timepoint_fn: TimepointFn) -> (r: Partial)
    ensures
        r matches Partial::At(x) && x.timepoint_fn == timepoint_fn,
{
    at(timepoint_fn)
}

/// Fires the enclosing transition at every period.
pub fn every(duration_fn: DurationFn) -> (r: Partial)
    ensures
        r matches Partial::Every(x) && x.duration_fn == duration_fn,
{
    Partial::Every(PartialEvery { duration_fn })
}

/// Fires the enclosing transition at every period.
#[allow(non_snake_case)]
pub fn Every(duration_fn: DurationFn) -> (r: Partial)
    ensures
        r matches Partial::Every(x) && x.duration_fn == duration_fn,
{
    every(duration_fn)
}

/// Defers the events in the enclosing state.
#[allow(non_snake_case)]
pub fn Defer<E: IntoEventName>(events: Vec<E>) -> (r: Partial)
    ensures
        r matches Partial::Defer(x) && names_view(x.events@) == event_names(events@),
{
    defer(events)
}

/// Defers the events in the enclosing state.
pub fn defer<E: IntoEventName>(events: Vec<E>) -> (r: Partial)
    ensures
        r matches Partial::Defer(x) && names_view(x.events@) == event_names(events@),
{
    builder::defer(events)
}

} // verus!
