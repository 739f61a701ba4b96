//! The rules a finished model must follow before it runs.

use vstd::prelude::*;

use crate::assoc::{self, has_key};
use crate::builder::spec_member_name_under;
use crate::element::{
    contains_name, names_view, Attribute, Behavior, BehaviorOperationView, BehaviorView,
    Constraint, ElementVariant, ElementView, ModelValidator, Operation, Transition,
    TransitionView, Vertex, VertexView,
};
use crate::error::HsmError;
use crate::kind::{self, spec_is_kind};
use crate::model::Model;
use crate::path::{self, spec_basename, spec_dirname, spec_is_ancestor_or_equal, spec_join};
use crate::text::{self, has_prefix, trim_end, trim_start};

verus! {

/// A validation failure with this message.
fn fail(message: String) -> (r: Result<(), HsmError>)
    ensures
        r matches Err(HsmError::Validation(m)) && m@ == message@,
{
    Err(HsmError::Validation(message))
}

/// `a`, then `b`, then `c`, then `d`.
fn concat4(a: &str, b: &str, c: &str, d: &str) -> (r: String)
    ensures
        r@ == a@ + b@ + c@ + d@,
{
    let ab = text::concat(a, b);
    text::concat3(ab.as_str(), c, d)
}

/// `a`, then `b`, then `c`, then `d`, then `e`.
fn concat5(a: &str, b: &str, c: &str, d: &str, e: &str) -> (r: String)
    ensures
        r@ == a@ + b@ + c@ + d@ + e@,
{
    let abcd = concat4(a, b, c, d);
    text::concat(abcd.as_str(), e)
}

/// The machine's name is one non-empty segment.
pub open spec fn model_name_ok(m: Model) -> bool {
    let name = trim_start(m.root(), '/');
    name.len() > 0 && !name.contains('/')
}

/// The message for a machine whose name breaks its rule.
pub open spec fn name_message(m: Model) -> Seq<char> {
    let name = trim_start(m.root(), '/');
    if name.len() == 0 {
        "model name cannot be empty"@
    } else {
        "model name '"@ + name + "'"@ + " cannot contain '/'"@
    }
}

/// The message for a machine whose initial pseudostate is not a member.
pub open spec fn initial_not_found_message(m: Model) -> Seq<char> {
    "Initial vertex '"@ + m.state.initial@ + "' not found for state machine '"@ + m.root() + "'"@
}

/// The message for a final state that holds something.
pub open spec fn final_message(name: Seq<char>) -> Seq<char> {
    "Final state '"@ + name + "'"@
        + " cannot have transitions, entry/exit actions, activities, initial transitions, defer events, or child states"@
}

/// Every final state holds nothing.
pub open spec fn finals_ok(m: Model) -> bool {
    forall|j: int| 0 <= j < m.members@.len() ==> match #[trigger] m.members@[j].1 {
        ElementVariant::State(s) => final_state_ok(m, m.members@[j].0@, s@),
        _ => true,
    }
}

/// The member at `i` is the first final state that holds something.
pub open spec fn first_bad_final(m: Model, i: int) -> bool {
    &&& 0 <= i < m.members@.len()
    &&& m.members@[i].1 matches ElementVariant::State(s) && !final_state_ok(m, m.members@[i].0@, s@)
    &&& forall|j: int| 0 <= j < i ==> match #[trigger] m.members@[j].1 {
        ElementVariant::State(s) => final_state_ok(m, m.members@[j].0@, s@),
        _ => true,
    }
}

/// The message for the first final state that holds something.
pub open spec fn first_final_message(m: Model) -> Seq<char> {
    final_message(m.members@[choose|i: int| first_bad_final(m, i)].0@)
}

proof fn lemma_first_bad_final_unique(m: Model, i: int)
    requires
        first_bad_final(m, i),
    ensures
        (choose|k: int| first_bad_final(m, k)) == i,
{
    let k = choose|k: int| first_bad_final(m, k);
    assert(first_bad_final(m, k));
    if k < i {
        assert(match m.members@[k].1 {
            ElementVariant::State(s) => final_state_ok(m, m.members@[k].0@, s@),
            _ => true,
        });
    } else if i < k {
        assert(match m.members@[i].1 {
            ElementVariant::State(s) => final_state_ok(m, m.members@[i].0@, s@),
            _ => true,
        });
    }
}

fn validate_model_name(model: &Model) -> (r: Result<(), HsmError>)
    ensures
        r is Ok <==> model_name_ok(*model),
        r is Err ==> r matches Err(HsmError::Validation(_)),
        r matches Err(HsmError::Validation(msg)) ==> msg@ == name_message(*model),
{
    let model_name = text::trim_start_char(model.state.vertex.element.qualified_name.as_str(), '/');
    if model_name.unicode_len() == 0 {
        proof {
            reveal_strlit("model name cannot be empty");
        }
        return fail(text::owned("model name cannot be empty"));
    }
    if text::contains_char(model_name, '/') {
        return fail(concat4("model name '", model_name, "'", " cannot contain '/'"));
    }
    Ok(())
}

/// A name relative to the machine, when it lies below it.
pub open spec fn model_member_name(m: Model, qualified_name: Seq<char>) -> Seq<char> {
    spec_member_name_under(m.root(), qualified_name)
}

fn model_member_name_of(model: &Model, qualified_name: &str) -> (r: String)
    ensures
        r@ == model_member_name(*model, qualified_name@),
{
    proof {
        reveal_strlit("/");
        assert("/"@ =~= seq!['/']);
    }
    let prefix = text::concat(text::trim_end_char(model.state.vertex.element.qualified_name.as_str(), '/'), "/");
    match text::strip_prefix(qualified_name, prefix.as_str()) {
        Some(relative) => text::owned(relative),
        None => text::owned(qualified_name),
    }
}

/// A name relative to the machine is one non-empty segment.
pub open spec fn segment_ok(name: Seq<char>) -> bool {
    name.len() > 0 && !name.contains('/')
}

/// An attribute is stored under its own name, is one segment below the
/// machine, and its default has its declared type.
pub open spec fn attribute_ok(m: Model, name: Seq<char>, a: Attribute) -> bool {
    &&& a@.element.qualified_name == name
    &&& segment_ok(model_member_name(m, name))
    &&& !(a@.value_type is Some && a@.default_type is Some && a@.default_type != a@.value_type)
}

fn validate_attribute_declaration(model: &Model, name: &str, attribute: &Attribute) -> (r: Result<(), HsmError>)
    ensures
        r is Ok <==> attribute_ok(*model, name@, *attribute),
        r is Err ==> r matches Err(HsmError::Validation(_)),
{
    if !text::str_eq(attribute.element.qualified_name.as_str(), name) {
        return fail(concat5("Attribute '", name, "' qualified name mismatch '", attribute.element.qualified_name.as_str(), "'"));
    }
    let attribute_name = model_member_name_of(model, name);
    if attribute_name.unicode_len() == 0 {
        return fail(text::owned("attribute name cannot be empty"));
    }
    if text::contains_char(attribute_name.as_str(), '/') {
        return fail(concat4("attribute name \"", attribute_name.as_str(), "\"", " cannot contain \"/\""));
    }
    match (&attribute.value_type, &attribute.default_value) {
        (Some(value_type), Some(default_value)) => {
            if default_value.value_type() != *value_type {
                return fail(concat4("attribute \"", attribute_name.as_str(), "\"", " default does not match declared type"));
            }
        },
        _ => {},
    }
    Ok(())
}

/// An operation is stored under its own name and is one segment below the
/// machine.
pub open spec fn operation_ok(m: Model, name: Seq<char>, o: Operation) -> bool {
    &&& o@.element.qualified_name == name
    &&& segment_ok(model_member_name(m, name))
}

fn validate_operation_declaration(model: &Model, name: &str, operation: &Operation) -> (r: Result<(), HsmError>)
    ensures
        r is Ok <==> operation_ok(*model, name@, *operation),
        r is Err ==> r matches Err(HsmError::Validation(_)),
{
    if !text::str_eq(operation.element.qualified_name.as_str(), name) {
        return fail(concat5("Operation '", name, "' qualified name mismatch '", operation.element.qualified_name.as_str(), "'"));
    }
    validate_operation_reference_name(model, name)
}

/// A referenced operation is one segment below the machine.
pub open spec fn operation_reference_ok(m: Model, qualified_name: Seq<char>) -> bool {
    segment_ok(model_member_name(m, qualified_name))
}

fn validate_operation_reference_name(model: &Model, qualified_name: &str) -> (r: Result<(), HsmError>)
    ensures
        r is Ok <==> operation_reference_ok(*model, qualified_name@),
        r is Err ==> r matches Err(HsmError::Validation(_)),
{
    let operation_name = model_member_name_of(model, qualified_name);
    if operation_name.unicode_len() == 0 {
        return fail(text::owned("operation name cannot be empty"));
    }
    if text::contains_char(operation_name.as_str(), '/') {
        return fail(concat4("operation name \"", operation_name.as_str(), "\"", " cannot contain \"/\""));
    }
    Ok(())
}

/// The behavior is listed by the state or transition that owns it, in the
/// list its role calls for; entry, exit and activity behaviors belong to a
/// state other than the machine.
pub open spec fn behavior_owner_ok(m: Model, name: Seq<char>, b: BehaviorView) -> bool {
    let owner = spec_dirname(name);
    if b.entry is Some {
        owner != m.root() && (m.state_of(owner) matches Some(s) && s.entry.contains(name))
    } else if b.exit is Some {
        owner != m.root() && (m.state_of(owner) matches Some(s) && s.exit.contains(name))
    } else if b.activity is Some {
        owner != m.root() && (m.state_of(owner) matches Some(s) && s.activities.contains(name))
    } else if b.effect is Some {
        m.transition_of(owner) matches Some(t) && t.effect.contains(name)
    } else if b.operation is Some {
        match m.state_of(owner) {
            Some(s) => s.entry.contains(name) || s.exit.contains(name) || s.activities.contains(name),
            None => m.transition_of(owner) matches Some(t) && t.effect.contains(name),
        }
    } else {
        true
    }
}

/// Which list of a state a behavior belongs to.
enum StateList {
    Entry,
    Exit,
    Activities,
}

fn validate_state_behavior_owner(model: &Model, name: &str, owner: &str, behavior_kind: &str, list: StateList) -> (r: Result<(), HsmError>)
    ensures
        r is Ok <==> (owner@ != model.root() && (model.state_of(owner@) matches Some(s) && (match list {
            StateList::Entry => s.entry,
            StateList::Exit => s.exit,
            StateList::Activities => s.activities,
        }).contains(name@))),
        r is Err ==> r matches Err(HsmError::Validation(_)),
{
    if text::str_eq(owner, model.state.vertex.element.qualified_name.as_str()) {
        return fail(text::concat(behavior_kind, " actions are not allowed on top level state machine"));
    }
    let state = match model.get_state(owner) {
        Some(s) => s,
        None => {
            return fail(concat4(behavior_kind, " behavior '", name, "' must be declared inside a state"));
        },
    };
    let listed = match list {
        StateList::Entry => contains_name(&state.entry, name),
        StateList::Exit => contains_name(&state.exit, name),
        StateList::Activities => contains_name(&state.activities, name),
    };
    if !listed {
        let head = concat4(behavior_kind, " behavior '", name, "' is not attached to state '");
        return fail(text::concat3(head.as_str(), owner, "'"));
    }
    Ok(())
}

fn validate_transition_behavior_owner(model: &Model, name: &str, owner: &str, behavior_kind: &str) -> (r: Result<(), HsmError>)
    ensures
        r is Ok <==> (model.transition_of(owner@) matches Some(t) && t.effect.contains(name@)),
        r is Err ==> r matches Err(HsmError::Validation(_)),
{
    let transition = match model.get_transition(owner) {
        Some(t) => t,
        None => {
            return fail(concat4(behavior_kind, " behavior '", name, "' must be declared inside a transition"));
        },
    };
    if !contains_name(&transition.effect, name) {
        let head = concat4(behavior_kind, " behavior '", name, "' is not attached to transition '");
        return fail(text::concat3(head.as_str(), owner, "'"));
    }
    Ok(())
}

fn validate_behavior_owner(model: &Model, name: &str, behavior: &Behavior) -> (r: Result<(), HsmError>)
    ensures
        r is Ok <==> behavior_owner_ok(*model, name@, behavior@),
        r is Err ==> r matches Err(HsmError::Validation(_)),
{
    let owner = path::dirname(name);
    if behavior.entry.is_some() {
        return validate_state_behavior_owner(model, name, owner, "Entry", StateList::Entry);
    }
    if behavior.exit.is_some() {
        return validate_state_behavior_owner(model, name, owner, "Exit", StateList::Exit);
    }
    if behavior.activity.is_some() {
        return validate_state_behavior_owner(model, name, owner, "Activity", StateList::Activities);
    }
    if behavior.effect.is_some() {
        return validate_transition_behavior_owner(model, name, owner, "Effect");
    }
    if behavior.operation.is_some() {
        match model.get_state(owner) {
            Some(state) => {
                if contains_name(&state.entry, name) || contains_name(&state.exit, name) || contains_name(&state.activities, name) {
                    return Ok(());
                }
                return fail(concat5("Behavior '", name, "' is not attached to state '", owner, "'"));
            },
            None => {},
        }
        match model.get_transition(owner) {
            Some(transition) => {
                if contains_name(&transition.effect, name) {
                    return Ok(());
                }
                return fail(concat5("Behavior '", name, "' is not attached to transition '", owner, "'"));
            },
            None => {},
        }
        return fail(concat4("Behavior '", name, "'", " must be declared inside a state or transition"));
    }
    Ok(())
}

/// A behavior that runs a named operation runs one that exists and has an
/// action.
pub open spec fn behavior_operation_ok(m: Model, b: BehaviorView) -> bool {
    match b.operation {
        Some(BehaviorOperationView::Operation(op)) => operation_reference_ok(m, op) && (m.operation_of(op) matches Some(o) && o.action is Some),
        _ => true,
    }
}

fn validate_behavior_operation(model: &Model, name: &str, behavior: &Behavior) -> (r: Result<(), HsmError>)
    ensures
        r is Ok <==> behavior_operation_ok(*model, behavior@),
        r is Err ==> r matches Err(HsmError::Validation(_)),
{
    let operation_name = match &behavior.operation {
        Some(op) => match op.operation_name() {
            Some(n) => n,
            None => {
                return Ok(());
            },
        },
        None => {
            return Ok(());
        },
    };
    let r = validate_operation_reference_name(model, operation_name);
    if r.is_err() {
        return r;
    }
    match model.get_operation(operation_name) {
        Some(operation) => {
            if operation.action.is_none() {
                return fail(concat5("Behavior '", name, "' missing operation '", operation_name, "'"));
            }
        },
        None => {
            return fail(concat5("Behavior '", name, "' missing operation '", operation_name, "'"));
        },
    }
    Ok(())
}

/// The local names of the timer constraints of a transition.
pub open spec fn is_timer_name(n: Seq<char>) -> bool {
    n == seq!['a', 'f', 't', 'e', 'r'] || n == seq!['a', 't'] || n == seq!['e', 'v', 'e', 'r', 'y']
}

/// A constraint belongs to a transition: it is the transition's guard, or
/// one of its timers.
pub open spec fn constraint_owner_ok(m: Model, name: Seq<char>) -> bool {
    let owner = spec_dirname(name);
    match m.transition_of(owner) {
        Some(t) => t.guard == name || (is_timer_name(spec_basename(name)) && (m.constraint_of(name) matches Some(c) && (c.duration is Some || c.timepoint is Some))),
        None => false,
    }
}

fn validate_constraint_owner(model: &Model, name: &str) -> (r: Result<(), HsmError>)
    ensures
        r is Ok <==> constraint_owner_ok(*model, name@),
        r is Err ==> r matches Err(HsmError::Validation(_)),
{
    proof {
        reveal_strlit("after");
        reveal_strlit("at");
        reveal_strlit("every");
        assert("after"@ =~= seq!['a', 'f', 't', 'e', 'r']);
        assert("at"@ =~= seq!['a', 't']);
        assert("every"@ =~= seq!['e', 'v', 'e', 'r', 'y']);
    }
    let owner = path::dirname(name);
    let transition = match model.get_transition(owner) {
        Some(t) => t,
        None => {
            return fail(concat4("Constraint '", name, "'", " must be declared inside a transition"));
        },
    };
    let base = path::basename(name);
    let timer_name = text::str_eq(base, "after") || text::str_eq(base, "at") || text::str_eq(base, "every");
    let timer_constraint = timer_name && match model.get_constraint(name) {
        Some(c) => c.duration.is_some() || c.timepoint.is_some(),
        None => false,
    };
    if !text::str_eq(transition.guard.as_str(), name) && !timer_constraint {
        return fail(concat5("Constraint '", name, "' is not attached to transition '", owner, "'"));
    }
    Ok(())
}

/// A guard that names an operation names one that exists and has a guard.
pub open spec fn constraint_operation_ok(m: Model, c: Constraint) -> bool {
    match c@.operation {
        Some(op) => operation_reference_ok(m, op) && (m.operation_of(op) matches Some(o) && o.guard is Some),
        None => true,
    }
}

fn validate_constraint_operation(model: &Model, name: &str, constraint: &Constraint) -> (r: Result<(), HsmError>)
    ensures
        r is Ok <==> constraint_operation_ok(*model, *constraint),
        r is Err ==> r matches Err(HsmError::Validation(_)),
{
    let operation_name = match &constraint.operation {
        Some(n) => n.as_str(),
        None => {
            return Ok(());
        },
    };
    let r = validate_operation_reference_name(model, operation_name);
    if r.is_err() {
        return r;
    }
    match model.get_operation(operation_name) {
        Some(operation) => {
            if operation.guard.is_none() {
                return fail(concat5("Guard '", name, "' missing operation '", operation_name, "'"));
            }
        },
        None => {
            return fail(concat5("Guard '", name, "' missing operation '", operation_name, "'"));
        },
    }
    Ok(())
}

/// The declaration rules for one member.
pub open spec fn declaration_ok(m: Model, name: Seq<char>, e: ElementVariant) -> bool {
    match e {
        ElementVariant::Attribute(a) => attribute_ok(m, name, a),
        ElementVariant::Operation(o) => operation_ok(m, name, o),
        ElementVariant::Behavior(b) => behavior_owner_ok(m, name, b@) && behavior_operation_ok(m, b@),
        ElementVariant::Constraint(c) => constraint_owner_ok(m, name) && constraint_operation_ok(m, c),
        _ => true,
    }
}

fn validate_declaration(model: &Model, name: &str, element: &ElementVariant) -> (r: Result<(), HsmError>)
    ensures
        r is Ok <==> declaration_ok(*model, name@, *element),
        r is Err ==> r matches Err(HsmError::Validation(_)),
{
    match element {
        ElementVariant::Attribute(a) => validate_attribute_declaration(model, name, a),
        ElementVariant::Operation(o) => validate_operation_declaration(model, name, o),
        ElementVariant::Behavior(b) => {
            let r = validate_behavior_owner(model, name, b);
            if r.is_err() {
                return r;
            }
            validate_behavior_operation(model, name, b)
        },
        ElementVariant::Constraint(c) => {
            let r = validate_constraint_owner(model, name);
            if r.is_err() {
                return r;
            }
            validate_constraint_operation(model, name, c)
        },
        _ => Ok(()),
    }
}

/// Every member's owner is the machine or another member.
pub open spec fn member_owner_ok(m: Model, name: Seq<char>) -> bool {
    spec_dirname(name) == m.root() || has_key(m.members@, spec_dirname(name))
}

/// The part of `q` below the nearest of `current` and its ancestors that
/// is the machine or a member and is a proper prefix of `q` (as a directory);
/// below the machine when there is none.
pub open spec fn member_name_below(m: Model, q: Seq<char>, current: Seq<char>) -> Seq<char>
    decreases current.len(),
{
    if current.len() == 0 {
        model_member_name(m, q)
    } else {
        let prefix = trim_end(current, '/') + seq!['/'];
        if (current == m.root() || has_key(m.members@, current)) && has_prefix(q, prefix) {
            q.subrange(prefix.len() as int, q.len() as int)
        } else {
            proof {
                path::lemma_dirname_shorter(current);
            }
            member_name_below(m, q, spec_dirname(current))
        }
    }
}

/// The part of `qualified_name` below its nearest existing owner (the
/// machine or a member), or below the machine.
fn member_name_from_existing_owner(model: &Model, qualified_name: &str) -> (r: String)
    ensures
        r@ == member_name_below(*model, qualified_name@, spec_dirname(qualified_name@)),
{
    proof {
        reveal_strlit("/");
        assert("/"@ =~= seq!['/']);
    }
    let mut current = text::owned(path::dirname(qualified_name));
    while current.unicode_len() != 0
        invariant
            member_name_below(*model, qualified_name@, current@)
                == member_name_below(*model, qualified_name@, spec_dirname(qualified_name@)),
            "/"@ =~= seq!['/'],
        decreases current@.len(),
    {
        if text::str_eq(current.as_str(), model.state.vertex.element.qualified_name.as_str()) || assoc::contains_key(&model.members, current.as_str()) {
            let prefix = text::concat(text::trim_end_char(current.as_str(), '/'), "/");
            match text::strip_prefix(qualified_name, prefix.as_str()) {
                Some(relative) => {
                    return text::owned(relative);
                },
                None => {},
            }
        }
        proof {
            path::lemma_dirname_shorter(current@);
        }
        current = text::owned(path::dirname(current.as_str()));
    }
    model_member_name_of(model, qualified_name)
}

/// The word for a member's kind in messages.
pub open spec fn spec_declaration_kind(e: ElementVariant) -> Seq<char> {
    match e {
        ElementVariant::State(state) => {
            if spec_is_kind(state.vertex.element.kind, kind::FINAL_STATE) {
                "final state"@
            } else if spec_is_kind(state.vertex.element.kind, kind::SUBMACHINE_STATE) {
                "submachine state"@
            } else {
                "state"@
            }
        },
        ElementVariant::Vertex(vertex) => {
            let k = vertex.element.kind;
            if spec_is_kind(k, kind::CHOICE) {
                "choice"@
            } else if spec_is_kind(k, kind::SHALLOW_HISTORY) {
                "shallow history"@
            } else if spec_is_kind(k, kind::DEEP_HISTORY) {
                "deep history"@
            } else if spec_is_kind(k, kind::ENTRY_POINT) {
                "entry point"@
            } else if spec_is_kind(k, kind::EXIT_POINT) {
                "exit point"@
            } else {
                "vertex"@
            }
        },
        ElementVariant::Transition(_) => "transition"@,
        ElementVariant::Behavior(_) => "behavior"@,
        ElementVariant::Observation(_) => "observation"@,
        ElementVariant::Validator(_) => "validator"@,
        ElementVariant::Finalizer(_) => "finalizer"@,
        ElementVariant::Constraint(_) => "constraint"@,
        ElementVariant::Operation(_) => "operation"@,
        ElementVariant::Attribute(_) => "attribute"@,
        ElementVariant::Event(_) => "event"@,
    }
}

/// The word for a member's kind in messages.
fn declaration_kind(element: &ElementVariant) -> (r: &'static str)
    ensures
        r@ == spec_declaration_kind(*element),
{
    match element {
        ElementVariant::State(state) => {
            if kind::is_kind(state.vertex.element.kind, kind::FINAL_STATE) {
                "final state"
            } else if kind::is_kind(state.vertex.element.kind, kind::SUBMACHINE_STATE) {
                "submachine state"
            } else {
                "state"
            }
        },
        ElementVariant::Vertex(vertex) => {
            let k = vertex.element.kind;
            if kind::is_kind(k, kind::CHOICE) {
                "choice"
            } else if kind::is_kind(k, kind::SHALLOW_HISTORY) {
                "shallow history"
            } else if kind::is_kind(k, kind::DEEP_HISTORY) {
                "deep history"
            } else if kind::is_kind(k, kind::ENTRY_POINT) {
                "entry point"
            } else if kind::is_kind(k, kind::EXIT_POINT) {
                "exit point"
            } else {
                "vertex"
            }
        },
        ElementVariant::Transition(_) => "transition",
        ElementVariant::Behavior(_) => "behavior",
        ElementVariant::Observation(_) => "observation",
        ElementVariant::Validator(_) => "validator",
        ElementVariant::Finalizer(_) => "finalizer",
        ElementVariant::Constraint(_) => "constraint",
        ElementVariant::Operation(_) => "operation",
        ElementVariant::Attribute(_) => "attribute",
        ElementVariant::Event(_) => "event",
    }
}

fn validate_member_owner(model: &Model, name: &str, element: &ElementVariant) -> (r: Result<(), HsmError>)
    ensures
        r is Ok <==> member_owner_ok(*model, name@),
        r is Err ==> r matches Err(HsmError::Validation(_)),
{
    let owner = path::dirname(name);
    if text::str_eq(owner, model.state.vertex.element.qualified_name.as_str()) || assoc::contains_key(&model.members, owner) {
        return Ok(());
    }
    let member_name = member_name_from_existing_owner(model, name);
    if text::contains_char(member_name.as_str(), '/') {
        return fail(concat4(declaration_kind(element), " name \"", member_name.as_str(), "\" cannot contain \"/\""));
    }
    let head = concat4(declaration_kind(element), " '", name, "' owner '");
    fail(text::concat3(head.as_str(), owner, "' not found"))
}

/// `q` names the machine or one of its states or pseudostates.
pub open spec fn is_endpoint(m: Model, q: Seq<char>) -> bool {
    q == m.root() || m.vertex_of(q) is Some
}

fn is_model_endpoint(model: &Model, qualified_name: &str) -> (r: bool)
    ensures
        r == is_endpoint(*model, qualified_name@),
{
    text::str_eq(qualified_name, model.state.vertex.element.qualified_name.as_str()) || model.get_vertex(qualified_name).is_some()
}

/// The source (or target) is a pseudostate of the given kind.
pub open spec fn vertex_is(m: Model, q: Seq<char>, k: kind::KindValue) -> bool {
    m.vertex_of(q) matches Some(v) && spec_is_kind(v.element.kind, k)
}

fn vertex_is_kind(model: &Model, qualified_name: &str, k: kind::KindValue) -> (r: bool)
    ensures
        r == vertex_is(*model, qualified_name@, k),
{
    match model.get_vertex(qualified_name) {
        Some(v) => kind::is_kind(v.element.kind, k),
        None => false,
    }
}

pub open spec fn call_prefix() -> Seq<char> {
    crate::rebase::call_prefix()
}

/// Each call trigger names an operation that exists and has an action.
pub open spec fn on_call_ok(m: Model, events: Seq<Seq<char>>) -> bool {
    forall|i: int| 0 <= i < events.len() && has_prefix(#[trigger] events[i], call_prefix()) ==> {
        let op = events[i].subrange(9, events[i].len() as int);
        operation_reference_ok(m, op) && (m.operation_of(op) matches Some(o) && o.action is Some)
    }
}

fn validate_on_call_operations(model: &Model, name: &str, transition: &Transition) -> (r: Result<(), HsmError>)
    ensures
        r is Ok <==> on_call_ok(*model, transition@.events),
        r is Err ==> r matches Err(HsmError::Validation(_)),
{
    proof {
        reveal_strlit("hsm_call:");
        assert("hsm_call:"@ =~= call_prefix());
    }
    let mut i: usize = 0;
    while i < transition.events.len()
        invariant
            0 <= i <= transition.events@.len(),
            "hsm_call:"@ == call_prefix(),
            forall|j: int| 0 <= j < i && has_prefix(#[trigger] transition@.events[j], call_prefix()) ==> {
                let op = transition@.events[j].subrange(9, transition@.events[j].len() as int);
                operation_reference_ok(*model, op) && (model.operation_of(op) matches Some(o) && o.action is Some)
            },
        decreases transition.events@.len() - i,
    {
        let event_name = transition.events[i].as_str();
        assert(transition@.events[i as int] == event_name@);
        match text::strip_prefix(event_name, "hsm_call:") {
            Some(operation_name) => {
                let r = validate_operation_reference_name(model, operation_name);
                if r.is_err() {
                    return r;
                }
                match model.get_operation(operation_name) {
                    Some(operation) => {
                        if operation.action.is_none() {
                            return fail(concat5("OnCall '", name, "' missing operation '", operation_name, "'"));
                        }
                    },
                    None => {
                        return fail(concat5("OnCall '", name, "' missing operation '", operation_name, "'"));
                    },
                }
            },
            None => {},
        }
        i += 1;
    }
    Ok(())
}

/// A transition from the machine with a target needs a trigger.
pub open spec fn top_level_source_ok(m: Model, t: TransitionView) -> bool {
    !(t.source == m.root() && t.target.len() > 0 && t.events.len() == 0)
}

pub open spec fn timer_prefix() -> Seq<char> {
    seq!['h', 's', 'm', '_', 't', 'i', 'm', 'e', 'r', '_']
}

/// An event name is not empty, and uses no wildcard except the any-event
/// name (call, timer and machine-qualified names are left alone).
pub open spec fn event_name_ok(m: Model, e: Seq<char>) -> bool {
    e.len() > 0 && (e == seq!['*'] || has_prefix(e, call_prefix()) || has_prefix(e, timer_prefix()) || has_prefix(e, m.root()) || (!e.contains('*') && !e.contains('?')))
}

fn validate_transition_event_names(model: &Model, name: &str, transition: &Transition) -> (r: Result<(), HsmError>)
    ensures
        r is Ok <==> (forall|i: int| 0 <= i < transition@.events.len() ==> event_name_ok(*model, #[trigger] transition@.events[i])),
        r is Err ==> r matches Err(HsmError::Validation(_)),
{
    proof {
        reveal_strlit("hsm_call:");
        reveal_strlit("hsm_timer_");
        reveal_strlit("*");
        assert("hsm_call:"@ =~= call_prefix());
        assert("hsm_timer_"@ =~= timer_prefix());
        assert("*"@ =~= seq!['*']);
    }
    let root = model.state.vertex.element.qualified_name.as_str();
    let mut i: usize = 0;
    while i < transition.events.len()
        invariant
            0 <= i <= transition.events@.len(),
            root@ == model.root(),
            "hsm_call:"@ == call_prefix(),
            "hsm_timer_"@ == timer_prefix(),
            "*"@ == seq!['*'],
            forall|j: int| 0 <= j < i ==> event_name_ok(*model, #[trigger] transition@.events[j]),
        decreases transition.events@.len() - i,
    {
        let event_name = transition.events[i].as_str();
        assert(transition@.events[i as int] == event_name@);
        if event_name.unicode_len() == 0 {
            return fail(concat4("Transition '", name, "'", " event name cannot be empty"));
        }
        let exempt = text::str_eq(event_name, "*") || text::starts_with(event_name, "hsm_call:") || text::starts_with(event_name, "hsm_timer_") || text::starts_with(event_name, root);
        if !exempt && (text::contains_char(event_name, '*') || text::contains_char(event_name, '?')) {
            return fail(concat4("Transition '", name, "'", " wildcard event patterns are not supported; use AnyEvent"));
        }
        i += 1;
    }
    Ok(())
}

/// A transition without a target must have an effect, and must not leave
/// an initial, choice or history pseudostate.
pub open spec fn target_or_effect_ok(m: Model, t: TransitionView) -> bool {
    t.target.len() > 0 || (!vertex_is(m, t.source, kind::INITIAL) && !vertex_is(m, t.source, kind::CHOICE) && !vertex_is(m, t.source, kind::SHALLOW_HISTORY) && !vertex_is(m, t.source, kind::DEEP_HISTORY) && t.effect.len() > 0)
}

fn validate_transition_target_or_effect(model: &Model, name: &str, transition: &Transition) -> (r: Result<(), HsmError>)
    ensures
        r is Ok <==> target_or_effect_ok(*model, transition@),
        r is Err ==> r matches Err(HsmError::Validation(_)),
{
    if transition.target.unicode_len() != 0 {
        return Ok(());
    }
    let source = transition.source.as_str();
    if vertex_is_kind(model, source, kind::INITIAL) {
        return fail(concat4("Initial transition '", name, "'", " requires target"));
    }
    if vertex_is_kind(model, source, kind::CHOICE) || vertex_is_kind(model, source, kind::SHALLOW_HISTORY) || vertex_is_kind(model, source, kind::DEEP_HISTORY) {
        return fail(concat4("Pseudostate transition '", name, "'", " requires target"));
    }
    if transition.effect.len() == 0 {
        return fail(concat4("Transition '", name, "'", " target or effect is required; internal transitions require an effect"));
    }
    Ok(())
}

/// A transition has a trigger unless it leaves a pseudostate.
pub open spec fn trigger_ok(m: Model, t: TransitionView) -> bool {
    t.events.len() > 0 || vertex_is(m, t.source, kind::PSEUDOSTATE)
}

/// A transition with a timer leaves a state.
pub open spec fn timer_source_ok(m: Model, t: TransitionView) -> bool {
    let has_timer = exists|x: Seq<char>| is_timer_name(x) && (#[trigger] m.constraint_of(spec_join(t.element.qualified_name, x)) matches Some(c) && (c.duration is Some || c.timepoint is Some));
    !has_timer || m.state_of(t.source) is Some
}

fn has_timer_constraint(model: &Model, transition_name: &str, timer: &str) -> (r: bool)
    ensures
        r == (model.constraint_of(spec_join(transition_name@, timer@)) matches Some(c) && (c.duration is Some || c.timepoint is Some)),
{
    match model.get_constraint(path::join(transition_name, timer).as_str()) {
        Some(c) => c.duration.is_some() || c.timepoint.is_some(),
        None => false,
    }
}

fn validate_timer_transition_source(model: &Model, name: &str, transition: &Transition) -> (r: Result<(), HsmError>)
    ensures
        r is Ok <==> timer_source_ok(*model, transition@),
        r is Err ==> r matches Err(HsmError::Validation(_)),
{
    proof {
        reveal_strlit("after");
        reveal_strlit("at");
        reveal_strlit("every");
        assert("after"@ =~= seq!['a', 'f', 't', 'e', 'r']);
        assert("at"@ =~= seq!['a', 't']);
        assert("every"@ =~= seq!['e', 'v', 'e', 'r', 'y']);
    }
    let qn = transition.element.qualified_name.as_str();
    let has_timer = has_timer_constraint(model, qn, "after") || has_timer_constraint(model, qn, "at") || has_timer_constraint(model, qn, "every");
    if !has_timer || model.get_state(transition.source.as_str()).is_some() {
        return Ok(());
    }
    fail(concat4("Timer transition '", name, "'", " can only be used where the source is a state"))
}

/// A transition from an initial pseudostate targets inside the
/// pseudostate's owner, has no guard and no trigger but the initial event.
pub open spec fn initial_transition_ok(m: Model, t: TransitionView) -> bool {
    vertex_is(m, t.source, kind::INITIAL) ==> {
        let owner = spec_dirname(t.source);
        &&& (t.target == owner || spec_is_ancestor_or_equal(owner, t.target))
        &&& t.guard.len() == 0
        &&& forall|i: int| 0 <= i < t.events.len() ==> #[trigger] t.events[i] == crate::event::initial_event_name()
    }
}

fn validate_initial_transition(model: &Model, name: &str, transition: &Transition) -> (r: Result<(), HsmError>)
    ensures
        r is Ok <==> initial_transition_ok(*model, transition@),
        r is Err ==> r matches Err(HsmError::Validation(_)),
{
    if !vertex_is_kind(model, transition.source.as_str(), kind::INITIAL) {
        return Ok(());
    }
    let owner = path::dirname(transition.source.as_str());
    if !text::str_eq(transition.target.as_str(), owner) && !path::is_ancestor_or_equal(owner, transition.target.as_str()) {
        return fail(concat5("Initial transition '", name, "' must target inside '", owner, "'"));
    }
    if transition.guard.unicode_len() != 0 {
        return fail(concat4("Initial transition '", name, "'", " cannot have guard"));
    }
    proof {
        reveal_strlit("hsm/initial");
        assert("hsm/initial"@ =~= crate::event::initial_event_name());
    }
    let mut i: usize = 0;
    while i < transition.events.len()
        invariant
            0 <= i <= transition.events@.len(),
            "hsm/initial"@ == crate::event::initial_event_name(),
            vertex_is(*model, transition@.source, kind::INITIAL),
            transition@.target == spec_dirname(transition@.source) || spec_is_ancestor_or_equal(spec_dirname(transition@.source), transition@.target),
            transition@.guard.len() == 0,
            forall|j: int| 0 <= j < i ==> #[trigger] transition@.events[j] == crate::event::initial_event_name(),
        decreases transition.events@.len() - i,
    {
        assert(transition@.events[i as int] == transition.events@[i as int]@);
        if !text::str_eq(transition.events[i].as_str(), "hsm/initial") {
            return fail(concat4("Initial transition '", name, "'", " cannot have triggers"));
        }
        i += 1;
    }
    Ok(())
}

/// Transitions from choice, history, entry and exit points have no trigger.
pub open spec fn pseudostate_triggers_ok(m: Model, t: TransitionView) -> bool {
    t.events.len() > 0 ==> !(vertex_is(m, t.source, kind::CHOICE) || vertex_is(m, t.source, kind::SHALLOW_HISTORY) || vertex_is(m, t.source, kind::DEEP_HISTORY) || vertex_is(m, t.source, kind::ENTRY_POINT) || vertex_is(m, t.source, kind::EXIT_POINT))
}

fn validate_pseudostate_transition_triggers(model: &Model, name: &str, transition: &Transition) -> (r: Result<(), HsmError>)
    ensures
        r is Ok <==> pseudostate_triggers_ok(*model, transition@),
        r is Err ==> r matches Err(HsmError::Validation(_)),
{
    if transition.events.len() == 0 {
        return Ok(());
    }
    let source = transition.source.as_str();
    if vertex_is_kind(model, source, kind::CHOICE) || vertex_is_kind(model, source, kind::SHALLOW_HISTORY) || vertex_is_kind(model, source, kind::DEEP_HISTORY)
        || vertex_is_kind(model, source, kind::ENTRY_POINT) || vertex_is_kind(model, source, kind::EXIT_POINT) {
        return fail(concat5("Transition '", name, "' from pseudostate '", source, "' cannot have triggers"));
    }
    Ok(())
}

/// The nearest state above `current` (itself included) that holds a
/// submachine, or "".
pub open spec fn boundary_from(m: Model, current: Seq<char>) -> Seq<char>
    decreases current.len(),
{
    if current.len() == 0 || current == seq!['/'] {
        seq![]
    } else if m.state_of(current) matches Some(s) && spec_is_kind(s.vertex.element.kind, kind::SUBMACHINE_STATE) {
        current
    } else {
        proof {
            path::lemma_dirname_shorter(current);
        }
        boundary_from(m, spec_dirname(current))
    }
}

/// The submachine state that encloses `q`, or "".
pub open spec fn enclosing_boundary(m: Model, q: Seq<char>) -> Seq<char> {
    boundary_from(m, spec_dirname(q))
}

fn enclosing_submachine_boundary(model: &Model, qualified_name: &str) -> (r: String)
    ensures
        r@ == enclosing_boundary(*model, qualified_name@),
{
    proof {
        reveal_strlit("/");
        assert("/"@ =~= seq!['/']);
    }
    let mut current = text::owned(path::dirname(qualified_name));
    while current.unicode_len() != 0 && !text::str_eq(current.as_str(), "/")
        invariant
            "/"@ == seq!['/'],
            boundary_from(*model, current@) == enclosing_boundary(*model, qualified_name@),
        decreases current@.len(),
    {
        let is_boundary = match model.get_state(current.as_str()) {
            Some(s) => kind::is_kind(s.vertex.element.kind, kind::SUBMACHINE_STATE),
            None => false,
        };
        if is_boundary {
            return current;
        }
        proof {
            path::lemma_dirname_shorter(current@);
        }
        current = text::owned(path::dirname(current.as_str()));
    }
    String::new()
}

/// A transition into an entry point comes from outside its submachine
/// state (or from an exit point, or another entry point).
pub open spec fn entry_point_target_ok(m: Model, t: TransitionView) -> bool {
    (vertex_is(m, t.target, kind::ENTRY_POINT) && m.vertex_of(t.source) is Some && !vertex_is(m, t.source, kind::ENTRY_POINT)) ==> {
        let b = spec_dirname(t.target);
        &&& m.state_of(b) matches Some(bs) && spec_is_kind(bs.vertex.element.kind, kind::SUBMACHINE_STATE)
        &&& !(!vertex_is(m, t.source, kind::EXIT_POINT) && t.source != b && spec_is_ancestor_or_equal(b, t.source))
    }
}

fn validate_entry_point_target(model: &Model, name: &str, transition: &Transition) -> (r: Result<(), HsmError>)
    ensures
        r is Ok <==> entry_point_target_ok(*model, transition@),
        r is Err ==> r matches Err(HsmError::Validation(_)),
{
    let target = transition.target.as_str();
    let source = transition.source.as_str();
    if !vertex_is_kind(model, target, kind::ENTRY_POINT) {
        return Ok(());
    }
    if model.get_vertex(source).is_none() || vertex_is_kind(model, source, kind::ENTRY_POINT) {
        return Ok(());
    }
    let boundary = path::dirname(target);
    let is_submachine = match model.get_state(boundary) {
        Some(s) => kind::is_kind(s.vertex.element.kind, kind::SUBMACHINE_STATE),
        None => false,
    };
    if !is_submachine {
        return fail(concat4("Entry point target '", target, "'", " requires a submachine transition target"));
    }
    if !vertex_is_kind(model, source, kind::EXIT_POINT) && !text::str_eq(source, boundary) && path::is_ancestor_or_equal(boundary, source) {
        return fail(concat4("Transition '", name, "'", " entry point target cannot be internal"));
    }
    Ok(())
}

/// A transition from an exit point is handled inside the submachine state
/// that holds it.
pub open spec fn exit_point_handler_ok(m: Model, t: TransitionView) -> bool {
    vertex_is(m, t.source, kind::EXIT_POINT) ==> {
        let b = enclosing_boundary(m, t.source);
        b.len() > 0 && spec_is_ancestor_or_equal(b, t.source)
    }
}

fn validate_exit_point_handler(model: &Model, name: &str, transition: &Transition) -> (r: Result<(), HsmError>)
    ensures
        r is Ok <==> exit_point_handler_ok(*model, transition@),
        r is Err ==> r matches Err(HsmError::Validation(_)),
{
    let source = transition.source.as_str();
    if !vertex_is_kind(model, source, kind::EXIT_POINT) {
        return Ok(());
    }
    let boundary = enclosing_submachine_boundary(model, source);
    if boundary.unicode_len() == 0 {
        return fail(concat4("Transition '", name, "'", " exit point handler requires a submachine owner"));
    }
    if !path::is_ancestor_or_equal(boundary.as_str(), source) {
        return fail(concat5("Transition '", name, "' missing exit point '", source, "'"));
    }
    Ok(())
}

/// A transition does not reach into or out of a submachine state except
/// through its entry and exit points.
pub open spec fn submachine_boundary_ok(m: Model, name: Seq<char>, t: TransitionView) -> bool {
    t.target.len() > 0 ==> {
        let sb = enclosing_boundary(m, t.source);
        let tb = enclosing_boundary(m, t.target);
        let from_exit = vertex_is(m, t.source, kind::EXIT_POINT);
        let to_entry = vertex_is(m, t.target, kind::ENTRY_POINT);
        let owner = spec_dirname(name);
        &&& !(sb.len() > 0 && !spec_is_ancestor_or_equal(sb, owner) && !from_exit)
        &&& !(sb.len() > 0 && tb != sb && (tb.len() == 0 || !spec_is_ancestor_or_equal(sb, tb)) && !from_exit)
        &&& !(tb.len() > 0 && sb != tb && !spec_is_ancestor_or_equal(tb, owner) && !to_entry && !from_exit)
    }
}

fn validate_submachine_boundary(model: &Model, name: &str, transition: &Transition) -> (r: Result<(), HsmError>)
    ensures
        r is Ok <==> submachine_boundary_ok(*model, name@, transition@),
        r is Err ==> r matches Err(HsmError::Validation(_)),
{
    if transition.target.unicode_len() == 0 {
        return Ok(());
    }
    let source_boundary = enclosing_submachine_boundary(model, transition.source.as_str());
    let target_boundary = enclosing_submachine_boundary(model, transition.target.as_str());
    let from_exit = vertex_is_kind(model, transition.source.as_str(), kind::EXIT_POINT);
    let to_entry = vertex_is_kind(model, transition.target.as_str(), kind::ENTRY_POINT);
    let owner = path::dirname(name);
    let sb = source_boundary.as_str();
    let tb = target_boundary.as_str();
    if sb.unicode_len() != 0 && !path::is_ancestor_or_equal(sb, owner) && !from_exit {
        return fail(concat5("Transition '", name, "' has submachine internal source '", transition.source.as_str(), "'"));
    }
    if sb.unicode_len() != 0 && !text::str_eq(tb, sb) && (tb.unicode_len() == 0 || !path::is_ancestor_or_equal(sb, tb)) && !from_exit {
        return fail(concat5("Transition '", name, "' cannot target outside submachine boundary '", sb, "'"));
    }
    if tb.unicode_len() != 0 && !text::str_eq(sb, tb) && !path::is_ancestor_or_equal(tb, owner) && !to_entry && !from_exit {
        return fail(concat5("Transition '", name, "' cannot target submachine internal state '", transition.target.as_str(), "'"));
    }
    Ok(())
}

/// All the rules for one transition member.
pub open spec fn transition_ok(m: Model, name: Seq<char>, t: TransitionView) -> bool {
    &&& is_endpoint(m, t.source)
    &&& (t.target.len() == 0 || is_endpoint(m, t.target))
    &&& on_call_ok(m, t.events)
    &&& top_level_source_ok(m, t)
    &&& (forall|i: int| 0 <= i < t.events.len() ==> event_name_ok(m, #[trigger] t.events[i]))
    &&& target_or_effect_ok(m, t)
    &&& trigger_ok(m, t)
    &&& timer_source_ok(m, t)
    &&& initial_transition_ok(m, t)
    &&& pseudostate_triggers_ok(m, t)
    &&& entry_point_target_ok(m, t)
    &&& exit_point_handler_ok(m, t)
    &&& submachine_boundary_ok(m, name, t)
}

fn validate_transition(model: &Model, name: &str, transition: &Transition) -> (r: Result<(), HsmError>)
    ensures
        r is Ok <==> transition_ok(*model, name@, transition@),
        r is Err ==> r matches Err(HsmError::Validation(_)),
{
    if !is_model_endpoint(model, transition.source.as_str()) {
        let head = concat4("Transition '", name, "' source '", transition.source.as_str());
        return fail(text::concat(head.as_str(), "' not found"));
    }
    if transition.target.unicode_len() != 0 && !is_model_endpoint(model, transition.target.as_str()) {
        let head = concat4("Transition '", name, "' target '", transition.target.as_str());
        return fail(text::concat(head.as_str(), "' not found"));
    }
    let r = validate_on_call_operations(model, name, transition);
    if r.is_err() {
        return r;
    }
    if text::str_eq(transition.source.as_str(), model.state.vertex.element.qualified_name.as_str()) && transition.target.unicode_len() != 0 && transition.events.len() == 0 {
        return fail(text::owned("Triggerless top level transitions with a target must also define a source"));
    }
    let r = validate_transition_event_names(model, name, transition);
    if r.is_err() {
        return r;
    }
    let r = validate_transition_target_or_effect(model, name, transition);
    if r.is_err() {
        return r;
    }
    if transition.events.len() == 0 && !vertex_is_kind(model, transition.source.as_str(), kind::PSEUDOSTATE) {
        return fail(concat4("Transition '", name, "'", " has no trigger"));
    }
    let r = validate_timer_transition_source(model, name, transition);
    if r.is_err() {
        return r;
    }
    let r = validate_initial_transition(model, name, transition);
    if r.is_err() {
        return r;
    }
    let r = validate_pseudostate_transition_triggers(model, name, transition);
    if r.is_err() {
        return r;
    }
    let r = validate_entry_point_target(model, name, transition);
    if r.is_err() {
        return r;
    }
    let r = validate_exit_point_handler(model, name, transition);
    if r.is_err() {
        return r;
    }
    validate_submachine_boundary(model, name, transition)
}

/// Some member at `q`'s level below it is a state.
pub open spec fn has_child_state(m: Model, q: Seq<char>) -> bool {
    exists|j: int| 0 <= j < m.members@.len() && m.members@[j].1 is State && spec_dirname(#[trigger] m.members@[j].0@) == q
}

fn has_direct_child_state(model: &Model, qualified_name: &str) -> (r: bool)
    ensures
        r == has_child_state(*model, qualified_name@),
{
    let mut i: usize = 0;
    while i < model.members.len()
        invariant
            0 <= i <= model.members@.len(),
            forall|j: int| 0 <= j < i ==> !(model.members@[j].1 is State && spec_dirname(#[trigger] model.members@[j].0@) == qualified_name@),
        decreases model.members@.len() - i,
    {
        let is_state = match &model.members[i].1 {
            ElementVariant::State(_) => true,
            _ => false,
        };
        if is_state && text::str_eq(path::dirname(model.members[i].0.as_str()), qualified_name) {
            return true;
        }
        i += 1;
    }
    false
}

/// A composite state that a transition targets has an initial pseudostate.
pub open spec fn composite_target_ok(m: Model, t: TransitionView) -> bool {
    (t.target.len() > 0 && (m.state_of(t.target) matches Some(st) && !spec_is_kind(st.vertex.element.kind, kind::FINAL_STATE) && st.initial.len() == 0)) ==> !has_child_state(m, t.target)
}

pub open spec fn composite_targets_ok(m: Model) -> bool {
    forall|j: int| 0 <= j < m.members@.len() ==> match #[trigger] m.members@[j].1 {
        ElementVariant::Transition(t) => composite_target_ok(m, t@),
        _ => true,
    }
}

fn validate_composite_transition_targets(model: &Model) -> (r: Result<(), HsmError>)
    ensures
        r is Ok <==> composite_targets_ok(*model),
        r is Err ==> r matches Err(HsmError::Validation(_)),
{
    let mut i: usize = 0;
    while i < model.members.len()
        invariant
            0 <= i <= model.members@.len(),
            forall|j: int| 0 <= j < i ==> match #[trigger] model.members@[j].1 {
                ElementVariant::Transition(t) => composite_target_ok(*model, t@),
                _ => true,
            },
        decreases model.members@.len() - i,
    {
        match &model.members[i].1 {
            ElementVariant::Transition(transition) => {
                let target = transition.target.as_str();
                if target.unicode_len() != 0 {
                    match model.get_state(target) {
                        Some(st) => {
                            if !kind::is_kind(st.vertex.element.kind, kind::FINAL_STATE) && st.initial.unicode_len() == 0 && has_direct_child_state(model, target) {
                                return fail(concat4("Composite state '", target, "'", " requires initial transition"));
                            }
                        },
                        None => {},
                    }
                }
            },
            _ => {},
        }
        i += 1;
    }
    Ok(())
}

/// A history pseudostate of the kind `k` directly in `s`.
pub open spec fn is_history_in(m: Model, j: int, s: Seq<char>, k: kind::KindValue) -> bool {
    m.members@[j].1 matches ElementVariant::Vertex(v) && spec_dirname(m.members@[j].0@) == s && spec_is_kind(v.element.kind, k)
}

/// At most one history pseudostate of kind `k` lies directly in `s`.
pub open spec fn at_most_one_history(m: Model, s: Seq<char>, k: kind::KindValue) -> bool {
    forall|a: int, b: int| 0 <= a < m.members@.len() && 0 <= b < m.members@.len() && #[trigger] is_history_in(m, a, s, k) && #[trigger] is_history_in(m, b, s, k) ==> a == b
}

/// Every state has at most one shallow and one deep history pseudostate.
pub open spec fn history_cardinality_ok(m: Model) -> bool {
    forall|j: int| 0 <= j < m.members@.len() && (#[trigger] m.members@[j]).1 is State ==>
        at_most_one_history(m, m.members@[j].0@, kind::SHALLOW_HISTORY) && at_most_one_history(m, m.members@[j].0@, kind::DEEP_HISTORY)
}

/// The check of one state's history pseudostates.
fn validate_history_of(model: &Model, state_name: &str) -> (r: Result<(), HsmError>)
    ensures
        r is Ok <==> (at_most_one_history(*model, state_name@, kind::SHALLOW_HISTORY) && at_most_one_history(*model, state_name@, kind::DEEP_HISTORY)),
        r is Err ==> r matches Err(HsmError::Validation(_)),
{
    let mut shallow: Option<usize> = None;
    let mut deep: Option<usize> = None;
    let mut i: usize = 0;
    while i < model.members.len()
        invariant
            0 <= i <= model.members@.len(),
            match shallow {
                Some(a0) => a0 < i && is_history_in(*model, a0 as int, state_name@, kind::SHALLOW_HISTORY) && forall|a: int| 0 <= a < i && #[trigger] is_history_in(*model, a, state_name@, kind::SHALLOW_HISTORY) ==> a == a0,
                None => forall|a: int| 0 <= a < i ==> !#[trigger] is_history_in(*model, a, state_name@, kind::SHALLOW_HISTORY),
            },
            match deep {
                Some(a0) => a0 < i && is_history_in(*model, a0 as int, state_name@, kind::DEEP_HISTORY) && forall|a: int| 0 <= a < i && #[trigger] is_history_in(*model, a, state_name@, kind::DEEP_HISTORY) ==> a == a0,
                None => forall|a: int| 0 <= a < i ==> !#[trigger] is_history_in(*model, a, state_name@, kind::DEEP_HISTORY),
            },
        decreases model.members@.len() - i,
    {
        let in_state = match &model.members[i].1 {
            ElementVariant::Vertex(_) => text::str_eq(path::dirname(model.members[i].0.as_str()), state_name),
            _ => false,
        };
        let (is_shallow, is_deep) = match &model.members[i].1 {
            ElementVariant::Vertex(vertex) => (
                in_state && kind::is_kind(vertex.element.kind, kind::SHALLOW_HISTORY),
                in_state && kind::is_kind(vertex.element.kind, kind::DEEP_HISTORY),
            ),
            _ => (false, false),
        };
        assert(is_shallow == is_history_in(*model, i as int, state_name@, kind::SHALLOW_HISTORY));
        assert(is_deep == is_history_in(*model, i as int, state_name@, kind::DEEP_HISTORY));
        if is_shallow {
            if shallow.is_some() {
                return fail(concat4("State '", state_name, "'", " has more than one shallow history vertex"));
            }
            shallow = Some(i);
        }
        if is_deep {
            if deep.is_some() {
                return fail(concat4("State '", state_name, "'", " has more than one deep history vertex"));
            }
            deep = Some(i);
        }
        i += 1;
    }
    Ok(())
}

fn validate_state_history_cardinality(model: &Model) -> (r: Result<(), HsmError>)
    ensures
        r is Ok <==> history_cardinality_ok(*model),
        r is Err ==> r matches Err(HsmError::Validation(_)),
{
    let mut i: usize = 0;
    while i < model.members.len()
        invariant
            0 <= i <= model.members@.len(),
            forall|j: int| 0 <= j < i && (#[trigger] model.members@[j]).1 is State ==>
                at_most_one_history(*model, model.members@[j].0@, kind::SHALLOW_HISTORY) && at_most_one_history(*model, model.members@[j].0@, kind::DEEP_HISTORY),
        decreases model.members@.len() - i,
    {
        let is_state = match &model.members[i].1 {
            ElementVariant::State(_) => true,
            _ => false,
        };
        if is_state {
            let r = validate_history_of(model, model.members[i].0.as_str());
            if r.is_err() {
                return r;
            }
        }
        i += 1;
    }
    Ok(())
}

/// The declaration rules of initial, entry-point and history pseudostates.
pub open spec fn vertex_ok(m: Model, name: Seq<char>, v: VertexView) -> bool {
    let owner = spec_dirname(name);
    &&& spec_is_kind(v.element.kind, kind::INITIAL) ==> v.transitions.len() <= 1
    &&& spec_is_kind(v.element.kind, kind::ENTRY_POINT) ==> (v.transitions.len() == 1 && match m.transition_of(v.transitions[0]) {
        Some(t) => t.guard.len() == 0 && t.target.len() > 0 && !vertex_is(m, t.target, kind::ENTRY_POINT) && !vertex_is(m, t.target, kind::EXIT_POINT)
            && (t.target == owner || spec_is_ancestor_or_equal(owner, t.target)),
        None => true,
    })
    &&& (spec_is_kind(v.element.kind, kind::SHALLOW_HISTORY) || spec_is_kind(v.element.kind, kind::DEEP_HISTORY)) ==> (owner != m.root() && v.transitions.len() > 0
        && forall|i: int| 0 <= i < v.transitions.len() ==> match #[trigger] m.transition_of(v.transitions[i]) {
            Some(t) => t.target.len() > 0 ==> (t.target == owner || spec_is_ancestor_or_equal(owner, t.target)),
            None => true,
        })
}

fn validate_entry_point_declaration(model: &Model, name: &str, vertex: &Vertex) -> (r: Result<(), HsmError>)
    ensures
        r is Ok <==> (vertex@.transitions.len() == 1 && match model.transition_of(vertex@.transitions[0]) {
            Some(t) => t.guard.len() == 0 && t.target.len() > 0 && !vertex_is(*model, t.target, kind::ENTRY_POINT) && !vertex_is(*model, t.target, kind::EXIT_POINT)
                && (t.target == spec_dirname(name@) || spec_is_ancestor_or_equal(spec_dirname(name@), t.target)),
            None => true,
        }),
        r is Err ==> r matches Err(HsmError::Validation(_)),
{
    if vertex.transitions.len() > 1 {
        return fail(concat4("Entry point '", name, "'", " cannot have multiple transitions"));
    }
    if vertex.transitions.len() == 0 {
        return fail(concat4("Entry point '", name, "'", " requires target"));
    }
    assert(vertex@.transitions[0] == vertex.transitions@[0]@);
    let transition = match model.get_transition(vertex.transitions[0].as_str()) {
        Some(t) => t,
        None => {
            return Ok(());
        },
    };
    if transition.guard.unicode_len() != 0 {
        return fail(concat4("Entry point '", name, "'", " cannot have a guard"));
    }
    if transition.target.unicode_len() == 0 {
        return fail(concat4("Entry point '", name, "'", " requires target"));
    }
    if vertex_is_kind(model, transition.target.as_str(), kind::ENTRY_POINT) {
        return fail(concat4("Entry point '", name, "'", " cannot target entry point"));
    }
    if vertex_is_kind(model, transition.target.as_str(), kind::EXIT_POINT) {
        return fail(concat4("Entry point '", name, "'", " cannot target exit point"));
    }
    let owner = path::dirname(name);
    if !text::str_eq(transition.target.as_str(), owner) && !path::is_ancestor_or_equal(owner, transition.target.as_str()) {
        return fail(concat5("Entry point '", name, "' must target inside '", owner, "'"));
    }
    Ok(())
}

fn validate_history_declaration(model: &Model, name: &str, vertex: &Vertex) -> (r: Result<(), HsmError>)
    ensures
        r is Ok <==> (spec_dirname(name@) != model.root() && vertex@.transitions.len() > 0
            && forall|i: int| 0 <= i < vertex@.transitions.len() ==> match #[trigger] model.transition_of(vertex@.transitions[i]) {
                Some(t) => t.target.len() > 0 ==> (t.target == spec_dirname(name@) || spec_is_ancestor_or_equal(spec_dirname(name@), t.target)),
                None => true,
            }),
        r is Err ==> r matches Err(HsmError::Validation(_)),
{
    let owner = path::dirname(name);
    if text::str_eq(owner, model.state.vertex.element.qualified_name.as_str()) {
        return fail(concat4("History '", name, "'", " must be nested inside a state"));
    }
    if vertex.transitions.len() == 0 {
        return fail(concat4("History '", name, "'", " requires a default transition"));
    }
    let mut i: usize = 0;
    while i < vertex.transitions.len()
        invariant
            0 <= i <= vertex@.transitions.len(),
            owner@ == spec_dirname(name@),
            forall|k: int| 0 <= k < i ==> match #[trigger] model.transition_of(vertex@.transitions[k]) {
                Some(t) => t.target.len() > 0 ==> (t.target == owner@ || spec_is_ancestor_or_equal(owner@, t.target)),
                None => true,
            },
        decreases vertex@.transitions.len() - i,
    {
        assert(vertex@.transitions[i as int] == vertex.transitions@[i as int]@);
        match model.get_transition(vertex.transitions[i].as_str()) {
            Some(transition) => {
                if transition.target.unicode_len() != 0 && !text::str_eq(transition.target.as_str(), owner) && !path::is_ancestor_or_equal(owner, transition.target.as_str()) {
                    return fail(concat5("History '", name, "' must target inside '", owner, "'"));
                }
            },
            None => {},
        }
        i += 1;
    }
    Ok(())
}

fn validate_vertex(model: &Model, name: &str, vertex: &Vertex) -> (r: Result<(), HsmError>)
    ensures
        r is Ok <==> vertex_ok(*model, name@, vertex@),
        r is Err ==> r matches Err(HsmError::Validation(_)),
{
    if kind::is_kind(vertex.element.kind, kind::INITIAL) && vertex.transitions.len() > 1 {
        return fail(concat4("Initial '", name, "'", " cannot have multiple transitions"));
    }
    if kind::is_kind(vertex.element.kind, kind::ENTRY_POINT) {
        let r = validate_entry_point_declaration(model, name, vertex);
        if r.is_err() {
            return r;
        }
    }
    if kind::is_kind(vertex.element.kind, kind::SHALLOW_HISTORY) || kind::is_kind(vertex.element.kind, kind::DEEP_HISTORY) {
        return validate_history_declaration(model, name, vertex);
    }
    Ok(())
}

/// A choice ends with its only guardless transition.
pub open spec fn choice_ok(m: Model, v: VertexView) -> bool {
    spec_is_kind(v.element.kind, kind::CHOICE) ==> {
        &&& v.transitions.len() > 0
        &&& m.transition_of(v.transitions.last()) matches Some(t) && t.guard.len() == 0
        &&& forall|i: int| 0 <= i < v.transitions.len() - 1 ==> !(#[trigger] m.transition_of(v.transitions[i]) matches Some(t) && t.guard.len() == 0)
    }
}

fn is_guardless(model: &Model, transition_name: &str) -> (r: bool)
    ensures
        r == (model.transition_of(transition_name@) matches Some(t) && t.guard.len() == 0),
{
    match model.get_transition(transition_name) {
        Some(t) => t.guard.unicode_len() == 0,
        None => false,
    }
}

fn validate_choice(model: &Model, name: &str, vertex: &Vertex) -> (r: Result<(), HsmError>)
    ensures
        r is Ok <==> choice_ok(*model, vertex@),
        r is Err ==> r matches Err(HsmError::Validation(_)),
        r matches Err(HsmError::Validation(msg)) ==> msg@ == choice_message(*model, name@, vertex@),
{
    if !kind::is_kind(vertex.element.kind, kind::CHOICE) {
        return Ok(());
    }
    let n = vertex.transitions.len();
    if n == 0 {
        return fail(concat4("Choice state '", name, "'", " must have a guardless fallback transition"));
    }
    assert(vertex@.transitions.last() == vertex.transitions@[n - 1]@);
    if !is_guardless(model, vertex.transitions[n - 1].as_str()) {
        return fail(concat4("Choice state '", name, "'", " must have a guardless fallback transition"));
    }
    let mut i: usize = 0;
    while i < n - 1
        invariant
            n == vertex@.transitions.len(),
            n > 0,
            0 <= i <= n - 1,
            spec_is_kind(vertex@.element.kind, kind::CHOICE),
            model.transition_of(vertex@.transitions.last()) matches Some(t) && t.guard.len() == 0,
            forall|k: int| 0 <= k < i ==> !(#[trigger] model.transition_of(vertex@.transitions[k]) matches Some(t) && t.guard.len() == 0),
        decreases n - 1 - i,
    {
        assert(vertex@.transitions[i as int] == vertex.transitions@[i as int]@);
        if is_guardless(model, vertex.transitions[i].as_str()) {
            return fail(concat4("Choice state '", name, "'", " guardless fallback must be last"));
        }
        i += 1;
    }
    Ok(())
}

/// A final state has nothing inside it.
pub open spec fn final_state_ok(m: Model, name: Seq<char>, s: crate::element::StateView) -> bool {
    spec_is_kind(s.vertex.element.kind, kind::FINAL_STATE) ==> (s.vertex.transitions.len() == 0 && s.entry.len() == 0 && s.exit.len() == 0
        && s.activities.len() == 0 && s.initial.len() == 0 && s.deferred.len() == 0 && !has_child_state(m, name))
}

/// Every rule of a well-formed model.
pub open spec fn valid_model(m: Model) -> bool {
    &&& rules_before_choices(m)
    &&& choices_ok(m)
    &&& finals_ok(m)
}

/// Every choice ends with its only guardless transition.
pub open spec fn choices_ok(m: Model) -> bool {
    forall|j: int| 0 <= j < m.members@.len() ==> match #[trigger] m.members@[j].1 {
        ElementVariant::Vertex(v) => choice_ok(m, v@),
        _ => true,
    }
}

/// The message for a choice that breaks its rule.
pub open spec fn choice_message(m: Model, name: Seq<char>, v: VertexView) -> Seq<char> {
    if v.transitions.len() == 0 || !(m.transition_of(v.transitions.last()) matches Some(t) && t.guard.len() == 0) {
        "Choice state '"@ + name + "'"@ + " must have a guardless fallback transition"@
    } else {
        "Choice state '"@ + name + "'"@ + " guardless fallback must be last"@
    }
}

/// The member at `i` is the first choice that breaks its rule.
pub open spec fn first_bad_choice(m: Model, i: int) -> bool {
    &&& 0 <= i < m.members@.len()
    &&& m.members@[i].1 matches ElementVariant::Vertex(v) && !choice_ok(m, v@)
    &&& forall|j: int| 0 <= j < i ==> match #[trigger] m.members@[j].1 {
        ElementVariant::Vertex(v) => choice_ok(m, v@),
        _ => true,
    }
}

/// The message for the first choice that breaks its rule.
pub open spec fn first_choice_message(m: Model) -> Seq<char> {
    let i = choose|i: int| first_bad_choice(m, i);
    match m.members@[i].1 {
        ElementVariant::Vertex(v) => choice_message(m, m.members@[i].0@, v@),
        _ => seq![],
    }
}

/// The message for a machine without an initial pseudostate.
pub open spec fn initial_required_message(root: Seq<char>) -> Seq<char> {
    "Initial state is required for state machine '"@ + root + "'"@
}

/// The rules checked before the choices.
pub open spec fn rules_before_choices(m: Model) -> bool {
    &&& model_name_ok(m)
    &&& m.state.initial@.len() > 0
    &&& has_key(m.members@, m.state.initial@)
    &&& forall|j: int| 0 <= j < m.members@.len() ==> match #[trigger] m.members@[j].1 {
        ElementVariant::State(s) => s.initial@.len() == 0 || has_key(m.members@, s.initial@),
        _ => true,
    }
    &&& composite_targets_ok(m)
    &&& forall|j: int| 0 <= j < m.members@.len() ==> declaration_ok(m, m.members@[j].0@, #[trigger] m.members@[j].1)
    &&& forall|j: int| 0 <= j < m.members@.len() ==> member_owner_ok(m, #[trigger] m.members@[j].0@)
    &&& history_cardinality_ok(m)
    &&& forall|j: int| 0 <= j < m.members@.len() ==> match #[trigger] m.members@[j].1 {
        ElementVariant::Transition(t) => transition_ok(m, m.members@[j].0@, t@),
        _ => true,
    }
    &&& forall|j: int| 0 <= j < m.members@.len() ==> match #[trigger] m.members@[j].1 {
        ElementVariant::Vertex(v) => vertex_ok(m, m.members@[j].0@, v@),
        _ => true,
    }
}

fn validate_state_initials(model: &Model) -> (r: Result<(), HsmError>)
    ensures
        r is Ok <==> forall|j: int| 0 <= j < model.members@.len() ==> match #[trigger] model.members@[j].1 {
            ElementVariant::State(s) => s.initial@.len() == 0 || has_key(model.members@, s.initial@),
            _ => true,
        },
        r is Err ==> r matches Err(HsmError::Validation(_)),
{
    let mut i: usize = 0;
    while i < model.members.len()
        invariant
            0 <= i <= model.members@.len(),
            forall|j: int| 0 <= j < i ==> match #[trigger] model.members@[j].1 {
                ElementVariant::State(s) => s.initial@.len() == 0 || has_key(model.members@, s.initial@),
                _ => true,
            },
        decreases model.members@.len() - i,
    {
        match &model.members[i].1 {
            ElementVariant::State(state) => {
                if state.initial.unicode_len() != 0 && !assoc::contains_key(&model.members, state.initial.as_str()) {
                    return fail(concat5("Initial vertex '", state.initial.as_str(), "' not found for state '", model.members[i].0.as_str(), "'"));
                }
            },
            _ => {},
        }
        i += 1;
    }
    Ok(())
}

fn validate_declarations(model: &Model) -> (r: Result<(), HsmError>)
    ensures
        r is Ok <==> forall|j: int| 0 <= j < model.members@.len() ==> declaration_ok(*model, model.members@[j].0@, #[trigger] model.members@[j].1),
        r is Err ==> r matches Err(HsmError::Validation(_)),
{
    let mut i: usize = 0;
    while i < model.members.len()
        invariant
            0 <= i <= model.members@.len(),
            forall|j: int| 0 <= j < i ==> declaration_ok(*model, model.members@[j].0@, #[trigger] model.members@[j].1),
        decreases model.members@.len() - i,
    {
        let r = validate_declaration(model, model.members[i].0.as_str(), &model.members[i].1);
        if r.is_err() {
            return r;
        }
        i += 1;
    }
    Ok(())
}

fn validate_member_owners(model: &Model) -> (r: Result<(), HsmError>)
    ensures
        r is Ok <==> forall|j: int| 0 <= j < model.members@.len() ==> member_owner_ok(*model, #[trigger] model.members@[j].0@),
        r is Err ==> r matches Err(HsmError::Validation(_)),
{
    let mut i: usize = 0;
    while i < model.members.len()
        invariant
            0 <= i <= model.members@.len(),
            forall|j: int| 0 <= j < i ==> member_owner_ok(*model, #[trigger] model.members@[j].0@),
        decreases model.members@.len() - i,
    {
        let r = validate_member_owner(model, model.members[i].0.as_str(), &model.members[i].1);
        if r.is_err() {
            return r;
        }
        i += 1;
    }
    Ok(())
}

fn validate_transitions(model: &Model) -> (r: Result<(), HsmError>)
    ensures
        r is Ok <==> forall|j: int| 0 <= j < model.members@.len() ==> match #[trigger] model.members@[j].1 {
            ElementVariant::Transition(t) => transition_ok(*model, model.members@[j].0@, t@),
            _ => true,
        },
        r is Err ==> r matches Err(HsmError::Validation(_)),
{
    let mut i: usize = 0;
    while i < model.members.len()
        invariant
            0 <= i <= model.members@.len(),
            forall|j: int| 0 <= j < i ==> match #[trigger] model.members@[j].1 {
                ElementVariant::Transition(t) => transition_ok(*model, model.members@[j].0@, t@),
                _ => true,
            },
        decreases model.members@.len() - i,
    {
        match &model.members[i].1 {
            ElementVariant::Transition(t) => {
                let r = validate_transition(model, model.members[i].0.as_str(), t);
                if r.is_err() {
                    return r;
                }
            },
            _ => {},
        }
        i += 1;
    }
    Ok(())
}

fn validate_vertices(model: &Model) -> (r: Result<(), HsmError>)
    ensures
        r is Ok <==> forall|j: int| 0 <= j < model.members@.len() ==> match #[trigger] model.members@[j].1 {
            ElementVariant::Vertex(v) => vertex_ok(*model, model.members@[j].0@, v@),
            _ => true,
        },
        r is Err ==> r matches Err(HsmError::Validation(_)),
{
    let mut i: usize = 0;
    while i < model.members.len()
        invariant
            0 <= i <= model.members@.len(),
            forall|j: int| 0 <= j < i ==> match #[trigger] model.members@[j].1 {
                ElementVariant::Vertex(v) => vertex_ok(*model, model.members@[j].0@, v@),
                _ => true,
            },
        decreases model.members@.len() - i,
    {
        match &model.members[i].1 {
            ElementVariant::Vertex(v) => {
                let r = validate_vertex(model, model.members[i].0.as_str(), v);
                if r.is_err() {
                    return r;
                }
            },
            _ => {},
        }
        i += 1;
    }
    Ok(())
}

proof fn lemma_first_bad_choice_unique(m: Model, i: int)
    requires
        first_bad_choice(m, i),
    ensures
        (choose|k: int| first_bad_choice(m, k)) == i,
{
    let k = choose|k: int| first_bad_choice(m, k);
    assert(first_bad_choice(m, k));
    if k < i {
        assert(match m.members@[k].1 {
            ElementVariant::Vertex(v) => choice_ok(m, v@),
            _ => true,
        });
    } else if i < k {
        assert(match m.members@[i].1 {
            ElementVariant::Vertex(v) => choice_ok(m, v@),
            _ => true,
        });
    }
}

fn validate_choices(model: &Model) -> (r: Result<(), HsmError>)
    ensures
        r is Ok <==> choices_ok(*model),
        r is Err ==> r matches Err(HsmError::Validation(_)),
        r matches Err(HsmError::Validation(msg)) ==> msg@ == first_choice_message(*model),
{
    let mut i: usize = 0;
    while i < model.members.len()
        invariant
            0 <= i <= model.members@.len(),
            forall|j: int| 0 <= j < i ==> match #[trigger] model.members@[j].1 {
                ElementVariant::Vertex(v) => choice_ok(*model, v@),
                _ => true,
            },
        decreases model.members@.len() - i,
    {
        match &model.members[i].1 {
            ElementVariant::Vertex(v) => {
                let r = validate_choice(model, model.members[i].0.as_str(), v);
                if r.is_err() {
                    proof {
                        assert(first_bad_choice(*model, i as int));
                        lemma_first_bad_choice_unique(*model, i as int);
                    }
                    return r;
                }
            },
            _ => {},
        }
        i += 1;
    }
    Ok(())
}

fn validate_final_states(model: &Model) -> (r: Result<(), HsmError>)
    ensures
        r is Ok <==> finals_ok(*model),
        r is Err ==> r matches Err(HsmError::Validation(_)),
        r matches Err(HsmError::Validation(msg)) ==> msg@ == first_final_message(*model),
{
    let mut i: usize = 0;
    while i < model.members.len()
        invariant
            0 <= i <= model.members@.len(),
            forall|j: int| 0 <= j < i ==> match #[trigger] model.members@[j].1 {
                ElementVariant::State(s) => final_state_ok(*model, model.members@[j].0@, s@),
                _ => true,
            },
        decreases model.members@.len() - i,
    {
        match &model.members[i].1 {
            ElementVariant::State(state) => {
                let name = model.members[i].0.as_str();
                if kind::is_kind(state.vertex.element.kind, kind::FINAL_STATE) {
                    if state.vertex.transitions.len() != 0 || state.entry.len() != 0 || state.exit.len() != 0 || state.activities.len() != 0
                        || state.initial.unicode_len() != 0 || state.deferred.len() != 0 || has_direct_child_state(model, name) {
                        proof {
                            assert(first_bad_final(*model, i as int));
                            lemma_first_bad_final_unique(*model, i as int);
                        }
                        return fail(concat4("Final state '", name, "'", " cannot have transitions, entry/exit actions, activities, initial transitions, defer events, or child states"));
                    }
                }
            },
            _ => {},
        }
        i += 1;
    }
    Ok(())
}

/// Checks every rule of a well-formed model (see `valid_model`).
fn validate_model(model: &Model) -> (r: Result<(), HsmError>)
    ensures
        r is Ok <==> valid_model(*model),
        r is Err ==> r matches Err(HsmError::Validation(_)),
        model_name_ok(*model) && model.state.initial@.len() == 0 ==> (r matches Err(HsmError::Validation(msg)) && msg@ == initial_required_message(model.root())),
        rules_before_choices(*model) && !choices_ok(*model) ==> (r matches Err(HsmError::Validation(msg)) && msg@ == first_choice_message(*model)),
        !model_name_ok(*model) ==> (r matches Err(HsmError::Validation(msg)) && msg@ == name_message(*model)),
        model_name_ok(*model) && model.state.initial@.len() > 0 && !has_key(model.members@, model.state.initial@) ==> (r matches Err(HsmError::Validation(msg)) && msg@ == initial_not_found_message(*model)),
        rules_before_choices(*model) && choices_ok(*model) && !finals_ok(*model) ==> (r matches Err(HsmError::Validation(msg)) && msg@ == first_final_message(*model)),
{
    let r = validate_model_name(model);
    if r.is_err() {
        return r;
    }
    if model.state.initial.unicode_len() == 0 {
        proof {
            reveal_strlit("");
            assert(""@ =~= Seq::<char>::empty());
        }
        return fail(concat4("Initial state is required for state machine '", model.state.vertex.element.qualified_name.as_str(), "'", ""));
    }
    if !assoc::contains_key(&model.members, model.state.initial.as_str()) {
        return fail(concat5("Initial vertex '", model.state.initial.as_str(), "' not found for state machine '", model.state.vertex.element.qualified_name.as_str(), "'"));
    }
    let r = validate_state_initials(model);
    if r.is_err() {
        return r;
    }
    let r = validate_composite_transition_targets(model);
    if r.is_err() {
        return r;
    }
    let r = validate_declarations(model);
    if r.is_err() {
        return r;
    }
    let r = validate_member_owners(model);
    if r.is_err() {
        return r;
    }
    let r = validate_state_history_cardinality(model);
    if r.is_err() {
        return r;
    }
    let r = validate_transitions(model);
    if r.is_err() {
        return r;
    }
    let r = validate_vertices(model);
    if r.is_err() {
        return r;
    }
    let r = validate_choices(model);
    if r.is_err() {
        return r;
    }
    validate_final_states(model)
}

/// The rules every model is checked against.
#[derive(Clone, Copy, Debug)]
pub struct DefaultModelValidator;

impl DefaultModelValidator {
    /// Checks the model against every rule: `Ok` exactly when it is
    /// well-formed (see `valid_model`); otherwise a validation error.
    pub fn validate(&self, model: &Model) -> (r: Result<(), HsmError>)
        ensures
            r is Ok <==> valid_model(*model),
            r is Err ==> r matches Err(HsmError::Validation(_)),
            model_name_ok(*model) && model.state.initial@.len() == 0 ==> (r matches Err(HsmError::Validation(msg)) && msg@ == initial_required_message(model.root())),
            rules_before_choices(*model) && !choices_ok(*model) ==> (r matches Err(HsmError::Validation(msg)) && msg@ == first_choice_message(*model)),
            !model_name_ok(*model) ==> (r matches Err(HsmError::Validation(msg)) && msg@ == name_message(*model)),
            model_name_ok(*model) && model.state.initial@.len() > 0 && !has_key(model.members@, model.state.initial@) ==> (r matches Err(HsmError::Validation(msg)) && msg@ == initial_not_found_message(*model)),
            rules_before_choices(*model) && choices_ok(*model) && !finals_ok(*model) ==> (r matches Err(HsmError::Validation(msg)) && msg@ == first_final_message(*model)),
    {
        validate_model(model)
    }
}

impl ModelValidator for DefaultModelValidator {
    fn validate(&self, model: &Model) -> Result<(), HsmError> {
        validate_model(model)
    }
}

/// Checks a model before it runs against the default rules: `Ok` exactly
/// when it is well-formed. A model that declares a custom validator is
/// checked by that validator instead: the caller runs it (see
/// `selected_model_validator`) and hands its outcome to
/// `validate_with_custom`.
pub fn validate(model: &Model) -> (r: Result<(), HsmError>)
    ensures
        crate::model_lifecycle::best_validator(model.members@) is None ==> (r is Ok <==> valid_model(*model)),
        r is Err ==> r matches Err(HsmError::Validation(_)),
        crate::model_lifecycle::best_validator(model.members@) is None ==> (model_name_ok(*model) && model.state.initial@.len() == 0 ==> (r matches Err(HsmError::Validation(msg)) && msg@ == initial_required_message(model.root()))),
        crate::model_lifecycle::best_validator(model.members@) is None ==> (rules_before_choices(*model) && !choices_ok(*model) ==> (r matches Err(HsmError::Validation(msg)) && msg@ == first_choice_message(*model))),
        crate::model_lifecycle::best_validator(model.members@) is None ==> (!model_name_ok(*model) ==> (r matches Err(HsmError::Validation(msg)) && msg@ == name_message(*model))),
        crate::model_lifecycle::best_validator(model.members@) is None ==> (model_name_ok(*model) && model.state.initial@.len() > 0 && !has_key(model.members@, model.state.initial@) ==> (r matches Err(HsmError::Validation(msg)) && msg@ == initial_not_found_message(*model))),
        crate::model_lifecycle::best_validator(model.members@) is None ==> (rules_before_choices(*model) && choices_ok(*model) && !finals_ok(*model) ==> (r matches Err(HsmError::Validation(msg)) && msg@ == first_final_message(*model))),
{
    validate_model(model)
}

/// Checks a model, given `custom`: what running the custom validator the
/// model selects gave (`None` when that validator is not available). A model
/// that selects a custom validator gets that validator's outcome; every
/// other model is checked against the default rules (see `valid_model`).
pub fn validate_with_custom(model: &Model, custom: Option<Result<(), HsmError>>) -> (r: Result<(), HsmError>)
    ensures
        crate::model_lifecycle::best_validator(model.members@) is Some && custom is Some ==> r == custom->0,
        crate::model_lifecycle::best_validator(model.members@) is Some && custom is None ==> (r matches Err(HsmError::Validation(m)) && m@ == "model validator is not registered"@),
        crate::model_lifecycle::best_validator(model.members@) is None ==> (r is Ok <==> valid_model(*model)),
        crate::model_lifecycle::best_validator(model.members@) is None ==> (r is Err ==> r matches Err(HsmError::Validation(_))),
{
    if crate::model_lifecycle::selected_model_validator(model).is_some() {
        match custom {
            Some(c) => c,
            None => Err(HsmError::Validation(text::owned("model validator is not registered"))),
        }
    } else {
        validate_model(model)
    }
}

/// A model with a transition whose target is a state other than a final
/// one, with a state directly inside it and no initial pseudostate, is not
/// well-formed: entering that target could not settle on a child.
pub proof fn law_composite_target_needs_initial(m: Model, j: int, k: int)
    requires
        0 <= j < m.members@.len(),
        m.members@[j].1 is Transition,
        ({
            let t = m.members@[j].1->Transition_0@;
            &&& t.target.len() > 0
            &&& m.state_of(t.target) matches Some(st) && !spec_is_kind(st.vertex.element.kind, kind::FINAL_STATE) && st.initial.len() == 0
        }),
        0 <= k < m.members@.len(),
        m.members@[k].1 is State,
        spec_dirname(m.members@[k].0@) == m.members@[j].1->Transition_0@.target,
    ensures
        !valid_model(m),
{
    let t = m.members@[j].1->Transition_0@;
    assert(has_child_state(m, t.target));
    assert(!composite_target_ok(m, t));
    assert(!(match m.members@[j].1 {
        ElementVariant::Transition(x) => composite_target_ok(m, x@),
        _ => true,
    }));
    assert(!composite_targets_ok(m));
}

} // verus!
