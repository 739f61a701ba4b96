//! The elements a state-machine model is made of.

use std::collections::BTreeMap;
use std::sync::Arc;

use vstd::prelude::*;

use crate::error::HsmError;
use crate::event::Event;
use crate::kind::{self, KindValue};
use crate::model::Model;
use crate::path::{basename, dirname, spec_basename, spec_dirname};
use crate::text;

verus! {

/// Handle of an entry action registered with the runtime.
pub type EntryFn = u64;

/// Handle of a transition effect registered with the runtime.
pub type EffectFn = u64;

/// Handle of an exit action registered with the runtime.
pub type ExitFn = u64;

/// Handle of an activity registered with the runtime.
pub type ActivityFn = u64;

/// Handle of a guard registered with the runtime.
pub type GuardFn = u64;

/// Handle of a timer-duration function registered with the runtime.
pub type DurationFn = u64;

/// Handle of a timer-timepoint function registered with the runtime.
pub type TimepointFn = u64;

/// Handle of an operation registered with the runtime.
pub type OperationFn = u64;

/// Handle of a custom model validator registered with the runtime.
pub type ValidatorFn = u64;

/// Handle of a custom model finalizer registered with the runtime.
pub type FinalizerFn = u64;

/// Checks a finished model.
pub trait ModelValidator {
    fn validate(&self, model: &Model) -> Result<(), HsmError>;
}

/// Computes the runtime tables of a finished model.
pub trait ModelFinalizer {
    fn finalize(&self, model: &mut Model);
}

/// Anything with a kind and a qualified name.
pub trait Element {
    spec fn spec_kind(&self) -> KindValue;

    spec fn spec_qualified_name(&self) -> Seq<char>;

    fn kind(&self) -> (r: KindValue)
        ensures
            r == self.spec_kind(),
    ;

    fn qualified_name(&self) -> (r: &str)
        ensures
            r@ == self.spec_qualified_name(),
    ;

    /// The qualified name of the element's owner.
    fn owner(&self) -> (r: String)
        ensures
            r@ == spec_dirname(self.spec_qualified_name()),
    {
        text::owned(dirname(self.qualified_name()))
    }

    /// The element's own name (the last segment of its qualified name).
    fn name(&self) -> (r: String)
        ensures
            r@ == spec_basename(self.spec_qualified_name()),
    {
        text::owned(basename(self.qualified_name()))
    }
}

/// The text of each name in a list.
pub open spec fn names_view(names: Seq<String>) -> Seq<Seq<char>> {
    names.map_values(|s: String| s@)
}

/// Clones a list of names.
pub fn clone_names(names: &Vec<String>) -> (r: Vec<String>)
    ensures
        r@ == names@,
        names_view(r@) == names_view(names@),
{
    let mut r: Vec<String> = Vec::new();
    let mut i: usize = 0;
    while i < names.len()
        invariant
            0 <= i <= names.len(),
            r@ == names@.subrange(0, i as int),
        decreases names.len() - i,
    {
        r.push(names[i].clone());
        proof {
            assert(names@.subrange(0, i as int + 1) =~= names@.subrange(0, i as int).push(
                names@[i as int],
            ));
        }
        i += 1;
    }
    proof {
        assert(names@.subrange(0, names.len() as int) =~= names@);
    }
    r
}

/// Whether `n` is one of the names.
pub fn contains_name(names: &Vec<String>, n: &str) -> (r: bool)
    ensures
        r == names_view(names@).contains(n@),
{
    let mut i: usize = 0;
    while i < names.len()
        invariant
            0 <= i <= names.len(),
            forall|j: int| 0 <= j < i ==> names@[j]@ != n@,
        decreases names.len() - i,
    {
        if text::str_eq(names[i].as_str(), n) {
            assert(names_view(names@)[i as int] == n@);
            return true;
        }
        i += 1;
    }
    proof {
        if names_view(names@).contains(n@) {
            let k = choose|k: int| 0 <= k < names_view(names@).len() && names_view(names@)[k] == n@;
            assert(names@[k]@ == n@);
        }
    }
    false
}

pub struct NamedElement {
    pub kind: KindValue,
    pub qualified_name: String,
}

/// Kind and qualified name of an element.
#[verifier::ext_equal]
pub struct NamedElementView {
    pub kind: KindValue,
    pub qualified_name: Seq<char>,
}

impl View for NamedElement {
    type V = NamedElementView;

    open spec fn view(&self) -> NamedElementView {
        NamedElementView { kind: self.kind, qualified_name: self.qualified_name@ }
    }
}

impl Clone for NamedElement {
    fn clone(&self) -> (r: Self)
        ensures
            r@ == self@,
    {
        NamedElement { kind: self.kind, qualified_name: self.qualified_name.clone() }
    }
}

impl Element for NamedElement {
    open spec fn spec_kind(&self) -> KindValue {
        self.kind
    }

    open spec fn spec_qualified_name(&self) -> Seq<char> {
        self.qualified_name@
    }

    fn kind(&self) -> KindValue {
        self.kind
    }

    fn qualified_name(&self) -> &str {
        self.qualified_name.as_str()
    }
}

pub struct Vertex {
    pub element: NamedElement,
    pub transitions: Vec<String>,
}

#[verifier::ext_equal]
pub struct VertexView {
    pub element: NamedElementView,
    pub transitions: Seq<Seq<char>>,
}

impl View for Vertex {
    type V = VertexView;

    open spec fn view(&self) -> VertexView {
        VertexView { element: self.element@, transitions: names_view(self.transitions@) }
    }
}

impl Clone for Vertex {
    fn clone(&self) -> (r: Self)
        ensures
            r@ == self@,
    {
        Vertex { element: self.element.clone(), transitions: clone_names(&self.transitions) }
    }
}

impl Element for Vertex {
    open spec fn spec_kind(&self) -> KindValue {
        self.element.kind
    }

    open spec fn spec_qualified_name(&self) -> Seq<char> {
        self.element.qualified_name@
    }

    fn kind(&self) -> KindValue {
        self.element.kind
    }

    fn qualified_name(&self) -> &str {
        self.element.qualified_name.as_str()
    }
}

pub struct State {
    pub vertex: Vertex,
    pub initial: String,
    pub entry: Vec<String>,
    pub exit: Vec<String>,
    pub activities: Vec<String>,
    pub deferred: Vec<String>,
}

#[verifier::ext_equal]
pub struct StateView {
    pub vertex: VertexView,
    pub initial: Seq<char>,
    pub entry: Seq<Seq<char>>,
    pub exit: Seq<Seq<char>>,
    pub activities: Seq<Seq<char>>,
    pub deferred: Seq<Seq<char>>,
}

impl View for State {
    type V = StateView;

    open spec fn view(&self) -> StateView {
        StateView {
            vertex: self.vertex@,
            initial: self.initial@,
            entry: names_view(self.entry@),
            exit: names_view(self.exit@),
            activities: names_view(self.activities@),
            deferred: names_view(self.deferred@),
        }
    }
}

impl Clone for State {
    fn clone(&self) -> (r: Self)
        ensures
            r@ == self@,
    {
        State {
            vertex: self.vertex.clone(),
            initial: self.initial.clone(),
            entry: clone_names(&self.entry),
            exit: clone_names(&self.exit),
            activities: clone_names(&self.activities),
            deferred: clone_names(&self.deferred),
        }
    }
}

impl Element for State {
    open spec fn spec_kind(&self) -> KindValue {
        self.vertex.element.kind
    }

    open spec fn spec_qualified_name(&self) -> Seq<char> {
        self.vertex.element.qualified_name@
    }

    fn kind(&self) -> KindValue {
        self.vertex.element.kind
    }

    fn qualified_name(&self) -> &str {
        self.vertex.element.qualified_name.as_str()
    }
}

/// A state of the given kind and name with nothing in it.
pub open spec fn empty_state_view(kind: KindValue, qualified_name: Seq<char>) -> StateView {
    StateView {
        vertex: VertexView {
            element: NamedElementView { kind, qualified_name },
            transitions: seq![],
        },
        initial: seq![],
        entry: seq![],
        exit: seq![],
        activities: seq![],
        deferred: seq![],
    }
}

impl State {
    /// A state with no transitions, behaviors or initial vertex.
    pub fn empty(kind: KindValue, qualified_name: String) -> (r: State)
        ensures
            r@ == empty_state_view(kind, qualified_name@),
    {
        let r = State {
            vertex: Vertex {
                element: NamedElement { kind, qualified_name },
                transitions: Vec::new(),
            },
            initial: String::new(),
            entry: Vec::new(),
            exit: Vec::new(),
            activities: Vec::new(),
            deferred: Vec::new(),
        };
        assert(r@ =~= empty_state_view(kind, r.vertex.element.qualified_name@));
        r
    }
}

/// The states a transition leaves and enters, in order.
pub struct TransitionPath {
    pub enter: Vec<String>,
    pub exit: Vec<String>,
}

#[verifier::ext_equal]
pub struct TransitionPathView {
    pub enter: Seq<Seq<char>>,
    pub exit: Seq<Seq<char>>,
}

impl View for TransitionPath {
    type V = TransitionPathView;

    open spec fn view(&self) -> TransitionPathView {
        TransitionPathView { enter: names_view(self.enter@), exit: names_view(self.exit@) }
    }
}

impl Clone for TransitionPath {
    fn clone(&self) -> (r: Self)
        ensures
            r@ == self@,
    {
        TransitionPath { enter: clone_names(&self.enter), exit: clone_names(&self.exit) }
    }
}

/// The keyed paths of a transition, by their views.
pub open spec fn paths_view(paths: Seq<(String, TransitionPath)>) -> Seq<(Seq<char>, TransitionPathView)> {
    paths.map_values(|p: (String, TransitionPath)| (p.0@, p.1@))
}

/// Clones a list of keyed transition paths.
pub fn clone_paths(paths: &Vec<(String, TransitionPath)>) -> (r: Vec<(String, TransitionPath)>)
    ensures
        paths_view(r@) == paths_view(paths@),
{
    let mut r: Vec<(String, TransitionPath)> = Vec::new();
    let mut i: usize = 0;
    while i < paths.len()
        invariant
            0 <= i <= paths.len(),
            paths_view(r@) =~= paths_view(paths@.subrange(0, i as int)),
        decreases paths.len() - i,
    {
        let (key, path) = &paths[i];
        let ghost old_r = r@;
        let k2 = key.clone();
        let p2 = path.clone();
        r.push((k2, p2));
        proof {
            assert(r@ =~= old_r.push((k2, p2)));
            assert(paths_view(r@) =~= paths_view(old_r).push((key@, path@)));
            assert(paths@.subrange(0, i as int + 1) =~= paths@.subrange(0, i as int).push(
                paths@[i as int],
            ));
        }
        i += 1;
    }
    proof {
        assert(paths@.subrange(0, paths.len() as int) =~= paths@);
    }
    r
}

pub struct Transition {
    pub element: NamedElement,
    pub kind_override: Option<KindValue>,
    pub source: String,
    pub target: String,
    pub guard: String,
    pub effect: Vec<String>,
    pub events: Vec<String>,
    pub paths: Vec<(String, TransitionPath)>,
}

#[verifier::ext_equal]
pub struct TransitionView {
    pub element: NamedElementView,
    pub kind_override: Option<KindValue>,
    pub source: Seq<char>,
    pub target: Seq<char>,
    pub guard: Seq<char>,
    pub effect: Seq<Seq<char>>,
    pub events: Seq<Seq<char>>,
    pub paths: Seq<(Seq<char>, TransitionPathView)>,
}

impl View for Transition {
    type V = TransitionView;

    open spec fn view(&self) -> TransitionView {
        TransitionView {
            element: self.element@,
            kind_override: self.kind_override,
            source: self.source@,
            target: self.target@,
            guard: self.guard@,
            effect: names_view(self.effect@),
            events: names_view(self.events@),
            paths: paths_view(self.paths@),
        }
    }
}

impl Clone for Transition {
    fn clone(&self) -> (r: Self)
        ensures
            r@ == self@,
    {
        Transition {
            element: self.element.clone(),
            kind_override: self.kind_override,
            source: self.source.clone(),
            target: self.target.clone(),
            guard: self.guard.clone(),
            effect: clone_names(&self.effect),
            events: clone_names(&self.events),
            paths: clone_paths(&self.paths),
        }
    }
}

impl Element for Transition {
    open spec fn spec_kind(&self) -> KindValue {
        self.element.kind
    }

    open spec fn spec_qualified_name(&self) -> Seq<char> {
        self.element.qualified_name@
    }

    fn kind(&self) -> KindValue {
        self.element.kind
    }

    fn qualified_name(&self) -> &str {
        self.element.qualified_name.as_str()
    }
}

/// A transition of the given name from the given source, with nothing else set.
pub open spec fn fresh_transition_view(
    qualified_name: Seq<char>,
    source: Seq<char>,
    events: Seq<Seq<char>>,
) -> TransitionView {
    TransitionView {
        element: NamedElementView { kind: kind::TRANSITION, qualified_name },
        kind_override: None,
        source,
        target: seq![],
        guard: seq![],
        effect: seq![],
        events,
        paths: seq![],
    }
}

impl Transition {
    /// A transition from `source` with no target, guard, effect or trigger yet.
    pub fn from_source(qualified_name: String, source: String) -> (r: Transition)
        ensures
            r@ == fresh_transition_view(qualified_name@, source@, seq![]),
    {
        let r = Transition {
            element: NamedElement { kind: kind::TRANSITION, qualified_name },
            kind_override: None,
            source,
            target: String::new(),
            guard: String::new(),
            effect: Vec::new(),
            events: Vec::new(),
            paths: Vec::new(),
        };
        assert(r@ =~= fresh_transition_view(r.element.qualified_name@, r.source@, seq![]));
        r
    }
}

/// What a behavior runs when it is not one of the plain actions.
pub enum BehaviorOperation {
    Operation(String),
    Observation { observer: OperationFn, source: String, occurrence: String },
}

#[verifier::ext_equal]
pub enum BehaviorOperationView {
    Operation(Seq<char>),
    Observation { observer: OperationFn, source: Seq<char>, occurrence: Seq<char> },
}

impl View for BehaviorOperation {
    type V = BehaviorOperationView;

    open spec fn view(&self) -> BehaviorOperationView {
        match self {
            BehaviorOperation::Operation(n) => BehaviorOperationView::Operation(n@),
            BehaviorOperation::Observation { observer, source, occurrence } => {
                BehaviorOperationView::Observation {
                    observer: *observer,
                    source: source@,
                    occurrence: occurrence@,
                }
            },
        }
    }
}

impl Clone for BehaviorOperation {
    fn clone(&self) -> (r: Self)
        ensures
            r@ == self@,
    {
        match self {
            BehaviorOperation::Operation(name) => BehaviorOperation::Operation(name.clone()),
            BehaviorOperation::Observation { observer, source, occurrence } => {
                BehaviorOperation::Observation {
                    observer: *observer,
                    source: source.clone(),
                    occurrence: occurrence.clone(),
                }
            },
        }
    }
}

impl BehaviorOperation {
    /// The referenced operation's name, for an operation reference.
    pub fn operation_name(&self) -> (r: Option<&str>)
        ensures
            self matches BehaviorOperation::Operation(n) ==> (r matches Some(s) && s@ == n@),
            self is Observation ==> r is None,
    {
        match self {
            BehaviorOperation::Operation(name) => Some(name.as_str()),
            BehaviorOperation::Observation { .. } => None,
        }
    }
}

/// The view of an optional behavior operation.
pub open spec fn operation_view(op: Option<BehaviorOperation>) -> Option<BehaviorOperationView> {
    match op {
        Some(o) => Some(o@),
        None => None,
    }
}

pub struct Behavior {
    pub element: NamedElement,
    pub entry: Option<EntryFn>,
    pub effect: Option<EffectFn>,
    pub exit: Option<ExitFn>,
    pub activity: Option<ActivityFn>,
    pub operation: Option<BehaviorOperation>,
}

#[verifier::ext_equal]
pub struct BehaviorView {
    pub element: NamedElementView,
    pub entry: Option<EntryFn>,
    pub effect: Option<EffectFn>,
    pub exit: Option<ExitFn>,
    pub activity: Option<ActivityFn>,
    pub operation: Option<BehaviorOperationView>,
}

impl View for Behavior {
    type V = BehaviorView;

    open spec fn view(&self) -> BehaviorView {
        BehaviorView {
            element: self.element@,
            entry: self.entry,
            effect: self.effect,
            exit: self.exit,
            activity: self.activity,
            operation: operation_view(self.operation),
        }
    }
}

impl Clone for Behavior {
    fn clone(&self) -> (r: Self)
        ensures
            r@ == self@,
    {
        Behavior {
            element: self.element.clone(),
            entry: self.entry,
            effect: self.effect,
            exit: self.exit,
            activity: self.activity,
            operation: match &self.operation {
                Some(op) => Some(op.clone()),
                None => None,
            },
        }
    }
}

impl Element for Behavior {
    open spec fn spec_kind(&self) -> KindValue {
        self.element.kind
    }

    open spec fn spec_qualified_name(&self) -> Seq<char> {
        self.element.qualified_name@
    }

    fn kind(&self) -> KindValue {
        self.element.kind
    }

    fn qualified_name(&self) -> &str {
        self.element.qualified_name.as_str()
    }
}

pub struct Constraint {
    pub element: NamedElement,
    pub guard: Option<GuardFn>,
    pub operation: Option<String>,
    pub duration: Option<DurationFn>,
    pub timepoint: Option<TimepointFn>,
}

#[verifier::ext_equal]
pub struct ConstraintView {
    pub element: NamedElementView,
    pub guard: Option<GuardFn>,
    pub operation: Option<Seq<char>>,
    pub duration: Option<DurationFn>,
    pub timepoint: Option<TimepointFn>,
}

/// The text of an optional name.
pub open spec fn opt_name_view(name: Option<String>) -> Option<Seq<char>> {
    match name {
        Some(n) => Some(n@),
        None => None,
    }
}

impl View for Constraint {
    type V = ConstraintView;

    open spec fn view(&self) -> ConstraintView {
        ConstraintView {
            element: self.element@,
            guard: self.guard,
            operation: opt_name_view(self.operation),
            duration: self.duration,
            timepoint: self.timepoint,
        }
    }
}

impl Clone for Constraint {
    fn clone(&self) -> (r: Self)
        ensures
            r@ == self@,
    {
        Constraint {
            element: self.element.clone(),
            guard: self.guard,
            operation: match &self.operation {
                Some(op) => Some(op.clone()),
                None => None,
            },
            duration: self.duration,
            timepoint: self.timepoint,
        }
    }
}

impl Element for Constraint {
    open spec fn spec_kind(&self) -> KindValue {
        self.element.kind
    }

    open spec fn spec_qualified_name(&self) -> Seq<char> {
        self.element.qualified_name@
    }

    fn kind(&self) -> KindValue {
        self.element.kind
    }

    fn qualified_name(&self) -> &str {
        self.element.qualified_name.as_str()
    }
}

pub struct Operation {
    pub element: NamedElement,
    pub action: Option<OperationFn>,
    pub guard: Option<GuardFn>,
}

#[verifier::ext_equal]
pub struct OperationView {
    pub element: NamedElementView,
    pub action: Option<OperationFn>,
    pub guard: Option<GuardFn>,
}

impl View for Operation {
    type V = OperationView;

    open spec fn view(&self) -> OperationView {
        OperationView { element: self.element@, action: self.action, guard: self.guard }
    }
}

impl Clone for Operation {
    fn clone(&self) -> (r: Self)
        ensures
            r@ == self@,
    {
        Operation { element: self.element.clone(), action: self.action, guard: self.guard }
    }
}

impl Element for Operation {
    open spec fn spec_kind(&self) -> KindValue {
        self.element.kind
    }

    open spec fn spec_qualified_name(&self) -> Seq<char> {
        self.element.qualified_name@
    }

    fn kind(&self) -> KindValue {
        self.element.kind
    }

    fn qualified_name(&self) -> &str {
        self.element.qualified_name.as_str()
    }
}

pub struct Observation {
    pub element: NamedElement,
    pub observer: OperationFn,
    pub targets: Vec<String>,
}

#[verifier::ext_equal]
pub struct ObservationView {
    pub element: NamedElementView,
    pub observer: OperationFn,
    pub targets: Seq<Seq<char>>,
}

impl View for Observation {
    type V = ObservationView;

    open spec fn view(&self) -> ObservationView {
        ObservationView {
            element: self.element@,
            observer: self.observer,
            targets: names_view(self.targets@),
        }
    }
}

impl Clone for Observation {
    fn clone(&self) -> (r: Self)
        ensures
            r@ == self@,
    {
        Observation {
            element: self.element.clone(),
            observer: self.observer,
            targets: clone_names(&self.targets),
        }
    }
}

impl Element for Observation {
    open spec fn spec_kind(&self) -> KindValue {
        self.element.kind
    }

    open spec fn spec_qualified_name(&self) -> Seq<char> {
        self.element.qualified_name@
    }

    fn kind(&self) -> KindValue {
        self.element.kind
    }

    fn qualified_name(&self) -> &str {
        self.element.qualified_name.as_str()
    }
}

/// The type of an attribute value.
#[derive(PartialEq, Eq, Structural, Clone, Copy, Debug)]
pub enum AttributeType {
    Null,
    Bool,
    Int,
    String,
    Array,
    Object,
}

/// A value an attribute can hold.
#[derive(Debug, PartialEq, Eq)]
pub enum AttributeValue {
    Null,
    Bool(bool),
    Int(i64),
    String(String),
    Array(Vec<AttributeValue>),
    Object(BTreeMap<String, AttributeValue>),
}

pub open spec fn spec_value_type(v: AttributeValue) -> AttributeType {
    match v {
        AttributeValue::Null => AttributeType::Null,
        AttributeValue::Bool(_) => AttributeType::Bool,
        AttributeValue::Int(_) => AttributeType::Int,
        AttributeValue::String(_) => AttributeType::String,
        AttributeValue::Array(_) => AttributeType::Array,
        AttributeValue::Object(_) => AttributeType::Object,
    }
}

impl AttributeValue {
    /// The type of this value.
    pub fn value_type(&self) -> (r: AttributeType)
        ensures
            r == spec_value_type(*self),
    {
        match self {
            AttributeValue::Null => AttributeType::Null,
            AttributeValue::Bool(_) => AttributeType::Bool,
            AttributeValue::Int(_) => AttributeType::Int,
            AttributeValue::String(_) => AttributeType::String,
            AttributeValue::Array(_) => AttributeType::Array,
            AttributeValue::Object(_) => AttributeType::Object,
        }
    }
}

impl From<bool> for AttributeValue {
    fn from(v: bool) -> (r: Self) {
        AttributeValue::Bool(v)
    }
}

impl vstd::std_specs::convert::FromSpecImpl<bool> for AttributeValue {
    open spec fn obeys_from_spec() -> bool {
        true
    }

    open spec fn from_spec(v: bool) -> Self {
        AttributeValue::Bool(v)
    }
}

impl From<i64> for AttributeValue {
    fn from(v: i64) -> (r: Self) {
        AttributeValue::Int(v)
    }
}

impl vstd::std_specs::convert::FromSpecImpl<i64> for AttributeValue {
    open spec fn obeys_from_spec() -> bool {
        true
    }

    open spec fn from_spec(v: i64) -> Self {
        AttributeValue::Int(v)
    }
}

impl From<String> for AttributeValue {
    fn from(v: String) -> (r: Self) {
        AttributeValue::String(v)
    }
}

impl vstd::std_specs::convert::FromSpecImpl<String> for AttributeValue {
    open spec fn obeys_from_spec() -> bool {
        true
    }

    open spec fn from_spec(v: String) -> Self {
        AttributeValue::String(v)
    }
}

/// The type of an optional value.
pub open spec fn opt_value_type(v: Option<Arc<AttributeValue>>) -> Option<AttributeType> {
    match v {
        Some(x) => Some(spec_value_type(*x)),
        None => None,
    }
}

/// The value a shared default holds, if any.
pub open spec fn opt_value(v: Option<Arc<AttributeValue>>) -> Option<AttributeValue> {
    match v {
        Some(x) => Some(*x),
        None => None,
    }
}

/// A named value declared on a model.
pub struct Attribute {
    pub element: NamedElement,
    pub declared_name: String,
    pub value_type: Option<AttributeType>,
    pub default_value: Option<Arc<AttributeValue>>,
}

#[verifier::ext_equal]
pub struct AttributeView {
    pub element: NamedElementView,
    pub declared_name: Seq<char>,
    pub value_type: Option<AttributeType>,
    pub default_type: Option<AttributeType>,
    pub default_value: Option<AttributeValue>,
}

impl View for Attribute {
    type V = AttributeView;

    open spec fn view(&self) -> AttributeView {
        AttributeView {
            element: self.element@,
            declared_name: self.declared_name@,
            value_type: self.value_type,
            default_type: opt_value_type(self.default_value),
            default_value: opt_value(self.default_value),
        }
    }
}

impl Clone for Attribute {
    fn clone(&self) -> (r: Self)
        ensures
            r@ == self@,
    {
        let default_value = match &self.default_value {
            Some(v) => Some(Arc::clone(v)),
            None => None,
        };
        Attribute {
            element: self.element.clone(),
            declared_name: self.declared_name.clone(),
            value_type: self.value_type,
            default_value,
        }
    }
}

impl Element for Attribute {
    open spec fn spec_kind(&self) -> KindValue {
        self.element.kind
    }

    open spec fn spec_qualified_name(&self) -> Seq<char> {
        self.element.qualified_name@
    }

    fn kind(&self) -> KindValue {
        self.element.kind
    }

    fn qualified_name(&self) -> &str {
        self.element.qualified_name.as_str()
    }
}

/// A hook of a model: its name and the handle it runs.
#[verifier::ext_equal]
pub struct HookView {
    pub element: NamedElementView,
    pub hook: u64,
}

/// A custom validator attached to a model.
pub struct ValidatorElement {
    pub element: NamedElement,
    pub validator: ValidatorFn,
}

impl View for ValidatorElement {
    type V = HookView;

    open spec fn view(&self) -> HookView {
        HookView { element: self.element@, hook: self.validator }
    }
}

impl Clone for ValidatorElement {
    fn clone(&self) -> (r: Self)
        ensures
            r@ == self@,
    {
        ValidatorElement { element: self.element.clone(), validator: self.validator }
    }
}

impl Element for ValidatorElement {
    open spec fn spec_kind(&self) -> KindValue {
        self.element.kind
    }

    open spec fn spec_qualified_name(&self) -> Seq<char> {
        self.element.qualified_name@
    }

    fn kind(&self) -> KindValue {
        self.element.kind
    }

    fn qualified_name(&self) -> &str {
        self.element.qualified_name.as_str()
    }
}

/// A custom finalizer attached to a model.
pub struct FinalizerElement {
    pub element: NamedElement,
    pub finalizer: FinalizerFn,
}

impl View for FinalizerElement {
    type V = HookView;

    open spec fn view(&self) -> HookView {
        HookView { element: self.element@, hook: self.finalizer }
    }
}

impl Clone for FinalizerElement {
    fn clone(&self) -> (r: Self)
        ensures
            r@ == self@,
    {
        FinalizerElement { element: self.element.clone(), finalizer: self.finalizer }
    }
}

impl Element for FinalizerElement {
    open spec fn spec_kind(&self) -> KindValue {
        self.element.kind
    }

    open spec fn spec_qualified_name(&self) -> Seq<char> {
        self.element.qualified_name@
    }

    fn kind(&self) -> KindValue {
        self.element.kind
    }

    fn qualified_name(&self) -> &str {
        self.element.qualified_name.as_str()
    }
}

/// The view of any member of a model.
#[verifier::ext_equal]
pub enum ElementView {
    State(StateView),
    Vertex(VertexView),
    Transition(TransitionView),
    Behavior(BehaviorView),
    Observation(ObservationView),
    Validator(HookView),
    Finalizer(HookView),
    Constraint(ConstraintView),
    Operation(OperationView),
    Attribute(AttributeView),
    Event(crate::event::EventView),
}

/// Any member of a model.
pub enum ElementVariant {
    State(State),
    Vertex(Vertex),
    Transition(Transition),
    Behavior(Behavior),
    Observation(Observation),
    Validator(ValidatorElement),
    Finalizer(FinalizerElement),
    Constraint(Constraint),
    Operation(Operation),
    Attribute(Attribute),
    Event(Event),
}

impl View for ElementVariant {
    type V = ElementView;

    open spec fn view(&self) -> ElementView {
        match self {
            ElementVariant::State(s) => ElementView::State(s@),
            ElementVariant::Vertex(v) => ElementView::Vertex(v@),
            ElementVariant::Transition(t) => ElementView::Transition(t@),
            ElementVariant::Behavior(b) => ElementView::Behavior(b@),
            ElementVariant::Observation(o) => ElementView::Observation(o@),
            ElementVariant::Validator(v) => ElementView::Validator(v@),
            ElementVariant::Finalizer(f) => ElementView::Finalizer(f@),
            ElementVariant::Constraint(c) => ElementView::Constraint(c@),
            ElementVariant::Operation(o) => ElementView::Operation(o@),
            ElementVariant::Attribute(a) => ElementView::Attribute(a@),
            ElementVariant::Event(e) => ElementView::Event(e@),
        }
    }
}

impl Clone for ElementVariant {
    fn clone(&self) -> (r: Self)
        ensures
            r@ == self@,
    {
        match self {
            ElementVariant::State(s) => ElementVariant::State(s.clone()),
            ElementVariant::Vertex(v) => ElementVariant::Vertex(v.clone()),
            ElementVariant::Transition(t) => ElementVariant::Transition(t.clone()),
            ElementVariant::Behavior(b) => ElementVariant::Behavior(b.clone()),
            ElementVariant::Observation(o) => ElementVariant::Observation(o.clone()),
            ElementVariant::Validator(v) => ElementVariant::Validator(v.clone()),
            ElementVariant::Finalizer(f) => ElementVariant::Finalizer(f.clone()),
            ElementVariant::Constraint(c) => ElementVariant::Constraint(c.clone()),
            ElementVariant::Operation(o) => ElementVariant::Operation(o.clone()),
            ElementVariant::Attribute(a) => ElementVariant::Attribute(a.clone()),
            ElementVariant::Event(e) => ElementVariant::Event(e.clone()),
        }
    }
}

impl Element for ElementVariant {
    open spec fn spec_kind(&self) -> KindValue {
        match self {
            ElementVariant::State(s) => s.vertex.element.kind,
            ElementVariant::Vertex(v) => v.element.kind,
            ElementVariant::Transition(t) => t.element.kind,
            ElementVariant::Behavior(b) => b.element.kind,
            ElementVariant::Observation(o) => o.element.kind,
            ElementVariant::Validator(v) => v.element.kind,
            ElementVariant::Finalizer(f) => f.element.kind,
            ElementVariant::Constraint(c) => c.element.kind,
            ElementVariant::Operation(o) => o.element.kind,
            ElementVariant::Attribute(a) => a.element.kind,
            ElementVariant::Event(e) => e.kind,
        }
    }

    open spec fn spec_qualified_name(&self) -> Seq<char> {
        match self {
            ElementVariant::State(s) => s.vertex.element.qualified_name@,
            ElementVariant::Vertex(v) => v.element.qualified_name@,
            ElementVariant::Transition(t) => t.element.qualified_name@,
            ElementVariant::Behavior(b) => b.element.qualified_name@,
            ElementVariant::Observation(o) => o.element.qualified_name@,
            ElementVariant::Validator(v) => v.element.qualified_name@,
            ElementVariant::Finalizer(f) => f.element.qualified_name@,
            ElementVariant::Constraint(c) => c.element.qualified_name@,
            ElementVariant::Operation(o) => o.element.qualified_name@,
            ElementVariant::Attribute(a) => a.element.qualified_name@,
            ElementVariant::Event(e) => e.qualified_name@,
        }
    }

    fn kind(&self) -> KindValue {
        match self {
            ElementVariant::State(s) => s.kind(),
            ElementVariant::Vertex(v) => v.kind(),
            ElementVariant::Transition(t) => t.kind(),
            ElementVariant::Behavior(b) => b.kind(),
            ElementVariant::Observation(o) => o.kind(),
            ElementVariant::Validator(v) => v.kind(),
            ElementVariant::Finalizer(f) => f.kind(),
            ElementVariant::Constraint(c) => c.kind(),
            ElementVariant::Operation(o) => o.kind(),
            ElementVariant::Attribute(a) => a.kind(),
            ElementVariant::Event(e) => e.kind,
        }
    }

    fn qualified_name(&self) -> &str {
        match self {
            ElementVariant::State(s) => s.qualified_name(),
            ElementVariant::Vertex(v) => v.qualified_name(),
            ElementVariant::Transition(t) => t.qualified_name(),
            ElementVariant::Behavior(b) => b.qualified_name(),
            ElementVariant::Observation(o) => o.qualified_name(),
            ElementVariant::Validator(v) => v.qualified_name(),
            ElementVariant::Finalizer(f) => f.qualified_name(),
            ElementVariant::Constraint(c) => c.qualified_name(),
            ElementVariant::Operation(o) => o.qualified_name(),
            ElementVariant::Attribute(a) => a.qualified_name(),
            ElementVariant::Event(e) => e.qualified_name.as_str(),
        }
    }
}

} // verus!
