//! Moving a model under another qualified name.

use vstd::prelude::*;

use crate::element::{
    names_view, Attribute, AttributeView, Behavior, BehaviorOperation, BehaviorOperationView,
    BehaviorView, Constraint, ConstraintView, ElementVariant, ElementView, FinalizerElement, HookView,
    NamedElement, NamedElementView, Observation, ObservationView, Operation, OperationView, State,
    StateView, Transition, TransitionView, ValidatorElement, Vertex, VertexView,
};
use crate::event::{Event, EventView};
use crate::model::Model;
use crate::path::{join, spec_join};
use crate::text::{self, has_prefix, trim_end};

verus! {

/// The prefix that marks a reference to an operation call.
pub open spec fn call_prefix() -> Seq<char> {
    seq!['h', 's', 'm', '_', 'c', 'a', 'l', 'l', ':']
}

/// `reference` moved from under `old_root` to under `new_root`: the root
/// itself becomes `new_root`, names below it are joined to `new_root`, call
/// references are moved inside their prefix, and anything else is kept.
pub open spec fn rebased(reference: Seq<char>, old_root: Seq<char>, new_root: Seq<char>) -> Seq<char>
    decreases reference.len(),
{
    if reference.len() == 0 {
        reference
    } else if has_prefix(reference, call_prefix()) {
        call_prefix() + rebased(reference.subrange(9, reference.len() as int), old_root, new_root)
    } else if reference == old_root {
        new_root
    } else {
        let prefix = trim_end(old_root, '/') + seq!['/'];
        if has_prefix(reference, prefix) {
            spec_join(new_root, reference.subrange(prefix.len() as int, reference.len() as int))
        } else {
            reference
        }
    }
}

/// A machine's root: `/` followed by a name that does not end in `/`.
pub open spec fn is_root_name(r: Seq<char>) -> bool {
    r.len() > 1 && r[0] == '/' && r.last() != '/'
}

proof fn lemma_not_call(r: Seq<char>)
    requires
        r.len() > 0,
        r[0] == '/',
    ensures
        !has_prefix(r, call_prefix()),
{
    if has_prefix(r, call_prefix()) {
        assert(r.subrange(0, 9)[0] == r[0]);
    }
}

/// Moving a name under the machine `o` to the machine `n` and back gives it
/// back (for a name that is `o` or lies directly below it as `o/rest` with a
/// relative `rest`).
pub proof fn law_rebase_round_trip(r: Seq<char>, o: Seq<char>, n: Seq<char>)
    requires
        is_root_name(o),
        is_root_name(n),
        r == o || (has_prefix(r, o + seq!['/']) && (r.len() == o.len() + 1 || r[o.len() as int + 1] != '/')),
    ensures
        rebased(rebased(r, o, n), n, o) == r,
{
    assert(trim_end(o, '/') == o);
    assert(trim_end(n, '/') == n);
    lemma_not_call(o);
    lemma_not_call(n);
    if r == o {
        assert(rebased(r, o, n) == n);
    } else {
        assert(r.subrange(0, o.len() as int + 1)[0] == r[0]);
        assert((o + seq!['/'])[0] == o[0]);
        lemma_not_call(r);
        let tail = r.subrange(o.len() as int + 1, r.len() as int);
        assert(r.len() > o.len());
        assert(rebased(r, o, n) == spec_join(n, tail));
        assert(n != seq!['/']) by {
            if n == seq!['/'] {
                assert(n.len() == 1);
            }
        }
        let m = n + seq!['/'] + tail;
        assert(spec_join(n, tail) == m);
        assert(m[0] == n[0]);
        lemma_not_call(m);
        assert(m != n) by {
            assert(m.len() > n.len());
        }
        assert(m.subrange(0, n.len() as int + 1) =~= n + seq!['/']);
        assert(m.subrange(n.len() as int + 1, m.len() as int) =~= tail);
        assert(o != seq!['/']) by {
            if o == seq!['/'] {
                assert(o.len() == 1);
            }
        }
        assert(r.subrange(0, o.len() as int + 1) =~= o + seq!['/']);
        assert(o + seq!['/'] + tail =~= r);
    }
}

pub open spec fn rebased_names(s: Seq<Seq<char>>, o: Seq<char>, n: Seq<char>) -> Seq<Seq<char>> {
    s.map_values(|x: Seq<char>| rebased(x, o, n))
}

pub open spec fn rebased_named(e: NamedElementView, o: Seq<char>, n: Seq<char>) -> NamedElementView {
    NamedElementView { kind: e.kind, qualified_name: rebased(e.qualified_name, o, n) }
}

pub open spec fn rebased_vertex(v: VertexView, o: Seq<char>, n: Seq<char>) -> VertexView {
    VertexView {
        element: rebased_named(v.element, o, n),
        transitions: rebased_names(v.transitions, o, n),
    }
}

pub open spec fn rebased_state(s: StateView, o: Seq<char>, n: Seq<char>) -> StateView {
    StateView {
        vertex: rebased_vertex(s.vertex, o, n),
        initial: rebased(s.initial, o, n),
        entry: rebased_names(s.entry, o, n),
        exit: rebased_names(s.exit, o, n),
        activities: rebased_names(s.activities, o, n),
        deferred: rebased_names(s.deferred, o, n),
    }
}

/// A moved transition keeps no computed paths.
pub open spec fn rebased_transition(t: TransitionView, o: Seq<char>, n: Seq<char>) -> TransitionView {
    TransitionView {
        element: rebased_named(t.element, o, n),
        kind_override: t.kind_override,
        source: rebased(t.source, o, n),
        target: rebased(t.target, o, n),
        guard: rebased(t.guard, o, n),
        effect: rebased_names(t.effect, o, n),
        events: rebased_names(t.events, o, n),
        paths: seq![],
    }
}

pub open spec fn rebased_operation_ref(
    op: Option<BehaviorOperationView>,
    o: Seq<char>,
    n: Seq<char>,
) -> Option<BehaviorOperationView> {
    match op {
        Some(BehaviorOperationView::Operation(name)) => Some(
            BehaviorOperationView::Operation(rebased(name, o, n)),
        ),
        Some(BehaviorOperationView::Observation { observer, source, occurrence }) => Some(
            BehaviorOperationView::Observation { observer, source: rebased(source, o, n), occurrence },
        ),
        None => None,
    }
}

pub open spec fn rebased_behavior(b: BehaviorView, o: Seq<char>, n: Seq<char>) -> BehaviorView {
    BehaviorView {
        element: rebased_named(b.element, o, n),
        operation: rebased_operation_ref(b.operation, o, n),
        ..b
    }
}

pub open spec fn rebased_observation(x: ObservationView, o: Seq<char>, n: Seq<char>) -> ObservationView {
    ObservationView {
        element: rebased_named(x.element, o, n),
        observer: x.observer,
        targets: rebased_names(x.targets, o, n),
    }
}

pub open spec fn rebased_constraint(c: ConstraintView, o: Seq<char>, n: Seq<char>) -> ConstraintView {
    ConstraintView {
        element: rebased_named(c.element, o, n),
        operation: match c.operation {
            Some(x) => Some(rebased(x, o, n)),
            None => None,
        },
        ..c
    }
}

pub open spec fn rebased_attribute(a: AttributeView, o: Seq<char>, n: Seq<char>) -> AttributeView {
    AttributeView { element: rebased_named(a.element, o, n), ..a }
}

pub open spec fn rebased_event(e: EventView, o: Seq<char>, n: Seq<char>) -> EventView {
    EventView { kind: e.kind, qualified_name: rebased(e.qualified_name, o, n), name: rebased(e.name, o, n), data: e.data }
}

pub open spec fn rebased_element(e: ElementView, o: Seq<char>, n: Seq<char>) -> ElementView {
    match e {
        ElementView::State(s) => ElementView::State(rebased_state(s, o, n)),
        ElementView::Vertex(v) => ElementView::Vertex(rebased_vertex(v, o, n)),
        ElementView::Transition(t) => ElementView::Transition(rebased_transition(t, o, n)),
        ElementView::Behavior(b) => ElementView::Behavior(rebased_behavior(b, o, n)),
        ElementView::Observation(x) => ElementView::Observation(rebased_observation(x, o, n)),
        ElementView::Validator(v) => ElementView::Validator(HookView { element: rebased_named(v.element, o, n), hook: v.hook }),
        ElementView::Finalizer(f) => ElementView::Finalizer(HookView { element: rebased_named(f.element, o, n), hook: f.hook }),
        ElementView::Constraint(c) => ElementView::Constraint(rebased_constraint(c, o, n)),
        ElementView::Operation(x) => ElementView::Operation(
            OperationView { element: rebased_named(x.element, o, n), ..x },
        ),
        ElementView::Attribute(a) => ElementView::Attribute(rebased_attribute(a, o, n)),
        ElementView::Event(x) => ElementView::Event(rebased_event(x, o, n)),
    }
}

/// `m` is `src` moved under `root` (see `Model::rebase`).
pub open spec fn rebased_model(src: Model, m: Model, root: Seq<char>) -> bool {
    &&& m.state@ == rebased_state(src.state@, src.root(), root)
    &&& m.members@.len() == src.members@.len()
    &&& forall|j: int| 0 <= j < src.members@.len() ==> (#[trigger] m.members@[j]).0@ == rebased(src.members@[j].0@, src.root(), root)
        && m.members@[j].1@ == rebased_element(src.members@[j].1@, src.root(), root)
    &&& m.attributes@.len() == src.attributes@.len()
    &&& forall|j: int| 0 <= j < src.attributes@.len() ==> (#[trigger] m.attributes@[j]).0@ == rebased(src.attributes@[j].0@, src.root(), root)
        && m.attributes@[j].1@ == rebased_attribute(src.attributes@[j].1@, src.root(), root)
    &&& m.transition_map@.len() == 0
    &&& m.deferred_map@.len() == 0
    &&& m.history_updates@.len() == 0
}

/// A reference that moving from under `o` to under `n` and back gives
/// back: empty, a call reference to such a reference, `o` itself, a name
/// `o/rest` with a relative `rest`, or a name outside both `o` and `n`.
pub open spec fn movable(x: Seq<char>, o: Seq<char>, n: Seq<char>) -> bool
    decreases x.len(),
{
    if x.len() == 0 {
        true
    } else if has_prefix(x, call_prefix()) {
        movable(x.subrange(9, x.len() as int), o, n)
    } else if x == o {
        true
    } else if has_prefix(x, trim_end(o, '/') + seq!['/']) {
        x.len() == o.len() + 1 || x[o.len() as int + 1] != '/'
    } else {
        x != n && !has_prefix(x, trim_end(n, '/') + seq!['/'])
    }
}

/// Moving a movable reference there and back gives it back.
pub proof fn law_reference_round_trip(x: Seq<char>, o: Seq<char>, n: Seq<char>)
    requires
        is_root_name(o),
        is_root_name(n),
        movable(x, o, n),
    ensures
        rebased(rebased(x, o, n), n, o) == x,
    decreases x.len(),
{
    assert(trim_end(o, '/') == o);
    assert(trim_end(n, '/') == n);
    if x.len() == 0 {
    } else if has_prefix(x, call_prefix()) {
        let y = x.subrange(9, x.len() as int);
        law_reference_round_trip(y, o, n);
        let z = rebased(y, o, n);
        let w = call_prefix() + z;
        assert(w.subrange(0, 9) =~= call_prefix());
        assert(w.subrange(9, w.len() as int) =~= z);
        assert(x.subrange(0, 9) == call_prefix());
        assert(call_prefix() + y =~= x);
    } else if x == o || has_prefix(x, o + seq!['/']) {
        law_rebase_round_trip(x, o, n);
    } else {
        assert(rebased(x, o, n) == x);
    }
}

/// Every name of `s` is movable.
pub open spec fn names_movable(s: Seq<Seq<char>>, o: Seq<char>, n: Seq<char>) -> bool {
    forall|i: int| 0 <= i < s.len() ==> movable(#[trigger] s[i], o, n)
}

proof fn lemma_names_round_trip(s: Seq<Seq<char>>, o: Seq<char>, n: Seq<char>)
    requires
        is_root_name(o),
        is_root_name(n),
        names_movable(s, o, n),
    ensures
        rebased_names(rebased_names(s, o, n), n, o) == s,
{
    assert forall|i: int| 0 <= i < s.len() implies #[trigger] rebased_names(rebased_names(s, o, n), n, o)[i] == s[i] by {
        law_reference_round_trip(s[i], o, n);
    }
    assert(rebased_names(rebased_names(s, o, n), n, o) =~= s);
}

/// Every reference an element holds is movable.
pub open spec fn element_movable(e: ElementView, o: Seq<char>, n: Seq<char>) -> bool {
    match e {
        ElementView::State(s) => movable(s.vertex.element.qualified_name, o, n) && names_movable(s.vertex.transitions, o, n)
            && movable(s.initial, o, n) && names_movable(s.entry, o, n) && names_movable(s.exit, o, n)
            && names_movable(s.activities, o, n) && names_movable(s.deferred, o, n),
        ElementView::Vertex(v) => movable(v.element.qualified_name, o, n) && names_movable(v.transitions, o, n),
        ElementView::Transition(t) => movable(t.element.qualified_name, o, n) && movable(t.source, o, n) && movable(t.target, o, n)
            && movable(t.guard, o, n) && names_movable(t.effect, o, n) && names_movable(t.events, o, n),
        ElementView::Behavior(b) => movable(b.element.qualified_name, o, n) && match b.operation {
            Some(BehaviorOperationView::Operation(x)) => movable(x, o, n),
            Some(BehaviorOperationView::Observation { source, .. }) => movable(source, o, n),
            None => true,
        },
        ElementView::Observation(x) => movable(x.element.qualified_name, o, n) && names_movable(x.targets, o, n),
        ElementView::Validator(v) => movable(v.element.qualified_name, o, n),
        ElementView::Finalizer(f) => movable(f.element.qualified_name, o, n),
        ElementView::Constraint(c) => movable(c.element.qualified_name, o, n) && match c.operation {
            Some(x) => movable(x, o, n),
            None => true,
        },
        ElementView::Operation(x) => movable(x.element.qualified_name, o, n),
        ElementView::Attribute(a) => movable(a.element.qualified_name, o, n),
        ElementView::Event(x) => movable(x.qualified_name, o, n) && movable(x.name, o, n),
    }
}

/// The element with its computed transition paths dropped.
pub open spec fn paths_dropped(e: ElementView) -> ElementView {
    match e {
        ElementView::Transition(t) => ElementView::Transition(TransitionView { paths: seq![], ..t }),
        _ => e,
    }
}

proof fn lemma_state_round_trip(s: StateView, o: Seq<char>, n: Seq<char>)
    requires
        is_root_name(o),
        is_root_name(n),
        element_movable(ElementView::State(s), o, n),
    ensures
        rebased_state(rebased_state(s, o, n), n, o) == s,
{
    law_reference_round_trip(s.vertex.element.qualified_name, o, n);
    law_reference_round_trip(s.initial, o, n);
    lemma_names_round_trip(s.vertex.transitions, o, n);
    lemma_names_round_trip(s.entry, o, n);
    lemma_names_round_trip(s.exit, o, n);
    lemma_names_round_trip(s.activities, o, n);
    lemma_names_round_trip(s.deferred, o, n);
}

/// Moving an element whose references are all movable there and back gives
/// it back, without its computed transition paths.
pub proof fn law_element_round_trip(e: ElementView, o: Seq<char>, n: Seq<char>)
    requires
        is_root_name(o),
        is_root_name(n),
        element_movable(e, o, n),
    ensures
        rebased_element(rebased_element(e, o, n), n, o) == paths_dropped(e),
{
    match e {
        ElementView::State(s) => {
            lemma_state_round_trip(s, o, n);
        },
        ElementView::Vertex(v) => {
            law_reference_round_trip(v.element.qualified_name, o, n);
            lemma_names_round_trip(v.transitions, o, n);
        },
        ElementView::Transition(t) => {
            law_reference_round_trip(t.element.qualified_name, o, n);
            law_reference_round_trip(t.source, o, n);
            law_reference_round_trip(t.target, o, n);
            law_reference_round_trip(t.guard, o, n);
            lemma_names_round_trip(t.effect, o, n);
            lemma_names_round_trip(t.events, o, n);
        },
        ElementView::Behavior(b) => {
            law_reference_round_trip(b.element.qualified_name, o, n);
            match b.operation {
                Some(BehaviorOperationView::Operation(x)) => law_reference_round_trip(x, o, n),
                Some(BehaviorOperationView::Observation { source, .. }) => law_reference_round_trip(source, o, n),
                None => {},
            }
        },
        ElementView::Observation(x) => {
            law_reference_round_trip(x.element.qualified_name, o, n);
            lemma_names_round_trip(x.targets, o, n);
        },
        ElementView::Validator(v) => {
            law_reference_round_trip(v.element.qualified_name, o, n);
        },
        ElementView::Finalizer(f) => {
            law_reference_round_trip(f.element.qualified_name, o, n);
        },
        ElementView::Constraint(c) => {
            law_reference_round_trip(c.element.qualified_name, o, n);
            match c.operation {
                Some(x) => law_reference_round_trip(x, o, n),
                None => {},
            }
        },
        ElementView::Operation(x) => {
            law_reference_round_trip(x.element.qualified_name, o, n);
        },
        ElementView::Attribute(a) => {
            law_reference_round_trip(a.element.qualified_name, o, n);
        },
        ElementView::Event(x) => {
            law_reference_round_trip(x.qualified_name, o, n);
            law_reference_round_trip(x.name, o, n);
        },
    }
}

/// Every name and reference a model holds is movable from its root to `n`.
pub open spec fn model_movable(m: Model, n: Seq<char>) -> bool {
    &&& element_movable(ElementView::State(m.state@), m.root(), n)
    &&& forall|j: int| 0 <= j < m.members@.len() ==> movable(#[trigger] m.members@[j].0@, m.root(), n) && element_movable(m.members@[j].1@, m.root(), n)
    &&& forall|j: int| 0 <= j < m.attributes@.len() ==> movable(#[trigger] m.attributes@[j].0@, m.root(), n)
        && movable(m.attributes@[j].1@.element.qualified_name, m.root(), n)
}

/// Moving a model from its root `r` to `n` and back to `r` gives back its
/// state, its members (in order, each without its computed transition paths)
/// and its attributes, with its computed tables empty, when every name and
/// reference it holds is movable.
pub proof fn law_model_rebase_round_trip(m: Model, m1: Model, m2: Model, n: Seq<char>)
    requires
        is_root_name(m.root()),
        is_root_name(n),
        model_movable(m, n),
        rebased_model(m, m1, n),
        rebased_model(m1, m2, m.root()),
    ensures
        m2.root() == m.root(),
        m2.state@ == m.state@,
        m2.members@.len() == m.members@.len(),
        forall|j: int| 0 <= j < m.members@.len() ==> (#[trigger] m2.members@[j]).0@ == m.members@[j].0@ && m2.members@[j].1@ == paths_dropped(m.members@[j].1@),
        m2.attributes@.len() == m.attributes@.len(),
        forall|j: int| 0 <= j < m.attributes@.len() ==> (#[trigger] m2.attributes@[j]).0@ == m.attributes@[j].0@ && m2.attributes@[j].1@ == m.attributes@[j].1@,
        m2.transition_map@.len() == 0,
        m2.deferred_map@.len() == 0,
        m2.history_updates@.len() == 0,
{
    let r = m.root();
    lemma_state_round_trip(m.state@, r, n);
    law_reference_round_trip(r, r, n);
    assert(m1.root() == n);
    assert forall|j: int| 0 <= j < m.members@.len() implies (#[trigger] m2.members@[j]).0@ == m.members@[j].0@ && m2.members@[j].1@ == paths_dropped(m.members@[j].1@) by {
        assert(movable(m.members@[j].0@, r, n) && element_movable(m.members@[j].1@, r, n));
        law_reference_round_trip(m.members@[j].0@, r, n);
        law_element_round_trip(m.members@[j].1@, r, n);
        assert(m1.members@[j].0@ == rebased(m.members@[j].0@, r, n));
    }
    assert forall|j: int| 0 <= j < m.attributes@.len() implies (#[trigger] m2.attributes@[j]).0@ == m.attributes@[j].0@ && m2.attributes@[j].1@ == m.attributes@[j].1@ by {
        assert(movable(m.attributes@[j].0@, r, n));
        law_reference_round_trip(m.attributes@[j].0@, r, n);
        law_reference_round_trip(m.attributes@[j].1@.element.qualified_name, r, n);
        assert(m1.attributes@[j].0@ == rebased(m.attributes@[j].0@, r, n));
    }
}

/// `reference` moved from under `old_root` to under `new_root`.
fn rebase_reference(reference: &str, old_root: &str, new_root: &str) -> (r: String)
    ensures
        r@ == rebased(reference@, old_root@, new_root@),
    decreases reference@.len(),
{
    proof {
        reveal_strlit("hsm_call:");
        reveal_strlit("/");
        assert("hsm_call:"@ =~= call_prefix());
        assert("/"@ =~= seq!['/']);
    }
    if reference.unicode_len() == 0 {
        return String::new();
    }
    match text::strip_prefix(reference, "hsm_call:") {
        Some(operation) => {
            let inner = rebase_reference(operation, old_root, new_root);
            return text::concat("hsm_call:", inner.as_str());
        },
        None => {},
    }
    if text::str_eq(reference, old_root) {
        return text::owned(new_root);
    }
    let prefix = text::concat(text::trim_end_char(old_root, '/'), "/");
    match text::strip_prefix(reference, prefix.as_str()) {
        Some(relative) => join(new_root, relative),
        None => text::owned(reference),
    }
}

/// Each reference moved.
fn rebase_references(references: &Vec<String>, old_root: &str, new_root: &str) -> (r: Vec<String>)
    ensures
        names_view(r@) == rebased_names(names_view(references@), old_root@, new_root@),
{
    let mut out: Vec<String> = Vec::new();
    let mut i: usize = 0;
    while i < references.len()
        invariant
            0 <= i <= references@.len(),
            names_view(out@) == rebased_names(names_view(references@), old_root@, new_root@).take(i as int),
        decreases references@.len() - i,
    {
        let x = rebase_reference(references[i].as_str(), old_root, new_root);
        let ghost before = out@;
        out.push(x);
        proof {
            assert(names_view(references@)[i as int] == references@[i as int]@);
            assert(rebased_names(names_view(references@), old_root@, new_root@)[i as int] == x@);
            assert(names_view(out@) =~= names_view(before).push(x@));
            assert(names_view(out@) =~= rebased_names(names_view(references@), old_root@, new_root@).take(i + 1));
        }
        i += 1;
    }
    proof {
        assert(rebased_names(names_view(references@), old_root@, new_root@).take(i as int) =~= rebased_names(names_view(references@), old_root@, new_root@));
    }
    out
}

fn rebase_named_element(element: &NamedElement, old_root: &str, new_root: &str) -> (r: NamedElement)
    ensures
        r@ == rebased_named(element@, old_root@, new_root@),
{
    NamedElement {
        kind: element.kind,
        qualified_name: rebase_reference(element.qualified_name.as_str(), old_root, new_root),
    }
}

fn rebase_vertex(vertex: &Vertex, old_root: &str, new_root: &str) -> (r: Vertex)
    ensures
        r@ == rebased_vertex(vertex@, old_root@, new_root@),
{
    Vertex {
        element: rebase_named_element(&vertex.element, old_root, new_root),
        transitions: rebase_references(&vertex.transitions, old_root, new_root),
    }
}

fn rebase_state(state: &State, old_root: &str, new_root: &str) -> (r: State)
    ensures
        r@ == rebased_state(state@, old_root@, new_root@),
{
    State {
        vertex: rebase_vertex(&state.vertex, old_root, new_root),
        initial: rebase_reference(state.initial.as_str(), old_root, new_root),
        entry: rebase_references(&state.entry, old_root, new_root),
        exit: rebase_references(&state.exit, old_root, new_root),
        activities: rebase_references(&state.activities, old_root, new_root),
        deferred: rebase_references(&state.deferred, old_root, new_root),
    }
}

fn rebase_transition(transition: &Transition, old_root: &str, new_root: &str) -> (r: Transition)
    ensures
        r@ == rebased_transition(transition@, old_root@, new_root@),
{
    let r = Transition {
        element: rebase_named_element(&transition.element, old_root, new_root),
        kind_override: transition.kind_override,
        source: rebase_reference(transition.source.as_str(), old_root, new_root),
        target: rebase_reference(transition.target.as_str(), old_root, new_root),
        guard: rebase_reference(transition.guard.as_str(), old_root, new_root),
        effect: rebase_references(&transition.effect, old_root, new_root),
        events: rebase_references(&transition.events, old_root, new_root),
        paths: Vec::new(),
    };
    assert(r@ =~= rebased_transition(transition@, old_root@, new_root@));
    r
}

fn rebase_behavior(behavior: &Behavior, old_root: &str, new_root: &str) -> (r: Behavior)
    ensures
        r@ == rebased_behavior(behavior@, old_root@, new_root@),
{
    let operation = match &behavior.operation {
        Some(BehaviorOperation::Operation(name)) => Some(
            BehaviorOperation::Operation(rebase_reference(name.as_str(), old_root, new_root)),
        ),
        Some(BehaviorOperation::Observation { observer, source, occurrence }) => Some(
            BehaviorOperation::Observation {
                observer: *observer,
                source: rebase_reference(source.as_str(), old_root, new_root),
                occurrence: occurrence.clone(),
            },
        ),
        None => None,
    };
    Behavior {
        element: rebase_named_element(&behavior.element, old_root, new_root),
        entry: behavior.entry,
        effect: behavior.effect,
        exit: behavior.exit,
        activity: behavior.activity,
        operation,
    }
}

fn rebase_observation(observation: &Observation, old_root: &str, new_root: &str) -> (r: Observation)
    ensures
        r@ == rebased_observation(observation@, old_root@, new_root@),
{
    Observation {
        element: rebase_named_element(&observation.element, old_root, new_root),
        observer: observation.observer,
        targets: rebase_references(&observation.targets, old_root, new_root),
    }
}

fn rebase_validator(validator: &ValidatorElement, old_root: &str, new_root: &str) -> (r: ValidatorElement)
    ensures
        r@ == (HookView { element: rebased_named(validator@.element, old_root@, new_root@), hook: validator@.hook }),
{
    ValidatorElement {
        element: rebase_named_element(&validator.element, old_root, new_root),
        validator: validator.validator,
    }
}

fn rebase_finalizer(finalizer: &FinalizerElement, old_root: &str, new_root: &str) -> (r: FinalizerElement)
    ensures
        r@ == (HookView { element: rebased_named(finalizer@.element, old_root@, new_root@), hook: finalizer@.hook }),
{
    FinalizerElement {
        element: rebase_named_element(&finalizer.element, old_root, new_root),
        finalizer: finalizer.finalizer,
    }
}

fn rebase_constraint(constraint: &Constraint, old_root: &str, new_root: &str) -> (r: Constraint)
    ensures
        r@ == rebased_constraint(constraint@, old_root@, new_root@),
{
    let operation = match &constraint.operation {
        Some(name) => Some(rebase_reference(name.as_str(), old_root, new_root)),
        None => None,
    };
    Constraint {
        element: rebase_named_element(&constraint.element, old_root, new_root),
        guard: constraint.guard,
        operation,
        duration: constraint.duration,
        timepoint: constraint.timepoint,
    }
}

fn rebase_operation(operation: &Operation, old_root: &str, new_root: &str) -> (r: Operation)
    ensures
        r@ == (OperationView { element: rebased_named(operation@.element, old_root@, new_root@), ..operation@ }),
{
    Operation {
        element: rebase_named_element(&operation.element, old_root, new_root),
        action: operation.action,
        guard: operation.guard,
    }
}

fn rebase_attribute(attribute: &Attribute, old_root: &str, new_root: &str) -> (r: Attribute)
    ensures
        r@ == rebased_attribute(attribute@, old_root@, new_root@),
{
    let mut r = attribute.clone();
    r.element = rebase_named_element(&attribute.element, old_root, new_root);
    r
}

fn rebase_event(event: &Event, old_root: &str, new_root: &str) -> (r: Event)
    ensures
        r@ == rebased_event(event@, old_root@, new_root@),
{
    Event {
        kind: event.kind,
        qualified_name: rebase_reference(event.qualified_name.as_str(), old_root, new_root),
        name: rebase_reference(event.name.as_str(), old_root, new_root),
        data: event.data,
    }
}

fn rebase_element(element: &ElementVariant, old_root: &str, new_root: &str) -> (r: ElementVariant)
    ensures
        r@ == rebased_element(element@, old_root@, new_root@),
{
    match element {
        ElementVariant::State(s) => ElementVariant::State(rebase_state(s, old_root, new_root)),
        ElementVariant::Vertex(v) => ElementVariant::Vertex(rebase_vertex(v, old_root, new_root)),
        ElementVariant::Transition(t) => ElementVariant::Transition(
            rebase_transition(t, old_root, new_root),
        ),
        ElementVariant::Behavior(b) => ElementVariant::Behavior(rebase_behavior(b, old_root, new_root)),
        ElementVariant::Observation(o) => ElementVariant::Observation(
            rebase_observation(o, old_root, new_root),
        ),
        ElementVariant::Validator(v) => ElementVariant::Validator(
            rebase_validator(v, old_root, new_root),
        ),
        ElementVariant::Finalizer(f) => ElementVariant::Finalizer(
            rebase_finalizer(f, old_root, new_root),
        ),
        ElementVariant::Constraint(c) => ElementVariant::Constraint(
            rebase_constraint(c, old_root, new_root),
        ),
        ElementVariant::Operation(o) => ElementVariant::Operation(
            rebase_operation(o, old_root, new_root),
        ),
        ElementVariant::Attribute(a) => ElementVariant::Attribute(
            rebase_attribute(a, old_root, new_root),
        ),
        ElementVariant::Event(e) => ElementVariant::Event(rebase_event(e, old_root, new_root)),
    }
}

impl Model {
    /// A copy of the model moved under `qualified_name`: every name and
    /// reference under the old root is moved (see `rebased`), and the
    /// computed tables and paths are dropped.
    pub fn rebase(&self, qualified_name: String) -> (r: Model)
        ensures
            r.state@ == rebased_state(self.state@, self.root(), qualified_name@),
            r.members@.len() == self.members@.len(),
            forall|j: int|
                0 <= j < self.members@.len() ==> (#[trigger] r.members@[j]).0@ == rebased(
                    self.members@[j].0@,
                    self.root(),
                    qualified_name@,
                ) && r.members@[j].1@ == rebased_element(
                    self.members@[j].1@,
                    self.root(),
                    qualified_name@,
                ),
            r.attributes@.len() == self.attributes@.len(),
            forall|j: int|
                0 <= j < self.attributes@.len() ==> (#[trigger] r.attributes@[j]).0@ == rebased(
                    self.attributes@[j].0@,
                    self.root(),
                    qualified_name@,
                ) && r.attributes@[j].1@ == rebased_attribute(
                    self.attributes@[j].1@,
                    self.root(),
                    qualified_name@,
                ),
            r.transition_map@.len() == 0,
            r.deferred_map@.len() == 0,
            r.history_updates@.len() == 0,
    {
        let old_root = self.state.vertex.element.qualified_name.as_str();
        let new_root = qualified_name.as_str();
        let state = rebase_state(&self.state, old_root, new_root);
        let mut members: Vec<(String, ElementVariant)> = Vec::new();
        let mut i: usize = 0;
        while i < self.members.len()
            invariant
                0 <= i <= self.members@.len(),
                old_root@ == self.root(),
                members@.len() == i,
                forall|j: int|
                    0 <= j < i ==> (#[trigger] members@[j]).0@ == rebased(
                        self.members@[j].0@,
                        old_root@,
                        new_root@,
                    ) && members@[j].1@ == rebased_element(self.members@[j].1@, old_root@, new_root@),
            decreases self.members@.len() - i,
        {
            let name = rebase_reference(self.members[i].0.as_str(), old_root, new_root);
            let element = rebase_element(&self.members[i].1, old_root, new_root);
            members.push((name, element));
            i += 1;
        }
        let mut attributes: Vec<(String, Attribute)> = Vec::new();
        let mut i: usize = 0;
        while i < self.attributes.len()
            invariant
                0 <= i <= self.attributes@.len(),
                old_root@ == self.root(),
                attributes@.len() == i,
                forall|j: int|
                    0 <= j < i ==> (#[trigger] attributes@[j]).0@ == rebased(
                        self.attributes@[j].0@,
                        old_root@,
                        new_root@,
                    ) && attributes@[j].1@ == rebased_attribute(
                        self.attributes@[j].1@,
                        old_root@,
                        new_root@,
                    ),
            decreases self.attributes@.len() - i,
        {
            let name = rebase_reference(self.attributes[i].0.as_str(), old_root, new_root);
            let attribute = rebase_attribute(&self.attributes[i].1, old_root, new_root);
            attributes.push((name, attribute));
            i += 1;
        }
        Model {
            state,
            members,
            transition_map: Vec::new(),
            deferred_map: Vec::new(),
            history_updates: Vec::new(),
            attributes,
        }
    }
}

} // verus!
