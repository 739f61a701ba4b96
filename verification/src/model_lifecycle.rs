//! Defining a model: applying its declared elements, then completing it.

use vstd::prelude::*;

use crate::assoc::{self, find_index, has_key, keys, table_get};
use crate::rebase::rebased_model;
use crate::builder::{
    applied_trace, apply_partial, named, run_ends, elements_applied, elements_defer_free, hook_name, indexed_name, keeps_members, lemma_join_differs,
    lemma_join_injective, lemma_some_name_free, on_state, on_transition, partial_applied, Partial,
};
use crate::element::{
    contains_name, names_view, Behavior, BehaviorOperation, BehaviorOperationView, BehaviorView,
    Element, ElementVariant, ElementView, FinalizerFn, ModelFinalizer, NamedElement, Observation,
    ObservationView, State, StateView, Transition, TransitionView, ValidatorFn,
};
use crate::error::HsmError;
use crate::kind::{self, KindValue};
use crate::model::{
    chain_candidates, climb, deferred_along, event_entries, history_chain, initial_transitions,
    is_event_set, is_event_table, lemma_chain_members, lemma_deferred_along_members,
    lemma_event_entries_members, lemma_history_chain_members, lemma_root_names_members,
    list_get, members_mapped, root_candidates, tables_consistent, updates_view, with_final_kind, with_path_entry, with_resolved_target, without_paths,
    Model,
};
use crate::path::{self, spec_basename, spec_dirname, spec_join};
use crate::text;

verus! {

/// Computes the runtime tables of a model.
#[derive(Clone, Copy, Debug)]
pub struct DefaultModelFinalizer;

impl DefaultModelFinalizer {
    /// Records the transitions' paths and builds the runtime tables.
    pub fn finalize(&self, model: &mut Model)
        ensures
            members_mapped(old(model).members@, final(model).members@, |e: ElementView| with_path_entry(e)),
            final(model).state == old(model).state,
            final(model).attributes == old(model).attributes,
            tables_consistent(*final(model)),
    {
        default_finalize_model(model)
    }
}

impl ModelFinalizer for DefaultModelFinalizer {
    fn finalize(&self, model: &mut Model) {
        default_finalize_model(model)
    }
}

/// Records the transitions' paths, then builds the transition, deferral and
/// history tables.
fn default_finalize_model(model: &mut Model)
    ensures
        members_mapped(old(model).members@, final(model).members@, |e: ElementView| with_path_entry(e)),
        final(model).state == old(model).state,
        final(model).attributes == old(model).attributes,
        tables_consistent(*final(model)),
{
    model.calculate_transition_paths();
    let ghost m1 = *model;
    model.build_transition_table();
    let ghost m2 = *model;
    model.build_deferred_table();
    let ghost m3 = *model;
    model.build_history_table();
    let ghost m4 = *model;
    proof {
        lemma_root_names_members(m1, m4, m1.members@);
        assert forall|t: Seq<(String, Vec<String>)>, c: Seq<Seq<char>>| is_event_table(m1, t, c) implies #[trigger] is_event_table(m4, t, c) by {
            assert forall|e: Seq<char>| #[trigger] list_get(t, e) == event_entries(m4, c, e) by {
                lemma_event_entries_members(m1, m4, c, e);
            }
        }
        assert(initial_transitions(m1, m1.state.initial@) == initial_transitions(m4, m4.state.initial@));
        assert forall|n: Seq<char>| #[trigger] m4.state_of(n) is Some implies (table_get(m4.transition_map@, n) matches Some(t) && is_event_table(m4, t@, chain_candidates(m4, climb(n, seq![]), root_candidates(m4)))) by {
            lemma_chain_members(m1, m4, climb(n, seq![]), root_candidates(m1));
            assert(m1.state_of(n) is Some);
        }
        assert forall|n: Seq<char>| #[trigger] m4.state_of(n) is Some implies (table_get(m4.deferred_map@, n) matches Some(set) && is_event_set(set@, deferred_along(m4, climb(n, seq![])))) by {
            lemma_deferred_along_members(m2, m4, climb(n, seq![]));
            assert(m2.state_of(n) is Some);
        }
        assert forall|n: Seq<char>| #[trigger] m4.state_of(n) is Some implies (table_get(m4.history_updates@, n) matches Some(u) && updates_view(u@) == history_chain(m4, n, n, spec_dirname(n))) by {
            lemma_history_chain_members(m3, m4, n, n, spec_dirname(n));
            assert(m3.state_of(n) is Some);
        }
    }
}

/// A behavior generated to report an observation.
pub open spec fn is_generated_view(e: ElementView) -> bool {
    e matches ElementView::Behavior(b) && b.operation matches Some(BehaviorOperationView::Observation { .. })
}

/// Whether the behavior reports an observation.
fn is_observation_behavior(behavior: &Behavior) -> (r: bool)
    ensures
        r == (behavior@.operation matches Some(BehaviorOperationView::Observation { .. })),
{
    match &behavior.operation {
        Some(BehaviorOperation::Observation { .. }) => true,
        _ => false,
    }
}

/// The names of the generated observation behaviors among `s`, in order.
pub open spec fn generated_behavior_names(s: Seq<(String, ElementVariant)>) -> Seq<Seq<char>>
    decreases s.len(),
{
    if s.len() == 0 {
        seq![]
    } else {
        generated_behavior_names(s.drop_last()) + (if is_generated_view(s.last().1@) {
            seq![s.last().0@]
        } else {
            seq![]
        })
    }
}

/// `list` without the names in `gone`.
pub open spec fn without(list: Seq<Seq<char>>, gone: Seq<Seq<char>>) -> Seq<Seq<char>>
    decreases list.len(),
{
    if list.len() == 0 {
        seq![]
    } else {
        without(list.drop_last(), gone) + (if gone.contains(list.last()) {
            seq![]
        } else {
            seq![list.last()]
        })
    }
}

/// `e` with the names in `gone` dropped from its behavior lists.
pub open spec fn stripped(e: ElementView, gone: Seq<Seq<char>>) -> ElementView {
    match e {
        ElementView::State(s) => ElementView::State(StateView {
            entry: without(s.entry, gone),
            exit: without(s.exit, gone),
            activities: without(s.activities, gone),
            ..s
        }),
        ElementView::Transition(t) => ElementView::Transition(TransitionView { effect: without(t.effect, gone), ..t }),
        _ => e,
    }
}

/// The members named outside `gone`, each stripped of the names in `gone`.
pub open spec fn kept_members(s: Seq<(String, ElementVariant)>, gone: Seq<Seq<char>>) -> Seq<(Seq<char>, ElementView)>
    decreases s.len(),
{
    if s.len() == 0 {
        seq![]
    } else {
        kept_members(s.drop_last(), gone) + (if gone.contains(s.last().0@) {
            seq![]
        } else {
            seq![(s.last().0@, stripped(s.last().1@, gone))]
        })
    }
}

/// The text and view of each member.
pub open spec fn members_view(s: Seq<(String, ElementVariant)>) -> Seq<(Seq<char>, ElementView)> {
    s.map_values(|p: (String, ElementVariant)| (p.0@, p.1@))
}

/// The names not in `gone`, in order.
fn names_without(list: &Vec<String>, gone: &Vec<String>) -> (r: Vec<String>)
    ensures
        names_view(r@) == without(names_view(list@), names_view(gone@)),
{
    let mut out: Vec<String> = Vec::new();
    let mut i: usize = 0;
    while i < list.len()
        invariant
            0 <= i <= list@.len(),
            names_view(out@) == without(names_view(list@).take(i as int), names_view(gone@)),
        decreases list@.len() - i,
    {
        proof {
            assert(names_view(list@).take(i + 1).drop_last() =~= names_view(list@).take(i as int));
            assert(names_view(list@).take(i + 1).last() == list@[i as int]@);
        }
        let ghost before = out@;
        if !contains_name(gone, list[i].as_str()) {
            out.push(list[i].clone());
        }
        proof {
            assert(names_view(out@) =~= without(names_view(list@).take(i + 1), names_view(gone@)));
        }
        i += 1;
    }
    proof {
        assert(names_view(list@).take(list@.len() as int) =~= names_view(list@));
    }
    out
}

/// The element without the names in `gone` in its behavior lists.
fn strip_element(e: &ElementVariant, gone: &Vec<String>) -> (r: ElementVariant)
    ensures
        r@ == stripped(e@, names_view(gone@)),
{
    match e {
        ElementVariant::State(s) => {
            let mut s = s.clone();
            s.entry = names_without(&s.entry, gone);
            s.exit = names_without(&s.exit, gone);
            s.activities = names_without(&s.activities, gone);
            let r = ElementVariant::State(s);
            assert(r@ =~~= stripped(e@, names_view(gone@)));
            r
        },
        ElementVariant::Transition(t) => {
            let mut t = t.clone();
            t.effect = names_without(&t.effect, gone);
            let r = ElementVariant::Transition(t);
            assert(r@ =~~= stripped(e@, names_view(gone@)));
            r
        },
        _ => e.clone(),
    }
}

/// Drops the behaviors generated for observations, and their names from
/// the behavior lists of states and transitions.
pub fn remove_generated_observation_behaviors(model: &mut Model)
    ensures
        generated_behavior_names(old(model).members@).len() == 0 ==> final(model).members == old(model).members,
        generated_behavior_names(old(model).members@).len() > 0 ==> members_view(final(model).members@) == kept_members(old(model).members@, generated_behavior_names(old(model).members@)),
        final(model).state == old(model).state,
        final(model).transition_map == old(model).transition_map,
        final(model).deferred_map == old(model).deferred_map,
        final(model).history_updates == old(model).history_updates,
        final(model).attributes == old(model).attributes,
{
    let mut generated: Vec<String> = Vec::new();
    let mut i: usize = 0;
    while i < model.members.len()
        invariant
            0 <= i <= model.members@.len(),
            names_view(generated@) == generated_behavior_names(model.members@.take(i as int)),
        decreases model.members@.len() - i,
    {
        proof {
            assert(model.members@.take(i + 1).drop_last() =~= model.members@.take(i as int));
        }
        let is_generated = match &model.members[i].1 {
            ElementVariant::Behavior(b) => is_observation_behavior(b),
            _ => false,
        };
        if is_generated {
            generated.push(model.members[i].0.clone());
        }
        proof {
            assert(names_view(generated@) =~= generated_behavior_names(model.members@.take(i + 1)));
        }
        i += 1;
    }
    proof {
        assert(model.members@.take(model.members@.len() as int) =~= model.members@);
    }
    if generated.len() == 0 {
        return;
    }
    let ghost gone = names_view(generated@);
    let mut kept: Vec<(String, ElementVariant)> = Vec::new();
    let mut j: usize = 0;
    while j < model.members.len()
        invariant
            0 <= j <= model.members@.len(),
            gone == names_view(generated@),
            members_view(kept@) == kept_members(model.members@.take(j as int), gone),
        decreases model.members@.len() - j,
    {
        proof {
            assert(model.members@.take(j + 1).drop_last() =~= model.members@.take(j as int));
        }
        let ghost before = kept@;
        if !contains_name(&generated, model.members[j].0.as_str()) {
            let e = strip_element(&model.members[j].1, &generated);
            kept.push((model.members[j].0.clone(), e));
        }
        proof {
            assert(members_view(kept@) =~= kept_members(model.members@.take(j + 1), gone));
        }
        j += 1;
    }
    proof {
        assert(model.members@.take(model.members@.len() as int) =~= model.members@);
    }
    model.members = kept;
}

/// Whether a transition gets the completion event: it has no events and
/// leaves a state or pseudostate that is not a pseudostate kind.
pub open spec fn is_completion_transition(m: Model, t: TransitionView) -> bool {
    &&& t.events.len() == 0
    &&& m.vertex_of(t.source) matches Some(v)
    &&& !kind::spec_is_kind(v.element.kind, kind::PSEUDOSTATE)
}

/// `e` with the completion event, when it is a completion transition.
pub open spec fn with_completion(m: Model, e: ElementView) -> ElementView {
    match e {
        ElementView::Transition(t) => if is_completion_transition(m, t) {
            ElementView::Transition(TransitionView { events: seq![crate::event::final_event_name()], ..t })
        } else {
            e
        },
        _ => e,
    }
}

/// Gives every transition without events that leaves a state the
/// completion event (`hsm/final`).
pub fn register_completion_transitions(model: &mut Model)
    ensures
        members_mapped(old(model).members@, final(model).members@, |e: ElementView| with_completion(*old(model), e)),
        final(model).state == old(model).state,
        final(model).transition_map == old(model).transition_map,
        final(model).deferred_map == old(model).deferred_map,
        final(model).history_updates == old(model).history_updates,
        final(model).attributes == old(model).attributes,
{
    let ghost before = *model;
    let mut flags: Vec<bool> = Vec::new();
    let mut i: usize = 0;
    while i < model.members.len()
        invariant
            0 <= i <= model.members@.len(),
            *model == before,
            flags@.len() == i,
            forall|j: int| 0 <= j < i ==> #[trigger] flags@[j] == (before.members@[j].1@ matches ElementView::Transition(t) && is_completion_transition(before, t)),
        decreases model.members@.len() - i,
    {
        let flag = match &model.members[i].1 {
            ElementVariant::Transition(t) => {
                if t.events.len() == 0 {
                    match model.get_vertex(t.source.as_str()) {
                        Some(v) => !kind::is_kind(v.element.kind, kind::PSEUDOSTATE),
                        None => false,
                    }
                } else {
                    false
                }
            },
            _ => false,
        };
        flags.push(flag);
        i += 1;
    }
    proof {
        reveal_strlit("hsm/final");
        assert("hsm/final"@ =~= crate::event::final_event_name());
    }
    let mut i: usize = 0;
    while i < model.members.len()
        invariant
            0 <= i <= model.members@.len(),
            model.members@.len() == before.members@.len(),
            flags@.len() == before.members@.len(),
            "hsm/final"@ == crate::event::final_event_name(),
            model.state == before.state,
            model.transition_map == before.transition_map,
            model.deferred_map == before.deferred_map,
            model.history_updates == before.history_updates,
            model.attributes == before.attributes,
            forall|j: int| 0 <= j < before.members@.len() ==> #[trigger] flags@[j] == (before.members@[j].1@ matches ElementView::Transition(t) && is_completion_transition(before, t)),
            forall|j: int| 0 <= j < i ==> (#[trigger] model.members@[j]).0 == before.members@[j].0,
            forall|j: int| 0 <= j < i ==> (#[trigger] model.members@[j]).1@ == with_completion(before, before.members@[j].1@),
            forall|j: int| i <= j < before.members@.len() ==> #[trigger] model.members@[j] == before.members@[j],
        decreases model.members@.len() - i,
    {
        let ghost start = model.members@;
        let ghost bj = before.members@[i as int].1;
        if flags[i] {
            let ghost cur = model.members@;
            let (k, e) = model.members.remove(i);
            let e2 = match e {
                ElementVariant::Transition(mut t) => {
                    t.events.push(text::owned("hsm/final"));
                    ElementVariant::Transition(t)
                },
                other => other,
            };
            model.members.insert(i, (k, e2));
            proof {
                assert(model.members@ =~= cur.update(i as int, (k, e2)));
                assert(e2@ =~~= with_completion(before, bj@));
            }
        } else {
            assert(model.members@[i as int].1@ == with_completion(before, bj@));
        }
        assert forall|j: int| 0 <= j < i + 1 implies (#[trigger] model.members@[j]).0 == before.members@[j].0 && model.members@[j].1@ == with_completion(before, before.members@[j].1@) by {
            if j < i {
                assert(model.members@[j] == start[j]);
            }
        }
        i += 1;
    }
}

/// `e` with `name` added to its transitions, when it is a state or a
/// pseudostate that does not list it yet.
pub open spec fn register_one(e: Option<ElementView>, name: Seq<char>) -> Option<ElementView> {
    match e {
        Some(ElementView::State(s)) => if s.vertex.transitions.contains(name) {
            e
        } else {
            Some(ElementView::State(StateView { vertex: crate::element::VertexView { transitions: s.vertex.transitions.push(name), ..s.vertex }, ..s }))
        },
        Some(ElementView::Vertex(v)) => if v.transitions.contains(name) {
            e
        } else {
            Some(ElementView::Vertex(crate::element::VertexView { transitions: v.transitions.push(name), ..v }))
        },
        _ => e,
    }
}

/// The member named `n` after each transition among `names` (in order) is
/// registered on its source.
pub open spec fn registered(m: Model, e: Option<ElementView>, n: Seq<char>, names: Seq<Seq<char>>) -> Option<ElementView>
    decreases names.len(),
{
    if names.len() == 0 {
        e
    } else {
        let prev = registered(m, e, n, names.drop_last());
        match m.transition_of(names.last()) {
            Some(t) => if t.source == n {
                register_one(prev, names.last())
            } else {
                prev
            },
            None => prev,
        }
    }
}

/// The names of the transitions among `s`, in order.
pub open spec fn transition_names(s: Seq<(String, ElementVariant)>) -> Seq<Seq<char>>
    decreases s.len(),
{
    if s.len() == 0 {
        seq![]
    } else {
        transition_names(s.drop_last()) + (if s.last().1 is Transition {
            seq![s.last().0@]
        } else {
            seq![]
        })
    }
}

proof fn lemma_registered_keeps_transitions(m: Model, e: Option<ElementView>, n: Seq<char>, names: Seq<Seq<char>>)
    requires
        e matches Some(x) && x is Transition,
    ensures
        registered(m, e, n, names) == e,
    decreases names.len(),
{
    if names.len() > 0 {
        lemma_registered_keeps_transitions(m, e, n, names.drop_last());
    }
}

proof fn lemma_registered_keeps_kind(m: Model, e: Option<ElementView>, n: Seq<char>, names: Seq<Seq<char>>)
    ensures
        e is None ==> registered(m, e, n, names) is None,
        (e matches Some(x) && !(x is State) && !(x is Vertex)) ==> registered(m, e, n, names) == e,
        (e matches Some(x) && x is State) ==> (registered(m, e, n, names) matches Some(y) && y is State),
        (e matches Some(x) && x is Vertex) ==> (registered(m, e, n, names) matches Some(y) && y is Vertex),
    decreases names.len(),
{
    if names.len() > 0 {
        lemma_registered_keeps_kind(m, e, n, names.drop_last());
    }
}

/// Lists every transition on its source state or pseudostate, in name
/// order, unless it is listed there already.
pub fn register_transition_sources(model: &mut Model)
    ensures
        forall|n: Seq<char>| #[trigger] final(model).member(n) == registered(*old(model), old(model).member(n), n, text::sort_names(transition_names(old(model).members@))),
        final(model).state == old(model).state,
        final(model).transition_map == old(model).transition_map,
        final(model).deferred_map == old(model).deferred_map,
        final(model).history_updates == old(model).history_updates,
        final(model).attributes == old(model).attributes,
        keeps_members(*old(model), *final(model)),
{
    let ghost m0 = *model;
    let mut names: Vec<String> = Vec::new();
    let mut i: usize = 0;
    while i < model.members.len()
        invariant
            0 <= i <= model.members@.len(),
            names_view(names@) == transition_names(model.members@.take(i as int)),
        decreases model.members@.len() - i,
    {
        proof {
            assert(model.members@.take(i + 1).drop_last() =~= model.members@.take(i as int));
        }
        let is_transition = match &model.members[i].1 {
            ElementVariant::Transition(_) => true,
            _ => false,
        };
        if is_transition {
            names.push(model.members[i].0.clone());
        }
        proof {
            assert(names_view(names@) =~= transition_names(model.members@.take(i + 1)));
        }
        i += 1;
    }
    proof {
        assert(model.members@.take(model.members@.len() as int) =~= model.members@);
    }
    let sorted = text::sort_strings(names);
    let ghost all = text::sort_names(transition_names(m0.members@));
    proof {
        assert(names_view(sorted@) =~= sorted@.map_values(|s: String| s@));
        assert(names_view(names@) =~= names@.map_values(|s: String| s@));
        assert forall|n: Seq<char>| #[trigger] model.member(n) == registered(m0, m0.member(n), n, all.take(0)) by {}
    }
    let mut k: usize = 0;
    while k < sorted.len()
        invariant
            0 <= k <= sorted@.len(),
            names_view(sorted@) == all,
            all == text::sort_names(transition_names(m0.members@)),
            model.state == m0.state,
            model.transition_map == m0.transition_map,
            model.deferred_map == m0.deferred_map,
            model.history_updates == m0.history_updates,
            model.attributes == m0.attributes,
            keeps_members(m0, *model),
            forall|n: Seq<char>| #[trigger] model.member(n) == registered(m0, m0.member(n), n, all.take(k as int)),
        decreases sorted@.len() - k,
    {
        let ghost name = sorted@[k as int]@;
        let ghost before = *model;
        proof {
            assert(all.take(k + 1).drop_last() =~= all.take(k as int));
            assert(all.take(k + 1).last() == name);
            assert(all[k as int] == name);
        }
        let source = match model.get_transition(sorted[k].as_str()) {
            Some(t) => Some(t.source.clone()),
            None => None,
        };
        proof {
            // transitions keep their views while sources are registered
            match m0.member(name) {
                Some(ElementView::Transition(t)) => {
                    lemma_registered_keeps_transitions(m0, m0.member(name), name, all.take(k as int));
                },
                Some(x) => {
                    lemma_registered_keeps_kind(m0, m0.member(name), name, all.take(k as int));
                },
                None => {
                    lemma_registered_keeps_kind(m0, m0.member(name), name, all.take(k as int));
                },
            }
            assert(before.member(name) == registered(m0, m0.member(name), name, all.take(k as int)));
            assert(before.transition_of(name) == m0.transition_of(name));
        }
        match source {
            Some(src) => {
                let ghost sv = src@;
                let registered_here = match model.get_member(src.as_str()) {
                    Some(ElementVariant::State(st)) => {
                        if !contains_name(&st.vertex.transitions, sorted[k].as_str()) {
                            let mut st2 = st.clone();
                            st2.vertex.transitions.push(sorted[k].clone());
                            Some(ElementVariant::State(st2))
                        } else {
                            None
                        }
                    },
                    Some(ElementVariant::Vertex(v)) => {
                        if !contains_name(&v.transitions, sorted[k].as_str()) {
                            let mut v2 = v.clone();
                            v2.transitions.push(sorted[k].clone());
                            Some(ElementVariant::Vertex(v2))
                        } else {
                            None
                        }
                    },
                    _ => None,
                };
                match registered_here {
                    Some(e) => {
                        proof {
                            assert(e@ =~~= register_one(before.member(sv), name)->0);
                        }
                        model.set_member(src, e);
                    },
                    None => {},
                }
                proof {
                    assert(model.member(sv) == register_one(before.member(sv), name));
                    assert forall|n: Seq<char>| #[trigger] model.member(n) == registered(m0, m0.member(n), n, all.take(k + 1)) by {
                        if n != sv {
                            assert(model.member(n) == before.member(n));
                        }
                    }
                }
            },
            None => {
                proof {
                    assert forall|n: Seq<char>| #[trigger] model.member(n) == registered(m0, m0.member(n), n, all.take(k + 1)) by {}
                }
            },
        }
        k += 1;
    }
    proof {
        assert(all.take(sorted@.len() as int) =~= all);
    }
}

/// An ASCII decimal digit.
pub open spec fn is_digit(c: char) -> bool {
    '0' <= c && c <= '9'
}

/// The value of a run of decimal digits.
pub open spec fn digits_value(s: Seq<char>) -> nat
    decreases s.len(),
{
    if s.len() == 0 {
        0
    } else {
        digits_value(s.drop_last()) * 10 + ((s.last() as u32) - ('0' as u32)) as nat
    }
}

/// `s` without a leading `+`.
pub open spec fn unsigned_part(s: Seq<char>) -> Seq<char> {
    if s.len() > 0 && s[0] == '+' {
        s.drop_first()
    } else {
        s
    }
}

/// Every character is a decimal digit.
pub open spec fn all_digits(d: Seq<char>) -> bool {
    forall|i: int| 0 <= i < d.len() ==> is_digit(#[trigger] d[i])
}

/// The `usize` that `s` denotes: an optional `+`, then at least one digit,
/// with a value that fits.
pub open spec fn spec_parse_usize(s: Seq<char>) -> Option<nat> {
    let d = unsigned_part(s);
    if d.len() > 0 && all_digits(d) && digits_value(d) <= usize::MAX {
        Some(digits_value(d))
    } else {
        None
    }
}

proof fn lemma_digits_value_grows(s: Seq<char>, i: int)
    requires
        0 <= i <= s.len(),
        forall|j: int| 0 <= j < s.len() ==> is_digit(#[trigger] s[j]),
    ensures
        digits_value(s.take(i)) <= digits_value(s),
    decreases s.len() - i,
{
    if i < s.len() {
        lemma_digits_value_grows(s, i + 1);
        let t = s.take(i + 1);
        assert(t.drop_last() =~= s.take(i));
        assert(is_digit(t.last()));
    } else {
        assert(s.take(i) =~= s);
    }
}

/// Parses a `usize` the way `str::parse` does.
fn parse_usize(s: &str) -> (r: Option<usize>)
    ensures
        match spec_parse_usize(s@) {
            Some(v) => r == Some(v as usize),
            None => r is None,
        },
{
    let n = s.unicode_len();
    let start: usize = if n > 0 && s.get_char(0) == '+' { 1 } else { 0 };
    let ghost d = unsigned_part(s@);
    proof {
        assert(d =~= s@.subrange(start as int, n as int));
    }
    if start >= n {
        return None;
    }
    let mut value: usize = 0;
    let mut i: usize = start;
    while i < n
        invariant
            start <= i <= n,
            n == s@.len(),
            start < n,
            d == s@.subrange(start as int, n as int),
            d == unsigned_part(s@),
            forall|j: int| 0 <= j < i - start ==> is_digit(#[trigger] d[j]),
            value == digits_value(d.take(i - start)),
        decreases n - i,
    {
        let c = s.get_char(i);
        proof {
            assert(d[i - start] == c);
            assert(d.take(i - start + 1).drop_last() =~= d.take(i - start));
        }
        if c < '0' || c > '9' {
            proof {
                assert(!is_digit(d[i - start]));
                assert(!(forall|j: int| 0 <= j < d.len() ==> is_digit(#[trigger] d[j])));
            }
            return None;
        }
        let digit = (c as u32 - '0' as u32) as usize;
        proof {
            assert(digits_value(d.take(i - start + 1)) == value * 10 + digit);
        }
        match value.checked_mul(10) {
            Some(v10) => match v10.checked_add(digit) {
                Some(v) => {
                    value = v;
                },
                None => {
                    proof {
                        if forall|j: int| 0 <= j < d.len() ==> is_digit(#[trigger] d[j]) {
                            lemma_digits_value_grows(d, i - start + 1);
                            assert(digits_value(d) > usize::MAX);
                        }
                    }
                    return None;
                },
            },
            None => {
                proof {
                    if forall|j: int| 0 <= j < d.len() ==> is_digit(#[trigger] d[j]) {
                        lemma_digits_value_grows(d, i - start + 1);
                    }
                }
                return None;
            },
        }
        i += 1;
    }
    proof {
        assert(d.take(n - start) =~= d);
    }
    Some(value)
}

/// The index in a hook's name `prefix_N` (0 when it has none).
pub open spec fn spec_hook_index(qualified_name: Seq<char>, prefix: Seq<char>) -> nat {
    let hook = spec_basename(qualified_name);
    let p = prefix + seq!['_'];
    if text::has_prefix(hook, p) {
        match spec_parse_usize(hook.subrange(p.len() as int, hook.len() as int)) {
            Some(v) => v,
            None => 0,
        }
    } else {
        0
    }
}

fn model_hook_index(qualified_name: &str, prefix: &str) -> (r: usize)
    ensures
        r == spec_hook_index(qualified_name@, prefix@),
{
    proof {
        reveal_strlit("_");
        assert("_"@ =~= seq!['_']);
    }
    let hook_name = path::basename(qualified_name);
    let prefix = text::concat(prefix, "_");
    match text::strip_prefix(hook_name, prefix.as_str()) {
        Some(index) => match parse_usize(index) {
            Some(v) => v,
            None => 0,
        },
        None => 0,
    }
}

/// The declared validator with the highest index (the last of them on a tie).
pub open spec fn best_validator(s: Seq<(String, ElementVariant)>) -> Option<(nat, ValidatorFn)>
    decreases s.len(),
{
    if s.len() == 0 {
        None
    } else {
        let prev = best_validator(s.drop_last());
        match s.last().1 {
            ElementVariant::Validator(v) => {
                let i = spec_hook_index(s.last().0@, seq!['v', 'a', 'l', 'i', 'd', 'a', 't', 'o', 'r']);
                match prev {
                    Some(p) => if i >= p.0 {
                        Some((i, v.validator))
                    } else {
                        prev
                    },
                    None => Some((i, v.validator)),
                }
            },
            _ => prev,
        }
    }
}

/// The declared finalizer with the highest index (the last of them on a tie).
pub open spec fn best_finalizer(s: Seq<(String, ElementVariant)>) -> Option<(nat, FinalizerFn)>
    decreases s.len(),
{
    if s.len() == 0 {
        None
    } else {
        let prev = best_finalizer(s.drop_last());
        match s.last().1 {
            ElementVariant::Finalizer(f) => {
                let i = spec_hook_index(s.last().0@, seq!['f', 'i', 'n', 'a', 'l', 'i', 'z', 'e', 'r']);
                match prev {
                    Some(p) => if i >= p.0 {
                        Some((i, f.finalizer))
                    } else {
                        prev
                    },
                    None => Some((i, f.finalizer)),
                }
            },
            _ => prev,
        }
    }
}

/// The custom validator the model selects, if it declares any.
pub fn selected_model_validator(model: &Model) -> (r: Option<ValidatorFn>)
    ensures
        match best_validator(model.members@) {
            Some(p) => r == Some(p.1),
            None => r is None,
        },
{
    proof {
        reveal_strlit("validator");
        assert("validator"@ =~= seq!['v', 'a', 'l', 'i', 'd', 'a', 't', 'o', 'r']);
    }
    let mut best: Option<(usize, ValidatorFn)> = None;
    let mut i: usize = 0;
    while i < model.members.len()
        invariant
            0 <= i <= model.members@.len(),
            "validator"@ == seq!['v', 'a', 'l', 'i', 'd', 'a', 't', 'o', 'r'],
            match best_validator(model.members@.take(i as int)) {
                Some(p) => best matches Some(b) && b.0 == p.0 && b.1 == p.1,
                None => best is None,
            },
        decreases model.members@.len() - i,
    {
        proof {
            assert(model.members@.take(i + 1).drop_last() =~= model.members@.take(i as int));
        }
        match &model.members[i].1 {
            ElementVariant::Validator(v) => {
                let index = model_hook_index(model.members[i].0.as_str(), "validator");
                best = match best {
                    Some(b) => if index >= b.0 {
                        Some((index, v.validator))
                    } else {
                        Some(b)
                    },
                    None => Some((index, v.validator)),
                };
            },
            _ => {},
        }
        i += 1;
    }
    proof {
        assert(model.members@.take(model.members@.len() as int) =~= model.members@);
    }
    match best {
        Some(b) => Some(b.1),
        None => None,
    }
}

/// The custom finalizer the model selects, if it declares any (the default
/// finalizer runs otherwise).
pub fn selected_model_finalizer(model: &Model) -> (r: Option<FinalizerFn>)
    ensures
        match best_finalizer(model.members@) {
            Some(p) => r == Some(p.1),
            None => r is None,
        },
{
    proof {
        reveal_strlit("finalizer");
        assert("finalizer"@ =~= seq!['f', 'i', 'n', 'a', 'l', 'i', 'z', 'e', 'r']);
    }
    let mut best: Option<(usize, FinalizerFn)> = None;
    let mut i: usize = 0;
    while i < model.members.len()
        invariant
            0 <= i <= model.members@.len(),
            "finalizer"@ == seq!['f', 'i', 'n', 'a', 'l', 'i', 'z', 'e', 'r'],
            match best_finalizer(model.members@.take(i as int)) {
                Some(p) => best matches Some(b) && b.0 == p.0 && b.1 == p.1,
                None => best is None,
            },
        decreases model.members@.len() - i,
    {
        proof {
            assert(model.members@.take(i + 1).drop_last() =~= model.members@.take(i as int));
        }
        match &model.members[i].1 {
            ElementVariant::Finalizer(f) => {
                let index = model_hook_index(model.members[i].0.as_str(), "finalizer");
                best = match best {
                    Some(b) => if index >= b.0 {
                        Some((index, f.finalizer))
                    } else {
                        Some(b)
                    },
                    None => Some((index, f.finalizer)),
                };
            },
            _ => {},
        }
        i += 1;
    }
    proof {
        assert(model.members@.take(model.members@.len() as int) =~= model.members@);
    }
    match best {
        Some(b) => Some(b.1),
        None => None,
    }
}

/// Whether the observer watches the named behavior (it watches everything
/// when it names no target).
fn observation_matches_behavior(observation: &Observation, behavior_name: &str) -> (r: bool)
    ensures
        r == (observation@.targets.len() == 0 || observation@.targets.contains(behavior_name@)),
{
    observation.targets.len() == 0 || contains_name(&observation.targets, behavior_name)
}

/// Whether the observer watches the transition, by its name or one of its
/// events (it watches everything when it names no target).
fn observation_matches_transition(observation: &Observation, transition_name: &str, transition: &Transition) -> (r: bool)
    ensures
        r == (observation@.targets.len() == 0 || exists|i: int| 0 <= i < observation@.targets.len() && (#[trigger] observation@.targets[i] == transition_name@ || transition@.events.contains(observation@.targets[i]))),
{
    if observation.targets.len() == 0 {
        return true;
    }
    let mut i: usize = 0;
    while i < observation.targets.len()
        invariant
            0 <= i <= observation.targets@.len(),
            forall|j: int| 0 <= j < i ==> !(#[trigger] observation@.targets[j] == transition_name@ || transition@.events.contains(observation@.targets[j])),
        decreases observation.targets@.len() - i,
    {
        let target = observation.targets[i].as_str();
        if text::str_eq(target, transition_name) || contains_name(&transition.events, target) {
            assert(observation@.targets[i as int] == target@);
            return true;
        }
        i += 1;
    }
    false
}

/// Where a behavior is attached: in a list of the state or transition that
/// owns it.
enum BehaviorAttachment {
    StateEntry(String),
    StateExit(String),
    StateActivity(String),
    TransitionEffect(String),
}

/// Which list of its owner a behavior is attached to.
pub enum AttachmentList {
    Entry,
    Exit,
    Activity,
    Effect,
}

/// The list of its owner (the member its name lies directly under) that
/// lists the behavior `b`: the state's entry, exit or activity list, in that
/// order, or the transition's effects; none when no such list names it.
pub open spec fn attachment_of(m: Model, b: Seq<char>) -> Option<AttachmentList> {
    let owner = spec_dirname(b);
    match m.state_of(owner) {
        Some(s) => if s.entry.contains(b) {
            Some(AttachmentList::Entry)
        } else if s.exit.contains(b) {
            Some(AttachmentList::Exit)
        } else if s.activities.contains(b) {
            Some(AttachmentList::Activity)
        } else {
            None
        },
        None => match m.transition_of(owner) {
            Some(t) => if t.effect.contains(b) {
                Some(AttachmentList::Effect)
            } else {
                None
            },
            None => None,
        },
    }
}

/// `list` with `g` placed just before the first `before` (unchanged when
/// `before` is absent).
pub open spec fn with_before(list: Seq<Seq<char>>, before: Seq<char>, g: Seq<char>) -> Seq<Seq<char>> {
    if list.contains(before) {
        list.insert(first_position(list, before), g)
    } else {
        list
    }
}

/// `e` with `g` placed just before `before` in its list `l`, when `e` is a
/// member that has such a list.
pub open spec fn attached_before(e: Option<ElementView>, l: AttachmentList, before: Seq<char>, g: Seq<char>) -> Option<ElementView> {
    match l {
        AttachmentList::Entry => on_state(e, |s: StateView| StateView { entry: with_before(s.entry, before, g), ..s }),
        AttachmentList::Exit => on_state(e, |s: StateView| StateView { exit: with_before(s.exit, before, g), ..s }),
        AttachmentList::Activity => on_state(e, |s: StateView| StateView { activities: with_before(s.activities, before, g), ..s }),
        AttachmentList::Effect => on_transition(e, |t: TransitionView| TransitionView { effect: with_before(t.effect, before, g), ..t }),
    }
}

impl BehaviorAttachment {
    spec fn spec_list(&self) -> AttachmentList {
        match self {
            BehaviorAttachment::StateEntry(_) => AttachmentList::Entry,
            BehaviorAttachment::StateExit(_) => AttachmentList::Exit,
            BehaviorAttachment::StateActivity(_) => AttachmentList::Activity,
            BehaviorAttachment::TransitionEffect(_) => AttachmentList::Effect,
        }
    }

    spec fn spec_owner(&self) -> Seq<char> {
        match self {
            BehaviorAttachment::StateEntry(owner) => owner@,
            BehaviorAttachment::StateExit(owner) => owner@,
            BehaviorAttachment::StateActivity(owner) => owner@,
            BehaviorAttachment::TransitionEffect(owner) => owner@,
        }
    }

    fn owner(&self) -> (r: String)
        ensures
            r@ == self.spec_owner(),
    {
        match self {
            BehaviorAttachment::StateEntry(owner) => owner.clone(),
            BehaviorAttachment::StateExit(owner) => owner.clone(),
            BehaviorAttachment::StateActivity(owner) => owner.clone(),
            BehaviorAttachment::TransitionEffect(owner) => owner.clone(),
        }
    }
}

/// The list of its owner the behavior is attached to.
fn behavior_attachment(model: &Model, behavior_name: &str) -> (r: Option<BehaviorAttachment>)
    ensures
        r is None <==> attachment_of(*model, behavior_name@) is None,
        r matches Some(a) ==> attachment_of(*model, behavior_name@) == Some(a.spec_list()),
        r matches Some(a) ==> a.spec_owner() == spec_dirname(behavior_name@),
        r matches Some(a) ==> has_key(model.members@, a.spec_owner()),
        r matches Some(a) ==> (model.state_of(a.spec_owner()) is Some || model.transition_of(a.spec_owner()) is Some),
{
    let owner = text::owned(path::dirname(behavior_name));
    proof {
        assoc::lemma_find_index(model.members@, owner@);
    }
    match model.get_state(owner.as_str()) {
        Some(state) => {
            if contains_name(&state.entry, behavior_name) {
                return Some(BehaviorAttachment::StateEntry(owner));
            }
            if contains_name(&state.exit, behavior_name) {
                return Some(BehaviorAttachment::StateExit(owner));
            }
            if contains_name(&state.activities, behavior_name) {
                return Some(BehaviorAttachment::StateActivity(owner));
            }
        },
        None => {},
    }
    match model.get_transition(owner.as_str()) {
        Some(transition) => {
            if contains_name(&transition.effect, behavior_name) {
                return Some(BehaviorAttachment::TransitionEffect(owner));
            }
        },
        None => {},
    }
    None
}

/// The position of the first `x` in `s`, or -1.
pub open spec fn first_position(s: Seq<Seq<char>>, x: Seq<char>) -> int
    decreases s.len(),
{
    if s.len() == 0 {
        -1
    } else if s[0] == x {
        0
    } else {
        let r = first_position(s.drop_first(), x);
        if r < 0 {
            -1
        } else {
            r + 1
        }
    }
}

proof fn lemma_first_position(s: Seq<Seq<char>>, x: Seq<char>, i: int)
    requires
        0 <= i < s.len(),
        s[i] == x,
        forall|j: int| 0 <= j < i ==> s[j] != x,
    ensures
        first_position(s, x) == i,
    decreases i,
{
    if i > 0 {
        assert forall|j: int| 0 <= j < i - 1 implies s.drop_first()[j] != x by {
            assert(s.drop_first()[j] == s[j + 1]);
        }
        lemma_first_position(s.drop_first(), x, i - 1);
    }
}

/// `value` placed just before the first `before` in the list (nothing
/// happens when `before` is absent).
fn insert_before(list: &mut Vec<String>, before: &str, value: String)
    ensures
        names_view(old(list)@).contains(before@) ==> names_view(final(list)@) == names_view(old(list)@).insert(first_position(names_view(old(list)@), before@), value@),
        !names_view(old(list)@).contains(before@) ==> final(list)@ == old(list)@,
{
    let mut i: usize = 0;
    while i < list.len()
        invariant
            0 <= i <= list@.len(),
            list@ == old(list)@,
            forall|j: int| 0 <= j < i ==> (#[trigger] list@[j])@ != before@,
        decreases list@.len() - i,
    {
        if text::str_eq(list[i].as_str(), before) {
            let ghost nv = names_view(list@);
            proof {
                assert(nv[i as int] == before@);
                assert forall|j: int| 0 <= j < i implies nv[j] != before@ by {
                    assert(nv[j] == list@[j]@);
                }
                lemma_first_position(nv, before@, i as int);
            }
            list.insert(i, value);
            proof {
                assert(names_view(list@) =~= nv.insert(i as int, value@));
            }
            return;
        }
        i += 1;
    }
    proof {
        if names_view(list@).contains(before@) {
            let k = choose|k: int| 0 <= k < names_view(list@).len() && names_view(list@)[k] == before@;
            assert(list@[k]@ == before@);
        }
    }
}

/// Adds the generated behavior's name before `before_behavior` in the list
/// the attachment names.
fn attach_observation_behavior(model: &mut Model, attachment: BehaviorAttachment, before_behavior: &str, generated_name: String)
    ensures
        final(model).member(attachment.spec_owner()) == attached_before(old(model).member(attachment.spec_owner()), attachment.spec_list(), before_behavior@, generated_name@),
        keeps_members(*old(model), *final(model)),
        forall|n: Seq<char>| n != attachment.spec_owner() ==> #[trigger] final(model).member(n) == old(model).member(n),
        forall|n: Seq<char>| #[trigger] has_key(final(model).members@, n) == has_key(old(model).members@, n),
        final(model).state == old(model).state,
        final(model).transition_map == old(model).transition_map,
        final(model).deferred_map == old(model).deferred_map,
        final(model).history_updates == old(model).history_updates,
        final(model).attributes == old(model).attributes,
{
    match attachment {
        BehaviorAttachment::TransitionEffect(owner) => {
            match model.get_transition(owner.as_str()) {
                Some(t) => {
                    let mut t2 = t.clone();
                    insert_before(&mut t2.effect, before_behavior, generated_name);
                    model.set_member(owner, ElementVariant::Transition(t2));
                },
                None => {},
            }
        },
        BehaviorAttachment::StateEntry(owner) => {
            match model.get_state(owner.as_str()) {
                Some(st) => {
                    let mut st2 = st.clone();
                    insert_before(&mut st2.entry, before_behavior, generated_name);
                    model.set_member(owner, ElementVariant::State(st2));
                },
                None => {},
            }
        },
        BehaviorAttachment::StateExit(owner) => {
            match model.get_state(owner.as_str()) {
                Some(st) => {
                    let mut st2 = st.clone();
                    insert_before(&mut st2.exit, before_behavior, generated_name);
                    model.set_member(owner, ElementVariant::State(st2));
                },
                None => {},
            }
        },
        BehaviorAttachment::StateActivity(owner) => {
            match model.get_state(owner.as_str()) {
                Some(st) => {
                    let mut st2 = st.clone();
                    insert_before(&mut st2.activities, before_behavior, generated_name);
                    model.set_member(owner, ElementVariant::State(st2));
                },
                None => {},
            }
        },
    }
}

/// Names `owner/base`, `owner/base_1`, ... differ when `base` is a relative
/// name.
proof fn lemma_indexed_names_differ(owner: Seq<char>, base: Seq<char>, i: nat, j: nat)
    requires
        base.len() > 0,
        base[0] != '/',
        i != j,
    ensures
        spec_join(owner, indexed_name(base, i)) != spec_join(owner, indexed_name(base, j)),
{
    let a = indexed_name(base, i);
    let b = indexed_name(base, j);
    assert(a[0] == base[0] && b[0] == base[0]);
    if spec_join(owner, a) == spec_join(owner, b) {
        lemma_join_injective(owner, a, b);
        if i == 0 {
            assert(b.len() > a.len());
        } else if j == 0 {
            assert(a.len() > b.len());
        } else {
            let k = base.len() + 1;
            assert(text::decimal(i) =~= a.subrange(k as int, a.len() as int));
            assert(text::decimal(j) =~= b.subrange(k as int, b.len() as int));
            text::lemma_decimal_injective(i, j);
        }
    }
}

/// The base name of a behavior generated when `observation` sees
/// `occurrence` of `source`.
pub open spec fn observation_base_name(observation: Seq<char>, occurrence: Seq<char>, source: Seq<char>) -> Seq<char> {
    seq!['o', 'b', 's', 'e', 'r', 'v', 'e', '_'] + spec_basename(observation) + seq!['_'] + occurrence + seq!['_'] + spec_basename(source)
}

/// The first free name `owner/base`, `owner/base_1`, ... for a generated
/// behavior.
fn unique_observation_behavior_name(model: &Model, owner: &str, observation: &Observation, occurrence: &str, source: &str) -> (r: String)
    ensures
        !has_key(model.members@, r@),
        exists|k: nat|
            r@ == #[trigger] spec_join(owner@, indexed_name(observation_base_name(observation@.element.qualified_name, occurrence@, source@), k))
                && forall|j: nat| j < k ==> has_key(model.members@, #[trigger] spec_join(owner@, indexed_name(observation_base_name(observation@.element.qualified_name, occurrence@, source@), j))),
{
    proof {
        reveal_strlit("observe_");
        reveal_strlit("_");
        assert("observe_"@ =~= seq!['o', 'b', 's', 'e', 'r', 'v', 'e', '_']);
        assert("_"@ =~= seq!['_']);
    }
    let observation_name = path::basename(observation.element.qualified_name.as_str());
    let source_name = path::basename(source);
    let a = text::concat3("observe_", observation_name, "_");
    let b = text::concat3(a.as_str(), occurrence, "_");
    let base = text::concat(b.as_str(), source_name);
    let ghost bv = observation_base_name(observation@.element.qualified_name, occurrence@, source@);
    assert(base@ =~= bv);
    let ghost f = |k: nat| spec_join(owner@, indexed_name(bv, k));
    proof {
        assert forall|i: nat, j: nat| i <= model.members@.len() && j <= model.members@.len() && i != j implies #[trigger] f(i) != #[trigger] f(j) by {
            lemma_indexed_names_differ(owner@, bv, i, j);
        }
        lemma_some_name_free(model.members@, f);
        let k = choose|k: nat| k <= model.members@.len() && !has_key(model.members@, #[trigger] f(k));
        assert(f(k) == spec_join(owner@, indexed_name(bv, k)));
    }
    let mut index: usize = 0;
    loop
        invariant
            index <= model.members@.len(),
            base@ == bv,
            bv == observation_base_name(observation@.element.qualified_name, occurrence@, source@),
            "_"@ == seq!['_'],
            exists|k: nat| k <= model.members@.len() && !has_key(model.members@, #[trigger] spec_join(owner@, indexed_name(bv, k))),
            forall|j: nat| j < index ==> has_key(model.members@, #[trigger] spec_join(owner@, indexed_name(bv, j))),
        decreases model.members@.len() - index,
    {
        let local = if index == 0 {
            base.clone()
        } else {
            text::concat3(base.as_str(), "_", text::usize_to_string(index).as_str())
        };
        let qualified_name = path::join(owner, local.as_str());
        assert(qualified_name@ == spec_join(owner@, indexed_name(bv, index as nat)));
        if !assoc::contains_key(&model.members, qualified_name.as_str()) {
            return qualified_name;
        }
        if index == model.members.len() {
            proof {
                let k = choose|k: nat| k <= model.members@.len() && !has_key(model.members@, #[trigger] spec_join(owner@, indexed_name(bv, k)));
                if k < index {
                    assert(has_key(model.members@, spec_join(owner@, indexed_name(bv, k))));
                }
                assert(false);
            }
            return qualified_name;
        }
        index += 1;
    }
}

/// The behavior that reports `observation` seeing `occurrence` of `source`.
fn observation_behavior(observation: &Observation, qualified_name: &str, behavior_kind: KindValue, source: &str, occurrence: &str) -> (r: Behavior)
    ensures
        r@ == (BehaviorView {
            element: crate::element::NamedElementView { kind: behavior_kind, qualified_name: qualified_name@ },
            entry: None,
            effect: None,
            exit: None,
            activity: None,
            operation: Some(BehaviorOperationView::Observation { observer: observation.observer, source: source@, occurrence: occurrence@ }),
        }),
{
    Behavior {
        element: NamedElement { kind: behavior_kind, qualified_name: text::owned(qualified_name) },
        entry: None,
        effect: None,
        exit: None,
        activity: None,
        operation: Some(BehaviorOperation::Observation {
            observer: observation.observer,
            source: text::owned(source),
            occurrence: text::owned(occurrence),
        }),
    }
}

/// Whether the named member is a behavior generated for an observation.
fn is_generated_observation_behavior(model: &Model, behavior_name: &str) -> (r: bool)
    ensures
        r == (model.behavior_of(behavior_name@) matches Some(b) && b.operation matches Some(BehaviorOperationView::Observation { .. })),
{
    match model.get_behavior(behavior_name) {
        Some(b) => is_observation_behavior(b),
        None => false,
    }
}

/// The model's members only grow, and every new one is a behavior generated
/// for an observation.
pub open spec fn grows_by_generated(a: Model, b: Model) -> bool {
    &&& keeps_members(a, b)
    &&& forall|n: Seq<char>| !has_key(a.members@, n) && #[trigger] has_key(b.members@, n) ==> (b.member(n) matches Some(e) && is_generated_view(e))
    &&& forall|n: Seq<char>| (#[trigger] a.member(n) matches Some(e) && is_generated_view(e)) ==> b.member(n) == a.member(n)
    &&& b.state == a.state
    &&& b.transition_map == a.transition_map
    &&& b.deferred_map == a.deferred_map
    &&& b.history_updates == a.history_updates
    &&& b.attributes == a.attributes
}

/// The behavior generated when observation `o` sees `occurrence` of
/// `source`, named `g`.
pub open spec fn observation_behavior_view(o: ObservationView, g: Seq<char>, k: KindValue, source: Seq<char>, occurrence: Seq<char>) -> BehaviorView {
    BehaviorView {
        element: crate::element::NamedElementView { kind: k, qualified_name: g },
        entry: None,
        effect: None,
        exit: None,
        activity: None,
        operation: Some(BehaviorOperationView::Observation { observer: o.observer, source: source, occurrence: occurrence }),
    }
}

/// `b` is `a` with a generated behavior `g` added under `owner`: `g` is the
/// first free name `owner/base`, `owner/base_1`, ..., it holds `view`, the
/// member `owner` becomes `owner_after`, and nothing else changes.
pub open spec fn generated_added(a: Model, b: Model, owner: Seq<char>, base: Seq<char>, view: spec_fn(Seq<char>) -> BehaviorView, owner_after: spec_fn(Seq<char>) -> Option<ElementView>) -> bool {
    exists|k: nat| {
        let g = #[trigger] spec_join(owner, indexed_name(base, k));
        &&& !has_key(a.members@, g)
        &&& forall|j: nat| j < k ==> has_key(a.members@, #[trigger] spec_join(owner, indexed_name(base, j)))
        &&& b.member(g) == Some(ElementView::Behavior(view(g)))
        &&& b.member(owner) == owner_after(g)
        &&& forall|n: Seq<char>| n != g && n != owner ==> #[trigger] b.member(n) == a.member(n)
        &&& same_tables(a, b)
    }
}

/// What reporting that observation `o` sees the behavior `name` does to `a`:
/// nothing when no list of its owner names it; else a generated behavior is
/// added and placed just before `name` in that list.
pub open spec fn behavior_observed(a: Model, b: Model, o: ObservationView, name: Seq<char>) -> bool {
    match attachment_of(a, name) {
        None => b == a,
        Some(l) => {
            let owner = spec_dirname(name);
            let k = if l is Activity { kind::CONCURRENT } else { kind::BEHAVIOR };
            generated_added(
                a,
                b,
                owner,
                observation_base_name(o.element.qualified_name, "behavior"@, name),
                |g: Seq<char>| observation_behavior_view(o, g, k, name, "behavior"@),
                |g: Seq<char>| attached_before(a.member(owner), l, name, g),
            )
        },
    }
}

/// The member `n` is a behavior generated for an observation.
pub open spec fn is_generated_name(m: Model, n: Seq<char>) -> bool {
    m.behavior_of(n) matches Some(b) && b.operation matches Some(BehaviorOperationView::Observation { .. })
}

/// How many names at the front of `names` are generated behaviors.
pub open spec fn leading_generated(m: Model, names: Seq<Seq<char>>) -> nat
    decreases names.len(),
{
    if names.len() > 0 && is_generated_name(m, names[0]) {
        1 + leading_generated(m, names.drop_first())
    } else {
        0
    }
}

/// What reporting that observation `o` sees the transition `name` does to
/// `a`: nothing when `name` is no transition; else a generated behavior is
/// added and placed in its effects after the generated ones at their front.
pub open spec fn transition_observed(a: Model, b: Model, o: ObservationView, name: Seq<char>) -> bool {
    match a.transition_of(name) {
        None => b == a,
        Some(t) => generated_added(
            a,
            b,
            name,
            observation_base_name(o.element.qualified_name, "event"@, name),
            |g: Seq<char>| observation_behavior_view(o, g, kind::BEHAVIOR, name, "event"@),
            |g: Seq<char>| Some(ElementView::Transition(TransitionView { effect: t.effect.insert(leading_generated(a, t.effect) as int, g), ..t })),
        ),
    }
}

/// Reports the observed behavior: a generated behavior is placed just
/// before it in its owner's list.
fn insert_behavior_observation(model: &mut Model, observation: &Observation, behavior_name: &str)
    ensures
        grows_by_generated(*old(model), *final(model)),
        behavior_observed(*old(model), *final(model), observation@, behavior_name@),
{
    let attachment = match behavior_attachment(model, behavior_name) {
        Some(a) => a,
        None => {
            return;
        },
    };
    let owner = attachment.owner();
    let ghost attachment_owner = owner@;
    let is_activity = match &attachment {
        BehaviorAttachment::StateActivity(_) => true,
        _ => false,
    };
    let kind = if is_activity { kind::CONCURRENT } else { kind::BEHAVIOR };
    proof {
        reveal_strlit("behavior");
    }
    let generated_name = unique_observation_behavior_name(model, owner.as_str(), observation, "behavior", behavior_name);
    let behavior = observation_behavior(observation, generated_name.as_str(), kind, behavior_name, "behavior");
    let ghost g = generated_name@;
    let listed = generated_name.clone();
    model.set_member(generated_name, ElementVariant::Behavior(behavior));
    let ghost mid = *model;
    attach_observation_behavior(model, attachment, behavior_name, listed);
    proof {
        assert(has_key(old(model).members@, attachment_owner));
        assert forall|n: Seq<char>| !has_key(old(model).members@, n) && #[trigger] has_key(model.members@, n) implies (model.member(n) matches Some(e) && is_generated_view(e)) by {
            assert(has_key(mid.members@, n));
            assert(n == g);
            assert(mid.member(g) == model.member(g));
        }
        assert forall|n: Seq<char>| (#[trigger] old(model).member(n) matches Some(e) && is_generated_view(e)) implies model.member(n) == old(model).member(n) by {
            assoc::lemma_find_index(old(model).members@, n);
            assoc::lemma_find_index(old(model).members@, attachment_owner);
            if n == attachment_owner {
                assert(old(model).state_of(n) is Some || old(model).transition_of(n) is Some);
            }
        }
    }
}

/// Reports the observed transition: a generated behavior is placed in its
/// effects after the generated ones already there.
fn insert_transition_observation(model: &mut Model, observation: &Observation, transition_name: &str)
    ensures
        grows_by_generated(*old(model), *final(model)),
        transition_observed(*old(model), *final(model), observation@, transition_name@),
{
    let transition = match model.get_transition(transition_name) {
        Some(t) => t.clone(),
        None => {
            return;
        },
    };
    let ghost eff = names_view(transition.effect@);
    let mut insert_at: usize = 0;
    proof {
        assert(eff.skip(0) =~= eff);
    }
    while insert_at < transition.effect.len() && is_generated_observation_behavior(model, transition.effect[insert_at].as_str())
        invariant
            0 <= insert_at <= transition.effect@.len(),
            eff == names_view(transition.effect@),
            leading_generated(*model, eff) == insert_at + leading_generated(*model, eff.skip(insert_at as int)),
        decreases transition.effect@.len() - insert_at,
    {
        proof {
            assert(eff.skip(insert_at as int)[0] == transition.effect@[insert_at as int]@);
            assert(eff.skip(insert_at as int).drop_first() =~= eff.skip(insert_at + 1));
        }
        insert_at += 1;
    }
    proof {
        if insert_at < transition.effect.len() {
            assert(eff.skip(insert_at as int)[0] == transition.effect@[insert_at as int]@);
        }
        assert(leading_generated(*model, eff) == insert_at);
    }
    proof {
        reveal_strlit("event");
        assoc::lemma_find_index(model.members@, transition_name@);
    }
    let generated_name = unique_observation_behavior_name(model, transition_name, observation, "event", transition_name);
    let behavior = observation_behavior(observation, generated_name.as_str(), kind::BEHAVIOR, transition_name, "event");
    let ghost g = generated_name@;
    let listed = generated_name.clone();
    model.set_member(generated_name, ElementVariant::Behavior(behavior));
    let ghost mid = *model;
    let mut t = transition;
    t.effect.insert(insert_at, listed);
    assert(names_view(t.effect@) =~= eff.insert(insert_at as int, g));
    model.set_member(text::owned(transition_name), ElementVariant::Transition(t));
    proof {
        assert forall|n: Seq<char>| !has_key(old(model).members@, n) && #[trigger] has_key(model.members@, n) implies (model.member(n) matches Some(e) && is_generated_view(e)) by {
            assert(has_key(mid.members@, n));
            assert(n == g);
            assert(mid.member(g) == model.member(g));
        }
        assert forall|n: Seq<char>| (#[trigger] old(model).member(n) matches Some(e) && is_generated_view(e)) implies model.member(n) == old(model).member(n) by {
            assoc::lemma_find_index(old(model).members@, n);
        }
    }
}

proof fn lemma_grows_by_generated_trans(a: Model, b: Model, c: Model)
    requires
        grows_by_generated(a, b),
        grows_by_generated(b, c),
    ensures
        grows_by_generated(a, c),
{
    assert forall|n: Seq<char>| !has_key(a.members@, n) && #[trigger] has_key(c.members@, n) implies (c.member(n) matches Some(e) && is_generated_view(e)) by {
        if has_key(b.members@, n) {
            assert(b.member(n) matches Some(e) && is_generated_view(e));
            assert(c.member(n) == b.member(n));
        }
    }
    assert forall|n: Seq<char>| (#[trigger] a.member(n) matches Some(e) && is_generated_view(e)) implies c.member(n) == a.member(n) by {
        assert(b.member(n) == a.member(n));
    }
}

/// The observations among `members`, in order.
pub open spec fn observations_in(members: Seq<(String, ElementVariant)>) -> Seq<ObservationView>
    decreases members.len(),
{
    if members.len() == 0 {
        seq![]
    } else {
        let rest = observations_in(members.drop_last());
        match members.last().1 {
            ElementVariant::Observation(o) => rest.push(o@),
            _ => rest,
        }
    }
}

/// `x` placed before the first observation of `s` whose name it does not
/// follow.
pub open spec fn insert_by_name(s: Seq<ObservationView>, x: ObservationView) -> Seq<ObservationView>
    decreases s.len(),
{
    if s.len() == 0 {
        seq![x]
    } else if !text::lex_lt(s[0].element.qualified_name, x.element.qualified_name) {
        seq![x] + s
    } else {
        seq![s[0]] + insert_by_name(s.drop_first(), x)
    }
}

/// `s` ordered by name (insertion sort).
pub open spec fn sort_by_name(s: Seq<ObservationView>) -> Seq<ObservationView>
    decreases s.len(),
{
    if s.len() == 0 {
        seq![]
    } else {
        insert_by_name(sort_by_name(s.drop_last()), s.last())
    }
}

proof fn lemma_insert_by_name_at(s: Seq<ObservationView>, x: ObservationView, i: int)
    requires
        0 <= i <= s.len(),
        forall|j: int| 0 <= j < i ==> text::lex_lt(#[trigger] s[j].element.qualified_name, x.element.qualified_name),
        i == s.len() || !text::lex_lt(s[i].element.qualified_name, x.element.qualified_name),
    ensures
        insert_by_name(s, x) == s.subrange(0, i) + seq![x] + s.subrange(i, s.len() as int),
    decreases s.len(),
{
    if s.len() == 0 {
        assert(s.subrange(0, i) + seq![x] + s.subrange(i, s.len() as int) =~= seq![x]);
    } else if i == 0 {
        assert(s.subrange(0, i) + seq![x] + s.subrange(i, s.len() as int) =~= seq![x] + s);
    } else {
        assert forall|j: int| 0 <= j < i - 1 implies text::lex_lt(#[trigger] s.drop_first()[j].element.qualified_name, x.element.qualified_name) by {
            assert(s.drop_first()[j] == s[j + 1]);
        }
        lemma_insert_by_name_at(s.drop_first(), x, i - 1);
        assert(s.subrange(0, i) + seq![x] + s.subrange(i, s.len() as int) =~= seq![s[0]] + (
        s.drop_first().subrange(0, i - 1) + seq![x] + s.drop_first().subrange(
            i - 1,
            s.drop_first().len() as int,
        )));
    }
}

/// The observations, ordered by qualified name.
fn sorted_observations(model: &Model) -> (r: Vec<Observation>)
    ensures
        r@.map_values(|o: Observation| o@) == sort_by_name(observations_in(model.members@)),
{
    let mut out: Vec<Observation> = Vec::new();
    let mut i: usize = 0;
    proof {
        assert(model.members@.take(0) =~= Seq::<(String, ElementVariant)>::empty());
        assert(out@.map_values(|o: Observation| o@) =~= Seq::<ObservationView>::empty());
    }
    while i < model.members.len()
        invariant
            0 <= i <= model.members@.len(),
            out@.map_values(|o: Observation| o@) == sort_by_name(observations_in(model.members@.take(i as int))),
        decreases model.members@.len() - i,
    {
        let ghost prefix = model.members@.take(i as int);
        let ghost next = model.members@.take(i + 1);
        proof {
            assert(next.drop_last() =~= prefix);
            assert(next.last() == model.members@[i as int]);
        }
        match &model.members[i].1 {
            ElementVariant::Observation(o) => {
                let ghost sv = out@.map_values(|o: Observation| o@);
                let mut k: usize = 0;
                while k < out.len() && text::str_lt(out[k].element.qualified_name.as_str(), o.element.qualified_name.as_str())
                    invariant
                        0 <= k <= out@.len(),
                        sv == out@.map_values(|o: Observation| o@),
                        forall|j: int| 0 <= j < k ==> text::lex_lt(#[trigger] sv[j].element.qualified_name, o@.element.qualified_name),
                    decreases out@.len() - k,
                {
                    k += 1;
                }
                proof {
                    lemma_insert_by_name_at(sv, o@, k as int);
                }
                out.insert(k, o.clone());
                proof {
                    assert(out@.map_values(|o: Observation| o@) =~= sv.subrange(0, k as int) + seq![o@] + sv.subrange(k as int, sv.len() as int));
                    let rest = observations_in(prefix);
                    assert(observations_in(next) == rest.push(o@));
                    assert(rest.push(o@).drop_last() =~= rest);
                    assert(rest.push(o@).last() == o@);
                    assert(sort_by_name(observations_in(next)) == insert_by_name(sort_by_name(rest), o@));
                }
            },
            _ => {
                assert(observations_in(next) == observations_in(prefix));
            },
        }
        i += 1;
    }
    proof {
        assert(model.members@.take(model.members@.len() as int) =~= model.members@);
    }
    out
}

/// The member names in order.
fn sorted_member_names(model: &Model) -> (r: Vec<String>)
    ensures
        names_view(r@) == text::sort_names(keys(model.members@)),
{
    let mut names: Vec<String> = Vec::new();
    let mut i: usize = 0;
    while i < model.members.len()
        invariant
            0 <= i <= model.members@.len(),
            names@.map_values(|s: String| s@) =~= keys(model.members@).take(i as int),
        decreases model.members@.len() - i,
    {
        let ghost before = names@;
        names.push(model.members[i].0.clone());
        proof {
            assert(names@.map_values(|s: String| s@) =~= before.map_values(|s: String| s@).push(model.members@[i as int].0@));
            assert(keys(model.members@).take(i + 1) =~= keys(model.members@).take(i as int).push(model.members@[i as int].0@));
        }
        i += 1;
    }
    proof {
        assert(keys(model.members@).take(model.members@.len() as int) =~= keys(model.members@));
    }
    text::sort_strings(names)
}

/// The observation watches the behavior named `n` (it watches everything
/// when it names no target).
pub open spec fn watches_behavior(o: ObservationView, n: Seq<char>) -> bool {
    o.targets.len() == 0 || o.targets.contains(n)
}

/// The observation watches the transition `t` named `n`, by its name or one
/// of its events (it watches everything when it names no target).
pub open spec fn watches_transition(o: ObservationView, n: Seq<char>, t: TransitionView) -> bool {
    o.targets.len() == 0 || exists|i: int| 0 <= i < o.targets.len() && (#[trigger] o.targets[i] == n || t.events.contains(o.targets[i]))
}

/// What observation `o` does to `a` at the member named `n`: a behavior
/// (not itself generated) or transition it watches is reported; anything
/// else is left as it is.
pub open spec fn observation_step(a: Model, b: Model, o: ObservationView, n: Seq<char>) -> bool {
    match a.member(n) {
        Some(ElementView::Behavior(bv)) => if !(bv.operation matches Some(BehaviorOperationView::Observation { .. })) && watches_behavior(o, n) {
            behavior_observed(a, b, o, n)
        } else {
            b == a
        },
        Some(ElementView::Transition(t)) => if watches_transition(o, n, t) {
            transition_observed(a, b, o, n)
        } else {
            b == a
        },
        _ => b == a,
    }
}

/// `ms` is the run of observation `o` over the members named `names`, in
/// that order.
pub open spec fn pass_trace(ms: Seq<Model>, o: ObservationView, names: Seq<Seq<char>>) -> bool {
    &&& ms.len() == names.len() + 1
    &&& forall|i: int| #![trigger names[i]] 0 <= i < names.len() ==> observation_step(ms[i], ms[i + 1], o, names[i])
}

/// `b` is `a` after observation `o` visits the members named `names` in order.
pub open spec fn observation_pass(a: Model, b: Model, o: ObservationView, names: Seq<Seq<char>>) -> bool {
    exists|ms: Seq<Model>| #[trigger] pass_trace(ms, o, names) && ms[0] == a && ms.last() == b
}

/// `ms` is the run of the observations `obs` in order, each visiting the
/// members, by name in order, that the model has when its turn comes.
pub open spec fn observations_trace(ms: Seq<Model>, obs: Seq<ObservationView>) -> bool {
    &&& ms.len() == obs.len() + 1
    &&& forall|k: int| #![trigger obs[k]] 0 <= k < obs.len() ==> observation_pass(ms[k], ms[k + 1], obs[k], text::sort_names(keys(ms[k].members@)))
}

/// `b` is `a` after each of its observations, by name in order, has visited
/// its members.
pub open spec fn observations_applied(a: Model, b: Model) -> bool {
    exists|ms: Seq<Model>| #[trigger] observations_trace(ms, sort_by_name(observations_in(a.members@))) && ms[0] == a && ms.last() == b
}

/// For each observation (by name), reports every behavior and transition it
/// watches (by name) with a generated behavior.
pub fn apply_observations(model: &mut Model)
    ensures
        grows_by_generated(*old(model), *final(model)),
        observations_applied(*old(model), *final(model)),
{
    let observations = sorted_observations(model);
    let ghost obs = sort_by_name(observations_in(model.members@));
    let ghost mut oms: Seq<Model> = seq![*model];
    let mut k: usize = 0;
    proof {
        assert(grows_by_generated(*model, *model));
    }
    while k < observations.len()
        invariant
            0 <= k <= observations@.len(),
            grows_by_generated(*old(model), *model),
            obs == observations@.map_values(|o: Observation| o@),
            oms.len() == k + 1,
            oms[0] == *old(model),
            oms.last() == *model,
            forall|j: int| #![trigger obs[j]] 0 <= j < k ==> observation_pass(oms[j], oms[j + 1], obs[j], text::sort_names(keys(oms[j].members@))),
        decreases observations@.len() - k,
    {
        let observation = &observations[k];
        let member_names = sorted_member_names(model);
        let ghost start = *model;
        let ghost nv = names_view(member_names@);
        let ghost mut ims: Seq<Model> = seq![*model];
        let mut i: usize = 0;
        while i < member_names.len()
            invariant
                0 <= i <= member_names@.len(),
                grows_by_generated(*old(model), *model),
                nv == names_view(member_names@),
                ims.len() == i + 1,
                ims[0] == start,
                ims.last() == *model,
                forall|j: int| #![trigger nv[j]] 0 <= j < i ==> observation_step(ims[j], ims[j + 1], observation@, nv[j]),
            decreases member_names@.len() - i,
        {
            let member_name = member_names[i].as_str();
            let ghost before = *model;
            assert(member_name@ == nv[i as int]);
            let element = match model.get_member(member_name) {
                Some(e) => Some(e.clone()),
                None => None,
            };
            match element {
                Some(ElementVariant::Behavior(b)) => {
                    if !is_observation_behavior(&b) && observation_matches_behavior(observation, member_name) {
                        insert_behavior_observation(model, observation, member_name);
                        proof {
                            lemma_grows_by_generated_trans(*old(model), before, *model);
                        }
                    }
                },
                Some(ElementVariant::Transition(t)) => {
                    if observation_matches_transition(observation, member_name, &t) {
                        insert_transition_observation(model, observation, member_name);
                        proof {
                            lemma_grows_by_generated_trans(*old(model), before, *model);
                        }
                    }
                },
                _ => {},
            }
            proof {
                assert(observation_step(before, *model, observation@, nv[i as int]));
                ims = ims.push(*model);
            }
            i += 1;
        }
        proof {
            assert(pass_trace(ims, observation@, nv));
            assert(observation_pass(start, *model, obs[k as int], text::sort_names(keys(start.members@))));
            oms = oms.push(*model);
        }
        k += 1;
    }
    proof {
        assert(observations_trace(oms, obs));
    }
}

/// `b` is `a` with its tables emptied and its transitions' paths dropped.
pub open spec fn cleared(a: Model, b: Model) -> bool {
    &&& b.transition_map@.len() == 0
    &&& b.deferred_map@.len() == 0
    &&& b.history_updates@.len() == 0
    &&& members_mapped(a.members@, b.members@, |e: ElementView| without_paths(e))
    &&& b.state == a.state
    &&& b.attributes == a.attributes
}

/// `b` is `a` with its tables and attributes kept and its members changed
/// as `members` says.
pub open spec fn same_tables(a: Model, b: Model) -> bool {
    &&& b.state == a.state
    &&& b.transition_map == a.transition_map
    &&& b.deferred_map == a.deferred_map
    &&& b.history_updates == a.history_updates
    &&& b.attributes == a.attributes
}

/// `b` is `a` without the behaviors generated for observations.
pub open spec fn generated_removed(a: Model, b: Model) -> bool {
    &&& generated_behavior_names(a.members@).len() == 0 ==> b.members == a.members
    &&& generated_behavior_names(a.members@).len() > 0 ==> members_view(b.members@) == kept_members(
        a.members@,
        generated_behavior_names(a.members@),
    )
    &&& same_tables(a, b)
}

/// `b` is `a` with every transition's target resolved.
pub open spec fn targets_resolved(a: Model, b: Model) -> bool {
    &&& members_mapped(a.members@, b.members@, |e: ElementView| with_resolved_target(a, e))
    &&& same_tables(a, b)
}

/// `b` is `a` with completion transitions given their event.
pub open spec fn completions_registered(a: Model, b: Model) -> bool {
    &&& members_mapped(a.members@, b.members@, |e: ElementView| with_completion(a, e))
    &&& same_tables(a, b)
}

/// `b` is `a` with every transition listed on its source.
pub open spec fn sources_registered(a: Model, b: Model) -> bool {
    &&& forall|n: Seq<char>|
        #[trigger] b.member(n) == registered(a, a.member(n), n, text::sort_names(transition_names(a.members@)))
    &&& same_tables(a, b)
    &&& keeps_members(a, b)
}

/// `b` is `a` with every transition's kind settled.
pub open spec fn kinds_finalized(a: Model, b: Model) -> bool {
    &&& members_mapped(a.members@, b.members@, |e: ElementView| with_final_kind(e))
    &&& same_tables(a, b)
}

/// `b` is `a` prepared: cleared, without generated observation behaviors,
/// with targets resolved, completion transitions registered, transitions
/// listed on their sources, and kinds settled, in that order.
pub open spec fn prepared(a: Model, b: Model) -> bool {
    exists|m1: Model, m2: Model, m3: Model, m4: Model, m5: Model|
        cleared(a, m1) && generated_removed(m1, m2) && targets_resolved(m2, m3) && completions_registered(m3, m4)
            && sources_registered(m4, m5) && kinds_finalized(m5, b)
}

/// The first steps of completing a model, before custom validation: drop
/// generated observation behaviors, resolve targets, give completion
/// transitions their event, list transitions on their sources, and settle
/// transition kinds.
pub fn prepare_model(model: &mut Model)
    ensures
        prepared(*old(model), *final(model)),
        final(model).state == old(model).state,
{
    model.clear_runtime_metadata();
    let ghost m1 = *model;
    remove_generated_observation_behaviors(model);
    let ghost m2 = *model;
    model.resolve_transition_targets();
    let ghost m3 = *model;
    register_completion_transitions(model);
    let ghost m4 = *model;
    register_transition_sources(model);
    let ghost m5 = *model;
    model.finalize_transition_kinds();
    assert(cleared(*old(model), m1));
    assert(generated_removed(m1, m2));
    assert(targets_resolved(m2, m3));
    assert(completions_registered(m3, m4));
    assert(sources_registered(m4, m5));
    assert(kinds_finalized(m5, *model));
}

/// `b` is `a` completed: observations reported (giving `m`, see
/// `observations_applied`), then, unless
/// `m` declares a custom finalizer, transition paths recorded and the runtime
/// tables built.
pub open spec fn completed(a: Model, b: Model) -> bool {
    exists|m: Model|
        grows_by_generated(a, m) && observations_applied(a, m) && (best_finalizer(m.members@) is Some ==> b == m) && (best_finalizer(m.members@) is None
            ==> members_mapped(m.members@, b.members@, |e: ElementView| with_path_entry(e)) && b.state == m.state
            && b.attributes == m.attributes && tables_consistent(b))
}

/// The last steps of completing a model: report observations, then build
/// the runtime tables, unless the model declares a custom finalizer (which
/// is then the caller's to run).
pub fn complete_model(model: &mut Model)
    ensures
        completed(*old(model), *final(model)),
        final(model).state == old(model).state,
        best_finalizer(final(model).members@) is None ==> tables_consistent(*final(model)),
{
    apply_observations(model);
    let ghost observed = *model;
    if selected_model_finalizer(model).is_none() {
        let ghost before = model.members@;
        default_finalize_model(model);
        proof {
            lemma_best_finalizer_mapped(before, model.members@);
        }
    }
    assert(grows_by_generated(*old(model), observed) && observations_applied(*old(model), observed));
}

proof fn lemma_best_finalizer_mapped(a: Seq<(String, ElementVariant)>, b: Seq<(String, ElementVariant)>)
    requires
        members_mapped(a, b, |e: ElementView| with_path_entry(e)),
    ensures
        best_finalizer(a) == best_finalizer(b),
    decreases a.len(),
{
    if a.len() > 0 {
        assert(members_mapped(a.drop_last(), b.drop_last(), |e: ElementView| with_path_entry(e))) by {
            assert forall|j: int| 0 <= j < a.drop_last().len() implies #[trigger] b.drop_last()[j].0 == a.drop_last()[j].0 && b.drop_last()[j].1@ == with_path_entry(a.drop_last()[j].1@) by {
                assert(b[j].0 == a[j].0 && b[j].1@ == with_path_entry(a[j].1@));
            }
        }
        lemma_best_finalizer_mapped(a.drop_last(), b.drop_last());
        let j = a.len() - 1;
        assert(0 <= j < a.len());
        assert(b[j].0 == a[j].0);
        assert(b[j].1@ == with_path_entry(a[j].1@));
        assert(a.last() == a[j] && b.last() == b[j]);
    }
}

/// `m` is the empty model of a machine named `root`.
pub open spec fn new_model(m: Model, root: Seq<char>) -> bool {
    &&& m.state@ == crate::element::empty_state_view(kind::STATE_MACHINE, root)
    &&& m.members@.len() == 0
    &&& m.transition_map@.len() == 0
    &&& m.deferred_map@.len() == 0
    &&& m.history_updates@.len() == 0
    &&& m.attributes@.len() == 0
}

/// `m` comes from `start` by applying `elements` with the machine `root` on
/// the stack, all succeeding, then preparing and completing the result.
pub open spec fn built_and_completed(start: Model, root: Seq<char>, elements: Seq<Partial>, m: Model) -> bool {
    exists|built: Model, p: Model, s: String|
        #![trigger named(s, root), elements_applied(start, built, seq![s], elements, true), completed(p, m)]
        named(s, root) && elements_applied(start, built, seq![s], elements, true) && prepared(built, p) && completed(p, m)
}

/// Applying `elements` to `start` with the machine `root` on the stack
/// fails.
pub open spec fn build_fails(start: Model, root: Seq<char>, elements: Seq<Partial>) -> bool {
    exists|built: Model, s: String|
        #![trigger named(s, root), elements_applied(start, built, seq![s], elements, false)]
        named(s, root) && elements_applied(start, built, seq![s], elements, false)
}

/// Builds the model named `qualified_name` from `base` by applying `elements`
/// in order, stopping at the first failure.
fn build_into(model: &mut Model, qualified_name: &String, elements: &Vec<Partial>) -> (r: Result<(), HsmError>)
    ensures
        keeps_members(*old(model), *final(model)),
        final(model).root() == old(model).root(),
        elements_defer_free(elements@) ==> r is Ok,
        r is Err ==> r matches Err(HsmError::StateMachine(_)),
        elements_applied(*old(model), *final(model), seq![*qualified_name], elements@, r is Ok),
{
    let mut stack: Vec<String> = Vec::new();
    stack.push(qualified_name.clone());
    let mut i: usize = 0;
    let ghost mut ms: Seq<Model> = seq![*model];
    while i < elements.len()
        invariant
            0 <= i <= elements@.len(),
            stack@ == seq![*qualified_name],
            keeps_members(*old(model), *model),
            ms.len() == i + 1,
            ms[0] == *old(model),
            ms.last() == *model,
            forall|j: int| #![trigger elements@[j]] 0 <= j < i ==> partial_applied(ms[j], ms[j + 1], seq![*qualified_name], elements@[j], true),
        decreases elements@.len() - i,
    {
        proof {
            if elements_defer_free(elements@) {
                crate::builder::lemma_elements_defer_free(elements@, i as int);
            }
        }
        let r = apply_partial(&elements[i], model, &mut stack);
        proof {
            ms = ms.push(*model);
        }
        if r.is_err() {
            assert(applied_trace(seq![*qualified_name], elements@, ms, i as int));
            assert(run_ends(ms, i as int, *old(model), *model));
            return r;
        }
        i += 1;
    }
    assert(applied_trace(seq![*qualified_name], elements@, ms, elements@.len() as int));
    assert(run_ends(ms, elements@.len() as int, *old(model), *model));
    Ok(())
}

/// Defines the machine named `name` (under `/`) by its elements, and
/// completes it. Fails when an element fails (a deferral outside a state).
/// A custom validator or finalizer the model declares is left to the caller.
pub fn define(name: &str, elements: Vec<Partial>) -> (r: Result<Model, HsmError>)
    ensures
        r matches Ok(m) ==> exists|built: Model, p: Model|
            built.root() == spec_join(seq!['/'], name@) && prepared(built, p) && completed(p, m),
        r matches Ok(m) ==> exists|start: Model| #[trigger] new_model(start, spec_join(seq!['/'], name@)) && built_and_completed(start, spec_join(seq!['/'], name@), elements@, m),
        r is Err ==> exists|start: Model| #[trigger] new_model(start, spec_join(seq!['/'], name@)) && build_fails(start, spec_join(seq!['/'], name@), elements@),
        elements_defer_free(elements@) ==> r is Ok,
        r is Err ==> r matches Err(HsmError::StateMachine(_)),
        r matches Ok(m) ==> m.root() == spec_join(seq!['/'], name@),
        r matches Ok(m) ==> (best_finalizer(m.members@) is None ==> tables_consistent(m)),
{
    proof {
        reveal_strlit("/");
        assert("/"@ =~= seq!['/']);
    }
    let qualified_name = path::join("/", name);
    let mut model = Model::new(qualified_name.clone());
    let ghost start = model;
    assert(new_model(start, qualified_name@));
    let r = build_into(&mut model, &qualified_name, &elements);
    assert(named(qualified_name, qualified_name@));
    match r {
        Err(e) => Err(e),
        Ok(()) => {
            let ghost built = model;
            prepare_model(&mut model);
            let ghost p = model;
            complete_model(&mut model);
            assert(built.root() == spec_join(seq!['/'], name@) && prepared(built, p) && completed(p, model));
            assert(built_and_completed(start, qualified_name@, elements@, model));
            Ok(model)
        },
    }
}

/// See `define`.
#[allow(non_snake_case)]
pub fn Define(name: &str, elements: Vec<Partial>) -> (r: Result<Model, HsmError>)
    ensures
        r matches Ok(m) ==> exists|built: Model, p: Model|
            built.root() == spec_join(seq!['/'], name@) && prepared(built, p) && completed(p, m),
        r matches Ok(m) ==> exists|start: Model| #[trigger] new_model(start, spec_join(seq!['/'], name@)) && built_and_completed(start, spec_join(seq!['/'], name@), elements@, m),
        r is Err ==> exists|start: Model| #[trigger] new_model(start, spec_join(seq!['/'], name@)) && build_fails(start, spec_join(seq!['/'], name@), elements@),
        elements_defer_free(elements@) ==> r is Ok,
        r is Err ==> r matches Err(HsmError::StateMachine(_)),
        r matches Ok(m) ==> m.root() == spec_join(seq!['/'], name@),
        r matches Ok(m) ==> (best_finalizer(m.members@) is None ==> tables_consistent(m)),
{
    define(name, elements)
}

/// A copy of `model` under its own name with more elements.
pub fn redefine(model: &Model, elements: Vec<Partial>) -> (r: Result<Model, HsmError>)
    ensures
        elements_defer_free(elements@) ==> r is Ok,
        r is Err ==> r matches Err(HsmError::StateMachine(_)),
        r matches Ok(m) ==> m.root() == crate::rebase::rebased(model.root(), model.root(), spec_join(seq!['/'], spec_basename(model.root()))),
        r matches Ok(m) ==> exists|start: Model| #[trigger] rebased_model(*model, start, spec_join(seq!['/'], spec_basename(model.root()))) && built_and_completed(start, spec_join(seq!['/'], spec_basename(model.root())), elements@, m),
        r is Err ==> exists|start: Model| #[trigger] rebased_model(*model, start, spec_join(seq!['/'], spec_basename(model.root()))) && build_fails(start, spec_join(seq!['/'], spec_basename(model.root())), elements@),
        r matches Ok(m) ==> (best_finalizer(m.members@) is None ==> tables_consistent(m)),
{
    let name = model.name();
    redefine_as(model, name.as_str(), elements)
}

/// A copy of `model` moved under `name` (see `Model::rebase`), with more
/// elements applied, then completed.
pub fn redefine_as(model: &Model, name: &str, elements: Vec<Partial>) -> (r: Result<Model, HsmError>)
    ensures
        elements_defer_free(elements@) ==> r is Ok,
        r is Err ==> r matches Err(HsmError::StateMachine(_)),
        r matches Ok(m) ==> m.root() == crate::rebase::rebased(model.root(), model.root(), spec_join(seq!['/'], name@)),
        r matches Ok(m) ==> exists|start: Model| #[trigger] rebased_model(*model, start, spec_join(seq!['/'], name@)) && built_and_completed(start, spec_join(seq!['/'], name@), elements@, m),
        r is Err ==> exists|start: Model| #[trigger] rebased_model(*model, start, spec_join(seq!['/'], name@)) && build_fails(start, spec_join(seq!['/'], name@), elements@),
        r matches Ok(m) ==> (best_finalizer(m.members@) is None ==> tables_consistent(m)),
{
    proof {
        reveal_strlit("/");
        assert("/"@ =~= seq!['/']);
    }
    let qualified_name = path::join("/", name);
    let mut redefined = model.rebase(qualified_name.clone());
    let ghost start = redefined;
    assert(rebased_model(*model, start, qualified_name@));
    let r = build_into(&mut redefined, &qualified_name, &elements);
    assert(named(qualified_name, qualified_name@));
    match r {
        Err(e) => Err(e),
        Ok(()) => {
            let ghost built = redefined;
            prepare_model(&mut redefined);
            let ghost p = redefined;
            complete_model(&mut redefined);
            assert(built_and_completed(start, qualified_name@, elements@, redefined));
            Ok(redefined)
        },
    }
}

/// See `redefine`.
#[allow(non_snake_case)]
pub fn Redefine(model: &Model, elements: Vec<Partial>) -> (r: Result<Model, HsmError>)
    ensures
        elements_defer_free(elements@) ==> r is Ok,
        r is Err ==> r matches Err(HsmError::StateMachine(_)),
        r matches Ok(m) ==> m.root() == crate::rebase::rebased(model.root(), model.root(), spec_join(seq!['/'], spec_basename(model.root()))),
        r matches Ok(m) ==> exists|start: Model| #[trigger] rebased_model(*model, start, spec_join(seq!['/'], spec_basename(model.root()))) && built_and_completed(start, spec_join(seq!['/'], spec_basename(model.root())), elements@, m),
        r is Err ==> exists|start: Model| #[trigger] rebased_model(*model, start, spec_join(seq!['/'], spec_basename(model.root()))) && build_fails(start, spec_join(seq!['/'], spec_basename(model.root())), elements@),
        r matches Ok(m) ==> (best_finalizer(m.members@) is None ==> tables_consistent(m)),
{
    redefine(model, elements)
}

/// See `redefine_as`.
#[allow(non_snake_case)]
pub fn RedefineAs(model: &Model, name: &str, elements: Vec<Partial>) -> (r: Result<Model, HsmError>)
    ensures
        elements_defer_free(elements@) ==> r is Ok,
        r is Err ==> r matches Err(HsmError::StateMachine(_)),
        r matches Ok(m) ==> m.root() == crate::rebase::rebased(model.root(), model.root(), spec_join(seq!['/'], name@)),
        r matches Ok(m) ==> exists|start: Model| #[trigger] rebased_model(*model, start, spec_join(seq!['/'], name@)) && built_and_completed(start, spec_join(seq!['/'], name@), elements@, m),
        r is Err ==> exists|start: Model| #[trigger] rebased_model(*model, start, spec_join(seq!['/'], name@)) && build_fails(start, spec_join(seq!['/'], name@), elements@),
        r matches Ok(m) ==> (best_finalizer(m.members@) is None ==> tables_consistent(m)),
{
    redefine_as(model, name, elements)
}

} // verus!
