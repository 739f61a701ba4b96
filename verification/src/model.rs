//! The state-machine model: its members by qualified name and the tables the
//! runtime reads.

use vstd::prelude::*;

use crate::assoc::{self, find_index, has_key, table_get, view_put};
use crate::element::{
    clone_names, contains_name, empty_state_view, names_view, paths_view, Attribute, AttributeView, Behavior, BehaviorView, Constraint,
    ConstraintView, Element, ElementVariant, ElementView, NamedElementView, Observation,
    ObservationView, Operation, OperationView, State, StateView, Transition, TransitionPath,
    TransitionPathView, TransitionView, Vertex, VertexView,
};
use crate::kind::{self, KindValue};
use crate::path::{
    dirname, is_ancestor_or_equal, join, lca, spec_dirname, spec_is_ancestor_or_equal, spec_join,
    spec_lca,
};
use crate::text;

verus! {

/// What a state's exit records in the history of one of its ancestors.
pub struct HistoryUpdate {
    pub parent: String,
    pub shallow_child: String,
    pub deep_leaf: String,
}

#[verifier::ext_equal]
pub struct HistoryUpdateView {
    pub parent: Seq<char>,
    pub shallow_child: Seq<char>,
    pub deep_leaf: Seq<char>,
}

impl View for HistoryUpdate {
    type V = HistoryUpdateView;

    open spec fn view(&self) -> HistoryUpdateView {
        HistoryUpdateView {
            parent: self.parent@,
            shallow_child: self.shallow_child@,
            deep_leaf: self.deep_leaf@,
        }
    }
}

impl Clone for HistoryUpdate {
    fn clone(&self) -> (r: Self)
        ensures
            r@ == self@,
    {
        HistoryUpdate {
            parent: self.parent.clone(),
            shallow_child: self.shallow_child.clone(),
            deep_leaf: self.deep_leaf.clone(),
        }
    }
}

pub struct Model {
    pub state: State,
    pub members: Vec<(String, ElementVariant)>,
    pub transition_map: Vec<(String, Vec<(String, Vec<String>)>)>,
    pub deferred_map: Vec<(String, Vec<(String, bool)>)>,
    pub history_updates: Vec<(String, Vec<HistoryUpdate>)>,
    pub attributes: Vec<(String, Attribute)>,
}

/// The states met going up from `from` to `stop` (excluded), nearest first.
pub open spec fn climb(from: Seq<char>, stop: Seq<char>) -> Seq<Seq<char>>
    decreases from.len(),
{
    if from == stop || from.len() == 0 {
        seq![]
    } else {
        proof {
            crate::path::lemma_dirname_shorter(from);
        }
        seq![from] + climb(spec_dirname(from), stop)
    }
}

/// The climb from `from` starts at `from`, goes up one owner at a time,
/// never meets `stop`, and ends just below `stop` (or below the top).
pub proof fn lemma_climb(from: Seq<char>, stop: Seq<char>)
    ensures
        ({
            let c = climb(from, stop);
            &&& c.len() > 0 ==> c[0] == from
            &&& forall|i: int| 0 < i < c.len() ==> #[trigger] c[i] == spec_dirname(c[i - 1])
            &&& forall|i: int| 0 <= i < c.len() ==> #[trigger] c[i] != stop && c[i].len() > 0
            &&& c.len() > 0 ==> (spec_dirname(c.last()) == stop || spec_dirname(c.last()).len() == 0)
        }),
    decreases from.len(),
{
    if !(from == stop || from.len() == 0) {
        crate::path::lemma_dirname_shorter(from);
        let d = spec_dirname(from);
        lemma_climb(d, stop);
        let rest = climb(d, stop);
        let c = climb(from, stop);
        assert(c == seq![from] + rest);
        assert forall|i: int| 0 < i < c.len() implies #[trigger] c[i] == spec_dirname(c[i - 1]) by {
            assert(c[i] == rest[i - 1]);
            if i > 1 {
                assert(c[i - 1] == rest[i - 2]);
            } else {
                if rest.len() == 0 {
                } else {
                    assert(rest[0] == d);
                }
            }
        }
        assert forall|i: int| 0 <= i < c.len() implies #[trigger] c[i] != stop && c[i].len() > 0 by {
            if i > 0 {
                assert(c[i] == rest[i - 1]);
            }
        }
        if rest.len() == 0 {
            assert(d == stop || d.len() == 0);
        } else {
            assert(c.last() == rest.last());
        }
    }
}

/// A transition between two different states leaves them going up from the
/// source one owner at a time, stopping below their lowest common ancestor,
/// and enters them going down to the target from below that ancestor; the
/// ancestor itself is neither left nor entered.
pub proof fn law_path_goes_up_then_down(source: Seq<char>, target: Seq<char>)
    requires
        source != target,
    ensures
        ({
            let p = spec_path(source, target);
            let c = crate::path::spec_lca(source, target);
            &&& p.exit.len() > 0 ==> p.exit[0] == source
            &&& forall|i: int| 0 < i < p.exit.len() ==> #[trigger] p.exit[i] == spec_dirname(p.exit[i - 1])
            &&& p.exit.len() > 0 ==> (spec_dirname(p.exit.last()) == c || spec_dirname(p.exit.last()).len() == 0)
            &&& p.enter.len() > 0 ==> p.enter.last() == target
            &&& forall|i: int| 0 <= i < p.enter.len() - 1 ==> #[trigger] p.enter[i] == spec_dirname(p.enter[i + 1])
            &&& p.enter.len() > 0 ==> (spec_dirname(p.enter[0]) == c || spec_dirname(p.enter[0]).len() == 0)
            &&& forall|i: int| 0 <= i < p.exit.len() ==> #[trigger] p.exit[i] != c
            &&& forall|i: int| 0 <= i < p.enter.len() ==> #[trigger] p.enter[i] != c
        }),
{
    let c = crate::path::spec_lca(source, target);
    lemma_climb(source, c);
    lemma_climb(target, c);
    let up = climb(target, c);
    let down = up.reverse();
    let n = up.len();
    assert forall|i: int| 0 <= i < n - 1 implies #[trigger] down[i] == spec_dirname(down[i + 1]) by {
        assert(down[i] == up[n - 1 - i]);
        assert(down[i + 1] == up[n - 2 - i]);
        assert(up[n - 1 - i] == spec_dirname(up[n - 1 - i - 1]));
    }
    assert forall|i: int| 0 <= i < n implies #[trigger] down[i] != c by {
        assert(down[i] == up[n - 1 - i]);
    }
    if n > 0 {
        assert(down.last() == up[0]);
        assert(down[0] == up.last());
    }
}

/// Climbing from a name to a (non-root) name above it ends just below it.
pub proof fn lemma_climb_reaches(from: Seq<char>, stop: Seq<char>)
    requires
        crate::path::is_abs_name(from),
        stop.len() > 0,
        stop != seq!['/'],
        stop != from,
        crate::path::spec_is_ancestor_or_equal(stop, from),
    ensures
        climb(from, stop).len() > 0,
        spec_dirname(climb(from, stop).last()) == stop,
    decreases from.len(),
{
    assert(from != seq!['/']);
    crate::path::lemma_dirname_shorter(from);
    crate::path::lemma_dirname_above(from);
    let d = spec_dirname(from);
    let c = climb(from, stop);
    assert(c == seq![from] + climb(d, stop));
    if d != stop {
        crate::path::lemma_ancestor_of_owner(stop, from);
        assert(d.len() > 0 && d != seq!['/']);
        lemma_climb_reaches(d, stop);
        assert(c.last() == climb(d, stop).last());
    } else {
        assert(climb(d, stop).len() == 0);
        assert(c.last() == from);
    }
}

/// Within a machine `r` (not the root `/`), a transition between two
/// different names leaves the source and its owners up to just below their
/// lowest common ancestor `L` (nothing when the source is `L`), and enters
/// the names from just below `L` down to the target (nothing when the
/// target is `L`).
pub proof fn law_path_within_machine(source: Seq<char>, target: Seq<char>, r: Seq<char>)
    requires
        source != target,
        crate::path::is_abs_name(source),
        crate::path::is_abs_name(target),
        crate::path::is_abs_name(r),
        r != seq!['/'],
        crate::path::spec_is_ancestor_or_equal(r, source),
        crate::path::spec_is_ancestor_or_equal(r, target),
    ensures
        ({
            let p = spec_path(source, target);
            let l = crate::path::spec_lca(source, target);
            &&& crate::path::spec_is_ancestor_or_equal(l, source)
            &&& crate::path::spec_is_ancestor_or_equal(l, target)
            &&& (p.exit.len() == 0 <==> source == l)
            &&& p.exit.len() > 0 ==> p.exit[0] == source && spec_dirname(p.exit.last()) == l
            &&& forall|i: int| 0 < i < p.exit.len() ==> #[trigger] p.exit[i] == spec_dirname(p.exit[i - 1])
            &&& (p.enter.len() == 0 <==> target == l)
            &&& p.enter.len() > 0 ==> p.enter.last() == target && spec_dirname(p.enter[0]) == l
            &&& forall|i: int| 0 <= i < p.enter.len() - 1 ==> #[trigger] p.enter[i] == spec_dirname(p.enter[i + 1])
        }),
{
    let l = crate::path::spec_lca(source, target);
    crate::path::law_lca_is_common_ancestor(source, target, r);
    law_path_goes_up_then_down(source, target);
    assert(l.len() > 0 && l != seq!['/']);
    if source != l {
        lemma_climb_reaches(source, l);
    }
    if target != l {
        lemma_climb_reaches(target, l);
        let up = climb(target, l);
        assert(up.reverse()[0] == up.last());
    }
}

/// The exit and enter lists of a transition from `source` to `target`.
pub open spec fn spec_path(source: Seq<char>, target: Seq<char>) -> TransitionPathView {
    if source == target {
        TransitionPathView { enter: seq![target], exit: seq![source] }
    } else {
        let c = spec_lca(source, target);
        TransitionPathView { enter: climb(target, c).reverse(), exit: climb(source, c) }
    }
}

/// The kind a transition gets once the model is complete.
pub open spec fn spec_transition_kind(t: TransitionView) -> KindValue {
    if t.kind_override is Some {
        t.kind_override->0
    } else if t.target == t.source {
        kind::SELF
    } else if t.target.len() == 0 {
        kind::INTERNAL
    } else if spec_is_ancestor_or_equal(t.source, t.target) {
        kind::LOCAL
    } else {
        kind::EXTERNAL
    }
}

/// `e` with its kind finalized, when it is a transition.
pub open spec fn with_final_kind(e: ElementView) -> ElementView {
    match e {
        ElementView::Transition(t) => ElementView::Transition(
            TransitionView {
                element: NamedElementView { kind: spec_transition_kind(t), ..t.element },
                ..t
            },
        ),
        _ => e,
    }
}

/// `e` without computed paths, when it is a transition.
pub open spec fn without_paths(e: ElementView) -> ElementView {
    match e {
        ElementView::Transition(t) => ElementView::Transition(TransitionView { paths: seq![], ..t }),
        _ => e,
    }
}

impl Model {
    /// The qualified name of the state machine.
    pub open spec fn root(&self) -> Seq<char> {
        self.state.vertex.element.qualified_name@
    }

    /// The member named `n`.
    pub open spec fn member(&self, n: Seq<char>) -> Option<ElementView> {
        let i = find_index(self.members@, n);
        if i < 0 {
            None
        } else {
            Some(self.members@[i].1@)
        }
    }

    pub open spec fn state_of(&self, n: Seq<char>) -> Option<StateView> {
        match self.member(n) {
            Some(ElementView::State(s)) => Some(s),
            _ => None,
        }
    }

    pub open spec fn vertex_of(&self, n: Seq<char>) -> Option<VertexView> {
        match self.member(n) {
            Some(ElementView::State(s)) => Some(s.vertex),
            Some(ElementView::Vertex(v)) => Some(v),
            _ => None,
        }
    }

    pub open spec fn transition_of(&self, n: Seq<char>) -> Option<TransitionView> {
        match self.member(n) {
            Some(ElementView::Transition(t)) => Some(t),
            _ => None,
        }
    }

    pub open spec fn behavior_of(&self, n: Seq<char>) -> Option<BehaviorView> {
        match self.member(n) {
            Some(ElementView::Behavior(b)) => Some(b),
            _ => None,
        }
    }

    pub open spec fn observation_of(&self, n: Seq<char>) -> Option<ObservationView> {
        match self.member(n) {
            Some(ElementView::Observation(o)) => Some(o),
            _ => None,
        }
    }

    pub open spec fn constraint_of(&self, n: Seq<char>) -> Option<ConstraintView> {
        match self.member(n) {
            Some(ElementView::Constraint(c)) => Some(c),
            _ => None,
        }
    }

    pub open spec fn operation_of(&self, n: Seq<char>) -> Option<OperationView> {
        match self.member(n) {
            Some(ElementView::Operation(o)) => Some(o),
            _ => None,
        }
    }

    pub open spec fn attribute_of(&self, n: Seq<char>) -> Option<AttributeView> {
        let i = find_index(self.attributes@, n);
        if i < 0 {
            None
        } else {
            Some(self.attributes@[i].1@)
        }
    }

    /// `n` names the machine itself or one of its members.
    pub open spec fn spec_has_endpoint(&self, n: Seq<char>) -> bool {
        n == self.root() || has_key(self.members@, n)
    }

    /// Where relative endpoints of a transition from `source` are resolved.
    pub open spec fn spec_endpoint_context(&self, source: Seq<char>) -> Seq<char> {
        if source == self.root() || self.state_of(source) is Some {
            source
        } else {
            spec_dirname(source)
        }
    }

    /// An empty model of a machine named `qualified_name`.
    pub fn new(qualified_name: String) -> (r: Model)
        ensures
            r.state@ == empty_state_view(kind::STATE_MACHINE, qualified_name@),
            r.members@.len() == 0,
            r.transition_map@.len() == 0,
            r.deferred_map@.len() == 0,
            r.history_updates@.len() == 0,
            r.attributes@.len() == 0,
    {
        Model {
            state: State::empty(kind::STATE_MACHINE, qualified_name),
            members: Vec::new(),
            transition_map: Vec::new(),
            deferred_map: Vec::new(),
            history_updates: Vec::new(),
            attributes: Vec::new(),
        }
    }

    /// The member named `qualified_name`.
    pub fn get_member(&self, qualified_name: &str) -> (r: Option<&ElementVariant>)
        ensures
            self.member(qualified_name@) is None ==> r is None,
            self.member(qualified_name@) matches Some(e) ==> (r matches Some(x) && x@ == e),
    {
        proof {
            assoc::lemma_find_index(self.members@, qualified_name@);
        }
        assoc::get(&self.members, qualified_name)
    }

    /// The state named `qualified_name`.
    pub fn get_state(&self, qualified_name: &str) -> (r: Option<&State>)
        ensures
            self.state_of(qualified_name@) is None ==> r is None,
            self.state_of(qualified_name@) matches Some(s) ==> (r matches Some(x) && x@ == s),
    {
        match self.get_member(qualified_name) {
            Some(ElementVariant::State(s)) => Some(s),
            _ => None,
        }
    }

    /// The vertex named `qualified_name` (a state counts as its vertex).
    pub fn get_vertex(&self, qualified_name: &str) -> (r: Option<&Vertex>)
        ensures
            self.vertex_of(qualified_name@) is None ==> r is None,
            self.vertex_of(qualified_name@) matches Some(v) ==> (r matches Some(x) && x@ == v),
    {
        match self.get_member(qualified_name) {
            Some(ElementVariant::Vertex(v)) => Some(v),
            Some(ElementVariant::State(s)) => Some(&s.vertex),
            _ => None,
        }
    }

    /// The transition named `qualified_name`.
    pub fn get_transition(&self, qualified_name: &str) -> (r: Option<&Transition>)
        ensures
            self.transition_of(qualified_name@) is None ==> r is None,
            self.transition_of(qualified_name@) matches Some(t) ==> (r matches Some(x) && x@ == t),
    {
        match self.get_member(qualified_name) {
            Some(ElementVariant::Transition(t)) => Some(t),
            _ => None,
        }
    }

    /// The behavior named `qualified_name`.
    pub fn get_behavior(&self, qualified_name: &str) -> (r: Option<&Behavior>)
        ensures
            self.behavior_of(qualified_name@) is None ==> r is None,
            self.behavior_of(qualified_name@) matches Some(b) ==> (r matches Some(x) && x@ == b),
    {
        match self.get_member(qualified_name) {
            Some(ElementVariant::Behavior(b)) => Some(b),
            _ => None,
        }
    }

    /// The observation named `qualified_name`.
    pub fn get_observation(&self, qualified_name: &str) -> (r: Option<&Observation>)
        ensures
            self.observation_of(qualified_name@) is None ==> r is None,
            self.observation_of(qualified_name@) matches Some(o) ==> (r matches Some(x) && x@ == o),
    {
        match self.get_member(qualified_name) {
            Some(ElementVariant::Observation(o)) => Some(o),
            _ => None,
        }
    }

    /// The constraint named `qualified_name`.
    pub fn get_constraint(&self, qualified_name: &str) -> (r: Option<&Constraint>)
        ensures
            self.constraint_of(qualified_name@) is None ==> r is None,
            self.constraint_of(qualified_name@) matches Some(c) ==> (r matches Some(x) && x@ == c),
    {
        match self.get_member(qualified_name) {
            Some(ElementVariant::Constraint(c)) => Some(c),
            _ => None,
        }
    }

    /// The operation named `qualified_name`.
    pub fn get_operation(&self, qualified_name: &str) -> (r: Option<&Operation>)
        ensures
            self.operation_of(qualified_name@) is None ==> r is None,
            self.operation_of(qualified_name@) matches Some(o) ==> (r matches Some(x) && x@ == o),
    {
        match self.get_member(qualified_name) {
            Some(ElementVariant::Operation(o)) => Some(o),
            _ => None,
        }
    }

    /// The attribute named `qualified_name`.
    pub fn get_attribute(&self, qualified_name: &str) -> (r: Option<&Attribute>)
        ensures
            self.attribute_of(qualified_name@) is None ==> r is None,
            self.attribute_of(qualified_name@) matches Some(a) ==> (r matches Some(x) && x@ == a),
    {
        proof {
            assoc::lemma_find_index(self.attributes@, qualified_name@);
        }
        assoc::get(&self.attributes, qualified_name)
    }

    /// Adds the member, or replaces the one of the same name.
    pub fn set_member(&mut self, qualified_name: String, element: ElementVariant)
        ensures
            final(self).member(qualified_name@) == Some(element@),
            forall|n: Seq<char>|
                n != qualified_name@ ==> #[trigger] final(self).member(n) == old(self).member(n),
            final(self).state == old(self).state,
            final(self).transition_map == old(self).transition_map,
            final(self).deferred_map == old(self).deferred_map,
            final(self).history_updates == old(self).history_updates,
            final(self).attributes == old(self).attributes,
            has_key(old(self).members@, qualified_name@) ==> final(self).members@.len()
                == old(self).members@.len(),
            !has_key(old(self).members@, qualified_name@) ==> final(self).members@.len()
                == old(self).members@.len() + 1,
            forall|n: Seq<char>| #[trigger]
                has_key(final(self).members@, n) == (n == qualified_name@ || has_key(
                    old(self).members@,
                    n,
                )),
    {
        let ghost key = qualified_name@;
        proof {
            assoc::lemma_find_index(self.members@, key);
        }
        assoc::insert(&mut self.members, qualified_name, element);
        proof {
            assert forall|n: Seq<char>| n != key implies #[trigger] self.member(n) == old(self).member(
                n,
            ) by {
                assoc::lemma_find_index(old(self).members@, n);
                let i = find_index(old(self).members@, n);
                if i >= 0 {
                    let j = find_index(old(self).members@, key);
                    if j >= 0 {
                        assert(i != j);
                    }
                }
            }
            assert forall|n: Seq<char>| #[trigger]
                has_key(self.members@, n) == (n == key || has_key(old(self).members@, n)) by {
                if n != key {
                    assert(find_index(self.members@, n) == find_index(old(self).members@, n));
                }
            }
        }
    }

    /// Whether `qualified_name` names the machine or one of its members.
    pub fn has_endpoint(&self, qualified_name: &str) -> (r: bool)
        ensures
            r == self.spec_has_endpoint(qualified_name@),
    {
        text::str_eq(qualified_name, self.state.vertex.element.qualified_name.as_str())
            || assoc::contains_key(&self.members, qualified_name)
    }

    /// The name against which relative endpoints of a transition from `source`
    /// are resolved: the source itself when it is the machine or a state, else
    /// its owner.
    pub fn transition_endpoint_context(&self, source: &str) -> (r: String)
        ensures
            r@ == self.spec_endpoint_context(source@),
    {
        if text::str_eq(source, self.state.vertex.element.qualified_name.as_str())
            || self.get_state(source).is_some() {
            text::owned(source)
        } else {
            text::owned(dirname(source))
        }
    }

    /// The states a transition from `source` to `target` exits and enters.
    pub fn calculate_path_static(source: &str, target: &str) -> (r: TransitionPath)
        ensures
            r@ == spec_path(source@, target@),
    {
        if text::str_eq(source, target) {
            let mut exit: Vec<String> = Vec::new();
            let mut enter: Vec<String> = Vec::new();
            exit.push(text::owned(source));
            enter.push(text::owned(target));
            let r = TransitionPath { enter, exit };
            assert(r@ =~= spec_path(source@, target@));
            return r;
        }
        let common_ancestor = lca(source, target);
        let exit = climb_names(source, common_ancestor.as_str());
        let mut path_to_target = climb_names(target, common_ancestor.as_str());
        let enter = reverse_names(path_to_target);
        let r = TransitionPath { enter, exit };
        assert(r@ =~= spec_path(source@, target@));
        r
    }
}

/// The names met going up from `from` to `stop` (excluded), nearest first.
pub fn climb_names(from: &str, stop: &str) -> (r: Vec<String>)
    ensures
        names_view(r@) == climb(from@, stop@),
{
    let mut out: Vec<String> = Vec::new();
    let mut current = text::owned(from);
    while !text::str_eq(current.as_str(), stop) && current.unicode_len() != 0
        invariant
            names_view(out@) + climb(current@, stop@) == climb(from@, stop@),
        decreases current@.len(),
    {
        let ghost before = current@;
        out.push(current.clone());
        current = text::owned(dirname(current.as_str()));
        proof {
            crate::path::lemma_dirname_shorter(before);
            assert(names_view(out@) =~= names_view(out@.drop_last()).push(before));
            assert(climb(before, stop@) == seq![before] + climb(current@, stop@));
            assert(names_view(out@) + climb(current@, stop@) =~= names_view(out@.drop_last())
                + climb(before, stop@));
        }
    }
    proof {
        assert(climb(current@, stop@) =~= seq![]);
        assert(names_view(out@) + seq![] =~= names_view(out@));
    }
    out
}

/// The names in reverse order.
pub fn reverse_names(names: Vec<String>) -> (r: Vec<String>)
    ensures
        names_view(r@) == names_view(names@).reverse(),
{
    let mut out: Vec<String> = Vec::new();
    let mut rest = names;
    let ghost all = rest@;
    while rest.len() > 0
        invariant
            all.len() == rest@.len() + out@.len(),
            rest@ == all.subrange(0, rest@.len() as int),
            names_view(out@) == names_view(all.subrange(rest@.len() as int, all.len() as int)).reverse(),
        decreases rest.len(),
    {
        let ghost n = rest@.len();
        let x = rest.pop().unwrap();
        out.push(x);
        proof {
            assert(rest@ =~= all.subrange(0, n - 1));
            let tail = all.subrange(n - 1, all.len() as int);
            assert(tail =~= seq![all[n - 1]] + all.subrange(n as int, all.len() as int));
            assert(names_view(tail) =~= seq![all[n - 1]@] + names_view(all.subrange(n as int, all.len() as int)));
            assert(names_view(out@) =~= names_view(out@.drop_last()).push(all[n - 1]@));
            assert(names_view(tail).reverse() =~= names_view(all.subrange(n as int, all.len() as int)).reverse().push(all[n - 1]@));
        }
    }
    proof {
        assert(all.subrange(0, all.len() as int) =~= all);
    }
    out
}

/// Where a transition's path is recorded, and the path itself: internal
/// transitions get an empty path from their source, initial transitions the
/// path from their source's owner, all others the path from their source.
pub open spec fn path_entry(t: TransitionView) -> (Seq<char>, TransitionPathView) {
    if t.target.len() == 0 {
        (t.source, TransitionPathView { enter: seq![], exit: seq![] })
    } else if t.events.contains(crate::event::initial_event_name()) {
        (spec_dirname(t.source), spec_path(spec_dirname(t.source), t.target))
    } else {
        (t.source, spec_path(t.source, t.target))
    }
}

/// The target a transition gets when its target names no endpoint but the same
/// name taken relative to the machine does.
pub open spec fn resolved_target(m: Model, t: TransitionView) -> Seq<char> {
    let context = m.spec_endpoint_context(t.source);
    let relative = crate::text::trim_start(
        t.target.subrange(context.len() as int, t.target.len() as int),
        '/',
    );
    let fallback = spec_join(m.root(), relative);
    if t.target.len() == 0 || m.spec_has_endpoint(t.target) {
        t.target
    } else if context.len() == 0 || !spec_is_ancestor_or_equal(context, t.target) {
        t.target
    } else if relative.len() == 0 {
        t.target
    } else if !m.spec_has_endpoint(fallback) {
        t.target
    } else {
        fallback
    }
}

/// `e` with its target resolved against the machine `m`, when it is a transition.
pub open spec fn with_resolved_target(m: Model, e: ElementView) -> ElementView {
    match e {
        ElementView::Transition(t) => ElementView::Transition(
            TransitionView { target: resolved_target(m, t), ..t },
        ),
        _ => e,
    }
}

/// Two member lists have the same names in the same places and the second
/// holds `f` of each element of the first.
pub open spec fn members_mapped(
    before: Seq<(String, ElementVariant)>,
    after: Seq<(String, ElementVariant)>,
    f: spec_fn(ElementView) -> ElementView,
) -> bool {
    &&& after.len() == before.len()
    &&& forall|j: int|
        0 <= j < before.len() ==> #[trigger] after[j].0 == before[j].0 && after[j].1@ == f(
            before[j].1@,
        )
}

impl Model {
    /// Drops the computed tables and the paths recorded on transitions.
    pub fn clear_runtime_metadata(&mut self)
        ensures
            final(self).transition_map@.len() == 0,
            final(self).deferred_map@.len() == 0,
            final(self).history_updates@.len() == 0,
            members_mapped(old(self).members@, final(self).members@, |e: ElementView| without_paths(e)),
            final(self).state == old(self).state,
            final(self).attributes == old(self).attributes,
    {
        self.clear_transition_paths();
        self.transition_map.clear();
        self.deferred_map.clear();
        self.history_updates.clear();
    }

    fn clear_transition_paths(&mut self)
        ensures
            members_mapped(old(self).members@, final(self).members@, |e: ElementView| without_paths(e)),
            final(self).state == old(self).state,
            final(self).attributes == old(self).attributes,
            final(self).transition_map == old(self).transition_map,
            final(self).deferred_map == old(self).deferred_map,
            final(self).history_updates == old(self).history_updates,
    {
        let ghost before = self.members@;
        let mut i: usize = 0;
        while i < self.members.len()
            invariant
                0 <= i <= self.members@.len(),
                self.members@.len() == before.len(),
                self.state == old(self).state,
                self.attributes == old(self).attributes,
                self.transition_map == old(self).transition_map,
                self.deferred_map == old(self).deferred_map,
                self.history_updates == old(self).history_updates,
                forall|j: int| 0 <= j < i ==> (#[trigger] self.members@[j]).0 == before[j].0,
                forall|j: int| 0 <= j < i ==> (#[trigger] self.members@[j]).1@ == without_paths(before[j].1@),
                forall|j: int| i <= j < before.len() ==> #[trigger] self.members@[j] == before[j],
            decreases self.members@.len() - i,
        {
            let ghost start = self.members@;
            let is_transition = match &self.members[i].1 {
                ElementVariant::Transition(_) => true,
                _ => false,
            };
            if is_transition {
                let ghost cur = self.members@;
                let (k, e) = self.members.remove(i);
                let e2 = match e {
                    ElementVariant::Transition(mut t) => {
                        t.paths = Vec::new();
                        ElementVariant::Transition(t)
                    },
                    other => other,
                };
                self.members.insert(i, (k, e2));
                proof {
                    assert(self.members@ =~= cur.update(i as int, (k, e2)));
                    assert(e2@ =~~= without_paths(before[i as int].1@));
                }
            } else {
                assert(self.members@[i as int].1@ == without_paths(before[i as int].1@));
            }
            assert(self.members@[i as int].0 == before[i as int].0 && self.members@[i as int].1@ == without_paths(before[i as int].1@));
            assert forall|j: int| 0 <= j < i + 1 implies (#[trigger] self.members@[j]).0 == before[j].0 && self.members@[j].1@ == without_paths(before[j].1@) by {
                if j < i {
                    assert(self.members@[j] == start[j]);
                    assert(start[j].0 == before[j].0);
                }
            }
            i += 1;
        }
    }

    /// Gives each transition its final kind: its override if it has one, else
    /// self, internal, local or external by its source and target.
    pub fn finalize_transition_kinds(&mut self)
        ensures
            members_mapped(old(self).members@, final(self).members@, |e: ElementView| with_final_kind(e)),
            final(self).state == old(self).state,
            final(self).transition_map == old(self).transition_map,
            final(self).deferred_map == old(self).deferred_map,
            final(self).history_updates == old(self).history_updates,
            final(self).attributes == old(self).attributes,
    {
        let ghost before = self.members@;
        let mut i: usize = 0;
        while i < self.members.len()
            invariant
                0 <= i <= self.members@.len(),
                self.members@.len() == before.len(),
                self.state == old(self).state,
                self.transition_map == old(self).transition_map,
                self.deferred_map == old(self).deferred_map,
                self.history_updates == old(self).history_updates,
                self.attributes == old(self).attributes,
                forall|j: int| 0 <= j < i ==> (#[trigger] self.members@[j]).0 == before[j].0,
                forall|j: int| 0 <= j < i ==> (#[trigger] self.members@[j]).1@ == with_final_kind(before[j].1@),
                forall|j: int| i <= j < before.len() ==> #[trigger] self.members@[j] == before[j],
            decreases self.members@.len() - i,
        {
            let ghost start = self.members@;
            let is_transition = match &self.members[i].1 {
                ElementVariant::Transition(_) => true,
                _ => false,
            };
            if is_transition {
                let ghost cur = self.members@;
                let (k, e) = self.members.remove(i);
                let e2 = match e {
                    ElementVariant::Transition(mut t) => {
                        let kind = if let Some(kind) = t.kind_override {
                            kind
                        } else if text::str_eq(t.target.as_str(), t.source.as_str()) {
                            kind::SELF
                        } else if t.target.unicode_len() == 0 {
                            kind::INTERNAL
                        } else if is_ancestor_or_equal(t.source.as_str(), t.target.as_str()) {
                            kind::LOCAL
                        } else {
                            kind::EXTERNAL
                        };
                        t.element.kind = kind;
                        ElementVariant::Transition(t)
                    },
                    other => other,
                };
                self.members.insert(i, (k, e2));
                proof {
                    assert(self.members@ =~= cur.update(i as int, (k, e2)));
                    assert(e2@ =~~= with_final_kind(before[i as int].1@));
                }
            } else {
                assert(self.members@[i as int].1@ == with_final_kind(before[i as int].1@));
            }
            assert(self.members@[i as int].0 == before[i as int].0 && self.members@[i as int].1@ == with_final_kind(before[i as int].1@));
            assert forall|j: int| 0 <= j < i + 1 implies (#[trigger] self.members@[j]).0 == before[j].0 && self.members@[j].1@ == with_final_kind(before[j].1@) by {
                if j < i {
                    assert(self.members@[j] == start[j]);
                }
            }
            i += 1;
        }
    }

    /// Points transitions whose target names nothing at the same name taken
    /// relative to the machine, when that names an endpoint.
    pub fn resolve_transition_targets(&mut self)
        ensures
            members_mapped(
                old(self).members@,
                final(self).members@,
                |e: ElementView| with_resolved_target(*old(self), e),
            ),
            final(self).state == old(self).state,
            final(self).transition_map == old(self).transition_map,
            final(self).deferred_map == old(self).deferred_map,
            final(self).history_updates == old(self).history_updates,
            final(self).attributes == old(self).attributes,
    {
        let ghost before = *old(self);
        // first decide every new target against the unchanged model
        let mut targets: Vec<Option<String>> = Vec::new();
        let mut i: usize = 0;
        while i < self.members.len()
            invariant
                0 <= i <= self.members@.len(),
                *self == before,
                targets@.len() == i,
                forall|j: int| 0 <= j < i ==> match #[trigger] before.members@[j].1 {
                    ElementVariant::Transition(t) => targets@[j] matches Some(x) && x@ == resolved_target(before, t@),
                    _ => targets@[j] is None,
                },
            decreases self.members@.len() - i,
        {
            let resolved = match &self.members[i].1 {
                ElementVariant::Transition(t) => Some(self.resolve_target(t.target.as_str(), t.source.as_str())),
                _ => None,
            };
            targets.push(resolved);
            i += 1;
        }
        // then set them
        let mut i: usize = 0;
        while i < self.members.len()
            invariant
                0 <= i <= self.members@.len(),
                self.members@.len() == before.members@.len(),
                targets@.len() == before.members@.len(),
                self.state == before.state,
                self.transition_map == before.transition_map,
                self.deferred_map == before.deferred_map,
                self.history_updates == before.history_updates,
                self.attributes == before.attributes,
                forall|j: int| 0 <= j < before.members@.len() ==> match #[trigger] before.members@[j].1 {
                    ElementVariant::Transition(t) => targets@[j] matches Some(x) && x@ == resolved_target(before, t@),
                    _ => targets@[j] is None,
                },
                forall|j: int| 0 <= j < i ==> (#[trigger] self.members@[j]).0 == before.members@[j].0,
                forall|j: int| 0 <= j < i ==> (#[trigger] self.members@[j]).1@ == with_resolved_target(before, before.members@[j].1@),
                forall|j: int| i <= j < before.members@.len() ==> #[trigger] self.members@[j] == before.members@[j],
            decreases self.members@.len() - i,
        {
            let ghost start = self.members@;
            let is_transition = match &self.members[i].1 {
                ElementVariant::Transition(_) => true,
                _ => false,
            };
            let ghost bj = before.members@[i as int].1;
            if is_transition {
                let new_target = match &targets[i] {
                    Some(x) => x.clone(),
                    None => String::new(),
                };
                let ghost cur = self.members@;
                let (k, e) = self.members.remove(i);
                let e2 = match e {
                    ElementVariant::Transition(mut t) => {
                        t.target = new_target;
                        ElementVariant::Transition(t)
                    },
                    other => other,
                };
                self.members.insert(i, (k, e2));
                proof {
                    assert(self.members@ =~= cur.update(i as int, (k, e2)));
                    assert(e2@ =~~= with_resolved_target(before, bj@));
                }
            } else {
                assert(self.members@[i as int].1@ == with_resolved_target(before, bj@));
            }
            assert(self.members@[i as int].0 == before.members@[i as int].0 && self.members@[i as int].1@ == with_resolved_target(before, bj@));
            assert forall|j: int| 0 <= j < i + 1 implies (#[trigger] self.members@[j]).0 == before.members@[j].0 && self.members@[j].1@ == with_resolved_target(before, before.members@[j].1@) by {
                if j < i {
                    assert(self.members@[j] == start[j]);
                }
            }
            i += 1;
        }
    }

    /// Records on each transition the states it exits and enters, keyed by
    /// the state it starts from (see `path_entry`).
    pub fn calculate_transition_paths(&mut self)
        ensures
            members_mapped(old(self).members@, final(self).members@, |e: ElementView| with_path_entry(e)),
            final(self).state == old(self).state,
            final(self).transition_map == old(self).transition_map,
            final(self).deferred_map == old(self).deferred_map,
            final(self).history_updates == old(self).history_updates,
            final(self).attributes == old(self).attributes,
    {
        let ghost before = self.members@;
        let mut i: usize = 0;
        while i < self.members.len()
            invariant
                0 <= i <= self.members@.len(),
                self.members@.len() == before.len(),
                self.state == old(self).state,
                self.transition_map == old(self).transition_map,
                self.deferred_map == old(self).deferred_map,
                self.history_updates == old(self).history_updates,
                self.attributes == old(self).attributes,
                forall|j: int| 0 <= j < i ==> (#[trigger] self.members@[j]).0 == before[j].0,
                forall|j: int| 0 <= j < i ==> (#[trigger] self.members@[j]).1@ == with_path_entry(before[j].1@),
                forall|j: int| i <= j < before.len() ==> #[trigger] self.members@[j] == before[j],
            decreases self.members@.len() - i,
        {
            let ghost start = self.members@;
            let is_transition = match &self.members[i].1 {
                ElementVariant::Transition(_) => true,
                _ => false,
            };
            if is_transition {
                let ghost cur = self.members@;
                let (k, e) = self.members.remove(i);
                let e2 = match e {
                    ElementVariant::Transition(mut t) => {
                        let (key, path) = transition_path_entry(&t);
                        put_path(&mut t.paths, key, path);
                        ElementVariant::Transition(t)
                    },
                    other => other,
                };
                self.members.insert(i, (k, e2));
                proof {
                    assert(self.members@ =~= cur.update(i as int, (k, e2)));
                    assert(e2@ =~~= with_path_entry(before[i as int].1@));
                }
            } else {
                assert(self.members@[i as int].1@ == with_path_entry(before[i as int].1@));
            }
            assert(self.members@[i as int].0 == before[i as int].0 && self.members@[i as int].1@ == with_path_entry(before[i as int].1@));
            assert forall|j: int| 0 <= j < i + 1 implies (#[trigger] self.members@[j]).0 == before[j].0 && self.members@[j].1@ == with_path_entry(before[j].1@) by {
                if j < i {
                    assert(self.members@[j] == start[j]);
                }
            }
            i += 1;
        }
    }

    /// The events deferred while in `state_name`: those deferred by it and by
    /// every state above it.
    fn deferred_set(&self, state_name: &str) -> (r: Vec<(String, bool)>)
        ensures
            is_event_set(r@, deferred_along(*self, climb(state_name@, seq![]))),
    {
        let mut set: Vec<(String, bool)> = Vec::new();
        let mut current = text::owned(state_name);
        let ghost all = deferred_along(*self, climb(state_name@, seq![]));
        let ghost mut acc: Seq<Seq<char>> = seq![];
        proof {
            assert forall|e: Seq<char>| #[trigger] has_key(set@, e) <==> acc.contains(e) by {
                assert(find_index(set@, e) == -1);
            }
        }
        while current.unicode_len() != 0
            invariant
                all == deferred_along(*self, climb(state_name@, seq![])),
                acc + deferred_along(*self, climb(current@, seq![])) == all,
                forall|e: Seq<char>| #[trigger] has_key(set@, e) <==> acc.contains(e),
                forall|j: int| 0 <= j < set@.len() ==> (#[trigger] set@[j]).1,
            decreases current@.len(),
        {
            let ghost c = current@;
            let ghost prev = set@;
            let ghost here = match self.state_of(c) {
                Some(st) => st.deferred,
                None => seq![],
            };
            proof {
                crate::path::lemma_dirname_shorter(c);
                assert(climb(c, seq![]) == seq![c] + climb(spec_dirname(c), seq![]));
                assert((seq![c] + climb(spec_dirname(c), seq![])).drop_first() =~= climb(spec_dirname(c), seq![]));
            }
            match self.get_state(current.as_str()) {
                Some(st) => {
                    add_events(&mut set, &st.deferred);
                },
                None => {},
            }
            proof {
                assert(deferred_along(*self, climb(c, seq![])) == here + deferred_along(*self, climb(spec_dirname(c), seq![])));
                assert(acc + here + deferred_along(*self, climb(spec_dirname(c), seq![])) =~= all);
                assert forall|e: Seq<char>| #[trigger] has_key(set@, e) <==> (acc + here).contains(e) by {
                    if (acc + here).contains(e) {
                        let k = choose|k: int| 0 <= k < (acc + here).len() && (acc + here)[k] == e;
                        if k < acc.len() {
                            assert(acc[k] == e);
                        } else {
                            assert(here[k - acc.len()] == e);
                        }
                    }
                    if acc.contains(e) {
                        let k = choose|k: int| 0 <= k < acc.len() && acc[k] == e;
                        assert((acc + here)[k] == e);
                    }
                    if here.contains(e) {
                        let k = choose|k: int| 0 <= k < here.len() && here[k] == e;
                        assert((acc + here)[acc.len() + k] == e);
                    }
                }
                acc = acc + here;
            }
            current = text::owned(dirname(current.as_str()));
        }
        proof {
            assert(climb(current@, seq![]) =~= seq![]);
            assert(acc + seq![] =~= acc);
        }
        set
    }

    /// For every state, the set of events deferred while in it (by it or an
    /// ancestor); entries of other names are left as they are.
    pub fn build_deferred_table(&mut self)
        ensures
            forall|n: Seq<char>| #[trigger] old(self).state_of(n) is Some ==> (table_get(final(self).deferred_map@, n) matches Some(set) && is_event_set(set@, deferred_along(*old(self), climb(n, seq![])))),
            forall|n: Seq<char>| #[trigger] old(self).state_of(n) is None ==> table_get(final(self).deferred_map@, n) == table_get(old(self).deferred_map@, n),
            final(self).state == old(self).state,
            final(self).members == old(self).members,
            final(self).transition_map == old(self).transition_map,
            final(self).history_updates == old(self).history_updates,
            final(self).attributes == old(self).attributes,
    {
        let ghost m = *self;
        let mut i: usize = 0;
        while i < self.members.len()
            invariant
                0 <= i <= self.members@.len(),
                self.state == m.state,
                self.members == m.members,
                self.transition_map == m.transition_map,
                self.history_updates == m.history_updates,
                self.attributes == m.attributes,
                forall|n: Seq<char>| #[trigger] m.state_of(n) is Some && (exists|j: int| 0 <= j < i && m.members@[j].0@ == n) ==> (table_get(self.deferred_map@, n) matches Some(set) && is_event_set(set@, deferred_along(m, climb(n, seq![])))),
                forall|n: Seq<char>| #[trigger] m.state_of(n) is None || !(exists|j: int| 0 <= j < i && m.members@[j].0@ == n) ==> table_get(self.deferred_map@, n) == table_get(m.deferred_map@, n),
            decreases self.members@.len() - i,
        {
            let name = self.members[i].0.clone();
            let ghost nm = name@;
            if self.get_state(name.as_str()).is_some() {
                let set = self.deferred_set(name.as_str());
                proof {
                    lemma_deferred_along_members(*self, m, climb(nm, seq![]));
                }
                assoc::insert(&mut self.deferred_map, name, set);
            }
            proof {
                assert(m.members@[i as int].0@ == nm);
                assert forall|n: Seq<char>| #[trigger] m.state_of(n) is Some && (exists|j: int| 0 <= j < i + 1 && m.members@[j].0@ == n) implies (table_get(self.deferred_map@, n) matches Some(set) && is_event_set(set@, deferred_along(m, climb(n, seq![])))) by {
                    if n != nm {
                        let j = choose|j: int| 0 <= j < i + 1 && m.members@[j].0@ == n;
                        assert(j != i);
                    }
                }
                assert forall|n: Seq<char>| #[trigger] m.state_of(n) is None || !(exists|j: int| 0 <= j < i + 1 && m.members@[j].0@ == n) implies table_get(self.deferred_map@, n) == table_get(m.deferred_map@, n) by {
                    if n == nm {
                        assert(m.members@[i as int].0@ == n);
                    }
                }
            }
            i += 1;
        }
        proof {
            assert forall|n: Seq<char>| #[trigger] m.state_of(n) is Some implies (exists|j: int| 0 <= j < m.members@.len() && m.members@[j].0@ == n) by {
                assoc::lemma_find_index(m.members@, n);
                let j = find_index(m.members@, n);
                assert(m.members@[j].0@ == n);
            }
        }
    }

    /// The history entries recorded when `leaf` is exited.
    fn history_for(&self, leaf: &str) -> (r: Vec<HistoryUpdate>)
        ensures
            updates_view(r@) == history_chain(*self, leaf@, leaf@, spec_dirname(leaf@)),
    {
        let mut updates: Vec<HistoryUpdate> = Vec::new();
        let mut child = text::owned(leaf);
        let mut parent = text::owned(dirname(leaf));
        let root = self.state.vertex.element.qualified_name.as_str();
        let ghost all = history_chain(*self, leaf@, leaf@, spec_dirname(leaf@));
        proof {
            reveal_strlit("/");
            assert("/"@ =~= seq!['/']);
        }
        while parent.unicode_len() != 0 && !text::str_eq(parent.as_str(), "/") && !text::str_eq(parent.as_str(), child.as_str())
            invariant_except_break
                updates_view(updates@) + history_chain(*self, leaf@, child@, parent@) == all,
            invariant
                "/"@ == seq!['/'],
                root@ == self.root(),
                all == history_chain(*self, leaf@, leaf@, spec_dirname(leaf@)),
            ensures
                updates_view(updates@) == all,
            decreases parent@.len(),
        {
            let ghost before = updates@;
            let ghost p = parent@;
            let ghost c = child@;
            let recorded = self.get_state(parent.as_str()).is_some() || text::str_eq(parent.as_str(), root);
            if recorded {
                updates.push(HistoryUpdate { parent: parent.clone(), shallow_child: child.clone(), deep_leaf: text::owned(leaf) });
            }
            proof {
                let here = if self.state_of(p) is Some || p == self.root() {
                    seq![HistoryUpdateView { parent: p, shallow_child: c, deep_leaf: leaf@ }]
                } else {
                    seq![]
                };
                assert(updates_view(updates@) =~= updates_view(before) + here);
            }
            if text::str_eq(parent.as_str(), root) {
                proof {
                    assert(updates_view(updates@) =~= all);
                }
                break;
            }
            proof {
                crate::path::lemma_dirname_shorter(p);
            }
            child = parent;
            parent = text::owned(dirname(child.as_str()));
            proof {
                assert(updates_view(updates@) + history_chain(*self, leaf@, child@, parent@) =~= all);
            }
        }
        updates
    }

    /// For every state, what exiting it records in the history of its
    /// ancestors; nothing else is kept.
    pub fn build_history_table(&mut self)
        ensures
            forall|n: Seq<char>| #[trigger] old(self).state_of(n) is None ==> table_get(final(self).history_updates@, n) is None,
            forall|n: Seq<char>| #[trigger] old(self).state_of(n) is Some ==> (table_get(final(self).history_updates@, n) matches Some(u) && updates_view(u@) == history_chain(*old(self), n, n, spec_dirname(n))),
            final(self).state == old(self).state,
            final(self).members == old(self).members,
            final(self).transition_map == old(self).transition_map,
            final(self).deferred_map == old(self).deferred_map,
            final(self).attributes == old(self).attributes,
    {
        let ghost m = *self;
        self.history_updates.clear();
        let mut i: usize = 0;
        while i < self.members.len()
            invariant
                0 <= i <= self.members@.len(),
                self.state == m.state,
                self.members == m.members,
                self.transition_map == m.transition_map,
                self.deferred_map == m.deferred_map,
                self.attributes == m.attributes,
                forall|n: Seq<char>| #[trigger] m.state_of(n) is Some && (exists|j: int| 0 <= j < i && m.members@[j].0@ == n) ==> (table_get(self.history_updates@, n) matches Some(u) && updates_view(u@) == history_chain(m, n, n, spec_dirname(n))),
                forall|n: Seq<char>| #[trigger] m.state_of(n) is None || !(exists|j: int| 0 <= j < i && m.members@[j].0@ == n) ==> table_get(self.history_updates@, n) is None,
            decreases self.members@.len() - i,
        {
            let name = self.members[i].0.clone();
            let ghost nm = name@;
            if self.get_state(name.as_str()).is_some() {
                let updates = self.history_for(name.as_str());
                proof {
                    lemma_history_chain_members(*self, m, nm, nm, spec_dirname(nm));
                }
                assoc::insert(&mut self.history_updates, name, updates);
            }
            proof {
                assert(m.members@[i as int].0@ == nm);
                assert forall|n: Seq<char>| #[trigger] m.state_of(n) is Some && (exists|j: int| 0 <= j < i + 1 && m.members@[j].0@ == n) implies (table_get(self.history_updates@, n) matches Some(u) && updates_view(u@) == history_chain(m, n, n, spec_dirname(n))) by {
                    if n != nm {
                        let j = choose|j: int| 0 <= j < i + 1 && m.members@[j].0@ == n;
                        assert(j != i);
                    }
                }
                assert forall|n: Seq<char>| #[trigger] m.state_of(n) is None || !(exists|j: int| 0 <= j < i + 1 && m.members@[j].0@ == n) implies table_get(self.history_updates@, n) is None by {
                    if n == nm {
                        assert(m.members@[i as int].0@ == n);
                    }
                }
            }
            i += 1;
        }
        proof {
            assert forall|n: Seq<char>| #[trigger] m.state_of(n) is Some implies (exists|j: int| 0 <= j < m.members@.len() && m.members@[j].0@ == n) by {
                assoc::lemma_find_index(m.members@, n);
                let j = find_index(m.members@, n);
                assert(m.members@[j].0@ == n);
            }
        }
    }

    /// Adds the entries of the transitions named by `cands`.
    fn add_candidates(&self, table: &mut Vec<(String, Vec<String>)>, cands: &Vec<String>)
        requires
            keyed_when_nonempty(old(table)@),
        ensures
            keyed_when_nonempty(final(table)@),
            forall|x: Seq<char>| #[trigger] list_get(final(table)@, x) == list_get(old(table)@, x) + event_entries(*self, names_view(cands@), x),
    {
        let ghost before = table@;
        let ghost cs = names_view(cands@);
        let mut k: usize = 0;
        proof {
            assert forall|x: Seq<char>| #[trigger] list_get(table@, x) == list_get(before, x) + event_entries(*self, cs.take(0), x) by {
                assert(list_get(before, x) + seq![] =~= list_get(before, x));
            }
        }
        while k < cands.len()
            invariant
                0 <= k <= cands.len(),
                cs == names_view(cands@),
                keyed_when_nonempty(table@),
                forall|x: Seq<char>| #[trigger] list_get(table@, x) == list_get(before, x) + event_entries(*self, cs.take(k as int), x),
            decreases cands.len() - k,
        {
            let ghost prev = table@;
            let ghost c = cands@[k as int]@;
            match self.get_transition(cands[k].as_str()) {
                Some(t) => {
                    add_transition_entries(table, cands[k].as_str(), &t.events);
                },
                None => {},
            }
            proof {
                assert forall|x: Seq<char>| #[trigger] list_get(table@, x) == list_get(before, x) + event_entries(*self, cs.take(k + 1), x) by {
                    assert(cs.take(k + 1).drop_last() =~= cs.take(k as int));
                    assert(cs.take(k + 1).last() == c);
                    assert(list_get(prev, x) == list_get(before, x) + event_entries(*self, cs.take(k as int), x));
                    let here = match self.transition_of(c) {
                        Some(t) => entries_of(c, t.events, x),
                        None => seq![],
                    };
                    assert(event_entries(*self, cs.take(k + 1), x) == event_entries(*self, cs.take(k as int), x) + here);
                    assert(list_get(table@, x) =~= list_get(prev, x) + here);
                    assert(list_get(before, x) + event_entries(*self, cs.take(k + 1), x) =~= list_get(before, x) + event_entries(*self, cs.take(k as int), x) + here);
                }
            }
            k += 1;
        }
        proof {
            assert(cs.take(cands.len() as int) =~= cs);
        }
    }

    /// Adds the entries of the transitions of the initial pseudostate named
    /// `initial`, if it is one.
    fn add_initial_candidates(&self, table: &mut Vec<(String, Vec<String>)>, initial: &str)
        requires
            keyed_when_nonempty(old(table)@),
        ensures
            keyed_when_nonempty(final(table)@),
            forall|x: Seq<char>| #[trigger] list_get(final(table)@, x) == list_get(old(table)@, x) + event_entries(*self, initial_transitions(*self, initial@), x),
    {
        let ghost before = table@;
        if initial.unicode_len() != 0 {
            match self.get_member(initial) {
                Some(ElementVariant::Vertex(v)) => {
                    self.add_candidates(table, &v.transitions);
                    return;
                },
                _ => {},
            }
        }
        proof {
            assert forall|x: Seq<char>| #[trigger] list_get(table@, x) == list_get(before, x) + event_entries(*self, initial_transitions(*self, initial@), x) by {
                assert(initial_transitions(*self, initial@) =~= seq![]);
                assert(list_get(before, x) + seq![] =~= list_get(before, x));
            }
        }
    }

    /// The names of the transitions that leave the machine itself, sorted.
    fn root_transitions_sorted(&self) -> (r: Vec<String>)
        ensures
            names_view(r@) == root_candidates(*self),
    {
        let mut names: Vec<String> = Vec::new();
        let root = self.state.vertex.element.qualified_name.as_str();
        let mut i: usize = 0;
        while i < self.members.len()
            invariant
                0 <= i <= self.members@.len(),
                root@ == self.root(),
                names_view(names@) == root_transition_names(*self, self.members@.take(i as int)),
            decreases self.members@.len() - i,
        {
            proof {
                assert(self.members@.take(i + 1).drop_last() =~= self.members@.take(i as int));
                assert(self.members@.take(i + 1).last() == self.members@[i as int]);
            }
            match &self.members[i].1 {
                ElementVariant::Transition(t) => {
                    if text::str_eq(t.source.as_str(), root) && t.events.len() > 0 {
                        names.push(self.members[i].0.clone());
                    }
                },
                _ => {},
            }
            proof {
                assert(names_view(names@) =~= root_transition_names(*self, self.members@.take(i + 1)));
            }
            i += 1;
        }
        proof {
            assert(self.members@.take(self.members@.len() as int) =~= self.members@);
        }
        let r = text::sort_strings(names);
        proof {
            assert(names_view(r@) =~= r@.map_values(|s: String| s@));
            assert(names_view(names@) =~= names@.map_values(|s: String| s@));
        }
        r
    }

    /// The event table of the state `state_name`: at each level from the
    /// state up to the machine, the level's candidates (`chain_candidates`).
    fn state_table(&self, state_name: &str, root_sorted: &Vec<String>) -> (r: Vec<(String, Vec<String>)>)
        requires
            names_view(root_sorted@) == root_candidates(*self),
        ensures
            is_event_table(*self, r@, chain_candidates(*self, climb(state_name@, seq![]), root_candidates(*self))),
    {
        let ghost rs = root_candidates(*self);
        let ghost all = chain_candidates(*self, climb(state_name@, seq![]), rs);
        let mut table = empty_table();
        let mut current = text::owned(state_name);
        let root = self.state.vertex.element.qualified_name.as_str();
        let ghost mut acc: Seq<Seq<char>> = seq![];
        while current.unicode_len() != 0
            invariant
                names_view(root_sorted@) == rs,
                rs == root_candidates(*self),
                root@ == self.root(),
                all == chain_candidates(*self, climb(state_name@, seq![]), rs),
                acc + chain_candidates(*self, climb(current@, seq![]), rs) == all,
                keyed_when_nonempty(table@),
                forall|x: Seq<char>| #[trigger] list_get(table@, x) == event_entries(*self, acc, x),
            decreases current@.len(),
        {
            let ghost c = current@;
            let ghost t0 = table@;
            let ghost own = match self.state_of(c) {
                Some(st) => st.vertex.transitions + initial_transitions(*self, st.initial),
                None => seq![],
            };
            match self.get_state(current.as_str()) {
                Some(st) => {
                    self.add_candidates(&mut table, &st.vertex.transitions);
                    self.add_initial_candidates(&mut table, st.initial.as_str());
                    proof {
                        assert forall|x: Seq<char>| #[trigger] list_get(table@, x) == event_entries(*self, acc + own, x) by {
                            lemma_event_entries_append(*self, st.vertex.transitions@.map_values(|s: String| s@), initial_transitions(*self, st.initial@), x);
                            lemma_event_entries_append(*self, acc, own, x);
                            assert(names_view(st.vertex.transitions@) == st.vertex.transitions@.map_values(|s: String| s@));
                            assert(own == names_view(st.vertex.transitions@) + initial_transitions(*self, st.initial@));
                        }
                    }
                },
                None => {
                    proof {
                        assert forall|x: Seq<char>| #[trigger] list_get(table@, x) == event_entries(*self, acc + own, x) by {
                            assert(acc + own =~= acc);
                        }
                    }
                },
            }
            let ghost t1 = table@;
            let at_root = text::str_eq(current.as_str(), root);
            if at_root {
                self.add_candidates(&mut table, root_sorted);
            }
            let ghost level = level_candidates(*self, c, rs);
            proof {
                assert forall|x: Seq<char>| #[trigger] list_get(table@, x) == event_entries(*self, acc + level, x) by {
                    if at_root {
                        assert(level == own + rs);
                        lemma_event_entries_append(*self, acc + own, rs, x);
                        assert(acc + own + rs =~= acc + level);
                    } else {
                        assert(level == own);
                    }
                }
                crate::path::lemma_dirname_shorter(c);
                assert(climb(c, seq![]) == seq![c] + climb(spec_dirname(c), seq![]));
                assert((seq![c] + climb(spec_dirname(c), seq![])).drop_first() =~= climb(spec_dirname(c), seq![]));
                assert(chain_candidates(*self, climb(c, seq![]), rs) == level + chain_candidates(*self, climb(spec_dirname(c), seq![]), rs));
                assert(acc + level + chain_candidates(*self, climb(spec_dirname(c), seq![]), rs) =~= all);
                acc = acc + level;
            }
            current = text::owned(dirname(current.as_str()));
        }
        proof {
            assert(climb(current@, seq![]) =~= seq![]);
            assert(acc + seq![] =~= acc);
        }
        table
    }

    /// Builds the event tables the runtime looks transitions up in. The
    /// machine's own table lists the transitions of its initial pseudostate;
    /// the table of each state lists, event by event, the transitions found
    /// from the state up to the machine (`chain_candidates`), nearest first.
    /// Entries of other names are left as they are.
    pub fn build_transition_table(&mut self)
        ensures
            old(self).state_of(old(self).root()) is None ==> (table_get(final(self).transition_map@, old(self).root()) matches Some(t) && is_event_table(*old(self), t@, initial_transitions(*old(self), old(self).state.initial@))),
            forall|n: Seq<char>| #[trigger] old(self).state_of(n) is Some ==> (table_get(final(self).transition_map@, n) matches Some(t) && is_event_table(*old(self), t@, chain_candidates(*old(self), climb(n, seq![]), root_candidates(*old(self))))),
            forall|n: Seq<char>| n != old(self).root() && old(self).state_of(n) is None ==> #[trigger] table_get(final(self).transition_map@, n) == table_get(old(self).transition_map@, n),
            final(self).state == old(self).state,
            final(self).members == old(self).members,
            final(self).deferred_map == old(self).deferred_map,
            final(self).history_updates == old(self).history_updates,
            final(self).attributes == old(self).attributes,
    {
        let ghost m = *self;
        let root_sorted = self.root_transitions_sorted();
        let mut root_table = empty_table();
        self.add_initial_candidates(&mut root_table, self.state.initial.as_str());
        proof {
            assert forall|x: Seq<char>| #[trigger] list_get(root_table@, x) == event_entries(m, initial_transitions(m, m.state.initial@), x) by {
                assert(Seq::<Seq<char>>::empty() + event_entries(m, initial_transitions(m, m.state.initial@), x) =~= event_entries(m, initial_transitions(m, m.state.initial@), x));
            }
        }
        let mut tables: Vec<(String, Vec<(String, Vec<String>)>)> = Vec::new();
        let mut i: usize = 0;
        while i < self.members.len()
            invariant
                0 <= i <= self.members@.len(),
                *self == m,
                names_view(root_sorted@) == root_candidates(m),
                forall|j: int| 0 <= j < tables@.len() ==> m.state_of(#[trigger] tables@[j].0@) is Some && is_event_table(m, tables@[j].1@, chain_candidates(m, climb(tables@[j].0@, seq![]), root_candidates(m))),
                forall|n: Seq<char>| #[trigger] m.state_of(n) is Some && (exists|j: int| 0 <= j < i && m.members@[j].0@ == n) ==> has_key(tables@, n),
            decreases self.members@.len() - i,
        {
            let ghost prev = tables@;
            if self.get_state(self.members[i].0.as_str()).is_some() {
                let t = self.state_table(self.members[i].0.as_str(), &root_sorted);
                tables.push((self.members[i].0.clone(), t));
            }
            proof {
                assert forall|n: Seq<char>| #[trigger] m.state_of(n) is Some && (exists|j: int| 0 <= j < i + 1 && m.members@[j].0@ == n) implies has_key(tables@, n) by {
                    assoc::lemma_find_index(prev, n);
                    assoc::lemma_find_index(tables@, n);
                    let j = choose|j: int| 0 <= j < i + 1 && m.members@[j].0@ == n;
                    if j < i {
                        let f = find_index(prev, n);
                        assert(tables@[f] == prev[f]);
                    } else {
                        assert(tables@[tables@.len() - 1].0@ == n);
                    }
                }
            }
            i += 1;
        }
        proof {
            assert forall|n: Seq<char>| #[trigger] m.state_of(n) is Some implies has_key(tables@, n) by {
                assoc::lemma_find_index(m.members@, n);
                let j = find_index(m.members@, n);
                assert(m.members@[j].0@ == n);
            }
        }
        let ghost built = tables@;
        assoc::insert(&mut self.transition_map, self.state.vertex.element.qualified_name.clone(), root_table);
        let ghost after_root = self.transition_map@;
        let total = tables.len();
        proof {
            assert(built.subrange(0, built.len() as int) =~= built);
        }
        let mut k: usize = 0;
        while tables.len() > 0
            invariant
                0 <= k <= built.len(),
                built.len() == total,
                tables@ == built.subrange(k as int, built.len() as int),
                self.state == m.state,
                self.members == m.members,
                self.deferred_map == m.deferred_map,
                self.history_updates == m.history_updates,
                self.attributes == m.attributes,
                forall|n: Seq<char>| #[trigger] table_get(self.transition_map@, n) == if exists|j: int| 0 <= j < k && built[j].0@ == n {
                    Some(built[last_index_of(built.take(k as int), n)].1)
                } else {
                    table_get(after_root, n)
                },
            decreases tables@.len(),
        {
            let ghost prev = self.transition_map@;
            let ghost kn = built[k as int].0@;
            let (name, table) = tables.remove(0);
            assert(name == built[k as int].0 && table == built[k as int].1);
            assoc::insert(&mut self.transition_map, name, table);
            proof {
                lemma_last_index_of_take(built, k as int);
                assert forall|n: Seq<char>| #[trigger] table_get(self.transition_map@, n) == if exists|j: int| 0 <= j < k + 1 && built[j].0@ == n {
                    Some(built[last_index_of(built.take(k + 1), n)].1)
                } else {
                    table_get(after_root, n)
                } by {
                    if n == kn {
                        assert(built[k as int].0@ == n);
                    } else {
                        assert(table_get(self.transition_map@, n) == table_get(prev, n));
                        if exists|j: int| 0 <= j < k + 1 && built[j].0@ == n {
                            let j = choose|j: int| 0 <= j < k + 1 && built[j].0@ == n;
                            assert(j != k);
                        }
                    }
                }
                assert(tables@ =~= built.subrange(k + 1, built.len() as int));
            }
            k += 1;
        }
        proof {
            assert(built.take(built.len() as int) =~= built);
            assert forall|n: Seq<char>| #[trigger] m.state_of(n) is Some implies (table_get(self.transition_map@, n) matches Some(t) && is_event_table(m, t@, chain_candidates(m, climb(n, seq![]), root_candidates(m)))) by {
                assoc::lemma_find_index(built, n);
                let f = find_index(built, n);
                assert(built[f].0@ == n);
                lemma_last_index_of(built, n);
            }
            assert forall|n: Seq<char>| n != m.root() && m.state_of(n) is None implies #[trigger] table_get(self.transition_map@, n) == table_get(m.transition_map@, n) by {
                if exists|j: int| 0 <= j < built.len() && built[j].0@ == n {
                    let j = choose|j: int| 0 <= j < built.len() && built[j].0@ == n;
                    assert(m.state_of(built[j].0@) is Some);
                }
            }
            if m.state_of(m.root()) is None {
                if exists|j: int| 0 <= j < built.len() && built[j].0@ == m.root() {
                    let j = choose|j: int| 0 <= j < built.len() && built[j].0@ == m.root();
                    assert(m.state_of(built[j].0@) is Some);
                }
            }
        }
    }

    /// The resolved target of a transition from `source` to `target`.
    fn resolve_target(&self, target: &str, source: &str) -> (r: String)
        ensures
            forall|t: TransitionView| t.target == target@ && t.source == source@ ==> r@ == resolved_target(*self, t),
    {
        if target.unicode_len() == 0 || self.has_endpoint(target) {
            return text::owned(target);
        }
        let context = self.transition_endpoint_context(source);
        if context.unicode_len() == 0 || !is_ancestor_or_equal(context.as_str(), target) {
            return text::owned(target);
        }
        let n = target.unicode_len();
        let c = context.unicode_len();
        proof {
            assert(c <= n);
        }
        let relative = text::trim_start_char(text::slice(target, c, n), '/');
        if relative.unicode_len() == 0 {
            return text::owned(target);
        }
        let fallback = join(self.state.vertex.element.qualified_name.as_str(), relative);
        if !self.has_endpoint(fallback.as_str()) {
            return text::owned(target);
        }
        fallback
    }
}

/// `e` with its path recorded, when it is a transition.
pub open spec fn with_path_entry(e: ElementView) -> ElementView {
    match e {
        ElementView::Transition(t) => ElementView::Transition(
            TransitionView { paths: view_put(t.paths, path_entry(t).0, path_entry(t).1), ..t },
        ),
        _ => e,
    }
}

/// Where a transition's path is recorded, and the path itself.
fn transition_path_entry(t: &Transition) -> (r: (String, TransitionPath))
    ensures
        r.0@ == path_entry(t@).0,
        r.1@ == path_entry(t@).1,
{
    proof {
        reveal_strlit("hsm/initial");
        assert("hsm/initial"@ =~= crate::event::initial_event_name());
    }
    if t.target.unicode_len() == 0 {
        let p = TransitionPath { enter: Vec::new(), exit: Vec::new() };
        assert(p@ =~= path_entry(t@).1);
        (t.source.clone(), p)
    } else if contains_name(&t.events, "hsm/initial") {
        let parent = text::owned(dirname(t.source.as_str()));
        let p = Model::calculate_path_static(parent.as_str(), t.target.as_str());
        (parent, p)
    } else {
        let p = Model::calculate_path_static(t.source.as_str(), t.target.as_str());
        (t.source.clone(), p)
    }
}

/// Sets the path recorded for `k`.
fn put_path(paths: &mut Vec<(String, TransitionPath)>, k: String, p: TransitionPath)
    ensures
        paths_view(final(paths)@) == view_put(paths_view(old(paths)@), k@, p@),
{
    let ghost before = paths@;
    let ghost key = k@;
    let ghost pv = p@;
    proof {
        assoc::lemma_find_index_view(before, paths_view(before), key);
        assoc::lemma_find_index(before, key);
    }
    assoc::insert(paths, k, p);
    proof {
        if has_key(before, key) {
            assert(paths_view(paths@) =~= paths_view(before).update(find_index(before, key), (key, pv)));
        } else {
            assert(paths_view(paths@) =~= paths_view(before).push((key, pv)));
        }
    }
}

/// The events deferred by the states among `path` (nearest first); names of
/// non-states add nothing.
pub open spec fn deferred_along(m: Model, path: Seq<Seq<char>>) -> Seq<Seq<char>>
    decreases path.len(),
{
    if path.len() == 0 {
        seq![]
    } else {
        (match m.state_of(path[0]) {
            Some(s) => s.deferred,
            None => seq![],
        }) + deferred_along(m, path.drop_first())
    }
}

/// An event set: keyed by each event once, every value `true`.
pub open spec fn is_event_set(set: Seq<(String, bool)>, events: Seq<Seq<char>>) -> bool {
    &&& forall|e: Seq<char>| #[trigger] has_key(set, e) <==> events.contains(e)
    &&& forall|j: int| 0 <= j < set.len() ==> (#[trigger] set[j]).1
}

/// What a state's exit records for history: one entry per ancestor state
/// (and the machine) from `parent` up, each with the child it came through
/// and the leaf `leaf`.
pub open spec fn history_chain(
    m: Model,
    leaf: Seq<char>,
    child: Seq<char>,
    parent: Seq<char>,
) -> Seq<HistoryUpdateView>
    decreases parent.len(),
{
    if parent.len() == 0 || parent == seq!['/'] || parent == child {
        seq![]
    } else {
        let here = if m.state_of(parent) is Some || parent == m.root() {
            seq![HistoryUpdateView { parent, shallow_child: child, deep_leaf: leaf }]
        } else {
            seq![]
        };
        if parent == m.root() {
            here
        } else {
            proof {
                crate::path::lemma_dirname_shorter(parent);
            }
            here + history_chain(m, leaf, parent, spec_dirname(parent))
        }
    }
}

pub open spec fn updates_view(s: Seq<HistoryUpdate>) -> Seq<HistoryUpdateView> {
    s.map_values(|h: HistoryUpdate| h@)
}

pub proof fn lemma_deferred_along_members(a: Model, b: Model, path: Seq<Seq<char>>)
    requires
        a.members == b.members,
    ensures
        deferred_along(a, path) == deferred_along(b, path),
    decreases path.len(),
{
    if path.len() > 0 {
        lemma_deferred_along_members(a, b, path.drop_first());
    }
}

pub proof fn lemma_history_chain_members(a: Model, b: Model, leaf: Seq<char>, child: Seq<char>, parent: Seq<char>)
    requires
        a.members == b.members,
        a.state == b.state,
    ensures
        history_chain(a, leaf, child, parent) == history_chain(b, leaf, child, parent),
    decreases parent.len(),
{
    if !(parent.len() == 0 || parent == seq!['/'] || parent == child) && parent != a.root() {
        crate::path::lemma_dirname_shorter(parent);
        lemma_history_chain_members(a, b, leaf, parent, spec_dirname(parent));
    }
}

/// Adds each event to the set.
fn add_events(set: &mut Vec<(String, bool)>, events: &Vec<String>)
    requires
        forall|j: int| 0 <= j < old(set)@.len() ==> (#[trigger] old(set)@[j]).1,
    ensures
        forall|e: Seq<char>| #[trigger] has_key(final(set)@, e) <==> (has_key(old(set)@, e) || names_view(events@).contains(e)),
        forall|j: int| 0 <= j < final(set)@.len() ==> (#[trigger] final(set)@[j]).1,
{
    let ghost before = set@;
    let mut i: usize = 0;
    while i < events.len()
        invariant
            0 <= i <= events.len(),
            forall|e: Seq<char>| #[trigger] has_key(set@, e) <==> (has_key(before, e) || names_view(events@).subrange(0, i as int).contains(e)),
            forall|j: int| 0 <= j < set@.len() ==> (#[trigger] set@[j]).1,
        decreases events.len() - i,
    {
        let ghost prev = set@;
        let ghost ev = events@[i as int]@;
        proof {
            assoc::lemma_find_index(prev, ev);
        }
        assoc::insert(set, events[i].clone(), true);
        proof {
            let sub = names_view(events@).subrange(0, i as int + 1);
            assert(sub =~= names_view(events@).subrange(0, i as int).push(ev));
            let old_sub = names_view(events@).subrange(0, i as int);
            assert forall|e: Seq<char>| #[trigger] has_key(set@, e) <==> (has_key(before, e) || sub.contains(e)) by {
                if e != ev {
                    assert(find_index(set@, e) == find_index(prev, e));
                    assert(has_key(set@, e) == has_key(prev, e));
                    assert(has_key(prev, e) <==> (has_key(before, e) || old_sub.contains(e)));
                    if sub.contains(e) {
                        let k = choose|k: int| 0 <= k < sub.len() && sub[k] == e;
                        assert(old_sub[k] == e);
                    }
                    if old_sub.contains(e) {
                        let k = choose|k: int| 0 <= k < old_sub.len() && old_sub[k] == e;
                        assert(sub[k] == e);
                    }
                } else {
                    assert(sub[i as int] == ev);
                    assert(has_key(set@, e));
                }
            }
            assert forall|j: int| 0 <= j < set@.len() implies (#[trigger] set@[j]).1 by {
                if has_key(prev, ev) {
                    assert(set@ == prev.update(find_index(prev, ev), (events@[i as int], true)));
                } else {
                    assert(set@ == prev.push((events@[i as int], true)));
                }
            }
        }
        i += 1;
    }
    proof {
        assert(names_view(events@).subrange(0, events@.len() as int) =~= names_view(events@));
    }
}

/// The entries a transition named `name` with these events adds under event
/// `e`: its name once for each time `e` is among the events.
pub open spec fn entries_of(name: Seq<char>, events: Seq<Seq<char>>, e: Seq<char>) -> Seq<Seq<char>>
    decreases events.len(),
{
    if events.len() == 0 {
        seq![]
    } else {
        entries_of(name, events.drop_last(), e) + (if events.last() == e {
            seq![name]
        } else {
            seq![]
        })
    }
}

/// The entries under event `e` of the transitions named by `cands`, in order;
/// names of non-transitions add nothing.
pub open spec fn event_entries(m: Model, cands: Seq<Seq<char>>, e: Seq<char>) -> Seq<Seq<char>>
    decreases cands.len(),
{
    if cands.len() == 0 {
        seq![]
    } else {
        event_entries(m, cands.drop_last(), e) + (match m.transition_of(cands.last()) {
            Some(t) => entries_of(cands.last(), t.events, e),
            None => seq![],
        })
    }
}

pub proof fn lemma_event_entries_append(m: Model, a: Seq<Seq<char>>, b: Seq<Seq<char>>, e: Seq<char>)
    ensures
        event_entries(m, a + b, e) == event_entries(m, a, e) + event_entries(m, b, e),
    decreases b.len(),
{
    if b.len() == 0 {
        assert(a + b =~= a);
        assert(event_entries(m, a, e) + seq![] =~= event_entries(m, a, e));
    } else {
        assert((a + b).drop_last() =~= a + b.drop_last());
        assert((a + b).last() == b.last());
        lemma_event_entries_append(m, a, b.drop_last(), e);
    }
}

/// The transitions of the initial pseudostate named `initial`, if it is one.
pub open spec fn initial_transitions(m: Model, initial: Seq<char>) -> Seq<Seq<char>> {
    if initial.len() == 0 {
        seq![]
    } else {
        match m.member(initial) {
            Some(ElementView::Vertex(v)) => v.transitions,
            _ => seq![],
        }
    }
}

/// The transitions a name on the way up from a state contributes: a state's
/// own, then those of its initial pseudostate; for the machine itself, the
/// transitions that leave it (`root_sorted`).
pub open spec fn level_candidates(m: Model, c: Seq<char>, root_sorted: Seq<Seq<char>>) -> Seq<Seq<char>> {
    let own = match m.state_of(c) {
        Some(s) => s.vertex.transitions + initial_transitions(m, s.initial),
        None => seq![],
    };
    if c == m.root() {
        own + root_sorted
    } else {
        own
    }
}

/// The candidate transitions met along `path`, nearest level first.
pub open spec fn chain_candidates(m: Model, path: Seq<Seq<char>>, root_sorted: Seq<Seq<char>>) -> Seq<Seq<char>>
    decreases path.len(),
{
    if path.len() == 0 {
        seq![]
    } else {
        level_candidates(m, path[0], root_sorted) + chain_candidates(m, path.drop_first(), root_sorted)
    }
}

/// The names of the transitions among `members` that leave the machine on
/// some event, in order.
pub open spec fn root_transition_names(m: Model, members: Seq<(String, ElementVariant)>) -> Seq<Seq<char>>
    decreases members.len(),
{
    if members.len() == 0 {
        seq![]
    } else {
        root_transition_names(m, members.drop_last()) + (match members.last().1 {
            ElementVariant::Transition(t) => if t.source@ == m.root() && t.events@.len() > 0 {
                seq![members.last().0@]
            } else {
                seq![]
            },
            _ => seq![],
        })
    }
}

/// The transitions that leave the machine itself, sorted by name.
pub open spec fn root_candidates(m: Model) -> Seq<Seq<char>> {
    text::sort_names(root_transition_names(m, m.members@))
}

/// The list kept under event `e` (empty when there is none).
pub open spec fn list_get(table: Seq<(String, Vec<String>)>, e: Seq<char>) -> Seq<Seq<char>> {
    match table_get(table, e) {
        Some(v) => names_view(v@),
        None => seq![],
    }
}

/// An event table keys exactly the events whose list is not empty.
pub open spec fn keyed_when_nonempty(table: Seq<(String, Vec<String>)>) -> bool {
    forall|e: Seq<char>| #[trigger] has_key(table, e) <==> list_get(table, e).len() > 0
}

/// The table lists, for every event, `event_entries` of `cands`.
pub open spec fn is_event_table(m: Model, table: Seq<(String, Vec<String>)>, cands: Seq<Seq<char>>) -> bool {
    &&& keyed_when_nonempty(table)
    &&& forall|e: Seq<char>| #[trigger] list_get(table, e) == event_entries(m, cands, e)
}

/// Appends `name` to the list under `e`.
fn push_entry(table: &mut Vec<(String, Vec<String>)>, e: &String, name: &str)
    requires
        keyed_when_nonempty(old(table)@),
    ensures
        keyed_when_nonempty(final(table)@),
        forall|x: Seq<char>| #[trigger] list_get(final(table)@, x) == if x == e@ {
            list_get(old(table)@, x).push(name@)
        } else {
            list_get(old(table)@, x)
        },
{
    let ghost before = table@;
    let mut list = match assoc::get(table, e.as_str()) {
        Some(v) => clone_names(v),
        None => Vec::new(),
    };
    list.push(text::owned(name));
    proof {
        assoc::lemma_find_index(before, e@);
        assert(names_view(list@) =~= list_get(before, e@).push(name@));
    }
    assoc::insert(table, e.clone(), list);
    proof {
        assert forall|x: Seq<char>| #[trigger] has_key(table@, x) <==> list_get(table@, x).len() > 0 by {
            if x != e@ {
                assert(table_get(table@, x) == table_get(before, x));
                assert(has_key(table@, x) == has_key(before, x));
                assert(has_key(before, x) <==> list_get(before, x).len() > 0);
            }
        }
        assert forall|x: Seq<char>| #[trigger] list_get(table@, x) == if x == e@ {
            list_get(before, x).push(name@)
        } else {
            list_get(before, x)
        } by {
            if x != e@ {
                assert(table_get(table@, x) == table_get(before, x));
            }
        }
    }
}

/// Adds the entries of one transition.
fn add_transition_entries(table: &mut Vec<(String, Vec<String>)>, name: &str, events: &Vec<String>)
    requires
        keyed_when_nonempty(old(table)@),
    ensures
        keyed_when_nonempty(final(table)@),
        forall|x: Seq<char>| #[trigger] list_get(final(table)@, x) == list_get(old(table)@, x) + entries_of(name@, names_view(events@), x),
{
    let ghost before = table@;
    let ghost evs = names_view(events@);
    let mut k: usize = 0;
    proof {
        assert forall|x: Seq<char>| #[trigger] list_get(table@, x) == list_get(before, x) + entries_of(name@, evs.take(0), x) by {
            assert(list_get(before, x) + seq![] =~= list_get(before, x));
        }
    }
    while k < events.len()
        invariant
            0 <= k <= events.len(),
            evs == names_view(events@),
            keyed_when_nonempty(table@),
            forall|x: Seq<char>| #[trigger] list_get(table@, x) == list_get(before, x) + entries_of(name@, evs.take(k as int), x),
        decreases events.len() - k,
    {
        let ghost prev = table@;
        push_entry(table, &events[k], name);
        proof {
            assert forall|x: Seq<char>| #[trigger] list_get(table@, x) == list_get(before, x) + entries_of(name@, evs.take(k + 1), x) by {
                assert(evs.take(k + 1).drop_last() =~= evs.take(k as int));
                assert(evs.take(k + 1).last() == events@[k as int]@);
                assert(list_get(prev, x) == list_get(before, x) + entries_of(name@, evs.take(k as int), x));
                if x == events@[k as int]@ {
                    assert(list_get(before, x) + entries_of(name@, evs.take(k + 1), x) =~= (list_get(before, x) + entries_of(name@, evs.take(k as int), x)).push(name@));
                } else {
                    assert(list_get(before, x) + entries_of(name@, evs.take(k + 1), x) =~= list_get(before, x) + entries_of(name@, evs.take(k as int), x));
                }
            }
        }
        k += 1;
    }
    proof {
        assert(evs.take(events.len() as int) =~= evs);
    }
}

/// An empty event table.
fn empty_table() -> (r: Vec<(String, Vec<String>)>)
    ensures
        r@.len() == 0,
        keyed_when_nonempty(r@),
        forall|x: Seq<char>| #[trigger] list_get(r@, x) == Seq::<Seq<char>>::empty(),
{
    let r: Vec<(String, Vec<String>)> = Vec::new();
    proof {
        assert forall|x: Seq<char>| #[trigger] has_key(r@, x) <==> list_get(r@, x).len() > 0 by {
            assert(find_index(r@, x) == -1);
        }
        assert forall|x: Seq<char>| #[trigger] list_get(r@, x) == Seq::<Seq<char>>::empty() by {
            assert(find_index(r@, x) == -1);
        }
    }
    r
}

/// Position of the last entry named `k` (or -1).
pub open spec fn last_index_of<V>(s: Seq<(String, V)>, k: Seq<char>) -> int
    decreases s.len(),
{
    if s.len() == 0 {
        -1
    } else if s.last().0@ == k {
        s.len() - 1
    } else {
        last_index_of(s.drop_last(), k)
    }
}

pub proof fn lemma_last_index_of<V>(s: Seq<(String, V)>, k: Seq<char>)
    ensures
        -1 <= last_index_of(s, k) < s.len(),
        last_index_of(s, k) >= 0 ==> s[last_index_of(s, k)].0@ == k,
        last_index_of(s, k) < 0 <==> !(exists|j: int| 0 <= j < s.len() && s[j].0@ == k),
    decreases s.len(),
{
    if s.len() > 0 {
        lemma_last_index_of(s.drop_last(), k);
        if s.last().0@ != k {
            if exists|j: int| 0 <= j < s.len() && s[j].0@ == k {
                let j = choose|j: int| 0 <= j < s.len() && s[j].0@ == k;
                assert(s.drop_last()[j].0@ == k);
            }
        }
    }
}

pub proof fn lemma_last_index_of_take<V>(s: Seq<(String, V)>, k: int)
    requires
        0 <= k < s.len(),
    ensures
        last_index_of(s.take(k + 1), s[k].0@) == k,
        forall|n: Seq<char>| n != s[k].0@ ==> #[trigger] last_index_of(s.take(k + 1), n) == last_index_of(s.take(k), n),
{
    assert(s.take(k + 1).drop_last() =~= s.take(k));
}

/// The runtime tables agree with the model: each state's transition table
/// lists `chain_candidates` (the machine's, when it is no state, those of
/// its initial pseudostate), each state's deferred set is what it and its
/// ancestors defer, and each state's history entries are `history_chain`.
pub open spec fn tables_consistent(m: Model) -> bool {
    &&& m.state_of(m.root()) is None ==> (table_get(m.transition_map@, m.root()) matches Some(t) && is_event_table(m, t@, initial_transitions(m, m.state.initial@)))
    &&& forall|n: Seq<char>| #[trigger] m.state_of(n) is Some ==> (table_get(m.transition_map@, n) matches Some(t) && is_event_table(m, t@, chain_candidates(m, climb(n, seq![]), root_candidates(m))))
    &&& forall|n: Seq<char>| #[trigger] m.state_of(n) is Some ==> (table_get(m.deferred_map@, n) matches Some(set) && is_event_set(set@, deferred_along(m, climb(n, seq![]))))
    &&& forall|n: Seq<char>| #[trigger] m.state_of(n) is Some ==> (table_get(m.history_updates@, n) matches Some(u) && updates_view(u@) == history_chain(m, n, n, spec_dirname(n)))
}

pub proof fn lemma_event_entries_members(a: Model, b: Model, cands: Seq<Seq<char>>, e: Seq<char>)
    requires
        a.members == b.members,
    ensures
        event_entries(a, cands, e) == event_entries(b, cands, e),
    decreases cands.len(),
{
    if cands.len() > 0 {
        lemma_event_entries_members(a, b, cands.drop_last(), e);
    }
}

pub proof fn lemma_root_names_members(a: Model, b: Model, s: Seq<(String, ElementVariant)>)
    requires
        a.state == b.state,
    ensures
        root_transition_names(a, s) == root_transition_names(b, s),
    decreases s.len(),
{
    if s.len() > 0 {
        lemma_root_names_members(a, b, s.drop_last());
    }
}

pub proof fn lemma_chain_members(a: Model, b: Model, path: Seq<Seq<char>>, rs: Seq<Seq<char>>)
    requires
        a.members == b.members,
        a.state == b.state,
    ensures
        chain_candidates(a, path, rs) == chain_candidates(b, path, rs),
    decreases path.len(),
{
    if path.len() > 0 {
        lemma_chain_members(a, b, path.drop_first(), rs);
    }
}

impl Element for Model {
    open spec fn spec_kind(&self) -> KindValue {
        self.state.vertex.element.kind
    }

    open spec fn spec_qualified_name(&self) -> Seq<char> {
        self.state.vertex.element.qualified_name@
    }

    fn kind(&self) -> KindValue {
        self.state.vertex.element.kind
    }

    fn qualified_name(&self) -> &str {
        self.state.vertex.element.qualified_name.as_str()
    }
}

proof fn lemma_history_chain_shape(m: Model, leaf: Seq<char>, child: Seq<char>, parent: Seq<char>)
    requires
        parent == spec_dirname(child),
    ensures
        forall|i: int| 0 <= i < history_chain(m, leaf, child, parent).len() ==> {
            let u = #[trigger] history_chain(m, leaf, child, parent)[i];
            u.deep_leaf == leaf && spec_dirname(u.shallow_child) == u.parent
        },
    decreases parent.len(),
{
    if !(parent.len() == 0 || parent == seq!['/'] || parent == child) && parent != m.root() {
        crate::path::lemma_dirname_shorter(parent);
        lemma_history_chain_shape(m, leaf, parent, spec_dirname(parent));
        let rest = history_chain(m, leaf, parent, spec_dirname(parent));
        let whole = history_chain(m, leaf, child, parent);
        let off = whole.len() - rest.len();
        assert forall|i: int| 0 <= i < whole.len() implies {
            let u = #[trigger] whole[i];
            u.deep_leaf == leaf && spec_dirname(u.shallow_child) == u.parent
        } by {
            if i >= off {
                assert(whole[i] == rest[i - off]);
            }
        }
    }
}

proof fn lemma_history_chain_on_path(m: Model, leaf: Seq<char>, child: Seq<char>, parent: Seq<char>)
    requires
        parent == spec_dirname(child),
        crate::path::is_abs_name(leaf),
        crate::path::is_abs_name(child),
        spec_is_ancestor_or_equal(child, leaf),
    ensures
        forall|i: int| 0 <= i < history_chain(m, leaf, child, parent).len() ==> spec_is_ancestor_or_equal(
            (#[trigger] history_chain(m, leaf, child, parent)[i]).shallow_child,
            leaf,
        ),
    decreases parent.len(),
{
    if !(parent.len() == 0 || parent == seq!['/'] || parent == child) && parent != m.root() {
        crate::path::lemma_dirname_shorter(parent);
        crate::path::lemma_dirname_above(child);
        crate::path::lemma_ancestor_trans(parent, child, leaf);
        lemma_history_chain_on_path(m, leaf, parent, spec_dirname(parent));
        let rest = history_chain(m, leaf, parent, spec_dirname(parent));
        let whole = history_chain(m, leaf, child, parent);
        let off = whole.len() - rest.len();
        assert forall|i: int| 0 <= i < whole.len() implies spec_is_ancestor_or_equal(
            (#[trigger] whole[i]).shallow_child,
            leaf,
        ) by {
            if i >= off {
                assert(whole[i] == rest[i - off]);
            }
        }
    }
}

/// Leaving the state `n` records, for each state (or the machine) around
/// it, the direct child through which `n` was reached (shallow history)
/// and `n` itself (deep history): every update the model lists for `n`
/// has a shallow child directly under its parent and on the way down to
/// `n`, and `n` as its deep leaf.
pub proof fn law_history_updates_shape(m: Model, n: Seq<char>)
    requires
        tables_consistent(m),
        m.state_of(n) is Some,
        crate::path::is_abs_name(n),
    ensures
        table_get(m.history_updates@, n) matches Some(ups) && forall|i: int| 0 <= i < ups@.len() ==> {
            let u = #[trigger] ups@[i]@;
            &&& u.deep_leaf == n
            &&& spec_dirname(u.shallow_child) == u.parent
            &&& spec_is_ancestor_or_equal(u.shallow_child, n)
        },
{
    lemma_history_chain_shape(m, n, n, spec_dirname(n));
    lemma_history_chain_on_path(m, n, n, spec_dirname(n));
    let ups = table_get(m.history_updates@, n)->0;
    assert forall|i: int| 0 <= i < ups@.len() implies {
        let u = #[trigger] ups@[i]@;
        &&& u.deep_leaf == n
        &&& spec_dirname(u.shallow_child) == u.parent
        &&& spec_is_ancestor_or_equal(u.shallow_child, n)
    } by {
        assert(updates_view(ups@)[i] == ups@[i]@);
    }
}

/// The updates recorded on leaving `leaf` have the same shape, whatever the
/// model's tables hold: each shallow child is directly under its parent and
/// each deep leaf is `leaf`.
pub proof fn law_history_chain_shape(m: Model, leaf: Seq<char>)
    ensures
        forall|i: int| 0 <= i < history_chain(m, leaf, leaf, spec_dirname(leaf)).len() ==> {
            let u = #[trigger] history_chain(m, leaf, leaf, spec_dirname(leaf))[i];
            u.deep_leaf == leaf && spec_dirname(u.shallow_child) == u.parent
        },
{
    lemma_history_chain_shape(m, leaf, leaf, spec_dirname(leaf));
}

} // verus!
