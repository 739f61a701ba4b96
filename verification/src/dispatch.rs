//! The decisions a running machine takes on an event: under which names it is
//! looked up, which transitions are tried and in what order, and where it is
//! deferred.

use vstd::prelude::*;

use crate::assoc::{self, table_get};
use crate::element::names_view;
use crate::event::{call_trigger_name, call_trigger_view, Event, EventView};
use crate::kind::{self, spec_is_kind};
use crate::model::{list_get, Model};
use crate::path::{dirname, is_ancestor_or_equal, lemma_dirname_shorter, spec_dirname, spec_is_ancestor_or_equal};
use crate::text;

verus! {

/// The wildcard event name.
pub open spec fn any_name() -> Seq<char> {
    seq!['*']
}

/// The names an event answers to: its own, and the call trigger of a call event.
pub open spec fn spec_event_names(e: EventView) -> Seq<Seq<char>> {
    if spec_is_kind(e.kind, kind::CALL_EVENT) {
        seq![e.name, call_trigger_view(e.name)]
    } else {
        seq![e.name]
    }
}

/// The names under which transitions are looked up for an event: its names,
/// then the wildcard unless the event is the wildcard itself.
pub open spec fn spec_lookup_names(e: EventView) -> Seq<Seq<char>> {
    if e.name == any_name() {
        spec_event_names(e)
    } else {
        spec_event_names(e).push(any_name())
    }
}

/// The names an event answers to.
pub fn event_names(event: &Event) -> (r: Vec<String>)
    ensures
        names_view(r@) == spec_event_names(event@),
{
    let mut names: Vec<String> = Vec::new();
    names.push(event.name.clone());
    if kind::is_kind(event.kind, kind::CALL_EVENT) {
        names.push(call_trigger_name(event.name.as_str()));
    }
    assert(names_view(names@) =~= spec_event_names(event@));
    names
}

/// The names under which transitions are looked up for an event.
pub fn lookup_names(event: &Event) -> (r: Vec<String>)
    ensures
        names_view(r@) == spec_lookup_names(event@),
{
    let mut names = event_names(event);
    proof {
        reveal_strlit("*");
        assert("*"@ =~= any_name());
    }
    if !text::str_eq(event.name.as_str(), "*") {
        let ghost before = names@;
        names.push(text::owned("*"));
        assert(names_view(names@) =~= names_view(before).push(any_name()));
    }
    names
}

/// The events a state defers (the machine's own list for the machine).
pub open spec fn deferred_names(m: Model, state: Seq<char>) -> Seq<Seq<char>> {
    if state == m.root() {
        m.state@.deferred
    } else {
        match m.state_of(state) {
            Some(s) => s.deferred,
            None => seq![],
        }
    }
}

/// `state` defers `name`, by name or by the wildcard.
pub open spec fn spec_is_deferred_in_state(m: Model, state: Seq<char>, name: Seq<char>) -> bool {
    deferred_names(m, state).contains(name) || deferred_names(m, state).contains(any_name())
}

/// Whether `state` defers the event named `event_name`.
pub fn is_deferred_in_state(model: &Model, state: &str, event_name: &str) -> (r: bool)
    ensures
        r == spec_is_deferred_in_state(*model, state@, event_name@),
{
    proof {
        reveal_strlit("*");
        assert("*"@ =~= any_name());
    }
    let deferred: &Vec<String> = if text::str_eq(state, model.state.vertex.element.qualified_name.as_str()) {
        &model.state.deferred
    } else {
        match model.get_state(state) {
            Some(s) => &s.deferred,
            None => {
                assert(deferred_names(*model, state@) =~= Seq::<Seq<char>>::empty());
                return false;
            },
        }
    };
    assert(names_view(deferred@) == deferred_names(*model, state@));
    let mut i: usize = 0;
    while i < deferred.len()
        invariant
            0 <= i <= deferred.len(),
            "*"@ == any_name(),
            names_view(deferred@) == deferred_names(*model, state@),
            forall|k: int| 0 <= k < i ==> deferred@[k]@ != event_name@ && deferred@[k]@ != any_name(),
        decreases deferred.len() - i,
    {
        if text::str_eq(deferred[i].as_str(), event_name) || text::str_eq(deferred[i].as_str(), "*") {
            assert(names_view(deferred@)[i as int] == deferred@[i as int]@);
            return true;
        }
        i += 1;
    }
    assert forall|k: int| 0 <= k < deferred.len() implies names_view(deferred@)[k] != event_name@
        && names_view(deferred@)[k] != any_name() by {
        assert(names_view(deferred@)[k] == deferred@[k]@);
    }
    false
}

/// Some name of `names` is deferred by `state`.
pub open spec fn defers_any(m: Model, state: Seq<char>, names: Seq<Seq<char>>) -> bool {
    exists|i: int| 0 <= i < names.len() && spec_is_deferred_in_state(m, state, #[trigger] names[i])
}

/// Whether `state` defers one of `names`.
pub fn defers_any_name(model: &Model, state: &str, names: &Vec<String>) -> (r: bool)
    ensures
        r == defers_any(*model, state@, names_view(names@)),
{
    let mut i: usize = 0;
    while i < names.len()
        invariant
            0 <= i <= names.len(),
            forall|k: int| 0 <= k < i ==> !spec_is_deferred_in_state(*model, state@, #[trigger] names_view(names@)[k]),
        decreases names.len() - i,
    {
        if is_deferred_in_state(model, state, names[i].as_str()) {
            assert(names_view(names@)[i as int] == names@[i as int]@);
            return true;
        }
        assert(names_view(names@)[i as int] == names@[i as int]@);
        i += 1;
    }
    false
}

/// The initial vertex of a level of the selection walk.
pub open spec fn level_initial(m: Model, level: Seq<char>) -> Seq<char> {
    if level == m.root() {
        m.state@.initial
    } else {
        match m.state_of(level) {
            Some(s) => s.initial,
            None => seq![],
        }
    }
}

/// Transition `t`, found under `name`, is tried at `level`: it leaves
/// `level` itself (and is not shadowed by a deferral there), or it leaves the
/// initial vertex of `level`.
pub open spec fn source_matches(m: Model, level: Seq<char>, name: Seq<char>, t: crate::element::TransitionView) -> bool {
    if t.source == level {
        let owner = spec_dirname(t.element.qualified_name);
        owner == level || spec_dirname(level) == m.root() || spec_is_ancestor_or_equal(level, owner)
            || !spec_is_deferred_in_state(m, level, name)
    } else {
        level_initial(m, level) == t.source
    }
}

/// The transition named `tname` exists and is tried at `level`.
pub open spec fn is_candidate(m: Model, level: Seq<char>, name: Seq<char>, tname: Seq<char>) -> bool {
    match m.transition_of(tname) {
        Some(t) => source_matches(m, level, name, t),
        None => false,
    }
}

/// One step of the selection walk: try a transition (its guard decides), or
/// stop and defer the event.
pub enum SelectionStep {
    Candidate(String),
    Defer,
}

pub enum SelectionStepView {
    Candidate(Seq<char>),
    Defer,
}

impl View for SelectionStep {
    type V = SelectionStepView;

    open spec fn view(&self) -> SelectionStepView {
        match self {
            SelectionStep::Candidate(n) => SelectionStepView::Candidate(n@),
            SelectionStep::Defer => SelectionStepView::Defer,
        }
    }
}

pub open spec fn steps_view(s: Seq<SelectionStep>) -> Seq<SelectionStepView> {
    s.map_values(|x: SelectionStep| x@)
}

/// The candidates among the transitions `ts` listed under `name`, in order.
pub open spec fn candidates_in(m: Model, level: Seq<char>, name: Seq<char>, ts: Seq<Seq<char>>) -> Seq<SelectionStepView>
    decreases ts.len(),
{
    if ts.len() == 0 {
        seq![]
    } else {
        let rest = candidates_in(m, level, name, ts.drop_last());
        if is_candidate(m, level, name, ts.last()) {
            rest.push(SelectionStepView::Candidate(ts.last()))
        } else {
            rest
        }
    }
}

/// The candidates of one level: for each lookup name in order, those listed
/// under it in the event table.
pub open spec fn level_steps(m: Model, table: Seq<(String, Vec<String>)>, names: Seq<Seq<char>>, level: Seq<char>) -> Seq<SelectionStepView>
    decreases names.len(),
{
    if names.len() == 0 {
        seq![]
    } else {
        level_steps(m, table, names.drop_last(), level) + candidates_in(
            m,
            level,
            names.last(),
            list_get(table, names.last()),
        )
    }
}

/// The walk from `level` up: the candidates of each level, then either a
/// deferral (when the level defers one of the names), or the next level
/// (until the machine, or a level directly under the root `/`).
pub open spec fn plan_from(m: Model, table: Seq<(String, Vec<String>)>, names: Seq<Seq<char>>, level: Seq<char>) -> Seq<SelectionStepView>
    decreases level.len(),
{
    let here = level_steps(m, table, names, level);
    if defers_any(m, level, names) {
        here.push(SelectionStepView::Defer)
    } else if level == m.root() {
        here
    } else {
        let parent = spec_dirname(level);
        if parent == level || parent == seq!['/'] {
            here
        } else {
            proof {
                if level.len() > 0 {
                    lemma_dirname_shorter(level);
                } else {
                    assert(level =~= parent);
                }
            }
            here + plan_from(m, table, names, parent)
        }
    }
}

/// The event table of a state (empty when it has none).
pub open spec fn event_table(m: Model, state: Seq<char>) -> Seq<(String, Vec<String>)> {
    match table_get(m.transition_map@, state) {
        Some(t) => t@,
        None => seq![],
    }
}

/// The selection walk for `event` in `current`: the transitions to try, in
/// order, the first whose guard holds being taken; a `Defer` step ends it
/// with the event deferred; running off its end leaves the event unhandled.
pub open spec fn spec_selection_plan(m: Model, current: Seq<char>, e: EventView) -> Seq<SelectionStepView> {
    plan_from(m, event_table(m, current), spec_lookup_names(e), current)
}

fn candidate_at(model: &Model, level: &str, name: &str, tname: &str) -> (r: bool)
    ensures
        r == is_candidate(*model, level@, name@, tname@),
{
    proof {
        reveal_strlit("");
        assert(""@ =~= Seq::<char>::empty());
    }
    match model.get_transition(tname) {
        None => false,
        Some(t) => {
            if text::str_eq(t.source.as_str(), level) {
                let owner = dirname(t.element.qualified_name.as_str());
                text::str_eq(owner, level) || text::str_eq(
                    dirname(level),
                    model.state.vertex.element.qualified_name.as_str(),
                ) || is_ancestor_or_equal(level, owner) || !is_deferred_in_state(model, level, name)
            } else {
                let initial: &str = if text::str_eq(level, model.state.vertex.element.qualified_name.as_str()) {
                    model.state.initial.as_str()
                } else {
                    match model.get_state(level) {
                        Some(s) => s.initial.as_str(),
                        None => "",
                    }
                };
                text::str_eq(initial, t.source.as_str())
            }
        },
    }
}

fn push_candidates(model: &Model, level: &str, name: &str, ts: &Vec<String>, out: &mut Vec<SelectionStep>)
    ensures
        steps_view(final(out)@) == steps_view(old(out)@) + candidates_in(*model, level@, name@, names_view(ts@)),
{
    let ghost start = out@;
    let mut i: usize = 0;
    while i < ts.len()
        invariant
            0 <= i <= ts.len(),
            steps_view(out@) == steps_view(start) + candidates_in(
                *model,
                level@,
                name@,
                names_view(ts@).subrange(0, i as int),
            ),
        decreases ts.len() - i,
    {
        let ghost before = out@;
        let ghost pre = names_view(ts@).subrange(0, i as int + 1);
        assert(pre.drop_last() =~= names_view(ts@).subrange(0, i as int));
        assert(pre.last() == ts@[i as int]@);
        if candidate_at(model, level, name, ts[i].as_str()) {
            out.push(SelectionStep::Candidate(ts[i].clone()));
            assert(steps_view(out@) =~= steps_view(before).push(SelectionStepView::Candidate(ts@[i as int]@)));
        }
        i += 1;
    }
    assert(names_view(ts@).subrange(0, ts.len() as int) =~= names_view(ts@));
}

fn push_level_steps(model: &Model, table: &Vec<(String, Vec<String>)>, names: &Vec<String>, level: &str, out: &mut Vec<SelectionStep>)
    ensures
        steps_view(final(out)@) == steps_view(old(out)@) + level_steps(*model, table@, names_view(names@), level@),
{
    let ghost start = out@;
    let mut i: usize = 0;
    while i < names.len()
        invariant
            0 <= i <= names.len(),
            steps_view(out@) == steps_view(start) + level_steps(
                *model,
                table@,
                names_view(names@).subrange(0, i as int),
                level@,
            ),
        decreases names.len() - i,
    {
        let ghost before = out@;
        let ghost pre = names_view(names@).subrange(0, i as int + 1);
        assert(pre.drop_last() =~= names_view(names@).subrange(0, i as int));
        assert(pre.last() == names@[i as int]@);
        proof {
            assoc::lemma_find_index(table@, names@[i as int]@);
        }
        match assoc::get(table, names[i].as_str()) {
            Some(ts) => {
                push_candidates(model, level, names[i].as_str(), ts, out);
            },
            None => {},
        }
        assert(steps_view(out@) =~= steps_view(start) + level_steps(*model, table@, pre, level@));
        i += 1;
    }
    assert(names_view(names@).subrange(0, names.len() as int) =~= names_view(names@));
}

/// The selection walk for `event` in `current_state` (see `spec_selection_plan`).
pub fn selection_plan(model: &Model, current_state: &str, event: &Event) -> (r: Vec<SelectionStep>)
    ensures
        steps_view(r@) == spec_selection_plan(*model, current_state@, event@),
{
    let names = lookup_names(event);
    let empty: Vec<(String, Vec<String>)> = Vec::new();
    proof {
        assoc::lemma_find_index(model.transition_map@, current_state@);
    }
    let table: &Vec<(String, Vec<String>)> = match assoc::get(&model.transition_map, current_state) {
        Some(t) => t,
        None => &empty,
    };
    assert(table@ == event_table(*model, current_state@));
    proof {
        reveal_strlit("/");
        assert("/"@ =~= seq!['/']);
    }
    let ghost whole = plan_from(*model, table@, names_view(names@), current_state@);
    assert(steps_view(Seq::<SelectionStep>::empty()) + whole =~= whole);
    let mut out: Vec<SelectionStep> = Vec::new();
    let mut level: String = text::owned(current_state);
    loop
        invariant
            "/"@ == seq!['/'],
            whole == spec_selection_plan(*model, current_state@, event@),
            table@ == event_table(*model, current_state@),
            names_view(names@) == spec_lookup_names(event@),
            steps_view(out@) + plan_from(*model, table@, names_view(names@), level@) == whole,
        decreases level@.len(),
    {
        let ghost before = out@;
        let ghost here = level_steps(*model, table@, names_view(names@), level@);
        push_level_steps(model, table, &names, level.as_str(), &mut out);
        if defers_any_name(model, level.as_str(), &names) {
            let ghost mid = out@;
            out.push(SelectionStep::Defer);
            assert(steps_view(out@) =~= steps_view(mid).push(SelectionStepView::Defer));
            assert(steps_view(out@) =~= steps_view(before) + here.push(SelectionStepView::Defer));
            return out;
        }
        if text::str_eq(level.as_str(), model.state.vertex.element.qualified_name.as_str()) {
            assert(steps_view(out@) + seq![] =~= whole);
            return out;
        }
        let parent = dirname(level.as_str());
        if text::str_eq(parent, level.as_str()) || text::str_eq(parent, "/") {
            assert(steps_view(out@) + seq![] =~= whole);
            return out;
        }
        proof {
            if level@.len() > 0 {
                lemma_dirname_shorter(level@);
            } else {
                assert(level@ =~= parent@);
            }
        }
        assert(steps_view(out@) + plan_from(*model, table@, names_view(names@), parent@) =~= whole);
        level = text::owned(parent);
    }
}

/// The nearest state, from `level` up, that defers one of `names`.
pub open spec fn owner_from(m: Model, names: Seq<Seq<char>>, level: Seq<char>) -> Option<Seq<char>>
    decreases level.len(),
{
    if defers_any(m, level, names) {
        Some(level)
    } else if level == m.root() {
        None
    } else {
        let parent = spec_dirname(level);
        if parent == level || parent == seq!['/'] {
            None
        } else {
            proof {
                if level.len() > 0 {
                    lemma_dirname_shorter(level);
                } else {
                    assert(level =~= parent);
                }
            }
            owner_from(m, names, parent)
        }
    }
}

/// The state that holds a deferred event: the nearest one, from the current
/// state up, that defers one of its names.
pub open spec fn spec_deferred_owner(m: Model, current: Seq<char>, e: EventView) -> Option<Seq<char>> {
    owner_from(m, spec_event_names(e), current)
}

/// The state that holds `event` when it is deferred in `current_state`.
pub fn deferred_owner(model: &Model, current_state: &str, event: &Event) -> (r: Option<String>)
    ensures
        crate::element::opt_name_view(r) == spec_deferred_owner(*model, current_state@, event@),
{
    let names = event_names(event);
    proof {
        reveal_strlit("/");
        assert("/"@ =~= seq!['/']);
    }
    let mut level: String = text::owned(current_state);
    loop
        invariant
            "/"@ == seq!['/'],
            names_view(names@) == spec_event_names(event@),
            owner_from(*model, names_view(names@), level@) == spec_deferred_owner(*model, current_state@, event@),
        decreases level@.len(),
    {
        if defers_any_name(model, level.as_str(), &names) {
            return Some(level);
        }
        if text::str_eq(level.as_str(), model.state.vertex.element.qualified_name.as_str()) {
            return None;
        }
        let parent = dirname(level.as_str());
        if text::str_eq(parent, level.as_str()) || text::str_eq(parent, "/") {
            return None;
        }
        proof {
            if level@.len() > 0 {
                lemma_dirname_shorter(level@);
            } else {
                assert(level@ =~= parent@);
            }
        }
        level = text::owned(parent);
    }
}

/// `a` names a submachine state of the model.
pub open spec fn is_submachine(m: Model, a: Seq<char>) -> bool {
    match m.state_of(a) {
        Some(s) => spec_is_kind(s.vertex.element.kind, kind::SUBMACHINE_STATE),
        None => false,
    }
}

/// Going up from `a`: at the first submachine state that is no longer
/// active, the event survives only when the transition left from inside it.
pub open spec fn survives_from(m: Model, a: Seq<char>, current: Seq<char>, source: Seq<char>) -> bool
    decreases a.len(),
{
    if a == m.root() || a == seq!['/'] || a.len() == 0 {
        true
    } else if is_submachine(m, a) && !spec_is_ancestor_or_equal(a, current) {
        spec_is_ancestor_or_equal(a, source) && a != source
    } else {
        let parent = spec_dirname(a);
        if parent == a {
            true
        } else {
            proof {
                lemma_dirname_shorter(a);
            }
            survives_from(m, parent, current, source)
        }
    }
}

/// A deferred event held by `owner` is replayed after a transition from
/// `source` that led to `current`, unless a submachine state around its owner
/// was left by a transition from outside it.
pub open spec fn spec_deferred_event_survives(m: Model, owner: Seq<char>, current: Seq<char>, source: Seq<char>) -> bool {
    survives_from(m, spec_dirname(owner), current, source)
}

/// Whether an event deferred by `owner` is replayed after a transition from
/// `transition_source` that led to `current_state`.
pub fn deferred_event_survives(model: &Model, owner: &str, current_state: &str, transition_source: &str) -> (r: bool)
    ensures
        r == spec_deferred_event_survives(*model, owner@, current_state@, transition_source@),
{
    proof {
        reveal_strlit("/");
        assert("/"@ =~= seq!['/']);
    }
    let root = model.state.vertex.element.qualified_name.as_str();
    let mut ancestor: String = text::owned(dirname(owner));
    loop
        invariant
            "/"@ == seq!['/'],
            root@ == model.root(),
            survives_from(*model, ancestor@, current_state@, transition_source@)
                == spec_deferred_event_survives(*model, owner@, current_state@, transition_source@),
        decreases ancestor@.len(),
    {
        if text::str_eq(ancestor.as_str(), root) || text::str_eq(ancestor.as_str(), "/") || text::char_len(
            ancestor.as_str(),
        ) == 0 {
            return true;
        }
        let sub = match model.get_state(ancestor.as_str()) {
            Some(s) => kind::is_kind(s.vertex.element.kind, kind::SUBMACHINE_STATE),
            None => false,
        };
        if sub && !is_ancestor_or_equal(ancestor.as_str(), current_state) {
            return is_ancestor_or_equal(ancestor.as_str(), transition_source) && !text::str_eq(
                ancestor.as_str(),
                transition_source,
            );
        }
        let parent = dirname(ancestor.as_str());
        if text::str_eq(parent, ancestor.as_str()) {
            return true;
        }
        proof {
            lemma_dirname_shorter(ancestor@);
        }
        ancestor = text::owned(parent);
    }
}

/// The states exited when the machine leaves `x`: `x` and its owners that
/// are states, nearest first, up to (not including) the machine.
pub open spec fn spec_active_exit_path(m: Model, x: Seq<char>) -> Seq<Seq<char>>
    decreases x.len(),
{
    if x.len() == 0 || x == m.root() {
        seq![]
    } else {
        let head = if m.state_of(x) is Some {
            seq![x]
        } else {
            seq![]
        };
        let parent = spec_dirname(x);
        if parent == x {
            head
        } else {
            proof {
                lemma_dirname_shorter(x);
            }
            head + spec_active_exit_path(m, parent)
        }
    }
}

/// The states left, innermost first, when the machine stops in `current_state`.
pub fn active_exit_path(model: &Model, current_state: &str) -> (r: Vec<String>)
    ensures
        names_view(r@) == spec_active_exit_path(*model, current_state@),
{
    let root = model.state.vertex.element.qualified_name.as_str();
    let mut path: Vec<String> = Vec::new();
    let mut current: String = text::owned(current_state);
    loop
        invariant
            root@ == model.root(),
            names_view(path@) + spec_active_exit_path(*model, current@) == spec_active_exit_path(
                *model,
                current_state@,
            ),
        decreases current@.len(),
    {
        if text::char_len(current.as_str()) == 0 || text::str_eq(current.as_str(), root) {
            assert(names_view(path@) + seq![] =~= names_view(path@));
            return path;
        }
        let ghost before = path@;
        if model.get_state(current.as_str()).is_some() {
            path.push(current.clone());
            assert(names_view(path@) =~= names_view(before) + seq![current@]);
        } else {
            assert(names_view(path@) =~= names_view(before) + Seq::<Seq<char>>::empty());
        }
        let parent = dirname(current.as_str());
        if text::str_eq(parent, current.as_str()) {
            assert(names_view(path@) + seq![] =~= names_view(path@));
            return path;
        }
        proof {
            lemma_dirname_shorter(current@);
        }
        let ghost head = if model.state_of(current@) is Some {
            seq![current@]
        } else {
            Seq::<Seq<char>>::empty()
        };
        assert(names_view(path@) =~= names_view(before) + head);
        assert(names_view(before) + (head + spec_active_exit_path(*model, parent@)) =~= names_view(path@)
            + spec_active_exit_path(*model, parent@));
        current = text::owned(parent);
    }
}

/// Whether a byte pattern matches a byte text: `*` matches any run of bytes,
/// `?` any one byte, every other byte itself.
pub open spec fn glob_matches(p: Seq<u8>, t: Seq<u8>) -> bool
    decreases p.len(), t.len(),
{
    if p.len() == 0 {
        t.len() == 0
    } else if p[0] == 42u8 {
        glob_matches(p.drop_first(), t) || (t.len() > 0 && glob_matches(p, t.drop_first()))
    } else if p[0] == 63u8 {
        t.len() > 0 && glob_matches(p.drop_first(), t.drop_first())
    } else {
        t.len() > 0 && p[0] == t[0] && glob_matches(p.drop_first(), t.drop_first())
    }
}

fn glob_from(p: &Vec<u8>, i: usize, t: &Vec<u8>, j: usize) -> (r: bool)
    requires
        i <= p.len(),
        j <= t.len(),
    ensures
        r == glob_matches(p@.subrange(i as int, p.len() as int), t@.subrange(j as int, t.len() as int)),
    decreases p.len() - i, t.len() - j,
{
    let ghost ps = p@.subrange(i as int, p.len() as int);
    let ghost ts = t@.subrange(j as int, t.len() as int);
    if i == p.len() {
        return j == t.len();
    }
    assert(ps[0] == p@[i as int]);
    assert(ps.drop_first() =~= p@.subrange(i as int + 1, p.len() as int));
    if j < t.len() {
        assert(ts[0] == t@[j as int]);
        assert(ts.drop_first() =~= t@.subrange(j as int + 1, t.len() as int));
    }
    if p[i] == 42u8 {
        glob_from(p, i + 1, t, j) || (j < t.len() && glob_from(p, i, t, j + 1))
    } else if p[i] == 63u8 {
        j < t.len() && glob_from(p, i + 1, t, j + 1)
    } else {
        j < t.len() && p[i] == t[j] && glob_from(p, i + 1, t, j + 1)
    }
}

/// Whether a byte pattern matches a byte text (see `glob_matches`).
pub fn dispatch_pattern_matches(pattern: &Vec<u8>, text: &Vec<u8>) -> (r: bool)
    ensures
        r == glob_matches(pattern@, text@),
{
    assert(pattern@.subrange(0, pattern.len() as int) =~= pattern@);
    assert(text@.subrange(0, text.len() as int) =~= text@);
    glob_from(pattern, 0, text, 0)
}

/// A machine id is addressed by a pattern: the same text, or a pattern with
/// `*` or `?` that matches its bytes.
pub open spec fn spec_id_matches(pattern: Seq<char>, id: Seq<char>) -> bool {
    pattern == id || ((pattern.contains('*') || pattern.contains('?')) && glob_matches(
        vstd::utf8::encode_utf8(pattern),
        vstd::utf8::encode_utf8(id),
    ))
}

/// Whether the machine with id `id` is addressed by `pattern`.
pub fn dispatch_id_matches(pattern: &str, id: &str) -> (r: bool)
    ensures
        r == spec_id_matches(pattern@, id@),
{
    if text::str_eq(pattern, id) {
        return true;
    }
    if !text::contains_char(pattern, '*') && !text::contains_char(pattern, '?') {
        return false;
    }
    let p = pattern.as_bytes_vec();
    let t = id.as_bytes_vec();
    dispatch_pattern_matches(&p, &t)
}

/// A lone `*` matches every text.
pub proof fn law_star_matches_everything(t: Seq<u8>)
    ensures
        glob_matches(seq![42u8], t),
    decreases t.len(),
{
    let p = seq![42u8];
    assert(p.len() == 1 && p[0] == 42u8);
    assert(p.drop_first() =~= Seq::<u8>::empty());
    if t.len() > 0 {
        law_star_matches_everything(t.drop_first());
        assert(glob_matches(p, t.drop_first()));
    } else {
        assert(glob_matches(p.drop_first(), t));
    }
}

/// A pattern without `*` or `?` matches exactly the text equal to it.
pub proof fn law_plain_pattern_matches_itself_only(p: Seq<u8>, t: Seq<u8>)
    requires
        !p.contains(42u8),
        !p.contains(63u8),
    ensures
        glob_matches(p, t) <==> p == t,
    decreases p.len(),
{
    if p.len() == 0 {
        if t.len() == 0 {
            assert(p =~= t);
        }
    } else {
        assert(p[0] != 42u8 && p[0] != 63u8) by {
            if p[0] == 42u8 {
                assert(p.contains(42u8));
            }
            if p[0] == 63u8 {
                assert(p.contains(63u8));
            }
        }
        assert(!p.drop_first().contains(42u8) && !p.drop_first().contains(63u8)) by {
            if p.drop_first().contains(42u8) {
                let k = choose|k: int| 0 <= k < p.drop_first().len() && p.drop_first()[k] == 42u8;
                assert(p[k + 1] == 42u8);
            }
            if p.drop_first().contains(63u8) {
                let k = choose|k: int| 0 <= k < p.drop_first().len() && p.drop_first()[k] == 63u8;
                assert(p[k + 1] == 63u8);
            }
        }
        if t.len() > 0 {
            law_plain_pattern_matches_itself_only(p.drop_first(), t.drop_first());
            if p == t {
                assert(p.drop_first() =~= t.drop_first());
            }
            if p[0] == t[0] && p.drop_first() == t.drop_first() {
                assert forall|k: int| 0 <= k < p.len() implies p[k] == t[k] by {
                    if k > 0 {
                        assert(p[k] == p.drop_first()[k - 1]);
                        assert(t[k] == t.drop_first()[k - 1]);
                    }
                }
                assert(p =~= t);
            }
        } else {
            assert(p != t);
        }
    }
}

/// A walk stops at its first deferral: a `Defer` step can only be the last.
pub proof fn law_defer_ends_the_walk(m: Model, current: Seq<char>, e: EventView, i: int)
    requires
        0 <= i < spec_selection_plan(m, current, e).len() - 1,
    ensures
        spec_selection_plan(m, current, e)[i] is Candidate,
{
    lemma_plan_defer_last(m, event_table(m, current), spec_lookup_names(e), current, i);
}

proof fn lemma_level_steps_candidates(m: Model, table: Seq<(String, Vec<String>)>, names: Seq<Seq<char>>, level: Seq<char>)
    ensures
        forall|i: int|
            0 <= i < level_steps(m, table, names, level).len() ==> (#[trigger] level_steps(m, table, names, level)[i]
                matches SelectionStepView::Candidate(n) && m.transition_of(n) is Some),
    decreases names.len(),
{
    if names.len() > 0 {
        lemma_level_steps_candidates(m, table, names.drop_last(), level);
        lemma_candidates_in(m, level, names.last(), list_get(table, names.last()));
    }
}

proof fn lemma_candidates_in(m: Model, level: Seq<char>, name: Seq<char>, ts: Seq<Seq<char>>)
    ensures
        forall|i: int|
            0 <= i < candidates_in(m, level, name, ts).len() ==> (#[trigger] candidates_in(m, level, name, ts)[i]
                matches SelectionStepView::Candidate(n) && m.transition_of(n) is Some && ts.contains(n)),
    decreases ts.len(),
{
    if ts.len() > 0 {
        lemma_candidates_in(m, level, name, ts.drop_last());
        let rest = candidates_in(m, level, name, ts.drop_last());
        assert forall|i: int| 0 <= i < candidates_in(m, level, name, ts).len() implies (#[trigger] candidates_in(
            m,
            level,
            name,
            ts,
        )[i] matches SelectionStepView::Candidate(n) && m.transition_of(n) is Some && ts.contains(n)) by {
            if i < rest.len() {
                assert(candidates_in(m, level, name, ts)[i] == rest[i]);
                if let SelectionStepView::Candidate(n) = rest[i] {
                    let k = choose|k: int| 0 <= k < ts.drop_last().len() && ts.drop_last()[k] == n;
                    assert(ts[k] == n);
                }
            } else {
                assert(ts[ts.len() - 1] == ts.last());
            }
        }
    }
}

proof fn lemma_plan_defer_last(m: Model, table: Seq<(String, Vec<String>)>, names: Seq<Seq<char>>, level: Seq<char>, i: int)
    requires
        0 <= i < plan_from(m, table, names, level).len() - 1,
    ensures
        plan_from(m, table, names, level)[i] is Candidate,
    decreases level.len(),
{
    let here = level_steps(m, table, names, level);
    lemma_level_steps_candidates(m, table, names, level);
    if i < here.len() {
        assert(here[i] is Candidate);
        if defers_any(m, level, names) {
            assert(plan_from(m, table, names, level)[i] == here[i]);
        } else if level != m.root() {
            let parent = spec_dirname(level);
            if !(parent == level || parent == seq!['/']) {
                assert(plan_from(m, table, names, level)[i] == here[i]);
            }
        }
    } else {
        let parent = spec_dirname(level);
        if !defers_any(m, level, names) && level != m.root() && !(parent == level || parent == seq!['/']) {
            if level.len() > 0 {
                lemma_dirname_shorter(level);
            } else {
                assert(level =~= parent);
            }
            lemma_plan_defer_last(m, table, names, parent, i - here.len());
            assert(plan_from(m, table, names, level)[i] == plan_from(m, table, names, parent)[i - here.len()]);
        }
    }
}

/// Every transition the walk tries is a transition of the model.
pub proof fn law_walk_tries_model_transitions(m: Model, current: Seq<char>, e: EventView, i: int)
    requires
        0 <= i < spec_selection_plan(m, current, e).len(),
        spec_selection_plan(m, current, e)[i] matches SelectionStepView::Candidate(n),
    ensures
        spec_selection_plan(m, current, e)[i] matches SelectionStepView::Candidate(n) && m.transition_of(n) is Some,
{
    lemma_plan_candidates(m, event_table(m, current), spec_lookup_names(e), current, i);
}

proof fn lemma_plan_candidates(m: Model, table: Seq<(String, Vec<String>)>, names: Seq<Seq<char>>, level: Seq<char>, i: int)
    requires
        0 <= i < plan_from(m, table, names, level).len(),
        plan_from(m, table, names, level)[i] is Candidate,
    ensures
        plan_from(m, table, names, level)[i] matches SelectionStepView::Candidate(n) && m.transition_of(n) is Some,
    decreases level.len(),
{
    let here = level_steps(m, table, names, level);
    lemma_level_steps_candidates(m, table, names, level);
    let parent = spec_dirname(level);
    if i < here.len() {
        if defers_any(m, level, names) || level == m.root() || parent == level || parent == seq!['/'] {
            assert(plan_from(m, table, names, level)[i] == here[i]);
        } else {
            assert(plan_from(m, table, names, level)[i] == here[i]);
        }
    } else if !defers_any(m, level, names) && level != m.root() && !(parent == level || parent == seq!['/']) {
        if level.len() > 0 {
            lemma_dirname_shorter(level);
        } else {
            assert(level =~= parent);
        }
        assert(plan_from(m, table, names, level)[i] == plan_from(m, table, names, parent)[i - here.len()]);
        lemma_plan_candidates(m, table, names, parent, i - here.len());
    }
}

proof fn lemma_defers_any_lookup(m: Model, level: Seq<char>, e: EventView)
    ensures
        defers_any(m, level, spec_lookup_names(e)) == defers_any(m, level, spec_event_names(e)),
{
    let ln = spec_lookup_names(e);
    let en = spec_event_names(e);
    assert(ln[0] == en[0]);
    if defers_any(m, level, ln) {
        let i = choose|i: int| 0 <= i < ln.len() && spec_is_deferred_in_state(m, level, #[trigger] ln[i]);
        if i < en.len() {
            assert(ln[i] == en[i]);
        } else {
            assert(spec_is_deferred_in_state(m, level, en[0]));
        }
    }
    if defers_any(m, level, en) {
        let i = choose|i: int| 0 <= i < en.len() && spec_is_deferred_in_state(m, level, #[trigger] en[i]);
        assert(ln[i] == en[i]);
    }
}

proof fn lemma_walk_defers_iff_owner(m: Model, table: Seq<(String, Vec<String>)>, e: EventView, level: Seq<char>)
    ensures
        (plan_from(m, table, spec_lookup_names(e), level).len() > 0 && plan_from(
            m,
            table,
            spec_lookup_names(e),
            level,
        ).last() is Defer) <==> owner_from(m, spec_event_names(e), level) is Some,
    decreases level.len(),
{
    let names = spec_lookup_names(e);
    let here = level_steps(m, table, names, level);
    lemma_level_steps_candidates(m, table, names, level);
    lemma_defers_any_lookup(m, level, e);
    let parent = spec_dirname(level);
    if defers_any(m, level, names) {
    } else if level == m.root() || parent == level || parent == seq!['/'] {
        if here.len() > 0 {
            assert(here[here.len() - 1] is Candidate);
        }
    } else {
        if level.len() > 0 {
            lemma_dirname_shorter(level);
        } else {
            assert(level =~= parent);
        }
        lemma_walk_defers_iff_owner(m, table, e, parent);
        let rest = plan_from(m, table, names, parent);
        if rest.len() > 0 {
            assert((here + rest).last() == rest.last());
        } else {
            assert(here + rest =~= here);
            if here.len() > 0 {
                assert(here[here.len() - 1] is Candidate);
            }
        }
    }
}

/// The walk ends in a deferral exactly when some state holds the event: the
/// deferred owner exists.
pub proof fn law_deferred_walk_has_owner(m: Model, current: Seq<char>, e: EventView)
    ensures
        (spec_selection_plan(m, current, e).len() > 0 && spec_selection_plan(m, current, e).last() is Defer)
            <==> spec_deferred_owner(m, current, e) is Some,
{
    lemma_walk_defers_iff_owner(m, event_table(m, current), e, current);
}

/// The owner of a deferred event defers one of the event's names.
pub proof fn law_owner_defers_the_event(m: Model, current: Seq<char>, e: EventView)
    requires
        spec_deferred_owner(m, current, e) is Some,
    ensures
        defers_any(m, spec_deferred_owner(m, current, e)->0, spec_event_names(e)),
{
    lemma_owner_defers(m, spec_event_names(e), current);
}

proof fn lemma_owner_defers(m: Model, names: Seq<Seq<char>>, level: Seq<char>)
    requires
        owner_from(m, names, level) is Some,
    ensures
        defers_any(m, owner_from(m, names, level)->0, names),
    decreases level.len(),
{
    let parent = spec_dirname(level);
    if !defers_any(m, level, names) && level != m.root() && !(parent == level || parent == seq!['/']) {
        if level.len() > 0 {
            lemma_dirname_shorter(level);
        } else {
            assert(level =~= parent);
        }
        lemma_owner_defers(m, names, parent);
    }
}

/// Transitions of the current state come first: when the current state has
/// candidates of its own, the walk begins with them, in order.
pub proof fn law_current_state_tried_first(m: Model, current: Seq<char>, e: EventView, i: int)
    requires
        0 <= i < level_steps(m, event_table(m, current), spec_lookup_names(e), current).len(),
    ensures
        spec_selection_plan(m, current, e)[i] == level_steps(m, event_table(m, current), spec_lookup_names(e), current)[i],
{
    let table = event_table(m, current);
    let names = spec_lookup_names(e);
    let here = level_steps(m, table, names, current);
    let parent = spec_dirname(current);
    if !defers_any(m, current, names) && current != m.root() && !(parent == current || parent == seq!['/']) {
        if current.len() > 0 {
            lemma_dirname_shorter(current);
        } else {
            assert(current =~= parent);
        }
        assert((here + plan_from(m, table, names, parent))[i] == here[i]);
    }
}

/// Within one level and one lookup name, the transitions tried are exactly
/// those listed under that name that are tried at that level, in the order
/// of the list: one listed earlier is tried earlier.
pub proof fn law_candidates_keep_list_order(m: Model, level: Seq<char>, name: Seq<char>, ts: Seq<Seq<char>>)
    ensures
        candidates_in(m, level, name, ts) == ts.filter(|n: Seq<char>| is_candidate(m, level, name, n)).map_values(
            |n: Seq<char>| SelectionStepView::Candidate(n),
        ),
    decreases ts.len(),
{
    reveal(Seq::filter);
    let f = |n: Seq<char>| is_candidate(m, level, name, n);
    let g = |n: Seq<char>| SelectionStepView::Candidate(n);
    if ts.len() == 0 {
        assert(ts.filter(f).map_values(g) =~= Seq::<SelectionStepView>::empty());
    } else {
        law_candidates_keep_list_order(m, level, name, ts.drop_last());
        let sub = ts.drop_last().filter(f);
        if f(ts.last()) {
            assert(sub.push(ts.last()).map_values(g) =~= sub.map_values(g).push(g(ts.last())));
        }
    }
}

/// The owners of `a` going up: `a` itself, its owner, and so on.
pub open spec fn owner_at(a: Seq<char>, k: nat) -> Seq<char>
    decreases k,
{
    if k == 0 {
        a
    } else {
        owner_at(spec_dirname(a), (k - 1) as nat)
    }
}

proof fn lemma_survives_without_submachines(m: Model, a: Seq<char>, current: Seq<char>, source: Seq<char>)
    requires
        forall|k: nat| !is_submachine(m, #[trigger] owner_at(a, k)),
    ensures
        survives_from(m, a, current, source),
    decreases a.len(),
{
    assert(owner_at(a, 0) == a);
    if !(a == m.root() || a == seq!['/'] || a.len() == 0) {
        let parent = spec_dirname(a);
        if parent != a {
            lemma_dirname_shorter(a);
            assert forall|k: nat| !is_submachine(m, #[trigger] owner_at(parent, k)) by {
                assert(owner_at(a, k + 1) == owner_at(parent, k));
            }
            lemma_survives_without_submachines(m, parent, current, source);
        }
    }
}

/// When no state around the owner of a deferred event (its owner's owner,
/// and so on up) is a submachine state, the event is replayed after any
/// transition.
pub proof fn law_deferred_survives_without_submachines(m: Model, owner: Seq<char>, current: Seq<char>, source: Seq<char>)
    requires
        forall|k: nat| !is_submachine(m, #[trigger] owner_at(spec_dirname(owner), k)),
    ensures
        spec_deferred_event_survives(m, owner, current, source),
{
    lemma_survives_without_submachines(m, spec_dirname(owner), current, source);
}

/// A `*` matches any run of bytes wherever it stands: a `*` put before a
/// pattern that matches `t` matches `t` with anything put before it.
pub proof fn law_star_matches_any_prefix(p: Seq<u8>, u: Seq<u8>, t: Seq<u8>)
    requires
        glob_matches(p, t),
    ensures
        glob_matches(seq![42u8] + p, u + t),
    decreases u.len(),
{
    let q = seq![42u8] + p;
    assert(q[0] == 42u8);
    assert(q.drop_first() =~= p);
    if u.len() == 0 {
        assert(u + t =~= t);
    } else {
        law_star_matches_any_prefix(p, u.drop_first(), t);
        assert((u + t).drop_first() =~= u.drop_first() + t);
    }
}

proof fn lemma_dropped_at(m: Model, a: Seq<char>, k: nat, current: Seq<char>, source: Seq<char>)
    requires
        is_submachine(m, owner_at(a, k)),
        !spec_is_ancestor_or_equal(owner_at(a, k), current),
        !spec_is_ancestor_or_equal(owner_at(a, k), source),
        forall|i: nat| i < k ==> {
            let x = #[trigger] owner_at(a, i);
            &&& x != m.root() && x != seq!['/'] && x.len() > 0 && spec_dirname(x) != x
            &&& !(is_submachine(m, x) && !spec_is_ancestor_or_equal(x, current))
        },
        owner_at(a, k) != m.root() && owner_at(a, k) != seq!['/'] && owner_at(a, k).len() > 0,
    ensures
        !survives_from(m, a, current, source),
    decreases k,
{
    if k > 0 {
        assert(owner_at(a, 0) == a);
        let parent = spec_dirname(a);
        lemma_dirname_shorter(a);
        assert forall|i: nat| i < k - 1 implies {
            let x = #[trigger] owner_at(parent, i);
            &&& x != m.root() && x != seq!['/'] && x.len() > 0 && spec_dirname(x) != x
            &&& !(is_submachine(m, x) && !spec_is_ancestor_or_equal(x, current))
        } by {
            assert(owner_at(a, i + 1) == owner_at(parent, i));
        }
        assert(owner_at(a, k) == owner_at(parent, (k - 1) as nat));
        lemma_dropped_at(m, parent, (k - 1) as nat, current, source);
    }
}

/// A deferred event is dropped when the nearest submachine state around its
/// owner that the machine has left (it is not around the state reached) was
/// left by a transition from outside it.
pub proof fn law_deferred_dropped_when_submachine_left_from_outside(m: Model, owner: Seq<char>, current: Seq<char>, source: Seq<char>, k: nat)
    requires
        is_submachine(m, owner_at(spec_dirname(owner), k)),
        !spec_is_ancestor_or_equal(owner_at(spec_dirname(owner), k), current),
        !spec_is_ancestor_or_equal(owner_at(spec_dirname(owner), k), source),
        forall|i: nat| i < k ==> {
            let x = #[trigger] owner_at(spec_dirname(owner), i);
            &&& x != m.root() && x != seq!['/'] && x.len() > 0 && spec_dirname(x) != x
            &&& !(is_submachine(m, x) && !spec_is_ancestor_or_equal(x, current))
        },
        owner_at(spec_dirname(owner), k) != m.root(),
        owner_at(spec_dirname(owner), k) != seq!['/'],
        owner_at(spec_dirname(owner), k).len() > 0,
    ensures
        !spec_deferred_event_survives(m, owner, current, source),
{
    lemma_dropped_at(m, spec_dirname(owner), k, current, source);
}

/// A `?` matches exactly one byte, whatever it is.
pub proof fn law_question_matches_one_byte(p: Seq<u8>, b: u8, t: Seq<u8>)
    ensures
        glob_matches(seq![63u8] + p, seq![b] + t) == glob_matches(p, t),
        !glob_matches(seq![63u8] + p, Seq::<u8>::empty()),
{
    let q = seq![63u8] + p;
    assert(q[0] == 63u8);
    assert(q.drop_first() =~= p);
    assert((seq![b] + t).drop_first() =~= t);
}

/// Any other byte matches only itself.
pub proof fn law_plain_byte_matches_itself(c: u8, p: Seq<u8>, b: u8, t: Seq<u8>)
    requires
        c != 42u8,
        c != 63u8,
    ensures
        glob_matches(seq![c] + p, seq![b] + t) == (c == b && glob_matches(p, t)),
{
    let q = seq![c] + p;
    assert(q[0] == c);
    assert(q.drop_first() =~= p);
    assert((seq![b] + t).drop_first() =~= t);
    assert((seq![b] + t)[0] == b);
}

} // verus!
