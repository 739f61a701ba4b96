//! Which states a transition leaves and enters, as the runtime takes it from
//! the current state.

use vstd::prelude::*;

use crate::assoc::{self, find_index, view_find};
use crate::dispatch::is_submachine;
use crate::element::{contains_name, names_view, paths_view, Transition, TransitionPath, TransitionPathView, TransitionView};
use crate::kind::{self, spec_is_kind};
use crate::model::{spec_path, Model};
use crate::path::{dirname, is_ancestor_or_equal, lemma_dirname_shorter, spec_dirname, spec_is_ancestor_or_equal};
use crate::text;

verus! {

/// The path a transition keeps for leaving from `k`.
pub open spec fn path_lookup(t: TransitionView, k: Seq<char>) -> Option<TransitionPathView> {
    let i = view_find(t.paths, k);
    if i >= 0 {
        Some(t.paths[i].1)
    } else {
        None
    }
}

/// The states left on the way up from `x` to the transition's source `source`
/// (excluded), nearest first; the walk ends below the root `/`.
pub open spec fn exit_climb(m: Model, x: Seq<char>, source: Seq<char>) -> Seq<Seq<char>>
    decreases x.len(),
{
    if x == source || x.len() == 0 {
        seq![]
    } else {
        let head = if m.state_of(x) is Some {
            seq![x]
        } else {
            seq![]
        };
        let parent = spec_dirname(x);
        if parent == x || parent == seq!['/'] {
            head
        } else {
            proof {
                lemma_dirname_shorter(x);
            }
            head + exit_climb(m, parent, source)
        }
    }
}

/// The path before any entry-point adjustment: the one kept for `current`;
/// else, for a transition of an ancestor, the one kept for its source (or the
/// computed one), with the states between `current` and the source left
/// first (none for an internal transition).
pub open spec fn base_path(m: Model, current: Seq<char>, t: TransitionView) -> Option<TransitionPathView> {
    match path_lookup(t, current) {
        Some(p) => Some(p),
        None => if t.source != current && spec_is_ancestor_or_equal(t.source, current) {
            let b = match path_lookup(t, t.source) {
                Some(p) => p,
                None => spec_path(t.source, t.target),
            };
            if spec_is_kind(t.element.kind, kind::INTERNAL) {
                Some(b)
            } else {
                Some(TransitionPathView { exit: exit_climb(m, current, t.source) + b.exit, enter: b.enter })
            }
        } else {
            None
        },
    }
}

/// The submachine state a transition re-enters through one of its entry
/// points, when the transition leaves from that state or from inside it.
pub open spec fn spec_reentry_boundary(m: Model, t: TransitionView) -> Option<Seq<char>> {
    match m.vertex_of(t.target) {
        None => None,
        Some(v) => if !spec_is_kind(v.element.kind, kind::ENTRY_POINT) {
            None
        } else {
            let b = spec_dirname(v.element.qualified_name);
            if !is_submachine(m, b) {
                None
            } else if t.source == b || spec_is_ancestor_or_equal(b, t.source) {
                Some(b)
            } else {
                None
            }
        },
    }
}

/// `p` with the boundary `b` left last and entered first, where it is not
/// already on the path.
pub open spec fn with_boundary(p: TransitionPathView, b: Seq<char>) -> TransitionPathView {
    TransitionPathView {
        enter: if p.enter.contains(b) {
            p.enter
        } else {
            seq![b] + p.enter
        },
        exit: if p.exit.contains(b) {
            p.exit
        } else {
            p.exit.push(b)
        },
    }
}

/// The states transition `t` leaves and enters from `current`, or none when
/// it does not apply there.
pub open spec fn spec_transition_path(m: Model, current: Seq<char>, t: TransitionView) -> Option<TransitionPathView> {
    match base_path(m, current, t) {
        None => None,
        Some(p) => match spec_reentry_boundary(m, t) {
            Some(b) => Some(with_boundary(p, b)),
            None => Some(p),
        },
    }
}

/// The path transition `t` keeps for leaving from `k`.
fn kept_path(t: &Transition, k: &str) -> (r: Option<TransitionPath>)
    ensures
        match r {
            Some(p) => path_lookup(t@, k@) == Some(p@),
            None => path_lookup(t@, k@) is None,
        },
{
    proof {
        assert forall|j: int| 0 <= j < t.paths@.len() implies t.paths@[j].0@ == #[trigger] paths_view(
            t.paths@,
        )[j].0 by {}
        assoc::lemma_find_index_view(t.paths@, paths_view(t.paths@), k@);
        assoc::lemma_find_index(t.paths@, k@);
    }
    match assoc::get(&t.paths, k) {
        Some(p) => Some(p.clone()),
        None => None,
    }
}

/// The states on the way up from `x` to `source` (see `exit_climb`).
fn climb_exits(model: &Model, x: &str, source: &str) -> (r: Vec<String>)
    ensures
        names_view(r@) == exit_climb(*model, x@, source@),
{
    proof {
        reveal_strlit("/");
        assert("/"@ =~= seq!['/']);
    }
    let mut exit: Vec<String> = Vec::new();
    let mut exiting: String = text::owned(x);
    loop
        invariant
            "/"@ == seq!['/'],
            names_view(exit@) + exit_climb(*model, exiting@, source@) == exit_climb(*model, x@, source@),
        decreases exiting@.len(),
    {
        if text::str_eq(exiting.as_str(), source) || text::char_len(exiting.as_str()) == 0 {
            assert(names_view(exit@) + seq![] =~= names_view(exit@));
            return exit;
        }
        let ghost before = exit@;
        let ghost head = if model.state_of(exiting@) is Some {
            seq![exiting@]
        } else {
            Seq::<Seq<char>>::empty()
        };
        if model.get_state(exiting.as_str()).is_some() {
            exit.push(exiting.clone());
        }
        assert(names_view(exit@) =~= names_view(before) + head);
        let parent = dirname(exiting.as_str());
        if text::str_eq(parent, exiting.as_str()) || text::str_eq(parent, "/") {
            return exit;
        }
        proof {
            lemma_dirname_shorter(exiting@);
        }
        assert(names_view(before) + (head + exit_climb(*model, parent@, source@)) =~= names_view(exit@)
            + exit_climb(*model, parent@, source@));
        exiting = text::owned(parent);
    }
}

/// The submachine state re-entered through an entry point by `transition`
/// (see `spec_reentry_boundary`).
pub fn entry_point_reentry_boundary(model: &Model, transition: &Transition) -> (r: Option<String>)
    ensures
        crate::element::opt_name_view(r) == spec_reentry_boundary(*model, transition@),
{
    let vertex = match model.get_vertex(transition.target.as_str()) {
        Some(v) => v,
        None => return None,
    };
    if !kind::is_kind(vertex.element.kind, kind::ENTRY_POINT) {
        return None;
    }
    let boundary = dirname(vertex.element.qualified_name.as_str());
    let sub = match model.get_state(boundary) {
        Some(s) => kind::is_kind(s.vertex.element.kind, kind::SUBMACHINE_STATE),
        None => false,
    };
    if !sub {
        return None;
    }
    if text::str_eq(transition.source.as_str(), boundary) || is_ancestor_or_equal(
        boundary,
        transition.source.as_str(),
    ) {
        Some(text::owned(boundary))
    } else {
        None
    }
}

/// The states `transition` leaves and enters from `current_state`, or none
/// when it does not apply there (see `spec_transition_path`).
pub fn transition_path(model: &Model, current_state: &str, transition: &Transition) -> (r: Option<TransitionPath>)
    ensures
        match r {
            Some(p) => spec_transition_path(*model, current_state@, transition@) == Some(p@),
            None => spec_transition_path(*model, current_state@, transition@) is None,
        },
{
    let base = match kept_path(transition, current_state) {
        Some(p) => p,
        None => {
            if !text::str_eq(transition.source.as_str(), current_state) && is_ancestor_or_equal(
                transition.source.as_str(),
                current_state,
            ) {
                let b = match kept_path(transition, transition.source.as_str()) {
                    Some(p) => p,
                    None => Model::calculate_path_static(transition.source.as_str(), transition.target.as_str()),
                };
                if kind::is_kind(transition.element.kind, kind::INTERNAL) {
                    b
                } else {
                    let mut exit = climb_exits(model, current_state, transition.source.as_str());
                    let ghost e1 = exit@;
                    let mut rest = b.exit;
                    exit.append(&mut rest);
                    assert(names_view(exit@) =~= names_view(e1) + b@.exit);
                    TransitionPath { exit, enter: b.enter }
                }
            } else {
                return None;
            }
        },
    };
    assert(base_path(*model, current_state@, transition@) == Some(base@));
    match entry_point_reentry_boundary(model, transition) {
        None => Some(base),
        Some(boundary) => {
            let mut path = base;
            if !contains_name(&path.exit, boundary.as_str()) {
                let ghost e0 = path.exit@;
                path.exit.push(boundary.clone());
                assert(names_view(path.exit@) =~= names_view(e0).push(boundary@));
            }
            if !contains_name(&path.enter, boundary.as_str()) {
                let ghost n0 = path.enter@;
                path.enter.insert(0, boundary);
                assert(names_view(path.enter@) =~= seq![boundary@] + names_view(n0));
            }
            assert(path@ =~= with_boundary(base@, boundary@));
            Some(path)
        },
    }
}

/// The leading part of an enter list kept when an entry point redirects it:
/// up to (not including) the entry point, and at most up to and including
/// its boundary `b`.
pub open spec fn enter_prefix(s: Seq<Seq<char>>, entry_point: Seq<char>, b: Seq<char>) -> Seq<Seq<char>>
    decreases s.len(),
{
    if s.len() == 0 || s[0] == entry_point {
        seq![]
    } else if s[0] == b {
        seq![s[0]]
    } else {
        seq![s[0]] + enter_prefix(s.drop_first(), entry_point, b)
    }
}

/// The enter list once the transition leaving entry point `entry_point` for
/// `entry_target` is taken: the kept prefix, then the path from the
/// entry point's owner down to the target.
pub open spec fn spec_entry_enter_path(enter: Seq<Seq<char>>, entry_point: Seq<char>, entry_target: Seq<char>) -> Seq<Seq<char>> {
    let b = spec_dirname(entry_point);
    enter_prefix(enter, entry_point, b) + spec_path(b, entry_target).enter
}

/// The enter list redirected through entry point `entry_point` to
/// `entry_target` (see `spec_entry_enter_path`).
pub fn entry_enter_path(enter: &Vec<String>, entry_point: &str, entry_target: &str) -> (r: Vec<String>)
    ensures
        names_view(r@) == spec_entry_enter_path(names_view(enter@), entry_point@, entry_target@),
{
    let boundary = dirname(entry_point);
    let ghost whole = enter_prefix(names_view(enter@), entry_point@, boundary@);
    let mut kept: Vec<String> = Vec::new();
    let mut i: usize = 0;
    if enter.len() == 0 {
        assert(names_view(enter@).subrange(0, 0) =~= Seq::<Seq<char>>::empty());
        assert(names_view(kept@) =~= whole);
    }
    assert(names_view(enter@).subrange(0, enter.len() as int) =~= names_view(enter@));
    assert(names_view(kept@) + whole =~= whole);
    while i < enter.len()
        invariant_except_break
            names_view(kept@) + enter_prefix(
                names_view(enter@).subrange(i as int, enter.len() as int),
                entry_point@,
                boundary@,
            ) == whole,
            i == enter.len() ==> names_view(kept@) == whole,
        invariant
            0 <= i <= enter.len(),
            boundary@ == spec_dirname(entry_point@),
            whole == enter_prefix(names_view(enter@), entry_point@, boundary@),
        ensures
            names_view(kept@) == whole,
        decreases enter.len() - i,
    {
        let ghost rest = names_view(enter@).subrange(i as int, enter.len() as int);
        assert(rest[0] == enter@[i as int]@);
        assert(rest.drop_first() =~= names_view(enter@).subrange(i as int + 1, enter.len() as int));
        if text::str_eq(enter[i].as_str(), entry_point) {
            assert(names_view(kept@) + seq![] =~= names_view(kept@));
            break;
        }
        let ghost before = kept@;
        kept.push(enter[i].clone());
        assert(names_view(kept@) =~= names_view(before) + seq![enter@[i as int]@]);
        if text::str_eq(enter[i].as_str(), boundary) {
            break;
        }
        assert(names_view(before) + (seq![enter@[i as int]@] + enter_prefix(rest.drop_first(), entry_point@, boundary@))
            =~= names_view(kept@) + enter_prefix(rest.drop_first(), entry_point@, boundary@));
        if i + 1 == enter.len() {
            assert(rest.drop_first() =~= Seq::<Seq<char>>::empty());
            assert(names_view(kept@) + seq![] =~= names_view(kept@));
        }
        i += 1;
    }
    let tail = Model::calculate_path_static(boundary, entry_target);
    let ghost k0 = kept@;
    let mut more = tail.enter;
    kept.append(&mut more);
    assert(names_view(kept@) =~= names_view(k0) + tail@.enter);
    kept
}

/// The states from just below `parent` down to `x`, innermost first; the
/// walk ends at `parent`, at an empty name or at the root `/`.
pub open spec fn history_climb(x: Seq<char>, parent: Seq<char>) -> Seq<Seq<char>>
    decreases x.len(),
{
    if x == parent || x.len() == 0 || x == seq!['/'] {
        seq![]
    } else {
        proof {
            lemma_dirname_shorter(x);
        }
        seq![x] + history_climb(spec_dirname(x), parent)
    }
}

/// The states entered, outermost first, to restore `target` below `parent`.
pub fn history_enter_path(parent: &str, target: &str) -> (r: Vec<String>)
    ensures
        names_view(r@) == history_climb(target@, parent@).reverse(),
{
    proof {
        reveal_strlit("/");
        assert("/"@ =~= seq!['/']);
    }
    let mut up: Vec<String> = Vec::new();
    let mut current: String = text::owned(target);
    while !text::str_eq(current.as_str(), parent) && text::char_len(current.as_str()) != 0 && !text::str_eq(
        current.as_str(),
        "/",
    )
        invariant
            "/"@ == seq!['/'],
            names_view(up@) + history_climb(current@, parent@) == history_climb(target@, parent@),
        decreases current@.len(),
    {
        let ghost before = up@;
        up.push(current.clone());
        proof {
            lemma_dirname_shorter(current@);
        }
        let next = text::owned(dirname(current.as_str()));
        assert(names_view(up@) =~= names_view(before) + seq![current@]);
        assert(names_view(before) + (seq![current@] + history_climb(next@, parent@)) =~= names_view(up@)
            + history_climb(next@, parent@));
        current = next;
    }
    assert(names_view(up@) + seq![] =~= names_view(up@));
    crate::model::reverse_names(up)
}

/// The vertex named `name` is a shallow or deep history vertex.
pub open spec fn spec_is_history(m: Model, name: Seq<char>) -> bool {
    match m.vertex_of(name) {
        Some(v) => spec_is_kind(v.element.kind, kind::SHALLOW_HISTORY) || spec_is_kind(
            v.element.kind,
            kind::DEEP_HISTORY,
        ),
        None => false,
    }
}

/// Whether `target` names a history vertex (its exits are not remembered).
pub fn target_is_history(model: &Model, target: &str) -> (r: bool)
    ensures
        r == spec_is_history(*model, target@),
{
    match model.get_vertex(target) {
        Some(v) => kind::is_kind(v.element.kind, kind::SHALLOW_HISTORY) || kind::is_kind(
            v.element.kind,
            kind::DEEP_HISTORY,
        ),
        None => false,
    }
}

/// The state named `name` is a final state.
pub open spec fn spec_is_final_state(m: Model, name: Seq<char>) -> bool {
    match m.state_of(name) {
        Some(s) => spec_is_kind(s.vertex.element.kind, kind::FINAL_STATE),
        None => false,
    }
}

/// Whether `name` is a final state (reaching one queues the final event).
pub fn is_final_state(model: &Model, name: &str) -> (r: bool)
    ensures
        r == spec_is_final_state(*model, name@),
{
    match model.get_state(name) {
        Some(s) => kind::is_kind(s.vertex.element.kind, kind::FINAL_STATE),
        None => false,
    }
}

/// The transition a state takes when entered by default: the first one of
/// its initial vertex, when that vertex exists and has one that exists.
pub open spec fn spec_initial_transition(m: Model, state: Seq<char>) -> Option<Seq<char>> {
    let initial = if state == m.root() {
        Some(m.state@.initial)
    } else {
        match m.state_of(state) {
            Some(s) => Some(s.initial),
            None => None,
        }
    };
    match initial {
        Some(i) => if i.len() == 0 {
            None
        } else {
            match m.vertex_of(i) {
                Some(v) => if v.transitions.len() > 0 && m.transition_of(v.transitions[0]) is Some {
                    Some(v.transitions[0])
                } else {
                    None
                },
                None => None,
            }
        },
        None => None,
    }
}

/// The transition taken when `state` (or the machine) is entered by default.
pub fn initial_transition(model: &Model, state: &str) -> (r: Option<String>)
    ensures
        crate::element::opt_name_view(r) == spec_initial_transition(*model, state@),
{
    let initial: &str = if text::str_eq(state, model.state.vertex.element.qualified_name.as_str()) {
        model.state.initial.as_str()
    } else {
        match model.get_state(state) {
            Some(s) => s.initial.as_str(),
            None => {
                return None;
            },
        }
    };
    if text::char_len(initial) == 0 {
        return None;
    }
    match model.get_vertex(initial) {
        Some(v) => {
            if v.transitions.len() > 0 {
                assert(names_view(v.transitions@)[0] == v.transitions@[0]@);
                if model.get_transition(v.transitions[0].as_str()).is_some() {
                    return Some(v.transitions[0].clone());
                }
            }
            None
        },
        None => None,
    }
}

/// The transitions of a pseudostate that exist, in order, and (when
/// `targeted`) have a target: those its guards are tried on.
pub open spec fn spec_vertex_choices(m: Model, ts: Seq<Seq<char>>, targeted: bool) -> Seq<Seq<char>>
    decreases ts.len(),
{
    if ts.len() == 0 {
        seq![]
    } else {
        let rest = spec_vertex_choices(m, ts.drop_last(), targeted);
        match m.transition_of(ts.last()) {
            Some(t) => if targeted && t.target.len() == 0 {
                rest
            } else {
                rest.push(ts.last())
            },
            None => rest,
        }
    }
}

/// The transitions of vertex `vertex` whose guards are tried, in order (see
/// `spec_vertex_choices`); none when there is no such vertex.
pub fn vertex_choices(model: &Model, vertex: &str, targeted: bool) -> (r: Vec<String>)
    ensures
        names_view(r@) == match model.vertex_of(vertex@) {
            Some(v) => spec_vertex_choices(*model, v.transitions, targeted),
            None => seq![],
        },
{
    let mut out: Vec<String> = Vec::new();
    let v = match model.get_vertex(vertex) {
        Some(v) => v,
        None => {
            assert(names_view(out@) =~= Seq::<Seq<char>>::empty());
            return out;
        },
    };
    let ts = &v.transitions;
    let ghost all = names_view(ts@);
    let mut i: usize = 0;
    assert(names_view(out@) =~= spec_vertex_choices(*model, all.subrange(0, 0), targeted));
    while i < ts.len()
        invariant
            0 <= i <= ts.len(),
            all == names_view(ts@),
            names_view(out@) == spec_vertex_choices(*model, all.subrange(0, i as int), targeted),
        decreases ts.len() - i,
    {
        let ghost pre = all.subrange(0, i as int + 1);
        assert(pre.drop_last() =~= all.subrange(0, i as int));
        assert(pre.last() == ts@[i as int]@);
        let ghost before = out@;
        match model.get_transition(ts[i].as_str()) {
            Some(t) => {
                if !(targeted && text::char_len(t.target.as_str()) == 0) {
                    out.push(ts[i].clone());
                    assert(names_view(out@) =~= names_view(before).push(ts@[i as int]@));
                }
            },
            None => {},
        }
        i += 1;
    }
    assert(all.subrange(0, ts.len() as int) =~= all);
    out
}

pub open spec fn unhandled_exit_point_message(vertex: Seq<char>) -> Seq<char> {
    seq!['u', 'n', 'h', 'a', 'n', 'd', 'l', 'e', 'd', '_', 'e', 'x', 'i', 't', '_', 'p', 'o', 'i', 'n', 't', '\0']
        + seq!['u', 'n', 'h', 'a', 'n', 'd', 'l', 'e', 'd', ' ', 'e', 'x', 'i', 't', ' ', 'p', 'o', 'i', 'n', 't', ' ', '"']
        + crate::path::spec_basename(vertex) + seq!['"']
}

/// The error raised when no transition leaves exit point `vertex`.
pub fn unhandled_exit_point(vertex: &str) -> (r: crate::error::HsmError)
    ensures
        r matches crate::error::HsmError::Runtime(msg) && msg@ == unhandled_exit_point_message(vertex@),
{
    proof {
        reveal_strlit("unhandled_exit_point\0unhandled exit point \"");
        reveal_strlit("\"");
    }
    let msg = text::concat3(
        "unhandled_exit_point\0unhandled exit point \"",
        crate::path::basename(vertex),
        "\"",
    );
    assert(msg@ =~= unhandled_exit_point_message(vertex@));
    crate::error::HsmError::Runtime(msg)
}

pub open spec fn requires_started_message(action: Seq<char>) -> Seq<char> {
    action + seq![' ', 'r', 'e', 'q', 'u', 'i', 'r', 'e', 's', ' ', 'a', ' ', 's', 't', 'a', 'r', 't', 'e', 'd', ' ', 'H', 'S', 'M']
}

/// Refuses `action` on a machine that has not started: one that rests on
/// itself and is not busy processing events.
pub fn require_started(model: &Model, current_state: &str, draining: bool, action: &str) -> (r: Result<(), crate::error::HsmError>)
    ensures
        (current_state@ == model.root() && !draining) ==> (r matches Err(crate::error::HsmError::Runtime(msg))
            && msg@ == requires_started_message(action@)),
        !(current_state@ == model.root() && !draining) ==> r is Ok,
{
    proof {
        reveal_strlit(" requires a started HSM");
    }
    if text::str_eq(current_state, model.state.vertex.element.qualified_name.as_str()) && !draining {
        let msg = text::concat(action, " requires a started HSM");
        assert(msg@ =~= requires_started_message(action@));
        return Err(crate::error::HsmError::Runtime(msg));
    }
    Ok(())
}

/// An internal transition, taken from its source with the path the model
/// records for it, leaves and enters no state.
pub proof fn law_internal_transition_leaves_nothing(m: Model, t: TransitionView)
    requires
        t.target.len() == 0,
        path_lookup(t, t.source) == Some(crate::model::path_entry(t).1),
        m.vertex_of(t.target) is None,
    ensures
        spec_transition_path(m, t.source, t) == Some(TransitionPathView { enter: seq![], exit: seq![] }),
{
}

/// A transition back to its own source state, taken from that state with the
/// path the model records for it, leaves the state and enters it again.
pub proof fn law_self_transition_reenters(m: Model, t: TransitionView)
    requires
        t.target == t.source,
        t.source.len() > 0,
        !t.events.contains(crate::event::initial_event_name()),
        path_lookup(t, t.source) == Some(crate::model::path_entry(t).1),
        m.state_of(t.source) is Some,
        !spec_is_kind(m.state_of(t.source)->0.vertex.element.kind, kind::ENTRY_POINT),
    ensures
        spec_transition_path(m, t.source, t) == Some(TransitionPathView { enter: seq![t.source], exit: seq![t.source] }),
{
}

/// The event a transition queues on arrival: the final event when it moved
/// the machine into a different state that is a final state, else none.
pub fn final_event_after(model: &Model, previous: &str, reached: &str) -> (r: Option<crate::event::Event>)
    ensures
        (previous@ != reached@ && spec_is_final_state(*model, reached@)) ==> (r matches Some(e) && e@
            == crate::event::named_event(kind::COMPLETION_EVENT, crate::event::final_event_name())),
        !(previous@ != reached@ && spec_is_final_state(*model, reached@)) ==> r is None,
{
    if !text::str_eq(previous, reached) && is_final_state(model, reached) {
        Some(crate::event::final_event())
    } else {
        None
    }
}

/// Taking a transition along `path` to `target` records the history of the
/// state it leaves exactly when it leaves something and does not go to a
/// history pseudostate.
pub fn remembers_history(model: &Model, path: &TransitionPath, target: &str) -> (r: bool)
    ensures
        r == (path@.exit.len() > 0 && !spec_is_history(*model, target@)),
{
    path.exit.len() > 0 && !target_is_history(model, target)
}

/// An internal transition ends in the state it was taken from, without
/// entering anything.
pub fn stays_in_source(transition: &Transition) -> (r: bool)
    ensures
        r == spec_is_kind(transition@.element.kind, kind::INTERNAL),
{
    kind::is_kind(transition.element.kind, kind::INTERNAL)
}

/// Entering stops at the transition's (effective) target: it is entered by
/// its default entry, which settles the state the machine ends in.
pub fn ends_entering(entering: &str, effective_target: &str) -> (r: bool)
    ensures
        r == (entering@ == effective_target@),
{
    text::str_eq(entering, effective_target)
}

/// What setting an attribute does.
pub enum SetStep {
    /// The value is the one already held: nothing is stored or sent.
    Unchanged,
    /// Stored, and its change event queued for after the running activity.
    Reentrant,
    /// Stored, and its change event dispatched now.
    Dispatch,
}

/// Setting an attribute to a value equal to the one it holds does nothing;
/// otherwise the value is stored and its change event is queued behind the
/// running activity when set from one, else dispatched.
pub fn set_step(unchanged: bool, in_activity: bool) -> (r: SetStep)
    ensures
        unchanged ==> r is Unchanged,
        !unchanged && in_activity ==> r is Reentrant,
        !unchanged && !in_activity ==> r is Dispatch,
{
    if unchanged {
        SetStep::Unchanged
    } else if in_activity {
        SetStep::Reentrant
    } else {
        SetStep::Dispatch
    }
}

/// A group starts only when none of its machines has started.
pub fn group_start_check(started: &Vec<bool>) -> (r: Result<(), crate::error::HsmError>)
    ensures
        r is Ok <==> forall|i: int| 0 <= i < started@.len() ==> !started@[i],
        r matches Err(crate::error::HsmError::Validation(m)) ==> m@ == "already started HSM"@,
        r is Err ==> r matches Err(crate::error::HsmError::Validation(_)),
{
    let mut i: usize = 0;
    while i < started.len()
        invariant
            0 <= i <= started@.len(),
            forall|j: int| 0 <= j < i ==> !started@[j],
        decreases started@.len() - i,
    {
        if started[i] {
            return Err(crate::error::HsmError::Validation(text::owned("already started HSM")));
        }
        i += 1;
    }
    Ok(())
}

/// The machines of a group a value is set on: the started ones, in order.
pub fn group_set_targets(started: &Vec<bool>) -> (r: Vec<usize>)
    ensures
        r@ == started_indices(started@, started@.len() as int),
{
    let mut out: Vec<usize> = Vec::new();
    let mut i: usize = 0;
    while i < started.len()
        invariant
            0 <= i <= started@.len(),
            out@ == started_indices(started@, i as int),
        decreases started@.len() - i,
    {
        if started[i] {
            out.push(i);
        }
        i += 1;
    }
    out
}

/// The positions among the first `n` of `started` that hold `true`, in order.
pub open spec fn started_indices(started: Seq<bool>, n: int) -> Seq<usize>
    decreases n,
{
    if n <= 0 {
        seq![]
    } else if started[n - 1] {
        started_indices(started, n - 1).push((n - 1) as usize)
    } else {
        started_indices(started, n - 1)
    }
}

/// The next thing taking a transition does.
#[derive(Clone, Copy, Debug, PartialEq, Eq, Structural)]
pub enum TransitionAction {
    /// Leave the state at this position of the exit path.
    Exit(usize),
    /// Run the transition's effects.
    Effect,
    /// Pick the transition of the entry point the target names.
    SelectEntryPoint,
    /// Enter the state at this position of the enter path.
    Enter(usize),
    /// The transition is taken.
    Finish,
    /// A behavior failed or was cancelled: the transition stops here.
    Abort,
}

/// The first action: leave the first state of the exit path, or run the
/// effects when nothing is left.
pub open spec fn spec_transition_start(exit_len: nat) -> TransitionAction {
    if exit_len > 0 {
        TransitionAction::Exit(0)
    } else {
        TransitionAction::Effect
    }
}

/// What follows the effects (and the entry point's selection): entering
/// the states of the enter path, unless the transition is internal.
pub open spec fn after_effect(enter_len: nat, internal: bool) -> TransitionAction {
    if internal || enter_len == 0 {
        TransitionAction::Finish
    } else {
        TransitionAction::Enter(0)
    }
}

/// The action after `last` succeeded (`ok`) or failed: states are left in
/// the order of the exit path, then the effects run, then an entry point
/// target picks its transition, then (unless the transition is internal)
/// states are entered in the order of the enter path; any failure aborts.
pub open spec fn spec_transition_next(last: TransitionAction, ok: bool, exit_len: nat, enter_len: nat, to_entry_point: bool, internal: bool) -> TransitionAction {
    if !ok {
        TransitionAction::Abort
    } else {
        match last {
            TransitionAction::Exit(i) => if i + 1 < exit_len {
                TransitionAction::Exit((i + 1) as usize)
            } else {
                TransitionAction::Effect
            },
            TransitionAction::Effect => if to_entry_point {
                TransitionAction::SelectEntryPoint
            } else {
                after_effect(enter_len, internal)
            },
            TransitionAction::SelectEntryPoint => after_effect(enter_len, internal),
            TransitionAction::Enter(i) => if i + 1 < enter_len {
                TransitionAction::Enter((i + 1) as usize)
            } else {
                TransitionAction::Finish
            },
            TransitionAction::Finish => TransitionAction::Finish,
            TransitionAction::Abort => TransitionAction::Abort,
        }
    }
}

/// The first action of taking a transition whose exit path has `exit_len`
/// states.
pub fn transition_start(exit_len: usize) -> (r: TransitionAction)
    ensures
        r == spec_transition_start(exit_len as nat),
{
    if exit_len > 0 {
        TransitionAction::Exit(0)
    } else {
        TransitionAction::Effect
    }
}

/// The action after `last` (see `spec_transition_next`).
pub fn transition_next(last: TransitionAction, ok: bool, exit_len: usize, enter_len: usize, to_entry_point: bool, internal: bool) -> (r: TransitionAction)
    ensures
        r == spec_transition_next(last, ok, exit_len as nat, enter_len as nat, to_entry_point, internal),
{
    if !ok {
        return TransitionAction::Abort;
    }
    let after = if internal || enter_len == 0 {
        TransitionAction::Finish
    } else {
        TransitionAction::Enter(0)
    };
    match last {
        TransitionAction::Exit(i) => if i < exit_len && i + 1 < exit_len {
            TransitionAction::Exit(i + 1)
        } else {
            TransitionAction::Effect
        },
        TransitionAction::Effect => if to_entry_point {
            TransitionAction::SelectEntryPoint
        } else {
            after
        },
        TransitionAction::SelectEntryPoint => after,
        TransitionAction::Enter(i) => if i < enter_len && i + 1 < enter_len {
            TransitionAction::Enter(i + 1)
        } else {
            TransitionAction::Finish
        },
        TransitionAction::Finish => TransitionAction::Finish,
        TransitionAction::Abort => TransitionAction::Abort,
    }
}

/// Where an action stands in the order of taking a transition.
pub open spec fn action_rank(a: TransitionAction, exit_len: nat) -> int {
    match a {
        TransitionAction::Exit(i) => i as int,
        TransitionAction::Effect => exit_len as int,
        TransitionAction::SelectEntryPoint => exit_len as int + 1,
        TransitionAction::Enter(i) => exit_len as int + 2 + i,
        TransitionAction::Finish => -1,
        TransitionAction::Abort => -2,
    }
}

/// Taking a transition moves forward: every state of the exit path is left
/// (in order) before the effects run, the effects run before the entry
/// point's selection, and that before any state is entered (in order), until
/// it finishes or aborts.
pub proof fn law_transition_order(last: TransitionAction, ok: bool, exit_len: nat, enter_len: nat, to_entry_point: bool, internal: bool)
    requires
        exit_len <= usize::MAX,
        enter_len <= usize::MAX,
        last matches TransitionAction::Exit(i) ==> i < exit_len,
        last matches TransitionAction::Enter(i) ==> i < enter_len,
    ensures
        ({
            let next = spec_transition_next(last, ok, exit_len, enter_len, to_entry_point, internal);
            &&& !ok ==> next is Abort
            &&& ok && action_rank(last, exit_len) >= 0 ==> (next is Finish || action_rank(next, exit_len) == action_rank(last, exit_len) + 1
                || (next is Enter && action_rank(next, exit_len) > action_rank(last, exit_len)))
            &&& ok && last is Exit && next is Effect ==> last->Exit_0 + 1 == exit_len
            &&& ok && next is Enter ==> (last is Enter || ((last is Effect || last is SelectEntryPoint) && !internal))
        }),
{
}

/// The target names an entry point, whose transition is picked on entering.
pub fn targets_entry_point(model: &Model, target: &str) -> (r: bool)
    ensures
        r == (model.vertex_of(target@) matches Some(v) && spec_is_kind(v.element.kind, kind::ENTRY_POINT)),
{
    match model.get_vertex(target) {
        Some(v) => kind::is_kind(v.element.kind, kind::ENTRY_POINT),
        None => false,
    }
}

} // verus!
