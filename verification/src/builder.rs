//! Declaring a model: partial elements applied in order to a model under
//! construction, with a stack of the qualified names that enclose them.

use std::sync::Arc;

use vstd::prelude::*;
use vstd::relations::injective_on;
use vstd::set_lib::{lemma_int_range, lemma_len_subset, lemma_map_size, set_int_range};

use crate::assoc::{self, find_index, has_key, table_get};
use crate::element::{
    clone_names, empty_state_view, fresh_transition_view, names_view, ActivityFn, Attribute, AttributeValue, AttributeView, Behavior,
    BehaviorOperation, BehaviorOperationView, BehaviorView, Constraint, ConstraintView,
    DurationFn, EffectFn, ElementVariant, ElementView, EntryFn, ExitFn, FinalizerElement,
    FinalizerFn, GuardFn, NamedElement, NamedElementView, Observation, ObservationView,
    Operation, OperationFn, OperationView, State, StateView, TimepointFn, Transition,
    TransitionView, ValidatorElement, ValidatorFn, Vertex, VertexView,
};
use crate::error::HsmError;
use crate::event::{call_trigger_name, call_trigger_view, Event, IntoEventName};
use crate::kind::{self, KindValue};
use crate::model::Model;
use crate::path::{basename, dirname, join, spec_basename, spec_dirname, spec_join};
use crate::rebase::rebased_model;
use crate::text;

verus! {

/// `cur` as a path component, when it is not empty.
pub open spec fn piece(cur: Seq<char>) -> Seq<Seq<char>> {
    if cur.len() > 0 {
        seq![cur]
    } else {
        seq![]
    }
}

/// The components of `cur` followed by `s`, where `cur` holds no slash.
pub open spec fn split_scan(s: Seq<char>, cur: Seq<char>) -> Seq<Seq<char>>
    decreases s.len(),
{
    if s.len() == 0 {
        piece(cur)
    } else if s[0] == '/' {
        piece(cur) + split_scan(s.drop_first(), seq![])
    } else {
        split_scan(s.drop_first(), cur.push(s[0]))
    }
}

/// The non-empty runs of characters between slashes.
pub open spec fn components(s: Seq<char>) -> Seq<Seq<char>> {
    split_scan(s, seq![])
}

/// `parts` after one more component: `..` drops the last part (if any), `.`
/// keeps them, anything else is added.
pub open spec fn step_path(parts: Seq<Seq<char>>, c: Seq<char>) -> Seq<Seq<char>> {
    if c == seq!['.', '.'] {
        if parts.len() > 0 {
            parts.drop_last()
        } else {
            parts
        }
    } else if c == seq!['.'] {
        parts
    } else {
        parts.push(c)
    }
}

/// `parts` after each of `comps` in turn.
pub open spec fn walk(parts: Seq<Seq<char>>, comps: Seq<Seq<char>>) -> Seq<Seq<char>>
    decreases comps.len(),
{
    if comps.len() == 0 {
        parts
    } else {
        walk(step_path(parts, comps[0]), comps.drop_first())
    }
}

/// The parts, each behind a slash.
pub open spec fn slash_joined(parts: Seq<Seq<char>>) -> Seq<char>
    decreases parts.len(),
{
    if parts.len() == 0 {
        seq![]
    } else {
        slash_joined(parts.drop_last()) + seq!['/'] + parts.last()
    }
}

/// `path` resolved against `base`: absolute paths are kept; otherwise the
/// components of `path` are walked from those of `base`.
pub open spec fn spec_resolve_relative_path(base: Seq<char>, path: Seq<char>) -> Seq<char> {
    if path.len() > 0 && path[0] == '/' {
        path
    } else {
        let parts = walk(components(base), components(path));
        if parts.len() == 0 {
            seq!['/']
        } else {
            slash_joined(parts)
        }
    }
}

/// The components of `s`.
fn split_components(s: &str) -> (r: Vec<String>)
    ensures
        names_view(r@) == components(s@),
{
    let n = s.unicode_len();
    let mut out: Vec<String> = Vec::new();
    let mut cur = String::new();
    let mut i: usize = 0;
    proof {
        assert(s@.subrange(0, n as int) =~= s@);
        assert(names_view(out@) + split_scan(s@, cur@) =~= components(s@));
    }
    while i < n
        invariant
            n == s@.len(),
            0 <= i <= n,
            names_view(out@) + split_scan(s@.subrange(i as int, n as int), cur@) == components(s@),
        decreases n - i,
    {
        let ghost rest = s@.subrange(i as int, n as int);
        let ghost before = out@;
        proof {
            assert(rest.drop_first() =~= s@.subrange(i as int + 1, n as int));
        }
        let c = s.get_char(i);
        if c == '/' {
            let ghost cv = cur@;
            if cur.unicode_len() > 0 {
                out.push(cur);
            }
            cur = String::new();
            proof {
                assert(names_view(out@) =~= names_view(before) + piece(cv));
                assert(names_view(out@) + split_scan(s@.subrange(i as int + 1, n as int), cur@) =~= names_view(before) + (piece(cv) + split_scan(rest.drop_first(), seq![])));
            }
        } else {
            let next = text::concat(cur.as_str(), s.substring_char(i, i + 1));
            proof {
                assert(next@ =~= cur@.push(c));
            }
            cur = next;
        }
        i += 1;
    }
    let ghost before = out@;
    let ghost cv = cur@;
    if cur.unicode_len() > 0 {
        out.push(cur);
    }
    proof {
        assert(names_view(out@) =~= names_view(before) + piece(cv));
    }
    out
}

/// `path` resolved against `base`, with `.` and `..` components applied.
pub fn resolve_relative_path(base: &str, path: &str) -> (r: String)
    ensures
        r@ == spec_resolve_relative_path(base@, path@),
{
    proof {
        reveal_strlit("..");
        reveal_strlit(".");
        reveal_strlit("/");
        assert(".."@ =~= seq!['.', '.']);
        assert("."@ =~= seq!['.']);
        assert("/"@ =~= seq!['/']);
    }
    if text::starts_with_char(path, '/') {
        return text::owned(path);
    }
    let mut parts = split_components(base);
    let comps = split_components(path);
    let ghost all = walk(names_view(parts@), names_view(comps@));
    proof {
        assert(names_view(comps@).subrange(0, comps@.len() as int) =~= names_view(comps@));
    }
    let mut k: usize = 0;
    while k < comps.len()
        invariant
            0 <= k <= comps@.len(),
            ".."@ == seq!['.', '.'],
            "."@ == seq!['.'],
            walk(names_view(parts@), names_view(comps@).subrange(k as int, comps@.len() as int)) == all,
        decreases comps@.len() - k,
    {
        let ghost rest = names_view(comps@).subrange(k as int, comps@.len() as int);
        let ghost pv = names_view(parts@);
        proof {
            assert(rest.drop_first() =~= names_view(comps@).subrange(k as int + 1, comps@.len() as int));
            assert(rest[0] == comps@[k as int]@);
        }
        if text::str_eq(comps[k].as_str(), "..") {
            if parts.len() > 0 {
                parts.pop();
                proof {
                    assert(names_view(parts@) =~= pv.drop_last());
                }
            }
        } else if text::str_eq(comps[k].as_str(), ".") {
        } else {
            parts.push(comps[k].clone());
            proof {
                assert(names_view(parts@) =~= pv.push(comps@[k as int]@));
            }
        }
        k += 1;
    }
    proof {
        assert(names_view(comps@).subrange(0, comps@.len() as int) =~= names_view(comps@));
        assert(names_view(comps@).subrange(comps@.len() as int, comps@.len() as int) =~= Seq::<Seq<char>>::empty());
    }
    if parts.len() == 0 {
        return text::owned("/");
    }
    let mut out = String::new();
    let mut j: usize = 0;
    while j < parts.len()
        invariant
            0 <= j <= parts@.len(),
            "/"@ == seq!['/'],
            out@ == slash_joined(names_view(parts@).take(j as int)),
        decreases parts@.len() - j,
    {
        proof {
            assert(names_view(parts@).take(j + 1).drop_last() =~= names_view(parts@).take(j as int));
        }
        out = text::concat3(out.as_str(), "/", parts[j].as_str());
        j += 1;
    }
    proof {
        assert(names_view(parts@).take(parts@.len() as int) =~= names_view(parts@));
    }
    out
}

/// How a relative name used inside the element on top of `stack` resolves:
/// under the owner of that element (the element itself, or the owner of a
/// transition) when a member of that name exists, else under the machine.
pub open spec fn spec_resolve_model_reference(m: Model, stack: Seq<Seq<char>>, name: Seq<char>) -> Seq<char> {
    if name.len() > 0 && name[0] == '/' {
        name
    } else {
        let current = if stack.len() > 0 {
            stack.last()
        } else {
            m.root()
        };
        let owner = if m.transition_of(current) is Some {
            spec_dirname(current)
        } else {
            current
        };
        let local = spec_join(owner, name);
        if has_key(m.members@, local) {
            local
        } else {
            spec_join(m.root(), name)
        }
    }
}

/// Resolves `name` from inside the element on top of `stack`.
pub fn resolve_model_reference(model: &Model, stack: &Vec<String>, name: &str) -> (r: String)
    ensures
        r@ == spec_resolve_model_reference(*model, names_view(stack@), name@),
{
    if text::starts_with_char(name, '/') {
        return text::owned(name);
    }
    let current = if stack.len() > 0 {
        stack[stack.len() - 1].clone()
    } else {
        model.state.vertex.element.qualified_name.clone()
    };
    let owner = if model.get_transition(current.as_str()).is_some() {
        text::owned(dirname(current.as_str()))
    } else {
        current
    };
    let local_name = join(owner.as_str(), name);
    if assoc::contains_key(&model.members, local_name.as_str()) {
        local_name
    } else {
        join(model.state.vertex.element.qualified_name.as_str(), name)
    }
}

/// `n` names a choice pseudostate.
pub open spec fn names_choice(m: Model, n: Seq<char>) -> bool {
    m.member(n) matches Some(ElementView::Vertex(v)) && kind::spec_is_kind(v.element.kind, kind::CHOICE)
}

/// The innermost name on `stack` that is the machine, one of its states, or
/// a choice (the machine when there is none).
pub open spec fn stack_context(m: Model, stack: Seq<Seq<char>>) -> Seq<char>
    decreases stack.len(),
{
    if stack.len() == 0 {
        m.root()
    } else if stack.last() == m.root() || m.state_of(stack.last()) is Some || names_choice(m, stack.last()) {
        stack.last()
    } else {
        stack_context(m, stack.drop_last())
    }
}

/// Whether `name` names a choice pseudostate.
fn is_choice_vertex(model: &Model, name: &str) -> (r: bool)
    ensures
        r == names_choice(*model, name@),
{
    match model.get_member(name) {
        Some(ElementVariant::Vertex(v)) => kind::is_kind(v.element.kind, kind::CHOICE),
        _ => false,
    }
}

/// Where relative endpoints named inside the element on top of `stack` are
/// resolved.
fn transition_endpoint_context(model: &Model, stack: &Vec<String>) -> (r: String)
    ensures
        r@ == stack_context(*model, names_view(stack@)),
{
    let mut i = stack.len();
    let root = model.state.vertex.element.qualified_name.as_str();
    proof {
        assert(names_view(stack@).take(stack@.len() as int) =~= names_view(stack@));
    }
    while i > 0
        invariant
            0 <= i <= stack@.len(),
            root@ == model.root(),
            stack_context(*model, names_view(stack@).take(i as int)) == stack_context(*model, names_view(stack@)),
        decreases i,
    {
        let ghost t = names_view(stack@).take(i as int);
        proof {
            assert(t.drop_last() =~= names_view(stack@).take(i - 1));
            assert(t.last() == stack@[i - 1]@);
        }
        let name = stack[i - 1].as_str();
        if text::str_eq(name, root) || model.get_state(name).is_some() || is_choice_vertex(model, name) {
            return text::owned(name);
        }
        i -= 1;
    }
    proof {
        assert(names_view(stack@).take(stack@.len() as int) =~= names_view(stack@));
    }
    text::owned(root)
}

/// The members that are states, pseudostates or transitions.
pub open spec fn structural_count(members: Seq<(String, ElementVariant)>) -> nat
    decreases members.len(),
{
    if members.len() == 0 {
        0
    } else {
        structural_count(members.drop_last()) + (match members.last().1 {
            ElementVariant::State(_) | ElementVariant::Vertex(_) | ElementVariant::Transition(_) => 1nat,
            _ => 0nat,
        })
    }
}

/// One more than the number of states, pseudostates and transitions.
fn structural_member_count(model: &Model) -> (r: u128)
    ensures
        r == structural_count(model.members@) + 1,
{
    let mut count: u128 = 1;
    let mut i: usize = 0;
    while i < model.members.len()
        invariant
            0 <= i <= model.members@.len(),
            count == structural_count(model.members@.take(i as int)) + 1,
            count <= i + 1,
        decreases model.members@.len() - i,
    {
        proof {
            assert(model.members@.take(i + 1).drop_last() =~= model.members@.take(i as int));
        }
        match &model.members[i].1 {
            ElementVariant::State(_) | ElementVariant::Vertex(_) | ElementVariant::Transition(_) => {
                count = count + 1;
            },
            _ => {},
        }
        i += 1;
    }
    proof {
        assert(model.members@.take(model.members@.len() as int) =~= model.members@);
    }
    count
}

/// The name of the `index`-th hook with this prefix, under the machine.
pub open spec fn hook_name(root: Seq<char>, prefix: Seq<char>, index: nat) -> Seq<char> {
    spec_join(root, prefix + seq!['_'] + text::decimal(index))
}

/// Among pairwise different names `f(0)`, ..., `f(len)`, one is not a key of
/// a list of `len` entries.
pub proof fn lemma_some_name_free<V>(members: Seq<(String, V)>, f: spec_fn(nat) -> Seq<char>)
    requires
        forall|i: nat, j: nat| i <= members.len() && j <= members.len() && i != j ==> #[trigger] f(i) != #[trigger] f(j),
    ensures
        exists|k: nat| k <= members.len() && !has_key(members, #[trigger] f(k)),
{
    let len = members.len();
    if forall|k: nat| k <= len ==> has_key(members, #[trigger] f(k)) {
        let x = set_int_range(0, len as int + 1);
        let g = |k: int| find_index(members, f(k as nat));
        lemma_int_range(0, len as int + 1);
        lemma_int_range(0, len as int);
        assert forall|a: int, b: int| x.contains(a) && x.contains(b) && #[trigger] g(a) == #[trigger] g(b) implies a == b by {
            assert(has_key(members, f(a as nat)));
            assert(has_key(members, f(b as nat)));
            assoc::lemma_find_index(members, f(a as nat));
            assoc::lemma_find_index(members, f(b as nat));
        }
        assert(injective_on(g, x));
        let y = x.map(g);
        lemma_map_size(x, y, g);
        assert forall|v: int| y.contains(v) implies set_int_range(0, len as int).contains(v) by {
            let a = choose|a: int| x.contains(a) && g(a) == v;
            assert(has_key(members, f(a as nat)));
            assoc::lemma_find_index(members, f(a as nat));
        }
        lemma_len_subset(y, set_int_range(0, len as int));
        assert(false);
    }
}

/// Hook names with different indices differ.
pub proof fn lemma_hook_names_differ(root: Seq<char>, prefix: Seq<char>, i: nat, j: nat)
    requires
        i != j,
    ensures
        hook_name(root, prefix, i) != hook_name(root, prefix, j),
{
    let a = prefix + seq!['_'] + text::decimal(i);
    let b = prefix + seq!['_'] + text::decimal(j);
    if hook_name(root, prefix, i) == hook_name(root, prefix, j) {
        assert(a.len() > 0 && b.len() > 0);
        assert(a[0] == b[0]) by {
            if prefix.len() == 0 {
                assert(a[0] == '_' && b[0] == '_');
            } else {
                assert(a[0] == prefix[0] && b[0] == prefix[0]);
            }
        }
        let ha = hook_name(root, prefix, i);
        if a[0] == '/' {
        } else if root == seq!['/'] {
            assert(a =~= ha.subrange(1, ha.len() as int));
            assert(b =~= ha.subrange(1, ha.len() as int));
        } else if root.len() == 0 {
        } else {
            assert(a =~= ha.subrange(root.len() as int + 1, ha.len() as int));
            assert(b =~= ha.subrange(root.len() as int + 1, ha.len() as int));
        }
        assert(a == b);
        let k = prefix.len() + 1;
        assert(text::decimal(i) =~= a.subrange(k as int, a.len() as int));
        assert(text::decimal(j) =~= b.subrange(k as int, b.len() as int));
        text::lemma_decimal_injective(i, j);
    }
}

/// The first hook name with this prefix that names no member.
fn unique_model_hook_name(model: &Model, prefix: &str) -> (r: String)
    ensures
        !has_key(model.members@, r@),
        exists|k: nat| r@ == hook_name(model.root(), prefix@, k) && forall|j: nat| j < k ==> has_key(model.members@, #[trigger] hook_name(model.root(), prefix@, j)),
{
    let owner = model.state.vertex.element.qualified_name.as_str();
    let ghost f = |k: nat| hook_name(model.root(), prefix@, k);
    proof {
        reveal_strlit("_");
        assert("_"@ =~= seq!['_']);
        assert forall|i: nat, j: nat| i <= model.members@.len() && j <= model.members@.len() && i != j implies #[trigger] f(i) != #[trigger] f(j) by {
            lemma_hook_names_differ(model.root(), prefix@, i, j);
        }
        lemma_some_name_free(model.members@, f);
        let k = choose|k: nat| k <= model.members@.len() && !has_key(model.members@, #[trigger] f(k));
        assert(f(k) == hook_name(model.root(), prefix@, k));
    }
    let mut index: usize = 0;
    loop
        invariant
            index <= model.members@.len(),
            owner@ == model.root(),
            "_"@ == seq!['_'],
            exists|k: nat| k <= model.members@.len() && !has_key(model.members@, #[trigger] hook_name(model.root(), prefix@, k)),
            forall|j: nat| j < index ==> has_key(model.members@, #[trigger] hook_name(model.root(), prefix@, j)),
        decreases model.members@.len() - index,
    {
        let local = text::concat3(prefix, "_", text::usize_to_string(index).as_str());
        let qualified_name = join(owner, local.as_str());
        assert(qualified_name@ == hook_name(model.root(), prefix@, index as nat));
        if !assoc::contains_key(&model.members, qualified_name.as_str()) {
            return qualified_name;
        }
        if index == model.members.len() {
            proof {
                let k = choose|k: nat| k <= model.members@.len() && !has_key(model.members@, #[trigger] hook_name(model.root(), prefix@, k));
                if k < index {
                    assert(has_key(model.members@, hook_name(model.root(), prefix@, k)));
                }
                assert(false);
            }
            return qualified_name;
        }
        index += 1;
    }
}

/// The qualified name on top of the stack.
pub open spec fn top(stack: Seq<String>) -> Seq<char> {
    stack.last()@
}

/// The qualified name on top of the stack, or `/` when it is empty.
pub open spec fn top_or_slash(stack: Seq<String>) -> Seq<char> {
    if stack.len() > 0 {
        stack.last()@
    } else {
        seq!['/']
    }
}

/// The qualified name on top of the stack, or the machine's when it is empty.
pub open spec fn top_or_root(m: Model, stack: Seq<String>) -> Seq<char> {
    if stack.len() > 0 {
        stack.last()@
    } else {
        m.root()
    }
}

/// Every member of `a` is still a member of `b`.
pub open spec fn keeps_members(a: Model, b: Model) -> bool {
    &&& b.root() == a.root()
    &&& forall|n: Seq<char>| has_key(a.members@, n) ==> #[trigger] has_key(b.members@, n)
}

/// `b` is `a` with at most the members named in `names` changed.
pub open spec fn same_except(a: Model, b: Model, names: Set<Seq<char>>) -> bool {
    &&& b.state == a.state
    &&& b.transition_map == a.transition_map
    &&& b.deferred_map == a.deferred_map
    &&& b.history_updates == a.history_updates
    &&& b.attributes == a.attributes
    &&& forall|n: Seq<char>| !names.contains(n) ==> #[trigger] b.member(n) == a.member(n)
}

/// `e` with `f` applied when it is a transition.
pub open spec fn on_transition(e: Option<ElementView>, f: spec_fn(TransitionView) -> TransitionView) -> Option<ElementView> {
    match e {
        Some(ElementView::Transition(t)) => Some(ElementView::Transition(f(t))),
        _ => e,
    }
}

/// `e` with `f` applied when it is a state.
pub open spec fn on_state(e: Option<ElementView>, f: spec_fn(StateView) -> StateView) -> Option<ElementView> {
    match e {
        Some(ElementView::State(s)) => Some(ElementView::State(f(s))),
        _ => e,
    }
}

/// `e` with `f` applied when it is a pseudostate.
pub open spec fn on_vertex(e: Option<ElementView>, f: spec_fn(VertexView) -> VertexView) -> Option<ElementView> {
    match e {
        Some(ElementView::Vertex(v)) => Some(ElementView::Vertex(f(v))),
        _ => e,
    }
}

/// A copy of the transition named `qn`.
fn transition_copy(model: &Model, qn: &str) -> (r: Option<Transition>)
    ensures
        model.member(qn@) matches Some(ElementView::Transition(t)) ==> (r matches Some(x) && x@ == t),
        !(model.member(qn@) is Some && model.member(qn@)->0 is Transition) ==> r is None,
{
    match model.get_member(qn) {
        Some(ElementVariant::Transition(t)) => Some(t.clone()),
        _ => None,
    }
}

/// A copy of the state named `qn`.
fn state_copy(model: &Model, qn: &str) -> (r: Option<State>)
    ensures
        model.member(qn@) matches Some(ElementView::State(s)) ==> (r matches Some(x) && x@ == s),
        !(model.member(qn@) is Some && model.member(qn@)->0 is State) ==> r is None,
{
    match model.get_member(qn) {
        Some(ElementVariant::State(s)) => Some(s.clone()),
        _ => None,
    }
}

/// A copy of the pseudostate named `qn`.
fn vertex_copy(model: &Model, qn: &str) -> (r: Option<Vertex>)
    ensures
        model.member(qn@) matches Some(ElementView::Vertex(v)) ==> (r matches Some(x) && x@ == v),
        !(model.member(qn@) is Some && model.member(qn@)->0 is Vertex) ==> r is None,
{
    match model.get_member(qn) {
        Some(ElementVariant::Vertex(v)) => Some(v.clone()),
        _ => None,
    }
}

/// `dst` followed by `src`.
fn append_names(dst: &mut Vec<String>, src: &Vec<String>)
    ensures
        names_view(final(dst)@) == names_view(old(dst)@) + names_view(src@),
{
    let ghost start = names_view(dst@);
    let mut i: usize = 0;
    while i < src.len()
        invariant
            0 <= i <= src@.len(),
            names_view(dst@) == start + names_view(src@).take(i as int),
        decreases src@.len() - i,
    {
        let ghost before = dst@;
        dst.push(src[i].clone());
        proof {
            assert(names_view(src@)[i as int] == src@[i as int]@);
            assert(names_view(dst@) =~= names_view(before).push(src@[i as int]@));
            assert(names_view(src@).take(i + 1) =~= names_view(src@).take(i as int).push(src@[i as int]@));
            assert(names_view(dst@) =~= start + names_view(src@).take(i + 1));
        }
        i += 1;
    }
    proof {
        assert(names_view(src@).take(src@.len() as int) =~= names_view(src@));
    }
}

/// Replaces the transition named `qn` (the caller read it from there).
fn put_transition(model: &mut Model, qn: &str, t: Transition)
    ensures
        same_except(*old(model), *final(model), set![qn@]),
        final(model).member(qn@) == Some(ElementView::Transition(t@)),
        forall|n: Seq<char>| #[trigger] has_key(final(model).members@, n) == (n == qn@ || has_key(old(model).members@, n)),
        keeps_members(*old(model), *final(model)),
{
    model.set_member(text::owned(qn), ElementVariant::Transition(t));
}

/// Adds `events` to the transition named `qn`.
fn add_transition_events(model: &mut Model, qn: &str, events: &Vec<String>)
    ensures
        same_except(*old(model), *final(model), set![qn@]),
        keeps_members(*old(model), *final(model)),
        final(model).member(qn@) == on_transition(old(model).member(qn@), |t: TransitionView| TransitionView { events: t.events + names_view(events@), ..t }),
{
    match transition_copy(model, qn) {
        Some(mut t) => {
            append_names(&mut t.events, events);
            put_transition(model, qn, t);
            assert(final(model).member(qn@) == on_transition(old(model).member(qn@), |t: TransitionView| TransitionView { events: t.events + names_view(events@), ..t }));
        },
        None => {},
    }
}

/// Joining a relative, non-empty path gives a name other than the base.
pub proof fn lemma_join_differs(base: Seq<char>, path: Seq<char>)
    requires
        path.len() > 0,
        path[0] != '/',
    ensures
        spec_join(base, path) != base,
{
    if base != seq!['/'] && base.len() > 0 {
        assert(spec_join(base, path).len() > base.len());
    } else if base == seq!['/'] {
        assert(spec_join(base, path).len() >= 2);
    }
}

/// Joining to the same base keeps relative, non-empty paths apart.
pub proof fn lemma_join_injective(base: Seq<char>, a: Seq<char>, b: Seq<char>)
    requires
        a.len() > 0,
        a[0] != '/',
        b.len() > 0,
        b[0] != '/',
        spec_join(base, a) == spec_join(base, b),
    ensures
        a == b,
{
    let j = spec_join(base, a);
    if base == seq!['/'] {
        assert(a =~= j.subrange(1, j.len() as int));
        assert(b =~= j.subrange(1, j.len() as int));
    } else if base.len() > 0 {
        assert(a =~= j.subrange(base.len() as int + 1, j.len() as int));
        assert(b =~= j.subrange(base.len() as int + 1, j.len() as int));
    }
}

/// Where a behavior that runs a named operation is attached.
#[derive(Clone, Copy, PartialEq, Eq, Structural)]
pub enum BehaviorRole {
    Entry,
    Exit,
    Activity,
    Effect,
}

impl BehaviorRole {
    pub open spec fn spec_name(self) -> Seq<char> {
        match self {
            BehaviorRole::Entry => seq!['e', 'n', 't', 'r', 'y'],
            BehaviorRole::Exit => seq!['e', 'x', 'i', 't'],
            BehaviorRole::Activity => seq!['a', 'c', 't', 'i', 'v', 'i', 't', 'y'],
            BehaviorRole::Effect => seq!['e', 'f', 'f', 'e', 'c', 't'],
        }
    }

    fn name(self) -> (r: &'static str)
        ensures
            r@ == self.spec_name(),
    {
        match self {
            BehaviorRole::Entry => {
                proof {
                    reveal_strlit("entry");
                }
                let r = "entry";
                assert(r@ =~= self.spec_name());
                r
            },
            BehaviorRole::Exit => {
                proof {
                    reveal_strlit("exit");
                }
                let r = "exit";
                assert(r@ =~= self.spec_name());
                r
            },
            BehaviorRole::Activity => {
                proof {
                    reveal_strlit("activity");
                }
                let r = "activity";
                assert(r@ =~= self.spec_name());
                r
            },
            BehaviorRole::Effect => {
                proof {
                    reveal_strlit("effect");
                }
                let r = "effect";
                assert(r@ =~= self.spec_name());
                r
            },
        }
    }
}

/// The kind of a behavior in this role.
pub open spec fn role_kind(role: BehaviorRole) -> KindValue {
    if role is Activity {
        kind::CONCURRENT
    } else {
        kind::BEHAVIOR
    }
}

/// A behavior named `name` that runs the handle `op` in this role.
pub open spec fn role_behavior(role: BehaviorRole, name: Seq<char>, op: u64) -> BehaviorView {
    BehaviorView {
        element: NamedElementView { kind: role_kind(role), qualified_name: name },
        entry: if role is Entry { Some(op) } else { None },
        effect: if role is Effect { Some(op) } else { None },
        exit: if role is Exit { Some(op) } else { None },
        activity: if role is Activity { Some(op) } else { None },
        operation: None,
    }
}

/// `e` with `names` added to its list for this role: a state's entry, exit
/// or activities, or a transition's effects.
pub open spec fn role_list_push(e: Option<ElementView>, role: BehaviorRole, names: Seq<Seq<char>>) -> Option<ElementView> {
    match role {
        BehaviorRole::Entry => on_state(e, |s: StateView| StateView { entry: s.entry + names, ..s }),
        BehaviorRole::Exit => on_state(e, |s: StateView| StateView { exit: s.exit + names, ..s }),
        BehaviorRole::Activity => on_state(e, |s: StateView| StateView { activities: s.activities + names, ..s }),
        BehaviorRole::Effect => on_transition(e, |t: TransitionView| TransitionView { effect: t.effect + names, ..t }),
    }
}

/// The local name of the `i`-th behavior in this role (`entry`, `entry_1`, ...).
pub open spec fn indexed_name(base: Seq<char>, i: nat) -> Seq<char> {
    if i == 0 {
        base
    } else {
        base + seq!['_'] + text::decimal(i)
    }
}

/// The name of the `i`-th behavior in this role under `owner`.
pub open spec fn generated_name(owner: Seq<char>, role: BehaviorRole, i: nat) -> Seq<char> {
    spec_join(owner, indexed_name(role.spec_name(), i))
}

pub open spec fn generated_names(owner: Seq<char>, role: BehaviorRole, n: nat) -> Seq<Seq<char>> {
    Seq::new(n, |i: int| generated_name(owner, role, i as nat))
}

pub proof fn lemma_generated_names(owner: Seq<char>, role: BehaviorRole, i: nat, j: nat)
    ensures
        generated_name(owner, role, i) != owner,
        i != j ==> generated_name(owner, role, i) != generated_name(owner, role, j),
{
    let base = role.spec_name();
    let a = indexed_name(base, i);
    let b = indexed_name(base, j);
    assert(a.len() > 0 && a[0] == base[0] && a[0] != '/');
    assert(b.len() > 0 && b[0] == base[0] && b[0] != '/');
    lemma_join_differs(owner, a);
    if i != j && generated_name(owner, role, i) == generated_name(owner, role, j) {
        lemma_join_injective(owner, a, b);
        if i == 0 {
            assert(b.len() > a.len());
        } else if j == 0 {
            assert(a.len() > b.len());
        } else {
            let k = base.len() + 1;
            assert(text::decimal(i) =~= a.subrange(k as int, a.len() as int));
            assert(text::decimal(j) =~= b.subrange(k as int, b.len() as int));
            text::lemma_decimal_injective(i, j);
        }
    }
}

/// The local name of the `i`-th behavior with this base name.
fn indexed_local_name(base: &str, i: usize) -> (r: String)
    ensures
        r@ == indexed_name(base@, i as nat),
{
    if i == 0 {
        text::owned(base)
    } else {
        proof {
            reveal_strlit("_");
            assert("_"@ =~= seq!['_']);
        }
        text::concat3(base, "_", text::usize_to_string(i).as_str())
    }
}

/// Adds `name` to the owner's list for this role.
fn push_role_name(model: &mut Model, owner: &str, role: BehaviorRole, name: &str)
    ensures
        same_except(*old(model), *final(model), set![owner@]),
        keeps_members(*old(model), *final(model)),
        final(model).member(owner@) == role_list_push(old(model).member(owner@), role, seq![name@]),
{
    if role == BehaviorRole::Effect {
        match transition_copy(model, owner) {
            Some(mut t) => {
                t.effect.push(text::owned(name));
                assert(names_view(t.effect@) =~= old(model).member(owner@)->0->Transition_0.effect + seq![name@]);
                put_transition(model, owner, t);
            },
            None => {},
        }
    } else {
        match state_copy(model, owner) {
            Some(mut st) => {
                let ghost sv = st@;
                match role {
                    BehaviorRole::Entry => {
                        st.entry.push(text::owned(name));
                        assert(names_view(st.entry@) =~= sv.entry + seq![name@]);
                    },
                    BehaviorRole::Exit => {
                        st.exit.push(text::owned(name));
                        assert(names_view(st.exit@) =~= sv.exit + seq![name@]);
                    },
                    _ => {
                        st.activities.push(text::owned(name));
                        assert(names_view(st.activities@) =~= sv.activities + seq![name@]);
                    },
                }
                model.set_member(text::owned(owner), ElementVariant::State(st));
            },
            None => {},
        }
    }
}

/// One behavior per handle, each named after the role under `owner`
/// (`entry`, `entry_1`, ...), appended to the owner's list for the role.
fn add_behaviors(model: &mut Model, owner: &str, role: BehaviorRole, ops: &Vec<u64>)
    ensures
        same_except(*old(model), *final(model), set![owner@] + generated_names(owner@, role, ops@.len()).to_set()),
        keeps_members(*old(model), *final(model)),
        forall|i: int| 0 <= i < ops@.len() ==> #[trigger] final(model).member(generated_name(owner@, role, i as nat)) == Some(ElementView::Behavior(role_behavior(role, generated_name(owner@, role, i as nat), ops@[i]))),
        final(model).member(owner@) == role_list_push(old(model).member(owner@), role, generated_names(owner@, role, ops@.len())),
{
    let ghost m0 = *model;
    let mut i: usize = 0;
    proof {
        assert(generated_names(owner@, role, 0) =~= Seq::<Seq<char>>::empty());
        assert(role_list_push(m0.member(owner@), role, seq![]) == m0.member(owner@)) by {
            assert(forall|x: Seq<Seq<char>>| x + seq![] =~= x);
        }
    }
    while i < ops.len()
        invariant
            0 <= i <= ops@.len(),
            same_except(m0, *model, set![owner@] + generated_names(owner@, role, i as nat).to_set()),
            keeps_members(m0, *model),
            forall|k: int| 0 <= k < i ==> #[trigger] model.member(generated_name(owner@, role, k as nat)) == Some(ElementView::Behavior(role_behavior(role, generated_name(owner@, role, k as nat), ops@[k]))),
            model.member(owner@) == role_list_push(m0.member(owner@), role, generated_names(owner@, role, i as nat)),
        decreases ops@.len() - i,
    {
        let ghost m1 = *model;
        let local = indexed_local_name(role.name(), i);
        let name = join(owner, local.as_str());
        let ghost gn = generated_name(owner@, role, i as nat);
        assert(name@ == gn);
        let ghost names_i = generated_names(owner@, role, i as nat);
        let ghost names_next = generated_names(owner@, role, i as nat + 1);
        proof {
            lemma_generated_names(owner@, role, i as nat, i as nat);
            assert(names_next =~= names_i.push(gn));
        }
        let behavior = Behavior {
            element: NamedElement { kind: if role == BehaviorRole::Activity { kind::CONCURRENT } else { kind::BEHAVIOR }, qualified_name: name.clone() },
            entry: if role == BehaviorRole::Entry { Some(ops[i]) } else { None },
            effect: if role == BehaviorRole::Effect { Some(ops[i]) } else { None },
            exit: if role == BehaviorRole::Exit { Some(ops[i]) } else { None },
            activity: if role == BehaviorRole::Activity { Some(ops[i]) } else { None },
            operation: None,
        };
        assert(behavior@ == role_behavior(role, gn, ops@[i as int]));
        let listed = name.clone();
        model.set_member(name, ElementVariant::Behavior(behavior));
        let ghost m2 = *model;
        push_role_name(model, owner, role, listed.as_str());
        proof {
            assert(m2.member(owner@) == m1.member(owner@));
            assert(role_list_push(role_list_push(m0.member(owner@), role, names_i), role, seq![gn]) == role_list_push(m0.member(owner@), role, names_i + seq![gn])) by {
                match m0.member(owner@) {
                    Some(ElementView::State(sv)) => {
                        assert(sv.entry + names_i + seq![gn] =~= sv.entry + (names_i + seq![gn]));
                        assert(sv.exit + names_i + seq![gn] =~= sv.exit + (names_i + seq![gn]));
                        assert(sv.activities + names_i + seq![gn] =~= sv.activities + (names_i + seq![gn]));
                    },
                    Some(ElementView::Transition(tv)) => {
                        assert(tv.effect + names_i + seq![gn] =~= tv.effect + (names_i + seq![gn]));
                    },
                    _ => {},
                }
            }
            assert(names_i + seq![gn] =~= names_next);
            assert forall|k: int| 0 <= k < i + 1 implies #[trigger] model.member(generated_name(owner@, role, k as nat)) == Some(ElementView::Behavior(role_behavior(role, generated_name(owner@, role, k as nat), ops@[k]))) by {
                lemma_generated_names(owner@, role, k as nat, i as nat);
            }
            assert forall|n: Seq<char>| !(set![owner@] + names_next.to_set()).contains(n) implies #[trigger] model.member(n) == m0.member(n) by {
                assert(!names_next.contains(n));
                if names_i.contains(n) {
                    let k = choose|k: int| 0 <= k < names_i.len() && names_i[k] == n;
                    assert(names_next[k] == n);
                }
                assert(n != gn) by {
                    assert(names_next[i as int] == gn);
                }
                assert(!(set![owner@] + names_i.to_set()).contains(n));
            }
        }
        i += 1;
    }
}

/// A state with the elements declared inside it.
pub struct PartialState {
    pub name: String,
    pub elements: Vec<Partial>,
}

/// A state that holds a copy of another machine.
pub struct PartialSubmachineState {
    pub name: String,
    pub machine: Model,
    pub elements: Vec<Partial>,
}

/// A transition with the elements that shape it.
pub struct PartialTransition {
    pub name: String,
    pub elements: Vec<Partial>,
}

/// The source of the enclosing transition.
pub struct PartialSource {
    pub source: String,
}

/// The target of the enclosing transition.
pub struct PartialTarget {
    pub target: String,
}

/// Events that trigger the enclosing transition.
pub struct PartialTrigger {
    pub events: Vec<String>,
}

/// The enclosing transition fires when the named attribute is set.
pub struct PartialOnSet {
    pub name: String,
}

/// The enclosing transition fires when the named operation is called.
pub struct PartialOnCall {
    pub name: String,
}

/// An attribute of the machine, with an optional default value.
pub struct PartialAttribute {
    pub name: String,
    pub default_value: Option<Arc<AttributeValue>>,
}

/// An operation that runs an action.
pub struct PartialOperation {
    pub name: String,
    pub action: OperationFn,
}

/// An operation that evaluates a guard.
pub struct PartialGuardOperation {
    pub name: String,
    pub guard: GuardFn,
}

/// Effects of the enclosing transition.
pub struct PartialEffect {
    pub operations: Vec<EffectFn>,
}

/// Entry actions of the enclosing state.
pub struct PartialEntry {
    pub operations: Vec<EntryFn>,
}

/// Exit actions of the enclosing state.
pub struct PartialExit {
    pub operations: Vec<ExitFn>,
}

/// Activities of the enclosing state.
pub struct PartialActivity {
    pub operations: Vec<ActivityFn>,
}

/// The guard of the enclosing transition.
pub struct PartialGuard {
    pub expression: GuardFn,
}

/// A behavior of the enclosing element that runs a named operation.
pub struct PartialBehaviorOperation {
    pub name: String,
    pub role: BehaviorRole,
}

/// An observer of behaviors and transitions.
pub struct PartialObserve {
    pub observer: OperationFn,
    pub targets: Vec<String>,
}

/// A custom validator of the machine.
pub struct PartialValidator {
    pub validator: ValidatorFn,
}

/// A custom finalizer of the machine.
pub struct PartialFinalizer {
    pub finalizer: FinalizerFn,
}

/// The guard of the enclosing transition is a named operation.
pub struct PartialGuardOperationRef {
    pub name: String,
}

/// The initial pseudostate of the enclosing state, with its transition.
pub struct PartialInitial {
    pub name: String,
    pub elements: Vec<Partial>,
}

/// A choice pseudostate.
pub struct PartialChoice {
    pub name: String,
    pub elements: Vec<Partial>,
}

/// An entry point, or the entry point the enclosing transition enters by.
pub struct PartialEntryPoint {
    pub name: String,
    pub elements: Vec<Partial>,
}

/// An exit point, or the exit point the enclosing transition leaves by.
pub struct PartialExitPoint {
    pub name: String,
    pub elements: Vec<Partial>,
}

/// A shallow or deep history pseudostate.
pub struct PartialHistory {
    pub name: String,
    pub kind: KindValue,
    pub elements: Vec<Partial>,
}

/// A final state.
pub struct PartialFinalState {
    pub name: String,
}

/// Events the enclosing state defers.
pub struct PartialDefer {
    pub events: Vec<String>,
}

/// The enclosing transition fires after a duration.
pub struct PartialAfter {
    pub duration_fn: DurationFn,
}

/// The enclosing transition fires at a point in time.
pub struct PartialAt {
    pub timepoint_fn: TimepointFn,
}

/// The enclosing transition fires at every period.
pub struct PartialEvery {
    pub duration_fn: DurationFn,
}

/// Any declared element of a model.
pub enum Partial {
    State(PartialState),
    SubmachineState(PartialSubmachineState),
    Transition(PartialTransition),
    Source(PartialSource),
    Target(PartialTarget),
    Trigger(PartialTrigger),
    OnSet(PartialOnSet),
    OnCall(PartialOnCall),
    Attribute(PartialAttribute),
    Operation(PartialOperation),
    GuardOperation(PartialGuardOperation),
    Effect(PartialEffect),
    Entry(PartialEntry),
    Exit(PartialExit),
    Activity(PartialActivity),
    Guard(PartialGuard),
    BehaviorOperation(PartialBehaviorOperation),
    Observe(PartialObserve),
    Validator(PartialValidator),
    Finalizer(PartialFinalizer),
    GuardOperationRef(PartialGuardOperationRef),
    Initial(PartialInitial),
    Choice(PartialChoice),
    EntryPoint(PartialEntryPoint),
    ExitPoint(PartialExitPoint),
    History(PartialHistory),
    FinalState(PartialFinalState),
    Defer(PartialDefer),
    After(PartialAfter),
    At(PartialAt),
    Every(PartialEvery),
}

/// No deferral is declared anywhere in `p` (the only element that can fail).
pub open spec fn defer_free(p: Partial) -> bool
    decreases p,
{
    match p {
        Partial::State(x) => {
            proof {
                assert(decreases_to!(x.elements => x.elements@));
            }
            elements_defer_free(x.elements@)
        },
        Partial::SubmachineState(x) => {
            proof {
                assert(decreases_to!(x.elements => x.elements@));
            }
            elements_defer_free(x.elements@)
        },
        Partial::Transition(x) => {
            proof {
                assert(decreases_to!(x.elements => x.elements@));
            }
            elements_defer_free(x.elements@)
        },
        Partial::Initial(x) => {
            proof {
                assert(decreases_to!(x.elements => x.elements@));
            }
            elements_defer_free(x.elements@)
        },
        Partial::Choice(x) => {
            proof {
                assert(decreases_to!(x.elements => x.elements@));
            }
            elements_defer_free(x.elements@)
        },
        Partial::EntryPoint(x) => {
            proof {
                assert(decreases_to!(x.elements => x.elements@));
            }
            elements_defer_free(x.elements@)
        },
        Partial::ExitPoint(x) => {
            proof {
                assert(decreases_to!(x.elements => x.elements@));
            }
            elements_defer_free(x.elements@)
        },
        Partial::History(x) => {
            proof {
                assert(decreases_to!(x.elements => x.elements@));
            }
            elements_defer_free(x.elements@)
        },
        Partial::Defer(_) => false,
        _ => true,
    }
}

/// No deferral is declared anywhere among `s`.
pub open spec fn elements_defer_free(s: Seq<Partial>) -> bool
    decreases s,
{
    if s.len() == 0 {
        true
    } else {
        defer_free(s[0]) && elements_defer_free(s.subrange(1, s.len() as int))
    }
}

pub proof fn lemma_elements_defer_free(s: Seq<Partial>, i: int)
    requires
        elements_defer_free(s),
        0 <= i < s.len(),
    ensures
        defer_free(s[i]),
    decreases s.len(),
{
    if i > 0 {
        lemma_elements_defer_free(s.subrange(1, s.len() as int), i - 1);
        assert(s.subrange(1, s.len() as int)[i - 1] == s[i]);
    }
}

/// Values that name what an observer watches.
pub trait IntoObservationTarget {
    spec fn spec_target(&self) -> Seq<char>;

    fn into_observation_target(self) -> (r: String)
        ensures
            r@ == self.spec_target(),
    ;
}

impl IntoObservationTarget for &str {
    open spec fn spec_target(&self) -> Seq<char> {
        (*self)@
    }

    fn into_observation_target(self) -> String {
        text::owned(self)
    }
}

impl IntoObservationTarget for String {
    open spec fn spec_target(&self) -> Seq<char> {
        self@
    }

    fn into_observation_target(self) -> String {
        self
    }
}

impl IntoObservationTarget for &String {
    open spec fn spec_target(&self) -> Seq<char> {
        (*self)@
    }

    fn into_observation_target(self) -> String {
        self.clone()
    }
}

impl IntoObservationTarget for Event {
    open spec fn spec_target(&self) -> Seq<char> {
        self.name@
    }

    fn into_observation_target(self) -> String {
        self.name
    }
}

impl IntoObservationTarget for &Event {
    open spec fn spec_target(&self) -> Seq<char> {
        (*self).name@
    }

    fn into_observation_target(self) -> String {
        self.name.clone()
    }
}

/// A constraint named `qn` holding one of a guard, an operation, a duration
/// or a timepoint.
pub open spec fn constraint_view(
    qn: Seq<char>,
    guard: Option<GuardFn>,
    operation: Option<Seq<char>>,
    duration: Option<DurationFn>,
    timepoint: Option<TimepointFn>,
) -> ConstraintView {
    ConstraintView { element: NamedElementView { kind: kind::CONSTRAINT, qualified_name: qn }, guard, operation, duration, timepoint }
}

/// The attribute declared as `declared` under the name `qn`.
pub open spec fn attribute_view(qn: Seq<char>, declared: Seq<char>, default_value: Option<Arc<AttributeValue>>) -> AttributeView {
    AttributeView {
        element: NamedElementView { kind: kind::ATTRIBUTE, qualified_name: qn },
        declared_name: declared,
        value_type: crate::element::opt_value_type(default_value),
        default_type: crate::element::opt_value_type(default_value),
        default_value: crate::element::opt_value(default_value),
    }
}

/// Where a source or target named inside the element on top of `stack` resolves.
pub open spec fn resolved_endpoint(m: Model, stack: Seq<String>, path: Seq<char>) -> Seq<char> {
    spec_resolve_relative_path(stack_context(m, names_view(stack)), path)
}

fn resolve_endpoint(model: &Model, stack: &Vec<String>, path: &str) -> (r: String)
    ensures
        r@ == resolved_endpoint(*model, stack@, path@),
{
    if text::starts_with_char(path, '/') {
        text::owned(path)
    } else {
        let context = transition_endpoint_context(model, stack);
        resolve_relative_path(context.as_str(), path)
    }
}

/// Sets the source of the transition on top of the stack.
pub fn apply_source(p: &PartialSource, model: &mut Model, stack: &Vec<String>)
    requires
        stack@.len() > 0,
    ensures
        same_except(*old(model), *final(model), set![top(stack@)]),
        keeps_members(*old(model), *final(model)),
        final(model).member(top(stack@)) == on_transition(old(model).member(top(stack@)), |t: TransitionView| TransitionView { source: resolved_endpoint(*old(model), stack@, p.source@), ..t }),
{
    let qn = stack[stack.len() - 1].as_str();
    let resolved = resolve_endpoint(model, stack, p.source.as_str());
    match transition_copy(model, qn) {
        Some(mut t) => {
            t.source = resolved;
            put_transition(model, qn, t);
        },
        None => {},
    }
}

/// Sets the target of the transition on top of the stack.
pub fn apply_target(p: &PartialTarget, model: &mut Model, stack: &Vec<String>)
    requires
        stack@.len() > 0,
    ensures
        same_except(*old(model), *final(model), set![top(stack@)]),
        keeps_members(*old(model), *final(model)),
        final(model).member(top(stack@)) == on_transition(old(model).member(top(stack@)), |t: TransitionView| TransitionView { target: resolved_endpoint(*old(model), stack@, p.target@), ..t }),
{
    let qn = stack[stack.len() - 1].as_str();
    let resolved = resolve_endpoint(model, stack, p.target.as_str());
    match transition_copy(model, qn) {
        Some(mut t) => {
            t.target = resolved;
            put_transition(model, qn, t);
        },
        None => {},
    }
}

/// Adds the events to the transition on top of the stack.
pub fn apply_trigger(p: &PartialTrigger, model: &mut Model, stack: &Vec<String>)
    requires
        stack@.len() > 0,
    ensures
        same_except(*old(model), *final(model), set![top(stack@)]),
        keeps_members(*old(model), *final(model)),
        final(model).member(top(stack@)) == on_transition(old(model).member(top(stack@)), |t: TransitionView| TransitionView { events: t.events + names_view(p.events@), ..t }),
{
    add_transition_events(model, stack[stack.len() - 1].as_str(), &p.events);
}

/// Adds the call event of the named operation to the transition on top of
/// the stack.
pub fn apply_on_call(p: &PartialOnCall, model: &mut Model, stack: &Vec<String>)
    requires
        stack@.len() > 0,
    ensures
        same_except(*old(model), *final(model), set![top(stack@)]),
        keeps_members(*old(model), *final(model)),
        final(model).member(top(stack@)) == on_transition(old(model).member(top(stack@)), |t: TransitionView| TransitionView { events: t.events.push(call_trigger_view(spec_resolve_model_reference(*old(model), names_view(stack@), p.name@))), ..t }),
{
    let operation_name = resolve_model_reference(model, stack, p.name.as_str());
    let mut events: Vec<String> = Vec::new();
    events.push(call_trigger_name(operation_name.as_str()));
    proof {
        assert forall|x: Seq<Seq<char>>| true implies #[trigger] (x + names_view(events@)) == x.push(call_trigger_view(operation_name@)) by {
            assert(x + names_view(events@) =~= x.push(call_trigger_view(operation_name@)));
        }
    }
    add_transition_events(model, stack[stack.len() - 1].as_str(), &events);
}

/// The event name of a change of the attribute `name`.
pub open spec fn set_event_name(m: Model, name: Seq<char>) -> Seq<char> {
    if name.len() > 0 && name[0] == '/' {
        name
    } else {
        spec_join(m.root(), name)
    }
}

/// Adds the change event of the named attribute to the transition on top of
/// the stack, declaring the attribute (with no default) when it is new.
pub fn apply_on_set(p: &PartialOnSet, model: &mut Model, stack: &Vec<String>)
    requires
        stack@.len() > 0,
    ensures
        ({
            let en = set_event_name(*old(model), p.name@);
            let fresh = !has_key(old(model).attributes@, en);
            let av = attribute_view(en, p.name@, None);
            &&& final(model).state == old(model).state
            &&& final(model).transition_map == old(model).transition_map
            &&& final(model).deferred_map == old(model).deferred_map
            &&& final(model).history_updates == old(model).history_updates
            &&& forall|n: Seq<char>| n != top(stack@) && n != en ==> #[trigger] final(model).member(n) == old(model).member(n)
            &&& (en != top(stack@) || !fresh) ==> final(model).member(top(stack@)) == on_transition(old(model).member(top(stack@)), |t: TransitionView| TransitionView { events: t.events.push(en), ..t })
            &&& fresh ==> final(model).member(en) == Some(ElementView::Attribute(av))
            &&& fresh ==> (table_get(final(model).attributes@, en) matches Some(a) && a@ == av)
            &&& fresh ==> forall|n: Seq<char>| n != en ==> #[trigger] table_get(final(model).attributes@, n) == table_get(old(model).attributes@, n)
            &&& !fresh ==> final(model).attributes == old(model).attributes
        }),
        keeps_members(*old(model), *final(model)),
{
    let event_name = if text::starts_with_char(p.name.as_str(), '/') {
        p.name.clone()
    } else {
        join(model.state.vertex.element.qualified_name.as_str(), p.name.as_str())
    };
    let mut events: Vec<String> = Vec::new();
    events.push(event_name.clone());
    proof {
        assert forall|x: Seq<Seq<char>>| true implies #[trigger] (x + names_view(events@)) == x.push(event_name@) by {
            assert(x + names_view(events@) =~= x.push(event_name@));
        }
    }
    add_transition_events(model, stack[stack.len() - 1].as_str(), &events);
    let ghost after_events = *model;
    proof {
        let q = top(stack@);
        assert(after_events.member(q) == on_transition(old(model).member(q), |t: TransitionView| TransitionView { events: t.events.push(event_name@), ..t })) by {
            match old(model).member(q) {
                Some(ElementView::Transition(t)) => {
                    assert(t.events + names_view(events@) == t.events.push(event_name@));
                },
                _ => {},
            }
        }
    }
    if !assoc::contains_key(&model.attributes, event_name.as_str()) {
        let attribute = Attribute {
            element: NamedElement { kind: kind::ATTRIBUTE, qualified_name: event_name.clone() },
            declared_name: p.name.clone(),
            value_type: None,
            default_value: None,
        };
        let copy = attribute.clone();
        assoc::insert(&mut model.attributes, event_name.clone(), copy);
        let ghost en = event_name@;
        model.set_member(event_name, ElementVariant::Attribute(attribute));
        proof {
            assert forall|n: Seq<char>| n != top(stack@) && n != en implies #[trigger] model.member(n) == old(model).member(n) by {
                assert(!set![top(stack@)].contains(n));
                assert(after_events.member(n) == old(model).member(n));
            }
        }
    }
    proof {
        assert forall|n: Seq<char>| n != top(stack@) && n != event_name@ implies #[trigger] model.member(n) == old(model).member(n) by {
            assert(!set![top(stack@)].contains(n));
            assert(after_events.member(n) == old(model).member(n));
        }
    }
}

/// Declares an attribute under the element on top of the stack (the machine
/// when it is empty).
pub fn apply_attribute(p: &PartialAttribute, model: &mut Model, stack: &Vec<String>)
    ensures
        ({
            let qn = spec_join(top_or_root(*old(model), stack@), p.name@);
            let av = attribute_view(qn, p.name@, p.default_value);
            &&& final(model).state == old(model).state
            &&& final(model).transition_map == old(model).transition_map
            &&& final(model).deferred_map == old(model).deferred_map
            &&& final(model).history_updates == old(model).history_updates
            &&& final(model).member(qn) == Some(ElementView::Attribute(av))
            &&& forall|n: Seq<char>| n != qn ==> #[trigger] final(model).member(n) == old(model).member(n)
            &&& table_get(final(model).attributes@, qn) matches Some(a) && a@ == av
            &&& forall|n: Seq<char>| n != qn ==> #[trigger] table_get(final(model).attributes@, n) == table_get(old(model).attributes@, n)
        }),
        keeps_members(*old(model), *final(model)),
{
    let owner = if stack.len() > 0 {
        stack[stack.len() - 1].clone()
    } else {
        model.state.vertex.element.qualified_name.clone()
    };
    let qualified_name = join(owner.as_str(), p.name.as_str());
    let value_type = match &p.default_value {
        Some(v) => Some(v.value_type()),
        None => None,
    };
    let default_value = match &p.default_value {
        Some(v) => Some(Arc::clone(v)),
        None => None,
    };
    let attribute = Attribute {
        element: NamedElement { kind: kind::ATTRIBUTE, qualified_name: qualified_name.clone() },
        declared_name: p.name.clone(),
        value_type,
        default_value,
    };
    let copy = attribute.clone();
    assoc::insert(&mut model.attributes, qualified_name.clone(), copy);
    model.set_member(qualified_name, ElementVariant::Attribute(attribute));
}

/// Declares an operation with an action under the element on top of the
/// stack (the machine when it is empty).
pub fn apply_operation(p: &PartialOperation, model: &mut Model, stack: &Vec<String>)
    ensures
        ({
            let qn = spec_join(top_or_root(*old(model), stack@), p.name@);
            &&& same_except(*old(model), *final(model), set![qn])
            &&& final(model).member(qn) == Some(ElementView::Operation(OperationView { element: NamedElementView { kind: kind::OPERATION, qualified_name: qn }, action: Some(p.action), guard: None }))
        }),
        keeps_members(*old(model), *final(model)),
{
    let owner = if stack.len() > 0 {
        stack[stack.len() - 1].clone()
    } else {
        model.state.vertex.element.qualified_name.clone()
    };
    let qualified_name = join(owner.as_str(), p.name.as_str());
    let operation = Operation {
        element: NamedElement { kind: kind::OPERATION, qualified_name: qualified_name.clone() },
        action: Some(p.action),
        guard: None,
    };
    model.set_member(qualified_name, ElementVariant::Operation(operation));
}

/// Declares an operation with a guard under the element on top of the stack
/// (the machine when it is empty).
pub fn apply_guard_operation(p: &PartialGuardOperation, model: &mut Model, stack: &Vec<String>)
    ensures
        ({
            let qn = spec_join(top_or_root(*old(model), stack@), p.name@);
            &&& same_except(*old(model), *final(model), set![qn])
            &&& final(model).member(qn) == Some(ElementView::Operation(OperationView { element: NamedElementView { kind: kind::OPERATION, qualified_name: qn }, action: None, guard: Some(p.guard) }))
        }),
        keeps_members(*old(model), *final(model)),
{
    let owner = if stack.len() > 0 {
        stack[stack.len() - 1].clone()
    } else {
        model.state.vertex.element.qualified_name.clone()
    };
    let qualified_name = join(owner.as_str(), p.name.as_str());
    let operation = Operation {
        element: NamedElement { kind: kind::OPERATION, qualified_name: qualified_name.clone() },
        action: None,
        guard: Some(p.guard),
    };
    model.set_member(qualified_name, ElementVariant::Operation(operation));
}

/// Sets a constraint as the guard of the transition on top of the stack.
fn guard_with_constraint(model: &mut Model, qn: &str, constraint: Constraint)
    requires
        constraint@.element.qualified_name == spec_join(qn@, seq!['g', 'u', 'a', 'r', 'd']),
    ensures
        ({
            let gn = spec_join(qn@, seq!['g', 'u', 'a', 'r', 'd']);
            &&& same_except(*old(model), *final(model), set![qn@, gn])
            &&& final(model).member(gn) == Some(ElementView::Constraint(constraint@))
            &&& final(model).member(qn@) == on_transition(old(model).member(qn@), |t: TransitionView| TransitionView { guard: gn, ..t })
        }),
        keeps_members(*old(model), *final(model)),
{
    let ghost gn = spec_join(qn@, seq!['g', 'u', 'a', 'r', 'd']);
    proof {
        lemma_join_differs(qn@, seq!['g', 'u', 'a', 'r', 'd']);
    }
    let guard_name = constraint.element.qualified_name.clone();
    model.set_member(guard_name.clone(), ElementVariant::Constraint(constraint));
    match transition_copy(model, qn) {
        Some(mut t) => {
            t.guard = guard_name;
            put_transition(model, qn, t);
        },
        None => {},
    }
}

/// The name `guard` under the transition `qn`.
fn guard_name_of(qn: &str) -> (r: String)
    ensures
        r@ == spec_join(qn@, seq!['g', 'u', 'a', 'r', 'd']),
{
    proof {
        reveal_strlit("guard");
        assert("guard"@ =~= seq!['g', 'u', 'a', 'r', 'd']);
    }
    join(qn, "guard")
}

/// Guards the transition on top of the stack with a guard handle.
pub fn apply_guard(p: &PartialGuard, model: &mut Model, stack: &Vec<String>)
    requires
        stack@.len() > 0,
    ensures
        ({
            let gn = spec_join(top(stack@), seq!['g', 'u', 'a', 'r', 'd']);
            &&& same_except(*old(model), *final(model), set![top(stack@), gn])
            &&& final(model).member(gn) == Some(ElementView::Constraint(constraint_view(gn, Some(p.expression), None, None, None)))
            &&& final(model).member(top(stack@)) == on_transition(old(model).member(top(stack@)), |t: TransitionView| TransitionView { guard: gn, ..t })
        }),
        keeps_members(*old(model), *final(model)),
{
    let qn = stack[stack.len() - 1].as_str();
    let guard_name = guard_name_of(qn);
    let constraint = Constraint {
        element: NamedElement { kind: kind::CONSTRAINT, qualified_name: guard_name },
        guard: Some(p.expression),
        operation: None,
        duration: None,
        timepoint: None,
    };
    guard_with_constraint(model, qn, constraint);
}

/// Guards the transition on top of the stack with a named operation.
pub fn apply_guard_operation_ref(p: &PartialGuardOperationRef, model: &mut Model, stack: &Vec<String>)
    requires
        stack@.len() > 0,
    ensures
        ({
            let gn = spec_join(top(stack@), seq!['g', 'u', 'a', 'r', 'd']);
            let op = spec_resolve_model_reference(*old(model), names_view(stack@), p.name@);
            &&& same_except(*old(model), *final(model), set![top(stack@), gn])
            &&& final(model).member(gn) == Some(ElementView::Constraint(constraint_view(gn, None, Some(op), None, None)))
            &&& final(model).member(top(stack@)) == on_transition(old(model).member(top(stack@)), |t: TransitionView| TransitionView { guard: gn, ..t })
        }),
        keeps_members(*old(model), *final(model)),
{
    let qn = stack[stack.len() - 1].as_str();
    let guard_name = guard_name_of(qn);
    let operation_name = resolve_model_reference(model, stack, p.name.as_str());
    let constraint = Constraint {
        element: NamedElement { kind: kind::CONSTRAINT, qualified_name: guard_name },
        guard: None,
        operation: Some(operation_name),
        duration: None,
        timepoint: None,
    };
    guard_with_constraint(model, qn, constraint);
}

/// Adds effects to the transition on top of the stack.
pub fn apply_effect(p: &PartialEffect, model: &mut Model, stack: &Vec<String>)
    requires
        stack@.len() > 0,
    ensures
        same_except(*old(model), *final(model), set![top(stack@)] + generated_names(top(stack@), BehaviorRole::Effect, p.operations@.len()).to_set()),
        keeps_members(*old(model), *final(model)),
        forall|i: int| 0 <= i < p.operations@.len() ==> #[trigger] final(model).member(generated_name(top(stack@), BehaviorRole::Effect, i as nat)) == Some(ElementView::Behavior(role_behavior(BehaviorRole::Effect, generated_name(top(stack@), BehaviorRole::Effect, i as nat), p.operations@[i]))),
        final(model).member(top(stack@)) == role_list_push(old(model).member(top(stack@)), BehaviorRole::Effect, generated_names(top(stack@), BehaviorRole::Effect, p.operations@.len())),
{
    add_behaviors(model, stack[stack.len() - 1].as_str(), BehaviorRole::Effect, &p.operations);
}

/// Adds entry actions to the state on top of the stack.
pub fn apply_entry(p: &PartialEntry, model: &mut Model, stack: &Vec<String>)
    requires
        stack@.len() > 0,
    ensures
        same_except(*old(model), *final(model), set![top(stack@)] + generated_names(top(stack@), BehaviorRole::Entry, p.operations@.len()).to_set()),
        keeps_members(*old(model), *final(model)),
        forall|i: int| 0 <= i < p.operations@.len() ==> #[trigger] final(model).member(generated_name(top(stack@), BehaviorRole::Entry, i as nat)) == Some(ElementView::Behavior(role_behavior(BehaviorRole::Entry, generated_name(top(stack@), BehaviorRole::Entry, i as nat), p.operations@[i]))),
        final(model).member(top(stack@)) == role_list_push(old(model).member(top(stack@)), BehaviorRole::Entry, generated_names(top(stack@), BehaviorRole::Entry, p.operations@.len())),
{
    add_behaviors(model, stack[stack.len() - 1].as_str(), BehaviorRole::Entry, &p.operations);
}

/// Adds exit actions to the state on top of the stack.
pub fn apply_exit(p: &PartialExit, model: &mut Model, stack: &Vec<String>)
    requires
        stack@.len() > 0,
    ensures
        same_except(*old(model), *final(model), set![top(stack@)] + generated_names(top(stack@), BehaviorRole::Exit, p.operations@.len()).to_set()),
        keeps_members(*old(model), *final(model)),
        forall|i: int| 0 <= i < p.operations@.len() ==> #[trigger] final(model).member(generated_name(top(stack@), BehaviorRole::Exit, i as nat)) == Some(ElementView::Behavior(role_behavior(BehaviorRole::Exit, generated_name(top(stack@), BehaviorRole::Exit, i as nat), p.operations@[i]))),
        final(model).member(top(stack@)) == role_list_push(old(model).member(top(stack@)), BehaviorRole::Exit, generated_names(top(stack@), BehaviorRole::Exit, p.operations@.len())),
{
    add_behaviors(model, stack[stack.len() - 1].as_str(), BehaviorRole::Exit, &p.operations);
}

/// Adds activities to the state on top of the stack.
pub fn apply_activity(p: &PartialActivity, model: &mut Model, stack: &Vec<String>)
    requires
        stack@.len() > 0,
    ensures
        same_except(*old(model), *final(model), set![top(stack@)] + generated_names(top(stack@), BehaviorRole::Activity, p.operations@.len()).to_set()),
        keeps_members(*old(model), *final(model)),
        forall|i: int| 0 <= i < p.operations@.len() ==> #[trigger] final(model).member(generated_name(top(stack@), BehaviorRole::Activity, i as nat)) == Some(ElementView::Behavior(role_behavior(BehaviorRole::Activity, generated_name(top(stack@), BehaviorRole::Activity, i as nat), p.operations@[i]))),
        final(model).member(top(stack@)) == role_list_push(old(model).member(top(stack@)), BehaviorRole::Activity, generated_names(top(stack@), BehaviorRole::Activity, p.operations@.len())),
{
    add_behaviors(model, stack[stack.len() - 1].as_str(), BehaviorRole::Activity, &p.operations);
}

/// The behavior named after the role and the operation's last name.
pub open spec fn operation_behavior_name(owner: Seq<char>, role: BehaviorRole, name: Seq<char>) -> Seq<char> {
    spec_join(owner, role.spec_name() + seq!['_'] + spec_basename(name))
}

/// Adds a behavior that runs a named operation to the element on top of the
/// stack, in the given role.
pub fn apply_behavior_operation(p: &PartialBehaviorOperation, model: &mut Model, stack: &Vec<String>)
    requires
        stack@.len() > 0,
    ensures
        ({
            let bn = operation_behavior_name(top(stack@), p.role, p.name@);
            let op = spec_resolve_model_reference(*old(model), names_view(stack@), p.name@);
            &&& same_except(*old(model), *final(model), set![top(stack@), bn])
            &&& final(model).member(bn) == Some(ElementView::Behavior(BehaviorView {
                element: NamedElementView { kind: role_kind(p.role), qualified_name: bn },
                entry: None,
                effect: None,
                exit: None,
                activity: None,
                operation: Some(BehaviorOperationView::Operation(op)),
            }))
            &&& final(model).member(top(stack@)) == role_list_push(old(model).member(top(stack@)), p.role, seq![bn])
        }),
        keeps_members(*old(model), *final(model)),
{
    let owner = stack[stack.len() - 1].as_str();
    let operation_name = resolve_model_reference(model, stack, p.name.as_str());
    proof {
        reveal_strlit("_");
        assert("_"@ =~= seq!['_']);
    }
    let local = text::concat3(p.role.name(), "_", basename(p.name.as_str()));
    let behavior_name = join(owner, local.as_str());
    proof {
        assert(local@.len() > 0 && local@[0] != '/');
        lemma_join_differs(owner@, local@);
    }
    let behavior = Behavior {
        element: NamedElement {
            kind: if p.role == BehaviorRole::Activity { kind::CONCURRENT } else { kind::BEHAVIOR },
            qualified_name: behavior_name.clone(),
        },
        entry: None,
        effect: None,
        exit: None,
        activity: None,
        operation: Some(BehaviorOperation::Operation(operation_name)),
    };
    model.set_member(behavior_name.clone(), ElementVariant::Behavior(behavior));
    push_role_name(model, owner, p.role, behavior_name.as_str());
}

/// A final state under the element on top of the stack (`/` when it is
/// empty).
pub fn apply_final_state(p: &PartialFinalState, model: &mut Model, stack: &Vec<String>)
    ensures
        ({
            let qn = spec_join(top_or_slash(stack@), p.name@);
            &&& same_except(*old(model), *final(model), set![qn])
            &&& final(model).member(qn) == Some(ElementView::State(empty_state_view(kind::FINAL_STATE, qn)))
        }),
        keeps_members(*old(model), *final(model)),
{
    proof {
        reveal_strlit("/");
        assert("/"@ =~= seq!['/']);
    }
    let parent = if stack.len() > 0 {
        stack[stack.len() - 1].clone()
    } else {
        text::owned("/")
    };
    let qualified_name = join(parent.as_str(), p.name.as_str());
    let state = State::empty(kind::FINAL_STATE, qualified_name.clone());
    model.set_member(qualified_name, ElementVariant::State(state));
}

/// Adds the events to those the state on top of the stack defers; fails
/// when that is not a state.
pub fn apply_defer(p: &PartialDefer, model: &mut Model, stack: &Vec<String>) -> (r: Result<(), HsmError>)
    requires
        stack@.len() > 0,
    ensures
        r is Ok <==> old(model).state_of(top(stack@)) is Some,
        r is Err ==> r matches Err(HsmError::StateMachine(_)),
        r is Err ==> *final(model) == *old(model),
        r is Ok ==> same_except(*old(model), *final(model), set![top(stack@)]),
        final(model).member(top(stack@)) == on_state(old(model).member(top(stack@)), |s: StateView| StateView { deferred: s.deferred + names_view(p.events@), ..s }),
        keeps_members(*old(model), *final(model)),
{
    let qn = stack[stack.len() - 1].as_str();
    match state_copy(model, qn) {
        Some(mut st) => {
            append_names(&mut st.deferred, &p.events);
            model.set_member(text::owned(qn), ElementVariant::State(st));
            Ok(())
        },
        None => {
            proof {
                reveal_strlit("Defer must be declared inside a state");
            }
            Err(HsmError::StateMachine(text::owned("Defer must be declared inside a state")))
        },
    }
}

/// A timer constraint named `cn` on the transition `qn`: the transition gets
/// the timer's events, and the constraint as its guard if it had none.
fn add_timer(model: &mut Model, qn: &str, constraint: Constraint, source_event: String, timer_event: &str)
    requires
        constraint@.element.qualified_name != qn@,
    ensures
        ({
            let cn = constraint@.element.qualified_name;
            &&& same_except(*old(model), *final(model), set![qn@, cn])
            &&& final(model).member(cn) == Some(ElementView::Constraint(constraint@))
            &&& final(model).member(qn@) == on_transition(old(model).member(qn@), |t: TransitionView| TransitionView {
                events: t.events.push(source_event@).push(timer_event@),
                guard: if t.guard.len() == 0 { cn } else { t.guard },
                ..t
            })
        }),
        keeps_members(*old(model), *final(model)),
{
    let constraint_name = constraint.element.qualified_name.clone();
    model.set_member(constraint_name.clone(), ElementVariant::Constraint(constraint));
    match transition_copy(model, qn) {
        Some(mut t) => {
            t.events.push(source_event);
            t.events.push(text::owned(timer_event));
            if t.guard.unicode_len() == 0 {
                t.guard = constraint_name;
            }
            let ghost tv = t@;
            put_transition(model, qn, t);
        },
        None => {},
    }
}

/// Makes the transition on top of the stack fire after a duration.
pub fn apply_after(p: &PartialAfter, model: &mut Model, stack: &Vec<String>)
    requires
        stack@.len() > 0,
    ensures
        ({
            let q = top(stack@);
            let cn = spec_join(q, seq!['a', 'f', 't', 'e', 'r']);
            &&& same_except(*old(model), *final(model), set![q, cn])
            &&& final(model).member(cn) == Some(ElementView::Constraint(constraint_view(cn, None, None, Some(p.duration_fn), None)))
            &&& final(model).member(q) == on_transition(old(model).member(q), |t: TransitionView| TransitionView {
                events: t.events.push(spec_join(q, seq!['d', 'u', 'r', 'a', 't', 'i', 'o', 'n'])).push(seq!['h', 's', 'm', '_', 't', 'i', 'm', 'e', 'r', '_', 'a', 'f', 't', 'e', 'r']),
                guard: if t.guard.len() == 0 { cn } else { t.guard },
                ..t
            })
        }),
        keeps_members(*old(model), *final(model)),
{
    proof {
        reveal_strlit("after");
        reveal_strlit("duration");
        reveal_strlit("hsm_timer_after");
        assert("after"@ =~= seq!['a', 'f', 't', 'e', 'r']);
        assert("duration"@ =~= seq!['d', 'u', 'r', 'a', 't', 'i', 'o', 'n']);
        assert("hsm_timer_after"@ =~= seq!['h', 's', 'm', '_', 't', 'i', 'm', 'e', 'r', '_', 'a', 'f', 't', 'e', 'r']);
        lemma_join_differs(top(stack@), seq!['a', 'f', 't', 'e', 'r']);
    }
    let qn = stack[stack.len() - 1].as_str();
    let constraint = Constraint {
        element: NamedElement { kind: kind::CONSTRAINT, qualified_name: join(qn, "after") },
        guard: None,
        operation: None,
        duration: Some(p.duration_fn),
        timepoint: None,
    };
    add_timer(model, qn, constraint, join(qn, "duration"), "hsm_timer_after");
}

/// Makes the transition on top of the stack fire at a point in time.
pub fn apply_at(p: &PartialAt, model: &mut Model, stack: &Vec<String>)
    requires
        stack@.len() > 0,
    ensures
        ({
            let q = top(stack@);
            let cn = spec_join(q, seq!['a', 't']);
            &&& same_except(*old(model), *final(model), set![q, cn])
            &&& final(model).member(cn) == Some(ElementView::Constraint(constraint_view(cn, None, None, None, Some(p.timepoint_fn))))
            &&& final(model).member(q) == on_transition(old(model).member(q), |t: TransitionView| TransitionView {
                events: t.events.push(spec_join(q, seq!['t', 'i', 'm', 'e', 'p', 'o', 'i', 'n', 't'])).push(seq!['h', 's', 'm', '_', 't', 'i', 'm', 'e', 'r', '_', 'a', 't']),
                guard: if t.guard.len() == 0 { cn } else { t.guard },
                ..t
            })
        }),
        keeps_members(*old(model), *final(model)),
{
    proof {
        reveal_strlit("at");
        reveal_strlit("timepoint");
        reveal_strlit("hsm_timer_at");
        assert("at"@ =~= seq!['a', 't']);
        assert("timepoint"@ =~= seq!['t', 'i', 'm', 'e', 'p', 'o', 'i', 'n', 't']);
        assert("hsm_timer_at"@ =~= seq!['h', 's', 'm', '_', 't', 'i', 'm', 'e', 'r', '_', 'a', 't']);
        lemma_join_differs(top(stack@), seq!['a', 't']);
    }
    let qn = stack[stack.len() - 1].as_str();
    let constraint = Constraint {
        element: NamedElement { kind: kind::CONSTRAINT, qualified_name: join(qn, "at") },
        guard: None,
        operation: None,
        duration: None,
        timepoint: Some(p.timepoint_fn),
    };
    add_timer(model, qn, constraint, join(qn, "timepoint"), "hsm_timer_at");
}

/// Makes the transition on top of the stack fire at every period.
pub fn apply_every(p: &PartialEvery, model: &mut Model, stack: &Vec<String>)
    requires
        stack@.len() > 0,
    ensures
        ({
            let q = top(stack@);
            let cn = spec_join(q, seq!['e', 'v', 'e', 'r', 'y']);
            &&& same_except(*old(model), *final(model), set![q, cn])
            &&& final(model).member(cn) == Some(ElementView::Constraint(constraint_view(cn, None, None, Some(p.duration_fn), None)))
            &&& final(model).member(q) == on_transition(old(model).member(q), |t: TransitionView| TransitionView {
                events: t.events.push(spec_join(q, seq!['d', 'u', 'r', 'a', 't', 'i', 'o', 'n'])).push(seq!['h', 's', 'm', '_', 't', 'i', 'm', 'e', 'r', '_', 'e', 'v', 'e', 'r', 'y']),
                guard: if t.guard.len() == 0 { cn } else { t.guard },
                ..t
            })
        }),
        keeps_members(*old(model), *final(model)),
{
    proof {
        reveal_strlit("every");
        reveal_strlit("duration");
        reveal_strlit("hsm_timer_every");
        assert("every"@ =~= seq!['e', 'v', 'e', 'r', 'y']);
        assert("duration"@ =~= seq!['d', 'u', 'r', 'a', 't', 'i', 'o', 'n']);
        assert("hsm_timer_every"@ =~= seq!['h', 's', 'm', '_', 't', 'i', 'm', 'e', 'r', '_', 'e', 'v', 'e', 'r', 'y']);
        lemma_join_differs(top(stack@), seq!['e', 'v', 'e', 'r', 'y']);
    }
    let qn = stack[stack.len() - 1].as_str();
    let constraint = Constraint {
        element: NamedElement { kind: kind::CONSTRAINT, qualified_name: join(qn, "every") },
        guard: None,
        operation: None,
        duration: Some(p.duration_fn),
        timepoint: None,
    };
    add_timer(model, qn, constraint, join(qn, "duration"), "hsm_timer_every");
}

pub open spec fn observation_prefix() -> Seq<char> {
    seq!['o', 'b', 's', 'e', 'r', 'v', 'a', 't', 'i', 'o', 'n']
}

/// Adds an observer, named by the first free `observation_N`.
pub fn apply_observe(p: &PartialObserve, model: &mut Model, stack: &Vec<String>)
    ensures
        exists|k: nat| {
            let qn = #[trigger] hook_name(old(model).root(), observation_prefix(), k);
            &&& !has_key(old(model).members@, qn)
            &&& forall|j: nat| j < k ==> has_key(old(model).members@, #[trigger] hook_name(old(model).root(), observation_prefix(), j))
            &&& same_except(*old(model), *final(model), set![qn])
            &&& final(model).member(qn) == Some(ElementView::Observation(ObservationView { element: NamedElementView { kind: kind::OBSERVATION, qualified_name: qn }, observer: p.observer, targets: names_view(p.targets@) }))
        },
        keeps_members(*old(model), *final(model)),
{
    proof {
        reveal_strlit("observation");
        assert("observation"@ =~= observation_prefix());
    }
    let qualified_name = unique_model_hook_name(model, "observation");
    let observation = Observation {
        element: NamedElement { kind: kind::OBSERVATION, qualified_name: qualified_name.clone() },
        observer: p.observer,
        targets: clone_names(&p.targets),
    };
    model.set_member(qualified_name, ElementVariant::Observation(observation));
}

pub open spec fn validator_prefix() -> Seq<char> {
    seq!['v', 'a', 'l', 'i', 'd', 'a', 't', 'o', 'r']
}

/// Adds a custom validator, named by the first free `validator_N`.
pub fn apply_validator(p: &PartialValidator, model: &mut Model, stack: &Vec<String>)
    ensures
        exists|k: nat| {
            let qn = #[trigger] hook_name(old(model).root(), validator_prefix(), k);
            &&& !has_key(old(model).members@, qn)
            &&& forall|j: nat| j < k ==> has_key(old(model).members@, #[trigger] hook_name(old(model).root(), validator_prefix(), j))
            &&& same_except(*old(model), *final(model), set![qn])
            &&& final(model).member(qn) == Some(ElementView::Validator(crate::element::HookView { element: NamedElementView { kind: kind::ELEMENT, qualified_name: qn }, hook: p.validator }))
        },
        keeps_members(*old(model), *final(model)),
{
    proof {
        reveal_strlit("validator");
        assert("validator"@ =~= validator_prefix());
    }
    let qualified_name = unique_model_hook_name(model, "validator");
    let validator = ValidatorElement {
        element: NamedElement { kind: kind::ELEMENT, qualified_name: qualified_name.clone() },
        validator: p.validator,
    };
    model.set_member(qualified_name, ElementVariant::Validator(validator));
}

pub open spec fn finalizer_prefix() -> Seq<char> {
    seq!['f', 'i', 'n', 'a', 'l', 'i', 'z', 'e', 'r']
}

/// Adds a custom finalizer, named by the first free `finalizer_N`.
pub fn apply_finalizer(p: &PartialFinalizer, model: &mut Model, stack: &Vec<String>)
    ensures
        exists|k: nat| {
            let qn = #[trigger] hook_name(old(model).root(), finalizer_prefix(), k);
            &&& !has_key(old(model).members@, qn)
            &&& forall|j: nat| j < k ==> has_key(old(model).members@, #[trigger] hook_name(old(model).root(), finalizer_prefix(), j))
            &&& same_except(*old(model), *final(model), set![qn])
            &&& final(model).member(qn) == Some(ElementView::Finalizer(crate::element::HookView { element: NamedElementView { kind: kind::ELEMENT, qualified_name: qn }, hook: p.finalizer }))
        },
        keeps_members(*old(model), *final(model)),
{
    proof {
        reveal_strlit("finalizer");
        assert("finalizer"@ =~= finalizer_prefix());
    }
    let qualified_name = unique_model_hook_name(model, "finalizer");
    let finalizer = FinalizerElement {
        element: NamedElement { kind: kind::ELEMENT, qualified_name: qualified_name.clone() },
        finalizer: p.finalizer,
    };
    model.set_member(qualified_name, ElementVariant::Finalizer(finalizer));
}

/// An exit point named `name` below `boundary` that a transition can leave by.
pub open spec fn is_exit_point_candidate(v: VertexView, boundary: Seq<char>, name: Seq<char>) -> bool {
    &&& kind::spec_is_kind(v.element.kind, kind::EXIT_POINT)
    &&& spec_basename(v.element.qualified_name) == name
    &&& crate::path::spec_is_ancestor_or_equal(boundary, v.element.qualified_name)
}

/// The exit point sits on `boundary` itself or on one of its direct children.
pub open spec fn is_direct_exit_point(qn: Seq<char>, boundary: Seq<char>) -> bool {
    spec_dirname(qn) == boundary || spec_dirname(spec_dirname(qn)) == boundary
}

/// The names of the candidate exit points among `members`, direct ones or
/// nested ones, in order.
pub open spec fn exit_point_candidates(members: Seq<(String, ElementVariant)>, boundary: Seq<char>, name: Seq<char>, direct: bool) -> Seq<Seq<char>>
    decreases members.len(),
{
    if members.len() == 0 {
        seq![]
    } else {
        exit_point_candidates(members.drop_last(), boundary, name, direct) + (match members.last().1 {
            ElementVariant::Vertex(v) => if is_exit_point_candidate(v@, boundary, name) && is_direct_exit_point(v@.element.qualified_name, boundary) == direct {
                seq![v@.element.qualified_name]
            } else {
                seq![]
            },
            _ => seq![],
        })
    }
}

/// The exit point a transition from `boundary` leaves by: the first direct
/// candidate in name order, else the first nested one.
pub open spec fn spec_exit_point_source(m: Model, boundary: Seq<char>, name: Seq<char>) -> Option<Seq<char>> {
    let direct = text::sort_names(exit_point_candidates(m.members@, boundary, name, true));
    let nested = text::sort_names(exit_point_candidates(m.members@, boundary, name, false));
    if direct.len() > 0 {
        Some(direct[0])
    } else if nested.len() > 0 {
        Some(nested[0])
    } else {
        None
    }
}

fn resolve_exit_point_source(model: &Model, boundary: &str, exit_point_name: &str) -> (r: Option<String>)
    ensures
        match spec_exit_point_source(*model, boundary@, exit_point_name@) {
            Some(x) => r matches Some(y) && y@ == x,
            None => r is None,
        },
{
    let mut direct: Vec<String> = Vec::new();
    let mut nested: Vec<String> = Vec::new();
    let mut i: usize = 0;
    while i < model.members.len()
        invariant
            0 <= i <= model.members@.len(),
            names_view(direct@) == exit_point_candidates(model.members@.take(i as int), boundary@, exit_point_name@, true),
            names_view(nested@) == exit_point_candidates(model.members@.take(i as int), boundary@, exit_point_name@, false),
        decreases model.members@.len() - i,
    {
        proof {
            assert(model.members@.take(i + 1).drop_last() =~= model.members@.take(i as int));
        }
        let ghost d0 = names_view(direct@);
        let ghost n0 = names_view(nested@);
        match &model.members[i].1 {
            ElementVariant::Vertex(v) => {
                let qn = v.element.qualified_name.as_str();
                if kind::is_kind(v.element.kind, kind::EXIT_POINT) && text::str_eq(basename(qn), exit_point_name)
                    && crate::path::is_ancestor_or_equal(boundary, qn) {
                    let owner = dirname(qn);
                    if text::str_eq(owner, boundary) || text::str_eq(dirname(owner), boundary) {
                        direct.push(text::owned(qn));
                    } else {
                        nested.push(text::owned(qn));
                    }
                }
            },
            _ => {},
        }
        proof {
            assert(names_view(direct@) =~= exit_point_candidates(model.members@.take(i + 1), boundary@, exit_point_name@, true));
            assert(names_view(nested@) =~= exit_point_candidates(model.members@.take(i + 1), boundary@, exit_point_name@, false));
        }
        i += 1;
    }
    proof {
        assert(model.members@.take(model.members@.len() as int) =~= model.members@);
    }
    let direct = text::sort_strings(direct);
    let nested = text::sort_strings(nested);
    proof {
        assert(names_view(direct@) =~= direct@.map_values(|s: String| s@));
        assert(names_view(nested@) =~= nested@.map_values(|s: String| s@));
    }
    if direct.len() > 0 {
        assert(names_view(direct@)[0] == direct@[0]@);
        Some(direct[0].clone())
    } else if nested.len() > 0 {
        assert(names_view(nested@)[0] == nested@[0]@);
        Some(nested[0].clone())
    } else {
        None
    }
}

/// How many of the source's transitions at the front are declared directly
/// on the machine (their owner is `root_owner`).
fn source_transition_insert_index(model: &Model, source: &str, root_owner: &str) -> (r: usize)
    ensures
        match model.vertex_of(source@) {
            Some(v) => r <= v.transitions.len() && (forall|j: int| 0 <= j < r ==> spec_dirname(#[trigger] v.transitions[j]) == root_owner@) && (r == v.transitions.len() || spec_dirname(v.transitions[r as int]) != root_owner@),
            None => r == 0,
        },
        r == source_insert_index(*model, source@, root_owner@),
{
    match model.get_vertex(source) {
        Some(v) => {
            let mut i: usize = 0;
            while i < v.transitions.len() && text::str_eq(dirname(v.transitions[i].as_str()), root_owner)
                invariant
                    0 <= i <= v.transitions@.len(),
                    forall|j: int| 0 <= j < i ==> spec_dirname(#[trigger] names_view(v.transitions@)[j]) == root_owner@,
                decreases v.transitions@.len() - i,
            {
                i += 1;
            }
            proof {
                lemma_front_owned(names_view(v.transitions@), root_owner@, i as int);
            }
            i
        },
        None => 0,
    }
}

/// The local name of a transition declared without one.
pub open spec fn default_transition_name(m: Model) -> Seq<char> {
    seq!['t', 'r', 'a', 'n', 's', 'i', 't', 'i', 'o', 'n', '_'] + text::decimal(structural_count(m.members@) + 1)
}

/// The decimal text of `n`.
fn u128_to_string(n: u128) -> (r: String)
    ensures
        r@ == text::decimal(n as nat),
    decreases n,
{
    if n < 10 {
        text::usize_to_string(n as usize)
    } else {
        let high = u128_to_string(n / 10);
        let low = text::usize_to_string((n % 10) as usize);
        high.concat(low.as_str())
    }
}

/// `ts` with `name` added at `index` when `at_index` and `index` is within
/// it, else at the end.
pub open spec fn with_transition_at(ts: Seq<Seq<char>>, name: Seq<char>, at_index: bool, index: int) -> Seq<Seq<char>> {
    if at_index && index <= ts.len() {
        ts.insert(index, name)
    } else {
        ts.push(name)
    }
}

/// `e` with `name` added to its transitions as `with_transition_at` says,
/// when it is a state or a pseudostate.
pub open spec fn source_with_transition(e: Option<ElementView>, name: Seq<char>, at_index: bool, index: int) -> Option<ElementView> {
    match e {
        Some(ElementView::State(s)) => Some(ElementView::State(StateView {
            vertex: VertexView { transitions: with_transition_at(s.vertex.transitions, name, at_index, index), ..s.vertex },
            ..s
        })),
        Some(ElementView::Vertex(v)) => Some(ElementView::Vertex(VertexView {
            transitions: with_transition_at(v.transitions, name, at_index, index),
            ..v
        })),
        _ => e,
    }
}

/// `names` with `name` added at `index` when `at_index` and `index` is
/// within it, else at the end.
fn insert_name_at(names: &mut Vec<String>, name: &str, at_index: bool, index: usize)
    ensures
        names_view(final(names)@) == with_transition_at(names_view(old(names)@), name@, at_index, index as int),
{
    if at_index && index <= names.len() {
        names.insert(index, text::owned(name));
        assert(names_view(names@) =~= names_view(old(names)@).insert(index as int, name@));
    } else {
        names.push(text::owned(name));
        assert(names_view(names@) =~= names_view(old(names)@).push(name@));
    }
}

/// Adds `name` to the transitions of the state or pseudostate `source`, at
/// `index` when `at_index`, else at the end.
fn attach_to_source(model: &mut Model, source: &str, name: &str, at_index: bool, index: usize)
    ensures
        same_except(*old(model), *final(model), set![source@]),
        keeps_members(*old(model), *final(model)),
        final(model).member(source@) == source_with_transition(old(model).member(source@), name@, at_index, index as int),
{
    match state_copy(model, source) {
        Some(mut st) => {
            insert_name_at(&mut st.vertex.transitions, name, at_index, index);
            model.set_member(text::owned(source), ElementVariant::State(st));
        },
        None => match vertex_copy(model, source) {
            Some(mut v) => {
                insert_name_at(&mut v.transitions, name, at_index, index);
                model.set_member(text::owned(source), ElementVariant::Vertex(v));
            },
            None => {},
        },
    }
}

/// Adds `name` to the transitions of the pseudostate `qn`.
fn push_vertex_transition(model: &mut Model, qn: &str, name: &str)
    ensures
        same_except(*old(model), *final(model), set![qn@]),
        keeps_members(*old(model), *final(model)),
        final(model).member(qn@) == on_vertex(old(model).member(qn@), |v: VertexView| VertexView { transitions: v.transitions.push(name@), ..v }),
{
    match vertex_copy(model, qn) {
        Some(mut v) => {
            v.transitions.push(text::owned(name));
            assert(names_view(v.transitions@) =~= old(model).member(qn@)->0->Vertex_0.transitions.push(name@));
            model.set_member(text::owned(qn), ElementVariant::Vertex(v));
        },
        None => {},
    }
}

/// `s` is the name `n`.
pub open spec fn named(s: String, n: Seq<char>) -> bool {
    s@ == n
}

/// `mid` is `before` with the state `qn` in place: kept when `before` has a
/// state of that name, else a new empty state.
pub open spec fn state_started(before: Model, mid: Model, qn: Seq<char>) -> bool {
    &&& same_except(before, mid, set![qn])
    &&& keeps_members(before, mid)
    &&& mid.member(qn) == if before.state_of(qn) is Some {
        before.member(qn)
    } else {
        Some(ElementView::State(empty_state_view(kind::STATE, qn)))
    }
}

/// What applying the state `x` does: the state `top/name` is put in place
/// (see `state_started`), then its elements are applied inside it.
pub open spec fn state_applied(before: Model, after: Model, stack: Seq<String>, x: PartialState, ok: bool) -> bool
    decreases x, 0nat,
{
    let qn = spec_join(top_or_slash(stack), x.name@);
    &&& keeps_members(before, after)
    &&& has_key(after.members@, qn)
    &&& (elements_defer_free(x.elements@) ==> ok)
    &&& exists|mid: Model, s: String|
        #![trigger state_started(before, mid, qn), named(s, qn)]
        state_started(before, mid, qn) && named(s, qn) && elements_applied(mid, after, stack.push(s), x.elements@, ok)
}

/// `b` is `a` with the member `n` set to `e` and nothing else changed.
pub open spec fn set_as(a: Model, b: Model, n: Seq<char>, e: ElementView) -> bool {
    &&& same_except(a, b, set![n])
    &&& keeps_members(a, b)
    &&& b.member(n) == Some(e)
}

/// A pseudostate of kind `k` named `qn` with no transitions.
pub open spec fn empty_vertex_view(k: KindValue, qn: Seq<char>) -> VertexView {
    VertexView { element: NamedElementView { kind: k, qualified_name: qn }, transitions: seq![] }
}

/// What applying the choice `x` does: the choice pseudostate `top/name` is
/// put in place with no transitions, then its elements are applied inside it.
pub open spec fn choice_applied(before: Model, after: Model, stack: Seq<String>, x: PartialChoice, ok: bool) -> bool
    decreases x, 0nat,
{
    let qn = spec_join(top_or_slash(stack), x.name@);
    &&& keeps_members(before, after)
    &&& has_key(after.members@, qn)
    &&& (elements_defer_free(x.elements@) ==> ok)
    &&& exists|mid: Model, s: String|
        #![trigger set_as(before, mid, qn, ElementView::Vertex(empty_vertex_view(kind::CHOICE, qn))), named(s, qn)]
        set_as(before, mid, qn, ElementView::Vertex(empty_vertex_view(kind::CHOICE, qn))) && named(s, qn)
            && elements_applied(mid, after, stack.push(s), x.elements@, ok)
}

/// How many names at the front of `ts` lie directly under `owner`.
pub open spec fn front_owned(ts: Seq<Seq<char>>, owner: Seq<char>) -> nat
    decreases ts.len(),
{
    if ts.len() > 0 && spec_dirname(ts[0]) == owner {
        1 + front_owned(ts.drop_first(), owner)
    } else {
        0
    }
}

proof fn lemma_front_owned(ts: Seq<Seq<char>>, owner: Seq<char>, r: int)
    requires
        0 <= r <= ts.len(),
        forall|j: int| 0 <= j < r ==> spec_dirname(#[trigger] ts[j]) == owner,
        r == ts.len() || spec_dirname(ts[r]) != owner,
    ensures
        front_owned(ts, owner) == r,
    decreases r,
{
    if r > 0 {
        assert forall|j: int| 0 <= j < r - 1 implies spec_dirname(#[trigger] ts.drop_first()[j]) == owner by {
            assert(ts.drop_first()[j] == ts[j + 1]);
        }
        if r < ts.len() {
            assert(ts.drop_first()[r - 1] == ts[r]);
        }
        lemma_front_owned(ts.drop_first(), owner, r - 1);
    }
}

/// Where a transition declared on the machine is listed on `source`: after
/// the source's transitions at the front that are declared on the machine.
pub open spec fn source_insert_index(m: Model, source: Seq<char>, owner: Seq<char>) -> nat {
    match m.vertex_of(source) {
        Some(v) => front_owned(v.transitions, owner),
        None => 0,
    }
}

/// The transition `qn` as it stands once its elements are applied (a fresh
/// one from `owner` when it is gone).
pub open spec fn transition_now(m: Model, qn: Seq<char>, owner: Seq<char>) -> TransitionView {
    match m.transition_of(qn) {
        Some(t) => t,
        None => fresh_transition_view(qn, owner, seq![]),
    }
}

/// `after` is `inner` with the transition `qn` (declared on `owner`) listed
/// on its source and written back; when `ok` is false, `after` is `inner`.
/// It is listed at the end, except for a transition declared on the machine
/// whose source is elsewhere and that is not a guardless one leaving an exit
/// point: that one goes after the source's transitions declared on the
/// machine.
pub open spec fn transition_listed(inner: Model, after: Model, qn: Seq<char>, owner: Seq<char>, ok: bool) -> bool {
    if !ok {
        after == inner
    } else {
        let t = transition_now(inner, qn, owner);
        let leaves_exit_point = inner.vertex_of(t.source) matches Some(v) && kind::spec_is_kind(v.element.kind, kind::EXIT_POINT) && t.guard.len() == 0;
        let prepend = owner == inner.root() && t.source != owner && !leaves_exit_point;
        let index = if prepend { source_insert_index(inner, t.source, owner) } else { 0 };
        &&& same_except(inner, after, set![t.source, qn])
        &&& keeps_members(inner, after)
        &&& after.member(qn) == Some(ElementView::Transition(t))
        &&& t.source != qn ==> after.member(t.source) == source_with_transition(inner.member(t.source), qn, prepend, index as int)
    }
}

/// The qualified name of a transition named `name` declared on `owner`
/// (`transition_N` when unnamed).
pub open spec fn transition_qn(m: Model, owner: Seq<char>, name: Seq<char>) -> Seq<char> {
    spec_join(owner, if name.len() == 0 { default_transition_name(m) } else { name })
}

/// What applying the transition `x` does: the transition `top/name`
/// (`transition_N` when unnamed) is put in place fresh, leaving the element
/// on top of the stack; its elements are applied inside it; then it is
/// listed on its source (see `transition_listed`).
pub open spec fn transition_applied(before: Model, after: Model, stack: Seq<String>, x: PartialTransition, ok: bool) -> bool
    decreases x, 0nat,
{
    let owner = top_or_slash(stack);
    let qn = transition_qn(before, owner, x.name@);
    &&& keeps_members(before, after)
    &&& has_key(after.members@, qn)
    &&& (elements_defer_free(x.elements@) ==> ok)
    &&& exists|mid: Model, inner: Model, s: String|
        #![trigger set_as(before, mid, qn, ElementView::Transition(fresh_transition_view(qn, owner, seq![]))), named(s, qn), transition_listed(inner, after, qn, owner, ok)]
        set_as(before, mid, qn, ElementView::Transition(fresh_transition_view(qn, owner, seq![]))) && named(s, qn)
            && elements_applied(mid, inner, stack.push(s), x.elements@, ok) && transition_listed(inner, after, qn, owner, ok)
}

/// The transition of an initial pseudostate `iname`, on the initial event.
pub open spec fn initial_transition_view(tname: Seq<char>, iname: Seq<char>) -> TransitionView {
    fresh_transition_view(tname, iname, seq![seq!['h', 's', 'm', '/', 'i', 'n', 'i', 't', 'i', 'a', 'l']])
}

/// `b` is `a` with `iname` recorded as the initial pseudostate of the state
/// `qn`, or of the machine when `qn` is the machine; unchanged otherwise.
pub open spec fn initial_recorded(a: Model, b: Model, qn: Seq<char>, iname: Seq<char>) -> bool {
    match a.state_of(qn) {
        Some(st) => set_as(a, b, qn, ElementView::State(StateView { initial: iname, ..st })),
        None => if qn == a.root() {
            &&& b.members == a.members
            &&& b.transition_map == a.transition_map
            &&& b.deferred_map == a.deferred_map
            &&& b.history_updates == a.history_updates
            &&& b.attributes == a.attributes
            &&& b.state@ == StateView { initial: iname, ..a.state@ }
        } else {
            b == a
        },
    }
}

/// The name `n` of the transition of a pseudostate `q`.
pub open spec fn point_transition_name(q: Seq<char>) -> Seq<char> {
    spec_join(q, seq!['t', 'r', 'a', 'n', 's', 'i', 't', 'i', 'o', 'n'])
}

/// What applying the initial pseudostate `x` does: the pseudostate
/// `top/name` of kind initial is put in place with no transitions, recorded
/// as the initial one of the state on top (or of the machine), and given the
/// transition `top/name/transition` on the initial event; the elements are
/// applied inside that transition (with both names on the stack), and on
/// success the transition is listed on the pseudostate.
pub open spec fn initial_applied(before: Model, after: Model, stack: Seq<String>, x: PartialInitial, ok: bool) -> bool
    decreases x, 0nat,
{
    let owner = top(stack);
    let iname = spec_join(owner, x.name@);
    let tname = point_transition_name(iname);
    &&& keeps_members(before, after)
    &&& has_key(after.members@, iname)
    &&& has_key(after.members@, tname)
    &&& (elements_defer_free(x.elements@) ==> ok)
    &&& exists|m1: Model, m2: Model, mid: Model, inner: Model, s1: String, s2: String|
        #![trigger set_as(before, m1, iname, ElementView::Vertex(empty_vertex_view(kind::INITIAL, iname))), initial_recorded(m1, m2, owner, iname), set_as(m2, mid, tname, ElementView::Transition(initial_transition_view(tname, iname))), named(s1, iname), named(s2, tname), point_listed(inner, after, iname, tname, ok)]
        set_as(before, m1, iname, ElementView::Vertex(empty_vertex_view(kind::INITIAL, iname)))
            && initial_recorded(m1, m2, owner, iname)
            && set_as(m2, mid, tname, ElementView::Transition(initial_transition_view(tname, iname)))
            && named(s1, iname) && named(s2, tname)
            && elements_applied(mid, inner, stack.push(s1).push(s2), x.elements@, ok)
            && point_listed(inner, after, iname, tname, ok)
}

/// `after` is `inner` with `tname` added to the transitions of the
/// pseudostate `q`; when `ok` is false, `after` is `inner`.
pub open spec fn point_listed(inner: Model, after: Model, q: Seq<char>, tname: Seq<char>, ok: bool) -> bool {
    if !ok {
        after == inner
    } else {
        &&& same_except(inner, after, set![q])
        &&& keeps_members(inner, after)
        &&& after.member(q) == on_vertex(inner.member(q), |v: VertexView| VertexView { transitions: v.transitions.push(tname), ..v })
    }
}

/// What adding the pseudostate `top/name` of kind `k` with `elements` does:
/// it is put in place with no transitions; with no elements nothing more
/// happens; else it is given the fresh transition `top/name/transition`
/// from it, the elements are applied inside that transition (with both
/// names on the stack), and on success the transition is listed on it.
pub open spec fn point_applied(before: Model, after: Model, stack: Seq<String>, name: Seq<char>, k: KindValue, elements: Seq<Partial>, ok: bool) -> bool
    decreases elements, 3nat,
{
    let qn = spec_join(top_or_slash(stack), name);
    let tname = point_transition_name(qn);
    &&& keeps_members(before, after)
    &&& has_key(after.members@, qn)
    &&& (elements_defer_free(elements) ==> ok)
    &&& if elements.len() == 0 {
        ok && set_as(before, after, qn, ElementView::Vertex(empty_vertex_view(k, qn)))
    } else {
        exists|m1: Model, mid: Model, inner: Model, s1: String, s2: String|
            #![trigger set_as(before, m1, qn, ElementView::Vertex(empty_vertex_view(k, qn))), set_as(m1, mid, tname, ElementView::Transition(fresh_transition_view(tname, qn, seq![]))), named(s1, qn), named(s2, tname), point_listed(inner, after, qn, tname, ok)]
            set_as(before, m1, qn, ElementView::Vertex(empty_vertex_view(k, qn)))
                && set_as(m1, mid, tname, ElementView::Transition(fresh_transition_view(tname, qn, seq![])))
                && named(s1, qn) && named(s2, tname)
                && elements_applied(mid, inner, stack.push(s1).push(s2), elements, ok)
                && point_listed(inner, after, qn, tname, ok)
    }
}

/// The name a child member is copied under: its operation or attribute
/// rewrite, if any, else its own.
pub open spec fn member_rename(ops: Seq<(String, String)>, attrs: Seq<(String, String)>, name: Seq<char>) -> Seq<char> {
    match rewrite_get(ops, name) {
        Some(x) => x,
        None => match rewrite_get(attrs, name) {
            Some(x) => x,
            None => name,
        },
    }
}

/// The member `n` after the child's `members` are copied in order over
/// `base` (the last one copied under `n` wins).
pub open spec fn copied_member(base: Option<ElementView>, members: Seq<(String, ElementVariant)>, ops: Seq<(String, String)>, attrs: Seq<(String, String)>, n: Seq<char>) -> Option<ElementView>
    decreases members.len(),
{
    if members.len() == 0 {
        base
    } else if member_rename(ops, attrs, members.last().0@) == n {
        Some(rewritten_member(members.last().1@, ops, attrs))
    } else {
        copied_member(base, members.drop_last(), ops, attrs, n)
    }
}

/// `name` rewritten by `attrs`, if it names one of them.
pub open spec fn attribute_rename(attrs: Seq<(String, String)>, name: Seq<char>) -> Seq<char> {
    match rewrite_get(attrs, name) {
        Some(x) => x,
        None => name,
    }
}

/// The view of an attribute entry, if any.
pub open spec fn attribute_entry(a: Option<Attribute>) -> Option<AttributeView> {
    match a {
        Some(x) => Some(x@),
        None => None,
    }
}

/// The attribute `n` after the child's `attributes` are copied in order over
/// `base`, each under its rewritten name and with its rewritten name.
pub open spec fn copied_attribute(base: Option<AttributeView>, attributes: Seq<(String, Attribute)>, attrs: Seq<(String, String)>, n: Seq<char>) -> Option<AttributeView>
    decreases attributes.len(),
{
    if attributes.len() == 0 {
        base
    } else if attribute_rename(attrs, attributes.last().0@) == n {
        let a = attributes.last().1@;
        Some(AttributeView { element: NamedElementView { qualified_name: attribute_rename(attrs, a.element.qualified_name), ..a.element }, ..a })
    } else {
        copied_attribute(base, attributes.drop_last(), attrs, n)
    }
}

/// The state standing for a submachine: the child's own state, named `qn`,
/// of kind submachine state.
pub open spec fn boundary_view(st: StateView, qn: Seq<char>) -> StateView {
    StateView {
        vertex: VertexView { element: NamedElementView { kind: kind::SUBMACHINE_STATE, qualified_name: qn }, ..st.vertex },
        ..st
    }
}

/// `mid` is `mid0` with the child's members and attributes copied in.
pub open spec fn submachine_copied(mid0: Model, mid: Model, child: Model, ops: Seq<(String, String)>, attrs: Seq<(String, String)>) -> bool {
    &&& keeps_members(mid0, mid)
    &&& mid.state == mid0.state
    &&& mid.transition_map == mid0.transition_map
    &&& mid.deferred_map == mid0.deferred_map
    &&& mid.history_updates == mid0.history_updates
    &&& forall|n: Seq<char>| #[trigger] mid.member(n) == copied_member(mid0.member(n), child.members@, ops, attrs, n)
    &&& forall|n: Seq<char>|
        #[trigger] attribute_entry(table_get(mid.attributes@, n)) == copied_attribute(attribute_entry(table_get(mid0.attributes@, n)), child.attributes@, attrs, n)
}

/// `mid` is `before` with the submachine `machine` moved under `qn` (as
/// `child`), its state put in place as `qn`, and its members and attributes
/// copied in, operations and attributes moved under the machine and the
/// references to them rewritten (`ops`, `attrs`).
pub open spec fn submachine_started(before: Model, machine: Model, child: Model, mid0: Model, mid: Model, ops: Seq<(String, String)>, attrs: Seq<(String, String)>, qn: Seq<char>) -> bool {
    &&& rebased_model(machine, child, qn)
    &&& set_as(before, mid0, qn, ElementView::State(boundary_view(child.state@, qn)))
    &&& pairs_view(ops) == operation_rewrites(child.root(), child.members@, before.root())
    &&& pairs_view(attrs) == attribute_rewrites(child.root(), child.attributes@, before.root())
    &&& submachine_copied(mid0, mid, child, ops, attrs)
}

/// What applying the submachine state `x` does: see `submachine_started`,
/// then its elements are applied inside it.
pub open spec fn submachine_applied(before: Model, after: Model, stack: Seq<String>, x: PartialSubmachineState, ok: bool) -> bool
    decreases x, 0nat,
{
    let qn = spec_join(top_or_slash(stack), x.name@);
    &&& keeps_members(before, after)
    &&& has_key(after.members@, qn)
    &&& (elements_defer_free(x.elements@) ==> ok)
    &&& exists|child: Model, mid0: Model, mid: Model, ops: Seq<(String, String)>, attrs: Seq<(String, String)>, s: String|
        #![trigger submachine_started(before, x.machine, child, mid0, mid, ops, attrs, qn), named(s, qn)]
        submachine_started(before, x.machine, child, mid0, mid, ops, attrs, qn) && named(s, qn)
            && elements_applied(mid, after, stack.push(s), x.elements@, ok)
}

/// The element takes the name on top of the stack as its owner, so it can
/// only be applied inside another one.
pub open spec fn needs_owner(p: Partial) -> bool {
    !(p is State || p is SubmachineState || p is Transition || p is Attribute || p is Operation || p is GuardOperation
        || p is Observe || p is Validator || p is Finalizer || p is Choice || p is History || p is FinalState)
}

/// What applying `p` to `before` with `stack` gives: the model `after`, and success
/// when `ok`.
pub open spec fn partial_applied(before: Model, after: Model, stack: Seq<String>, p: Partial, ok: bool) -> bool
    decreases p, 0nat,
{
    match p {
        Partial::State(x) => state_applied(before, after, stack, x, ok),
        Partial::SubmachineState(x) => submachine_applied(before, after, stack, x, ok),
        Partial::Transition(x) => transition_applied(before, after, stack, x, ok),
        Partial::Source(x) => {
            &&& ok
            &&& (same_except(before, after, set![top(stack)]))
            &&& (keeps_members(before, after))
            &&& (after.member(top(stack)) == on_transition(before.member(top(stack)), |t: TransitionView| TransitionView { source: resolved_endpoint(before, stack, x.source@), ..t }))
        },
        Partial::Target(x) => {
            &&& ok
            &&& (same_except(before, after, set![top(stack)]))
            &&& (keeps_members(before, after))
            &&& (after.member(top(stack)) == on_transition(before.member(top(stack)), |t: TransitionView| TransitionView { target: resolved_endpoint(before, stack, x.target@), ..t }))
        },
        Partial::Trigger(x) => {
            &&& ok
            &&& (same_except(before, after, set![top(stack)]))
            &&& (keeps_members(before, after))
            &&& (after.member(top(stack)) == on_transition(before.member(top(stack)), |t: TransitionView| TransitionView { events: t.events + names_view(x.events@), ..t }))
        },
        Partial::OnSet(x) => {
            &&& ok
            &&& (({
                let en = set_event_name(before, x.name@);
                let fresh = !has_key(before.attributes@, en);
                let av = attribute_view(en, x.name@, None);
                &&& after.state == before.state
                &&& after.transition_map == before.transition_map
                &&& after.deferred_map == before.deferred_map
                &&& after.history_updates == before.history_updates
                &&& forall|n: Seq<char>| n != top(stack) && n != en ==> #[trigger] after.member(n) == before.member(n)
                &&& (en != top(stack) || !fresh) ==> after.member(top(stack)) == on_transition(before.member(top(stack)), |t: TransitionView| TransitionView { events: t.events.push(en), ..t })
                &&& fresh ==> after.member(en) == Some(ElementView::Attribute(av))
                &&& fresh ==> (table_get(after.attributes@, en) matches Some(a) && a@ == av)
                &&& fresh ==> forall|n: Seq<char>| n != en ==> #[trigger] table_get(after.attributes@, n) == table_get(before.attributes@, n)
                &&& !fresh ==> after.attributes == before.attributes
            }))
            &&& (keeps_members(before, after))
        },
        Partial::OnCall(x) => {
            &&& ok
            &&& (same_except(before, after, set![top(stack)]))
            &&& (keeps_members(before, after))
            &&& (after.member(top(stack)) == on_transition(before.member(top(stack)), |t: TransitionView| TransitionView { events: t.events.push(call_trigger_view(spec_resolve_model_reference(before, names_view(stack), x.name@))), ..t }))
        },
        Partial::Attribute(x) => {
            &&& ok
            &&& (({
                let qn = spec_join(top_or_root(before, stack), x.name@);
                let av = attribute_view(qn, x.name@, x.default_value);
                &&& after.state == before.state
                &&& after.transition_map == before.transition_map
                &&& after.deferred_map == before.deferred_map
                &&& after.history_updates == before.history_updates
                &&& after.member(qn) == Some(ElementView::Attribute(av))
                &&& forall|n: Seq<char>| n != qn ==> #[trigger] after.member(n) == before.member(n)
                &&& table_get(after.attributes@, qn) matches Some(a) && a@ == av
                &&& forall|n: Seq<char>| n != qn ==> #[trigger] table_get(after.attributes@, n) == table_get(before.attributes@, n)
            }))
            &&& (keeps_members(before, after))
        },
        Partial::Operation(x) => {
            &&& ok
            &&& (({
                let qn = spec_join(top_or_root(before, stack), x.name@);
                &&& same_except(before, after, set![qn])
                &&& after.member(qn) == Some(ElementView::Operation(OperationView { element: NamedElementView { kind: kind::OPERATION, qualified_name: qn }, action: Some(x.action), guard: None }))
            }))
            &&& (keeps_members(before, after))
        },
        Partial::GuardOperation(x) => {
            &&& ok
            &&& (({
                let qn = spec_join(top_or_root(before, stack), x.name@);
                &&& same_except(before, after, set![qn])
                &&& after.member(qn) == Some(ElementView::Operation(OperationView { element: NamedElementView { kind: kind::OPERATION, qualified_name: qn }, action: None, guard: Some(x.guard) }))
            }))
            &&& (keeps_members(before, after))
        },
        Partial::Effect(x) => {
            &&& ok
            &&& (same_except(before, after, set![top(stack)] + generated_names(top(stack), BehaviorRole::Effect, x.operations@.len()).to_set()))
            &&& (keeps_members(before, after))
            &&& (forall|i: int| 0 <= i < x.operations@.len() ==> #[trigger] after.member(generated_name(top(stack), BehaviorRole::Effect, i as nat)) == Some(ElementView::Behavior(role_behavior(BehaviorRole::Effect, generated_name(top(stack), BehaviorRole::Effect, i as nat), x.operations@[i]))))
            &&& (after.member(top(stack)) == role_list_push(before.member(top(stack)), BehaviorRole::Effect, generated_names(top(stack), BehaviorRole::Effect, x.operations@.len())))
        },
        Partial::Entry(x) => {
            &&& ok
            &&& (same_except(before, after, set![top(stack)] + generated_names(top(stack), BehaviorRole::Entry, x.operations@.len()).to_set()))
            &&& (keeps_members(before, after))
            &&& (forall|i: int| 0 <= i < x.operations@.len() ==> #[trigger] after.member(generated_name(top(stack), BehaviorRole::Entry, i as nat)) == Some(ElementView::Behavior(role_behavior(BehaviorRole::Entry, generated_name(top(stack), BehaviorRole::Entry, i as nat), x.operations@[i]))))
            &&& (after.member(top(stack)) == role_list_push(before.member(top(stack)), BehaviorRole::Entry, generated_names(top(stack), BehaviorRole::Entry, x.operations@.len())))
        },
        Partial::Exit(x) => {
            &&& ok
            &&& (same_except(before, after, set![top(stack)] + generated_names(top(stack), BehaviorRole::Exit, x.operations@.len()).to_set()))
            &&& (keeps_members(before, after))
            &&& (forall|i: int| 0 <= i < x.operations@.len() ==> #[trigger] after.member(generated_name(top(stack), BehaviorRole::Exit, i as nat)) == Some(ElementView::Behavior(role_behavior(BehaviorRole::Exit, generated_name(top(stack), BehaviorRole::Exit, i as nat), x.operations@[i]))))
            &&& (after.member(top(stack)) == role_list_push(before.member(top(stack)), BehaviorRole::Exit, generated_names(top(stack), BehaviorRole::Exit, x.operations@.len())))
        },
        Partial::Activity(x) => {
            &&& ok
            &&& (same_except(before, after, set![top(stack)] + generated_names(top(stack), BehaviorRole::Activity, x.operations@.len()).to_set()))
            &&& (keeps_members(before, after))
            &&& (forall|i: int| 0 <= i < x.operations@.len() ==> #[trigger] after.member(generated_name(top(stack), BehaviorRole::Activity, i as nat)) == Some(ElementView::Behavior(role_behavior(BehaviorRole::Activity, generated_name(top(stack), BehaviorRole::Activity, i as nat), x.operations@[i]))))
            &&& (after.member(top(stack)) == role_list_push(before.member(top(stack)), BehaviorRole::Activity, generated_names(top(stack), BehaviorRole::Activity, x.operations@.len())))
        },
        Partial::Guard(x) => {
            &&& ok
            &&& (({
                let gn = spec_join(top(stack), seq!['g', 'u', 'a', 'r', 'd']);
                &&& same_except(before, after, set![top(stack), gn])
                &&& after.member(gn) == Some(ElementView::Constraint(constraint_view(gn, Some(x.expression), None, None, None)))
                &&& after.member(top(stack)) == on_transition(before.member(top(stack)), |t: TransitionView| TransitionView { guard: gn, ..t })
            }))
            &&& (keeps_members(before, after))
        },
        Partial::BehaviorOperation(x) => {
            &&& ok
            &&& (({
                let bn = operation_behavior_name(top(stack), x.role, x.name@);
                let op = spec_resolve_model_reference(before, names_view(stack), x.name@);
                &&& same_except(before, after, set![top(stack), bn])
                &&& after.member(bn) == Some(ElementView::Behavior(BehaviorView {
                    element: NamedElementView { kind: role_kind(x.role), qualified_name: bn },
                    entry: None,
                    effect: None,
                    exit: None,
                    activity: None,
                    operation: Some(BehaviorOperationView::Operation(op)),
                }))
                &&& after.member(top(stack)) == role_list_push(before.member(top(stack)), x.role, seq![bn])
            }))
            &&& (keeps_members(before, after))
        },
        Partial::Observe(x) => {
            &&& ok
            &&& (exists|k: nat| {
                let qn = #[trigger] hook_name(before.root(), observation_prefix(), k);
                &&& !has_key(before.members@, qn)
                &&& forall|j: nat| j < k ==> has_key(before.members@, #[trigger] hook_name(before.root(), observation_prefix(), j))
                &&& same_except(before, after, set![qn])
                &&& after.member(qn) == Some(ElementView::Observation(ObservationView { element: NamedElementView { kind: kind::OBSERVATION, qualified_name: qn }, observer: x.observer, targets: names_view(x.targets@) }))
            })
            &&& (keeps_members(before, after))
        },
        Partial::Validator(x) => {
            &&& ok
            &&& (exists|k: nat| {
                let qn = #[trigger] hook_name(before.root(), validator_prefix(), k);
                &&& !has_key(before.members@, qn)
                &&& forall|j: nat| j < k ==> has_key(before.members@, #[trigger] hook_name(before.root(), validator_prefix(), j))
                &&& same_except(before, after, set![qn])
                &&& after.member(qn) == Some(ElementView::Validator(crate::element::HookView { element: NamedElementView { kind: kind::ELEMENT, qualified_name: qn }, hook: x.validator }))
            })
            &&& (keeps_members(before, after))
        },
        Partial::Finalizer(x) => {
            &&& ok
            &&& (exists|k: nat| {
                let qn = #[trigger] hook_name(before.root(), finalizer_prefix(), k);
                &&& !has_key(before.members@, qn)
                &&& forall|j: nat| j < k ==> has_key(before.members@, #[trigger] hook_name(before.root(), finalizer_prefix(), j))
                &&& same_except(before, after, set![qn])
                &&& after.member(qn) == Some(ElementView::Finalizer(crate::element::HookView { element: NamedElementView { kind: kind::ELEMENT, qualified_name: qn }, hook: x.finalizer }))
            })
            &&& (keeps_members(before, after))
        },
        Partial::GuardOperationRef(x) => {
            &&& ok
            &&& (({
                let gn = spec_join(top(stack), seq!['g', 'u', 'a', 'r', 'd']);
                let op = spec_resolve_model_reference(before, names_view(stack), x.name@);
                &&& same_except(before, after, set![top(stack), gn])
                &&& after.member(gn) == Some(ElementView::Constraint(constraint_view(gn, None, Some(op), None, None)))
                &&& after.member(top(stack)) == on_transition(before.member(top(stack)), |t: TransitionView| TransitionView { guard: gn, ..t })
            }))
            &&& (keeps_members(before, after))
        },
        Partial::Initial(x) => initial_applied(before, after, stack, x, ok),
        Partial::Choice(x) => choice_applied(before, after, stack, x, ok),
        Partial::EntryPoint(x) => {
            &&& (keeps_members(before, after))
            &&& (before.transition_of(top(stack)) matches Some(t) ==> (ok && same_except(before, after, set![top(stack)]) && after.member(top(stack)) == Some(ElementView::Transition(TransitionView { target: spec_join(if t.target.len() == 0 { t.source } else { t.target }, x.name@), ..t }))))
            &&& (before.transition_of(top(stack)) is None ==> point_applied(before, after, stack, x.name@, kind::ENTRY_POINT, x.elements@, ok))
            &&& (elements_defer_free(x.elements@) ==> ok)
        },
        Partial::ExitPoint(x) => {
            &&& (keeps_members(before, after))
            &&& (before.transition_of(top(stack)) matches Some(t) ==> (ok && same_except(before, after, set![top(stack)]) && after.member(top(stack)) == Some(ElementView::Transition(TransitionView {
                source: match spec_exit_point_source(before, t.source, x.name@) {
                    Some(x) => x,
                    None => spec_join(t.source, x.name@),
                },
                ..t
            }))))
            &&& (before.transition_of(top(stack)) is None ==> point_applied(before, after, stack, x.name@, kind::EXIT_POINT, x.elements@, ok))
            &&& (elements_defer_free(x.elements@) ==> ok)
        },
        Partial::History(x) => point_applied(before, after, stack, x.name@, x.kind, x.elements@, ok),
        Partial::FinalState(x) => {
            &&& ok
            &&& (({
                let qn = spec_join(top_or_slash(stack), x.name@);
                &&& same_except(before, after, set![qn])
                &&& after.member(qn) == Some(ElementView::State(empty_state_view(kind::FINAL_STATE, qn)))
            }))
            &&& (keeps_members(before, after))
        },
        Partial::Defer(x) => {
            &&& (ok <==> before.state_of(top(stack)) is Some)
            &&& (!ok ==> after == before)
            &&& (ok ==> same_except(before, after, set![top(stack)]))
            &&& (after.member(top(stack)) == on_state(before.member(top(stack)), |s: StateView| StateView { deferred: s.deferred + names_view(x.events@), ..s }))
            &&& (keeps_members(before, after))
        },
        Partial::After(x) => {
            &&& ok
            &&& (({
                let q = top(stack);
                let cn = spec_join(q, seq!['a', 'f', 't', 'e', 'r']);
                &&& same_except(before, after, set![q, cn])
                &&& after.member(cn) == Some(ElementView::Constraint(constraint_view(cn, None, None, Some(x.duration_fn), None)))
                &&& after.member(q) == on_transition(before.member(q), |t: TransitionView| TransitionView {
                    events: t.events.push(spec_join(q, seq!['d', 'u', 'r', 'a', 't', 'i', 'o', 'n'])).push(seq!['h', 's', 'm', '_', 't', 'i', 'm', 'e', 'r', '_', 'a', 'f', 't', 'e', 'r']),
                    guard: if t.guard.len() == 0 { cn } else { t.guard },
                    ..t
                })
            }))
            &&& (keeps_members(before, after))
        },
        Partial::At(x) => {
            &&& ok
            &&& (({
                let q = top(stack);
                let cn = spec_join(q, seq!['a', 't']);
                &&& same_except(before, after, set![q, cn])
                &&& after.member(cn) == Some(ElementView::Constraint(constraint_view(cn, None, None, None, Some(x.timepoint_fn))))
                &&& after.member(q) == on_transition(before.member(q), |t: TransitionView| TransitionView {
                    events: t.events.push(spec_join(q, seq!['t', 'i', 'm', 'e', 'p', 'o', 'i', 'n', 't'])).push(seq!['h', 's', 'm', '_', 't', 'i', 'm', 'e', 'r', '_', 'a', 't']),
                    guard: if t.guard.len() == 0 { cn } else { t.guard },
                    ..t
                })
            }))
            &&& (keeps_members(before, after))
        },
        Partial::Every(x) => {
            &&& ok
            &&& (({
                let q = top(stack);
                let cn = spec_join(q, seq!['e', 'v', 'e', 'r', 'y']);
                &&& same_except(before, after, set![q, cn])
                &&& after.member(cn) == Some(ElementView::Constraint(constraint_view(cn, None, None, Some(x.duration_fn), None)))
                &&& after.member(q) == on_transition(before.member(q), |t: TransitionView| TransitionView {
                    events: t.events.push(spec_join(q, seq!['d', 'u', 'r', 'a', 't', 'i', 'o', 'n'])).push(seq!['h', 's', 'm', '_', 't', 'i', 'm', 'e', 'r', '_', 'e', 'v', 'e', 'r', 'y']),
                    guard: if t.guard.len() == 0 { cn } else { t.guard },
                    ..t
                })
            }))
            &&& (keeps_members(before, after))
        },
    }
}

/// `ms` is the run of applying `es` in order with `stack`: `ms[i + 1]` comes
/// from `ms[i]` by applying `es[i]`; the first `k` succeed, and when `k` is
/// short of them all the next one fails and ends the run.
pub open spec fn applied_trace(stack: Seq<String>, es: Seq<Partial>, ms: Seq<Model>, k: int) -> bool
    decreases es, 1nat,
{
    &&& 0 <= k <= es.len()
    &&& ms.len() == if k == es.len() { k + 1 } else { k + 2 }
    &&& forall|i: int| #![trigger es[i]] 0 <= i < k ==> partial_applied(ms[i], ms[i + 1], stack, es[i], true)
    &&& k < es.len() ==> partial_applied(ms[k], ms[k + 1], stack, es[k], false)
}

/// The run `ms` goes from `a` to `b`, after `k` successful steps.
pub open spec fn run_ends(ms: Seq<Model>, k: int, a: Model, b: Model) -> bool {
    0 <= k && ms.len() > 0 && ms[0] == a && ms.last() == b
}

/// What applying `es` in order to `a` with `stack` gives, stopping at the
/// first failure: the model `b`, and success when `ok`.
pub open spec fn elements_applied(a: Model, b: Model, stack: Seq<String>, es: Seq<Partial>, ok: bool) -> bool
    decreases es, 2nat,
{
    exists|ms: Seq<Model>, k: int|
        #![trigger run_ends(ms, k, a, b)]
        run_ends(ms, k, a, b) && applied_trace(stack, es, ms, k) && ok == (k == es.len())
}

/// Applies each element in order, stopping at the first failure.
pub fn apply_elements(elements: &Vec<Partial>, model: &mut Model, stack: &mut Vec<String>) -> (r: Result<(), HsmError>)
    requires
        old(stack)@.len() > 0 || forall|i: int| 0 <= i < elements@.len() ==> !needs_owner(#[trigger] elements@[i]),
    ensures
        final(stack)@ == old(stack)@,
        keeps_members(*old(model), *final(model)),
        elements_defer_free(elements@) ==> r is Ok,
        r is Err ==> r matches Err(HsmError::StateMachine(_)),
        elements_applied(*old(model), *final(model), old(stack)@, elements@, r is Ok),
    decreases elements, 0nat,
{
    let mut i: usize = 0;
    let ghost mut ms: Seq<Model> = seq![*model];
    while i < elements.len()
        invariant
            0 <= i <= elements@.len(),
            old(stack)@.len() > 0 || forall|i: int| 0 <= i < elements@.len() ==> !needs_owner(#[trigger] elements@[i]),
            stack@ == old(stack)@,
            keeps_members(*old(model), *model),
            ms.len() == i + 1,
            ms[0] == *old(model),
            ms.last() == *model,
            forall|j: int| #![trigger elements@[j]] 0 <= j < i ==> partial_applied(ms[j], ms[j + 1], old(stack)@, elements@[j], true),
        decreases elements@.len() - i,
    {
        proof {
            assert(decreases_to!(elements => elements@));
            assert(decreases_to!(elements@ => elements@[i as int]));
            if elements_defer_free(elements@) {
                lemma_elements_defer_free(elements@, i as int);
            }
        }
        let ghost before = *model;
        let r = apply_partial(&elements[i], model, stack);
        proof {
            ms = ms.push(*model);
        }
        if r.is_err() {
            assert(applied_trace(old(stack)@, elements@, ms, i as int));
            assert(run_ends(ms, i as int, *old(model), *model));
            return r;
        }
        i += 1;
    }
    assert(applied_trace(old(stack)@, elements@, ms, elements@.len() as int));
    assert(run_ends(ms, elements@.len() as int, *old(model), *model));
    Ok(())
}

/// Applies one element.
pub fn apply_partial(p: &Partial, model: &mut Model, stack: &mut Vec<String>) -> (r: Result<(), HsmError>)
    requires
        old(stack)@.len() > 0 || !needs_owner(*p),
    ensures
        final(stack)@ == old(stack)@,
        keeps_members(*old(model), *final(model)),
        defer_free(*p) ==> r is Ok,
        r is Err ==> r matches Err(HsmError::StateMachine(_)),
        partial_applied(*old(model), *final(model), old(stack)@, *p, r is Ok),
    decreases p, 0nat,
{
    match p {
        Partial::State(x) => apply_state(x, model, stack),
        Partial::SubmachineState(x) => apply_submachine_state(x, model, stack),
        Partial::Transition(x) => apply_transition(x, model, stack),
        Partial::Source(x) => {
            apply_source(x, model, stack);
            Ok(())
        },
        Partial::Target(x) => {
            apply_target(x, model, stack);
            Ok(())
        },
        Partial::Trigger(x) => {
            apply_trigger(x, model, stack);
            Ok(())
        },
        Partial::OnSet(x) => {
            apply_on_set(x, model, stack);
            Ok(())
        },
        Partial::OnCall(x) => {
            apply_on_call(x, model, stack);
            Ok(())
        },
        Partial::Attribute(x) => {
            apply_attribute(x, model, stack);
            Ok(())
        },
        Partial::Operation(x) => {
            apply_operation(x, model, stack);
            Ok(())
        },
        Partial::GuardOperation(x) => {
            apply_guard_operation(x, model, stack);
            Ok(())
        },
        Partial::Effect(x) => {
            apply_effect(x, model, stack);
            Ok(())
        },
        Partial::Entry(x) => {
            apply_entry(x, model, stack);
            Ok(())
        },
        Partial::Exit(x) => {
            apply_exit(x, model, stack);
            Ok(())
        },
        Partial::Activity(x) => {
            apply_activity(x, model, stack);
            Ok(())
        },
        Partial::Guard(x) => {
            apply_guard(x, model, stack);
            Ok(())
        },
        Partial::BehaviorOperation(x) => {
            apply_behavior_operation(x, model, stack);
            Ok(())
        },
        Partial::Observe(x) => {
            apply_observe(x, model, stack);
            Ok(())
        },
        Partial::Validator(x) => {
            apply_validator(x, model, stack);
            Ok(())
        },
        Partial::Finalizer(x) => {
            apply_finalizer(x, model, stack);
            Ok(())
        },
        Partial::GuardOperationRef(x) => {
            apply_guard_operation_ref(x, model, stack);
            Ok(())
        },
        Partial::Initial(x) => apply_initial(x, model, stack),
        Partial::Choice(x) => apply_choice(x, model, stack),
        Partial::EntryPoint(x) => apply_entry_point(x, model, stack),
        Partial::ExitPoint(x) => apply_exit_point(x, model, stack),
        Partial::History(x) => apply_history(x, model, stack),
        Partial::FinalState(x) => {
            apply_final_state(x, model, stack);
            Ok(())
        },
        Partial::Defer(x) => apply_defer(x, model, stack),
        Partial::After(x) => {
            apply_after(x, model, stack);
            Ok(())
        },
        Partial::At(x) => {
            apply_at(x, model, stack);
            Ok(())
        },
        Partial::Every(x) => {
            apply_every(x, model, stack);
            Ok(())
        },
    }
}

/// Applies `elements` with `qn` pushed on the stack.
fn apply_inside(qn: &String, elements: &Vec<Partial>, model: &mut Model, stack: &mut Vec<String>) -> (r: Result<(), HsmError>)
    ensures
        final(stack)@ == old(stack)@,
        keeps_members(*old(model), *final(model)),
        elements_defer_free(elements@) ==> r is Ok,
        r is Err ==> r matches Err(HsmError::StateMachine(_)),
        elements_applied(*old(model), *final(model), old(stack)@.push(*qn), elements@, r is Ok),
    decreases elements, 1nat,
{
    stack.push(qn.clone());
    let r = apply_elements(elements, model, stack);
    stack.pop();
    r
}

/// A state under the element on top of the stack (`/` when it is empty),
/// created unless a state of that name exists, with its elements applied
/// inside it.
pub fn apply_state(p: &PartialState, model: &mut Model, stack: &mut Vec<String>) -> (r: Result<(), HsmError>)
    ensures
        final(stack)@ == old(stack)@,
        keeps_members(*old(model), *final(model)),
        has_key(final(model).members@, spec_join(top_or_slash(old(stack)@), p.name@)),
        elements_defer_free(p.elements@) ==> r is Ok,
        r is Err ==> r matches Err(HsmError::StateMachine(_)),
        state_applied(*old(model), *final(model), old(stack)@, *p, r is Ok),
    decreases p, 0nat,
{
    let owner = owner_or_slash(stack);
    let qualified_name = join(owner.as_str(), p.name.as_str());
    if model.get_state(qualified_name.as_str()).is_none() {
        model.set_member(qualified_name.clone(), ElementVariant::State(State::empty(kind::STATE, qualified_name.clone())));
    }
    proof {
        assert(has_key(model.members@, qualified_name@)) by {
            assoc::lemma_find_index(model.members@, qualified_name@);
        }
    }
    let ghost mid = *model;
    assert(state_started(*old(model), mid, qualified_name@));
    let r = apply_inside(&qualified_name, &p.elements, model, stack);
    assert(named(qualified_name, qualified_name@));
    r
}

/// The name on top of the stack, or `/` when it is empty.
fn owner_or_slash(stack: &Vec<String>) -> (r: String)
    ensures
        r@ == top_or_slash(stack@),
{
    if stack.len() > 0 {
        stack[stack.len() - 1].clone()
    } else {
        proof {
            reveal_strlit("/");
            assert("/"@ =~= seq!['/']);
        }
        text::owned("/")
    }
}

/// A choice pseudostate under the element on top of the stack (`/` when it
/// is empty), with its transitions applied inside it.
pub fn apply_choice(p: &PartialChoice, model: &mut Model, stack: &mut Vec<String>) -> (r: Result<(), HsmError>)
    ensures
        final(stack)@ == old(stack)@,
        keeps_members(*old(model), *final(model)),
        has_key(final(model).members@, spec_join(top_or_slash(old(stack)@), p.name@)),
        elements_defer_free(p.elements@) ==> r is Ok,
        r is Err ==> r matches Err(HsmError::StateMachine(_)),
        choice_applied(*old(model), *final(model), old(stack)@, *p, r is Ok),
    decreases p, 0nat,
{
    let owner = owner_or_slash(stack);
    let qualified_name = join(owner.as_str(), p.name.as_str());
    let vertex = Vertex {
        element: NamedElement { kind: kind::CHOICE, qualified_name: qualified_name.clone() },
        transitions: Vec::new(),
    };
    assert(vertex@.transitions =~= Seq::<Seq<char>>::empty());
    model.set_member(qualified_name.clone(), ElementVariant::Vertex(vertex));
    let ghost mid = *model;
    assert(set_as(*old(model), mid, qualified_name@, ElementView::Vertex(empty_vertex_view(kind::CHOICE, qualified_name@))));
    let r = apply_inside(&qualified_name, &p.elements, model, stack);
    assert(named(qualified_name, qualified_name@));
    r
}

/// A transition declared under the element on top of the stack (`/` when it
/// is empty) and leaving it, named `transition_N` when it has no name. Its
/// elements are applied inside it; then it is listed on its source: at the
/// end, or, for a transition declared on the machine whose source was set
/// elsewhere (other than a guardless one leaving an exit point), after the
/// source's other transitions declared on the machine.
pub fn apply_transition(p: &PartialTransition, model: &mut Model, stack: &mut Vec<String>) -> (r: Result<(), HsmError>)
    ensures
        final(stack)@ == old(stack)@,
        keeps_members(*old(model), *final(model)),
        has_key(final(model).members@, spec_join(top_or_slash(old(stack)@), if p.name@.len() == 0 { default_transition_name(*old(model)) } else { p.name@ })),
        elements_defer_free(p.elements@) ==> r is Ok,
        r is Err ==> r matches Err(HsmError::StateMachine(_)),
        transition_applied(*old(model), *final(model), old(stack)@, *p, r is Ok),
    decreases p, 0nat,
{
    let owner = owner_or_slash(stack);
    let transition_name = if p.name.unicode_len() == 0 {
        proof {
            reveal_strlit("transition_");
        }
        let count = structural_member_count(model);
        let r = text::concat("transition_", u128_to_string(count).as_str());
        assert(r@ =~= default_transition_name(*model));
        r
    } else {
        p.name.clone()
    };
    let qualified_name = join(owner.as_str(), transition_name.as_str());
    let fresh = Transition::from_source(qualified_name.clone(), owner.clone());
    model.set_member(qualified_name.clone(), ElementVariant::Transition(fresh.clone()));
    let ghost mid = *model;
    assert(set_as(*old(model), mid, qualified_name@, ElementView::Transition(fresh_transition_view(qualified_name@, owner@, seq![]))));
    assert(named(qualified_name, qualified_name@));
    let r = apply_inside(&qualified_name, &p.elements, model, stack);
    let ghost inner = *model;
    if r.is_err() {
        assert(transition_listed(inner, *model, qualified_name@, owner@, false));
        return r;
    }
    let ghost qn = qualified_name;
    list_transition(model, qualified_name, owner.as_str(), fresh);
    assert(named(qn, qn@));
    r
}

/// Lists the transition `qualified_name` (declared on `owner`) on its source
/// and writes it back (see `transition_listed`).
fn list_transition(model: &mut Model, qualified_name: String, owner: &str, fresh: Transition)
    requires
        fresh@ == fresh_transition_view(qualified_name@, owner@, seq![]),
    ensures
        transition_listed(*old(model), *final(model), qualified_name@, owner@, true),
        has_key(final(model).members@, qualified_name@),
{
    let ghost qn = qualified_name@;
    let transition = match transition_copy(model, qualified_name.as_str()) {
        Some(t) => t,
        None => fresh,
    };
    let root = model.state.vertex.element.qualified_name.as_str();
    let leaves_exit_point = match model.get_vertex(transition.source.as_str()) {
        Some(v) => kind::is_kind(v.element.kind, kind::EXIT_POINT) && transition.guard.unicode_len() == 0,
        None => false,
    };
    let prepend = text::str_eq(owner, root) && !text::str_eq(transition.source.as_str(), owner) && !leaves_exit_point;
    let index = if prepend {
        source_transition_insert_index(model, transition.source.as_str(), owner)
    } else {
        0
    };
    let source = transition.source.clone();
    attach_to_source(model, source.as_str(), qualified_name.as_str(), prepend, index);
    model.set_member(qualified_name, ElementVariant::Transition(transition));
}

/// The initial pseudostate of the state on top of the stack (or of the
/// machine), with its transition on the initial event, whose elements are
/// applied inside it.
pub fn apply_initial(p: &PartialInitial, model: &mut Model, stack: &mut Vec<String>) -> (r: Result<(), HsmError>)
    requires
        old(stack)@.len() > 0,
    ensures
        final(stack)@ == old(stack)@,
        keeps_members(*old(model), *final(model)),
        has_key(final(model).members@, spec_join(top(old(stack)@), p.name@)),
        has_key(final(model).members@, spec_join(spec_join(top(old(stack)@), p.name@), seq!['t', 'r', 'a', 'n', 's', 'i', 't', 'i', 'o', 'n'])),
        elements_defer_free(p.elements@) ==> r is Ok,
        r is Err ==> r matches Err(HsmError::StateMachine(_)),
        initial_applied(*old(model), *final(model), old(stack)@, *p, r is Ok),
    decreases p, 0nat,
{
    let state_qn = stack[stack.len() - 1].clone();
    let initial_name = join(state_qn.as_str(), p.name.as_str());
    let vertex = Vertex {
        element: NamedElement { kind: kind::INITIAL, qualified_name: initial_name.clone() },
        transitions: Vec::new(),
    };
    assert(vertex@.transitions =~= Seq::<Seq<char>>::empty());
    model.set_member(initial_name.clone(), ElementVariant::Vertex(vertex));
    let ghost m1 = *model;
    assert(set_as(*old(model), m1, initial_name@, ElementView::Vertex(empty_vertex_view(kind::INITIAL, initial_name@))));
    match state_copy(model, state_qn.as_str()) {
        Some(mut st) => {
            st.initial = initial_name.clone();
            model.set_member(state_qn.clone(), ElementVariant::State(st));
        },
        None => {
            if text::str_eq(state_qn.as_str(), model.state.vertex.element.qualified_name.as_str()) {
                model.state.initial = initial_name.clone();
            }
        },
    }
    let ghost m2 = *model;
    assert(initial_recorded(m1, m2, state_qn@, initial_name@));
    proof {
        reveal_strlit("transition");
        reveal_strlit("hsm/initial");
        assert("transition"@ =~= seq!['t', 'r', 'a', 'n', 's', 'i', 't', 'i', 'o', 'n']);
        assert("hsm/initial"@ =~= seq!['h', 's', 'm', '/', 'i', 'n', 'i', 't', 'i', 'a', 'l']);
    }
    stack.push(initial_name.clone());
    let transition_name = join(initial_name.as_str(), "transition");
    let mut events: Vec<String> = Vec::new();
    events.push(text::owned("hsm/initial"));
    let transition = Transition {
        element: NamedElement { kind: kind::TRANSITION, qualified_name: transition_name.clone() },
        kind_override: None,
        source: initial_name.clone(),
        target: String::new(),
        guard: String::new(),
        effect: Vec::new(),
        events,
        paths: Vec::new(),
    };
    assert(transition@ =~= initial_transition_view(transition_name@, initial_name@));
    model.set_member(transition_name.clone(), ElementVariant::Transition(transition));
    let ghost mid = *model;
    assert(set_as(m2, mid, transition_name@, ElementView::Transition(initial_transition_view(transition_name@, initial_name@))));
    let r = apply_inside(&transition_name, &p.elements, model, stack);
    let ghost inner = *model;
    stack.pop();
    assert(stack@ =~= old(stack)@);
    assert(named(initial_name, initial_name@) && named(transition_name, transition_name@));
    if r.is_err() {
        assert(point_listed(inner, *model, initial_name@, transition_name@, false));
        return r;
    }
    push_vertex_transition(model, initial_name.as_str(), transition_name.as_str());
    assert(point_listed(inner, *model, initial_name@, transition_name@, true));
    r
}

/// A pseudostate of the given kind under the element on top of the stack
/// (`/` when it is empty); when elements are given, with a transition from
/// it whose elements are applied inside it.
fn add_connection_point_vertex(model: &mut Model, stack: &mut Vec<String>, name: &str, point_kind: KindValue, elements: &Vec<Partial>) -> (r: Result<(), HsmError>)
    ensures
        final(stack)@ == old(stack)@,
        keeps_members(*old(model), *final(model)),
        has_key(final(model).members@, spec_join(top_or_slash(old(stack)@), name@)),
        elements_defer_free(elements@) ==> r is Ok,
        r is Err ==> r matches Err(HsmError::StateMachine(_)),
        point_applied(*old(model), *final(model), old(stack)@, name@, point_kind, elements@, r is Ok),
    decreases elements, 2nat,
{
    let owner = owner_or_slash(stack);
    let qualified_name = join(owner.as_str(), name);
    let vertex = Vertex {
        element: NamedElement { kind: point_kind, qualified_name: qualified_name.clone() },
        transitions: Vec::new(),
    };
    assert(vertex@.transitions =~= Seq::<Seq<char>>::empty());
    model.set_member(qualified_name.clone(), ElementVariant::Vertex(vertex));
    let ghost m1 = *model;
    assert(set_as(*old(model), m1, qualified_name@, ElementView::Vertex(empty_vertex_view(point_kind, qualified_name@))));
    if elements.len() == 0 {
        return Ok(());
    }
    proof {
        reveal_strlit("transition");
        assert("transition"@ =~= seq!['t', 'r', 'a', 'n', 's', 'i', 't', 'i', 'o', 'n']);
    }
    stack.push(qualified_name.clone());
    let transition_name = join(qualified_name.as_str(), "transition");
    let transition = Transition::from_source(transition_name.clone(), qualified_name.clone());
    model.set_member(transition_name.clone(), ElementVariant::Transition(transition));
    let ghost mid = *model;
    assert(set_as(m1, mid, transition_name@, ElementView::Transition(fresh_transition_view(transition_name@, qualified_name@, seq![]))));
    let r = apply_inside(&transition_name, elements, model, stack);
    let ghost inner = *model;
    stack.pop();
    assert(stack@ =~= old(stack)@);
    if r.is_err() {
        assert(point_listed(inner, *model, qualified_name@, transition_name@, false));
        assert(named(qualified_name, qualified_name@) && named(transition_name, transition_name@));
        return r;
    }
    push_vertex_transition(model, qualified_name.as_str(), transition_name.as_str());
    assert(point_listed(inner, *model, qualified_name@, transition_name@, true));
    assert(named(qualified_name, qualified_name@) && named(transition_name, transition_name@));
    r
}

/// An entry point; inside a transition, the entry point of the transition's
/// target (or source) it enters by.
pub fn apply_entry_point(p: &PartialEntryPoint, model: &mut Model, stack: &mut Vec<String>) -> (r: Result<(), HsmError>)
    requires
        old(stack)@.len() > 0,
    ensures
        final(stack)@ == old(stack)@,
        keeps_members(*old(model), *final(model)),
        old(model).transition_of(top(old(stack)@)) matches Some(t) ==> (r is Ok && same_except(*old(model), *final(model), set![top(old(stack)@)]) && final(model).member(top(old(stack)@)) == Some(ElementView::Transition(TransitionView { target: spec_join(if t.target.len() == 0 { t.source } else { t.target }, p.name@), ..t }))),
        old(model).transition_of(top(old(stack)@)) is None ==> point_applied(*old(model), *final(model), old(stack)@, p.name@, kind::ENTRY_POINT, p.elements@, r is Ok),
        elements_defer_free(p.elements@) ==> r is Ok,
        r is Err ==> r matches Err(HsmError::StateMachine(_)),
    decreases p, 0nat,
{
    let owner = stack[stack.len() - 1].clone();
    match transition_copy(model, owner.as_str()) {
        Some(mut t) => {
            let target = if t.target.unicode_len() == 0 {
                t.source.clone()
            } else {
                t.target.clone()
            };
            t.target = join(target.as_str(), p.name.as_str());
            put_transition(model, owner.as_str(), t);
            Ok(())
        },
        None => add_connection_point_vertex(model, stack, p.name.as_str(), kind::ENTRY_POINT, &p.elements),
    }
}

/// An exit point; inside a transition, the exit point of the transition's
/// source it leaves by (see `spec_exit_point_source`).
pub fn apply_exit_point(p: &PartialExitPoint, model: &mut Model, stack: &mut Vec<String>) -> (r: Result<(), HsmError>)
    requires
        old(stack)@.len() > 0,
    ensures
        final(stack)@ == old(stack)@,
        keeps_members(*old(model), *final(model)),
        old(model).transition_of(top(old(stack)@)) matches Some(t) ==> (r is Ok && same_except(*old(model), *final(model), set![top(old(stack)@)]) && final(model).member(top(old(stack)@)) == Some(ElementView::Transition(TransitionView {
            source: match spec_exit_point_source(*old(model), t.source, p.name@) {
                Some(x) => x,
                None => spec_join(t.source, p.name@),
            },
            ..t
        }))),
        old(model).transition_of(top(old(stack)@)) is None ==> point_applied(*old(model), *final(model), old(stack)@, p.name@, kind::EXIT_POINT, p.elements@, r is Ok),
        elements_defer_free(p.elements@) ==> r is Ok,
        r is Err ==> r matches Err(HsmError::StateMachine(_)),
    decreases p, 0nat,
{
    let owner = stack[stack.len() - 1].clone();
    match transition_copy(model, owner.as_str()) {
        Some(mut t) => {
            let source = match resolve_exit_point_source(model, t.source.as_str(), p.name.as_str()) {
                Some(x) => x,
                None => join(t.source.as_str(), p.name.as_str()),
            };
            t.source = source;
            put_transition(model, owner.as_str(), t);
            Ok(())
        },
        None => add_connection_point_vertex(model, stack, p.name.as_str(), kind::EXIT_POINT, &p.elements),
    }
}

/// A history pseudostate of the given kind under the element on top of the
/// stack (`/` when it is empty), with its default transition when elements
/// are given.
pub fn apply_history(p: &PartialHistory, model: &mut Model, stack: &mut Vec<String>) -> (r: Result<(), HsmError>)
    ensures
        final(stack)@ == old(stack)@,
        keeps_members(*old(model), *final(model)),
        has_key(final(model).members@, spec_join(top_or_slash(old(stack)@), p.name@)),
        elements_defer_free(p.elements@) ==> r is Ok,
        r is Err ==> r matches Err(HsmError::StateMachine(_)),
        point_applied(*old(model), *final(model), old(stack)@, p.name@, p.kind, p.elements@, r is Ok),
    decreases p, 0nat,
{
    add_connection_point_vertex(model, stack, p.name.as_str(), p.kind, &p.elements)
}

/// `qualified_name` relative to `root` when it lies below it, else unchanged.
pub open spec fn spec_member_name_under(root: Seq<char>, qualified_name: Seq<char>) -> Seq<char> {
    let prefix = text::trim_end(root, '/') + seq!['/'];
    if text::has_prefix(qualified_name, prefix) {
        qualified_name.subrange(prefix.len() as int, qualified_name.len() as int)
    } else {
        qualified_name
    }
}

fn member_name_under(root: &str, qualified_name: &str) -> (r: String)
    ensures
        r@ == spec_member_name_under(root@, qualified_name@),
{
    proof {
        reveal_strlit("/");
        assert("/"@ =~= seq!['/']);
    }
    let prefix = text::concat(text::trim_end_char(root, '/'), "/");
    match text::strip_prefix(qualified_name, prefix.as_str()) {
        Some(relative) => text::owned(relative),
        None => text::owned(qualified_name),
    }
}

/// The text of each pair of names.
pub open spec fn pairs_view(s: Seq<(String, String)>) -> Seq<(Seq<char>, Seq<char>)> {
    s.map_values(|p: (String, String)| (p.0@, p.1@))
}

/// What a name is rewritten to, if anything.
pub open spec fn rewrite_get(rewrites: Seq<(String, String)>, name: Seq<char>) -> Option<Seq<char>> {
    match table_get(rewrites, name) {
        Some(x) => Some(x@),
        None => None,
    }
}

/// For each operation of the child, its name moved under `parent_root`.
pub open spec fn operation_rewrites(child_root: Seq<char>, members: Seq<(String, ElementVariant)>, parent_root: Seq<char>) -> Seq<(Seq<char>, Seq<char>)>
    decreases members.len(),
{
    if members.len() == 0 {
        seq![]
    } else {
        operation_rewrites(child_root, members.drop_last(), parent_root) + (match members.last().1 {
            ElementVariant::Operation(_) => seq![(members.last().0@, spec_join(parent_root, spec_member_name_under(child_root, members.last().0@)))],
            _ => seq![],
        })
    }
}

/// For each attribute of the child, its name moved under `parent_root`.
pub open spec fn attribute_rewrites(child_root: Seq<char>, attributes: Seq<(String, Attribute)>, parent_root: Seq<char>) -> Seq<(Seq<char>, Seq<char>)>
    decreases attributes.len(),
{
    if attributes.len() == 0 {
        seq![]
    } else {
        attribute_rewrites(child_root, attributes.drop_last(), parent_root) + seq![(attributes.last().0@, spec_join(parent_root, spec_member_name_under(child_root, attributes.last().0@)))]
    }
}

fn submachine_operation_rewrites(child: &Model, parent_root: &str) -> (r: Vec<(String, String)>)
    ensures
        pairs_view(r@) == operation_rewrites(child.root(), child.members@, parent_root@),
{
    let mut out: Vec<(String, String)> = Vec::new();
    let child_root = child.state.vertex.element.qualified_name.as_str();
    let mut i: usize = 0;
    while i < child.members.len()
        invariant
            0 <= i <= child.members@.len(),
            child_root@ == child.root(),
            pairs_view(out@) == operation_rewrites(child.root(), child.members@.take(i as int), parent_root@),
        decreases child.members@.len() - i,
    {
        proof {
            assert(child.members@.take(i + 1).drop_last() =~= child.members@.take(i as int));
        }
        let ghost before = out@;
        match &child.members[i].1 {
            ElementVariant::Operation(_) => {
                let name = child.members[i].0.clone();
                let moved = join(parent_root, member_name_under(child_root, name.as_str()).as_str());
                out.push((name, moved));
            },
            _ => {},
        }
        proof {
            assert(pairs_view(out@) =~= operation_rewrites(child.root(), child.members@.take(i + 1), parent_root@));
        }
        i += 1;
    }
    proof {
        assert(child.members@.take(child.members@.len() as int) =~= child.members@);
    }
    out
}

fn submachine_attribute_rewrites(child: &Model, parent_root: &str) -> (r: Vec<(String, String)>)
    ensures
        pairs_view(r@) == attribute_rewrites(child.root(), child.attributes@, parent_root@),
{
    let mut out: Vec<(String, String)> = Vec::new();
    let child_root = child.state.vertex.element.qualified_name.as_str();
    let mut i: usize = 0;
    while i < child.attributes.len()
        invariant
            0 <= i <= child.attributes@.len(),
            child_root@ == child.root(),
            pairs_view(out@) == attribute_rewrites(child.root(), child.attributes@.take(i as int), parent_root@),
        decreases child.attributes@.len() - i,
    {
        proof {
            assert(child.attributes@.take(i + 1).drop_last() =~= child.attributes@.take(i as int));
        }
        let name = child.attributes[i].0.clone();
        let moved = join(parent_root, member_name_under(child_root, name.as_str()).as_str());
        out.push((name, moved));
        proof {
            assert(pairs_view(out@) =~= attribute_rewrites(child.root(), child.attributes@.take(i + 1), parent_root@));
        }
        i += 1;
    }
    proof {
        assert(child.attributes@.take(child.attributes@.len() as int) =~= child.attributes@);
    }
    out
}

/// The value of the first pair named `name`.
fn rewrite_lookup(rewrites: &Vec<(String, String)>, name: &str) -> (r: Option<String>)
    ensures
        match rewrite_get(rewrites@, name@) {
            Some(x) => r matches Some(y) && y@ == x,
            None => r is None,
        },
{
    match assoc::get(rewrites, name) {
        Some(x) => Some(x.clone()),
        None => None,
    }
}

/// An operation reference with the operation moved, inside any call prefix.
pub open spec fn rewrite_operation_reference(reference: Seq<char>, operation_rewrites: Seq<(String, String)>) -> Seq<char>
    decreases reference.len(),
{
    if text::has_prefix(reference, crate::rebase::call_prefix()) {
        crate::rebase::call_prefix() + rewrite_operation_reference(reference.subrange(9, reference.len() as int), operation_rewrites)
    } else {
        match rewrite_get(operation_rewrites, reference) {
            Some(x) => x,
            None => reference,
        }
    }
}

/// An event reference with a moved operation or attribute.
pub open spec fn rewrite_event_reference(reference: Seq<char>, operation_rewrites: Seq<(String, String)>, attribute_rewrites: Seq<(String, String)>) -> Seq<char> {
    if text::has_prefix(reference, crate::rebase::call_prefix()) {
        crate::rebase::call_prefix() + rewrite_operation_reference(reference.subrange(9, reference.len() as int), operation_rewrites)
    } else {
        match rewrite_get(operation_rewrites, reference) {
            Some(x) => x,
            None => match rewrite_get(attribute_rewrites, reference) {
                Some(x) => x,
                None => reference,
            },
        }
    }
}

fn rewrite_submachine_operation_reference(reference: &str, rewrites: &Vec<(String, String)>) -> (r: String)
    ensures
        r@ == rewrite_operation_reference(reference@, rewrites@),
    decreases reference@.len(),
{
    proof {
        reveal_strlit("hsm_call:");
        assert("hsm_call:"@ =~= crate::rebase::call_prefix());
    }
    match text::strip_prefix(reference, "hsm_call:") {
        Some(operation) => {
            let inner = rewrite_submachine_operation_reference(operation, rewrites);
            text::concat("hsm_call:", inner.as_str())
        },
        None => match rewrite_lookup(rewrites, reference) {
            Some(x) => x,
            None => text::owned(reference),
        },
    }
}

fn rewrite_submachine_event_reference(reference: &str, operation_rewrites: &Vec<(String, String)>, attribute_rewrites: &Vec<(String, String)>) -> (r: String)
    ensures
        r@ == rewrite_event_reference(reference@, operation_rewrites@, attribute_rewrites@),
{
    proof {
        reveal_strlit("hsm_call:");
        assert("hsm_call:"@ =~= crate::rebase::call_prefix());
    }
    match text::strip_prefix(reference, "hsm_call:") {
        Some(operation) => {
            let inner = rewrite_submachine_operation_reference(operation, operation_rewrites);
            text::concat("hsm_call:", inner.as_str())
        },
        None => match rewrite_lookup(operation_rewrites, reference) {
            Some(x) => x,
            None => match rewrite_lookup(attribute_rewrites, reference) {
                Some(x) => x,
                None => text::owned(reference),
            },
        },
    }
}

fn rewrite_event_references(references: &Vec<String>, operation_rewrites: &Vec<(String, String)>, attribute_rewrites: &Vec<(String, String)>) -> (r: Vec<String>)
    ensures
        names_view(r@) == names_view(references@).map_values(|x: Seq<char>| rewrite_event_reference(x, operation_rewrites@, attribute_rewrites@)),
{
    let mut out: Vec<String> = Vec::new();
    let mut i: usize = 0;
    while i < references.len()
        invariant
            0 <= i <= references@.len(),
            names_view(out@) == names_view(references@).map_values(|x: Seq<char>| rewrite_event_reference(x, operation_rewrites@, attribute_rewrites@)).take(i as int),
        decreases references@.len() - i,
    {
        let x = rewrite_submachine_event_reference(references[i].as_str(), operation_rewrites, attribute_rewrites);
        let ghost before = out@;
        out.push(x);
        proof {
            assert(names_view(references@)[i as int] == references@[i as int]@);
            assert(names_view(out@) =~= names_view(before).push(x@));
            assert(names_view(out@) =~= names_view(references@).map_values(|x: Seq<char>| rewrite_event_reference(x, operation_rewrites@, attribute_rewrites@)).take(i + 1));
        }
        i += 1;
    }
    proof {
        assert(names_view(references@).map_values(|x: Seq<char>| rewrite_event_reference(x, operation_rewrites@, attribute_rewrites@)).take(references@.len() as int) =~= names_view(references@).map_values(|x: Seq<char>| rewrite_event_reference(x, operation_rewrites@, attribute_rewrites@)));
    }
    out
}

/// A member of the child with its references to moved operations and
/// attributes rewritten.
pub open spec fn rewritten_member(e: ElementView, operation_rewrites: Seq<(String, String)>, attribute_rewrites: Seq<(String, String)>) -> ElementView {
    if operation_rewrites.len() == 0 && attribute_rewrites.len() == 0 {
        e
    } else {
        match e {
            ElementView::Transition(t) => ElementView::Transition(TransitionView {
                events: t.events.map_values(|x: Seq<char>| rewrite_event_reference(x, operation_rewrites, attribute_rewrites)),
                ..t
            }),
            ElementView::Behavior(b) => ElementView::Behavior(BehaviorView {
                operation: match b.operation {
                    Some(BehaviorOperationView::Operation(n)) => Some(BehaviorOperationView::Operation(rewrite_operation_reference(n, operation_rewrites))),
                    other => other,
                },
                ..b
            }),
            ElementView::Observation(o) => ElementView::Observation(ObservationView {
                targets: o.targets.map_values(|x: Seq<char>| rewrite_event_reference(x, operation_rewrites, attribute_rewrites)),
                ..o
            }),
            ElementView::Constraint(c) => ElementView::Constraint(ConstraintView {
                operation: match c.operation {
                    Some(n) => Some(rewrite_operation_reference(n, operation_rewrites)),
                    None => None,
                },
                ..c
            }),
            ElementView::Operation(o) => ElementView::Operation(OperationView {
                element: NamedElementView {
                    qualified_name: match rewrite_get(operation_rewrites, o.element.qualified_name) {
                        Some(x) => x,
                        None => o.element.qualified_name,
                    },
                    ..o.element
                },
                ..o
            }),
            ElementView::Attribute(a) => ElementView::Attribute(AttributeView {
                element: NamedElementView {
                    qualified_name: match rewrite_get(attribute_rewrites, a.element.qualified_name) {
                        Some(x) => x,
                        None => a.element.qualified_name,
                    },
                    ..a.element
                },
                ..a
            }),
            _ => e,
        }
    }
}

fn rewrite_submachine_references(element: &ElementVariant, operation_rewrites: &Vec<(String, String)>, attribute_rewrites: &Vec<(String, String)>) -> (r: ElementVariant)
    ensures
        r@ == rewritten_member(element@, operation_rewrites@, attribute_rewrites@),
{
    if operation_rewrites.len() == 0 && attribute_rewrites.len() == 0 {
        return element.clone();
    }
    match element {
        ElementVariant::Transition(t) => {
            let mut t = t.clone();
            t.events = rewrite_event_references(&t.events, operation_rewrites, attribute_rewrites);
            let r = ElementVariant::Transition(t);
            assert(r@ =~~= rewritten_member(element@, operation_rewrites@, attribute_rewrites@));
            r
        },
        ElementVariant::Behavior(b) => {
            let mut b = b.clone();
            b.operation = match &b.operation {
                Some(BehaviorOperation::Operation(name)) => Some(BehaviorOperation::Operation(rewrite_submachine_operation_reference(name.as_str(), operation_rewrites))),
                Some(other) => Some(other.clone()),
                None => None,
            };
            let r = ElementVariant::Behavior(b);
            assert(r@ =~~= rewritten_member(element@, operation_rewrites@, attribute_rewrites@));
            r
        },
        ElementVariant::Observation(o) => {
            let mut o = o.clone();
            o.targets = rewrite_event_references(&o.targets, operation_rewrites, attribute_rewrites);
            let r = ElementVariant::Observation(o);
            assert(r@ =~~= rewritten_member(element@, operation_rewrites@, attribute_rewrites@));
            r
        },
        ElementVariant::Constraint(c) => {
            let mut c = c.clone();
            c.operation = match &c.operation {
                Some(name) => Some(rewrite_submachine_operation_reference(name.as_str(), operation_rewrites)),
                None => None,
            };
            let r = ElementVariant::Constraint(c);
            assert(r@ =~~= rewritten_member(element@, operation_rewrites@, attribute_rewrites@));
            r
        },
        ElementVariant::Operation(o) => {
            let mut o = o.clone();
            match rewrite_lookup(operation_rewrites, o.element.qualified_name.as_str()) {
                Some(x) => {
                    o.element.qualified_name = x;
                },
                None => {},
            }
            let r = ElementVariant::Operation(o);
            assert(r@ =~~= rewritten_member(element@, operation_rewrites@, attribute_rewrites@));
            r
        },
        ElementVariant::Attribute(a) => {
            let mut a = a.clone();
            match rewrite_lookup(attribute_rewrites, a.element.qualified_name.as_str()) {
                Some(x) => {
                    a.element.qualified_name = x;
                },
                None => {},
            }
            let r = ElementVariant::Attribute(a);
            assert(r@ =~~= rewritten_member(element@, operation_rewrites@, attribute_rewrites@));
            r
        },
        _ => element.clone(),
    }
}

/// A submachine state under the element on top of the stack (`/` when it
/// is empty): the machine is moved under the state's name (its root becomes
/// the state, with the submachine kind), its members and attributes are
/// added with its operations and attributes moved to the parent machine's
/// root, then the elements are applied inside the state.
pub fn apply_submachine_state(p: &PartialSubmachineState, model: &mut Model, stack: &mut Vec<String>) -> (r: Result<(), HsmError>)
    ensures
        final(stack)@ == old(stack)@,
        keeps_members(*old(model), *final(model)),
        has_key(final(model).members@, spec_join(top_or_slash(old(stack)@), p.name@)),
        elements_defer_free(p.elements@) ==> r is Ok,
        r is Err ==> r matches Err(HsmError::StateMachine(_)),
        submachine_applied(*old(model), *final(model), old(stack)@, *p, r is Ok),
    decreases p, 0nat,
{
    let owner = owner_or_slash(stack);
    let qualified_name = join(owner.as_str(), p.name.as_str());
    let child = p.machine.rebase(qualified_name.clone());
    assert(rebased_model(p.machine, child, qualified_name@));
    let mut boundary = child.state.clone();
    boundary.vertex.element.kind = kind::SUBMACHINE_STATE;
    boundary.vertex.element.qualified_name = qualified_name.clone();
    assert(boundary@ == boundary_view(child.state@, qualified_name@));
    model.set_member(qualified_name.clone(), ElementVariant::State(boundary));
    let ghost after_boundary = *model;
    assert(set_as(*old(model), after_boundary, qualified_name@, ElementView::State(boundary_view(child.state@, qualified_name@))));
    let root = model.state.vertex.element.qualified_name.clone();
    let operation_rewrites = submachine_operation_rewrites(&child, root.as_str());
    let attribute_rewrites = submachine_attribute_rewrites(&child, root.as_str());
    let ghost ops = operation_rewrites@;
    let ghost attrs = attribute_rewrites@;
    let mut i: usize = 0;
    proof {
        assert(child.members@.take(0) =~= Seq::<(String, ElementVariant)>::empty());
    }
    while i < child.members.len()
        invariant
            0 <= i <= child.members@.len(),
            keeps_members(after_boundary, *model),
            ops == operation_rewrites@,
            attrs == attribute_rewrites@,
            model.state == after_boundary.state,
            model.transition_map == after_boundary.transition_map,
            model.deferred_map == after_boundary.deferred_map,
            model.history_updates == after_boundary.history_updates,
            model.attributes == after_boundary.attributes,
            forall|n: Seq<char>| #[trigger] model.member(n) == copied_member(after_boundary.member(n), child.members@.take(i as int), ops, attrs, n),
        decreases child.members@.len() - i,
    {
        let member_name = child.members[i].0.as_str();
        let rewritten_name = match rewrite_lookup(&operation_rewrites, member_name) {
            Some(x) => x,
            None => match rewrite_lookup(&attribute_rewrites, member_name) {
                Some(x) => x,
                None => text::owned(member_name),
            },
        };
        let rewritten = rewrite_submachine_references(&child.members[i].1, &operation_rewrites, &attribute_rewrites);
        let ghost prev = *model;
        model.set_member(rewritten_name, rewritten);
        proof {
            let t = child.members@.take(i + 1);
            assert(t.drop_last() =~= child.members@.take(i as int));
            assert(t.last() == child.members@[i as int]);
            assert forall|n: Seq<char>| #[trigger] model.member(n) == copied_member(after_boundary.member(n), t, ops, attrs, n) by {
                assert(prev.member(n) == copied_member(after_boundary.member(n), child.members@.take(i as int), ops, attrs, n));
            }
        }
        i += 1;
    }
    let ghost after_members = *model;
    proof {
        assert(child.members@.take(child.members@.len() as int) =~= child.members@);
        assert(child.attributes@.take(0) =~= Seq::<(String, Attribute)>::empty());
    }
    let mut j: usize = 0;
    while j < child.attributes.len()
        invariant
            0 <= j <= child.attributes@.len(),
            keeps_members(after_boundary, *model),
            attrs == attribute_rewrites@,
            model.state == after_boundary.state,
            model.transition_map == after_boundary.transition_map,
            model.deferred_map == after_boundary.deferred_map,
            model.history_updates == after_boundary.history_updates,
            model.members == after_members.members,
            forall|n: Seq<char>|
                #[trigger] attribute_entry(table_get(model.attributes@, n)) == copied_attribute(attribute_entry(table_get(after_boundary.attributes@, n)), child.attributes@.take(j as int), attrs, n),
        decreases child.attributes@.len() - j,
    {
        let attribute_name = child.attributes[j].0.as_str();
        let rewritten_name = match rewrite_lookup(&attribute_rewrites, attribute_name) {
            Some(x) => x,
            None => text::owned(attribute_name),
        };
        let mut attribute = child.attributes[j].1.clone();
        match rewrite_lookup(&attribute_rewrites, attribute.element.qualified_name.as_str()) {
            Some(x) => {
                attribute.element.qualified_name = x;
            },
            None => {},
        }
        let ghost prev = model.attributes@;
        assoc::insert(&mut model.attributes, rewritten_name, attribute);
        proof {
            let t = child.attributes@.take(j + 1);
            assert(t.drop_last() =~= child.attributes@.take(j as int));
            assert(t.last() == child.attributes@[j as int]);
            assert forall|n: Seq<char>|
                #[trigger] attribute_entry(table_get(model.attributes@, n)) == copied_attribute(attribute_entry(table_get(after_boundary.attributes@, n)), t, attrs, n) by {
                assert(attribute_entry(table_get(prev, n)) == copied_attribute(attribute_entry(table_get(after_boundary.attributes@, n)), child.attributes@.take(j as int), attrs, n));
            }
        }
        j += 1;
    }
    proof {
        assert(child.attributes@.take(child.attributes@.len() as int) =~= child.attributes@);
        assoc::lemma_find_index(after_boundary.members@, qualified_name@);
    }
    let ghost mid = *model;
    assert forall|n: Seq<char>| #[trigger] mid.member(n) == copied_member(after_boundary.member(n), child.members@, ops, attrs, n) by {
        assert(after_members.member(n) == copied_member(after_boundary.member(n), child.members@.take(child.members@.len() as int), ops, attrs, n));
        assert(mid.member(n) == after_members.member(n));
    }
    assert(submachine_copied(after_boundary, mid, child, ops, attrs));
    assert(submachine_started(*old(model), p.machine, child, after_boundary, mid, ops, attrs, qualified_name@));
    let r = apply_inside(&qualified_name, &p.elements, model, stack);
    assert(named(qualified_name, qualified_name@));
    r
}

/// An element that adds itself to a model under construction; `stack`
/// holds the qualified names of the elements it is declared inside.
pub trait PartialElement {
    /// The element must be declared inside another one (it takes the name
    /// on top of the stack as its owner).
    spec fn needs_owner_spec(&self) -> bool;

    fn apply(&self, model: &mut Model, stack: &mut Vec<String>) -> (r: Result<(), HsmError>)
        requires
            old(stack)@.len() > 0 || !self.needs_owner_spec(),
        ensures
            final(stack)@ == old(stack)@,
            keeps_members(*old(model), *final(model)),
    ;
}

impl PartialElement for Partial {
    open spec fn needs_owner_spec(&self) -> bool {
        needs_owner(*self)
    }

    fn apply(&self, model: &mut Model, stack: &mut Vec<String>) -> (r: Result<(), HsmError>)
        ensures
            partial_applied(*old(model), *final(model), old(stack)@, *self, r is Ok),
            defer_free(*self) ==> r is Ok,
            r is Err ==> r matches Err(HsmError::StateMachine(_)),
    {
        apply_partial(self, model, stack)
    }
}

impl PartialElement for PartialState {
    open spec fn needs_owner_spec(&self) -> bool {
        needs_owner(Partial::State(*self))
    }

    fn apply(&self, model: &mut Model, stack: &mut Vec<String>) -> (r: Result<(), HsmError>)
        ensures
            partial_applied(*old(model), *final(model), old(stack)@, Partial::State(*self), r is Ok),
            r is Err ==> r matches Err(HsmError::StateMachine(_)),
    {
        apply_state(self, model, stack)
    }
}

impl PartialElement for PartialSubmachineState {
    open spec fn needs_owner_spec(&self) -> bool {
        needs_owner(Partial::SubmachineState(*self))
    }

    fn apply(&self, model: &mut Model, stack: &mut Vec<String>) -> (r: Result<(), HsmError>)
        ensures
            partial_applied(*old(model), *final(model), old(stack)@, Partial::SubmachineState(*self), r is Ok),
            r is Err ==> r matches Err(HsmError::StateMachine(_)),
    {
        apply_submachine_state(self, model, stack)
    }
}

impl PartialElement for PartialTransition {
    open spec fn needs_owner_spec(&self) -> bool {
        needs_owner(Partial::Transition(*self))
    }

    fn apply(&self, model: &mut Model, stack: &mut Vec<String>) -> (r: Result<(), HsmError>)
        ensures
            partial_applied(*old(model), *final(model), old(stack)@, Partial::Transition(*self), r is Ok),
            r is Err ==> r matches Err(HsmError::StateMachine(_)),
    {
        apply_transition(self, model, stack)
    }
}

impl PartialElement for PartialInitial {
    open spec fn needs_owner_spec(&self) -> bool {
        needs_owner(Partial::Initial(*self))
    }

    fn apply(&self, model: &mut Model, stack: &mut Vec<String>) -> (r: Result<(), HsmError>)
        ensures
            partial_applied(*old(model), *final(model), old(stack)@, Partial::Initial(*self), r is Ok),
            r is Err ==> r matches Err(HsmError::StateMachine(_)),
    {
        apply_initial(self, model, stack)
    }
}

impl PartialElement for PartialChoice {
    open spec fn needs_owner_spec(&self) -> bool {
        needs_owner(Partial::Choice(*self))
    }

    fn apply(&self, model: &mut Model, stack: &mut Vec<String>) -> (r: Result<(), HsmError>)
        ensures
            partial_applied(*old(model), *final(model), old(stack)@, Partial::Choice(*self), r is Ok),
            r is Err ==> r matches Err(HsmError::StateMachine(_)),
    {
        apply_choice(self, model, stack)
    }
}

impl PartialElement for PartialEntryPoint {
    open spec fn needs_owner_spec(&self) -> bool {
        needs_owner(Partial::EntryPoint(*self))
    }

    fn apply(&self, model: &mut Model, stack: &mut Vec<String>) -> (r: Result<(), HsmError>)
        ensures
            partial_applied(*old(model), *final(model), old(stack)@, Partial::EntryPoint(*self), r is Ok),
            r is Err ==> r matches Err(HsmError::StateMachine(_)),
    {
        apply_entry_point(self, model, stack)
    }
}

impl PartialElement for PartialExitPoint {
    open spec fn needs_owner_spec(&self) -> bool {
        needs_owner(Partial::ExitPoint(*self))
    }

    fn apply(&self, model: &mut Model, stack: &mut Vec<String>) -> (r: Result<(), HsmError>)
        ensures
            partial_applied(*old(model), *final(model), old(stack)@, Partial::ExitPoint(*self), r is Ok),
            r is Err ==> r matches Err(HsmError::StateMachine(_)),
    {
        apply_exit_point(self, model, stack)
    }
}

impl PartialElement for PartialHistory {
    open spec fn needs_owner_spec(&self) -> bool {
        needs_owner(Partial::History(*self))
    }

    fn apply(&self, model: &mut Model, stack: &mut Vec<String>) -> (r: Result<(), HsmError>)
        ensures
            partial_applied(*old(model), *final(model), old(stack)@, Partial::History(*self), r is Ok),
            r is Err ==> r matches Err(HsmError::StateMachine(_)),
    {
        apply_history(self, model, stack)
    }
}

impl PartialElement for PartialDefer {
    open spec fn needs_owner_spec(&self) -> bool {
        needs_owner(Partial::Defer(*self))
    }

    fn apply(&self, model: &mut Model, stack: &mut Vec<String>) -> (r: Result<(), HsmError>)
        ensures
            partial_applied(*old(model), *final(model), old(stack)@, Partial::Defer(*self), r is Ok),
            r is Err ==> r matches Err(HsmError::StateMachine(_)),
    {
        apply_defer(self, model, stack)
    }
}

impl PartialElement for PartialSource {
    open spec fn needs_owner_spec(&self) -> bool {
        needs_owner(Partial::Source(*self))
    }

    fn apply(&self, model: &mut Model, stack: &mut Vec<String>) -> (r: Result<(), HsmError>)
        ensures
            partial_applied(*old(model), *final(model), old(stack)@, Partial::Source(*self), r is Ok),
    {
        apply_source(self, model, stack);
        Ok(())
    }
}

impl PartialElement for PartialTarget {
    open spec fn needs_owner_spec(&self) -> bool {
        needs_owner(Partial::Target(*self))
    }

    fn apply(&self, model: &mut Model, stack: &mut Vec<String>) -> (r: Result<(), HsmError>)
        ensures
            partial_applied(*old(model), *final(model), old(stack)@, Partial::Target(*self), r is Ok),
    {
        apply_target(self, model, stack);
        Ok(())
    }
}

impl PartialElement for PartialTrigger {
    open spec fn needs_owner_spec(&self) -> bool {
        needs_owner(Partial::Trigger(*self))
    }

    fn apply(&self, model: &mut Model, stack: &mut Vec<String>) -> (r: Result<(), HsmError>)
        ensures
            partial_applied(*old(model), *final(model), old(stack)@, Partial::Trigger(*self), r is Ok),
    {
        apply_trigger(self, model, stack);
        Ok(())
    }
}

impl PartialElement for PartialOnSet {
    open spec fn needs_owner_spec(&self) -> bool {
        needs_owner(Partial::OnSet(*self))
    }

    fn apply(&self, model: &mut Model, stack: &mut Vec<String>) -> (r: Result<(), HsmError>)
        ensures
            partial_applied(*old(model), *final(model), old(stack)@, Partial::OnSet(*self), r is Ok),
    {
        apply_on_set(self, model, stack);
        Ok(())
    }
}

impl PartialElement for PartialOnCall {
    open spec fn needs_owner_spec(&self) -> bool {
        needs_owner(Partial::OnCall(*self))
    }

    fn apply(&self, model: &mut Model, stack: &mut Vec<String>) -> (r: Result<(), HsmError>)
        ensures
            partial_applied(*old(model), *final(model), old(stack)@, Partial::OnCall(*self), r is Ok),
    {
        apply_on_call(self, model, stack);
        Ok(())
    }
}

impl PartialElement for PartialAttribute {
    open spec fn needs_owner_spec(&self) -> bool {
        needs_owner(Partial::Attribute(*self))
    }

    fn apply(&self, model: &mut Model, stack: &mut Vec<String>) -> (r: Result<(), HsmError>)
        ensures
            partial_applied(*old(model), *final(model), old(stack)@, Partial::Attribute(*self), r is Ok),
    {
        apply_attribute(self, model, stack);
        Ok(())
    }
}

impl PartialElement for PartialOperation {
    open spec fn needs_owner_spec(&self) -> bool {
        needs_owner(Partial::Operation(*self))
    }

    fn apply(&self, model: &mut Model, stack: &mut Vec<String>) -> (r: Result<(), HsmError>)
        ensures
            partial_applied(*old(model), *final(model), old(stack)@, Partial::Operation(*self), r is Ok),
    {
        apply_operation(self, model, stack);
        Ok(())
    }
}

impl PartialElement for PartialGuardOperation {
    open spec fn needs_owner_spec(&self) -> bool {
        needs_owner(Partial::GuardOperation(*self))
    }

    fn apply(&self, model: &mut Model, stack: &mut Vec<String>) -> (r: Result<(), HsmError>)
        ensures
            partial_applied(*old(model), *final(model), old(stack)@, Partial::GuardOperation(*self), r is Ok),
    {
        apply_guard_operation(self, model, stack);
        Ok(())
    }
}

impl PartialElement for PartialEffect {
    open spec fn needs_owner_spec(&self) -> bool {
        needs_owner(Partial::Effect(*self))
    }

    fn apply(&self, model: &mut Model, stack: &mut Vec<String>) -> (r: Result<(), HsmError>)
        ensures
            partial_applied(*old(model), *final(model), old(stack)@, Partial::Effect(*self), r is Ok),
    {
        apply_effect(self, model, stack);
        Ok(())
    }
}

impl PartialElement for PartialEntry {
    open spec fn needs_owner_spec(&self) -> bool {
        needs_owner(Partial::Entry(*self))
    }

    fn apply(&self, model: &mut Model, stack: &mut Vec<String>) -> (r: Result<(), HsmError>)
        ensures
            partial_applied(*old(model), *final(model), old(stack)@, Partial::Entry(*self), r is Ok),
    {
        apply_entry(self, model, stack);
        Ok(())
    }
}

impl PartialElement for PartialExit {
    open spec fn needs_owner_spec(&self) -> bool {
        needs_owner(Partial::Exit(*self))
    }

    fn apply(&self, model: &mut Model, stack: &mut Vec<String>) -> (r: Result<(), HsmError>)
        ensures
            partial_applied(*old(model), *final(model), old(stack)@, Partial::Exit(*self), r is Ok),
    {
        apply_exit(self, model, stack);
        Ok(())
    }
}

impl PartialElement for PartialActivity {
    open spec fn needs_owner_spec(&self) -> bool {
        needs_owner(Partial::Activity(*self))
    }

    fn apply(&self, model: &mut Model, stack: &mut Vec<String>) -> (r: Result<(), HsmError>)
        ensures
            partial_applied(*old(model), *final(model), old(stack)@, Partial::Activity(*self), r is Ok),
    {
        apply_activity(self, model, stack);
        Ok(())
    }
}

impl PartialElement for PartialGuard {
    open spec fn needs_owner_spec(&self) -> bool {
        needs_owner(Partial::Guard(*self))
    }

    fn apply(&self, model: &mut Model, stack: &mut Vec<String>) -> (r: Result<(), HsmError>)
        ensures
            partial_applied(*old(model), *final(model), old(stack)@, Partial::Guard(*self), r is Ok),
    {
        apply_guard(self, model, stack);
        Ok(())
    }
}

impl PartialElement for PartialBehaviorOperation {
    open spec fn needs_owner_spec(&self) -> bool {
        needs_owner(Partial::BehaviorOperation(*self))
    }

    fn apply(&self, model: &mut Model, stack: &mut Vec<String>) -> (r: Result<(), HsmError>)
        ensures
            partial_applied(*old(model), *final(model), old(stack)@, Partial::BehaviorOperation(*self), r is Ok),
    {
        apply_behavior_operation(self, model, stack);
        Ok(())
    }
}

impl PartialElement for PartialObserve {
    open spec fn needs_owner_spec(&self) -> bool {
        needs_owner(Partial::Observe(*self))
    }

    fn apply(&self, model: &mut Model, stack: &mut Vec<String>) -> (r: Result<(), HsmError>)
        ensures
            partial_applied(*old(model), *final(model), old(stack)@, Partial::Observe(*self), r is Ok),
    {
        apply_observe(self, model, stack);
        Ok(())
    }
}

impl PartialElement for PartialValidator {
    open spec fn needs_owner_spec(&self) -> bool {
        needs_owner(Partial::Validator(*self))
    }

    fn apply(&self, model: &mut Model, stack: &mut Vec<String>) -> (r: Result<(), HsmError>)
        ensures
            partial_applied(*old(model), *final(model), old(stack)@, Partial::Validator(*self), r is Ok),
    {
        apply_validator(self, model, stack);
        Ok(())
    }
}

impl PartialElement for PartialFinalizer {
    open spec fn needs_owner_spec(&self) -> bool {
        needs_owner(Partial::Finalizer(*self))
    }

    fn apply(&self, model: &mut Model, stack: &mut Vec<String>) -> (r: Result<(), HsmError>)
        ensures
            partial_applied(*old(model), *final(model), old(stack)@, Partial::Finalizer(*self), r is Ok),
    {
        apply_finalizer(self, model, stack);
        Ok(())
    }
}

impl PartialElement for PartialGuardOperationRef {
    open spec fn needs_owner_spec(&self) -> bool {
        needs_owner(Partial::GuardOperationRef(*self))
    }

    fn apply(&self, model: &mut Model, stack: &mut Vec<String>) -> (r: Result<(), HsmError>)
        ensures
            partial_applied(*old(model), *final(model), old(stack)@, Partial::GuardOperationRef(*self), r is Ok),
    {
        apply_guard_operation_ref(self, model, stack);
        Ok(())
    }
}

impl PartialElement for PartialFinalState {
    open spec fn needs_owner_spec(&self) -> bool {
        needs_owner(Partial::FinalState(*self))
    }

    fn apply(&self, model: &mut Model, stack: &mut Vec<String>) -> (r: Result<(), HsmError>)
        ensures
            partial_applied(*old(model), *final(model), old(stack)@, Partial::FinalState(*self), r is Ok),
    {
        apply_final_state(self, model, stack);
        Ok(())
    }
}

impl PartialElement for PartialAfter {
    open spec fn needs_owner_spec(&self) -> bool {
        needs_owner(Partial::After(*self))
    }

    fn apply(&self, model: &mut Model, stack: &mut Vec<String>) -> (r: Result<(), HsmError>)
        ensures
            partial_applied(*old(model), *final(model), old(stack)@, Partial::After(*self), r is Ok),
    {
        apply_after(self, model, stack);
        Ok(())
    }
}

impl PartialElement for PartialAt {
    open spec fn needs_owner_spec(&self) -> bool {
        needs_owner(Partial::At(*self))
    }

    fn apply(&self, model: &mut Model, stack: &mut Vec<String>) -> (r: Result<(), HsmError>)
        ensures
            partial_applied(*old(model), *final(model), old(stack)@, Partial::At(*self), r is Ok),
    {
        apply_at(self, model, stack);
        Ok(())
    }
}

impl PartialElement for PartialEvery {
    open spec fn needs_owner_spec(&self) -> bool {
        needs_owner(Partial::Every(*self))
    }

    fn apply(&self, model: &mut Model, stack: &mut Vec<String>) -> (r: Result<(), HsmError>)
        ensures
            partial_applied(*old(model), *final(model), old(stack)@, Partial::Every(*self), r is Ok),
    {
        apply_every(self, model, stack);
        Ok(())
    }
}

/// The event names of a list of event-naming values.
pub open spec fn event_names<E: IntoEventName>(events: Seq<E>) -> Seq<Seq<char>> {
    events.map_values(|e: E| e.spec_event_name())
}

/// The names of a list of observation targets.
pub open spec fn target_names<E: IntoObservationTarget>(targets: Seq<E>) -> Seq<Seq<char>> {
    targets.map_values(|e: E| e.spec_target())
}

/// The name of each event-naming value.
pub fn into_event_names<E: IntoEventName>(events: Vec<E>) -> (r: Vec<String>)
    ensures
        names_view(r@) == event_names(events@),
{
    let ghost all = events@;
    let mut rest = events;
    let mut out: Vec<String> = Vec::new();
    while rest.len() > 0
        invariant
            all.len() == out@.len() + rest@.len(),
            rest@ == all.subrange(out@.len() as int, all.len() as int),
            names_view(out@) == event_names(all).take(out@.len() as int),
        decreases rest@.len(),
    {
        let ghost k = out@.len();
        let e = rest.remove(0);
        let ghost ev = e.spec_event_name();
        out.push(e.into_event_name());
        proof {
            assert(rest@ =~= all.subrange(k as int + 1, all.len() as int));
            assert(names_view(out@) =~= event_names(all).take(k as int + 1));
        }
    }
    proof {
        assert(event_names(all).take(all.len() as int) =~= event_names(all));
    }
    out
}

/// The name of each observation target.
fn into_target_names<E: IntoObservationTarget>(targets: Vec<E>) -> (r: Vec<String>)
    ensures
        names_view(r@) == target_names(targets@),
{
    let ghost all = targets@;
    let mut rest = targets;
    let mut out: Vec<String> = Vec::new();
    while rest.len() > 0
        invariant
            all.len() == out@.len() + rest@.len(),
            rest@ == all.subrange(out@.len() as int, all.len() as int),
            names_view(out@) == target_names(all).take(out@.len() as int),
        decreases rest@.len(),
    {
        let ghost k = out@.len();
        let e = rest.remove(0);
        out.push(e.into_observation_target());
        proof {
            assert(rest@ =~= all.subrange(k as int + 1, all.len() as int));
            assert(names_view(out@) =~= target_names(all).take(k as int + 1));
        }
    }
    proof {
        assert(target_names(all).take(all.len() as int) =~= target_names(all));
    }
    out
}

/// The local name of an initial pseudostate.
pub open spec fn initial_local_name() -> Seq<char> {
    seq!['.', 'i', 'n', 'i', 't', 'i', 'a', 'l']
}

fn initial_name() -> (r: String)
    ensures
        r@ == initial_local_name(),
{
    proof {
        reveal_strlit(".initial");
        assert(".initial"@ =~= initial_local_name());
    }
    text::owned(".initial")
}

/// A state named `name` holding `elements`.
pub open spec fn is_state(r: Partial, name: Seq<char>, elements: Seq<Partial>) -> bool {
    r matches Partial::State(x) && x.name@ == name && x.elements@ == elements
}

/// A transition without a name holding `elements`.
pub open spec fn is_transition(r: Partial, elements: Seq<Partial>) -> bool {
    r matches Partial::Transition(x) && x.name@.len() == 0 && x.elements@ == elements
}

/// An initial pseudostate holding `elements`.
pub open spec fn is_initial(r: Partial, elements: Seq<Partial>) -> bool {
    r matches Partial::Initial(x) && x.name@ == initial_local_name() && x.elements@ == elements
}

/// A choice named `name` holding `elements`.
pub open spec fn is_choice(r: Partial, name: Seq<char>, elements: Seq<Partial>) -> bool {
    r matches Partial::Choice(x) && x.name@ == name && x.elements@ == elements
}

/// A history pseudostate of kind `k`.
pub open spec fn is_history(r: Partial, name: Seq<char>, k: KindValue, elements: Seq<Partial>) -> bool {
    r matches Partial::History(x) && x.name@ == name && x.kind == k && x.elements@ == elements
}

/// A behavior that runs the named operation in `role`.
pub open spec fn is_behavior_operation(r: Partial, name: Seq<char>, role: BehaviorRole) -> bool {
    r matches Partial::BehaviorOperation(x) && x.name@ == name && x.role == role
}

/// Creates a state.
pub fn state(name: &str) -> (r: Partial)
    ensures
        is_state(r, name@, seq![]),
{
    let r = Partial::State(PartialState { name: text::owned(name), elements: Vec::new() });
    assert(is_state(r, name@, seq![])) by {
        assert(r->State_0.elements@ =~= seq![]);
    }
    r
}

/// Creates a transition.
pub fn transition() -> (r: Partial)
    ensures
        is_transition(r, seq![]),
        r matches Partial::Transition(x) && x.name@.len() == 0,
{
    let r = Partial::Transition(PartialTransition { name: String::new(), elements: Vec::new() });
    assert(r->Transition_0.elements@ =~= seq![]);
    r
}

/// Sets the source of the enclosing transition.
pub fn source(name: &str) -> (r: Partial)
    ensures
        r matches Partial::Source(x) && x.source@ == name@,
{
    Partial::Source(PartialSource { source: text::owned(name) })
}

/// Sets the target of the enclosing transition.
pub fn target(name: &str) -> (r: Partial)
    ensures
        r matches Partial::Target(x) && x.target@ == name@,
{
    Partial::Target(PartialTarget { target: text::owned(name) })
}

/// Triggers the enclosing transition on an event.
pub fn on<E: IntoEventName>(event: E) -> (r: Partial)
    ensures
        r matches Partial::Trigger(x) && names_view(x.events@) == seq![event.spec_event_name()],
{
    let mut events: Vec<String> = Vec::new();
    let ghost name = event.spec_event_name();
    events.push(event.into_event_name());
    assert(names_view(events@) =~= seq![name]);
    Partial::Trigger(PartialTrigger { events })
}

/// Triggers the enclosing transition on a call of the named operation.
pub fn on_call(name: &str) -> (r: Partial)
    ensures
        r matches Partial::OnCall(x) && x.name@ == name@,
{
    Partial::OnCall(PartialOnCall { name: text::owned(name) })
}

/// Adds an effect to the enclosing transition.
pub fn effect(operation: EffectFn) -> (r: Partial)
    ensures
        r matches Partial::Effect(x) && x.operations@ == seq![operation],
{
    let mut operations: Vec<EffectFn> = Vec::new();
    operations.push(operation);
    assert(operations@ =~= seq![operation]);
    Partial::Effect(PartialEffect { operations })
}

/// Declares an operation with an action.
pub fn operation(name: &str, action: OperationFn) -> (r: Partial)
    ensures
        r matches Partial::Operation(x) && x.name@ == name@ && x.action == action,
{
    Partial::Operation(PartialOperation { name: text::owned(name), action })
}

/// Declares an operation with a guard.
pub fn guard_operation(name: &str, guard: GuardFn) -> (r: Partial)
    ensures
        r matches Partial::GuardOperation(x) && x.name@ == name@ && x.guard == guard,
{
    Partial::GuardOperation(PartialGuardOperation { name: text::owned(name), guard })
}

/// Runs the named operation on entry to the enclosing state.
pub fn entry_operation(name: &str) -> (r: Partial)
    ensures
        is_behavior_operation(r, name@, BehaviorRole::Entry),
{
    Partial::BehaviorOperation(PartialBehaviorOperation { name: text::owned(name), role: BehaviorRole::Entry })
}

/// Runs the named operation on exit from the enclosing state.
pub fn exit_operation(name: &str) -> (r: Partial)
    ensures
        is_behavior_operation(r, name@, BehaviorRole::Exit),
{
    Partial::BehaviorOperation(PartialBehaviorOperation { name: text::owned(name), role: BehaviorRole::Exit })
}

/// Runs the named operation as an activity of the enclosing state.
pub fn activity_operation(name: &str) -> (r: Partial)
    ensures
        is_behavior_operation(r, name@, BehaviorRole::Activity),
{
    Partial::BehaviorOperation(PartialBehaviorOperation { name: text::owned(name), role: BehaviorRole::Activity })
}

/// Runs the named operation as an effect of the enclosing transition.
pub fn effect_operation(name: &str) -> (r: Partial)
    ensures
        is_behavior_operation(r, name@, BehaviorRole::Effect),
{
    Partial::BehaviorOperation(PartialBehaviorOperation { name: text::owned(name), role: BehaviorRole::Effect })
}

/// Observes the named behaviors and transitions (all of them when none is
/// named).
pub fn observe<E: IntoObservationTarget>(observer: OperationFn, targets: Vec<E>) -> (r: Partial)
    ensures
        r matches Partial::Observe(x) && x.observer == observer && names_view(x.targets@) == target_names(targets@),
{
    Partial::Observe(PartialObserve { observer, targets: into_target_names(targets) })
}

/// Adds a custom validator.
pub fn validator(hook: ValidatorFn) -> (r: Partial)
    ensures
        r matches Partial::Validator(x) && x.validator == hook,
{
    Partial::Validator(PartialValidator { validator: hook })
}

/// Adds a custom finalizer.
pub fn finalizer(hook: FinalizerFn) -> (r: Partial)
    ensures
        r matches Partial::Finalizer(x) && x.finalizer == hook,
{
    Partial::Finalizer(PartialFinalizer { finalizer: hook })
}

/// Adds an entry action to the enclosing state.
pub fn entry(operation: EntryFn) -> (r: Partial)
    ensures
        r matches Partial::Entry(x) && x.operations@ == seq![operation],
{
    let mut operations: Vec<EntryFn> = Vec::new();
    operations.push(operation);
    assert(operations@ =~= seq![operation]);
    Partial::Entry(PartialEntry { operations })
}

/// Adds an exit action to the enclosing state.
pub fn exit(operation: ExitFn) -> (r: Partial)
    ensures
        r matches Partial::Exit(x) && x.operations@ == seq![operation],
{
    let mut operations: Vec<ExitFn> = Vec::new();
    operations.push(operation);
    assert(operations@ =~= seq![operation]);
    Partial::Exit(PartialExit { operations })
}

/// Adds an activity to the enclosing state.
pub fn activity(operation: ActivityFn) -> (r: Partial)
    ensures
        r matches Partial::Activity(x) && x.operations@ == seq![operation],
{
    let mut operations: Vec<ActivityFn> = Vec::new();
    operations.push(operation);
    assert(operations@ =~= seq![operation]);
    Partial::Activity(PartialActivity { operations })
}

/// Guards the enclosing transition.
pub fn guard(expression: GuardFn) -> (r: Partial)
    ensures
        r matches Partial::Guard(x) && x.expression == expression,
{
    Partial::Guard(PartialGuard { expression })
}

/// Guards the enclosing transition with the named operation.
pub fn guard_operation_ref(name: &str) -> (r: Partial)
    ensures
        r matches Partial::GuardOperationRef(x) && x.name@ == name@,
{
    Partial::GuardOperationRef(PartialGuardOperationRef { name: text::owned(name) })
}

/// Creates an initial pseudostate.
pub fn initial() -> (r: Partial)
    ensures
        is_initial(r, seq![]),
{
    let r = Partial::Initial(PartialInitial { name: initial_name(), elements: Vec::new() });
    assert(r->Initial_0.elements@ =~= seq![]);
    r
}

/// Creates a choice pseudostate.
pub fn choice(name: &str) -> (r: Partial)
    ensures
        is_choice(r, name@, seq![]),
{
    let r = Partial::Choice(PartialChoice { name: text::owned(name), elements: Vec::new() });
    assert(r->Choice_0.elements@ =~= seq![]);
    r
}

/// Creates a shallow history pseudostate.
pub fn shallow_history(name: &str) -> (r: Partial)
    ensures
        is_history(r, name@, kind::SHALLOW_HISTORY, seq![]),
{
    let r = Partial::History(PartialHistory { name: text::owned(name), kind: kind::SHALLOW_HISTORY, elements: Vec::new() });
    assert(r->History_0.elements@ =~= seq![]);
    r
}

/// Creates a deep history pseudostate.
pub fn deep_history(name: &str) -> (r: Partial)
    ensures
        is_history(r, name@, kind::DEEP_HISTORY, seq![]),
{
    let r = Partial::History(PartialHistory { name: text::owned(name), kind: kind::DEEP_HISTORY, elements: Vec::new() });
    assert(r->History_0.elements@ =~= seq![]);
    r
}

/// Creates a final state.
pub fn final_state(name: &str) -> (r: Partial)
    ensures
        r matches Partial::FinalState(x) && x.name@ == name@,
{
    Partial::FinalState(PartialFinalState { name: text::owned(name) })
}

/// Defers the events in the enclosing state.
pub fn defer<E: IntoEventName>(events: Vec<E>) -> (r: Partial)
    ensures
        r matches Partial::Defer(x) && names_view(x.events@) == event_names(events@),
{
    Partial::Defer(PartialDefer { events: into_event_names(events) })
}

} // verus!
