//! What a running machine keeps besides its current state: the history of
//! its composite states, its timers, and the names and values of its
//! attributes.

use vstd::prelude::*;

use std::sync::Arc;

use crate::assoc::{self, table_get, view_find, view_put};
use crate::element::{opt_name_view, spec_value_type, Attribute, AttributeValue, Transition, TransitionView};
use crate::error::HsmError;
use crate::kind;
use crate::model::{tables_consistent, updates_view, HistoryUpdateView, Model};
use crate::path::{join, spec_dirname, spec_join};
use crate::text;

verus! {

/// A list of name pairs, by their text.
pub open spec fn kv_view(s: Seq<(String, String)>) -> Seq<(Seq<char>, Seq<char>)> {
    s.map_values(|e: (String, String)| (e.0@, e.1@))
}

/// The value kept for `k` in a keyed list of views (its first entry).
pub open spec fn view_lookup<W>(s: Seq<(Seq<char>, W)>, k: Seq<char>) -> Option<W> {
    let i = view_find(s, k);
    if i >= 0 {
        Some(s[i].1)
    } else {
        None
    }
}

/// The history updates a model lists for leaving `leaf`.
pub open spec fn leaf_updates(m: Model, leaf: Seq<char>) -> Seq<HistoryUpdateView> {
    match table_get(m.history_updates@, leaf) {
        Some(v) => updates_view(v@),
        None => seq![],
    }
}

/// The value an update records: the deep leaf, or the direct child.
pub open spec fn update_value(u: HistoryUpdateView, deep: bool) -> Seq<char> {
    if deep {
        u.deep_leaf
    } else {
        u.shallow_child
    }
}

/// `h` after recording `ups` in order, each setting the value of its parent.
pub open spec fn record_updates(h: Seq<(Seq<char>, Seq<char>)>, ups: Seq<HistoryUpdateView>, deep: bool) -> Seq<(Seq<char>, Seq<char>)>
    decreases ups.len(),
{
    if ups.len() == 0 {
        h
    } else {
        view_put(record_updates(h, ups.drop_last(), deep), ups.last().parent, update_value(ups.last(), deep))
    }
}

/// The value the last update for `parent` records, if any update is for it.
pub open spec fn last_update_for(ups: Seq<HistoryUpdateView>, parent: Seq<char>, deep: bool) -> Option<Seq<char>>
    decreases ups.len(),
{
    if ups.len() == 0 {
        None
    } else if ups.last().parent == parent {
        Some(update_value(ups.last(), deep))
    } else {
        last_update_for(ups.drop_last(), parent, deep)
    }
}

/// The shallow and deep history of a running machine: for each composite
/// state left, its last active child and its last active leaf.
pub struct History {
    pub shallow: Vec<(String, String)>,
    pub deep: Vec<(String, String)>,
}

fn put_name(s: &mut Vec<(String, String)>, k: String, v: String)
    ensures
        kv_view(final(s)@) == view_put(kv_view(old(s)@), k@, v@),
{
    let ghost before = s@;
    let ghost key = k@;
    let ghost val = v@;
    proof {
        assert forall|j: int| 0 <= j < before.len() implies before[j].0@ == #[trigger] kv_view(before)[j].0 by {}
        assoc::lemma_find_index_view(before, kv_view(before), key);
        assoc::lemma_find_index(before, key);
    }
    assoc::insert(s, k, v);
    assert(kv_view(s@) =~= view_put(kv_view(before), key, val));
}

fn lookup_name(s: &Vec<(String, String)>, k: &str) -> (r: Option<String>)
    ensures
        opt_name_view(r) == view_lookup(kv_view(s@), k@),
{
    proof {
        assert forall|j: int| 0 <= j < s@.len() implies s@[j].0@ == #[trigger] kv_view(s@)[j].0 by {}
        assoc::lemma_find_index_view(s@, kv_view(s@), k@);
        assoc::lemma_find_index(s@, k@);
    }
    match assoc::get(s, k) {
        Some(v) => Some(v.clone()),
        None => None,
    }
}

impl History {
    /// No history yet.
    pub fn new() -> (r: History)
        ensures
            kv_view(r.shallow@) == Seq::<(Seq<char>, Seq<char>)>::empty(),
            kv_view(r.deep@) == Seq::<(Seq<char>, Seq<char>)>::empty(),
    {
        let r = History { shallow: Vec::new(), deep: Vec::new() };
        assert(kv_view(r.shallow@) =~= Seq::<(Seq<char>, Seq<char>)>::empty());
        assert(kv_view(r.deep@) =~= Seq::<(Seq<char>, Seq<char>)>::empty());
        r
    }

    /// Records the history updates the model lists for leaving `leaf`.
    pub fn remember(&mut self, model: &Model, leaf: &str)
        ensures
            kv_view(final(self).shallow@) == record_updates(kv_view(old(self).shallow@), leaf_updates(*model, leaf@), false),
            kv_view(final(self).deep@) == record_updates(kv_view(old(self).deep@), leaf_updates(*model, leaf@), true),
    {
        proof {
            assoc::lemma_find_index(model.history_updates@, leaf@);
        }
        let updates = match assoc::get(&model.history_updates, leaf) {
            Some(u) => u,
            None => {
                return;
            },
        };
        assert(updates_view(updates@) == leaf_updates(*model, leaf@));
        let ghost shallow0 = kv_view(self.shallow@);
        let ghost deep0 = kv_view(self.deep@);
        let mut i: usize = 0;
        while i < updates.len()
            invariant
                0 <= i <= updates.len(),
                kv_view(self.shallow@) == record_updates(shallow0, updates_view(updates@).subrange(0, i as int), false),
                kv_view(self.deep@) == record_updates(deep0, updates_view(updates@).subrange(0, i as int), true),
            decreases updates.len() - i,
        {
            let ghost pre = updates_view(updates@).subrange(0, i as int + 1);
            assert(pre.drop_last() =~= updates_view(updates@).subrange(0, i as int));
            assert(pre.last() == updates@[i as int]@);
            let u = &updates[i];
            put_name(&mut self.shallow, u.parent.clone(), u.shallow_child.clone());
            put_name(&mut self.deep, u.parent.clone(), u.deep_leaf.clone());
            i += 1;
        }
        assert(updates_view(updates@).subrange(0, updates.len() as int) =~= updates_view(updates@));
    }

    /// The child of `parent` that was active when it was last left.
    pub fn shallow_of(&self, parent: &str) -> (r: Option<String>)
        ensures
            opt_name_view(r) == view_lookup(kv_view(self.shallow@), parent@),
    {
        lookup_name(&self.shallow, parent)
    }

    /// The leaf below `parent` that was active when it was last left.
    pub fn deep_of(&self, parent: &str) -> (r: Option<String>)
        ensures
            opt_name_view(r) == view_lookup(kv_view(self.deep@), parent@),
    {
        lookup_name(&self.deep, parent)
    }
}

/// Setting the value for `k` is seen by a lookup of `k`, and by no other.
pub proof fn lemma_view_put_lookup<W>(s: Seq<(Seq<char>, W)>, k: Seq<char>, w: W, n: Seq<char>)
    ensures
        view_lookup(view_put(s, k, w), n) == (if n == k {
            Some(w)
        } else {
            view_lookup(s, n)
        }),
{
    lemma_view_find(s, n);
    lemma_view_find(s, k);
    let t = view_put(s, k, w);
    lemma_view_find(t, n);
    if view_find(s, k) >= 0 {
        let i = view_find(s, k);
        if n == k {
            assert(t[i].0 == n);
        } else {
            if view_find(s, n) >= 0 {
                assert(t[view_find(s, n)] == s[view_find(s, n)]);
            }
            if view_find(t, n) >= 0 && view_find(t, n) != i {
                assert(s[view_find(t, n)] == t[view_find(t, n)]);
            }
        }
    } else {
        if n == k {
            assert(t[s.len() as int].0 == n);
        } else {
            if view_find(s, n) >= 0 {
                assert(t[view_find(s, n)] == s[view_find(s, n)]);
            }
            if view_find(t, n) >= 0 && view_find(t, n) < s.len() {
                assert(s[view_find(t, n)] == t[view_find(t, n)]);
            }
        }
    }
}

/// `view_find` gives the first position keyed `k`, or -1 when there is none.
pub proof fn lemma_view_find<W>(s: Seq<(Seq<char>, W)>, k: Seq<char>)
    ensures
        -1 <= view_find(s, k) < s.len(),
        view_find(s, k) >= 0 ==> s[view_find(s, k)].0 == k,
        forall|j: int| 0 <= j < s.len() && (view_find(s, k) < 0 || j < view_find(s, k)) ==> s[j].0 != k,
    decreases s.len(),
{
    if s.len() > 0 && s[0].0 != k {
        lemma_view_find(s.drop_first(), k);
        assert forall|j: int| 0 <= j < s.len() && (view_find(s, k) < 0 || j < view_find(s, k)) implies s[j].0
            != k by {
            if j > 0 {
                assert(s.drop_first()[j - 1] == s[j]);
            }
        }
    }
}

/// Reading the history of `parent` after recording updates gives the value of
/// the last update for `parent`, and what was there before when no update is
/// for it.
pub proof fn law_history_reads_last_update(
    h: Seq<(Seq<char>, Seq<char>)>,
    ups: Seq<HistoryUpdateView>,
    deep: bool,
    parent: Seq<char>,
)
    ensures
        view_lookup(record_updates(h, ups, deep), parent) == match last_update_for(ups, parent, deep) {
            Some(v) => Some(v),
            None => view_lookup(h, parent),
        },
    decreases ups.len(),
{
    if ups.len() > 0 {
        law_history_reads_last_update(h, ups.drop_last(), deep, parent);
        lemma_view_put_lookup(
            record_updates(h, ups.drop_last(), deep),
            ups.last().parent,
            update_value(ups.last(), deep),
            parent,
        );
    }
}

/// Which timer a transition carries.
#[derive(PartialEq, Eq, Structural, Clone, Copy, Debug)]
pub enum TimerKind {
    After,
    At,
    Every,
}

/// A constraint named `c` exists and gives a duration or a point in time.
pub open spec fn is_timer_constraint(m: Model, c: Seq<char>) -> bool {
    match m.constraint_of(c) {
        Some(x) => x.duration is Some || x.timepoint is Some,
        None => false,
    }
}

pub open spec fn after_word() -> Seq<char> {
    seq!['a', 'f', 't', 'e', 'r']
}

pub open spec fn at_word() -> Seq<char> {
    seq!['a', 't']
}

pub open spec fn every_word() -> Seq<char> {
    seq!['e', 'v', 'e', 'r', 'y']
}

/// The timer of a transition: the first of its `after`, `at` and `every`
/// constraints that gives a duration or a point in time, with its name.
pub open spec fn spec_timer_kind(m: Model, t: TransitionView) -> Option<(TimerKind, Seq<char>)> {
    let a = spec_join(t.element.qualified_name, after_word());
    let b = spec_join(t.element.qualified_name, at_word());
    let c = spec_join(t.element.qualified_name, every_word());
    if is_timer_constraint(m, a) {
        Some((TimerKind::After, a))
    } else if is_timer_constraint(m, b) {
        Some((TimerKind::At, b))
    } else if is_timer_constraint(m, c) {
        Some((TimerKind::Every, c))
    } else {
        None
    }
}

fn timer_constraint_at(model: &Model, name: &str) -> (r: bool)
    ensures
        r == is_timer_constraint(*model, name@),
{
    match model.get_constraint(name) {
        Some(c) => c.duration.is_some() || c.timepoint.is_some(),
        None => false,
    }
}

/// The timer `transition` carries, with the name of its constraint.
pub fn timer_kind_for_transition(model: &Model, transition: &Transition) -> (r: Option<(TimerKind, String)>)
    ensures
        match r {
            Some((k, n)) => spec_timer_kind(*model, transition@) == Some((k, n@)),
            None => spec_timer_kind(*model, transition@) is None,
        },
{
    proof {
        reveal_strlit("after");
        reveal_strlit("at");
        reveal_strlit("every");
        assert("after"@ =~= after_word());
        assert("at"@ =~= at_word());
        assert("every"@ =~= every_word());
    }
    let name = transition.element.qualified_name.as_str();
    let a = join(name, "after");
    if timer_constraint_at(model, a.as_str()) {
        return Some((TimerKind::After, a));
    }
    let b = join(name, "at");
    if timer_constraint_at(model, b.as_str()) {
        return Some((TimerKind::At, b));
    }
    let c = join(name, "every");
    if timer_constraint_at(model, c.as_str()) {
        return Some((TimerKind::Every, c));
    }
    None
}

/// The timed transitions among `ts`, in order, with their timers.
pub open spec fn timer_entries(m: Model, ts: Seq<Seq<char>>) -> Seq<(Seq<char>, TimerKind, Seq<char>)>
    decreases ts.len(),
{
    if ts.len() == 0 {
        seq![]
    } else {
        let rest = timer_entries(m, ts.drop_last());
        match m.transition_of(ts.last()) {
            Some(t) => match spec_timer_kind(m, t) {
                Some((k, c)) => rest.push((ts.last(), k, c)),
                None => rest,
            },
            None => rest,
        }
    }
}

/// The timed transitions leaving the state named `state`.
pub open spec fn spec_timer_transitions(m: Model, state: Seq<char>) -> Seq<(Seq<char>, TimerKind, Seq<char>)> {
    match m.state_of(state) {
        Some(s) => timer_entries(m, s.vertex.transitions),
        None => seq![],
    }
}

pub open spec fn timers_view(s: Seq<(String, TimerKind, String)>) -> Seq<(Seq<char>, TimerKind, Seq<char>)> {
    s.map_values(|e: (String, TimerKind, String)| (e.0@, e.1, e.2@))
}

/// The timed transitions leaving `state_name`, with their timers and the
/// names of their constraints.
pub fn timer_transitions_for_state(model: &Model, state_name: &str) -> (r: Vec<(String, TimerKind, String)>)
    ensures
        timers_view(r@) == spec_timer_transitions(*model, state_name@),
{
    let mut out: Vec<(String, TimerKind, String)> = Vec::new();
    let state = match model.get_state(state_name) {
        Some(s) => s,
        None => {
            assert(timers_view(out@) =~= Seq::<(Seq<char>, TimerKind, Seq<char>)>::empty());
            return out;
        },
    };
    let ts = &state.vertex.transitions;
    let ghost names = crate::element::names_view(ts@);
    let mut i: usize = 0;
    assert(timers_view(out@) =~= timer_entries(*model, names.subrange(0, 0)));
    while i < ts.len()
        invariant
            0 <= i <= ts.len(),
            names == crate::element::names_view(ts@),
            timers_view(out@) == timer_entries(*model, names.subrange(0, i as int)),
        decreases ts.len() - i,
    {
        let ghost pre = names.subrange(0, i as int + 1);
        assert(pre.drop_last() =~= names.subrange(0, i as int));
        assert(pre.last() == ts@[i as int]@);
        let ghost before = out@;
        match model.get_transition(ts[i].as_str()) {
            Some(t) => match timer_kind_for_transition(model, t) {
                Some((k, c)) => {
                    out.push((ts[i].clone(), k, c));
                    assert(timers_view(out@) =~= timers_view(before).push((ts@[i as int]@, k, c@)));
                },
                None => {},
            },
            None => {},
        }
        i += 1;
    }
    assert(names.subrange(0, ts.len() as int) =~= names);
    out
}

/// A name taken relative to the machine, unless it is absolute.
pub fn qualify_name(model: &Model, name: &str) -> (r: String)
    ensures
        r@ == spec_join(model.root(), name@),
{
    join(model.state.vertex.element.qualified_name.as_str(), name)
}

pub open spec fn missing_attribute_message(name: Seq<char>) -> Seq<char> {
    seq!['m', 'i', 's', 's', 'i', 'n', 'g', ' ', 'a', 't', 't', 'r', 'i', 'b', 'u', 't', 'e', ' ', '"'] + name
        + seq!['"']
}

pub open spec fn rejected_value_message(name: Seq<char>) -> Seq<char> {
    seq!['a', 't', 't', 'r', 'i', 'b', 'u', 't', 'e', ' ', '"'] + name + seq![
        '"',
        ' ',
        'r',
        'e',
        'j',
        'e',
        'c',
        't',
        'e',
        'd',
        ' ',
        'v',
        'a',
        'l',
        'u',
        'e',
    ]
}

/// Whether `value` may be stored in the attribute `qualified_name`: the model
/// must declare it, and a declared type must be the value's type.
pub fn check_attribute_value(model: &Model, qualified_name: &str, value: &AttributeValue) -> (r: Result<(), HsmError>)
    ensures
        model.attribute_of(qualified_name@) is None ==> (r matches Err(HsmError::Runtime(msg)) && msg@
            == missing_attribute_message(qualified_name@)),
        model.attribute_of(qualified_name@) matches Some(a) ==> (match a.value_type {
            Some(t) => if t == spec_value_type(*value) {
                r is Ok
            } else {
                r matches Err(HsmError::Runtime(msg)) && msg@ == rejected_value_message(qualified_name@)
            },
            None => r is Ok,
        }),
{
    proof {
        reveal_strlit("missing attribute \"");
        reveal_strlit("\"");
        reveal_strlit("attribute \"");
        reveal_strlit("\" rejected value");
        assoc::lemma_find_index(model.attributes@, qualified_name@);
    }
    let attribute = match model.get_attribute(qualified_name) {
        Some(a) => a,
        None => {
            let msg = text::concat3("missing attribute \"", qualified_name, "\"");
            assert(msg@ =~= missing_attribute_message(qualified_name@));
            return Err(HsmError::Runtime(msg));
        },
    };
    match attribute.value_type {
        Some(t) => {
            if t == value.value_type() {
                Ok(())
            } else {
                let msg = text::concat3("attribute \"", qualified_name, "\" rejected value");
                assert(msg@ =~= rejected_value_message(qualified_name@));
                Err(HsmError::Runtime(msg))
            }
        },
        None => Ok(()),
    }
}

/// Another handle on a shared value, by `std::sync::Arc::clone`, which makes
/// a new pointer to the same allocation: the value pointed to is the same.
#[verifier::external_body]
fn share_value(v: &Arc<AttributeValue>) -> (r: Arc<AttributeValue>)
    ensures
        *r == **v,
{
    Arc::clone(v)
}

/// The attributes that declare a default value, with it, in order.
pub open spec fn spec_default_values(s: Seq<(String, Attribute)>) -> Seq<(Seq<char>, AttributeValue)>
    decreases s.len(),
{
    if s.len() == 0 {
        seq![]
    } else {
        let rest = spec_default_values(s.drop_last());
        match s.last().1.default_value {
            Some(v) => rest.push((s.last().0@, *v)),
            None => rest,
        }
    }
}

pub open spec fn values_view(s: Seq<(String, Arc<AttributeValue>)>) -> Seq<(Seq<char>, AttributeValue)> {
    s.map_values(|e: (String, Arc<AttributeValue>)| (e.0@, *e.1))
}

/// The initial values of a machine's attributes: the declared defaults.
pub fn default_attribute_values(model: &Model) -> (r: Vec<(String, Arc<AttributeValue>)>)
    ensures
        values_view(r@) == spec_default_values(model.attributes@),
{
    let attrs = &model.attributes;
    let mut out: Vec<(String, Arc<AttributeValue>)> = Vec::new();
    let mut i: usize = 0;
    assert(values_view(out@) =~= spec_default_values(attrs@.subrange(0, 0)));
    while i < attrs.len()
        invariant
            0 <= i <= attrs.len(),
            values_view(out@) == spec_default_values(attrs@.subrange(0, i as int)),
        decreases attrs.len() - i,
    {
        let ghost pre = attrs@.subrange(0, i as int + 1);
        assert(pre.drop_last() =~= attrs@.subrange(0, i as int));
        let ghost before = out@;
        let (name, attribute) = &attrs[i];
        match &attribute.default_value {
            Some(v) => {
                out.push((name.clone(), share_value(v)));
                assert(values_view(out@) =~= values_view(before).push((name@, **v)));
            },
            None => {},
        }
        i += 1;
    }
    assert(attrs@.subrange(0, attrs.len() as int) =~= attrs@);
    out
}

pub open spec fn missing_operation_message(name: Seq<char>) -> Seq<char> {
    seq!['m', 'i', 's', 's', 'i', 'n', 'g', ' ', 'o', 'p', 'e', 'r', 'a', 't', 'i', 'o', 'n', ' ', '"'] + name
        + seq!['"']
}

pub open spec fn empty_operation_message() -> Seq<char> {
    seq![
        'o', 'p', 'e', 'r', 'a', 't', 'i', 'o', 'n', ' ', 'n', 'a', 'm', 'e', ' ', 'c', 'a', 'n', 'n', 'o', 't', ' ',
        'b', 'e', ' ', 'e', 'm', 'p', 't', 'y',
    ]
}

/// The operation a call of `name` runs, by its qualified name: refused on a
/// machine that has not started, for an empty name, and for a name that
/// names no operation with an action.
pub fn resolve_operation_call(model: &Model, current_state: &str, draining: bool, name: &str) -> (r: Result<String, HsmError>)
    ensures
        (current_state@ == model.root() && !draining) ==> (r matches Err(HsmError::Runtime(msg))
            && msg@ == crate::route::requires_started_message(seq!['o', 'p', 'e', 'r', 'a', 't', 'i', 'o', 'n'])),
        !(current_state@ == model.root() && !draining) ==> ({
            let q = spec_join(model.root(), name@);
            if name@.len() == 0 {
                r matches Err(HsmError::Runtime(msg)) && msg@ == empty_operation_message()
            } else if model.operation_of(q) matches Some(o) && o.action is Some {
                r matches Ok(n) && n@ == q
            } else {
                r matches Err(HsmError::Runtime(msg)) && msg@ == missing_operation_message(name@)
            }
        }),
{
    proof {
        reveal_strlit("operation");
        reveal_strlit("operation name cannot be empty");
        reveal_strlit("missing operation \"");
        reveal_strlit("\"");
        assert("operation"@ =~= seq!['o', 'p', 'e', 'r', 'a', 't', 'i', 'o', 'n']);
    }
    match crate::route::require_started(model, current_state, draining, "operation") {
        Err(e) => {
            return Err(e);
        },
        Ok(()) => {},
    }
    if text::char_len(name) == 0 {
        let msg = text::owned("operation name cannot be empty");
        assert(msg@ =~= empty_operation_message());
        return Err(HsmError::Runtime(msg));
    }
    let qualified = qualify_name(model, name);
    let found = match model.get_operation(qualified.as_str()) {
        Some(o) => o.action.is_some(),
        None => false,
    };
    if found {
        Ok(qualified)
    } else {
        let msg = text::concat3("missing operation \"", name, "\"");
        assert(msg@ =~= missing_operation_message(name@));
        Err(HsmError::Runtime(msg))
    }
}

proof fn lemma_last_update_found(ups: Seq<HistoryUpdateView>, parent: Seq<char>, deep: bool, i: int)
    requires
        0 <= i < ups.len(),
        ups[i].parent == parent,
    ensures
        exists|k: int| 0 <= k < ups.len() && ups[k].parent == parent && last_update_for(ups, parent, deep) == Some(update_value(#[trigger] ups[k], deep)),
    decreases ups.len(),
{
    if ups.last().parent == parent {
        assert(ups[ups.len() - 1] == ups.last());
    } else {
        assert(i < ups.len() - 1);
        assert(ups.drop_last()[i] == ups[i]);
        lemma_last_update_found(ups.drop_last(), parent, deep, i);
        let k = choose|k: int| 0 <= k < ups.drop_last().len() && ups.drop_last()[k].parent == parent && last_update_for(ups.drop_last(), parent, deep) == Some(update_value(#[trigger] ups.drop_last()[k], deep));
        assert(ups.drop_last()[k] == ups[k]);
    }
}

/// Leaving a state `n` of a model with its tables built records, for every
/// state `p` around it that its history updates name, the direct child of
/// `p` through which `n` was reached (it lies above `n` or is `n`) as
/// `p`'s shallow history, and `n` itself as `p`'s deep history.
pub proof fn law_remember_records_child_and_leaf(
    m: Model,
    n: Seq<char>,
    shallow: Seq<(Seq<char>, Seq<char>)>,
    deep: Seq<(Seq<char>, Seq<char>)>,
    p: Seq<char>,
    i: int,
)
    requires
        tables_consistent(m),
        m.state_of(n) is Some,
        crate::path::is_abs_name(n),
        0 <= i < leaf_updates(m, n).len(),
        leaf_updates(m, n)[i].parent == p,
    ensures
        view_lookup(record_updates(shallow, leaf_updates(m, n), false), p) matches Some(c) && spec_dirname(c) == p
            && crate::path::spec_is_ancestor_or_equal(c, n),
        view_lookup(record_updates(deep, leaf_updates(m, n), true), p) == Some(n),
{
    let ups = leaf_updates(m, n);
    crate::model::law_history_updates_shape(m, n);
    law_history_reads_last_update(shallow, ups, false, p);
    law_history_reads_last_update(deep, ups, true, p);
    lemma_last_update_found(ups, p, false, i);
    lemma_last_update_found(ups, p, true, i);
    let v = table_get(m.history_updates@, n)->0;
    assert forall|k: int| 0 <= k < ups.len() implies #[trigger] ups[k].deep_leaf == n && spec_dirname(ups[k].shallow_child) == ups[k].parent
        && crate::path::spec_is_ancestor_or_equal(ups[k].shallow_child, n) by {
        assert(ups[k] == v@[k]@);
    }
}

} // verus!
