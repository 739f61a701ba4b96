//! What a snapshot of a running machine reports, and the events a machine
//! holds back while a state defers them.

use vstd::prelude::*;

use std::sync::Arc;

use crate::assoc;
use crate::dispatch::{event_table, spec_deferred_event_survives, deferred_event_survives};
use crate::element::{names_view, AttributeValue, Element, Transition, TransitionView};
use crate::event::{Event, EventView};
use crate::kind::{self, KindValue};
use crate::model::Model;
use crate::rebase::call_prefix;
use crate::text::{self, has_prefix};

verus! {

/// The name a snapshot shows for an event: without the call prefix.
pub open spec fn spec_snapshot_event_name(name: Seq<char>) -> Seq<char> {
    if has_prefix(name, call_prefix()) {
        name.subrange(call_prefix().len() as int, name.len() as int)
    } else {
        name
    }
}

/// The kind a snapshot shows for an event name: a call for a call trigger.
pub open spec fn spec_snapshot_event_kind(name: Seq<char>) -> KindValue {
    if has_prefix(name, call_prefix()) {
        kind::CALL_EVENT
    } else {
        kind::EVENT
    }
}

/// The name a snapshot shows for the event named `name`.
pub fn snapshot_event_name(name: &str) -> (r: String)
    ensures
        r@ == spec_snapshot_event_name(name@),
{
    proof {
        reveal_strlit("hsm_call:");
        assert("hsm_call:"@ =~= call_prefix());
    }
    match text::strip_prefix(name, "hsm_call:") {
        Some(rest) => text::owned(rest),
        None => text::owned(name),
    }
}

/// The kind a snapshot shows for the event named `name`.
pub fn snapshot_event_kind(name: &str) -> (r: KindValue)
    ensures
        r == spec_snapshot_event_kind(name@),
{
    proof {
        reveal_strlit("hsm_call:");
        assert("hsm_call:"@ =~= call_prefix());
    }
    if text::starts_with(name, "hsm_call:") {
        kind::CALL_EVENT
    } else {
        kind::EVENT
    }
}

/// An event the current state answers to, as a snapshot shows it.
#[allow(non_snake_case)]
pub struct EventDetail {
    pub Name: String,
    pub Kind: KindValue,
    pub Target: Option<String>,
    pub Guard: bool,
    pub Schema: Option<AttributeValue>,
}

#[verifier::ext_equal]
pub struct EventDetailView {
    pub name: Seq<char>,
    pub kind: KindValue,
    pub target: Option<Seq<char>>,
    pub guard: bool,
    pub has_schema: bool,
}

impl View for EventDetail {
    type V = EventDetailView;

    open spec fn view(&self) -> EventDetailView {
        EventDetailView {
            name: self.Name@,
            kind: self.Kind,
            target: crate::element::opt_name_view(self.Target),
            guard: self.Guard,
            has_schema: self.Schema is Some,
        }
    }
}

/// A transition the current state can take, as a snapshot shows it.
#[allow(non_snake_case)]
pub struct TransitionDetail {
    pub Name: String,
    pub Kind: KindValue,
    pub Source: String,
    pub Target: Option<String>,
    pub Events: Vec<String>,
    pub Guard: bool,
}

#[verifier::ext_equal]
pub struct TransitionDetailView {
    pub name: Seq<char>,
    pub kind: KindValue,
    pub source: Seq<char>,
    pub target: Option<Seq<char>>,
    pub events: Seq<Seq<char>>,
    pub guard: bool,
}

impl View for TransitionDetail {
    type V = TransitionDetailView;

    open spec fn view(&self) -> TransitionDetailView {
        TransitionDetailView {
            name: self.Name@,
            kind: self.Kind,
            source: self.Source@,
            target: crate::element::opt_name_view(self.Target),
            events: names_view(self.Events@),
            guard: self.Guard,
        }
    }
}

/// A target as a snapshot shows it: none for an internal transition.
pub open spec fn shown_target(target: Seq<char>) -> Option<Seq<char>> {
    if target.len() == 0 {
        None
    } else {
        Some(target)
    }
}

/// The detail of an event under which transition `t` is listed.
pub open spec fn event_detail_of(event_name: Seq<char>, t: TransitionView) -> EventDetailView {
    EventDetailView {
        name: spec_snapshot_event_name(event_name),
        kind: spec_snapshot_event_kind(event_name),
        target: shown_target(t.target),
        guard: t.guard.len() > 0,
        has_schema: false,
    }
}

/// The detail of transition `t`.
pub open spec fn transition_detail_of(t: TransitionView) -> TransitionDetailView {
    TransitionDetailView {
        name: t.element.qualified_name,
        kind: t.element.kind,
        source: t.source,
        target: shown_target(t.target),
        events: t.events.map_values(|e: Seq<char>| spec_snapshot_event_name(e)),
        guard: t.guard.len() > 0,
    }
}

/// The (event, transition) pairs of an event table, in order.
pub open spec fn table_pairs(table: Seq<(String, Vec<String>)>) -> Seq<(Seq<char>, Seq<char>)>
    decreases table.len(),
{
    if table.len() == 0 {
        seq![]
    } else {
        let e = table.last().0@;
        table_pairs(table.drop_last()) + names_view(table.last().1@).map_values(|n: Seq<char>| (e, n))
    }
}

/// One event detail per pair whose transition exists.
pub open spec fn event_details(m: Model, pairs: Seq<(Seq<char>, Seq<char>)>) -> Seq<EventDetailView>
    decreases pairs.len(),
{
    if pairs.len() == 0 {
        seq![]
    } else {
        let rest = event_details(m, pairs.drop_last());
        match m.transition_of(pairs.last().1) {
            Some(t) => rest.push(event_detail_of(pairs.last().0, t)),
            None => rest,
        }
    }
}

/// One transition detail per existing transition, at its first pair.
pub open spec fn transition_details(m: Model, pairs: Seq<(Seq<char>, Seq<char>)>) -> Seq<TransitionDetailView>
    decreases pairs.len(),
{
    if pairs.len() == 0 {
        seq![]
    } else {
        let rest = transition_details(m, pairs.drop_last());
        let n = pairs.last().1;
        match m.transition_of(n) {
            Some(t) => if pairs.drop_last().map_values(|p: (Seq<char>, Seq<char>)| p.1).contains(n) {
                rest
            } else {
                rest.push(transition_detail_of(t))
            },
            None => rest,
        }
    }
}

pub open spec fn event_details_view(s: Seq<EventDetail>) -> Seq<EventDetailView> {
    s.map_values(|d: EventDetail| d@)
}

pub open spec fn transition_details_view(s: Seq<TransitionDetail>) -> Seq<TransitionDetailView> {
    s.map_values(|d: TransitionDetail| d@)
}

pub open spec fn pairs_view(s: Seq<(String, String)>) -> Seq<(Seq<char>, Seq<char>)> {
    s.map_values(|p: (String, String)| (p.0@, p.1@))
}

fn flatten_table(table: &Vec<(String, Vec<String>)>) -> (r: Vec<(String, String)>)
    ensures
        pairs_view(r@) == table_pairs(table@),
{
    let mut out: Vec<(String, String)> = Vec::new();
    let mut i: usize = 0;
    assert(pairs_view(out@) =~= table_pairs(table@.subrange(0, 0)));
    while i < table.len()
        invariant
            0 <= i <= table.len(),
            pairs_view(out@) == table_pairs(table@.subrange(0, i as int)),
        decreases table.len() - i,
    {
        let ghost pre = table@.subrange(0, i as int + 1);
        assert(pre.drop_last() =~= table@.subrange(0, i as int));
        let (event_name, names) = &table[i];
        let ghost e = event_name@;
        let ghost start = pairs_view(out@);
        let mut j: usize = 0;
        while j < names.len()
            invariant
                0 <= j <= names.len(),
                pairs_view(out@) == start + names_view(names@).subrange(0, j as int).map_values(
                    |n: Seq<char>| (e, n),
                ),
                e == event_name@,
            decreases names.len() - j,
        {
            let ghost before = pairs_view(out@);
            out.push((event_name.clone(), names[j].clone()));
            assert(names_view(names@).subrange(0, j as int + 1).map_values(|n: Seq<char>| (e, n))
                =~= names_view(names@).subrange(0, j as int).map_values(|n: Seq<char>| (e, n)).push(
                (e, names@[j as int]@),
            ));
            assert(pairs_view(out@) =~= before.push((e, names@[j as int]@)));
            j += 1;
        }
        assert(names_view(names@).subrange(0, names.len() as int) =~= names_view(names@));
        i += 1;
    }
    assert(table@.subrange(0, table.len() as int) =~= table@);
    out
}

fn shown(target: &String) -> (r: Option<String>)
    ensures
        crate::element::opt_name_view(r) == shown_target(target@),
{
    if text::char_len(target.as_str()) == 0 {
        None
    } else {
        Some(target.clone())
    }
}

fn detail_of_transition(t: &Transition) -> (r: TransitionDetail)
    ensures
        r@ == transition_detail_of(t@),
{
    let mut events: Vec<String> = Vec::new();
    let mut i: usize = 0;
    while i < t.events.len()
        invariant
            0 <= i <= t.events.len(),
            names_view(events@) == names_view(t.events@).subrange(0, i as int).map_values(
                |e: Seq<char>| spec_snapshot_event_name(e),
            ),
        decreases t.events.len() - i,
    {
        let ghost before = events@;
        events.push(snapshot_event_name(t.events[i].as_str()));
        assert(names_view(events@) =~= names_view(before).push(spec_snapshot_event_name(t.events@[i as int]@)));
        assert(names_view(t.events@).subrange(0, i as int + 1).map_values(|e: Seq<char>| spec_snapshot_event_name(e))
            =~= names_view(t.events@).subrange(0, i as int).map_values(|e: Seq<char>| spec_snapshot_event_name(e)).push(
            spec_snapshot_event_name(t.events@[i as int]@),
        ));
        i += 1;
    }
    assert(names_view(t.events@).subrange(0, t.events.len() as int) =~= names_view(t.events@));
    let r = TransitionDetail {
        Name: text::owned(t.qualified_name()),
        Kind: t.kind(),
        Source: t.source.clone(),
        Target: shown(&t.target),
        Events: events,
        Guard: text::char_len(t.guard.as_str()) != 0,
    };
    assert(r@ =~= transition_detail_of(t@));
    r
}

/// The events and transitions a snapshot reports for the state `state`.
pub open spec fn spec_snapshot_details(m: Model, state: Seq<char>) -> (Seq<TransitionDetailView>, Seq<EventDetailView>) {
    let pairs = table_pairs(event_table(m, state));
    (transition_details(m, pairs), event_details(m, pairs))
}

/// The transitions and events a snapshot reports for `state`: each listed
/// transition once, and one event detail per listing.
pub fn snapshot_details(model: &Model, state: &str) -> (r: (Vec<TransitionDetail>, Vec<EventDetail>))
    ensures
        (transition_details_view(r.0@), event_details_view(r.1@)) == spec_snapshot_details(*model, state@),
{
    proof {
        assoc::lemma_find_index(model.transition_map@, state@);
    }
    let empty: Vec<(String, Vec<String>)> = Vec::new();
    let table: &Vec<(String, Vec<String>)> = match assoc::get(&model.transition_map, state) {
        Some(t) => t,
        None => &empty,
    };
    assert(table@ == event_table(*model, state@));
    let pairs = flatten_table(table);
    let ghost ps = pairs_view(pairs@);
    let mut transitions: Vec<TransitionDetail> = Vec::new();
    let mut events: Vec<EventDetail> = Vec::new();
    let mut seen: Vec<String> = Vec::new();
    let mut i: usize = 0;
    assert(transition_details_view(transitions@) =~= transition_details(*model, ps.subrange(0, 0)));
    assert(event_details_view(events@) =~= event_details(*model, ps.subrange(0, 0)));
    while i < pairs.len()
        invariant
            0 <= i <= pairs.len(),
            ps == pairs_view(pairs@),
            transition_details_view(transitions@) == transition_details(*model, ps.subrange(0, i as int)),
            event_details_view(events@) == event_details(*model, ps.subrange(0, i as int)),
            forall|n: Seq<char>|
                #![trigger names_view(seen@).contains(n)]
                names_view(seen@).contains(n) <==> (ps.subrange(0, i as int).map_values(
                    |p: (Seq<char>, Seq<char>)| p.1,
                ).contains(n) && model.transition_of(n) is Some),
        decreases pairs.len() - i,
    {
        let ghost pre = ps.subrange(0, i as int + 1);
        assert(pre.drop_last() =~= ps.subrange(0, i as int));
        assert(pre.last() == (pairs@[i as int].0@, pairs@[i as int].1@));
        let ghost names_before = ps.subrange(0, i as int).map_values(|p: (Seq<char>, Seq<char>)| p.1);
        let ghost names_after = pre.map_values(|p: (Seq<char>, Seq<char>)| p.1);
        assert(names_after =~= names_before.push(pairs@[i as int].1@));
        let (event_name, transition_name) = &pairs[i];
        let ghost seen_before = seen@;
        match model.get_transition(transition_name.as_str()) {
            Some(t) => {
                let ghost eb = events@;
                events.push(
                    EventDetail {
                        Name: snapshot_event_name(event_name.as_str()),
                        Kind: snapshot_event_kind(event_name.as_str()),
                        Target: shown(&t.target),
                        Guard: text::char_len(t.guard.as_str()) != 0,
                        Schema: None,
                    },
                );
                assert(event_details_view(events@) =~= event_details_view(eb).push(
                    event_detail_of(event_name@, t@),
                ));
                let already = crate::element::contains_name(&seen, transition_name.as_str());
                if !already {
                    let ghost tb = transitions@;
                    transitions.push(detail_of_transition(t));
                    assert(transition_details_view(transitions@) =~= transition_details_view(tb).push(
                        transition_detail_of(t@),
                    ));
                    seen.push(transition_name.clone());
                    assert(names_view(seen@) =~= names_view(seen_before).push(transition_name@));
                }
                assert forall|n: Seq<char>| #[trigger] names_view(seen@).contains(n) <==> (names_after.contains(n)
                    && model.transition_of(n) is Some) by {
                    assert(names_view(seen_before).contains(n) <==> (names_before.contains(n)
                        && model.transition_of(n) is Some));
                    lemma_push_contains(names_before, transition_name@, n);
                    if !already {
                        lemma_push_contains(names_view(seen_before), transition_name@, n);
                    }
                }
            },
            None => {
                assert forall|n: Seq<char>| #[trigger] names_view(seen@).contains(n) <==> (names_after.contains(n)
                    && model.transition_of(n) is Some) by {
                    assert(names_view(seen_before).contains(n) <==> (names_before.contains(n)
                        && model.transition_of(n) is Some));
                    lemma_push_contains(names_before, transition_name@, n);
                }
            },
        }
        i += 1;
    }
    assert(ps.subrange(0, pairs.len() as int) =~= ps);
    (transitions, events)
}

proof fn lemma_push_contains<A>(s: Seq<A>, x: A, y: A)
    ensures
        s.push(x).contains(y) <==> (s.contains(y) || x == y),
{
    if s.contains(y) {
        let k = choose|k: int| 0 <= k < s.len() && s[k] == y;
        assert(s.push(x)[k] == y);
    }
    if x == y {
        assert(s.push(x)[s.len() as int] == y);
    }
    if s.push(x).contains(y) {
        let k = choose|k: int| 0 <= k < s.len() + 1 && s.push(x)[k] == y;
        if k < s.len() {
            assert(s[k] == y);
        }
    }
}

/// A snapshot of a running machine.
#[allow(non_snake_case)]
pub struct Snapshot {
    pub ID: String,
    pub QualifiedName: String,
    pub State: String,
    pub Attributes: Vec<(String, Arc<AttributeValue>)>,
    pub QueueLen: usize,
    pub Transitions: Vec<TransitionDetail>,
    pub Events: Vec<EventDetail>,
}

/// A snapshot of a machine in `state`, with the given identity, attribute
/// values and queue length, and the details of that state.
pub fn build_snapshot(
    model: &Model,
    id: String,
    qualified_name: String,
    state: String,
    attributes: Vec<(String, Arc<AttributeValue>)>,
    queue_len: usize,
) -> (r: Snapshot)
    ensures
        r.ID@ == id@,
        r.QualifiedName@ == qualified_name@,
        r.State@ == state@,
        r.Attributes@ == attributes@,
        r.QueueLen == queue_len,
        (transition_details_view(r.Transitions@), event_details_view(r.Events@)) == spec_snapshot_details(
            *model,
            state@,
        ),
{
    let (transitions, events) = snapshot_details(model, state.as_str());
    Snapshot {
        ID: id,
        QualifiedName: qualified_name,
        State: state,
        Attributes: attributes,
        QueueLen: queue_len,
        Transitions: transitions,
        Events: events,
    }
}

/// An event held back while `owner` defers it.
pub struct DeferredEvent {
    pub event: Event,
    pub owner: String,
}

#[verifier::ext_equal]
pub struct DeferredEventView {
    pub event: EventView,
    pub owner: Seq<char>,
}

impl View for DeferredEvent {
    type V = DeferredEventView;

    open spec fn view(&self) -> DeferredEventView {
        DeferredEventView { event: self.event@, owner: self.owner@ }
    }
}

pub open spec fn deferred_view(s: Seq<DeferredEvent>) -> Seq<DeferredEventView> {
    s.map_values(|d: DeferredEvent| d@)
}

/// Two events are the same record: same name, qualified name and kind.
pub open spec fn same_event(a: EventView, b: EventView) -> bool {
    a.name == b.name && a.qualified_name == b.qualified_name && a.kind == b.kind
}

/// The position of the first held event that is the same record as `e`.
pub open spec fn first_same(s: Seq<DeferredEventView>, e: EventView) -> int
    decreases s.len(),
{
    if s.len() == 0 {
        -1
    } else if same_event(s[0].event, e) {
        0
    } else {
        let r = first_same(s.drop_first(), e);
        if r < 0 {
            -1
        } else {
            r + 1
        }
    }
}

proof fn lemma_first_same(s: Seq<DeferredEventView>, e: EventView, i: int)
    requires
        0 <= i < s.len(),
        same_event(s[i].event, e),
        forall|k: int| 0 <= k < i ==> !same_event(s[k].event, e),
    ensures
        first_same(s, e) == i,
    decreases s.len(),
{
    if i > 0 {
        assert forall|k: int| 0 <= k < i - 1 implies !same_event(s.drop_first()[k].event, e) by {
            assert(s.drop_first()[k] == s[k + 1]);
        }
        lemma_first_same(s.drop_first(), e, i - 1);
    }
}

proof fn lemma_first_same_absent(s: Seq<DeferredEventView>, e: EventView)
    requires
        forall|k: int| 0 <= k < s.len() ==> !same_event(s[k].event, e),
    ensures
        first_same(s, e) == -1,
    decreases s.len(),
{
    if s.len() > 0 {
        assert forall|k: int| 0 <= k < s.len() - 1 implies !same_event(s.drop_first()[k].event, e) by {
            assert(s.drop_first()[k] == s[k + 1]);
        }
        lemma_first_same_absent(s.drop_first(), e);
    }
}

/// Takes out the first held record of `event`, if there is one.
pub fn take_deferred_event(held: &mut Vec<DeferredEvent>, event: &Event) -> (r: Option<DeferredEvent>)
    ensures
        first_same(deferred_view(old(held)@), event@) < 0 ==> r is None && final(held)@ == old(held)@,
        first_same(deferred_view(old(held)@), event@) >= 0 ==> ({
            let i = first_same(deferred_view(old(held)@), event@);
            &&& r matches Some(d) && d@ == deferred_view(old(held)@)[i]
            &&& deferred_view(final(held)@) == deferred_view(old(held)@).remove(i)
        }),
{
    let mut i: usize = 0;
    while i < held.len()
        invariant
            0 <= i <= held.len(),
            held@ == old(held)@,
            forall|k: int| 0 <= k < i ==> !same_event(#[trigger] deferred_view(held@)[k].event, event@),
        decreases held.len() - i,
    {
        let d = &held[i];
        if text::str_eq(d.event.name.as_str(), event.name.as_str()) && text::str_eq(
            d.event.qualified_name.as_str(),
            event.qualified_name.as_str(),
        ) && d.event.kind == event.kind {
            proof {
                lemma_first_same(deferred_view(held@), event@, i as int);
            }
            let ghost before = held@;
            let taken = held.remove(i);
            assert(deferred_view(held@) =~= deferred_view(before).remove(i as int));
            return Some(taken);
        }
        assert(deferred_view(held@)[i as int] == held@[i as int]@);
        i += 1;
    }
    proof {
        lemma_first_same_absent(deferred_view(held@), event@);
    }
    None
}

/// The held events that survive a transition from `source` into `current`,
/// in order.
pub open spec fn spec_surviving(m: Model, s: Seq<DeferredEventView>, current: Seq<char>, source: Seq<char>) -> Seq<DeferredEventView>
    decreases s.len(),
{
    if s.len() == 0 {
        seq![]
    } else {
        let rest = spec_surviving(m, s.drop_last(), current, source);
        if spec_deferred_event_survives(m, s.last().owner, current, source) {
            rest.push(s.last())
        } else {
            rest
        }
    }
}

/// The held events replayed after a transition from `transition_source` led
/// to `current_state`.
pub fn surviving_deferred_events(
    model: &Model,
    held: Vec<DeferredEvent>,
    current_state: &str,
    transition_source: &str,
) -> (r: Vec<DeferredEvent>)
    ensures
        deferred_view(r@) == spec_surviving(*model, deferred_view(held@), current_state@, transition_source@),
{
    let ghost all = deferred_view(held@);
    let total = held.len();
    let mut out: Vec<DeferredEvent> = Vec::new();
    let mut rest = held;
    let mut taken: usize = 0;
    let ghost n = all.len();
    assert(deferred_view(rest@) =~= all.subrange(0, n as int));
    assert(deferred_view(out@) =~= spec_surviving(*model, all.subrange(0, 0), current_state@, transition_source@));
    while rest.len() > 0
        invariant
            taken + rest.len() == n,
            n == all.len(),
            n == total,
            deferred_view(rest@) == all.subrange(taken as int, n as int),
            deferred_view(out@) == spec_surviving(*model, all.subrange(0, taken as int), current_state@, transition_source@),
        decreases rest.len(),
    {
        let ghost r0 = rest@;
        let d = rest.remove(0);
        let ghost pre = all.subrange(0, taken as int + 1);
        assert(pre.drop_last() =~= all.subrange(0, taken as int));
        assert(deferred_view(r0)[0] == all[taken as int]);
        assert(d@ == all[taken as int]);
        assert(rest@ =~= r0.subrange(1, r0.len() as int));
        assert forall|k: int| 0 <= k < rest@.len() implies deferred_view(rest@)[k] == all[taken + 1 + k] by {
            assert(rest@[k] == r0[k + 1]);
            assert(deferred_view(r0)[k + 1] == all.subrange(taken as int, n as int)[k + 1]);
        }
        assert(deferred_view(rest@) =~= all.subrange(taken as int + 1, n as int));
        let ghost ob = out@;
        if deferred_event_survives(model, d.owner.as_str(), current_state, transition_source) {
            out.push(d);
            assert(deferred_view(out@) =~= deferred_view(ob).push(all[taken as int]));
        }
        taken += 1;
    }
    assert(all.subrange(0, n as int) =~= all);
    out
}

} // verus!
