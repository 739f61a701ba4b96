//! The event queue: completion events go first, most recent first; other
//! events wait their turn in order.

use std::collections::VecDeque;

use vstd::prelude::*;

use crate::event::{Event, EventView};
use crate::kind::{self, spec_is_kind};

verus! {

/// Whether an event is a completion event.
pub open spec fn is_completion(e: EventView) -> bool {
    spec_is_kind(e.kind, kind::COMPLETION_EVENT)
}

/// The events waiting in a queue.
#[verifier::ext_equal]
pub struct QueueView {
    /// Completion events, oldest first (the last one is taken first).
    pub completion: Seq<EventView>,
    /// Other events, in the order they are taken.
    pub regular: Seq<EventView>,
}

pub open spec fn events_view(s: Seq<Event>) -> Seq<EventView> {
    s.map_values(|e: Event| e@)
}

/// The events of a queue, completion events before the others.
pub struct EventQueue {
    completion_events: VecDeque<Event>,
    regular_events: VecDeque<Event>,
}

impl View for EventQueue {
    type V = QueueView;

    closed spec fn view(&self) -> QueueView {
        QueueView { completion: events_view(self.completion_events@), regular: events_view(self.regular_events@) }
    }
}

/// The completion events of `events`, in reverse order.
pub open spec fn completions_reversed(events: Seq<EventView>) -> Seq<EventView>
    decreases events.len(),
{
    if events.len() == 0 {
        seq![]
    } else {
        (if is_completion(events.last()) {
            seq![events.last()]
        } else {
            seq![]
        }) + completions_reversed(events.drop_last())
    }
}

/// The events of `events` that are not completion events, in order.
pub open spec fn regular_only(events: Seq<EventView>) -> Seq<EventView>
    decreases events.len(),
{
    if events.len() == 0 {
        seq![]
    } else {
        regular_only(events.drop_last()) + (if is_completion(events.last()) {
            seq![]
        } else {
            seq![events.last()]
        })
    }
}

/// The queue after adding `e`: a completion event joins the completion
/// events, any other event goes to the back of the others.
pub open spec fn spec_push(q: QueueView, e: EventView) -> QueueView {
    if is_completion(e) {
        QueueView { completion: q.completion.push(e), regular: q.regular }
    } else {
        QueueView { completion: q.completion, regular: q.regular.push(e) }
    }
}

/// The event taken next and the queue after it: the most recent completion
/// event, else the oldest other event, else nothing.
pub open spec fn spec_pop(q: QueueView) -> (Option<EventView>, QueueView) {
    if q.completion.len() > 0 {
        (Some(q.completion.last()), QueueView { completion: q.completion.drop_last(), regular: q.regular })
    } else if q.regular.len() > 0 {
        (Some(q.regular[0]), QueueView { completion: q.completion, regular: q.regular.drop_first() })
    } else {
        (None, q)
    }
}

pub open spec fn opt_event_view(e: Option<Event>) -> Option<EventView> {
    match e {
        Some(x) => Some(x@),
        None => None,
    }
}

/// An event added to an empty queue is the next one taken, and the queue is
/// empty again.
pub proof fn law_push_then_pop_empty(e: EventView)
    ensures
        spec_pop(spec_push(QueueView { completion: seq![], regular: seq![] }, e)) == (
            Some(e),
            QueueView { completion: seq![], regular: seq![] },
        ),
{
    let q = spec_push(QueueView { completion: seq![], regular: seq![] }, e);
    if is_completion(e) {
        assert(q.completion.drop_last() =~= seq![]);
    } else {
        assert(q.regular.drop_first() =~= seq![]);
    }
}

/// A completion event is taken before anything already waiting, and taking
/// it gives back the queue as it was.
pub proof fn law_completion_taken_first(q: QueueView, e: EventView)
    requires
        is_completion(e),
    ensures
        spec_pop(spec_push(q, e)) == (Some(e), q),
{
    assert(spec_push(q, e).completion.drop_last() =~= q.completion);
}

/// Other events are taken in the order they came: with no completion event
/// waiting, adding one does not change which event is taken next, unless
/// nothing was waiting.
pub proof fn law_regular_events_in_order(q: QueueView, e: EventView)
    requires
        !is_completion(e),
        q.completion.len() == 0,
        q.regular.len() > 0,
    ensures
        spec_pop(spec_push(q, e)).0 == spec_pop(q).0,
        spec_pop(spec_push(q, e)).1 == spec_push(spec_pop(q).1, e),
{
    assert(q.regular.push(e).drop_first() =~= q.regular.drop_first().push(e));
}

/// The queue after adding `es` in order.
pub open spec fn push_all(q: QueueView, es: Seq<EventView>) -> QueueView
    decreases es.len(),
{
    if es.len() == 0 {
        q
    } else {
        spec_push(push_all(q, es.drop_last()), es.last())
    }
}

/// The events taken by `n` takes from `q`, in order (fewer when it empties).
pub open spec fn pop_all(q: QueueView, n: nat) -> Seq<EventView>
    decreases n,
{
    if n == 0 {
        seq![]
    } else {
        match spec_pop(q).0 {
            Some(e) => seq![e] + pop_all(spec_pop(q).1, (n - 1) as nat),
            None => seq![],
        }
    }
}

/// The queue after `n` takes from `q`.
pub open spec fn after_pops(q: QueueView, n: nat) -> QueueView
    decreases n,
{
    if n == 0 {
        q
    } else {
        after_pops(spec_pop(q).1, (n - 1) as nat)
    }
}

proof fn lemma_push_all_regular(es: Seq<EventView>)
    requires
        forall|i: int| 0 <= i < es.len() ==> !is_completion(#[trigger] es[i]),
    ensures
        push_all(QueueView { completion: seq![], regular: seq![] }, es) == (QueueView { completion: seq![], regular: es }),
    decreases es.len(),
{
    if es.len() > 0 {
        let d = es.drop_last();
        assert forall|i: int| 0 <= i < d.len() implies !is_completion(#[trigger] d[i]) by {
            assert(d[i] == es[i]);
        }
        lemma_push_all_regular(d);
        assert(!is_completion(es[es.len() - 1]));
        assert(d.push(es.last()) =~= es);
    }
}

proof fn lemma_pop_all_regular(reg: Seq<EventView>)
    ensures
        pop_all(QueueView { completion: seq![], regular: reg }, reg.len()) == reg,
        after_pops(QueueView { completion: seq![], regular: reg }, reg.len()) == (QueueView { completion: seq![], regular: seq![] }),
    decreases reg.len(),
{
    let q = QueueView { completion: seq![], regular: reg };
    if reg.len() == 0 {
        assert(q =~= QueueView { completion: seq![], regular: seq![] });
    } else {
        lemma_pop_all_regular(reg.drop_first());
        assert(spec_pop(q).1 == QueueView { completion: seq![], regular: reg.drop_first() });
        assert(seq![reg[0]] + reg.drop_first() =~= reg);
    }
}

/// Events other than completion events added one after another to an empty
/// queue are taken in the same order, one per take, after which the queue
/// is empty and the next take gives nothing.
pub proof fn law_fifo(es: Seq<EventView>)
    requires
        forall|i: int| 0 <= i < es.len() ==> !is_completion(#[trigger] es[i]),
    ensures
        pop_all(push_all(QueueView { completion: seq![], regular: seq![] }, es), es.len()) == es,
        after_pops(push_all(QueueView { completion: seq![], regular: seq![] }, es), es.len()) == (QueueView { completion: seq![], regular: seq![] }),
        spec_pop(after_pops(push_all(QueueView { completion: seq![], regular: seq![] }, es), es.len())).0 is None,
{
    lemma_push_all_regular(es);
    lemma_pop_all_regular(es);
}

/// With a queue of the caller's own, an event goes there unless it is a
/// completion event, which the machine keeps in its own queue.
pub fn goes_to_custom_queue(has_custom: bool, event: &Event) -> (r: bool)
    ensures
        r == (has_custom && !is_completion(event@)),
{
    has_custom && !kind::is_kind(event.kind, kind::COMPLETION_EVENT)
}

impl EventQueue {
    /// An empty queue.
    pub fn new() -> (r: EventQueue)
        ensures
            r@.completion.len() == 0,
            r@.regular.len() == 0,
    {
        let r = EventQueue { completion_events: VecDeque::new(), regular_events: VecDeque::new() };
        assert(r@.completion =~= seq![]);
        assert(r@.regular =~= seq![]);
        r
    }

    /// Adds an event: a completion event to the completion events, any
    /// other to the back of the others.
    pub fn push(&mut self, event: Event)
        ensures
            final(self)@ == spec_push(old(self)@, event@),
    {
        let ghost ev = event@;
        if kind::is_kind(event.kind, kind::COMPLETION_EVENT) {
            self.completion_events.push_back(event);
            assert(self@.completion =~= old(self)@.completion.push(ev));
        } else {
            self.regular_events.push_back(event);
            assert(self@.regular =~= old(self)@.regular.push(ev));
        }
    }

    /// Puts events back in front of the others, keeping their order;
    /// completion events among them join the completion events, the last one
    /// first.
    pub fn prepend_regular(&mut self, events: Vec<Event>)
        ensures
            final(self)@.regular == regular_only(events_view(events@)) + old(self)@.regular,
            final(self)@.completion == old(self)@.completion + completions_reversed(events_view(events@)),
    {
        let ghost all = events_view(events@);
        let mut rest = events;
        proof {
            assert(all.take(rest@.len() as int) =~= all);
            assert(old(self)@.completion + seq![] =~= old(self)@.completion);
            assert(regular_only(all.take(rest@.len() as int)) + old(self)@.regular == regular_only(all) + old(self)@.regular);
        }
        let ghost done_regular: Seq<EventView> = old(self)@.regular;
        while rest.len() > 0
            invariant
                all == events_view(events@),
                rest@.len() <= all.len(),
                events_view(rest@) == all.take(rest@.len() as int),
                self@.regular == regular_only(all.subrange(rest@.len() as int, all.len() as int)) + old(self)@.regular,
                self@.completion == old(self)@.completion + completions_reversed(all.subrange(rest@.len() as int, all.len() as int)),
            decreases rest@.len(),
        {
            let ghost k = rest@.len();
            let ghost old_rest = rest@;
            let event = rest.pop().unwrap();
            let ghost ev = event@;
            let ghost before = self@;
            proof {
                assert(rest@ == old_rest.drop_last());
                assert(event == old_rest.last());
                assert(events_view(old_rest)[k - 1] == ev);
                assert(events_view(rest@) =~= all.take(k - 1));
                assert(all[k - 1] == ev);
                let tail = all.subrange(k - 1, all.len() as int);
                let tail2 = all.subrange(k as int, all.len() as int);
                lemma_split_first(tail, tail2, ev);
            }
            if kind::is_kind(event.kind, kind::COMPLETION_EVENT) {
                self.completion_events.push_back(event);
                proof {
                    assert(self@.completion =~= before.completion.push(ev));
                    assert(self@.regular == before.regular);
                }
            } else {
                self.regular_events.push_front(event);
                proof {
                    assert(self@.regular =~= seq![ev] + before.regular);
                    assert(self@.completion == before.completion);
                }
            }
            proof {
                let tail = all.subrange(k - 1, all.len() as int);
                let tail2 = all.subrange(k as int, all.len() as int);
                if is_completion(ev) {
                    assert(self@.completion =~= old(self)@.completion + completions_reversed(tail));
                } else {
                    assert(self@.regular =~= regular_only(tail) + old(self)@.regular);
                }
            }
        }
        proof {
            assert(all.subrange(0, all.len() as int) =~= all);
        }
    }

    /// Takes the next event: the most recent completion event if there is
    /// one, else the oldest other event.
    pub fn pop(&mut self) -> (r: Option<Event>)
        ensures
            (opt_event_view(r), final(self)@) == spec_pop(old(self)@),
    {
        if self.completion_events.len() > 0 {
            let e = self.completion_events.pop_back();
            assert(self@.completion =~= old(self)@.completion.drop_last());
            return e;
        }
        if self.regular_events.len() > 0 {
            let e = self.regular_events.pop_front();
            assert(self@.regular =~= old(self)@.regular.drop_first());
            return e;
        }
        None
    }

    /// The number of waiting events.
    pub fn len(&self) -> (r: usize)
        requires
            self@.completion.len() + self@.regular.len() <= usize::MAX,
        ensures
            r == self@.completion.len() + self@.regular.len(),
    {
        self.completion_events.len() + self.regular_events.len()
    }

    /// Drops every waiting event.
    pub fn clear(&mut self)
        ensures
            final(self)@.completion.len() == 0,
            final(self)@.regular.len() == 0,
    {
        self.completion_events.clear();
        self.regular_events.clear();
        assert(self@.completion =~= seq![]);
        assert(self@.regular =~= seq![]);
    }

    /// Whether no event waits.
    pub fn is_empty(&self) -> (r: bool)
        ensures
            r == (self@.completion.len() == 0 && self@.regular.len() == 0),
    {
        self.completion_events.len() == 0 && self.regular_events.len() == 0
    }
}

proof fn lemma_split_first(tail: Seq<EventView>, tail2: Seq<EventView>, ev: EventView)
    requires
        tail.len() == tail2.len() + 1,
        tail[0] == ev,
        forall|i: int| 0 <= i < tail2.len() ==> tail[i + 1] == tail2[i],
    ensures
        regular_only(tail) == (if is_completion(ev) { seq![] } else { seq![ev] }) + regular_only(tail2),
        completions_reversed(tail) == completions_reversed(tail2) + (if is_completion(ev) { seq![ev] } else { seq![] }),
    decreases tail.len(),
{
    if tail2.len() == 0 {
        assert(tail.drop_last() =~= seq![]);
        assert(regular_only(tail2) =~= seq![]);
        assert(completions_reversed(tail2) =~= seq![]);
        assert(tail.last() == ev);
        assert(regular_only(tail.drop_last()) =~= seq![]);
        assert(completions_reversed(tail.drop_last()) =~= seq![]);
    } else {
        lemma_split_first(tail.drop_last(), tail2.drop_last(), ev);
        assert(tail.last() == tail2.last()) by {
            assert(tail[tail2.len() as int] == tail2[tail2.len() - 1]);
        }
    }
}

} // verus!
