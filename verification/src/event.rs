//! Events dispatched to a state machine.

use vstd::prelude::*;

use crate::kind::{self, KindValue};
use crate::text;

verus! {

pub const ANY_EVENT_NAME: &'static str = "*";

pub const OBSERVATION_EVENT_NAME: &'static str = "hsm/observation";

#[allow(non_upper_case_globals)]
pub const AnyEvent: &'static str = ANY_EVENT_NAME;

/// An event: its kind, its names, and the handle of the payload the runtime
/// keeps for it, if any.
#[derive(Debug)]
pub struct Event {
    pub kind: KindValue,
    pub qualified_name: String,
    pub name: String,
    pub data: Option<u64>,
}

#[verifier::ext_equal]
pub struct EventView {
    pub kind: KindValue,
    pub qualified_name: Seq<char>,
    pub name: Seq<char>,
    pub data: Option<u64>,
}

impl View for Event {
    type V = EventView;

    open spec fn view(&self) -> EventView {
        EventView { kind: self.kind, qualified_name: self.qualified_name@, name: self.name@, data: self.data }
    }
}

/// An event of the given kind whose qualified name and name are both `name`,
/// with no payload.
pub open spec fn named_event(kind: KindValue, name: Seq<char>) -> EventView {
    EventView { kind, qualified_name: name, name, data: None }
}

pub open spec fn call_trigger_view(name: Seq<char>) -> Seq<char> {
    seq!['h', 's', 'm', '_', 'c', 'a', 'l', 'l', ':'] + name
}

impl Clone for Event {
    fn clone(&self) -> (r: Self)
        ensures
            r@ == self@,
            r.data == self.data,
    {
        Event {
            kind: self.kind,
            qualified_name: self.qualified_name.clone(),
            name: self.name.clone(),
            data: self.data,
        }
    }
}

impl Event {
    /// A plain event named `name`.
    pub fn new(name: &str) -> (r: Event)
        ensures
            r@ == named_event(kind::EVENT, name@),
    {
        Event { kind: kind::EVENT, qualified_name: text::owned(name), name: text::owned(name), data: None }
    }

    /// A completion event named `name`.
    pub fn completion(name: &str) -> (r: Event)
        ensures
            r@ == named_event(kind::COMPLETION_EVENT, name@),
    {
        Event {
            kind: kind::COMPLETION_EVENT,
            qualified_name: text::owned(name),
            name: text::owned(name),
            data: None,
        }
    }

    /// A timer event named `name`.
    pub fn time_event(name: &str) -> (r: Event)
        ensures
            r@ == named_event(kind::TIME_EVENT, name@),
    {
        Event { kind: kind::TIME_EVENT, qualified_name: text::owned(name), name: text::owned(name), data: None }
    }

    /// The event of a call of operation `name`, whose call data (the
    /// operation's name and its arguments, none when it takes none) the
    /// runtime keeps under the handle `call_data`.
    pub fn call(name: &str, call_data: u64) -> (r: Event)
        ensures
            r@ == (EventView { data: Some(call_data), ..named_event(kind::CALL_EVENT, name@) }),
    {
        Event::call_with_args(name, call_data)
    }

    /// The event of a call of operation `name` whose arguments the runtime
    /// keeps under the handle `args`.
    pub fn call_with_args(name: &str, args: u64) -> (r: Event)
        ensures
            r@ == (EventView { data: Some(args), ..named_event(kind::CALL_EVENT, name@) }),
    {
        Event {
            kind: kind::CALL_EVENT,
            qualified_name: text::owned(name),
            name: call_event_name(name),
            data: Some(args),
        }
    }

    /// The same event with the payload kept under the handle `value`.
    pub fn with_data(self, value: u64) -> (r: Event)
        ensures
            r@ == (EventView { data: Some(value), ..self@ }),
    {
        Event { kind: self.kind, qualified_name: self.qualified_name, name: self.name, data: Some(value) }
    }

    /// The handle of the event's payload, if it has one.
    pub fn get_data(&self) -> (r: Option<u64>)
        ensures
            r == self.data,
    {
        self.data
    }

    /// The runtime's error event.
    pub fn error_event() -> (r: Event)
        ensures
            r@ == named_event(kind::ERROR_EVENT, seq!['h', 's', 'm', '/', 'e', 'r', 'r', 'o', 'r']),
    {
        proof {
            reveal_strlit("hsm/error");
        }
        let r = Event {
            kind: kind::ERROR_EVENT,
            qualified_name: text::owned("hsm/error"),
            name: text::owned("hsm/error"),
            data: None,
        };
        assert(r.name@ =~= seq!['h', 's', 'm', '/', 'e', 'r', 'r', 'o', 'r']);
        r
    }

    /// The event telling an observer that `observed` occurred, whose
    /// observation data (the observed event, the occurrence and its time) the
    /// runtime keeps under the handle `observation_data`.
    pub fn observation(_source: &str, _occurrence: &str, _observed: Event, observation_data: u64) -> (r: Event)
        ensures
            r@ == (EventView { data: Some(observation_data), ..named_event(kind::EVENT, OBSERVATION_EVENT_NAME@) }),
    {
        Event {
            kind: kind::EVENT,
            qualified_name: text::owned(OBSERVATION_EVENT_NAME),
            name: text::owned(OBSERVATION_EVENT_NAME),
            data: Some(observation_data),
        }
    }
}

/// The name under which a call event is dispatched.
pub fn call_event_name(name: &str) -> (r: String)
    ensures
        r@ == name@,
{
    text::owned(name)
}

/// The trigger name of a call of operation `name`.
pub fn call_trigger_name(name: &str) -> (r: String)
    ensures
        r@ == call_trigger_view(name@),
{
    proof {
        reveal_strlit("hsm_call:");
    }
    let r = text::concat("hsm_call:", name);
    assert(r@ =~= call_trigger_view(name@));
    r
}

pub open spec fn initial_event_name() -> Seq<char> {
    seq!['h', 's', 'm', '/', 'i', 'n', 'i', 't', 'i', 'a', 'l']
}

pub open spec fn final_event_name() -> Seq<char> {
    seq!['h', 's', 'm', '/', 'f', 'i', 'n', 'a', 'l']
}

/// The completion event that starts a machine.
pub fn initial_event() -> (r: Event)
    ensures
        r@ == named_event(kind::COMPLETION_EVENT, initial_event_name()),
{
    proof {
        reveal_strlit("hsm/initial");
        assert("hsm/initial"@ =~= initial_event_name());
    }
    Event::completion("hsm/initial")
}

/// The completion event raised when a final state is reached.
pub fn final_event() -> (r: Event)
    ensures
        r@ == named_event(kind::COMPLETION_EVENT, final_event_name()),
{
    proof {
        reveal_strlit("hsm/final");
        assert("hsm/final"@ =~= final_event_name());
    }
    Event::completion("hsm/final")
}

/// The event whose name matches any transition trigger.
pub fn any_event() -> (r: Event)
    ensures
        r@ == named_event(kind::EVENT, ANY_EVENT_NAME@),
{
    Event::new(ANY_EVENT_NAME)
}

/// See [`Event::observation`].
pub fn observation_event(source: &str, occurrence: &str, observed: Event, observation_data: u64) -> (r: Event)
    ensures
        r@ == (EventView { data: Some(observation_data), ..named_event(kind::EVENT, OBSERVATION_EVENT_NAME@) }),
{
    Event::observation(source, occurrence, observed, observation_data)
}

#[allow(non_snake_case)]
pub fn InitialEvent() -> (r: Event)
    ensures
        r@ == named_event(kind::COMPLETION_EVENT, initial_event_name()),
{
    initial_event()
}

#[allow(non_snake_case)]
pub fn FinalEvent() -> (r: Event)
    ensures
        r@ == named_event(kind::COMPLETION_EVENT, final_event_name()),
{
    final_event()
}

#[allow(non_snake_case)]
pub fn ErrorEvent() -> (r: Event)
    ensures
        r@ == named_event(kind::ERROR_EVENT, seq!['h', 's', 'm', '/', 'e', 'r', 'r', 'o', 'r']),
{
    Event::error_event()
}

#[allow(non_snake_case)]
pub fn CompletionEvent(name: &str) -> (r: Event)
    ensures
        r@ == named_event(kind::COMPLETION_EVENT, name@),
{
    Event::completion(name)
}

#[allow(non_snake_case)]
pub fn ObservationEvent(source: &str, occurrence: &str, observed: Event, observation_data: u64) -> (r: Event)
    ensures
        r@ == (EventView { data: Some(observation_data), ..named_event(kind::EVENT, OBSERVATION_EVENT_NAME@) }),
{
    observation_event(source, occurrence, observed, observation_data)
}

/// Values that name an event.
pub trait IntoEventName {
    spec fn spec_event_name(&self) -> Seq<char>;

    fn into_event_name(self) -> (r: String)
        ensures
            r@ == self.spec_event_name(),
    ;
}

impl IntoEventName for &str {
    open spec fn spec_event_name(&self) -> Seq<char> {
        (*self)@
    }

    fn into_event_name(self) -> String {
        text::owned(self)
    }
}

impl IntoEventName for String {
    open spec fn spec_event_name(&self) -> Seq<char> {
        self@
    }

    fn into_event_name(self) -> String {
        self
    }
}

impl IntoEventName for &String {
    open spec fn spec_event_name(&self) -> Seq<char> {
        (*self)@
    }

    fn into_event_name(self) -> String {
        self.clone()
    }
}

impl IntoEventName for Event {
    open spec fn spec_event_name(&self) -> Seq<char> {
        self.name@
    }

    fn into_event_name(self) -> String {
        self.name
    }
}

impl IntoEventName for &Event {
    open spec fn spec_event_name(&self) -> Seq<char> {
        (*self).name@
    }

    fn into_event_name(self) -> String {
        self.name.clone()
    }
}

} // verus!
