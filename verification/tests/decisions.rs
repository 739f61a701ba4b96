use stateforward_hsm::builder::PartialElement;
use stateforward_hsm::dispatch::{
    active_exit_path, deferred_event_survives, deferred_owner, dispatch_id_matches, dispatch_pattern_matches,
    event_names, is_deferred_in_state, lookup_names, selection_plan, SelectionStep,
};
use stateforward_hsm::dsl::{
    after, defer, initial_with_target, on, on_call, state, state_with_behaviors, target,
    transition,
};
use stateforward_hsm::element::Transition;
use stateforward_hsm::error::HsmError;
use stateforward_hsm::event::Event;
use stateforward_hsm::kind;
use stateforward_hsm::machine::{
    qualify_name, timer_kind_for_transition, timer_transitions_for_state, History, TimerKind,
};
use stateforward_hsm::model::Model;
use stateforward_hsm::model_lifecycle::define;
use stateforward_hsm::route::{
    entry_enter_path, history_enter_path, initial_transition, is_final_state,
    require_started, target_is_history, transition_path, vertex_choices,
};
use stateforward_hsm::runtime::{
    snapshot_details, snapshot_event_kind, snapshot_event_name, surviving_deferred_events,
    take_deferred_event, DeferredEvent,
};

fn simple_machine() -> Model {
    define(
        "SimpleMachine",
        vec![
            initial_with_target(target("idle")),
            state_with_behaviors("idle", vec![transition(vec![on("start"), target("../running")])]),
            state_with_behaviors("running", vec![transition(vec![on("stop"), target("../idle")])]),
        ],
    )
    .unwrap()
}

fn game_machine() -> Model {
    define(
        "GameMachine",
        vec![
            initial_with_target(target("menu")),
            state_with_behaviors("menu", vec![transition(vec![on("start"), target("../game")])]),
            state_with_behaviors(
                "game",
                vec![
                    initial_with_target(target("playing")),
                    state_with_behaviors(
                        "playing",
                        vec![
                            transition(vec![on("pause"), target("../paused")]),
                            transition(vec![on("game_over"), target("../../gameOver")]),
                        ],
                    ),
                    state_with_behaviors("paused", vec![transition(vec![on("resume"), target("../playing")])]),
                    transition(vec![on("quit"), target("../menu")]),
                ],
            ),
            state_with_behaviors("gameOver", vec![transition(vec![on("restart"), target("../menu")])]),
        ],
    )
    .unwrap()
}

fn transition_of<'a>(model: &'a Model, name: &str) -> &'a Transition {
    model.get_transition(name).expect("transition exists")
}

/// The first transition the walk tries, as a runtime without guards takes it.
fn first_candidate(model: &Model, state: &str, event: &Event) -> Option<String> {
    for step in selection_plan(model, state, event) {
        match step {
            SelectionStep::Candidate(name) => return Some(name),
            SelectionStep::Defer => return None,
        }
    }
    None
}

/// Takes `event` in `state` the way a runtime without guards does, and
/// returns the state reached.
fn step(model: &Model, state: &str, event: &Event) -> String {
    let name = first_candidate(model, state, event).expect("a transition applies");
    let t = transition_of(model, &name);
    let path = transition_path(model, state, t).expect("the transition applies here");
    let mut reached = t.target.clone();
    if let Some(last) = path.enter.last() {
        reached = last.clone();
    }
    // Default entry follows initial transitions down.
    while let Some(init) = initial_transition(model, &reached) {
        let it = transition_of(model, &init);
        reached = it.target.clone();
    }
    reached
}

fn start_state(model: &Model) -> String {
    let init = initial_transition(model, &model.state.vertex.element.qualified_name)
        .expect("the machine has an initial transition");
    let mut reached = transition_of(model, &init).target.clone();
    while let Some(next) = initial_transition(model, &reached) {
        reached = transition_of(model, &next).target.clone();
    }
    reached
}

#[test]
fn simple_machine_starts_idle_and_toggles() {
    let model = simple_machine();
    let s0 = start_state(&model);
    assert_eq!(s0, "/SimpleMachine/idle");
    let s1 = step(&model, &s0, &Event::new("start"));
    assert_eq!(s1, "/SimpleMachine/running");
    let s2 = step(&model, &s1, &Event::new("stop"));
    assert_eq!(s2, "/SimpleMachine/idle");
}

#[test]
fn unknown_event_has_an_empty_walk() {
    let model = simple_machine();
    let plan = selection_plan(&model, "/SimpleMachine/idle", &Event::new("nothing"));
    assert!(plan.is_empty());
    assert!(deferred_owner(&model, "/SimpleMachine/idle", &Event::new("nothing")).is_none());
}

#[test]
fn hierarchical_machine_enters_nested_initial_state() {
    let model = game_machine();
    assert_eq!(start_state(&model), "/GameMachine/menu");
    let s1 = step(&model, "/GameMachine/menu", &Event::new("start"));
    assert_eq!(s1, "/GameMachine/game/playing");
    let s2 = step(&model, &s1, &Event::new("pause"));
    assert_eq!(s2, "/GameMachine/game/paused");
    let s3 = step(&model, &s2, &Event::new("resume"));
    assert_eq!(s3, "/GameMachine/game/playing");
    let s4 = step(&model, &s3, &Event::new("game_over"));
    assert_eq!(s4, "/GameMachine/gameOver");
}

#[test]
fn parent_transition_exits_child_first() {
    let model = game_machine();
    let name = first_candidate(&model, "/GameMachine/game/paused", &Event::new("quit"))
        .expect("the parent's transition applies");
    let t = transition_of(&model, &name);
    assert_eq!(t.source, "/GameMachine/game");
    let path = transition_path(&model, "/GameMachine/game/paused", t).unwrap();
    assert_eq!(path.exit, vec!["/GameMachine/game/paused".to_string(), "/GameMachine/game".to_string()]);
    assert_eq!(path.enter, vec!["/GameMachine/menu".to_string()]);
}

#[test]
fn transition_of_unrelated_state_does_not_apply() {
    let model = game_machine();
    let name = first_candidate(&model, "/GameMachine/menu", &Event::new("start")).unwrap();
    let t = transition_of(&model, &name);
    assert!(transition_path(&model, "/GameMachine/gameOver", t).is_none());
}

#[test]
fn self_transition_exits_and_reenters() {
    let model = define(
        "Counter",
        vec![
            initial_with_target(target("counting")),
            state_with_behaviors("counting", vec![transition(vec![on("increment"), target(".")])]),
        ],
    )
    .unwrap();
    let name = first_candidate(&model, "/Counter/counting", &Event::new("increment")).unwrap();
    let t = transition_of(&model, &name);
    assert_eq!(t.target, "/Counter/counting");
    assert!(kind::is_kind(t.element.kind, kind::SELF));
    let path = transition_path(&model, "/Counter/counting", t).unwrap();
    assert_eq!(path.exit, vec!["/Counter/counting".to_string()]);
    assert_eq!(path.enter, vec!["/Counter/counting".to_string()]);
}

#[test]
fn internal_transition_exits_nothing() {
    let model = define(
        "Internal",
        vec![
            initial_with_target(target("active")),
            state_with_behaviors("active", vec![transition(vec![on("internal")])]),
        ],
    )
    .unwrap();
    let name = first_candidate(&model, "/Internal/active", &Event::new("internal")).unwrap();
    let t = transition_of(&model, &name);
    assert!(kind::is_kind(t.element.kind, kind::INTERNAL));
    let path = transition_path(&model, "/Internal/active", t).unwrap();
    assert!(path.exit.is_empty());
    assert!(path.enter.is_empty());
}

#[test]
fn deferred_event_walk_ends_in_defer() {
    let model = define(
        "Deferring",
        vec![
            initial_with_target(target("busy")),
            state_with_behaviors(
                "busy",
                vec![defer(vec!["later"]), transition(vec![on("done"), target("../ready")])],
            ),
            state_with_behaviors("ready", vec![transition(vec![on("later"), target("../busy")])]),
        ],
    )
    .unwrap();
    let later = Event::new("later");
    assert!(is_deferred_in_state(&model, "/Deferring/busy", "later"));
    assert!(!is_deferred_in_state(&model, "/Deferring/ready", "later"));
    let plan = selection_plan(&model, "/Deferring/busy", &later);
    assert!(matches!(plan.last(), Some(SelectionStep::Defer)));
    assert_eq!(deferred_owner(&model, "/Deferring/busy", &later), Some("/Deferring/busy".to_string()));
    assert!(deferred_owner(&model, "/Deferring/ready", &later).is_none());
    let plan = selection_plan(&model, "/Deferring/ready", &later);
    assert!(matches!(plan.first(), Some(SelectionStep::Candidate(_))));
    // A deferred event survives a transition out of an ordinary state.
    assert!(deferred_event_survives(&model, "/Deferring/busy", "/Deferring/ready", "/Deferring/busy"));
}

#[test]
fn lookup_names_add_call_trigger_and_wildcard() {
    let names = lookup_names(&Event::new("go"));
    assert_eq!(names, vec!["go".to_string(), "*".to_string()]);
    let names = lookup_names(&Event::call("op", 1));
    assert_eq!(names, vec!["op".to_string(), "hsm_call:op".to_string(), "*".to_string()]);
    assert_eq!(event_names(&Event::call("op", 1)), vec!["op".to_string(), "hsm_call:op".to_string()]);
    assert_eq!(lookup_names(&Event::new("*")), vec!["*".to_string()]);
}

#[test]
fn call_event_finds_on_call_transition() {
    let model = define(
        "Calls",
        vec![
            initial_with_target(target("idle")),
            state_with_behaviors("idle", vec![transition(vec![on_call("ping"), target("../done")])]),
            state("done"),
        ],
    )
    .unwrap();
    let s = step(&model, "/Calls/idle", &Event::call("/Calls/ping", 1));
    assert_eq!(s, "/Calls/done");
}

#[test]
fn active_exit_path_lists_states_innermost_first() {
    let model = game_machine();
    assert_eq!(
        active_exit_path(&model, "/GameMachine/game/paused"),
        vec!["/GameMachine/game/paused".to_string(), "/GameMachine/game".to_string()]
    );
    assert!(active_exit_path(&model, "/GameMachine").is_empty());
}

#[test]
fn history_is_recorded_per_parent() {
    let model = game_machine();
    let mut history = History::new();
    assert!(history.shallow_of("/GameMachine/game").is_none());
    history.remember(&model, "/GameMachine/game/paused");
    assert_eq!(history.shallow_of("/GameMachine/game"), Some("/GameMachine/game/paused".to_string()));
    assert_eq!(history.deep_of("/GameMachine/game"), Some("/GameMachine/game/paused".to_string()));
    history.remember(&model, "/GameMachine/game/playing");
    assert_eq!(history.shallow_of("/GameMachine/game"), Some("/GameMachine/game/playing".to_string()));
}

#[test]
fn history_enter_path_goes_outermost_first() {
    assert_eq!(
        history_enter_path("/M/a", "/M/a/b/c"),
        vec!["/M/a/b".to_string(), "/M/a/b/c".to_string()]
    );
    assert!(history_enter_path("/M/a", "/M/a").is_empty());
}

#[test]
fn entry_enter_path_redirects_through_the_entry_point() {
    let enter = vec!["/M/sub".to_string(), "/M/sub/ep".to_string()];
    let r = entry_enter_path(&enter, "/M/sub/ep", "/M/sub/inner");
    assert_eq!(r, vec!["/M/sub".to_string(), "/M/sub/inner".to_string()]);
}

#[test]
fn timers_are_found_by_their_constraint() {
    let model = define(
        "Timed",
        vec![
            initial_with_target(target("waiting")),
            state_with_behaviors("waiting", vec![transition(vec![after(7), target("../done")])]),
            state("done"),
        ],
    )
    .unwrap();
    let timers = timer_transitions_for_state(&model, "/Timed/waiting");
    assert_eq!(timers.len(), 1);
    let (name, timer, constraint) = &timers[0];
    assert_eq!(*timer, TimerKind::After);
    assert_eq!(constraint, &format!("{}/after", name));
    let t = transition_of(&model, name);
    assert_eq!(timer_kind_for_transition(&model, t), Some((TimerKind::After, constraint.clone())));
    assert!(timer_transitions_for_state(&model, "/Timed/done").is_empty());
}

#[test]
fn snapshot_reports_current_transitions() {
    let model = simple_machine();
    let (transitions, events) = snapshot_details(&model, "/SimpleMachine/idle");
    assert_eq!(transitions.len(), 1);
    assert_eq!(events.len(), 1);
    assert_eq!(events[0].Name, "start");
    assert_eq!(events[0].Kind, kind::EVENT);
    assert_eq!(events[0].Target, Some("/SimpleMachine/running".to_string()));
    assert!(!events[0].Guard);
    assert_eq!(transitions[0].Source, "/SimpleMachine/idle");
    assert_eq!(transitions[0].Events, vec!["start".to_string()]);
}

#[test]
fn snapshot_event_names_drop_the_call_prefix() {
    assert_eq!(snapshot_event_name("hsm_call:ping"), "ping");
    assert_eq!(snapshot_event_name("plain"), "plain");
    assert_eq!(snapshot_event_kind("hsm_call:ping"), kind::CALL_EVENT);
    assert_eq!(snapshot_event_kind("plain"), kind::EVENT);
}

#[test]
fn deferred_records_are_taken_by_identity() {
    let mut held = vec![
        DeferredEvent { event: Event::new("a"), owner: "/M/x".to_string() },
        DeferredEvent { event: Event::new("b"), owner: "/M/y".to_string() },
        DeferredEvent { event: Event::new("a"), owner: "/M/z".to_string() },
    ];
    let taken = take_deferred_event(&mut held, &Event::new("a")).unwrap();
    assert_eq!(taken.owner, "/M/x");
    assert_eq!(held.len(), 2);
    assert!(take_deferred_event(&mut held, &Event::new("c")).is_none());
    assert_eq!(held.len(), 2);
    let model = simple_machine();
    let kept = surviving_deferred_events(&model, held, "/SimpleMachine/idle", "/SimpleMachine/running");
    assert_eq!(kept.len(), 2);
    assert_eq!(kept[0].owner, "/M/y");
}

#[test]
fn id_patterns_match_with_wildcards() {
    assert!(dispatch_id_matches("machine-1", "machine-1"));
    assert!(!dispatch_id_matches("machine-1", "machine-2"));
    assert!(dispatch_id_matches("machine-*", "machine-2"));
    assert!(dispatch_id_matches("m?chine", "machine"));
    assert!(!dispatch_id_matches("m?chine", "mchine"));
    assert!(dispatch_pattern_matches(&b"*".to_vec(), &b"anything".to_vec()));
    assert!(dispatch_pattern_matches(&b"*".to_vec(), &Vec::new()));
    assert!(!dispatch_pattern_matches(&b"abc".to_vec(), &b"abd".to_vec()));
}

#[test]
fn names_are_qualified_against_the_machine() {
    let model = simple_machine();
    assert_eq!(qualify_name(&model, "count"), "/SimpleMachine/count");
    assert_eq!(qualify_name(&model, "/Other/count"), "/Other/count");
}

#[test]
fn final_and_history_vertices_are_recognized() {
    let model = define(
        "Ends",
        vec![
            initial_with_target(target("a")),
            state_with_behaviors("a", vec![transition(vec![on("end"), target("../done")])]),
            stateforward_hsm::dsl::final_state("done"),
        ],
    )
    .unwrap();
    assert!(is_final_state(&model, "/Ends/done"));
    let queued = stateforward_hsm::route::final_event_after(&model, "/Ends/a", "/Ends/done").unwrap();
    assert_eq!(queued.name, "hsm/final");
    assert!(stateforward_hsm::route::final_event_after(&model, "/Ends/done", "/Ends/done").is_none());
    assert!(stateforward_hsm::route::final_event_after(&model, "/Ends/done", "/Ends/a").is_none());
    assert!(!is_final_state(&model, "/Ends/a"));
    assert!(!target_is_history(&model, "/Ends/a"));
    assert!(vertex_choices(&model, "/Ends/missing", true).is_empty());
}

#[test]
fn dispatch_before_start_is_refused() {
    let model = simple_machine();
    match require_started(&model, "/SimpleMachine", false, "dispatch") {
        Err(HsmError::Runtime(msg)) => assert_eq!(msg, "dispatch requires a started HSM"),
        other => panic!("unexpected {:?}", other),
    }
    assert!(require_started(&model, "/SimpleMachine", true, "dispatch").is_ok());
    assert!(require_started(&model, "/SimpleMachine/idle", false, "dispatch").is_ok());
}

#[test]
fn child_transition_is_tried_before_parent_transition() {
    let model = define(
        "Priority",
        vec![
            initial_with_target(target("parent")),
            state_with_behaviors(
                "parent",
                vec![
                    initial_with_target(target("child")),
                    state_with_behaviors("child", vec![transition(vec![on("go"), target("../sibling")])]),
                    state("sibling"),
                    transition(vec![on("go"), target("../elsewhere")]),
                ],
            ),
            state("elsewhere"),
        ],
    )
    .unwrap();
    let plan = selection_plan(&model, "/Priority/parent/child", &Event::new("go"));
    let names: Vec<String> = plan
        .iter()
        .filter_map(|step| match step {
            SelectionStep::Candidate(name) => Some(name.clone()),
            SelectionStep::Defer => None,
        })
        .collect();
    assert_eq!(names.len(), 2);
    assert_eq!(transition_of(&model, &names[0]).source, "/Priority/parent/child");
    assert_eq!(transition_of(&model, &names[1]).source, "/Priority/parent");
    assert_eq!(step(&model, "/Priority/parent/child", &Event::new("go")), "/Priority/parent/sibling");
}

#[test]
fn wildcard_transition_catches_any_event() {
    let model = define(
        "Wild",
        vec![
            initial_with_target(target("a")),
            state_with_behaviors("a", vec![transition(vec![on("*"), target("../b")])]),
            state("b"),
        ],
    )
    .unwrap();
    assert_eq!(step(&model, "/Wild/a", &Event::new("anything")), "/Wild/b");
}

#[test]
fn define_without_deferrals_succeeds() {
    let model = define(
        "Plain",
        vec![initial_with_target(target("a")), state_with_behaviors("a", vec![transition(vec![on("x"), target(".")])])],
    );
    assert!(model.is_ok());
}

#[test]
fn choice_branches_are_tried_in_order() {
    let model = define(
        "DecisionMachine",
        vec![
            initial_with_target(target("input")),
            state_with_behaviors("input", vec![transition(vec![on("process"), target("../decision")])]),
            stateforward_hsm::dsl::choice_with_transitions(
                "decision",
                vec![
                    transition(vec![stateforward_hsm::dsl::guard(1), target("../high")]),
                    transition(vec![stateforward_hsm::dsl::guard(2), target("../medium")]),
                    transition(vec![target("../low")]),
                ],
            ),
            state("high"),
            state("medium"),
            state("low"),
        ],
    )
    .unwrap();
    let choices = vertex_choices(&model, "/DecisionMachine/decision", false);
    assert_eq!(choices.len(), 3);
    let targets: Vec<String> = choices.iter().map(|n| transition_of(&model, n).target.clone()).collect();
    assert_eq!(
        targets,
        vec![
            "/DecisionMachine/high".to_string(),
            "/DecisionMachine/medium".to_string(),
            "/DecisionMachine/low".to_string()
        ]
    );
    let name = first_candidate(&model, "/DecisionMachine/input", &Event::new("process")).unwrap();
    let path = transition_path(&model, "/DecisionMachine/input", transition_of(&model, &name)).unwrap();
    assert_eq!(path.enter, vec!["/DecisionMachine/decision".to_string()]);
}

#[test]
fn transition_applied_inside_a_state_is_listed_on_it() {
    let mut m = Model::new("/M".to_string());
    let mut stack = vec!["/M".to_string()];
    state("a").apply(&mut m, &mut stack).unwrap();
    let mut stack = vec!["/M".to_string(), "/M/a".to_string()];
    transition(vec![on("go"), target("../b")]).apply(&mut m, &mut stack).unwrap();
    assert_eq!(stack, vec!["/M".to_string(), "/M/a".to_string()]);
    let t = m.get_transition("/M/a/transition_2").unwrap();
    assert_eq!(t.source, "/M/a");
    assert_eq!(t.target, "/M/b");
    assert_eq!(t.events, vec!["go".to_string()]);
    assert_eq!(t.guard, "");
    assert_eq!(m.get_state("/M/a").unwrap().vertex.transitions, vec!["/M/a/transition_2".to_string()]);
}

#[test]
fn choice_targets_name_siblings_of_the_choice() {
    let model = define(
        "DecisionMachine",
        vec![
            initial_with_target(target("input")),
            state_with_behaviors("input", vec![transition(vec![on("process"), target("../decision")])]),
            stateforward_hsm::dsl::choice_with_transitions(
                "decision",
                vec![
                    transition(vec![stateforward_hsm::dsl::guard(1), target("../high")]),
                    transition(vec![target("../low")]),
                ],
            ),
            state("high"),
            state("low"),
        ],
    )
    .unwrap();
    assert!(stateforward_hsm::model_validation::validate(&model).is_ok());
}

#[test]
fn call_event_carries_its_call_data_handle() {
    let e = Event::call("op", 7);
    assert_eq!(e.kind, kind::CALL_EVENT);
    assert_eq!(e.name, "op");
    assert_eq!(e.qualified_name, "op");
    assert_eq!(e.get_data(), Some(7));
}
