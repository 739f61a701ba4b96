use stateforward_hsm::dsl::{
    choice_with_transitions, defer, guard, initial_with_target, on, state, state_with_behaviors,
    target, transition,
};
use stateforward_hsm::error::HsmError;
use stateforward_hsm::event::Event;
use stateforward_hsm::kind::{self, is_kind, make_kind_impl};
use stateforward_hsm::model::Model;
use stateforward_hsm::model_lifecycle::define;
use stateforward_hsm::model_validation::validate;
use stateforward_hsm::path::{basename, dirname, is_ancestor_or_equal, join, lca};
use stateforward_hsm::queue::EventQueue;

#[test]
fn test_parent_resolution() {
    let child2 = "/AncestorActiveMachine/parent1/child2";
    let parent = dirname(child2);
    println!("child2: {}", child2);
    println!("parent (..): {}", parent);
    println!("lca({}, {}): {}", child2, parent, lca(child2, parent));

    // Test calculate_path_static behavior
    let source = child2;
    let target = parent;
    let common_ancestor = lca(source, target);

    println!("\nTransition from {} to {}", source, target);
    println!("LCA: {}", common_ancestor);

    // Exit path
    let mut exit = Vec::new();
    let mut current = source.to_string();
    while current != common_ancestor && !current.is_empty() {
        println!("Exit: {}", current);
        exit.push(current.clone());
        current = dirname(&current).to_string();
    }

    // Enter path
    let mut path_to_target = Vec::new();
    let mut current = target.to_string();
    while current != common_ancestor && !current.is_empty() {
        println!("Will enter: {}", current);
        path_to_target.push(current.clone());
        current = dirname(&current).to_string();
    }
    path_to_target.reverse();
    let enter = path_to_target;

    println!("\nFinal exit path: {:?}", exit);
    println!("Final enter path: {:?}", enter);
}

#[test]
fn path_functions_on_concrete_names() {
    assert_eq!(dirname("/AncestorActiveMachine/parent1/child2"), "/AncestorActiveMachine/parent1");
    assert_eq!(dirname("/M"), "");
    assert_eq!(dirname("/"), "");
    assert_eq!(basename("/M/a/b"), "b");
    assert_eq!(join("/M", "a"), "/M/a");
    assert_eq!(join("/M", "/N/a"), "/N/a");
    assert_eq!(join("/", "M"), "/M");
    assert_eq!(join("", "a"), "a");
    assert!(is_ancestor_or_equal("/M/a", "/M/a/b"));
    assert!(is_ancestor_or_equal("/M/a", "/M/a"));
    assert!(!is_ancestor_or_equal("/M/a", "/M/ab"));
    assert!(is_ancestor_or_equal("/", "/M"));
    assert_eq!(lca("/M/a/b", "/M/a/c"), "/M/a");
    assert_eq!(lca("/M/a/b", "/M/a"), "/M/a");
    assert_eq!(lca("/M/a", "/M/a"), "/M");
}

#[test]
fn path_laws_on_examples() {
    // basename of a join is the joined name; dirname gives the base back.
    assert_eq!(basename(&join("/M/a", "child")), "child");
    assert_eq!(dirname(&join("/M/a", "child")), "/M/a");
    assert!(is_ancestor_or_equal("/M/a", &join("/M/a", "child")));
    assert_eq!(lca("/M/x/y", "/M/z"), lca("/M/z", "/M/x/y"));
}

#[test]
fn kind_hierarchy_from_the_docs() {
    assert!(is_kind(kind::CHOICE, kind::PSEUDOSTATE));
    assert!(is_kind(kind::EXTERNAL, kind::TRANSITION));
    assert!(is_kind(kind::FINAL_STATE, kind::STATE));
    assert!(is_kind(kind::INITIAL, kind::VERTEX));
    assert!(is_kind(kind::ERROR_EVENT, kind::COMPLETION_EVENT));
    assert!(is_kind(kind::TIME_EVENT, kind::EVENT));
    assert!(is_kind(kind::STATE, kind::ELEMENT));
    assert!(!is_kind(kind::STATE, kind::STATE_MACHINE));
    assert!(!is_kind(kind::TRANSITION, kind::VERTEX));
    assert!(!is_kind(kind::EVENT, kind::TRANSITION));
}

#[test]
fn custom_kinds_derive_from_their_bases() {
    let custom = make_kind_impl(30, [kind::ELEMENT]);
    assert!(is_kind(custom, kind::ELEMENT));
    assert!(is_kind(custom, custom));
    assert!(!is_kind(custom, kind::STATE));
    let sub = make_kind_impl(31, [custom]);
    assert!(is_kind(sub, custom));
    assert!(is_kind(sub, kind::ELEMENT));
    assert!(!is_kind(custom, sub));
}

#[test]
fn queue_takes_completion_events_first_most_recent_first() {
    let mut q = EventQueue::new();
    assert!(q.is_empty());
    q.push(Event::new("a"));
    q.push(Event::new("b"));
    q.push(Event::completion("c1"));
    q.push(Event::completion("c2"));
    assert_eq!(q.len(), 4);
    assert_eq!(q.pop().unwrap().name, "c2");
    assert_eq!(q.pop().unwrap().name, "c1");
    assert_eq!(q.pop().unwrap().name, "a");
    assert_eq!(q.pop().unwrap().name, "b");
    assert!(q.pop().is_none());
}

#[test]
fn queue_push_then_pop_on_empty_gives_the_event_back() {
    let mut q = EventQueue::new();
    q.push(Event::new("only"));
    assert_eq!(q.pop().unwrap().name, "only");
    assert!(q.is_empty());
}

#[test]
fn queue_prepend_puts_events_back_in_front() {
    let mut q = EventQueue::new();
    q.push(Event::new("later"));
    q.prepend_regular(vec![Event::new("first"), Event::new("second")]);
    assert_eq!(q.pop().unwrap().name, "first");
    assert_eq!(q.pop().unwrap().name, "second");
    assert_eq!(q.pop().unwrap().name, "later");
    q.push(Event::new("x"));
    q.clear();
    assert!(q.is_empty());
}

fn decision_machine(with_fallback: bool) -> Result<Model, HsmError> {
    let mut branches = vec![
        transition(vec![guard(1), target("../high")]),
        transition(vec![guard(2), target("../medium")]),
    ];
    if with_fallback {
        branches.push(transition(vec![target("../low")]));
    }
    define(
        "DecisionMachine",
        vec![
            initial_with_target(target("input")),
            state_with_behaviors("input", vec![transition(vec![on("process"), target("../decision")])]),
            choice_with_transitions("decision", branches),
            state("high"),
            state("medium"),
            state("low"),
        ],
    )
}

#[test]
fn choice_with_fallback_validates() {
    let model = decision_machine(true).unwrap();
    if let Err(e) = validate(&model) {
        panic!("unexpected validation error {:?}", e);
    }
}

#[test]
fn choice_without_fallback_is_refused() {
    let model = decision_machine(false).unwrap();
    match validate(&model) {
        Err(HsmError::Validation(msg)) => assert_eq!(
            msg,
            "Choice state '/DecisionMachine/decision' must have a guardless fallback transition"
        ),
        other => panic!("expected a validation error, got {:?}", other),
    }
}

#[test]
fn defer_outside_a_state_is_refused() {
    match define("M", vec![defer(vec!["x"])]) {
        Err(HsmError::StateMachine(msg)) => assert_eq!(msg, "Defer must be declared inside a state"),
        Err(other) => panic!("unexpected error {:?}", other),
        Ok(_) => panic!("expected an error"),
    }
}

#[test]
fn defined_machine_is_named_under_the_root() {
    let model = define("Named", vec![initial_with_target(target("a")), state("a")]).unwrap();
    assert_eq!(model.state.vertex.element.qualified_name, "/Named");
    assert!(model.get_state("/Named/a").is_some());
    assert!(model.get_state("/Named/b").is_none());
}

#[test]
fn state_machine_kind_is_a_state() {
    assert!(is_kind(kind::STATE_MACHINE, kind::STATE));
    assert!(is_kind(kind::CHOICE, kind::PSEUDOSTATE));
    assert!(is_kind(kind::EXTERNAL, kind::TRANSITION));
}

#[test]
fn machine_without_initial_is_refused() {
    let model = define("M", vec![state("a")]).unwrap();
    match validate(&model) {
        Err(HsmError::Validation(msg)) => assert_eq!(msg, "Initial state is required for state machine '/M'"),
        other => panic!("expected a validation error, got {:?}", other),
    }
}

#[test]
fn attribute_keeps_its_declared_default() {
    let model = define(
        "A",
        vec![initial_with_target(target("s")), state("s"), stateforward_hsm::dsl::attribute("flag", true)],
    )
    .unwrap();
    let a = model.get_attribute("/A/flag").unwrap();
    assert_eq!(
        a.default_value.as_deref(),
        Some(&stateforward_hsm::element::AttributeValue::Bool(true))
    );
    let moved = model.rebase("/B".to_string()).rebase("/A".to_string());
    let b = moved.get_attribute("/A/flag").unwrap();
    assert_eq!(
        b.default_value.as_deref(),
        Some(&stateforward_hsm::element::AttributeValue::Bool(true))
    );
    assert!(moved.get_state("/A/s").is_some());
}

#[test]
fn regular_events_come_out_in_order() {
    let mut q = EventQueue::new();
    q.push(Event::new("a"));
    q.push(Event::new("b"));
    q.push(Event::new("c"));
    assert_eq!(q.pop().unwrap().name, "a");
    assert_eq!(q.pop().unwrap().name, "b");
    assert_eq!(q.pop().unwrap().name, "c");
    assert!(q.pop().is_none());
}
