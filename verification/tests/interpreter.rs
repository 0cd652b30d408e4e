use articy_dialogue::{
    handle_outcome, Connection, Database, Error, EvalError, Event, HierarchyNode, Interpreter,
    Json, Model, ModelKind, Outcome, Pin, Project, StateValue, DEFAULT_MAX_STEPS,
};

fn pin(id: &str, guard: &str, targets: &[(&str, &str)]) -> Pin {
    Pin {
        id: id.to_string(),
        guard: guard.to_string(),
        connections: targets
            .iter()
            .map(|(target, target_pin)| Connection {
                target: target.to_string(),
                target_pin: target_pin.to_string(),
            })
            .collect(),
    }
}

/// A model with one input pin `<id>.in` and one output pin `<id>.out`, which
/// is connected to the input pins of `targets`.
fn model(id: &str, kind: ModelKind, targets: &[&str]) -> Model {
    let pins: Vec<String> = targets.iter().map(|t| format!("{t}.in")).collect();
    let conns: Vec<(&str, &str)> =
        targets.iter().zip(pins.iter()).map(|(t, p)| (*t, p.as_str())).collect();
    Model {
        id: id.to_string(),
        external_id: String::new(),
        display_name: id.to_string(),
        technical_name: format!("tn_{id}"),
        template: None,
        input_pins: vec![pin(&format!("{id}.in"), "", &[])],
        output_pins: vec![pin(&format!("{id}.out"), "", &conns)],
        kind,
    }
}

fn fragment(id: &str, text: &str, targets: &[&str]) -> Model {
    model(
        id,
        ModelKind::DialogueFragment {
            text: text.to_string(),
            menu_text: String::new(),
            speaker: String::new(),
        },
        targets,
    )
}

fn hub(id: &str, targets: &[&str]) -> Model {
    model(id, ModelKind::Hub, targets)
}

fn instruction(id: &str, expression: &str, targets: &[&str]) -> Model {
    model(id, ModelKind::Instruction { expression: expression.to_string() }, targets)
}

fn condition(id: &str, expression: &str, when_true: &str, when_false: &str) -> Model {
    let mut m = model(id, ModelKind::Condition { expression: expression.to_string() }, &[]);
    let t = format!("{when_true}.in");
    let f = format!("{when_false}.in");
    m.output_pins = vec![
        pin(&format!("{id}.true"), "", &[(when_true, t.as_str())]),
        pin(&format!("{id}.false"), "", &[(when_false, f.as_str())]),
    ];
    m
}

fn database(models: Vec<Model>) -> Database {
    let hierarchy =
        HierarchyNode { id: "root".to_string(), kind: "Project".to_string(), children: None };
    Database::from_project(Project { models, hierarchy }).expect("a valid project")
}

fn reached(outcome: Result<Outcome, Error>) -> String {
    match outcome {
        Ok(Outcome::Advanced(m)) => m.id.clone(),
        other => panic!("expected Advanced, got {other:?}"),
    }
}

fn choices(outcome: Result<Outcome, Error>) -> Vec<String> {
    match outcome {
        Ok(Outcome::WaitingForChoice(models)) => models.iter().map(|m| m.id.clone()).collect(),
        other => panic!("expected WaitingForChoice, got {other:?}"),
    }
}

fn ended(outcome: Result<Outcome, Error>) -> bool {
    matches!(outcome, Ok(Outcome::EndOfDialogue))
}

#[test]
fn nothing_moves_before_a_start() {
    let db = database(vec![fragment("a", "A", &[])]);
    let mut it = Interpreter::new(&db).unwrap();
    assert_eq!(it.advance().unwrap_err(), Error::NotStarted);
    assert_eq!(it.exhaust_maximally().unwrap_err(), Error::NotStarted);
    assert_eq!(it.choose_option("a").unwrap_err(), Error::InvalidChoice("a".to_string()));
    assert_eq!(it.get_current_model().unwrap_err(), Error::NotStarted);
    assert!(it.pending_choices().is_empty());
    assert!(!it.is_stopped());
}

#[test]
fn an_unknown_start_changes_nothing() {
    let db = database(vec![fragment("a", "A", &["b"]), fragment("b", "B", &[])]);
    let mut it = Interpreter::new(&db).unwrap();
    assert_eq!(it.start("ghost").unwrap_err(), Error::NotFound("ghost".to_string()));
    assert_eq!(it.advance().unwrap_err(), Error::NotStarted);
    assert_eq!(reached(it.start("a")), "a");
    assert_eq!(it.start("ghost").unwrap_err(), Error::NotFound("ghost".to_string()));
    assert_eq!(it.get_current_model().unwrap().id, "a");
    assert_eq!(reached(it.advance()), "b");
}

#[test]
fn the_end_is_reported_again_until_a_new_start() {
    let db = database(vec![fragment("a", "A", &[])]);
    let mut it = Interpreter::new(&db).unwrap();
    it.set_state("kept", StateValue::Int(1));
    it.start("a").unwrap();
    assert!(ended(it.advance()));
    assert!(it.is_stopped());
    assert!(ended(it.advance()));
    assert!(ended(it.exhaust_maximally()));
    assert!(matches!(handle_outcome(&it.advance().unwrap())[0], Event::Stopped));
    assert!(matches!(handle_outcome(&Outcome::Stopped)[0], Event::Stopped));
    assert_eq!(reached(it.start("a")), "a");
    assert!(!it.is_stopped());
    assert_eq!(it.get_state("kept"), StateValue::Int(1));
    assert!(ended(it.advance()));
}

#[test]
fn a_closed_pin_is_not_followed() {
    let mut a = fragment("a", "A", &[]);
    a.output_pins = vec![
        pin("a.out1", "gold >= 10", &[("rich", "rich.in")]),
        pin("a.out2", "gold < 10", &[("poor", "poor.in")]),
    ];
    let db = database(vec![a, fragment("rich", "R", &[]), fragment("poor", "P", &[])]);
    let mut it = Interpreter::new(&db).unwrap();
    it.set_state("gold", StateValue::Int(3));
    it.start("a").unwrap();
    assert_eq!(reached(it.advance()), "poor");
    it.set_state("gold", StateValue::Int(30));
    it.start("a").unwrap();
    assert_eq!(reached(it.advance()), "rich");
}

#[test]
fn two_open_pins_are_a_choice() {
    let mut a = fragment("a", "A", &[]);
    a.output_pins = vec![
        pin("a.out1", "", &[("x", "x.in")]),
        pin("a.out2", "false", &[("y", "y.in")]),
        pin("a.out3", "1 == 1", &[("z", "z.in"), ("x", "x.in")]),
    ];
    let db = database(vec![a, fragment("x", "X", &[]), fragment("y", "Y", &[]), fragment("z", "Z", &[])]);
    let mut it = Interpreter::new(&db).unwrap();
    it.start("a").unwrap();
    assert_eq!(choices(it.advance()), vec!["x", "z", "x"]);
    let pending: Vec<&str> = it.pending_choices().iter().map(|m| m.id.as_str()).collect();
    assert_eq!(pending, vec!["x", "z", "x"]);
    assert_eq!(it.get_current_model().unwrap().id, "a");
    assert_eq!(it.advance().unwrap_err(), Error::AwaitingChoice);
    assert_eq!(it.exhaust_maximally().unwrap_err(), Error::AwaitingChoice);
    assert_eq!(it.choose_option("y").unwrap_err(), Error::InvalidChoice("y".to_string()));
    assert_eq!(reached(it.choose_option("z")), "z");
    assert!(it.pending_choices().is_empty());
}

#[test]
fn all_pins_closed_is_the_end() {
    let mut c = condition("c", "true", "a", "b");
    c.output_pins[0].guard = "false".to_string();
    c.output_pins[1].guard = "0".to_string();
    let db = database(vec![c, fragment("a", "A", &[]), fragment("b", "B", &[])]);
    let mut it = Interpreter::new(&db).unwrap();
    it.start("c").unwrap();
    assert!(ended(it.advance()));
}

#[test]
fn a_condition_picks_its_pin() {
    let db = database(vec![
        fragment("s", "S", &["c"]),
        condition("c", "mood == \"good\"", "yes", "no"),
        fragment("yes", "Y", &[]),
        fragment("no", "N", &[]),
    ]);
    let mut it = Interpreter::new(&db).unwrap();
    it.start("s").unwrap();
    assert_eq!(reached(it.advance()), "no");
    it.set_state("mood", StateValue::String("good".to_string()));
    it.start("s").unwrap();
    assert_eq!(reached(it.advance()), "yes");
}

#[test]
fn a_condition_without_a_second_pin_ends_when_false() {
    let mut c = condition("c", "false", "a", "a");
    c.output_pins.truncate(1);
    let db = database(vec![c, fragment("a", "A", &[])]);
    let mut it = Interpreter::new(&db).unwrap();
    it.start("c").unwrap();
    assert!(ended(it.advance()));
}

#[test]
fn instructions_run_once_and_in_order() {
    let db = database(vec![
        fragment("s", "S", &["i1"]),
        instruction("i1", "x = 1", &["i2"]),
        instruction("i2", "x = x * 10 + 2; y = x", &["h"]),
        hub("h", &["i3"]),
        instruction("i3", "x += 100", &["e"]),
        fragment("e", "E", &[]),
    ]);
    let mut it = Interpreter::new(&db).unwrap();
    it.start("s").unwrap();
    assert_eq!(it.get_state("x"), StateValue::Empty);
    assert_eq!(reached(it.advance()), "e");
    assert_eq!(it.get_state("x"), StateValue::Int(112));
    assert_eq!(it.get_state("y"), StateValue::Int(12));
    assert!(ended(it.advance()));
    assert_eq!(it.get_state("x"), StateValue::Int(112));
}

#[test]
fn a_start_does_not_run_the_instruction() {
    let db = database(vec![instruction("i", "x = 1", &["e"]), fragment("e", "E", &[])]);
    let mut it = Interpreter::new(&db).unwrap();
    let started = it.start("i").unwrap();
    assert!(matches!(handle_outcome(&started)[0], Event::Model(m) if m.id == "i"));
    assert_eq!(it.get_state("x"), StateValue::Empty);
    assert_eq!(reached(it.advance()), "e");
    assert_eq!(it.get_state("x"), StateValue::Int(1));
}

#[test]
fn an_evaluation_error_leaves_cursor_and_state() {
    let db = database(vec![
        fragment("s", "S", &["i"]),
        instruction("i", "x = 1", &["c"]),
        condition("c", "x / divisor > 0", "yes", "no"),
        fragment("yes", "Y", &[]),
        fragment("no", "N", &[]),
    ]);
    let mut it = Interpreter::new(&db).unwrap();
    it.start("s").unwrap();
    assert_eq!(it.advance().unwrap_err(), Error::EvalError(EvalError::TypeMismatch));
    assert_eq!(it.get_current_model().unwrap().id, "s");
    assert_eq!(it.get_state("x"), StateValue::Empty);
    it.set_state("divisor", StateValue::Int(0));
    assert_eq!(it.advance().unwrap_err(), Error::EvalError(EvalError::DivisionByZero));
    assert_eq!(it.exhaust_maximally().unwrap_err(), Error::EvalError(EvalError::DivisionByZero));
    assert_eq!(it.get_state("x"), StateValue::Empty);
    it.set_state("divisor", StateValue::Int(1));
    assert_eq!(reached(it.advance()), "yes");
    assert_eq!(it.get_state("x"), StateValue::Int(1));
}

#[test]
fn a_guard_that_fails_to_evaluate_is_an_error() {
    let mut a = fragment("a", "A", &["b"]);
    a.output_pins[0].guard = "1 +".to_string();
    let db = database(vec![a, fragment("b", "B", &[])]);
    let mut it = Interpreter::new(&db).unwrap();
    it.start("a").unwrap();
    assert_eq!(it.advance().unwrap_err(), Error::EvalError(EvalError::Syntax));
    assert_eq!(it.get_current_model().unwrap().id, "a");
}

#[test]
fn a_silent_cycle_is_stuck() {
    let db = database(vec![fragment("s", "S", &["h1"]), hub("h1", &["h2"]), hub("h2", &["h1"])]);
    let mut it = Interpreter::new(&db).unwrap();
    it.start("s").unwrap();
    assert_eq!(it.advance().unwrap_err(), Error::Stuck);
    assert_eq!(it.get_current_model().unwrap().id, "s");
    assert_eq!(it.exhaust_maximally().unwrap_err(), Error::Runaway);
    let jump = model("j", ModelKind::Jump { target: "j".to_string() }, &[]);
    let db = database(vec![jump]);
    let mut it = Interpreter::new(&db).unwrap();
    it.start("j").unwrap();
    assert_eq!(it.advance().unwrap_err(), Error::Stuck);
}

#[test]
fn a_cycle_of_empty_fragments_runs_away() {
    let db = database(vec![fragment("a", "", &["b"]), fragment("b", "", &["a"])]);
    let mut it = Interpreter::new(&db).unwrap();
    it.start("a").unwrap();
    assert_eq!(it.exhaust_maximally().unwrap_err(), Error::Runaway);
    assert_eq!(it.get_current_model().unwrap().id, "a");
    // `advance` stops at each of them.
    assert_eq!(reached(it.advance()), "b");
    assert_eq!(reached(it.advance()), "a");
}

#[test]
fn the_step_bound_can_be_set() {
    assert_eq!(DEFAULT_MAX_STEPS, 10_000);
    let db = database(vec![
        fragment("s", "S", &["h1"]),
        hub("h1", &["h2"]),
        hub("h2", &["h3"]),
        hub("h3", &["e"]),
        fragment("e", "E", &[]),
    ]);
    let mut it = Interpreter::new(&db).unwrap();
    it.start("s").unwrap();
    it.set_max_steps(3);
    assert_eq!(it.advance().unwrap_err(), Error::Stuck);
    it.set_max_steps(0);
    assert_eq!(it.advance().unwrap_err(), Error::Stuck);
    it.set_max_steps(4);
    assert_eq!(reached(it.advance()), "e");
}

#[test]
fn a_counting_loop_ends_when_its_guard_closes() {
    let db = database(vec![
        fragment("s", "S", &["i"]),
        instruction("i", "n += 1", &["c"]),
        condition("c", "n < 1000", "i", "e"),
        fragment("e", "E", &[]),
    ]);
    let mut it = Interpreter::new(&db).unwrap();
    it.set_state("n", StateValue::Int(0));
    it.start("s").unwrap();
    assert_eq!(reached(it.advance()), "e");
    assert_eq!(it.get_state("n"), StateValue::Int(1000));
}

#[test]
fn a_container_is_entered_and_left_through_its_pins() {
    let mut d = model("d", ModelKind::Dialogue, &["after"]);
    d.input_pins = vec![pin("d.in", "", &[("a", "a.in")])];
    let mut a = fragment("a", "A", &[]);
    a.output_pins = vec![pin("a.out", "", &[("d", "d.out")])];
    let db = database(vec![fragment("s", "S", &["d"]), d, a, fragment("after", "after", &[])]);
    let mut it = Interpreter::new(&db).unwrap();
    assert_eq!(reached(it.start("s")), "s");
    assert_eq!(reached(it.advance()), "a");
    assert_eq!(reached(it.advance()), "after");
    assert!(ended(it.advance()));
    // Started at the container itself, the walk enters by its first input pin.
    assert_eq!(reached(it.start("d")), "d");
    assert_eq!(reached(it.advance()), "a");
}

#[test]
fn a_flow_fragment_is_entered_by_the_pin_of_the_connection() {
    let mut f = model("f", ModelKind::FlowFragment, &[]);
    f.input_pins = vec![pin("f.in1", "", &[("a", "a.in")]), pin("f.in2", "", &[("b", "b.in")])];
    let mut s = fragment("s", "S", &[]);
    s.output_pins = vec![pin("s.out", "", &[("f", "f.in2")])];
    let db = database(vec![s, f, fragment("a", "A", &[]), fragment("b", "B", &[])]);
    let mut it = Interpreter::new(&db).unwrap();
    it.start("s").unwrap();
    assert_eq!(reached(it.advance()), "b");
}

#[test]
fn a_choice_lists_the_models_to_which_the_ways_lead() {
    let jump = model("j", ModelKind::Jump { target: "x".to_string() }, &[]);
    let db = database(vec![
        hub("h", &["j", "y", "i", "c", "dead"]),
        jump,
        fragment("x", "X", &[]),
        fragment("y", "Y", &[]),
        instruction("i", "picked = true", &["z"]),
        fragment("z", "Z", &[]),
        condition("c", "mood == \"good\"", "yes", "no"),
        fragment("yes", "yes", &[]),
        fragment("no", "no", &[]),
        instruction("dead", "lost = true", &[]),
    ]);
    let mut it = Interpreter::new(&db).unwrap();
    it.start("h").unwrap();
    let waiting = it.advance().unwrap();
    // A jump, an instruction and a condition are passed on the way to the
    // choice; the way that leads nowhere offers none.
    let events = handle_outcome(&waiting);
    assert_eq!(events.len(), 1);
    match &events[0] {
        Event::Choices(entries) => {
            let ids: Vec<&str> = entries.iter().map(|c| c.id.as_str()).collect();
            assert_eq!(ids, vec!["x", "y", "z", "no"]);
        }
        other => panic!("unexpected {other:?}"),
    }
    let listed: Vec<&str> = it.pending_choices().iter().map(|m| m.id.as_str()).collect();
    assert_eq!(listed, vec!["x", "y", "z", "no"]);
    // No instruction has been run yet.
    assert_eq!(it.get_state("picked"), StateValue::Empty);
    assert_eq!(it.get_state("lost"), StateValue::Empty);
    for silent in ["j", "i", "c", "dead", "h"] {
        assert_eq!(it.choose_option(silent).unwrap_err(), Error::InvalidChoice(silent.to_string()));
    }
    assert_eq!(reached(it.choose_option("x")), "x");
    assert_eq!(it.get_current_model().unwrap().id, "x");
    assert_eq!(it.get_state("picked"), StateValue::Empty);
    assert_eq!(it.choose_option("y").unwrap_err(), Error::InvalidChoice("y".to_string()));
}

#[test]
fn the_instructions_on_a_way_are_run_when_its_choice_is_taken() {
    let db = database(vec![
        hub("h", &["i1", "y"]),
        instruction("i1", "n = n + 1", &["i2"]),
        instruction("i2", "n = n * 10; picked = true", &["z"]),
        fragment("z", "Z", &[]),
        fragment("y", "Y", &[]),
    ]);
    let mut it = Interpreter::new(&db).unwrap();
    it.set_state("n", StateValue::Int(1));
    it.start("h").unwrap();
    assert_eq!(choices(it.advance()), vec!["z", "y"]);
    assert_eq!(it.get_state("n"), StateValue::Int(1));
    assert_eq!(reached(it.choose_option("z")), "z");
    assert_eq!(it.get_state("n"), StateValue::Int(20));
    assert_eq!(it.get_state("picked"), StateValue::Boolean(true));
    it.start("h").unwrap();
    it.advance().unwrap();
    assert_eq!(reached(it.choose_option("y")), "y");
    assert_eq!(it.get_state("n"), StateValue::Int(20));
}

#[test]
fn a_condition_on_a_way_is_evaluated_when_the_choice_is_listed() {
    let db = database(vec![
        hub("h", &["c", "y"]),
        condition("c", "door.open", "in", "out"),
        fragment("in", "in", &[]),
        fragment("out", "out", &[]),
        fragment("y", "Y", &[]),
    ]);
    let mut it = Interpreter::new(&db).unwrap();
    it.start("h").unwrap();
    assert_eq!(choices(it.advance()), vec!["out", "y"]);
    // The choice that was listed is the one that is taken.
    it.set_state("door.open", StateValue::Boolean(true));
    assert_eq!(it.choose_option("in").unwrap_err(), Error::InvalidChoice("in".to_string()));
    assert_eq!(reached(it.choose_option("out")), "out");
    it.start("h").unwrap();
    assert_eq!(choices(it.advance()), vec!["in", "y"]);
}

#[test]
fn a_way_that_fails_to_evaluate_fails_the_advance() {
    let db = database(vec![
        fragment("s", "S", &["h"]),
        hub("h", &["i", "y"]),
        instruction("i", "x = 10 / d", &["z"]),
        fragment("z", "Z", &[]),
        fragment("y", "Y", &[]),
    ]);
    let mut it = Interpreter::new(&db).unwrap();
    it.start("s").unwrap();
    it.set_state("d", StateValue::Int(0));
    assert_eq!(it.advance().unwrap_err(), Error::EvalError(EvalError::DivisionByZero));
    assert_eq!(it.get_current_model().unwrap().id, "s");
    assert!(it.pending_choices().is_empty());
    it.set_state("d", StateValue::Int(5));
    assert_eq!(choices(it.advance()), vec!["z", "y"]);
    assert_eq!(it.get_state("x"), StateValue::Empty);
}

#[test]
fn a_choice_that_fails_stays_pending() {
    let db = database(vec![
        hub("h", &["i", "y"]),
        instruction("i", "x = 10 / d", &["z"]),
        fragment("z", "Z", &[]),
        fragment("y", "Y", &[]),
    ]);
    let mut it = Interpreter::new(&db).unwrap();
    it.set_state("d", StateValue::Int(2));
    it.start("h").unwrap();
    assert_eq!(choices(it.advance()), vec!["z", "y"]);
    it.set_state("d", StateValue::Int(0));
    assert_eq!(it.choose_option("z").unwrap_err(), Error::EvalError(EvalError::DivisionByZero));
    assert_eq!(it.pending_choices().len(), 2);
    assert_eq!(it.get_current_model().unwrap().id, "h");
    assert_eq!(it.get_state("x"), StateValue::Empty);
    it.set_state("d", StateValue::Int(5));
    assert_eq!(reached(it.choose_option("z")), "z");
    assert_eq!(it.get_state("x"), StateValue::Int(2));
}

#[test]
fn a_fork_with_one_way_to_a_model_offers_that_one() {
    let db = database(vec![
        hub("h", &["dead", "x"]),
        hub("dead", &[]),
        fragment("x", "X", &[]),
    ]);
    let mut it = Interpreter::new(&db).unwrap();
    it.start("h").unwrap();
    assert_eq!(choices(it.advance()), vec!["x"]);
    assert_eq!(reached(it.choose_option("x")), "x");
}

#[test]
fn a_fork_without_a_way_to_a_model_is_the_end() {
    let db = database(vec![hub("h", &["d1", "d2"]), hub("d1", &[]), hub("d2", &["d1"])]);
    let mut it = Interpreter::new(&db).unwrap();
    it.start("h").unwrap();
    assert!(ended(it.advance()));
    assert_eq!(it.get_current_model().unwrap().id, "h");
}

#[test]
fn a_way_that_forks_again_offers_the_choices_behind_it() {
    let db = database(vec![
        hub("h", &["i", "y"]),
        instruction("i", "n = 1", &["inner"]),
        hub("inner", &["j", "b"]),
        instruction("j", "n = n + 1", &["a"]),
        fragment("a", "A", &[]),
        fragment("b", "B", &[]),
        fragment("y", "Y", &[]),
    ]);
    let mut it = Interpreter::new(&db).unwrap();
    it.start("h").unwrap();
    assert_eq!(choices(it.advance()), vec!["a", "b", "y"]);
    assert_eq!(it.get_state("n"), StateValue::Empty);
    assert_eq!(reached(it.choose_option("a")), "a");
    assert_eq!(it.get_state("n"), StateValue::Int(2));
    it.set_state("n", StateValue::Empty);
    it.start("h").unwrap();
    it.advance().unwrap();
    assert_eq!(reached(it.choose_option("b")), "b");
    assert_eq!(it.get_state("n"), StateValue::Int(1));
}

#[test]
fn forks_that_lead_back_into_each_other_are_stuck() {
    let db = database(vec![
        fragment("s", "S", &["h1"]),
        hub("h1", &["h2", "x"]),
        hub("h2", &["h1", "y"]),
        fragment("x", "X", &[]),
        fragment("y", "Y", &[]),
    ]);
    let mut it = Interpreter::new(&db).unwrap();
    it.start("s").unwrap();
    assert_eq!(it.advance().unwrap_err(), Error::Stuck);
    assert_eq!(it.exhaust_maximally().unwrap_err(), Error::Runaway);
    assert_eq!(it.get_current_model().unwrap().id, "s");
    // The ways on from a fork share the steps of the call.
    let db = database(vec![
        hub("h", &["a1", "b1"]),
        hub("a1", &["a2"]),
        hub("a2", &["x"]),
        hub("b1", &["b2"]),
        hub("b2", &["y"]),
        fragment("x", "X", &[]),
        fragment("y", "Y", &[]),
    ]);
    let mut it = Interpreter::new(&db).unwrap();
    it.start("h").unwrap();
    it.set_max_steps(4);
    assert_eq!(it.advance().unwrap_err(), Error::Stuck);
    it.set_max_steps(5);
    assert_eq!(choices(it.advance()), vec!["x", "y"]);
}

#[test]
fn a_choice_of_models_that_are_no_fragments() {
    let db = database(vec![
        hub("h", &["ent", "y"]),
        model("ent", ModelKind::Entity, &[]),
        fragment("y", "Y", &[]),
    ]);
    let mut it = Interpreter::new(&db).unwrap();
    it.start("h").unwrap();
    let waiting = it.advance().unwrap();
    let events = handle_outcome(&waiting);
    assert_eq!(events.len(), 2);
    assert!(matches!(&events[0], Event::Model(m) if m.id == "ent"));
    match &events[1] {
        Event::Choices(entries) => {
            assert_eq!(entries.len(), 1);
            assert_eq!(entries[0].id, "y");
            assert_eq!(entries[0].label, "Y");
        }
        other => panic!("unexpected {other:?}"),
    }
    assert_eq!(reached(it.choose_option("ent")), "ent");
}

#[test]
fn a_container_is_entered_at_its_first_child() {
    let mut d = model("d", ModelKind::Dialogue, &[]);
    d.input_pins = vec![pin("d.in", "", &[("a", "a.in"), ("b", "b.in")])];
    let mut f = model("f", ModelKind::FlowFragment, &[]);
    f.input_pins = vec![
        pin("f.in1", "false", &[("a", "a.in")]),
        pin("f.in2", "", &[("b", "b.in"), ("a", "a.in")]),
    ];
    let mut s = fragment("s", "S", &[]);
    s.output_pins = vec![pin("s.out", "", &[("f", "f.in2")])];
    let db = database(vec![d, f, s, fragment("a", "A", &[]), fragment("b", "B", &[])]);
    let mut it = Interpreter::new(&db).unwrap();
    it.start("d").unwrap();
    assert_eq!(reached(it.advance()), "a");
    it.start("s").unwrap();
    assert_eq!(reached(it.advance()), "b");
    // Started at the container, the walk enters by the first input pin,
    // which is closed here.
    it.start("f").unwrap();
    assert!(ended(it.advance()));
}

#[test]
fn exhaust_passes_fragments_without_text_or_way_on() {
    let mut blocked = fragment("blocked", "has text", &["after"]);
    blocked.output_pins[0].guard = "door.open".to_string();
    let db = database(vec![
        fragment("s", "S", &["e1"]),
        fragment("e1", "", &["ent"]),
        model("ent", ModelKind::Entity, &["e2"]),
        fragment("e2", "", &["blocked"]),
        blocked,
        fragment("after", "after", &[]),
    ]);
    let mut it = Interpreter::new(&db).unwrap();
    it.start("s").unwrap();
    // A model that is no fragment is not passed over.
    assert_eq!(reached(it.exhaust_maximally()), "ent");
    // The fragment whose only pin is closed is passed over, and the walk ends there.
    assert!(ended(it.exhaust_maximally()));
    assert_eq!(it.get_current_model().unwrap().id, "blocked");
    it.set_state("door.open", StateValue::Boolean(true));
    it.start("ent").unwrap();
    assert_eq!(reached(it.exhaust_maximally()), "blocked");
    assert_eq!(reached(it.exhaust_maximally()), "after");
}

#[test]
fn exhaust_stops_at_a_choice() {
    let db = database(vec![
        fragment("s", "S", &["e"]),
        fragment("e", "", &["a", "b"]),
        fragment("a", "A", &[]),
        fragment("b", "", &[]),
    ]);
    let mut it = Interpreter::new(&db).unwrap();
    it.start("s").unwrap();
    assert_eq!(choices(it.exhaust_maximally()), vec!["a", "b"]);
    assert_eq!(it.get_current_model().unwrap().id, "e");
    assert_eq!(reached(it.choose_option("b")), "b");
}

#[test]
fn models_of_other_kinds_are_visited() {
    let custom = model(
        "loc",
        ModelKind::Custom {
            type_tag: "Location".to_string(),
            properties: Json::Object(vec!["X".to_string()], vec![Json::Number("1".to_string())]),
        },
        &["folder"],
    );
    let db = database(vec![
        fragment("s", "S", &["loc"]),
        custom,
        model("folder", ModelKind::UserFolder, &["ent"]),
        model("ent", ModelKind::Entity, &[]),
    ]);
    let mut it = Interpreter::new(&db).unwrap();
    it.start("s").unwrap();
    let visit = it.advance().unwrap();
    assert!(matches!(handle_outcome(&visit)[0], Event::Model(m) if m.type_tag() == "Location"));
    assert_eq!(reached(it.advance()), "folder");
    assert_eq!(reached(it.advance()), "ent");
    assert!(ended(it.advance()));
}

#[test]
fn a_line_carries_the_attributes_of_its_fragment() {
    let mut a = fragment("a", "Hello there", &[]);
    let mood = Json::Object(vec!["Mood".to_string()], vec![Json::String("calm".to_string())]);
    a.template = Some(mood.copy());
    if let ModelKind::DialogueFragment { menu_text, speaker, .. } = &mut a.kind {
        *menu_text = "Greet".to_string();
        *speaker = "ann".to_string();
    }
    let db = database(vec![a, model("ann", ModelKind::Entity, &[])]);
    let mut it = Interpreter::new(&db).unwrap();
    let started = it.start("a").unwrap();
    match handle_outcome(&started).remove(0) {
        Event::Line(line) => {
            assert_eq!(line.id, "a");
            assert_eq!(line.text, "Hello there");
            assert_eq!(line.menu_text, "Greet");
            assert_eq!(line.speaker_id, "ann");
            assert_eq!(line.technical_name, "tn_a");
            assert_eq!(line.template, Some(mood));
        }
        other => panic!("unexpected {other:?}"),
    }
}

#[test]
fn the_interpreter_state_round_trips() {
    let db = database(vec![]);
    let mut it = Interpreter::new(&db).unwrap();
    assert_eq!(it.get_state("k"), StateValue::Empty);
    it.set_state("k", StateValue::String("v".to_string()));
    assert_eq!(it.get_state("k"), StateValue::String("v".to_string()));
    it.set_state("k", StateValue::Empty);
    assert_eq!(it.get_state("k"), StateValue::Empty);
    assert!(it.state().keys().is_empty());
}

#[test]
fn two_interpreters_share_a_database_but_no_state() {
    let db = database(vec![instruction("i", "n += 1", &["e"]), fragment("e", "E", &[])]);
    let mut one = Interpreter::new(&db).unwrap();
    let mut two = Interpreter::new(&db).unwrap();
    one.set_state("n", StateValue::Int(0));
    two.set_state("n", StateValue::Int(10));
    one.start("i").unwrap();
    two.start("i").unwrap();
    assert_eq!(reached(one.advance()), "e");
    assert_eq!(reached(two.advance()), "e");
    assert_eq!(one.get_state("n"), StateValue::Int(1));
    assert_eq!(two.get_state("n"), StateValue::Int(11));
    assert_eq!(db.get_all_models().unwrap().len(), 2);
}

#[test]
fn the_same_calls_report_the_same() {
    let db = database(vec![
        fragment("s", "S", &["i"]),
        instruction("i", "n += 1", &["h"]),
        hub("h", &["a", "b"]),
        fragment("a", "A", &["s"]),
        fragment("b", "B", &[]),
    ]);
    let run = || {
        let mut it = Interpreter::new(&db).unwrap();
        it.set_state("n", StateValue::Int(0));
        let mut log = Vec::new();
        log.push(format!("{:?}", it.start("s")));
        log.push(format!("{:?}", it.advance()));
        log.push(format!("{:?}", it.choose_option("a")));
        log.push(format!("{:?}", it.advance()));
        log.push(format!("{:?}", it.advance()));
        log.push(format!("{:?}", it.choose_option("b")));
        log.push(format!("{:?}", it.advance()));
        log.push(format!("{:?}", it.get_state("n")));
        log
    };
    let first = run();
    assert_eq!(first, run());
    assert_eq!(first[7], "Int(2)");
}

fn node(id: &str, kind: &str, children: Vec<HierarchyNode>) -> HierarchyNode {
    HierarchyNode {
        id: id.to_string(),
        kind: kind.to_string(),
        children: if children.is_empty() { None } else { Some(children) },
    }
}

/// A dialogue `d` that holds the fragments `a` and `b`; `b` leads nowhere.
fn dialogue_with_a_dead_end(leads_on: bool) -> Database {
    let mut d = model("d", ModelKind::Dialogue, if leads_on { &["after"] } else { &[] });
    d.input_pins = vec![pin("d.in", "", &[("a", "a.in")])];
    let mut a = fragment("a", "A", &[]);
    a.output_pins = vec![
        pin("a.out1", "leave", &[("d", "d.out")]),
        pin("a.out2", "!leave", &[("b", "b.in")]),
    ];
    let models = vec![d, a, fragment("b", "B", &[]), fragment("after", "after", &[])];
    let hierarchy = node(
        "root",
        "Project",
        vec![
            node(
                "flow",
                "Flow",
                vec![node(
                    "d",
                    "Dialogue",
                    vec![node("a", "DialogueFragment", vec![]), node("b", "DialogueFragment", vec![])],
                )],
            ),
            node("after", "DialogueFragment", vec![]),
        ],
    );
    Database::from_project(Project { models, hierarchy }).unwrap()
}

#[test]
fn a_dead_end_below_a_container_that_leads_on_is_stuck() {
    let db = dialogue_with_a_dead_end(true);
    let mut it = Interpreter::new(&db).unwrap();
    it.start("d").unwrap();
    assert_eq!(reached(it.advance()), "a");
    assert_eq!(reached(it.advance()), "b");
    assert_eq!(it.advance().unwrap_err(), Error::Stuck);
    assert_eq!(it.exhaust_maximally().unwrap_err(), Error::Stuck);
    assert_eq!(it.get_current_model().unwrap().id, "b");
    assert!(!it.is_stopped());
    // Through the output pin of the container the walk goes on and ends after it.
    it.set_state("leave", StateValue::Boolean(true));
    it.start("a").unwrap();
    assert_eq!(reached(it.advance()), "after");
    assert!(ended(it.advance()));
}

#[test]
fn a_dead_end_below_a_container_that_leads_nowhere_is_the_end() {
    let db = dialogue_with_a_dead_end(false);
    let mut it = Interpreter::new(&db).unwrap();
    it.start("d").unwrap();
    assert_eq!(reached(it.advance()), "a");
    assert_eq!(reached(it.advance()), "b");
    assert!(ended(it.advance()));
    assert!(it.is_stopped());
    it.set_state("leave", StateValue::Boolean(true));
    it.start("a").unwrap();
    assert!(ended(it.advance()));
    assert_eq!(it.get_current_model().unwrap().id, "d");
}

#[test]
fn a_closed_condition_below_a_container_that_leads_on_is_stuck() {
    let mut d = model("d", ModelKind::Dialogue, &["after"]);
    d.input_pins = vec![pin("d.in", "", &[("c", "c.in")])];
    let mut c = condition("c", "true", "after", "after");
    c.output_pins[0].guard = "false".to_string();
    let models = vec![d, c, fragment("after", "after", &[])];
    let hierarchy = node("root", "Project", vec![node("d", "Dialogue", vec![node("c", "Condition", vec![])])]);
    let db = Database::from_project(Project { models, hierarchy }).unwrap();
    let mut it = Interpreter::new(&db).unwrap();
    it.start("d").unwrap();
    assert_eq!(it.advance().unwrap_err(), Error::Stuck);
    assert_eq!(it.get_current_model().unwrap().id, "d");
}
