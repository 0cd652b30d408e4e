use articy_dialogue::{
    handle_outcome, Connection, Database, Error, Event, HierarchyNode, Interpreter, Model,
    ModelKind, Outcome, Pin, Project, StateValue,
};

fn pin(id: &str, guard: &str, targets: &[(&str, &str)]) -> Pin {
    Pin {
        id: id.to_string(),
        guard: guard.to_string(),
        connections: targets
            .iter()
            .map(|(target, target_pin)| Connection {
                target: target.to_string(),
                target_pin: target_pin.to_string(),
            })
            .collect(),
    }
}

fn model(id: &str, kind: ModelKind, targets: &[&str]) -> Model {
    let conns: Vec<(String, String)> =
        targets.iter().map(|t| (t.to_string(), format!("{t}.in"))).collect();
    let borrowed: Vec<(&str, &str)> = conns.iter().map(|(a, b)| (a.as_str(), b.as_str())).collect();
    Model {
        id: id.to_string(),
        external_id: String::new(),
        display_name: id.to_string(),
        technical_name: format!("tn_{id}"),
        template: None,
        input_pins: vec![pin(&format!("{id}.in"), "", &[])],
        output_pins: vec![pin(&format!("{id}.out"), "", &borrowed)],
        kind,
    }
}

fn fragment(id: &str, text: &str, menu_text: &str, targets: &[&str]) -> Model {
    model(
        id,
        ModelKind::DialogueFragment {
            text: text.to_string(),
            menu_text: menu_text.to_string(),
            speaker: String::new(),
        },
        targets,
    )
}

fn database(models: Vec<Model>) -> Database {
    let hierarchy = HierarchyNode { id: "root".to_string(), kind: "Project".to_string(), children: None };
    Database::from_project(Project { models, hierarchy }).expect("a valid project")
}

fn advanced_id(outcome: &Outcome) -> String {
    match outcome {
        Outcome::Advanced(m) => m.id.clone(),
        other => panic!("expected Advanced, got {other:?}"),
    }
}

#[test]
fn a_linear_dialogue_is_walked_line_by_line() {
    let db = database(vec![fragment("h", "Hello", "", &["w"]), fragment("w", "World", "", &[])]);
    let mut it = Interpreter::new(&db).unwrap();
    let first = it.start("h").unwrap();
    let events = handle_outcome(&first);
    assert_eq!(events.len(), 1);
    match &events[0] {
        Event::Line(line) => {
            assert_eq!(line.id, "h");
            assert_eq!(line.text, "Hello");
        }
        other => panic!("expected a line, got {other:?}"),
    }
    let second = it.advance().unwrap();
    assert_eq!(advanced_id(&second), "w");
    let third = it.advance().unwrap();
    assert!(matches!(third, Outcome::EndOfDialogue));
    let again = it.advance().unwrap();
    assert!(matches!(again, Outcome::EndOfDialogue));
}

#[test]
fn a_hub_with_two_fragments_is_a_choice() {
    let mut dialogue = model("d", ModelKind::Dialogue, &[]);
    dialogue.input_pins = vec![pin("d.in", "", &[("hub", "hub.in")])];
    let db = database(vec![
        dialogue,
        model("hub", ModelKind::Hub, &["a", "b"]),
        fragment("a", "Yes, of course.", "yes", &[]),
        fragment("b", "No, never.", "no", &[]),
    ]);
    let mut it = Interpreter::new(&db).unwrap();
    let started = it.start("d").unwrap();
    assert_eq!(advanced_id(&started), "d");
    assert!(matches!(handle_outcome(&started)[0], Event::Model(_)));
    let waiting = it.advance().unwrap();
    match &waiting {
        Outcome::WaitingForChoice(choices) => {
            let ids: Vec<&str> = choices.iter().map(|m| m.id.as_str()).collect();
            assert_eq!(ids, vec!["a", "b"]);
        }
        other => panic!("expected a choice, got {other:?}"),
    }
    let events = handle_outcome(&waiting);
    assert_eq!(events.len(), 1);
    match &events[0] {
        Event::Choices(entries) => {
            let labels: Vec<&str> = entries.iter().map(|c| c.label.as_str()).collect();
            assert_eq!(labels, vec!["yes", "no"]);
            let ids: Vec<&str> = entries.iter().map(|c| c.id.as_str()).collect();
            assert_eq!(ids, vec!["a", "b"]);
        }
        other => panic!("expected choices, got {other:?}"),
    }
    assert_eq!(it.advance().unwrap_err(), Error::AwaitingChoice);
    assert_eq!(it.choose_option("zzz").unwrap_err(), Error::InvalidChoice("zzz".to_string()));
    let chosen = it.choose_option("b").unwrap();
    assert_eq!(advanced_id(&chosen), "b");
    assert_eq!(it.choose_option("a").unwrap_err(), Error::InvalidChoice("a".to_string()));
    assert!(matches!(it.advance().unwrap(), Outcome::EndOfDialogue));
}

#[test]
fn an_instruction_is_run_before_the_condition_that_follows() {
    let mut condition = model("c", ModelKind::Condition { expression: "x==1".to_string() }, &[]);
    condition.output_pins =
        vec![pin("c.true", "", &[("ok", "ok.in")]), pin("c.false", "", &[("no", "no.in")])];
    let db = database(vec![
        model("i", ModelKind::Instruction { expression: "x=1;".to_string() }, &["c"]),
        condition,
        fragment("ok", "ok", "", &[]),
        fragment("no", "no", "", &[]),
    ]);
    let mut it = Interpreter::new(&db).unwrap();
    let started = it.start("i").unwrap();
    assert_eq!(advanced_id(&started), "i");
    assert_eq!(it.get_state("x"), StateValue::Empty);
    let line = it.advance().unwrap();
    match handle_outcome(&line).remove(0) {
        Event::Line(line) => assert_eq!(line.text, "ok"),
        other => panic!("expected a line, got {other:?}"),
    }
    assert_eq!(it.get_state("x"), StateValue::Int(1));
}

#[test]
fn a_choice_without_menu_text_is_labelled_by_its_text() {
    let db = database(vec![
        model("hub", ModelKind::Hub, &["a", "b"]),
        fragment("a", "fallback", "", &[]),
        fragment("b", "long text", "short", &[]),
    ]);
    let mut it = Interpreter::new(&db).unwrap();
    it.start("hub").unwrap();
    let waiting = it.advance().unwrap();
    match handle_outcome(&waiting).remove(0) {
        Event::Choices(entries) => {
            assert_eq!(entries[0].label, "fallback");
            assert_eq!(entries[1].label, "short");
        }
        other => panic!("expected choices, got {other:?}"),
    }
}

#[test]
fn a_jump_is_passed_in_silence() {
    let db = database(vec![
        fragment("a", "A", "", &["j"]),
        model("j", ModelKind::Jump { target: "c".to_string() }, &[]),
        fragment("c", "C", "", &[]),
    ]);
    let mut it = Interpreter::new(&db).unwrap();
    it.start("a").unwrap();
    let next = it.advance().unwrap();
    assert_eq!(advanced_id(&next), "c");
    assert!(matches!(handle_outcome(&next)[0], Event::Line(_)));
}

#[test]
fn exhaust_passes_a_chain_of_empty_fragments() {
    let mut models = Vec::new();
    for i in 0..50 {
        let next = if i == 49 { "done".to_string() } else { format!("f{}", i + 1) };
        models.push(fragment(&format!("f{i}"), "", "", &[next.as_str()]));
    }
    models.push(fragment("done", "done", "", &[]));
    let db = database(models);
    let mut it = Interpreter::new(&db).unwrap();
    it.start("f0").unwrap();
    let outcome = it.exhaust_maximally().unwrap();
    match handle_outcome(&outcome).remove(0) {
        Event::Line(line) => assert_eq!(line.text, "done"),
        other => panic!("expected a line, got {other:?}"),
    }
}
