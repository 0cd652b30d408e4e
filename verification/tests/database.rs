use articy_dialogue::{
    Connection, Database, Dialogue, Error, HierarchyNode, Interpreter, Json, Model, ModelKind, Pin,
    Project, SchemaFault,
};

fn pin(id: &str, targets: &[(&str, &str)]) -> Pin {
    Pin {
        id: id.to_string(),
        guard: String::new(),
        connections: targets
            .iter()
            .map(|(target, target_pin)| Connection {
                target: target.to_string(),
                target_pin: target_pin.to_string(),
            })
            .collect(),
    }
}

fn model(id: &str, external_id: &str, kind: ModelKind) -> Model {
    Model {
        id: id.to_string(),
        external_id: external_id.to_string(),
        display_name: format!("{id} name"),
        technical_name: format!("tn_{id}"),
        template: None,
        input_pins: vec![pin(&format!("{id}.in"), &[])],
        output_pins: vec![pin(&format!("{id}.out"), &[])],
        kind,
    }
}

fn fragment(id: &str, speaker: &str) -> Model {
    model(
        id,
        "",
        ModelKind::DialogueFragment {
            text: format!("text of {id}"),
            menu_text: String::new(),
            speaker: speaker.to_string(),
        },
    )
}

fn node(id: &str, kind: &str, children: Option<Vec<HierarchyNode>>) -> HierarchyNode {
    HierarchyNode { id: id.to_string(), kind: kind.to_string(), children }
}

fn leaf() -> HierarchyNode {
    node("root", "Project", None)
}

fn sample() -> Project {
    let models = vec![
        model("folder", "ext_folder", ModelKind::UserFolder),
        model("ann", "ext_ann", ModelKind::Entity),
        model("bob", "", ModelKind::Entity),
        fragment("line1", "ann"),
        model("hub", "ext_hub", ModelKind::Hub),
        fragment("line2", ""),
        model(
            "loc",
            "ext_hub",
            ModelKind::Custom { type_tag: "Location".to_string(), properties: Json::Null },
        ),
        model("empty_folder", "", ModelKind::UserFolder),
        model("lost_folder", "", ModelKind::UserFolder),
    ];
    let hierarchy = node(
        "root",
        "Project",
        Some(vec![
            node("flow", "Flow", Some(vec![node("line1", "DialogueFragment", None), node("hub", "Hub", None)])),
            node(
                "entities",
                "Entities",
                Some(vec![
                    node("empty_folder", "UserFolder", None),
                    node(
                        "folder",
                        "UserFolder",
                        Some(vec![
                            node("bob", "Entity", None),
                            node("ann", "Entity", None),
                            node("loc", "Location", Some(vec![])),
                        ]),
                    ),
                ]),
            ),
        ]),
    );
    Project { models, hierarchy }
}

fn ids(models: &[&Model]) -> Vec<String> {
    models.iter().map(|m| m.id.clone()).collect()
}

#[test]
fn a_new_database_is_not_loaded() {
    let db = Database::new();
    assert!(!db.is_loaded());
    assert!(db.get_model("ann").is_none());
    assert!(db.get_model_by_external_id("ext_ann").is_none());
    assert_eq!(db.get_all_models().unwrap_err(), Error::NotLoaded);
    assert_eq!(db.get_models_of_type("Entity").unwrap_err(), Error::NotLoaded);
    assert_eq!(db.get_entity_ids_from_folder("folder").unwrap_err(), Error::NotLoaded);
    assert_eq!(db.get_entities_from_folder("folder").unwrap_err(), Error::NotLoaded);
    assert_eq!(db.hierarchy_at(&vec![]).unwrap_err(), Error::NotLoaded);
    assert_eq!(db.hierarchy_path_of(&fragment("x", "")).unwrap_err(), Error::NotLoaded);
    assert!(db.project().is_none());
    assert!(matches!(Interpreter::new(&db), Err(Error::NotLoaded)));
}

#[test]
fn models_are_found_by_id() {
    let db = Database::from_project(sample()).unwrap();
    assert!(db.is_loaded());
    assert_eq!(db.get_model("ann").unwrap().display_name, "ann name");
    assert_eq!(db.get_model("line2").unwrap().technical_name, "tn_line2");
    assert!(db.get_model("nobody").is_none());
    assert!(db.get_model("").is_none());
}

#[test]
fn models_are_found_by_external_id() {
    let db = Database::from_project(sample()).unwrap();
    assert_eq!(db.get_model_by_external_id("ext_ann").unwrap().id, "ann");
    // Of two models with one external identifier the first is found.
    assert_eq!(db.get_model_by_external_id("ext_hub").unwrap().id, "hub");
    assert!(db.get_model_by_external_id("ext_nobody").is_none());
    // An empty external identifier names no model, though models have one.
    assert!(db.get_model_by_external_id("").is_none());
}

#[test]
fn models_of_a_type_come_in_package_order() {
    let db = Database::from_project(sample()).unwrap();
    assert_eq!(ids(&db.get_models_of_type("Entity").unwrap()), vec!["ann", "bob"]);
    assert_eq!(ids(&db.get_models_of_type("DialogueFragment").unwrap()), vec!["line1", "line2"]);
    assert_eq!(ids(&db.get_models_of_type("Location").unwrap()), vec!["loc"]);
    assert_eq!(
        ids(&db.get_models_of_type("UserFolder").unwrap()),
        vec!["folder", "empty_folder", "lost_folder"]
    );
    assert!(db.get_models_of_type("Custom").unwrap().is_empty());
    assert!(db.get_models_of_type("").unwrap().is_empty());
    assert_eq!(
        ids(&db.get_all_models().unwrap()),
        vec!["folder", "ann", "bob", "line1", "hub", "line2", "loc", "empty_folder", "lost_folder"]
    );
    assert_eq!(db.project().unwrap().models.len(), 9);
}

#[test]
fn type_tags_of_the_kinds() {
    let tags: Vec<String> = [
        ModelKind::DialogueFragment {
            text: String::new(),
            menu_text: String::new(),
            speaker: String::new(),
        },
        ModelKind::Dialogue,
        ModelKind::FlowFragment,
        ModelKind::Hub,
        ModelKind::Jump { target: String::new() },
        ModelKind::Condition { expression: String::new() },
        ModelKind::Instruction { expression: String::new() },
        ModelKind::Entity,
        ModelKind::UserFolder,
        ModelKind::Custom { type_tag: "Zone".to_string(), properties: Json::Null },
    ]
    .into_iter()
    .map(|kind| model("m", "", kind).type_tag())
    .collect();
    assert_eq!(
        tags,
        vec![
            "DialogueFragment", "Dialogue", "FlowFragment", "Hub", "Jump", "Condition",
            "Instruction", "Entity", "UserFolder", "Zone"
        ]
    );
}

#[test]
fn the_hierarchy_is_searched_depth_first() {
    let db = Database::from_project(sample()).unwrap();
    let ann = db.get_model("ann").unwrap();
    assert_eq!(db.hierarchy_path_of(ann).unwrap(), Some(vec![1, 1, 1]));
    let hub = db.get_model("hub").unwrap();
    assert_eq!(db.hierarchy_path_of(hub).unwrap(), Some(vec![0, 1]));
    let lost = db.get_model("lost_folder").unwrap();
    assert_eq!(db.hierarchy_path_of(lost).unwrap(), None);
    assert_eq!(db.hierarchy_path_of(&fragment("root", "")).unwrap(), Some(vec![]));
}

#[test]
fn a_path_leads_to_a_hierarchy_node() {
    let db = Database::from_project(sample()).unwrap();
    assert_eq!(db.hierarchy_at(&vec![]).unwrap().unwrap().id, "root");
    assert_eq!(db.hierarchy_at(&vec![1]).unwrap().unwrap().kind, "Entities");
    assert_eq!(db.hierarchy_at(&vec![1, 1, 0]).unwrap().unwrap().id, "bob");
    assert!(db.hierarchy_at(&vec![2]).unwrap().is_none());
    assert!(db.hierarchy_at(&vec![0, 0, 0]).unwrap().is_none());
    assert!(db.hierarchy_at(&vec![1, 1, 2, 0]).unwrap().is_none());
}

#[test]
fn the_children_of_a_folder_come_in_hierarchy_order() {
    let db = Database::from_project(sample()).unwrap();
    assert_eq!(db.get_entity_ids_from_folder("folder").unwrap(), vec!["bob", "ann", "loc"]);
    assert_eq!(ids(&db.get_entities_from_folder("folder").unwrap()), vec!["bob", "ann", "loc"]);
    assert!(db.get_entity_ids_from_folder("empty_folder").unwrap().is_empty());
    assert!(db.get_entities_from_folder("empty_folder").unwrap().is_empty());
}

#[test]
fn folder_queries_fail_on_what_is_no_folder() {
    let db = Database::from_project(sample()).unwrap();
    assert_eq!(
        db.get_entity_ids_from_folder("ann").unwrap_err(),
        Error::NotAFolder("ann".to_string())
    );
    assert_eq!(
        db.get_entities_from_folder("hub").unwrap_err(),
        Error::NotAFolder("hub".to_string())
    );
    assert_eq!(
        db.get_entity_ids_from_folder("nobody").unwrap_err(),
        Error::NotFound("nobody".to_string())
    );
    // A folder that the hierarchy does not hold is not found.
    assert_eq!(
        db.get_entity_ids_from_folder("lost_folder").unwrap_err(),
        Error::NotFound("lost_folder".to_string())
    );
}

#[test]
fn a_child_without_a_model_is_not_found() {
    let models = vec![model("folder", "", ModelKind::UserFolder), model("ann", "", ModelKind::Entity)];
    let hierarchy = node(
        "root",
        "Project",
        Some(vec![node(
            "folder",
            "UserFolder",
            Some(vec![node("ann", "Entity", None), node("ghost", "Entity", None)]),
        )]),
    );
    let db = Database::from_project(Project { models, hierarchy }).unwrap();
    assert_eq!(db.get_entity_ids_from_folder("folder").unwrap(), vec!["ann", "ghost"]);
    assert_eq!(
        db.get_entities_from_folder("folder").unwrap_err(),
        Error::NotFound("ghost".to_string())
    );
}

fn open_fault(models: Vec<Model>) -> SchemaFault {
    match Database::from_project(Project { models, hierarchy: leaf() }) {
        Err(Error::SchemaError(fault)) => fault,
        Err(other) => panic!("unexpected error {other:?}"),
        Ok(_) => panic!("the project is not valid"),
    }
}

#[test]
fn an_empty_identifier_is_a_fault() {
    assert_eq!(open_fault(vec![fragment("a", ""), fragment("", "")]), SchemaFault::EmptyId(1));
}

#[test]
fn a_repeated_identifier_is_a_fault() {
    assert_eq!(
        open_fault(vec![fragment("a", ""), fragment("b", ""), fragment("a", "")]),
        SchemaFault::DuplicateId(0, 2)
    );
}

#[test]
fn a_dangling_reference_is_a_fault() {
    let mut to_nowhere = fragment("a", "");
    to_nowhere.output_pins = vec![pin("a.out", &[("ghost", "ghost.in")])];
    assert_eq!(open_fault(vec![to_nowhere]), SchemaFault::DanglingReference(0));

    let mut to_no_pin = fragment("a", "");
    to_no_pin.output_pins = vec![pin("a.out", &[("b", "b.side")])];
    assert_eq!(open_fault(vec![fragment("b", ""), to_no_pin]), SchemaFault::DanglingReference(1));

    let mut from_input = fragment("a", "");
    from_input.input_pins = vec![pin("a.in", &[("ghost", "ghost.in")])];
    assert_eq!(open_fault(vec![from_input]), SchemaFault::DanglingReference(0));

    let jump = model("j", "", ModelKind::Jump { target: "ghost".to_string() });
    assert_eq!(open_fault(vec![fragment("a", ""), jump]), SchemaFault::DanglingReference(1));

    assert_eq!(open_fault(vec![fragment("a", "ghost")]), SchemaFault::DanglingReference(0));
}

#[test]
fn references_that_resolve_are_accepted() {
    let mut a = fragment("a", "ann");
    a.output_pins = vec![pin("a.out", &[("b", "b.in"), ("b", "b.out"), ("a", "a.in")])];
    let models = vec![
        a,
        fragment("b", ""),
        model("ann", "", ModelKind::Entity),
        model("j", "", ModelKind::Jump { target: "a".to_string() }),
    ];
    assert!(Database::from_project(Project { models, hierarchy: leaf() }).is_ok());
    assert!(Database::from_project(Project { models: vec![], hierarchy: leaf() }).is_ok());
}

#[test]
fn loading_replaces_the_project() {
    let mut db = Database::new();
    db.load(Project { models: vec![fragment("a", "")], hierarchy: leaf() }).unwrap();
    assert!(db.is_loaded());
    assert!(db.get_model("a").is_some());
    db.load(Project { models: vec![fragment("b", "")], hierarchy: leaf() }).unwrap();
    assert!(db.get_model("a").is_none());
    assert!(db.get_model("b").is_some());
}

#[test]
fn a_project_with_a_fault_is_not_loaded() {
    let mut db = Database::new();
    db.load(Project { models: vec![fragment("a", "")], hierarchy: leaf() }).unwrap();
    let result = db.load(Project { models: vec![fragment("b", "ghost")], hierarchy: leaf() });
    assert_eq!(result.unwrap_err(), Error::SchemaError(SchemaFault::DanglingReference(0)));
    assert!(db.get_model("a").is_some());
    assert!(db.get_model("b").is_none());
    let mut fresh = Database::new();
    assert!(fresh.load(Project { models: vec![fragment("", "")], hierarchy: leaf() }).is_err());
    assert!(!fresh.is_loaded());
}

#[test]
fn a_dialogue_is_named_by_its_model() {
    let dialogue = model("d", "", ModelKind::Dialogue);
    assert_eq!(
        Dialogue::from_model(&dialogue),
        Some(Dialogue { id: "d".to_string(), name: "d name".to_string() })
    );
    assert_eq!(Dialogue::from_model(&model("f", "", ModelKind::FlowFragment)), None);
    assert_eq!(Dialogue::from_model(&fragment("a", "")), None);
}

#[test]
fn a_default_database_is_not_loaded() {
    assert!(!Database::default().is_loaded());
}
