use articy_dialogue::{
    handle_outcome, Connection, Database, Error, Event, Interpreter, Json, Model, ModelKind,
    Outcome, Pin, SchemaFault, StateValue,
};

const PROJECT: &str = r#"
{
  "Settings": { "set_Localization": "False" },
  "Packages": [
    {
      "Name": "Main",
      "IsDefaultPackage": true,
      "Models": [
        {
          "Type": "Dialogue",
          "Properties": {
            "TechnicalName": "Dlg_Door",
            "Id": "0x01",
            "DisplayName": "At the door",
            "ExternalId": "door",
            "InputPins": [
              { "Text": "", "Id": "0x01a", "Connections": [ { "Label": "", "TargetPin": "0x02a", "Target": "0x02" } ] }
            ],
            "OutputPins": [ { "Text": "", "Id": "0x01b" } ]
          }
        },
        {
          "Type": "Instruction",
          "Properties": {
            "Id": "0x02",
            "Expression": "guard.met = true; guard.visits += 1",
            "InputPins": [ { "Id": "0x02a" } ],
            "OutputPins": [ { "Id": "0x02b", "Connections": [ { "TargetPin": "0x03a", "Target": "0x03" } ] } ]
          }
        },
        {
          "Type": "DialogueFragment",
          "Properties": {
            "TechnicalName": "DFr_Halt",
            "Id": "0x03",
            "MenuText": "",
            "Speaker": "0x10",
            "Text": "Halt! Who goes there?",
            "InputPins": [ { "Text": "", "Id": "0x03a" } ],
            "OutputPins": [
              { "Text": "", "Id": "0x03b", "Connections": [
                  { "TargetPin": "0x04a", "Target": "0x04" },
                  { "TargetPin": "0x05a", "Target": "0x05" } ] }
            ]
          },
          "Template": { "Mood": { "Anger": 3, "Calm": false }, "Tags": ["loud", 1.5, null] }
        },
        {
          "Type": "DialogueFragment",
          "Properties": {
            "Id": "0x04", "MenuText": "Friend", "Text": "A friend.", "Speaker": "",
            "InputPins": [ { "Id": "0x04a" } ],
            "OutputPins": [ { "Id": "0x04b", "Connections": [ { "TargetPin": "0x01b", "Target": "0x01" } ] } ]
          }
        },
        {
          "Type": "DialogueFragment",
          "Properties": {
            "Id": "0x05", "MenuText": "", "Text": "None of your business.",
            "InputPins": [ { "Id": "0x05a" } ],
            "OutputPins": [ { "Id": "0x05b", "Text": "guard.visits > 1" } ]
          }
        }
      ]
    },
    {
      "Name": "Cast",
      "Models": [
        { "Type": "Entity", "Properties": { "Id": "0x10", "DisplayName": "Guard", "ExternalId": "guard" } },
        { "Type": "Location", "Properties": { "Id": "0x20", "DisplayName": "Door", "Zone": 7 } },
        { "Type": "UserFolder", "Properties": { "Id": "0x30", "DisplayName": "People" } }
      ]
    }
  ],
  "Hierarchy": {
    "Id": "0x00", "TechnicalName": "Root", "Type": "Project",
    "Children": [
      { "Id": "0x01", "Type": "Dialogue", "Children": [ { "Id": "0x02", "Type": "Instruction" } ] },
      { "Id": "0x30", "Type": "UserFolder", "Children": [ { "Id": "0x10", "Type": "Entity" } ] }
    ]
  }
}
"#;

fn open_fault(text: &str) -> SchemaFault {
    match Database::open(text.as_bytes()) {
        Err(Error::SchemaError(fault)) => fault,
        Err(other) => panic!("unexpected error {other:?}"),
        Ok(_) => panic!("the file is no valid project"),
    }
}

#[test]
fn a_project_file_is_opened() {
    let db = Database::open(PROJECT.as_bytes()).unwrap();
    let ids: Vec<&str> = db.get_all_models().unwrap().iter().map(|m| m.id.as_str()).collect();
    assert_eq!(ids, vec!["0x01", "0x02", "0x03", "0x04", "0x05", "0x10", "0x20", "0x30"]);
    let door = db.get_model_by_external_id("door").unwrap();
    assert_eq!(door.id, "0x01");
    assert_eq!(door.display_name, "At the door");
    assert_eq!(door.technical_name, "Dlg_Door");
    assert_eq!(door.kind, ModelKind::Dialogue);
    assert_eq!(door.input_pins.len(), 1);
    assert_eq!(door.input_pins[0].id, "0x01a");
    assert_eq!(door.input_pins[0].connections[0].target, "0x02");
    assert_eq!(door.input_pins[0].connections[0].target_pin, "0x02a");
    assert!(door.output_pins[0].connections.is_empty());
    assert!(door.template.is_none());
    let entity = db.get_model("0x10").unwrap();
    assert_eq!(entity.kind, ModelKind::Entity);
    assert_eq!(entity.technical_name, "");
    assert!(entity.input_pins.is_empty());
}

#[test]
fn the_kinds_are_read_with_their_attributes() {
    let db = Database::open(PROJECT.as_bytes()).unwrap();
    assert_eq!(
        db.get_model("0x02").unwrap().kind,
        ModelKind::Instruction { expression: "guard.met = true; guard.visits += 1".to_string() }
    );
    assert_eq!(
        db.get_model("0x03").unwrap().kind,
        ModelKind::DialogueFragment {
            text: "Halt! Who goes there?".to_string(),
            menu_text: String::new(),
            speaker: "0x10".to_string(),
        }
    );
    assert_eq!(db.get_model("0x05").unwrap().output_pins[0].guard, "guard.visits > 1");
    assert_eq!(db.get_models_of_type("DialogueFragment").unwrap().len(), 3);
    assert_eq!(db.get_models_of_type("Location").unwrap().len(), 1);
}

#[test]
fn a_template_is_kept_as_it_was_written() {
    let db = Database::open(PROJECT.as_bytes()).unwrap();
    let expected = Json::Object(
        vec!["Mood".to_string(), "Tags".to_string()],
        vec![
            Json::Object(
                vec!["Anger".to_string(), "Calm".to_string()],
                vec![Json::Number("3".to_string()), Json::Bool(false)],
            ),
            Json::Array(vec![
                Json::String("loud".to_string()),
                Json::Number("1.5".to_string()),
                Json::Null,
            ]),
        ],
    );
    assert_eq!(db.get_model("0x03").unwrap().template, Some(expected));
}

#[test]
fn an_unknown_type_keeps_its_tag_and_properties() {
    let db = Database::open(PROJECT.as_bytes()).unwrap();
    let location = db.get_model("0x20").unwrap();
    assert_eq!(location.type_tag(), "Location");
    assert_eq!(location.display_name, "Door");
    match &location.kind {
        ModelKind::Custom { type_tag, properties } => {
            assert_eq!(type_tag, "Location");
            assert_eq!(
                *properties,
                Json::Object(
                    vec!["DisplayName".to_string(), "Id".to_string(), "Zone".to_string()],
                    vec![
                        Json::String("Door".to_string()),
                        Json::String("0x20".to_string()),
                        Json::Number("7".to_string()),
                    ],
                )
            );
        }
        other => panic!("unexpected {other:?}"),
    }
}

#[test]
fn the_hierarchy_of_a_file_is_read() {
    let db = Database::open(PROJECT.as_bytes()).unwrap();
    let root = db.hierarchy_at(&vec![]).unwrap().unwrap();
    assert_eq!(root.id, "0x00");
    assert_eq!(root.kind, "Project");
    assert_eq!(root.children.as_ref().unwrap().len(), 2);
    let leaf = db.hierarchy_at(&vec![0, 0]).unwrap().unwrap();
    assert_eq!(leaf.id, "0x02");
    assert!(leaf.children.is_none());
    assert_eq!(db.get_entity_ids_from_folder("0x30").unwrap(), vec!["0x10"]);
    let guard = db.get_model("0x10").unwrap();
    assert_eq!(db.hierarchy_path_of(guard).unwrap(), Some(vec![1, 0]));
}

#[test]
fn a_dialogue_from_a_file_is_walked() {
    let db = Database::open(PROJECT.as_bytes()).unwrap();
    let mut it = Interpreter::new(&db).unwrap();
    it.set_state("guard.visits", StateValue::Int(0));
    assert!(matches!(it.start("0x01"), Ok(Outcome::Advanced(m)) if m.id == "0x01"));
    let line = it.advance().unwrap();
    match handle_outcome(&line).remove(0) {
        Event::Line(line) => {
            assert_eq!(line.text, "Halt! Who goes there?");
            assert_eq!(line.speaker_id, "0x10");
            assert!(line.template.is_some());
        }
        other => panic!("unexpected {other:?}"),
    }
    assert_eq!(it.get_state("guard.met"), StateValue::Boolean(true));
    assert_eq!(it.get_state("guard.visits"), StateValue::Int(1));
    let waiting = it.advance().unwrap();
    match handle_outcome(&waiting).remove(0) {
        Event::Choices(entries) => {
            let labels: Vec<&str> = entries.iter().map(|c| c.label.as_str()).collect();
            assert_eq!(labels, vec!["Friend", "None of your business."]);
        }
        other => panic!("unexpected {other:?}"),
    }
    assert!(matches!(it.choose_option("0x04"), Ok(Outcome::Advanced(m)) if m.id == "0x04"));
    // The fragment leaves the dialogue by its output pin, which leads nowhere.
    assert!(matches!(it.advance(), Ok(Outcome::EndOfDialogue)));
}

#[test]
fn bytes_that_are_no_json_are_refused() {
    assert_eq!(open_fault(""), SchemaFault::NotJson);
    assert_eq!(open_fault("{ \"Packages\": [ }"), SchemaFault::NotJson);
    assert_eq!(open_fault("{} trailing"), SchemaFault::NotJson);
    assert_eq!(
        Database::open(&[0xff, 0xfe, 0x00]).unwrap_err(),
        Error::SchemaError(SchemaFault::NotJson)
    );
}

#[test]
fn a_document_of_another_shape_is_refused() {
    for text in [
        "null",
        "[]",
        "{}",
        r#"{ "Packages": [] }"#,
        r#"{ "Hierarchy": { "Id": "r", "Type": "Project" } }"#,
        r#"{ "Packages": {}, "Hierarchy": { "Id": "r", "Type": "Project" } }"#,
        r#"{ "Packages": [ {} , 1 ], "Hierarchy": { "Id": "r", "Type": "Project" } }"#,
        r#"{ "Packages": [ { "Models": 1 } ], "Hierarchy": { "Id": "r", "Type": "Project" } }"#,
        r#"{ "Packages": [ { "Models": [ { "Type": "Hub" } ] } ], "Hierarchy": { "Id": "r", "Type": "Project" } }"#,
        r#"{ "Packages": [ { "Models": [ { "Properties": { "Id": "a" } } ] } ], "Hierarchy": { "Id": "r", "Type": "Project" } }"#,
        r#"{ "Packages": [ { "Models": [ { "Type": "Hub", "Properties": { "Id": 1 } } ] } ], "Hierarchy": { "Id": "r", "Type": "Project" } }"#,
        r#"{ "Packages": [ { "Models": [ { "Type": "Hub", "Properties": { "Id": "a", "DisplayName": 1 } } ] } ], "Hierarchy": { "Id": "r", "Type": "Project" } }"#,
        r#"{ "Packages": [ { "Models": [ { "Type": "Jump", "Properties": { "Id": "a" } } ] } ], "Hierarchy": { "Id": "r", "Type": "Project" } }"#,
        r#"{ "Packages": [ { "Models": [ { "Type": "Hub", "Properties": { "Id": "a", "OutputPins": [ { "Text": "" } ] } } ] } ], "Hierarchy": { "Id": "r", "Type": "Project" } }"#,
        r#"{ "Packages": [ { "Models": [ { "Type": "Hub", "Properties": { "Id": "a", "OutputPins": [ { "Id": "p", "Connections": [ { "Target": "a" } ] } ] } } ] } ], "Hierarchy": { "Id": "r", "Type": "Project" } }"#,
        r#"{ "Packages": [], "Hierarchy": { "Id": "r" } }"#,
        r#"{ "Packages": [], "Hierarchy": { "Id": "r", "Type": "Project", "Children": {} } }"#,
        r#"{ "Packages": [], "Hierarchy": { "Id": "r", "Type": "Project", "Children": [ { "Id": "c" } ] } }"#,
    ] {
        assert_eq!(open_fault(text), SchemaFault::Malformed, "{text}");
    }
}

#[test]
fn a_file_with_invalid_models_is_refused_with_their_fault() {
    let dangling = r#"{ "Packages": [ { "Models": [
        { "Type": "Hub", "Properties": { "Id": "a" } },
        { "Type": "Jump", "Properties": { "Id": "j", "Target": "ghost" } } ] } ],
        "Hierarchy": { "Id": "r", "Type": "Project" } }"#;
    assert_eq!(open_fault(dangling), SchemaFault::DanglingReference(1));
    let twice = r#"{ "Packages": [ { "Models": [ { "Type": "Hub", "Properties": { "Id": "a" } } ] },
        { "Models": [ { "Type": "Hub", "Properties": { "Id": "a" } } ] } ],
        "Hierarchy": { "Id": "r", "Type": "Project" } }"#;
    assert_eq!(open_fault(twice), SchemaFault::DuplicateId(0, 1));
    let unnamed = r#"{ "Packages": [ { "Models": [ { "Type": "Hub", "Properties": { "Id": "" } } ] } ],
        "Hierarchy": { "Id": "r", "Type": "Project" } }"#;
    assert_eq!(open_fault(unnamed), SchemaFault::EmptyId(0));
}

#[test]
fn the_smallest_project_file() {
    let db = Database::open(br#"{"Packages":[],"Hierarchy":{"Id":"r","Type":"Project"}}"#).unwrap();
    assert!(db.is_loaded());
    assert!(db.get_all_models().unwrap().is_empty());
    assert_eq!(db.hierarchy_at(&vec![]).unwrap().unwrap().id, "r");
}

#[test]
fn a_hierarchy_is_read_to_a_bounded_depth() {
    let nest = |levels: usize| {
        let mut text = String::from(r#"{"Packages":[],"Hierarchy":"#);
        for _ in 0..levels {
            text.push_str(r#"{"Id":"n","Type":"Folder","Children":["#);
        }
        text.push_str(r#"{"Id":"leaf","Type":"Folder"}"#);
        for _ in 0..levels {
            text.push_str("]}");
        }
        text.push('}');
        text
    };
    let db = Database::open(nest(40).as_bytes()).unwrap();
    assert_eq!(db.hierarchy_at(&vec![0; 40]).unwrap().unwrap().id, "leaf");
    // The parser itself gives up on a document that is nested too deep.
    assert_eq!(open_fault(&nest(200)), SchemaFault::NotJson);
}

#[test]
fn a_document_is_read_from_a_tree() {
    let text = |s: &str| Json::String(s.to_string());
    let object = |members: Vec<(&str, Json)>| {
        let (keys, values): (Vec<String>, Vec<Json>) =
            members.into_iter().map(|(k, v)| (k.to_string(), v)).unzip();
        Json::Object(keys, values)
    };
    let hub = object(vec![
        ("Type", text("Hub")),
        ("Properties", object(vec![("Id", text("h")), ("Id", text("shadowed"))])),
        ("Template", Json::Null),
    ]);
    let doc = object(vec![
        ("Hierarchy", object(vec![("Id", text("r")), ("Type", text("Project"))])),
        ("Packages", Json::Array(vec![object(vec![("Models", Json::Array(vec![hub]))])])),
    ]);
    let db = Database::from_json(&doc).unwrap();
    let model = db.get_model("h").unwrap();
    assert_eq!(model.kind, ModelKind::Hub);
    assert_eq!(model.template, Some(Json::Null));
    assert!(db.get_model("shadowed").is_none());
    assert_eq!(
        Database::from_json(&Json::Array(vec![])).unwrap_err(),
        Error::SchemaError(SchemaFault::Malformed)
    );
}

fn text(s: &str) -> Json {
    Json::String(s.to_string())
}

fn object(members: Vec<(&str, Json)>) -> Json {
    let (keys, values): (Vec<String>, Vec<Json>) =
        members.into_iter().map(|(k, v)| (k.to_string(), v)).unzip();
    Json::Object(keys, values)
}

#[test]
fn a_model_is_written_as_the_file_holds_it() {
    let model = Model {
        id: "a".to_string(),
        external_id: "ext".to_string(),
        display_name: "A".to_string(),
        technical_name: "tn".to_string(),
        template: Some(object(vec![("Mood", text("calm"))])),
        input_pins: vec![],
        output_pins: vec![Pin {
            id: "a.out".to_string(),
            guard: "x > 1".to_string(),
            connections: vec![Connection { target: "b".to_string(), target_pin: "b.in".to_string() }],
        }],
        kind: ModelKind::Jump { target: "b".to_string() },
    };
    let expected = object(vec![
        ("Type", text("Jump")),
        (
            "Properties",
            object(vec![
                ("Id", text("a")),
                ("ExternalId", text("ext")),
                ("DisplayName", text("A")),
                ("TechnicalName", text("tn")),
                ("InputPins", Json::Array(vec![])),
                (
                    "OutputPins",
                    Json::Array(vec![object(vec![
                        ("Id", text("a.out")),
                        ("Text", text("x > 1")),
                        (
                            "Connections",
                            Json::Array(vec![object(vec![
                                ("Target", text("b")),
                                ("TargetPin", text("b.in")),
                            ])]),
                        ),
                    ])]),
                ),
                ("Target", text("b")),
            ]),
        ),
        ("Template", object(vec![("Mood", text("calm"))])),
    ]);
    assert_eq!(model.to_json(), expected);
}

#[test]
fn a_custom_model_is_written_with_the_properties_that_it_kept() {
    let db = Database::open(PROJECT.as_bytes()).unwrap();
    let written = db.get_model("0x20").unwrap().to_json();
    let expected = object(vec![
        ("Type", text("Location")),
        (
            "Properties",
            object(vec![
                ("DisplayName", text("Door")),
                ("Id", text("0x20")),
                ("Zone", Json::Number("7".to_string())),
            ]),
        ),
    ]);
    assert_eq!(written, expected);
}

#[test]
fn what_is_written_reads_back_as_the_same_models() {
    let db = Database::open(PROJECT.as_bytes()).unwrap();
    let models = db.get_all_models().unwrap();
    let written: Vec<Json> = models.iter().map(|m| m.to_json()).collect();
    let doc = object(vec![
        ("Packages", Json::Array(vec![object(vec![("Models", Json::Array(written))])])),
        ("Hierarchy", object(vec![("Id", text("r")), ("Type", text("Project"))])),
    ]);
    let again = Database::from_json(&doc).unwrap();
    let reread = again.get_all_models().unwrap();
    assert_eq!(reread.len(), 8);
    for (a, b) in models.iter().zip(reread.iter()) {
        assert_eq!(a, b);
    }
}
