//! Writing and reading agree: the document that is written for a model
//! reads as that model.

use crate::json::{list_member, member, member_from, required_text, text_member, JsonView};
use crate::loader::{
    are_connections, are_pins, is_connection, is_kind, is_model, is_pin,
};
use crate::model::{Connection, Model, ModelKind, Pin};
use crate::writer::{
    common_members, connection_json, model_json, pin_json, pins_json, properties_json,
};
use vstd::prelude::*;

verus! {

/// The member at `i` is found under its key where no member before it has
/// that key.
proof fn lemma_member_at(members: Seq<(Seq<char>, JsonView)>, key: Seq<char>, i: int, from: int)
    requires
        0 <= from <= i < members.len(),
        members[i].0 == key,
        forall|j: int| from <= j < i ==> (#[trigger] members[j]).0 != key,
    ensures
        member_from(members, key, from) == Some(members[i].1),
    decreases i - from,
{
    if from < i {
        lemma_member_at(members, key, i, from + 1);
    }
}

/// No member is found under a key that no member has.
proof fn lemma_member_absent(members: Seq<(Seq<char>, JsonView)>, key: Seq<char>, from: int)
    requires
        0 <= from,
        forall|j: int| from <= j < members.len() ==> (#[trigger] members[j]).0 != key,
    ensures
        member_from(members, key, from) is None,
    decreases members.len() - from,
{
    if from < members.len() {
        lemma_member_absent(members, key, from + 1);
    }
}

/// The names of the project file format differ from one another: most of
/// them in length, the others in one of their first letters.
proof fn lemma_names_differ()
    ensures
        "Type"@.len() == 4,
        "Properties"@.len() == 10,
        "Template"@.len() == 8,
        "Id"@.len() == 2,
        "ExternalId"@.len() == 10,
        "DisplayName"@.len() == 11,
        "TechnicalName"@.len() == 13,
        "InputPins"@.len() == 9,
        "OutputPins"@.len() == 10,
        "Text"@.len() == 4,
        "MenuText"@.len() == 8,
        "Speaker"@.len() == 7,
        "Target"@.len() == 6,
        "TargetPin"@.len() == 9,
        "Expression"@.len() == 10,
        "Connections"@.len() == 11,
        "DialogueFragment"@.len() == 16,
        "Dialogue"@.len() == 8,
        "FlowFragment"@.len() == 12,
        "Hub"@.len() == 3,
        "Jump"@.len() == 4,
        "Condition"@.len() == 9,
        "Instruction"@.len() == 11,
        "Entity"@.len() == 6,
        "UserFolder"@.len() == 10,
        "ExternalId"@ != "OutputPins"@,
        "ExternalId"@ != "Expression"@,
        "OutputPins"@ != "Expression"@,
{
    reveal_strlit("Type");
    reveal_strlit("Properties");
    reveal_strlit("Template");
    reveal_strlit("Id");
    reveal_strlit("ExternalId");
    reveal_strlit("DisplayName");
    reveal_strlit("TechnicalName");
    reveal_strlit("InputPins");
    reveal_strlit("OutputPins");
    reveal_strlit("Text");
    reveal_strlit("MenuText");
    reveal_strlit("Speaker");
    reveal_strlit("Target");
    reveal_strlit("TargetPin");
    reveal_strlit("Expression");
    reveal_strlit("Connections");
    reveal_strlit("DialogueFragment");
    reveal_strlit("Dialogue");
    reveal_strlit("FlowFragment");
    reveal_strlit("Hub");
    reveal_strlit("Jump");
    reveal_strlit("Condition");
    reveal_strlit("Instruction");
    reveal_strlit("Entity");
    reveal_strlit("UserFolder");
    assert("ExternalId"@[0] == 'E' && "ExternalId"@[2] == 't');
    assert("OutputPins"@[0] == 'O');
    assert("Expression"@[0] == 'E' && "Expression"@[2] == 'p');
}

/// The document of a connection reads as the connection.
pub proof fn law_connection_round_trip(c: Connection)
    ensures
        is_connection(connection_json(c), c),
{
    lemma_names_differ();
    let members = connection_json(c)->Object_0;
    lemma_member_at(members, "Target"@, 0, 0);
    lemma_member_at(members, "TargetPin"@, 1, 0);
}

/// The document of a pin reads as the pin.
pub proof fn law_pin_round_trip(p: Pin)
    ensures
        is_pin(pin_json(p), p),
{
    lemma_names_differ();
    let members = pin_json(p)->Object_0;
    lemma_member_at(members, "Id"@, 0, 0);
    lemma_member_at(members, "Text"@, 1, 0);
    lemma_member_at(members, "Connections"@, 2, 0);
    let items = Seq::new(p.connections@.len(), |i: int| connection_json(p.connections@[i]));
    assert forall|i: int| #![trigger p.connections@[i]] 0 <= i < items.len() implies is_connection(
        items[i],
        p.connections@[i],
    ) by {
        law_connection_round_trip(p.connections@[i]);
    }
    assert(are_connections(items, p.connections@));
}

proof fn lemma_pins_round_trip(pins: Seq<Pin>)
    ensures
        are_pins(pins_json(pins)->Array_0, pins),
{
    let items = pins_json(pins)->Array_0;
    assert forall|i: int| #![trigger pins[i]] 0 <= i < items.len() implies is_pin(
        items[i],
        pins[i],
    ) by {
        law_pin_round_trip(pins[i]);
    }
}

/// What the properties of a model of a known kind hold under the names
/// that every model has.
proof fn lemma_common_members(m: Model, members: Seq<(Seq<char>, JsonView)>)
    requires
        members.len() >= 6,
        members.subrange(0, 6) == common_members(m),
    ensures
        required_text(JsonView::Object(members), "Id"@) == Some(m.id@),
        text_member(JsonView::Object(members), "ExternalId"@) == Some(m.external_id@),
        text_member(JsonView::Object(members), "DisplayName"@) == Some(m.display_name@),
        text_member(JsonView::Object(members), "TechnicalName"@) == Some(m.technical_name@),
        list_member(JsonView::Object(members), "InputPins"@) == Some(
            pins_json(m.input_pins@)->Array_0,
        ),
        list_member(JsonView::Object(members), "OutputPins"@) == Some(
            pins_json(m.output_pins@)->Array_0,
        ),
{
    lemma_names_differ();
    let common = common_members(m);
    assert forall|j: int| 0 <= j < 6 implies members[j] == common[j] by {
        assert(members.subrange(0, 6)[j] == members[j]);
    }
    lemma_member_at(members, "Id"@, 0, 0);
    lemma_member_at(members, "ExternalId"@, 1, 0);
    lemma_member_at(members, "DisplayName"@, 2, 0);
    lemma_member_at(members, "TechnicalName"@, 3, 0);
    lemma_member_at(members, "InputPins"@, 4, 0);
    lemma_member_at(members, "OutputPins"@, 5, 0);
}

/// The properties that are written for a model of a known kind read as its
/// kind.
proof fn lemma_kind_round_trip(m: Model)
    requires
        !(m.kind is Custom),
    ensures
        is_kind(m.kind.tag(), properties_json(m), m.kind),
{
    lemma_names_differ();
    let members = properties_json(m)->Object_0;
    let common = common_members(m);
    assert forall|j: int| 0 <= j < 6 implies (#[trigger] members[j]) == common[j] by {}
    match m.kind {
        ModelKind::DialogueFragment { .. } => {
            lemma_member_at(members, "Text"@, 6, 0);
            lemma_member_at(members, "MenuText"@, 7, 0);
            lemma_member_at(members, "Speaker"@, 8, 0);
        },
        ModelKind::Jump { .. } => {
            lemma_member_at(members, "Target"@, 6, 0);
        },
        ModelKind::Condition { .. } => {
            lemma_member_at(members, "Expression"@, 6, 0);
        },
        ModelKind::Instruction { .. } => {
            lemma_member_at(members, "Expression"@, 6, 0);
        },
        _ => {},
    }
}

/// The document that is written for a model of a known kind reads as that
/// model. (A model of a custom kind is written with the properties that it
/// kept; it reads as itself where those are the properties of the model.)
pub proof fn law_model_round_trip(m: Model)
    requires
        !(m.kind is Custom),
    ensures
        is_model(model_json(m), m),
{
    lemma_names_differ();
    let j = model_json(m);
    let members = j->Object_0;
    let props = properties_json(m);
    lemma_member_at(members, "Type"@, 0, 0);
    lemma_member_at(members, "Properties"@, 1, 0);
    match m.template {
        Some(t) => {
            lemma_member_at(members, "Template"@, 2, 0);
        },
        None => {
            lemma_member_absent(members, "Template"@, 0);
        },
    }
    assert(props->Object_0.subrange(0, 6) =~= common_members(m));
    lemma_common_members(m, props->Object_0);
    lemma_pins_round_trip(m.input_pins@);
    lemma_pins_round_trip(m.output_pins@);
    lemma_kind_round_trip(m);
}

} // verus!
