//! Models as JSON documents, in the shape in which the project file holds
//! them: what the loader reads, written back.

use crate::json::{Json, JsonView};
use crate::model::{Connection, Model, ModelKind, Pin};
use vstd::prelude::*;
use vstd::string::StringExecFns;

verus! {

/// The document of a connection.
pub open spec fn connection_json(c: Connection) -> JsonView {
    JsonView::Object(
        seq![
            ("Target"@, JsonView::String(c.target@)),
            ("TargetPin"@, JsonView::String(c.target_pin@)),
        ],
    )
}

/// The document of a pin, with the guard as its text.
pub open spec fn pin_json(p: Pin) -> JsonView {
    JsonView::Object(
        seq![
            ("Id"@, JsonView::String(p.id@)),
            ("Text"@, JsonView::String(p.guard@)),
            (
                "Connections"@,
                JsonView::Array(
                    Seq::new(
                        p.connections@.len(),
                        |i: int| connection_json(p.connections@[i]),
                    ),
                ),
            ),
        ],
    )
}

/// The documents of a list of pins, in order.
pub open spec fn pins_json(pins: Seq<Pin>) -> JsonView {
    JsonView::Array(Seq::new(pins.len(), |i: int| pin_json(pins[i])))
}

/// The properties that every model of a known kind has.
pub open spec fn common_members(m: Model) -> Seq<(Seq<char>, JsonView)> {
    seq![
        ("Id"@, JsonView::String(m.id@)),
        ("ExternalId"@, JsonView::String(m.external_id@)),
        ("DisplayName"@, JsonView::String(m.display_name@)),
        ("TechnicalName"@, JsonView::String(m.technical_name@)),
        ("InputPins"@, pins_json(m.input_pins@)),
        ("OutputPins"@, pins_json(m.output_pins@)),
    ]
}

/// The properties of a model: those that it kept as they were where its
/// kind is a custom one; else the common ones, followed by those of its kind.
pub open spec fn properties_json(m: Model) -> JsonView {
    match m.kind {
        ModelKind::Custom { properties, .. } => properties@,
        ModelKind::DialogueFragment { text, menu_text, speaker } => JsonView::Object(
            common_members(m).push(("Text"@, JsonView::String(text@))).push(
                ("MenuText"@, JsonView::String(menu_text@)),
            ).push(("Speaker"@, JsonView::String(speaker@))),
        ),
        ModelKind::Jump { target } => JsonView::Object(
            common_members(m).push(("Target"@, JsonView::String(target@))),
        ),
        ModelKind::Condition { expression } => JsonView::Object(
            common_members(m).push(("Expression"@, JsonView::String(expression@))),
        ),
        ModelKind::Instruction { expression } => JsonView::Object(
            common_members(m).push(("Expression"@, JsonView::String(expression@))),
        ),
        _ => JsonView::Object(common_members(m)),
    }
}

/// The document of a model: its type, its properties and, where it has one,
/// its template.
pub open spec fn model_json(m: Model) -> JsonView {
    let head = seq![
        ("Type"@, JsonView::String(m.kind.tag())),
        ("Properties"@, properties_json(m)),
    ];
    match m.template {
        Some(t) => JsonView::Object(head.push(("Template"@, t@))),
        None => JsonView::Object(head),
    }
}

/// The members of a JSON object while it is put together.
struct Members {
    keys: Vec<String>,
    values: Vec<Json>,
}

impl Members {
    spec fn well_formed(&self) -> bool {
        self.keys@.len() == self.values@.len()
    }

    spec fn view(&self) -> Seq<(Seq<char>, JsonView)> {
        Seq::new(self.keys@.len(), |i: int| (self.keys@[i]@, self.values@[i]@))
    }

    fn new() -> (r: Members)
        ensures
            r.well_formed(),
            r.view() == Seq::<(Seq<char>, JsonView)>::empty(),
    {
        let r = Members { keys: Vec::new(), values: Vec::new() };
        assert(r.view() =~= Seq::<(Seq<char>, JsonView)>::empty());
        r
    }

    fn put(&mut self, key: &str, value: Json)
        requires
            old(self).well_formed(),
        ensures
            final(self).well_formed(),
            final(self).view() == old(self).view().push((key@, value@)),
    {
        self.keys.push(String::from_str(key));
        self.values.push(value);
        assert(self.view() =~= old(self).view().push((key@, value@)));
    }

    fn put_text(&mut self, key: &str, text: &String)
        requires
            old(self).well_formed(),
        ensures
            final(self).well_formed(),
            final(self).view() == old(self).view().push((key@, JsonView::String(text@))),
    {
        self.put(key, Json::String(text.clone()));
    }

    fn finish(self) -> (r: Json)
        requires
            self.well_formed(),
        ensures
            r@ == JsonView::Object(self.view()),
    {
        let ghost members = self.view();
        let r = Json::Object(self.keys, self.values);
        assert(r@->Object_0 =~= members);
        r
    }
}

fn connection_to_json(c: &Connection) -> (r: Json)
    ensures
        r@ == connection_json(*c),
{
    let mut members = Members::new();
    members.put_text("Target", &c.target);
    members.put_text("TargetPin", &c.target_pin);
    assert(members.view() =~= connection_json(*c)->Object_0);
    members.finish()
}

fn pin_to_json(p: &Pin) -> (r: Json)
    ensures
        r@ == pin_json(*p),
{
    let mut connections: Vec<Json> = Vec::new();
    let mut i: usize = 0;
    while i < p.connections.len()
        invariant
            i <= p.connections@.len(),
            connections@.len() == i,
            forall|k: int|
                0 <= k < i ==> (#[trigger] connections@[k])@ == connection_json(p.connections@[k]),
        decreases p.connections@.len() - i,
    {
        connections.push(connection_to_json(&p.connections[i]));
        i += 1;
    }
    let list = Json::Array(connections);
    assert(list@->Array_0 =~= Seq::new(
        p.connections@.len(),
        |i: int| connection_json(p.connections@[i]),
    ));
    let mut members = Members::new();
    members.put_text("Id", &p.id);
    members.put_text("Text", &p.guard);
    members.put("Connections", list);
    assert(members.view() =~= pin_json(*p)->Object_0);
    members.finish()
}

fn pins_to_json(pins: &Vec<Pin>) -> (r: Json)
    ensures
        r@ == pins_json(pins@),
{
    let mut out: Vec<Json> = Vec::new();
    let mut i: usize = 0;
    while i < pins.len()
        invariant
            i <= pins@.len(),
            out@.len() == i,
            forall|k: int| 0 <= k < i ==> (#[trigger] out@[k])@ == pin_json(pins@[k]),
        decreases pins@.len() - i,
    {
        out.push(pin_to_json(&pins[i]));
        i += 1;
    }
    let r = Json::Array(out);
    assert(r@->Array_0 =~= pins_json(pins@)->Array_0);
    r
}

fn common(m: &Model) -> (r: Members)
    ensures
        r.well_formed(),
        r.view() == common_members(*m),
{
    let mut members = Members::new();
    members.put_text("Id", &m.id);
    members.put_text("ExternalId", &m.external_id);
    members.put_text("DisplayName", &m.display_name);
    members.put_text("TechnicalName", &m.technical_name);
    members.put("InputPins", pins_to_json(&m.input_pins));
    members.put("OutputPins", pins_to_json(&m.output_pins));
    members
}

fn properties_to_json(m: &Model) -> (r: Json)
    ensures
        r@ == properties_json(*m),
{
    match &m.kind {
        ModelKind::Custom { properties, .. } => properties.copy(),
        ModelKind::DialogueFragment { text, menu_text, speaker } => {
            let mut members = common(m);
            members.put_text("Text", text);
            members.put_text("MenuText", menu_text);
            members.put_text("Speaker", speaker);
            members.finish()
        },
        ModelKind::Jump { target } => {
            let mut members = common(m);
            members.put_text("Target", target);
            members.finish()
        },
        ModelKind::Condition { expression } => {
            let mut members = common(m);
            members.put_text("Expression", expression);
            members.finish()
        },
        ModelKind::Instruction { expression } => {
            let mut members = common(m);
            members.put_text("Expression", expression);
            members.finish()
        },
        _ => common(m).finish(),
    }
}

impl Model {
    /// The document of the model. See [`model_json`].
    pub fn to_json(&self) -> (r: Json)
        ensures
            r@ == model_json(*self),
    {
        let mut members = Members::new();
        members.put("Type", Json::String(self.type_tag()));
        members.put("Properties", properties_to_json(self));
        match &self.template {
            Some(t) => {
                members.put("Template", t.copy());
            },
            None => {},
        }
        assert(members.view() =~= model_json(*self)->Object_0);
        members.finish()
    }
}

} // verus!
