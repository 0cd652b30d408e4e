//! The authored graph: models (nodes), their pins and connections, and the
//! hierarchy tree.

use crate::json::Json;
use vstd::prelude::*;
use vstd::string::StringExecFns;

verus! {

/// A directed edge from the pin that holds it to an input or output pin
/// (`target_pin`) of the model `target`.
#[derive(Debug, PartialEq, Eq)]
pub struct Connection {
    pub target: String,
    pub target_pin: String,
}

/// A pin of a model, at which connections begin or end. `guard` is an
/// expression of the scripting dialect; a pin with an empty guard is always
/// open.
#[derive(Debug, PartialEq, Eq)]
pub struct Pin {
    pub id: String,
    pub guard: String,
    pub connections: Vec<Connection>,
}

/// What kind of node a model is, with the attributes of that kind.
#[derive(Debug, PartialEq, Eq)]
pub enum ModelKind {
    DialogueFragment { text: String, menu_text: String, speaker: String },
    Dialogue,
    FlowFragment,
    Hub,
    Jump { target: String },
    Condition { expression: String },
    Instruction { expression: String },
    Entity,
    UserFolder,
    /// A kind that the library does not know: its type tag and its
    /// properties as authored.
    Custom { type_tag: String, properties: Json },
}

/// An authored unit of content or control.
#[derive(Debug, PartialEq, Eq)]
pub struct Model {
    pub id: String,
    pub external_id: String,
    pub display_name: String,
    pub technical_name: String,
    /// The authored property bag, kept as it was written.
    pub template: Option<Json>,
    pub input_pins: Vec<Pin>,
    pub output_pins: Vec<Pin>,
    pub kind: ModelKind,
}

/// A node of the hierarchy tree.
#[derive(Debug)]
pub struct HierarchyNode {
    pub id: String,
    pub kind: String,
    pub children: Option<Vec<HierarchyNode>>,
}

/// The identifier and name of a dialogue.
#[derive(Debug, PartialEq, Eq)]
pub struct Dialogue {
    pub id: String,
    pub name: String,
}

/// How the walk came to a model: at its start, through one of its input
/// pins, or back through one of its output pins (from a child that leaves
/// its container).
#[derive(Debug, Clone, Copy, PartialEq, Eq, Structural)]
pub enum Via {
    Start,
    Input(usize),
    Output(usize),
}

/// A position in the graph: the index of a model and how it was entered.
#[derive(Debug, Clone, Copy, PartialEq, Eq, Structural)]
pub struct Place {
    pub node: usize,
    pub via: Via,
}

impl Dialogue {
    /// The identifier and the display name of a model that is a dialogue.
    pub fn from_model(m: &Model) -> (r: Option<Dialogue>)
        ensures
            match r {
                Some(d) => m.kind is Dialogue && d.id@ == m.id@ && d.name@ == m.display_name@,
                None => !(m.kind is Dialogue),
            },
    {
        match &m.kind {
            ModelKind::Dialogue => Some(
                Dialogue { id: m.id.clone(), name: m.display_name.clone() },
            ),
            _ => None,
        }
    }
}

impl ModelKind {
    /// The type tag of the kind.
    pub open spec fn tag(self) -> Seq<char> {
        match self {
            ModelKind::DialogueFragment { .. } => "DialogueFragment"@,
            ModelKind::Dialogue => "Dialogue"@,
            ModelKind::FlowFragment => "FlowFragment"@,
            ModelKind::Hub => "Hub"@,
            ModelKind::Jump { .. } => "Jump"@,
            ModelKind::Condition { .. } => "Condition"@,
            ModelKind::Instruction { .. } => "Instruction"@,
            ModelKind::Entity => "Entity"@,
            ModelKind::UserFolder => "UserFolder"@,
            ModelKind::Custom { type_tag, .. } => type_tag@,
        }
    }

    /// A model of an observable kind is reported when the walk reaches it:
    /// a dialogue fragment as a line, the others as a plain model visit.
    pub open spec fn observable(self) -> bool {
        self is DialogueFragment || self is Entity || self is UserFolder || self is Custom
    }

    /// A container is entered through an input pin and holds its children.
    pub open spec fn container(self) -> bool {
        self is Dialogue || self is FlowFragment
    }
}

impl Model {
    /// The type tag of the model.
    pub fn type_tag(&self) -> (r: String)
        ensures
            r@ == self.kind.tag(),
    {
        match &self.kind {
            ModelKind::DialogueFragment { .. } => String::from_str("DialogueFragment"),
            ModelKind::Dialogue => String::from_str("Dialogue"),
            ModelKind::FlowFragment => String::from_str("FlowFragment"),
            ModelKind::Hub => String::from_str("Hub"),
            ModelKind::Jump { .. } => String::from_str("Jump"),
            ModelKind::Condition { .. } => String::from_str("Condition"),
            ModelKind::Instruction { .. } => String::from_str("Instruction"),
            ModelKind::Entity => String::from_str("Entity"),
            ModelKind::UserFolder => String::from_str("UserFolder"),
            ModelKind::Custom { type_tag, .. } => type_tag.clone(),
        }
    }

    /// Whether the model is of an observable kind.
    pub fn is_observable(&self) -> (b: bool)
        ensures
            b == self.kind.observable(),
    {
        match &self.kind {
            ModelKind::DialogueFragment { .. } => true,
            ModelKind::Entity => true,
            ModelKind::UserFolder => true,
            ModelKind::Custom { .. } => true,
            _ => false,
        }
    }

    /// Whether the model has a pin, input or output, with the identifier `pin`.
    pub open spec fn has_pin(self, pin: Seq<char>) -> bool {
        find_pin(self.input_pins@, pin, 0) is Some || find_pin(self.output_pins@, pin, 0) is Some
    }

    /// How a connection that ends in `pin` enters the model: through the
    /// first input pin of that identifier, else back through the first output
    /// pin of that identifier, else as at a start.
    pub open spec fn entry(self, pin: Seq<char>) -> Via {
        match find_pin(self.input_pins@, pin, 0) {
            Some(i) => Via::Input(i as usize),
            None => match find_pin(self.output_pins@, pin, 0) {
                Some(j) => Via::Output(j as usize),
                None => Via::Start,
            },
        }
    }

    /// Computes [`Model::entry`].
    pub fn resolve_entry(&self, pin: &String) -> (r: Via)
        ensures
            r == self.entry(pin@),
            via_in_range(self, r),
    {
        match find_pin_index(&self.input_pins, pin) {
            Some(i) => Via::Input(i),
            None => match find_pin_index(&self.output_pins, pin) {
                Some(j) => Via::Output(j),
                None => Via::Start,
            },
        }
    }
}

/// The pin index that `via` names exists in `m`.
pub open spec fn via_in_range(m: &Model, via: Via) -> bool {
    match via {
        Via::Start => true,
        Via::Input(i) => i < m.input_pins@.len(),
        Via::Output(j) => j < m.output_pins@.len(),
    }
}

/// The place is a model of `ms`, entered through a pin that it has.
pub open spec fn place_in_range(ms: Seq<Model>, p: Place) -> bool {
    p.node < ms.len() && via_in_range(&ms[p.node as int], p.via)
}

/// The index of the first model at or after `from` whose identifier is `id`.
pub open spec fn find_id(ms: Seq<Model>, id: Seq<char>, from: int) -> Option<int>
    decreases ms.len() - from,
{
    if from < 0 || from >= ms.len() {
        None
    } else if ms[from].id@ == id {
        Some(from)
    } else {
        find_id(ms, id, from + 1)
    }
}

/// The index of the first model at or after `from` whose external
/// identifier is `external_id`.
pub open spec fn find_external_id(ms: Seq<Model>, external_id: Seq<char>, from: int) -> Option<int>
    decreases ms.len() - from,
{
    if from < 0 || from >= ms.len() {
        None
    } else if ms[from].external_id@ == external_id {
        Some(from)
    } else {
        find_external_id(ms, external_id, from + 1)
    }
}

/// The index of the first pin at or after `from` whose identifier is `id`.
pub open spec fn find_pin(pins: Seq<Pin>, id: Seq<char>, from: int) -> Option<int>
    decreases pins.len() - from,
{
    if from < 0 || from >= pins.len() {
        None
    } else if pins[from].id@ == id {
        Some(from)
    } else {
        find_pin(pins, id, from + 1)
    }
}

/// What [`find_id`] finds is the first model of that identifier, and it
/// finds none only where there is none.
pub proof fn lemma_find_id(ms: Seq<Model>, id: Seq<char>, from: int)
    requires
        0 <= from,
    ensures
        match find_id(ms, id, from) {
            Some(i) => from <= i < ms.len() && ms[i].id@ == id && forall|j: int|
                from <= j < i ==> #[trigger] ms[j].id@ != id,
            None => forall|j: int| from <= j < ms.len() ==> #[trigger] ms[j].id@ != id,
        },
    decreases ms.len() - from,
{
    if from < ms.len() && ms[from].id@ != id {
        lemma_find_id(ms, id, from + 1);
    }
}

/// The index of the first model whose identifier is `id`.
pub fn find_model(models: &Vec<Model>, id: &String) -> (r: Option<usize>)
    ensures
        match r {
            Some(i) => find_id(models@, id@, 0) == Some(i as int) && i < models@.len(),
            None => find_id(models@, id@, 0) is None,
        },
{
    let mut i: usize = 0;
    while i < models.len()
        invariant
            i <= models@.len(),
            find_id(models@, id@, 0) == find_id(models@, id@, i as int),
        decreases models@.len() - i,
    {
        if models[i].id == *id {
            return Some(i);
        }
        i += 1;
    }
    None
}

/// The index of the first model whose external identifier is `external_id`.
pub fn find_model_by_external_id(models: &Vec<Model>, external_id: &String) -> (r: Option<usize>)
    ensures
        match r {
            Some(i) => find_external_id(models@, external_id@, 0) == Some(i as int) && i
                < models@.len(),
            None => find_external_id(models@, external_id@, 0) is None,
        },
{
    let mut i: usize = 0;
    while i < models.len()
        invariant
            i <= models@.len(),
            find_external_id(models@, external_id@, 0) == find_external_id(
                models@,
                external_id@,
                i as int,
            ),
        decreases models@.len() - i,
    {
        if models[i].external_id == *external_id {
            return Some(i);
        }
        i += 1;
    }
    None
}

/// The index of the first pin whose identifier is `id`.
pub fn find_pin_index(pins: &Vec<Pin>, id: &String) -> (r: Option<usize>)
    ensures
        match r {
            Some(i) => find_pin(pins@, id@, 0) == Some(i as int) && i < pins@.len(),
            None => find_pin(pins@, id@, 0) is None,
        },
{
    let mut i: usize = 0;
    while i < pins.len()
        invariant
            i <= pins@.len(),
            find_pin(pins@, id@, 0) == find_pin(pins@, id@, i as int),
        decreases pins@.len() - i,
    {
        if pins[i].id == *id {
            return Some(i);
        }
        i += 1;
    }
    None
}

} // verus!
