//! The project file format: how a JSON document is read into the models and
//! the hierarchy of a project.
//!
//! ```text
//! document  := { "Packages": [ package* ], "Hierarchy": node, ... }
//! package   := { "Models": [ model* ], ... }
//! model     := { "Type": text, "Properties": properties, "Template": any? }
//! properties:= { "Id": text, "ExternalId"?, "DisplayName"?, "TechnicalName"?,
//!                "InputPins": [ pin* ]?, "OutputPins": [ pin* ]?, ... }
//! pin       := { "Id": text, "Text": text?, "Connections": [ connection* ]? }
//! connection:= { "Target": text, "TargetPin": text }
//! node      := { "Id": text, "Type": text, "Children": [ node* ]? }
//! ```
//!
//! A member marked `?` may be missing: a missing text is empty, a missing
//! list has no items. The models of all packages make up the project, in
//! the order of the document. Members that are not named here are passed
//! over, but for a model of an unknown type, which keeps all its properties.

use crate::json::{
    get_list, get_member, get_required_list, get_required_text, get_text, json_views,
    list_member, member, required_list, required_text, text_member, Json, JsonView,
};
use crate::model::{Connection, HierarchyNode, Model, ModelKind, Pin};
use vstd::prelude::*;
use vstd::string::StringExecFns;

verus! {

/// The depth to which a hierarchy is read.
pub const MAX_DEPTH: usize = 128;

// ---------------------------------------------------------------------
// Connections and pins
// ---------------------------------------------------------------------

/// The value can be read as a connection.
pub open spec fn connection_readable(j: JsonView) -> bool {
    required_text(j, "Target"@) is Some && required_text(j, "TargetPin"@) is Some
}

/// The connection is what the value reads as.
pub open spec fn is_connection(j: JsonView, c: Connection) -> bool {
    required_text(j, "Target"@) == Some(c.target@) && required_text(j, "TargetPin"@) == Some(
        c.target_pin@,
    )
}

/// Every item can be read as a connection.
pub open spec fn connections_readable(items: Seq<JsonView>) -> bool {
    forall|i: int| 0 <= i < items.len() ==> connection_readable(#[trigger] items[i])
}

/// The connections are what the items read as, one for one.
pub open spec fn are_connections(items: Seq<JsonView>, cs: Seq<Connection>) -> bool {
    items.len() == cs.len() && forall|i: int|
        #![trigger cs[i]]
        0 <= i < items.len() ==> is_connection(items[i], cs[i])
}

/// The value can be read as a pin.
pub open spec fn pin_readable(j: JsonView) -> bool {
    &&& required_text(j, "Id"@) is Some
    &&& text_member(j, "Text"@) is Some
    &&& match list_member(j, "Connections"@) {
        Some(items) => connections_readable(items),
        None => false,
    }
}

/// The pin is what the value reads as: its text is the guard of the pin.
pub open spec fn is_pin(j: JsonView, p: Pin) -> bool {
    &&& required_text(j, "Id"@) == Some(p.id@)
    &&& text_member(j, "Text"@) == Some(p.guard@)
    &&& match list_member(j, "Connections"@) {
        Some(items) => are_connections(items, p.connections@),
        None => false,
    }
}

/// Every item can be read as a pin.
pub open spec fn pins_readable(items: Seq<JsonView>) -> bool {
    forall|i: int| 0 <= i < items.len() ==> pin_readable(#[trigger] items[i])
}

/// The pins are what the items read as, one for one.
pub open spec fn are_pins(items: Seq<JsonView>, pins: Seq<Pin>) -> bool {
    items.len() == pins.len() && forall|i: int|
        #![trigger pins[i]]
        0 <= i < items.len() ==> is_pin(items[i], pins[i])
}

fn read_connection(j: &Json) -> (r: Option<Connection>)
    ensures
        match r {
            Some(c) => is_connection(j@, c),
            None => !connection_readable(j@),
        },
{
    let target = match get_required_text(j, "Target") {
        Some(t) => t,
        None => {
            return None;
        },
    };
    match get_required_text(j, "TargetPin") {
        Some(target_pin) => Some(Connection { target, target_pin }),
        None => None,
    }
}

fn read_connections(list: Option<&Vec<Json>>) -> (r: Option<Vec<Connection>>)
    ensures
        match list {
            Some(v) => match r {
                Some(cs) => are_connections(json_views(v@), cs@),
                None => !connections_readable(json_views(v@)),
            },
            None => r matches Some(cs) && cs@.len() == 0,
        },
{
    let mut out: Vec<Connection> = Vec::new();
    let items = match list {
        Some(v) => v,
        None => {
            return Some(out);
        },
    };
    let mut i: usize = 0;
    while i < items.len()
        invariant
            list == Some(items),
            i <= items@.len(),
            out@.len() == i,
            forall|k: int|
                #![trigger out@[k]]
                0 <= k < i ==> is_connection(json_views(items@)[k], out@[k]),
        decreases items@.len() - i,
    {
        match read_connection(&items[i]) {
            Some(c) => {
                out.push(c);
            },
            None => {
                assert(!connection_readable(json_views(items@)[i as int]));
                return None;
            },
        }
        i += 1;
    }
    Some(out)
}

fn read_pin(j: &Json) -> (r: Option<Pin>)
    ensures
        match r {
            Some(p) => is_pin(j@, p),
            None => !pin_readable(j@),
        },
{
    let id = match get_required_text(j, "Id") {
        Some(t) => t,
        None => {
            return None;
        },
    };
    let guard = match get_text(j, "Text") {
        Some(t) => t,
        None => {
            return None;
        },
    };
    let items = match get_list(j, "Connections") {
        Some(v) => v,
        None => {
            return None;
        },
    };
    match read_connections(items) {
        Some(connections) => Some(Pin { id, guard, connections }),
        None => None,
    }
}

fn read_pins(list: Option<&Vec<Json>>) -> (r: Option<Vec<Pin>>)
    ensures
        match list {
            Some(v) => match r {
                Some(pins) => are_pins(json_views(v@), pins@),
                None => !pins_readable(json_views(v@)),
            },
            None => r matches Some(pins) && pins@.len() == 0,
        },
{
    let mut out: Vec<Pin> = Vec::new();
    let items = match list {
        Some(v) => v,
        None => {
            return Some(out);
        },
    };
    let mut i: usize = 0;
    while i < items.len()
        invariant
            list == Some(items),
            i <= items@.len(),
            out@.len() == i,
            forall|k: int| #![trigger out@[k]] 0 <= k < i ==> is_pin(json_views(items@)[k], out@[k]),
        decreases items@.len() - i,
    {
        match read_pin(&items[i]) {
            Some(p) => {
                out.push(p);
            },
            None => {
                assert(!pin_readable(json_views(items@)[i as int]));
                return None;
            },
        }
        i += 1;
    }
    Some(out)
}

// ---------------------------------------------------------------------
// Models
// ---------------------------------------------------------------------

/// The properties hold what a model of the type `tag` needs.
pub open spec fn kind_readable(tag: Seq<char>, props: JsonView) -> bool {
    if tag == "DialogueFragment"@ {
        text_member(props, "Text"@) is Some && text_member(props, "MenuText"@) is Some
            && text_member(props, "Speaker"@) is Some
    } else if tag == "Jump"@ {
        required_text(props, "Target"@) is Some
    } else if tag == "Condition"@ || tag == "Instruction"@ {
        text_member(props, "Expression"@) is Some
    } else {
        true
    }
}

/// The kind is what the type `tag` and the properties read as. A type that
/// is none of the nine known ones gives a custom kind, which keeps the tag
/// and all the properties.
pub open spec fn is_kind(tag: Seq<char>, props: JsonView, k: ModelKind) -> bool {
    if tag == "DialogueFragment"@ {
        match k {
            ModelKind::DialogueFragment { text, menu_text, speaker } => text_member(
                props,
                "Text"@,
            ) == Some(text@) && text_member(props, "MenuText"@) == Some(menu_text@) && text_member(
                props,
                "Speaker"@,
            ) == Some(speaker@),
            _ => false,
        }
    } else if tag == "Dialogue"@ {
        k is Dialogue
    } else if tag == "FlowFragment"@ {
        k is FlowFragment
    } else if tag == "Hub"@ {
        k is Hub
    } else if tag == "Jump"@ {
        match k {
            ModelKind::Jump { target } => required_text(props, "Target"@) == Some(target@),
            _ => false,
        }
    } else if tag == "Condition"@ {
        match k {
            ModelKind::Condition { expression } => text_member(props, "Expression"@) == Some(
                expression@,
            ),
            _ => false,
        }
    } else if tag == "Instruction"@ {
        match k {
            ModelKind::Instruction { expression } => text_member(props, "Expression"@) == Some(
                expression@,
            ),
            _ => false,
        }
    } else if tag == "Entity"@ {
        k is Entity
    } else if tag == "UserFolder"@ {
        k is UserFolder
    } else {
        match k {
            ModelKind::Custom { type_tag, properties } => type_tag@ == tag && properties@ == props,
            _ => false,
        }
    }
}

/// The value can be read as a model.
pub open spec fn model_readable(j: JsonView) -> bool {
    match (required_text(j, "Type"@), member(j, "Properties"@)) {
        (Some(tag), Some(props)) => {
            &&& required_text(props, "Id"@) is Some
            &&& text_member(props, "ExternalId"@) is Some
            &&& text_member(props, "DisplayName"@) is Some
            &&& text_member(props, "TechnicalName"@) is Some
            &&& match list_member(props, "InputPins"@) {
                Some(items) => pins_readable(items),
                None => false,
            }
            &&& match list_member(props, "OutputPins"@) {
                Some(items) => pins_readable(items),
                None => false,
            }
            &&& kind_readable(tag, props)
        },
        _ => false,
    }
}

/// The model is what the value reads as.
pub open spec fn is_model(j: JsonView, m: Model) -> bool {
    match (required_text(j, "Type"@), member(j, "Properties"@)) {
        (Some(tag), Some(props)) => {
            &&& required_text(props, "Id"@) == Some(m.id@)
            &&& text_member(props, "ExternalId"@) == Some(m.external_id@)
            &&& text_member(props, "DisplayName"@) == Some(m.display_name@)
            &&& text_member(props, "TechnicalName"@) == Some(m.technical_name@)
            &&& match list_member(props, "InputPins"@) {
                Some(items) => are_pins(items, m.input_pins@),
                None => false,
            }
            &&& match list_member(props, "OutputPins"@) {
                Some(items) => are_pins(items, m.output_pins@),
                None => false,
            }
            &&& is_kind(tag, props, m.kind)
            &&& match member(j, "Template"@) {
                Some(t) => m.template matches Some(kept) && kept@ == t,
                None => m.template is None,
            }
        },
        _ => false,
    }
}

/// Every item can be read as a model.
pub open spec fn models_readable(items: Seq<JsonView>) -> bool {
    forall|i: int| 0 <= i < items.len() ==> model_readable(#[trigger] items[i])
}

/// The models are what the items read as, one for one.
pub open spec fn are_models(items: Seq<JsonView>, models: Seq<Model>) -> bool {
    items.len() == models.len() && forall|i: int|
        #![trigger models[i]]
        0 <= i < items.len() ==> is_model(items[i], models[i])
}

/// The kind that a model reads as has the type of the model as its tag.
pub proof fn lemma_kind_keeps_tag(tag: Seq<char>, props: JsonView, k: ModelKind)
    requires
        is_kind(tag, props, k),
    ensures
        k.tag() == tag,
{
}

fn is_text(s: &String, literal: &str) -> (b: bool)
    ensures
        b == (s@ == literal@),
{
    *s == String::from_str(literal)
}

fn read_kind(tag: &String, props: &Json) -> (r: Option<ModelKind>)
    ensures
        match r {
            Some(k) => is_kind(tag@, props@, k),
            None => !kind_readable(tag@, props@),
        },
{
    if is_text(tag, "DialogueFragment") {
        let text = match get_text(props, "Text") {
            Some(t) => t,
            None => {
                return None;
            },
        };
        let menu_text = match get_text(props, "MenuText") {
            Some(t) => t,
            None => {
                return None;
            },
        };
        match get_text(props, "Speaker") {
            Some(speaker) => Some(ModelKind::DialogueFragment { text, menu_text, speaker }),
            None => None,
        }
    } else if is_text(tag, "Dialogue") {
        Some(ModelKind::Dialogue)
    } else if is_text(tag, "FlowFragment") {
        Some(ModelKind::FlowFragment)
    } else if is_text(tag, "Hub") {
        Some(ModelKind::Hub)
    } else if is_text(tag, "Jump") {
        match get_required_text(props, "Target") {
            Some(target) => Some(ModelKind::Jump { target }),
            None => None,
        }
    } else if is_text(tag, "Condition") {
        match get_text(props, "Expression") {
            Some(expression) => Some(ModelKind::Condition { expression }),
            None => None,
        }
    } else if is_text(tag, "Instruction") {
        match get_text(props, "Expression") {
            Some(expression) => Some(ModelKind::Instruction { expression }),
            None => None,
        }
    } else if is_text(tag, "Entity") {
        Some(ModelKind::Entity)
    } else if is_text(tag, "UserFolder") {
        Some(ModelKind::UserFolder)
    } else {
        Some(ModelKind::Custom { type_tag: tag.clone(), properties: props.copy() })
    }
}

fn read_model(j: &Json) -> (r: Option<Model>)
    ensures
        match r {
            Some(m) => is_model(j@, m),
            None => !model_readable(j@),
        },
{
    let tag = match get_required_text(j, "Type") {
        Some(t) => t,
        None => {
            return None;
        },
    };
    let props = match get_member(j, "Properties") {
        Some(p) => p,
        None => {
            return None;
        },
    };
    let id = match get_required_text(props, "Id") {
        Some(t) => t,
        None => {
            return None;
        },
    };
    let external_id = match get_text(props, "ExternalId") {
        Some(t) => t,
        None => {
            return None;
        },
    };
    let display_name = match get_text(props, "DisplayName") {
        Some(t) => t,
        None => {
            return None;
        },
    };
    let technical_name = match get_text(props, "TechnicalName") {
        Some(t) => t,
        None => {
            return None;
        },
    };
    let input_pins = match get_list(props, "InputPins") {
        Some(items) => match read_pins(items) {
            Some(pins) => pins,
            None => {
                return None;
            },
        },
        None => {
            return None;
        },
    };
    let output_pins = match get_list(props, "OutputPins") {
        Some(items) => match read_pins(items) {
            Some(pins) => pins,
            None => {
                return None;
            },
        },
        None => {
            return None;
        },
    };
    let kind = match read_kind(&tag, props) {
        Some(k) => k,
        None => {
            return None;
        },
    };
    let template = match get_member(j, "Template") {
        Some(t) => Some(t.copy()),
        None => None,
    };
    Some(
        Model {
            id,
            external_id,
            display_name,
            technical_name,
            template,
            input_pins,
            output_pins,
            kind,
        },
    )
}

fn read_models(items: &Vec<Json>) -> (r: Option<Vec<Model>>)
    ensures
        match r {
            Some(models) => are_models(json_views(items@), models@),
            None => !models_readable(json_views(items@)),
        },
{
    let mut out: Vec<Model> = Vec::new();
    let mut i: usize = 0;
    while i < items.len()
        invariant
            i <= items@.len(),
            out@.len() == i,
            forall|k: int|
                #![trigger out@[k]]
                0 <= k < i ==> is_model(json_views(items@)[k], out@[k]),
        decreases items@.len() - i,
    {
        match read_model(&items[i]) {
            Some(m) => {
                out.push(m);
            },
            None => {
                assert(!model_readable(json_views(items@)[i as int]));
                return None;
            },
        }
        i += 1;
    }
    Some(out)
}

// ---------------------------------------------------------------------
// The hierarchy
// ---------------------------------------------------------------------

/// The value can be read as a hierarchy node of at most `depth` levels
/// below it.
pub open spec fn node_readable(j: JsonView, depth: nat) -> bool
    decreases depth,
{
    &&& required_text(j, "Id"@) is Some
    &&& required_text(j, "Type"@) is Some
    &&& match member(j, "Children"@) {
        None => true,
        Some(JsonView::Array(items)) => depth > 0 && forall|i: int|
            0 <= i < items.len() ==> node_readable(#[trigger] items[i], (depth - 1) as nat),
        Some(_) => false,
    }
}

/// The node is what the value reads as. A node without the member
/// `Children` has no list of children.
pub open spec fn is_node(j: JsonView, n: HierarchyNode, depth: nat) -> bool
    decreases depth,
{
    &&& required_text(j, "Id"@) == Some(n.id@)
    &&& required_text(j, "Type"@) == Some(n.kind@)
    &&& match member(j, "Children"@) {
        None => n.children is None,
        Some(JsonView::Array(items)) => depth > 0 && match n.children {
            Some(kids) => kids@.len() == items.len() && forall|i: int|
                #![trigger kids@[i]]
                0 <= i < items.len() ==> is_node(items[i], kids@[i], (depth - 1) as nat),
            None => false,
        },
        Some(_) => false,
    }
}

fn read_node(j: &Json, depth: usize) -> (r: Option<HierarchyNode>)
    ensures
        match r {
            Some(n) => is_node(j@, n, depth as nat),
            None => !node_readable(j@, depth as nat),
        },
    decreases depth,
{
    let id = match get_required_text(j, "Id") {
        Some(t) => t,
        None => {
            return None;
        },
    };
    let kind = match get_required_text(j, "Type") {
        Some(t) => t,
        None => {
            return None;
        },
    };
    match get_member(j, "Children") {
        None => Some(HierarchyNode { id, kind, children: None }),
        Some(Json::Array(items)) => {
            if depth == 0 {
                return None;
            }
            let ghost views = Json::Array(*items)@->Array_0;
            assert(views =~= json_views(items@));
            let mut kids: Vec<HierarchyNode> = Vec::new();
            let mut i: usize = 0;
            while i < items.len()
                invariant
                    depth > 0,
                    required_text(j@, "Id"@) is Some,
                    required_text(j@, "Type"@) is Some,
                    member(j@, "Children"@) == Some(JsonView::Array(json_views(items@))),
                    i <= items@.len(),
                    kids@.len() == i,
                    forall|k: int|
                        #![trigger kids@[k]]
                        0 <= k < i ==> is_node(
                            json_views(items@)[k],
                            kids@[k],
                            (depth - 1) as nat,
                        ),
                decreases items@.len() - i,
            {
                match read_node(&items[i], depth - 1) {
                    Some(n) => {
                        kids.push(n);
                    },
                    None => {
                        proof {
                            let views = json_views(items@);
                            assert(!node_readable(views[i as int], (depth - 1) as nat));
                            if node_readable(j@, depth as nat) {
                                assert(member(j@, "Children"@)->Some_0->Array_0 == views);
                                assert(false);
                            }
                        }
                        return None;
                    },
                }
                i += 1;
            }
            Some(HierarchyNode { id, kind, children: Some(kids) })
        },
        Some(_) => None,
    }
}

// ---------------------------------------------------------------------
// The document
// ---------------------------------------------------------------------

/// The value can be read as a package.
pub open spec fn package_readable(j: JsonView) -> bool {
    match required_list(j, "Models"@) {
        Some(items) => models_readable(items),
        None => false,
    }
}

/// Every item can be read as a package.
pub open spec fn packages_readable(items: Seq<JsonView>) -> bool {
    forall|i: int| 0 <= i < items.len() ==> package_readable(#[trigger] items[i])
}

/// The models are what the packages read as, one package after the other.
pub open spec fn are_packages(items: Seq<JsonView>, models: Seq<Model>) -> bool
    decreases items.len(),
{
    if items.len() == 0 {
        models.len() == 0
    } else {
        match required_list(items.last(), "Models"@) {
            Some(last) => {
                let split = models.len() - last.len();
                &&& 0 <= split
                &&& are_packages(items.drop_last(), models.subrange(0, split))
                &&& are_models(last, models.subrange(split, models.len() as int))
            },
            None => false,
        }
    }
}

/// The document can be read as a project.
pub open spec fn project_readable(doc: JsonView) -> bool {
    match (required_list(doc, "Packages"@), member(doc, "Hierarchy"@)) {
        (Some(packages), Some(root)) => packages_readable(packages) && node_readable(
            root,
            MAX_DEPTH as nat,
        ),
        _ => false,
    }
}

/// The models and the hierarchy are what the document reads as.
pub open spec fn is_project(doc: JsonView, models: Seq<Model>, hierarchy: HierarchyNode) -> bool {
    match (required_list(doc, "Packages"@), member(doc, "Hierarchy"@)) {
        (Some(packages), Some(root)) => are_packages(packages, models) && is_node(
            root,
            hierarchy,
            MAX_DEPTH as nat,
        ),
        _ => false,
    }
}

proof fn lemma_pins_read_are_readable(items: Seq<JsonView>, pins: Seq<Pin>)
    requires
        are_pins(items, pins),
    ensures
        pins_readable(items),
{
    assert forall|i: int| 0 <= i < items.len() implies pin_readable(#[trigger] items[i]) by {
        let p = pins[i];
        assert(is_pin(items[i], p));
        let conns = list_member(items[i], "Connections"@)->Some_0;
        assert forall|k: int| 0 <= k < conns.len() implies connection_readable(
            #[trigger] conns[k],
        ) by {
            assert(is_connection(conns[k], p.connections@[k]));
        }
    }
}

/// A kind is read only from properties that hold what its type needs. The
/// nine known type tags differ in length, so each type is told apart.
proof fn lemma_kind_read_is_readable(tag: Seq<char>, props: JsonView, k: ModelKind)
    requires
        is_kind(tag, props, k),
    ensures
        kind_readable(tag, props),
{
    reveal_strlit("DialogueFragment");
    reveal_strlit("Dialogue");
    reveal_strlit("FlowFragment");
    reveal_strlit("Hub");
    reveal_strlit("Jump");
    reveal_strlit("Condition");
    reveal_strlit("Instruction");
    assert("DialogueFragment"@.len() == 16);
    assert("Dialogue"@.len() == 8);
    assert("FlowFragment"@.len() == 12);
    assert("Hub"@.len() == 3);
    assert("Jump"@.len() == 4);
    assert("Condition"@.len() == 9);
    assert("Instruction"@.len() == 11);
}

proof fn lemma_models_read_are_readable(items: Seq<JsonView>, models: Seq<Model>)
    requires
        are_models(items, models),
    ensures
        models_readable(items),
{
    assert forall|i: int| 0 <= i < items.len() implies model_readable(#[trigger] items[i]) by {
        let m = models[i];
        assert(is_model(items[i], m));
        let props = member(items[i], "Properties"@)->Some_0;
        lemma_kind_read_is_readable(required_text(items[i], "Type"@)->Some_0, props, m.kind);
        lemma_pins_read_are_readable(list_member(props, "InputPins"@)->Some_0, m.input_pins@);
        lemma_pins_read_are_readable(list_member(props, "OutputPins"@)->Some_0, m.output_pins@);
    }
}

proof fn lemma_packages_read_are_readable(items: Seq<JsonView>, models: Seq<Model>)
    requires
        are_packages(items, models),
    ensures
        packages_readable(items),
    decreases items.len(),
{
    if items.len() > 0 {
        let last = required_list(items.last(), "Models"@)->Some_0;
        let split = models.len() - last.len();
        lemma_packages_read_are_readable(items.drop_last(), models.subrange(0, split));
        lemma_models_read_are_readable(last, models.subrange(split, models.len() as int));
        assert forall|i: int| 0 <= i < items.len() implies package_readable(
            #[trigger] items[i],
        ) by {
            if i < items.len() - 1 {
                assert(items.drop_last()[i] == items[i]);
            }
        }
    }
}

proof fn lemma_node_read_is_readable(j: JsonView, n: HierarchyNode, depth: nat)
    requires
        is_node(j, n, depth),
    ensures
        node_readable(j, depth),
    decreases depth,
{
    match member(j, "Children"@) {
        Some(JsonView::Array(items)) => {
            let kids = n.children->Some_0;
            assert forall|i: int| 0 <= i < items.len() implies node_readable(
                #[trigger] items[i],
                (depth - 1) as nat,
            ) by {
                assert(is_node(items[i], kids@[i], (depth - 1) as nat));
                lemma_node_read_is_readable(items[i], kids@[i], (depth - 1) as nat);
            }
        },
        _ => {},
    }
}

/// What a document reads as, it can be read as.
pub proof fn lemma_project_read_is_readable(
    doc: JsonView,
    models: Seq<Model>,
    hierarchy: HierarchyNode,
)
    requires
        is_project(doc, models, hierarchy),
    ensures
        project_readable(doc),
{
    lemma_packages_read_are_readable(required_list(doc, "Packages"@)->Some_0, models);
    lemma_node_read_is_readable(member(doc, "Hierarchy"@)->Some_0, hierarchy, MAX_DEPTH as nat);
}

fn read_packages(items: &Vec<Json>) -> (r: Option<Vec<Model>>)
    ensures
        match r {
            Some(models) => are_packages(json_views(items@), models@),
            None => !packages_readable(json_views(items@)),
        },
{
    let mut out: Vec<Model> = Vec::new();
    let ghost all = json_views(items@);
    let mut i: usize = 0;
    assert(all.subrange(0, 0) =~= Seq::<JsonView>::empty());
    while i < items.len()
        invariant
            i <= items@.len(),
            all == json_views(items@),
            are_packages(all.subrange(0, i as int), out@),
        decreases items@.len() - i,
    {
        let list = match get_required_list(&items[i], "Models") {
            Some(list) => list,
            None => {
                assert(!package_readable(all[i as int]));
                return None;
            },
        };
        let mut batch = match read_models(list) {
            Some(models) => models,
            None => {
                assert(!package_readable(all[i as int]));
                return None;
            },
        };
        let ghost before = out@;
        let ghost added = batch@;
        out.append(&mut batch);
        proof {
            let next = all.subrange(0, i + 1);
            assert(next.drop_last() =~= all.subrange(0, i as int));
            assert(next.last() == all[i as int]);
            let last = required_list(all[i as int], "Models"@)->Some_0;
            assert(last.len() == added.len());
            assert(out@.subrange(0, out@.len() - last.len()) =~= before);
            assert(out@.subrange(out@.len() - last.len(), out@.len() as int) =~= added);
        }
        i += 1;
    }
    assert(all.subrange(0, i as int) =~= all);
    Some(out)
}

/// Reads a document into the models and the hierarchy of a project.
pub fn read_project(doc: &Json) -> (r: Option<(Vec<Model>, HierarchyNode)>)
    ensures
        match r {
            Some((models, hierarchy)) => is_project(doc@, models@, hierarchy),
            None => !project_readable(doc@),
        },
{
    let packages = match get_required_list(doc, "Packages") {
        Some(list) => list,
        None => {
            return None;
        },
    };
    let root = match get_member(doc, "Hierarchy") {
        Some(root) => root,
        None => {
            return None;
        },
    };
    let models = match read_packages(packages) {
        Some(models) => models,
        None => {
            return None;
        },
    };
    match read_node(root, MAX_DEPTH) {
        Some(hierarchy) => Some((models, hierarchy)),
        None => None,
    }
}

} // verus!
