//! What makes a list of models a valid project, and the check of it.

use crate::error::SchemaFault;
use crate::model::{find_id, find_model, find_pin_index, lemma_find_id, Connection, Model, ModelKind, Pin};
use vstd::prelude::*;

verus! {

/// The connection ends in a pin of an existing model.
pub open spec fn connection_resolves(ms: Seq<Model>, c: Connection) -> bool {
    match find_id(ms, c.target@, 0) {
        Some(t) => ms[t].has_pin(c.target_pin@),
        None => false,
    }
}

/// Every connection of the pins resolves.
pub open spec fn pins_resolve(ms: Seq<Model>, pins: Seq<Pin>) -> bool {
    forall|i: int, j: int|
        0 <= i < pins.len() && 0 <= j < pins[i].connections@.len() ==> connection_resolves(
            ms,
            #[trigger] pins[i].connections@[j],
        )
}

/// What the kind of a model refers to exists: the target of a jump, and the
/// speaker of a dialogue fragment unless it is empty.
pub open spec fn kind_resolves(ms: Seq<Model>, kind: ModelKind) -> bool {
    match kind {
        ModelKind::Jump { target } => find_id(ms, target@, 0) is Some,
        ModelKind::DialogueFragment { speaker, .. } => speaker@.len() == 0 || find_id(
            ms,
            speaker@,
            0,
        ) is Some,
        _ => true,
    }
}

/// Every reference of the model resolves among `ms`.
pub open spec fn references_resolve(ms: Seq<Model>, m: Model) -> bool {
    pins_resolve(ms, m.input_pins@) && pins_resolve(ms, m.output_pins@) && kind_resolves(
        ms,
        m.kind,
    )
}

/// No two models have the same identifier.
pub open spec fn distinct_ids(ms: Seq<Model>) -> bool {
    forall|i: int, j: int|
        0 <= i < ms.len() && 0 <= j < ms.len() && i != j ==> #[trigger] ms[i].id@
            != #[trigger] ms[j].id@
}

/// The models are a valid project: identifiers are non-empty and distinct,
/// and every reference resolves.
pub open spec fn valid_models(ms: Seq<Model>) -> bool {
    &&& forall|i: int| 0 <= i < ms.len() ==> (#[trigger] ms[i]).id@.len() > 0
    &&& distinct_ids(ms)
    &&& forall|i: int| 0 <= i < ms.len() ==> references_resolve(ms, #[trigger] ms[i])
}

/// The fault is one that the models have.
pub open spec fn fault_holds(ms: Seq<Model>, f: SchemaFault) -> bool {
    match f {
        SchemaFault::NotJson => false,
        SchemaFault::Malformed => false,
        SchemaFault::EmptyId(i) => i < ms.len() && ms[i as int].id@.len() == 0,
        SchemaFault::DuplicateId(i, j) => i < j < ms.len() && ms[i as int].id@ == ms[j as int].id@,
        SchemaFault::DanglingReference(i) => i < ms.len() && !references_resolve(
            ms,
            ms[i as int],
        ),
    }
}

fn connection_ok(models: &Vec<Model>, c: &Connection) -> (b: bool)
    ensures
        b == connection_resolves(models@, *c),
{
    match find_model(models, &c.target) {
        Some(t) => {
            let m = &models[t];
            find_pin_index(&m.input_pins, &c.target_pin).is_some() || find_pin_index(
                &m.output_pins,
                &c.target_pin,
            ).is_some()
        },
        None => false,
    }
}

fn pins_ok(models: &Vec<Model>, pins: &Vec<Pin>) -> (b: bool)
    ensures
        b == pins_resolve(models@, pins@),
{
    let mut i: usize = 0;
    while i < pins.len()
        invariant
            i <= pins@.len(),
            forall|a: int, b: int|
                0 <= a < i && 0 <= b < pins@[a].connections@.len() ==> connection_resolves(
                    models@,
                    #[trigger] pins@[a].connections@[b],
                ),
        decreases pins@.len() - i,
    {
        let conns = &pins[i].connections;
        let mut j: usize = 0;
        while j < conns.len()
            invariant
                i < pins@.len(),
                *conns == pins@[i as int].connections,
                j <= conns@.len(),
                forall|b: int| 0 <= b < j ==> connection_resolves(models@, #[trigger] conns@[b]),
            decreases conns@.len() - j,
        {
            if !connection_ok(models, &conns[j]) {
                assert(!connection_resolves(models@, pins@[i as int].connections@[j as int]));
                return false;
            }
            j += 1;
        }
        i += 1;
    }
    true
}

fn model_ok(models: &Vec<Model>, m: &Model) -> (b: bool)
    ensures
        b == references_resolve(models@, *m),
{
    if !pins_ok(models, &m.input_pins) {
        return false;
    }
    if !pins_ok(models, &m.output_pins) {
        return false;
    }
    match &m.kind {
        ModelKind::Jump { target } => find_model(models, target).is_some(),
        ModelKind::DialogueFragment { speaker, .. } => speaker.as_str().is_empty() || find_model(
            models,
            speaker,
        ).is_some(),
        _ => true,
    }
}

/// Checks that the models are a valid project, and names a fault where they
/// are not.
pub fn validate(models: &Vec<Model>) -> (r: Result<(), SchemaFault>)
    ensures
        r is Ok <==> valid_models(models@),
        r matches Err(f) ==> fault_holds(models@, f),
{
    let mut i: usize = 0;
    while i < models.len()
        invariant
            i <= models@.len(),
            forall|a: int| 0 <= a < i ==> (#[trigger] models@[a]).id@.len() > 0,
            forall|a: int, b: int|
                0 <= a < b < i ==> #[trigger] models@[a].id@ != #[trigger] models@[b].id@,
            forall|a: int| 0 <= a < i ==> references_resolve(models@, #[trigger] models@[a]),
        decreases models@.len() - i,
    {
        let m = &models[i];
        if m.id.as_str().is_empty() {
            return Err(SchemaFault::EmptyId(i));
        }
        proof {
            lemma_find_id(models@, m.id@, 0);
        }
        match find_model(models, &m.id) {
            Some(first) => {
                if first != i {
                    return Err(SchemaFault::DuplicateId(first, i));
                }
            },
            None => {},
        }
        if !model_ok(models, m) {
            return Err(SchemaFault::DanglingReference(i));
        }
        i += 1;
    }
    assert(distinct_ids(models@)) by {
        assert forall|a: int, b: int|
            0 <= a < models@.len() && 0 <= b < models@.len() && a != b implies #[trigger] models@[a].id@
            != #[trigger] models@[b].id@ by {
            if a < b {
                assert(models@[a].id@ != models@[b].id@);
            } else {
                assert(models@[b].id@ != models@[a].id@);
            }
        }
    }
    Ok(())
}

} // verus!
