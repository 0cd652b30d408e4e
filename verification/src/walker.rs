//! The graph walker: from a place, along the open connections of its pins,
//! through the models that are passed in silence, to the next model that is
//! reported, a choice, or the end.

use crate::eval::{evaluate_predicate, execute_instructions, instructions, predicate};
use crate::hierarchy::{children_of, find_path, search};
use crate::model::{
    find_id, find_model, place_in_range, via_in_range, Connection, HierarchyNode, Model,
    ModelKind, Pin, Place, Via,
};
use crate::syntax::EvalError;
use crate::value::{State, ValueView};
use vstd::prelude::*;

verus! {

/// Where a connection leads: the model of its target identifier, entered
/// through the pin that it names. A connection whose target is no model
/// leads nowhere.
pub open spec fn arrival(ms: Seq<Model>, c: Connection) -> Option<Place> {
    match find_id(ms, c.target@, 0) {
        Some(n) => Some(Place { node: n as usize, via: ms[n].entry(c.target_pin@) }),
        None => None,
    }
}

/// Where the connections of one pin lead, in authored order.
pub open spec fn pin_targets(ms: Seq<Model>, conns: Seq<Connection>) -> Seq<Place>
    decreases conns.len(),
{
    if conns.len() == 0 {
        Seq::empty()
    } else {
        let before = pin_targets(ms, conns.drop_last());
        match arrival(ms, conns.last()) {
            Some(p) => before.push(p),
            None => before,
        }
    }
}

/// Where the open connections of `pins` lead, in authored order. A pin is
/// open where its guard is true in the state `m`; the guards are evaluated
/// in order, and the first that fails to evaluate fails the whole.
pub open spec fn open_targets(ms: Seq<Model>, pins: Seq<Pin>, m: Map<Seq<char>, ValueView>) -> Result<
    Seq<Place>,
    EvalError,
>
    decreases pins.len(),
{
    if pins.len() == 0 {
        Ok(Seq::empty())
    } else {
        match predicate(pins[0].guard@, m) {
            Err(e) => Err(e),
            Ok(open) => match open_targets(ms, pins.drop_first(), m) {
                Err(e) => Err(e),
                Ok(rest) => if open {
                    Ok(pin_targets(ms, pins[0].connections@) + rest)
                } else {
                    Ok(rest)
                },
            },
        }
    }
}

/// Whether every pin of `pins` is closed in the state `m`. The guards are
/// evaluated in order up to the first open pin.
pub open spec fn all_closed(pins: Seq<Pin>, m: Map<Seq<char>, ValueView>) -> Result<bool, EvalError>
    decreases pins.len(),
{
    if pins.len() == 0 {
        Ok(true)
    } else {
        match predicate(pins[0].guard@, m) {
            Err(e) => Err(e),
            Ok(true) => Ok(false),
            Ok(false) => all_closed(pins.drop_first(), m),
        }
    }
}

/// The pins of `pins` from `lo` up to `hi`, cut to the pins that there are.
pub open spec fn pin_range(pins: Seq<Pin>, lo: int, hi: int) -> Seq<Pin> {
    if 0 <= lo <= hi <= pins.len() {
        pins.subrange(lo, hi)
    } else if 0 <= lo <= pins.len() && pins.len() < hi {
        pins.subrange(lo, pins.len() as int)
    } else {
        Seq::empty()
    }
}

/// The pins through which the walk leaves a model that it entered by `via`,
/// when the condition of a `Condition` came out as `branch`:
///
/// - entered back through an output pin (a child leaves its container):
///   that output pin;
/// - a `Dialogue` or `FlowFragment`: the input pin through which it was
///   entered, at a start its first input pin;
/// - a `Condition`: its first output pin where the condition is true, its
///   second where it is false;
/// - any other model: all of its output pins.
pub open spec fn exit_pins(model: Model, via: Via, branch: bool) -> Seq<Pin> {
    match via {
        Via::Output(j) => pin_range(model.output_pins@, j as int, j + 1),
        _ => match model.kind {
            ModelKind::Dialogue | ModelKind::FlowFragment => match via {
                Via::Input(i) => pin_range(model.input_pins@, i as int, i + 1),
                _ => pin_range(model.input_pins@, 0, 1),
            },
            ModelKind::Condition { .. } => if branch {
                pin_range(model.output_pins@, 0, 1)
            } else {
                pin_range(model.output_pins@, 1, 2)
            },
            _ => model.output_pins@,
        },
    }
}

/// One step of the walk: leaving the place `p` in the state `m`. The result
/// is the list of places to which the open connections lead, and the state
/// after the step.
///
/// A `Jump` that was not entered back through an output pin leads to its
/// target. An `Instruction` runs its assignments before its pins are looked
/// at, and a `Condition` is evaluated to pick the pin. No other model
/// changes the state. A `Dialogue` or `FlowFragment` is entered at its first
/// child: of the open connections of its entry pin only the first is taken.
#[verifier::opaque]
pub open spec fn depart(ms: Seq<Model>, m: Map<Seq<char>, ValueView>, p: Place) -> Result<
    (Seq<Place>, Map<Seq<char>, ValueView>),
    EvalError,
> {
    let model = ms[p.node as int];
    if p.via is Output {
        leave(ms, m, exit_pins(model, p.via, true))
    } else {
        match model.kind {
            ModelKind::Jump { target } => match find_id(ms, target@, 0) {
                Some(t) => Ok((seq![Place { node: t as usize, via: Via::Start }], m)),
                None => Ok((Seq::empty(), m)),
            },
            ModelKind::Instruction { expression } => match instructions(expression@, m) {
                Ok(m2) => leave(ms, m2, exit_pins(model, p.via, true)),
                Err(e) => Err(e),
            },
            ModelKind::Condition { expression } => match predicate(expression@, m) {
                Ok(b) => leave(ms, m, exit_pins(model, p.via, b)),
                Err(e) => Err(e),
            },
            ModelKind::Dialogue | ModelKind::FlowFragment => match open_targets(
                ms,
                exit_pins(model, p.via, true),
                m,
            ) {
                Ok(ts) => Ok((first_only(ts), m)),
                Err(e) => Err(e),
            },
            _ => leave(ms, m, exit_pins(model, p.via, true)),
        }
    }
}

/// The first place of the list, where it has one.
pub open spec fn first_only(ts: Seq<Place>) -> Seq<Place> {
    if ts.len() > 1 {
        ts.subrange(0, 1)
    } else {
        ts
    }
}

/// The open targets of `pins`, with the state unchanged.
pub open spec fn leave(ms: Seq<Model>, m: Map<Seq<char>, ValueView>, pins: Seq<Pin>) -> Result<
    (Seq<Place>, Map<Seq<char>, ValueView>),
    EvalError,
> {
    match open_targets(ms, pins, m) {
        Ok(ts) => Ok((ts, m)),
        Err(e) => Err(e),
    }
}

/// A model is reported where it is of an observable kind and was not
/// entered back through one of its output pins.
pub open spec fn reported(ms: Seq<Model>, q: Place) -> bool {
    !(q.via is Output) && ms[q.node as int].kind.observable()
}

/// Whether a walk that skips passes over the model: a dialogue fragment
/// with an empty text, or with output pins that are all closed.
pub open spec fn skippable(model: Model, m: Map<Seq<char>, ValueView>) -> Result<bool, EvalError> {
    match model.kind {
        ModelKind::DialogueFragment { text, .. } => if text@.len() == 0 {
            Ok(true)
        } else if model.output_pins@.len() == 0 {
            Ok(false)
        } else {
            all_closed(model.output_pins@, m)
        },
        _ => Ok(false),
    }
}

/// Whether the walk stops at the place `q`, to which it has just moved.
pub open spec fn stops_at(ms: Seq<Model>, m: Map<Seq<char>, ValueView>, q: Place, skipping: bool) -> Result<
    bool,
    EvalError,
> {
    if !reported(ms, q) {
        Ok(false)
    } else if !skipping {
        Ok(true)
    } else {
        match skippable(ms[q.node as int], m) {
            Ok(s) => Ok(!s),
            Err(e) => Err(e),
        }
    }
}

/// How a straight walk ends.
pub enum Halt {
    /// At a model that is reported.
    Arrived(Place),
    /// At a place (the first) with two or more open targets (the second).
    Forked(Place, Seq<Place>),
    /// At a place with no open target.
    Ended(Place),
}

/// Why a walk did not end.
#[derive(Debug, Clone, Copy, PartialEq, Eq, Structural)]
pub enum WalkError {
    /// A guard, a condition or an instruction failed to evaluate.
    Eval(EvalError),
    /// The walk took all the steps that it was given.
    OutOfSteps,
}

/// The straight walk from the place `p` in the state `m`, of at most `fuel`
/// steps: how it ends and the state at its end.
///
/// Each step leaves a place. With no open target the walk ends there; with
/// two or more it forks there; with one it moves to that target, stops if
/// the target is reported (and, when `skipping`, not skippable), and else
/// goes on from it.
pub open spec fn follow(
    ms: Seq<Model>,
    m: Map<Seq<char>, ValueView>,
    p: Place,
    fuel: nat,
    skipping: bool,
) -> Result<(Halt, Map<Seq<char>, ValueView>), WalkError>
    decreases fuel,
{
    if fuel == 0 {
        Err(WalkError::OutOfSteps)
    } else {
        match depart(ms, m, p) {
            Err(e) => Err(WalkError::Eval(e)),
            Ok((ts, m2)) => if ts.len() == 0 {
                Ok((Halt::Ended(p), m2))
            } else if ts.len() >= 2 {
                Ok((Halt::Forked(p, ts), m2))
            } else {
                match stops_at(ms, m2, ts[0], skipping) {
                    Err(e) => Err(WalkError::Eval(e)),
                    Ok(true) => Ok((Halt::Arrived(ts[0]), m2)),
                    Ok(false) => follow(ms, m2, ts[0], (fuel - 1) as nat, skipping),
                }
            },
        }
    }
}

/// The places that a straight walk leaves, in order.
pub open spec fn trail(
    ms: Seq<Model>,
    m: Map<Seq<char>, ValueView>,
    p: Place,
    fuel: nat,
    skipping: bool,
) -> Seq<Place>
    decreases fuel,
{
    if fuel == 0 {
        Seq::empty()
    } else {
        match depart(ms, m, p) {
            Err(_) => seq![p],
            Ok((ts, m2)) => if ts.len() != 1 {
                seq![p]
            } else {
                match stops_at(ms, m2, ts[0], skipping) {
                    Ok(false) => seq![p] + trail(ms, m2, ts[0], (fuel - 1) as nat, skipping),
                    _ => seq![p],
                }
            },
        }
    }
}

/// What leaving the place `p` does to the state: an instruction that was
/// not entered back through an output pin runs its assignments; no other
/// model changes the state.
pub open spec fn passing(ms: Seq<Model>, m: Map<Seq<char>, ValueView>, p: Place) -> Result<
    Map<Seq<char>, ValueView>,
    EvalError,
> {
    match ms[p.node as int].kind {
        ModelKind::Instruction { expression } => if p.via is Output {
            Ok(m)
        } else {
            instructions(expression@, m)
        },
        _ => Ok(m),
    }
}

/// The state after the instructions at the places, run one after the other
/// in the order of the list; the first that fails to evaluate fails the
/// whole. No condition and no guard is evaluated.
pub open spec fn apply_trail(ms: Seq<Model>, m: Map<Seq<char>, ValueView>, places: Seq<Place>) -> Result<
    Map<Seq<char>, ValueView>,
    EvalError,
>
    decreases places.len(),
{
    if places.len() == 0 {
        Ok(m)
    } else {
        match passing(ms, m, places[0]) {
            Ok(m2) => apply_trail(ms, m2, places.drop_first()),
            Err(e) => Err(e),
        }
    }
}

/// One way on from a fork: the reported model to which it leads, and the
/// places that are left on the way to it.
pub struct Branch {
    pub goal: Place,
    pub trail: Seq<Place>,
}

/// How many times a way on from a fork may fork again.
pub const MAX_FORKS: usize = 32;

/// The branches with `prefix` put before the trail of each.
pub open spec fn prefixed(prefix: Seq<Place>, bs: Seq<Branch>) -> Seq<Branch> {
    Seq::new(bs.len(), |i: int| Branch { goal: bs[i].goal, trail: prefix + bs[i].trail })
}

/// Where the way from a fork to the place `t` leads, in the state `m`, and
/// how many of `fuel` steps are left after it: to `t` itself where it is
/// reported; else to where the straight walk from `t` arrives; and where
/// that walk forks again, to wherever the ways on from the second fork
/// lead. A way that ends before it comes to a reported model leads to none,
/// and one that forks again more than `forks` times is out of steps.
/// Conditions and guards on the way are evaluated, and instructions are run
/// to find the way, but the state `m` of the fork is not changed by it.
pub open spec fn branch(
    ms: Seq<Model>,
    m: Map<Seq<char>, ValueView>,
    t: Place,
    fuel: nat,
    forks: nat,
) -> Result<(Seq<Branch>, nat), WalkError>
    decreases fuel, 0nat,
{
    if reported(ms, t) {
        Ok((seq![Branch { goal: t, trail: Seq::empty() }], fuel))
    } else {
        let passed = trail(ms, m, t, fuel, false);
        let left = (fuel - passed.len()) as nat;
        match follow(ms, m, t, fuel, false) {
            Err(e) => Err(e),
            Ok((Halt::Arrived(q), _)) => Ok((seq![Branch { goal: q, trail: passed }], left)),
            Ok((Halt::Ended(_), _)) => Ok((Seq::empty(), left)),
            Ok((Halt::Forked(_, ts), m2)) => if forks > 0 && 1 <= passed.len() <= fuel {
                match branches(ms, m2, ts, left, (forks - 1) as nat) {
                    Err(e) => Err(e),
                    Ok((bs, left2)) => Ok((prefixed(passed, bs), left2)),
                }
            } else {
                Err(WalkError::OutOfSteps)
            },
        }
    }
}

/// The ways on from a fork with the targets `ts` that lead to a reported
/// model, in the order of the targets, and how many of `fuel` steps are
/// left after them: the ways share the steps. The first way that fails
/// fails the whole.
pub open spec fn branches(
    ms: Seq<Model>,
    m: Map<Seq<char>, ValueView>,
    ts: Seq<Place>,
    fuel: nat,
    forks: nat,
) -> Result<(Seq<Branch>, nat), WalkError>
    decreases fuel, ts.len() + 1,
{
    if ts.len() == 0 {
        Ok((Seq::empty(), fuel))
    } else {
        match branch(ms, m, ts[0], fuel, forks) {
            Err(e) => Err(e),
            Ok((first, left)) => if left <= fuel {
                match branches(ms, m, ts.drop_first(), left, forks) {
                    Err(e) => Err(e),
                    Ok((rest, left2)) => Ok((first + rest, left2)),
                }
            } else {
                Err(WalkError::OutOfSteps)
            },
        }
    }
}

/// How a walk ends.
pub enum Rest {
    /// At a model that is reported.
    Arrived(Place),
    /// At a fork (the first), with the ways on from it that lead to a
    /// reported model (the second); there is at least one.
    Waiting(Place, Seq<Branch>),
    /// At a place from which no way leads to a reported model.
    Ended(Place),
}

/// The walk from the place `p` in the state `m`, of at most `fuel` steps in
/// all: the straight walk from `p` and, where that forks, the ways on from
/// the fork, each of which may fork again `MAX_FORKS` times. A fork from
/// which no way leads to a reported model is an end.
pub open spec fn walk(
    ms: Seq<Model>,
    m: Map<Seq<char>, ValueView>,
    p: Place,
    fuel: nat,
    skipping: bool,
) -> Result<(Rest, Map<Seq<char>, ValueView>), WalkError> {
    match follow(ms, m, p, fuel, skipping) {
        Err(e) => Err(e),
        Ok((Halt::Arrived(q), m2)) => Ok((Rest::Arrived(q), m2)),
        Ok((Halt::Ended(q), m2)) => Ok((Rest::Ended(q), m2)),
        Ok((Halt::Forked(q, ts), m2)) => match branches(
            ms,
            m2,
            ts,
            (fuel - trail(ms, m, p, fuel, skipping).len()) as nat,
            MAX_FORKS as nat,
        ) {
            Err(e) => Err(e),
            Ok((bs, _)) => if bs.len() == 0 {
                Ok((Rest::Ended(q), m2))
            } else {
                Ok((Rest::Waiting(q, bs), m2))
            },
        },
    }
}

/// A container leads on where one of its output pins has a connection.
pub open spec fn leads_on(m: Model) -> bool {
    m.kind.container() && exists|i: int|
        0 <= i < m.output_pins@.len() && (#[trigger] m.output_pins@[i]).connections@.len() > 0
}

/// Whether the model of one of the hierarchy nodes on the way from `node`
/// along `path` leads on; the node at the end of the path is not looked at.
pub open spec fn way_leads_on(ms: Seq<Model>, node: HierarchyNode, path: Seq<usize>) -> bool
    decreases path.len(),
{
    if path.len() == 0 {
        false
    } else {
        let here = match find_id(ms, node.id@, 0) {
            Some(i) => leads_on(ms[i]),
            None => false,
        };
        here || (path[0] < children_of(node).len() && way_leads_on(
            ms,
            children_of(node)[path[0] as int],
            path.drop_first(),
        ))
    }
}

/// Whether a walk that cannot go on from the place `p` has come to the end
/// that the graph intends: no container above the model in the hierarchy
/// leads on. Where one does, the walk should have left through it.
pub open spec fn intends_end(ms: Seq<Model>, root: HierarchyNode, p: Place) -> bool {
    match find_path(root, ms[p.node as int].id@) {
        Some(path) => !way_leads_on(ms, root, path),
        None => true,
    }
}

fn model_leads_on(m: &Model) -> (b: bool)
    ensures
        b == leads_on(*m),
{
    match &m.kind {
        ModelKind::Dialogue => {},
        ModelKind::FlowFragment => {},
        _ => {
            return false;
        },
    }
    let mut i: usize = 0;
    while i < m.output_pins.len()
        invariant
            m.kind.container(),
            i <= m.output_pins@.len(),
            forall|k: int| 0 <= k < i ==> (#[trigger] m.output_pins@[k]).connections@.len() == 0,
        decreases m.output_pins@.len() - i,
    {
        if m.output_pins[i].connections.len() > 0 {
            return true;
        }
        i += 1;
    }
    false
}

/// Computes [`intends_end`].
pub(crate) fn is_intended_end(models: &Vec<Model>, root: &HierarchyNode, p: Place) -> (b: bool)
    requires
        place_in_range(models@, p),
    ensures
        b == intends_end(models@, *root, p),
{
    let path = match search(root, &models[p.node].id) {
        Some(path) => path,
        None => {
            return true;
        },
    };
    let mut current: &HierarchyNode = root;
    let mut i: usize = 0;
    assert(path@.subrange(0, path@.len() as int) =~= path@);
    while i < path.len()
        invariant
            i <= path@.len(),
            find_path(*root, models@[p.node as int].id@) == Some(path@),
            way_leads_on(models@, *root, path@) == way_leads_on(
                models@,
                *current,
                path@.subrange(i as int, path@.len() as int),
            ),
        decreases path@.len() - i,
    {
        let ghost rest = path@.subrange(i as int, path@.len() as int);
        assert(rest[0] == path@[i as int]);
        assert(rest.drop_first() =~= path@.subrange(i + 1, path@.len() as int));
        match find_model(models, &current.id) {
            Some(k) => {
                if model_leads_on(&models[k]) {
                    return false;
                }
            },
            None => {},
        }
        match &current.children {
            Some(kids) => {
                if path[i] < kids.len() {
                    current = &kids[path[i]];
                } else {
                    return true;
                }
            },
            None => {
                return true;
            },
        }
        i += 1;
    }
    assert(path@.subrange(i as int, path@.len() as int) =~= Seq::<usize>::empty());
    true
}

/// How a straight walk ended, as computed.
#[derive(Debug)]
pub enum Stop {
    Arrived(Place),
    Forked(Place, Vec<Place>),
    Ended(Place),
}

impl View for Stop {
    type V = Halt;

    open spec fn view(&self) -> Halt {
        match self {
            Stop::Arrived(q) => Halt::Arrived(*q),
            Stop::Forked(p, ts) => Halt::Forked(*p, ts@),
            Stop::Ended(p) => Halt::Ended(*p),
        }
    }
}

/// One way on from a fork, as computed.
#[derive(Debug)]
pub struct Way {
    pub goal: Place,
    pub trail: Vec<Place>,
}

impl View for Way {
    type V = Branch;

    open spec fn view(&self) -> Branch {
        Branch { goal: self.goal, trail: self.trail@ }
    }
}

/// The views of a list of ways, in order.
pub open spec fn ways(v: Seq<Way>) -> Seq<Branch> {
    Seq::new(v.len(), |i: int| v[i]@)
}

/// How a walk ended, as computed.
#[derive(Debug)]
pub enum Reached {
    Arrived(Place),
    Waiting(Place, Vec<Way>),
    Ended(Place),
}

impl View for Reached {
    type V = Rest;

    open spec fn view(&self) -> Rest {
        match self {
            Reached::Arrived(q) => Rest::Arrived(*q),
            Reached::Waiting(p, v) => Rest::Waiting(*p, ways(v@)),
            Reached::Ended(p) => Rest::Ended(*p),
        }
    }
}

/// The goal of the branch is a reported model, and the goal and every place
/// of its trail are in range.
pub open spec fn branch_in_range(ms: Seq<Model>, b: Branch) -> bool {
    place_in_range(ms, b.goal) && reported(ms, b.goal) && places_in_range(ms, b.trail)
}

/// Every branch of the list is in range.
pub open spec fn branches_in_range(ms: Seq<Model>, bs: Seq<Branch>) -> bool {
    forall|i: int| 0 <= i < bs.len() ==> branch_in_range(ms, #[trigger] bs[i])
}

impl Rest {
    /// Every place that is named is in range, and every goal is reported.
    pub open spec fn in_range(self, ms: Seq<Model>) -> bool {
        match self {
            Rest::Arrived(q) => place_in_range(ms, q) && reported(ms, q),
            Rest::Waiting(p, bs) => place_in_range(ms, p) && bs.len() > 0 && branches_in_range(
                ms,
                bs,
            ),
            Rest::Ended(p) => place_in_range(ms, p),
        }
    }
}

/// Every place of the list is a model of `ms`, entered through a pin that
/// it has.
pub open spec fn places_in_range(ms: Seq<Model>, ts: Seq<Place>) -> bool {
    forall|i: int| 0 <= i < ts.len() ==> place_in_range(ms, #[trigger] ts[i])
}

impl Halt {
    /// Every place that the halt names is in range.
    pub open spec fn in_range(self, ms: Seq<Model>) -> bool {
        match self {
            Halt::Arrived(q) => place_in_range(ms, q),
            Halt::Forked(p, ts) => place_in_range(ms, p) && places_in_range(ms, ts),
            Halt::Ended(p) => place_in_range(ms, p),
        }
    }
}

fn push_arrivals(models: &Vec<Model>, conns: &Vec<Connection>, out: &mut Vec<Place>)
    requires
        places_in_range(models@, old(out)@),
    ensures
        final(out)@ == old(out)@ + pin_targets(models@, conns@),
        places_in_range(models@, final(out)@),
{
    let ghost start = out@;
    let mut i: usize = 0;
    assert(conns@.subrange(0, 0) =~= Seq::<Connection>::empty());
    assert(out@ =~= start + pin_targets(models@, conns@.subrange(0, 0)));
    while i < conns.len()
        invariant
            i <= conns@.len(),
            out@ == start + pin_targets(models@, conns@.subrange(0, i as int)),
            places_in_range(models@, out@),
        decreases conns@.len() - i,
    {
        let ghost prefix = conns@.subrange(0, i as int);
        let ghost next = conns@.subrange(0, i + 1);
        assert(next.drop_last() =~= prefix);
        assert(next.last() == conns@[i as int]);
        match find_model(models, &conns[i].target) {
            Some(n) => {
                let via = models[n].resolve_entry(&conns[i].target_pin);
                let ghost before = out@;
                out.push(Place { node: n, via });
                assert(out@ =~= start + pin_targets(models@, next));
                assert forall|k: int| 0 <= k < out@.len() implies place_in_range(
                    models@,
                    #[trigger] out@[k],
                ) by {
                    if k < before.len() {
                        assert(out@[k] == before[k]);
                    }
                }
            },
            None => {},
        }
        i += 1;
    }
    assert(conns@.subrange(0, i as int) =~= conns@);
}

/// The open targets of the pins from `lo` up to `hi`.
fn open_arrivals(models: &Vec<Model>, pins: &Vec<Pin>, lo: usize, hi: usize, state: &State) -> (r:
    Result<Vec<Place>, EvalError>)
    requires
        lo <= hi <= pins@.len(),
    ensures
        match open_targets(models@, pins@.subrange(lo as int, hi as int), state@) {
            Ok(ts) => r matches Ok(v) && v@ == ts && places_in_range(models@, ts),
            Err(e) => r == Err::<Vec<Place>, EvalError>(e),
        },
{
    let ghost all = pins@.subrange(lo as int, hi as int);
    let mut out: Vec<Place> = Vec::new();
    let mut i: usize = lo;
    assert(pins@.subrange(i as int, hi as int) =~= all);
    while i < hi
        invariant
            lo <= i <= hi <= pins@.len(),
            all == pins@.subrange(lo as int, hi as int),
            places_in_range(models@, out@),
            match open_targets(models@, pins@.subrange(i as int, hi as int), state@) {
                Ok(rest) => open_targets(models@, all, state@) == Ok::<Seq<Place>, EvalError>(
                    out@ + rest,
                ),
                Err(e) => open_targets(models@, all, state@) == Err::<Seq<Place>, EvalError>(e),
            },
        decreases hi - i,
    {
        let ghost suffix = pins@.subrange(i as int, hi as int);
        assert(suffix[0] == pins@[i as int]);
        assert(suffix.drop_first() =~= pins@.subrange(i + 1, hi as int));
        match evaluate_predicate(pins[i].guard.as_str(), state) {
            Err(e) => {
                return Err(e);
            },
            Ok(open) => {
                if open {
                    let ghost before = out@;
                    push_arrivals(models, &pins[i].connections, &mut out);
                    proof {
                        match open_targets(models@, pins@.subrange(i + 1, hi as int), state@) {
                            Ok(rest) => {
                                assert(before + (pin_targets(models@, pins@[i as int].connections@)
                                    + rest) =~= out@ + rest);
                            },
                            Err(_) => {},
                        }
                    }
                }
            },
        }
        i += 1;
    }
    assert(pins@.subrange(i as int, hi as int) =~= Seq::<Pin>::empty());
    assert(out@ + Seq::<Place>::empty() =~= out@);
    Ok(out)
}

fn pins_all_closed(pins: &Vec<Pin>, state: &State) -> (r: Result<bool, EvalError>)
    ensures
        r == all_closed(pins@, state@),
{
    let mut i: usize = 0;
    assert(pins@.subrange(0, pins@.len() as int) =~= pins@);
    while i < pins.len()
        invariant
            i <= pins@.len(),
            all_closed(pins@, state@) == all_closed(
                pins@.subrange(i as int, pins@.len() as int),
                state@,
            ),
        decreases pins@.len() - i,
    {
        let ghost suffix = pins@.subrange(i as int, pins@.len() as int);
        assert(suffix[0] == pins@[i as int]);
        assert(suffix.drop_first() =~= pins@.subrange(i + 1, pins@.len() as int));
        match evaluate_predicate(pins[i].guard.as_str(), state) {
            Err(e) => {
                return Err(e);
            },
            Ok(true) => {
                return Ok(false);
            },
            Ok(false) => {},
        }
        i += 1;
    }
    assert(pins@.subrange(i as int, pins@.len() as int) =~= Seq::<Pin>::empty());
    Ok(true)
}

/// The open targets of the pins through which the walk leaves `model`.
fn exit_arrivals(models: &Vec<Model>, model: &Model, via: Via, branch: bool, state: &State) -> (r:
    Result<Vec<Place>, EvalError>)
    requires
        via_in_range(model, via),
    ensures
        match open_targets(models@, exit_pins(*model, via, branch), state@) {
            Ok(ts) => r matches Ok(v) && v@ == ts && places_in_range(models@, ts),
            Err(e) => r == Err::<Vec<Place>, EvalError>(e),
        },
{
    let outputs = model.output_pins.len();
    let inputs = model.input_pins.len();
    match via {
        Via::Output(j) => open_arrivals(models, &model.output_pins, j, j + 1, state),
        _ => match &model.kind {
            ModelKind::Dialogue | ModelKind::FlowFragment => match via {
                Via::Input(i) => open_arrivals(models, &model.input_pins, i, i + 1, state),
                _ => {
                    let hi: usize = if inputs >= 1 {
                        1
                    } else {
                        0
                    };
                    open_arrivals(models, &model.input_pins, 0, hi, state)
                },
            },
            ModelKind::Condition { .. } => {
                if branch {
                    let hi: usize = if outputs >= 1 {
                        1
                    } else {
                        0
                    };
                    open_arrivals(models, &model.output_pins, 0, hi, state)
                } else if outputs >= 2 {
                    open_arrivals(models, &model.output_pins, 1, 2, state)
                } else {
                    open_arrivals(models, &model.output_pins, 0, 0, state)
                }
            },
            _ => {
                assert(model.output_pins@.subrange(0, outputs as int) =~= model.output_pins@);
                open_arrivals(models, &model.output_pins, 0, outputs, state)
            },
        },
    }
}

/// Takes one step of the walk: leaves `place`. On an error the state is as
/// it was before.
pub(crate) fn step(models: &Vec<Model>, state: &mut State, place: Place) -> (r: Result<
    Vec<Place>,
    EvalError,
>)
    requires
        place_in_range(models@, place),
    ensures
        match depart(models@, old(state)@, place) {
            Ok((ts, m2)) => r matches Ok(v) && v@ == ts && final(state)@ == m2 && places_in_range(
                models@,
                ts,
            ),
            Err(e) => r == Err::<Vec<Place>, EvalError>(e) && final(state)@ == old(state)@,
        },
{
    proof {
        reveal(depart);
    }
    let model = &models[place.node];
    let entered_back = match place.via {
        Via::Output(_) => true,
        _ => false,
    };
    if entered_back {
        return exit_arrivals(models, model, place.via, true, state);
    }
    match &model.kind {
        ModelKind::Jump { target } => {
            let mut out: Vec<Place> = Vec::new();
            match find_model(models, target) {
                Some(t) => {
                    out.push(Place { node: t, via: Via::Start });
                    assert(out@ =~= seq![Place { node: t, via: Via::Start }]);
                },
                None => {},
            }
            Ok(out)
        },
        ModelKind::Instruction { expression } => {
            let mut working = state.copy();
            match execute_instructions(expression.as_str(), &mut working) {
                Err(e) => Err(e),
                Ok(()) => match exit_arrivals(models, model, place.via, true, &working) {
                    Ok(v) => {
                        *state = working;
                        Ok(v)
                    },
                    Err(e) => Err(e),
                },
            }
        },
        ModelKind::Condition { expression } => match evaluate_predicate(
            expression.as_str(),
            state,
        ) {
            Ok(b) => exit_arrivals(models, model, place.via, b, state),
            Err(e) => Err(e),
        },
        ModelKind::Dialogue => first_arrival(models, model, place.via, state),
        ModelKind::FlowFragment => first_arrival(models, model, place.via, state),
        _ => exit_arrivals(models, model, place.via, true, state),
    }
}

/// The first open target of the entry pin of a container.
fn first_arrival(models: &Vec<Model>, model: &Model, via: Via, state: &State) -> (r: Result<
    Vec<Place>,
    EvalError,
>)
    requires
        via_in_range(model, via),
    ensures
        match open_targets(models@, exit_pins(*model, via, true), state@) {
            Ok(ts) => r matches Ok(v) && v@ == first_only(ts) && places_in_range(models@, v@),
            Err(e) => r == Err::<Vec<Place>, EvalError>(e),
        },
{
    match exit_arrivals(models, model, via, true, state) {
        Ok(mut v) => {
            if v.len() > 1 {
                v.truncate(1);
            }
            Ok(v)
        },
        Err(e) => Err(e),
    }
}

/// Whether the model at `q` is reported when the walk reaches it.
pub(crate) fn is_reported(models: &Vec<Model>, q: Place) -> (b: bool)
    requires
        place_in_range(models@, q),
    ensures
        b == reported(models@, q),
{
    match q.via {
        Via::Output(_) => false,
        _ => models[q.node].is_observable(),
    }
}

fn is_skippable(model: &Model, state: &State) -> (r: Result<bool, EvalError>)
    ensures
        r == skippable(*model, state@),
{
    match &model.kind {
        ModelKind::DialogueFragment { text, .. } => {
            if text.as_str().is_empty() {
                Ok(true)
            } else if model.output_pins.len() == 0 {
                Ok(false)
            } else {
                pins_all_closed(&model.output_pins, state)
            }
        },
        _ => Ok(false),
    }
}

fn stops(models: &Vec<Model>, state: &State, q: Place, skipping: bool) -> (r: Result<
    bool,
    EvalError,
>)
    requires
        place_in_range(models@, q),
    ensures
        r == stops_at(models@, state@, q, skipping),
{
    if !is_reported(models, q) {
        Ok(false)
    } else if !skipping {
        Ok(true)
    } else {
        match is_skippable(&models[q.node], state) {
            Ok(s) => Ok(!s),
            Err(e) => Err(e),
        }
    }
}

/// Walks straight on from `start` for at most `max_steps` steps, and adds
/// the places that it leaves to `out`. The state is changed as the walk
/// goes; after an error it holds what the steps before it left.
fn follow_from(
    models: &Vec<Model>,
    state: &mut State,
    start: Place,
    max_steps: usize,
    skipping: bool,
    out: &mut Vec<Place>,
) -> (r: Result<Stop, WalkError>)
    requires
        place_in_range(models@, start),
        places_in_range(models@, old(out)@),
    ensures
        places_in_range(models@, final(out)@),
        match follow(models@, old(state)@, start, max_steps as nat, skipping) {
            Ok((halt, m2)) => r matches Ok(stop) && stop@ == halt && final(state)@ == m2
                && halt.in_range(models@) && final(out)@ == old(out)@ + trail(
                models@,
                old(state)@,
                start,
                max_steps as nat,
                skipping,
            ) && (halt matches Halt::Arrived(q) ==> reported(models@, q)) && 1 <= trail(
                models@,
                old(state)@,
                start,
                max_steps as nat,
                skipping,
            ).len() <= max_steps,
            Err(e) => r == Err::<Stop, WalkError>(e),
        },
{
    let ghost m0 = state@;
    let ghost base = out@;
    let mut place = start;
    let mut left: usize = max_steps;
    assert(out@ =~= base + Seq::<Place>::empty());
    let ghost mut done: Seq<Place> = Seq::empty();
    while left > 0
        invariant
            m0 == old(state)@,
            base == old(out)@,
            place_in_range(models@, place),
            places_in_range(models@, out@),
            out@ == base + done,
            left <= max_steps,
            done.len() == max_steps - left,
            follow(models@, m0, start, max_steps as nat, skipping) == follow(
                models@,
                state@,
                place,
                left as nat,
                skipping,
            ),
            trail(models@, m0, start, max_steps as nat, skipping) == done + trail(
                models@,
                state@,
                place,
                left as nat,
                skipping,
            ),
        decreases left,
    {
        let ghost before = state@;
        let ghost rest = trail(models@, before, place, left as nat, skipping);
        out.push(place);
        proof {
            assert forall|k: int| 0 <= k < out@.len() implies place_in_range(
                models@,
                #[trigger] out@[k],
            ) by {
                if k < out@.len() - 1 {
                    assert(out@[k] == (base + done)[k]);
                }
            }
        }
        let targets = match step(models, state, place) {
            Ok(ts) => ts,
            Err(e) => {
                return Err(WalkError::Eval(e));
            },
        };
        if targets.len() == 0 {
            assert(rest == seq![place]);
            assert(out@ =~= base + (done + rest));
            return Ok(Stop::Ended(place));
        }
        if targets.len() >= 2 {
            assert(rest == seq![place]);
            assert(out@ =~= base + (done + rest));
            return Ok(Stop::Forked(place, targets));
        }
        let q = targets[0];
        match stops(models, state, q, skipping) {
            Err(e) => {
                return Err(WalkError::Eval(e));
            },
            Ok(true) => {
                assert(rest == seq![place]);
                assert(out@ =~= base + (done + rest));
                return Ok(Stop::Arrived(q));
            },
            Ok(false) => {},
        }
        proof {
            let next = trail(models@, state@, q, (left - 1) as nat, skipping);
            assert(rest == seq![place] + next);
            assert(done + rest =~= (done + seq![place]) + next);
            done = done + seq![place];
            assert(out@ =~= base + done);
        }
        place = q;
        left -= 1;
    }
    Err(WalkError::OutOfSteps)
}

/// The places of `a`, then those of `b`.
fn join(a: &Vec<Place>, b: &Vec<Place>) -> (r: Vec<Place>)
    ensures
        r@ == a@ + b@,
{
    let mut out: Vec<Place> = Vec::new();
    let mut i: usize = 0;
    while i < a.len()
        invariant
            i <= a@.len(),
            out@ == a@.subrange(0, i as int),
        decreases a@.len() - i,
    {
        out.push(a[i]);
        assert(out@ =~= a@.subrange(0, i + 1));
        i += 1;
    }
    assert(out@ =~= a@);
    let mut j: usize = 0;
    while j < b.len()
        invariant
            j <= b@.len(),
            out@ == a@ + b@.subrange(0, j as int),
        decreases b@.len() - j,
    {
        out.push(b[j]);
        assert(out@ =~= a@ + b@.subrange(0, j + 1));
        j += 1;
    }
    assert(out@ =~= a@ + b@);
    out
}

/// The ways with `prefix` put before the trail of each.
fn prefix_all(models: &Vec<Model>, prefix: &Vec<Place>, found: &Vec<Way>) -> (r: Vec<Way>)
    requires
        places_in_range(models@, prefix@),
        branches_in_range(models@, ways(found@)),
    ensures
        ways(r@) == prefixed(prefix@, ways(found@)),
        branches_in_range(models@, ways(r@)),
{
    let mut out: Vec<Way> = Vec::new();
    let mut i: usize = 0;
    while i < found.len()
        invariant
            i <= found@.len(),
            out@.len() == i,
            places_in_range(models@, prefix@),
            branches_in_range(models@, ways(found@)),
            forall|k: int|
                0 <= k < i ==> (#[trigger] out@[k]).goal == found@[k].goal && out@[k].trail@
                    == prefix@ + found@[k].trail@,
        decreases found@.len() - i,
    {
        out.push(Way { goal: found[i].goal, trail: join(prefix, &found[i].trail) });
        i += 1;
    }
    proof {
        assert(ways(out@) =~= prefixed(prefix@, ways(found@)));
        assert forall|k: int| 0 <= k < ways(out@).len() implies branch_in_range(
            models@,
            #[trigger] ways(out@)[k],
        ) by {
            assert(branch_in_range(models@, ways(found@)[k]));
            let t = ways(out@)[k].trail;
            assert forall|n: int| 0 <= n < t.len() implies place_in_range(models@, #[trigger] t[n]) by {
                if n < prefix@.len() {
                    assert(t[n] == prefix@[n]);
                } else {
                    assert(t[n] == found@[k].trail@[n - prefix@.len()]);
                }
            }
        }
    }
    out
}

/// Where the way from a fork to `t` leads, with the steps that are left of
/// `budget`. The state is not changed: the way is tried on a copy of it.
fn probe(models: &Vec<Model>, state: &State, t: Place, budget: usize, forks: usize) -> (r: Result<
    (Vec<Way>, usize),
    WalkError,
>)
    requires
        place_in_range(models@, t),
    ensures
        match branch(models@, state@, t, budget as nat, forks as nat) {
            Ok((bs, left)) => r matches Ok((v, l)) && ways(v@) == bs && l == left && l <= budget
                && branches_in_range(models@, bs),
            Err(e) => r == Err::<(Vec<Way>, usize), WalkError>(e),
        },
    decreases budget, 0nat,
{
    let mut out: Vec<Way> = Vec::new();
    if is_reported(models, t) {
        let way = Way { goal: t, trail: Vec::new() };
        assert(way@.trail =~= Seq::<Place>::empty());
        out.push(way);
        assert(ways(out@) =~= seq![Branch { goal: t, trail: Seq::empty() }]);
        return Ok((out, budget));
    }
    let mut copy = state.copy();
    let mut passed: Vec<Place> = Vec::new();
    match follow_from(models, &mut copy, t, budget, false, &mut passed) {
        Err(e) => Err(e),
        Ok(stop) => {
            assert(passed@ =~= trail(models@, state@, t, budget as nat, false));
            let left: usize = budget - passed.len();
            match stop {
                Stop::Arrived(q) => {
                    let ghost b = Branch { goal: q, trail: passed@ };
                    out.push(Way { goal: q, trail: passed });
                    assert(ways(out@) =~= seq![b]);
                    Ok((out, left))
                },
                Stop::Ended(_) => {
                    assert(ways(out@) =~= Seq::<Branch>::empty());
                    Ok((out, left))
                },
                Stop::Forked(_, targets) => {
                    if forks == 0 {
                        return Err(WalkError::OutOfSteps);
                    }
                    match resolve(models, &copy, &targets, left, forks - 1) {
                        Err(e) => Err(e),
                        Ok((found, left2)) => Ok((prefix_all(models, &passed, &found), left2)),
                    }
                },
            }
        },
    }
}

/// The ways on from a fork with the targets `targets`, with the steps that
/// are left of `budget`. The state is not changed.
fn resolve(
    models: &Vec<Model>,
    state: &State,
    targets: &Vec<Place>,
    budget: usize,
    forks: usize,
) -> (r: Result<(Vec<Way>, usize), WalkError>)
    requires
        places_in_range(models@, targets@),
    ensures
        match branches(models@, state@, targets@, budget as nat, forks as nat) {
            Ok((bs, left)) => r matches Ok((v, l)) && ways(v@) == bs && l == left && l <= budget
                && branches_in_range(models@, bs),
            Err(e) => r == Err::<(Vec<Way>, usize), WalkError>(e),
        },
    decreases budget, targets@.len() + 1,
{
    let mut out: Vec<Way> = Vec::new();
    let mut left: usize = budget;
    let mut i: usize = 0;
    assert(targets@.subrange(0, targets@.len() as int) =~= targets@);
    assert(ways(out@) =~= Seq::<Branch>::empty());
    while i < targets.len()
        invariant
            i <= targets@.len(),
            left <= budget,
            places_in_range(models@, targets@),
            branches_in_range(models@, ways(out@)),
            match branches(
                models@,
                state@,
                targets@.subrange(i as int, targets@.len() as int),
                left as nat,
                forks as nat,
            ) {
                Ok((rest, l2)) => branches(models@, state@, targets@, budget as nat, forks as nat)
                    == Ok::<(Seq<Branch>, nat), WalkError>((ways(out@) + rest, l2)),
                Err(e) => branches(models@, state@, targets@, budget as nat, forks as nat) == Err::<
                    (Seq<Branch>, nat),
                    WalkError,
                >(e),
            },
        decreases targets@.len() - i,
    {
        let ghost suffix = targets@.subrange(i as int, targets@.len() as int);
        assert(suffix[0] == targets@[i as int]);
        assert(suffix.drop_first() =~= targets@.subrange(i + 1, targets@.len() as int));
        let ghost before = ways(out@);
        let (mut found, l1) = match probe(models, state, targets[i], left, forks) {
            Ok(pair) => pair,
            Err(e) => {
                return Err(e);
            },
        };
        let ghost first = ways(found@);
        out.append(&mut found);
        proof {
            assert(ways(out@) =~= before + first);
            assert forall|k: int| 0 <= k < ways(out@).len() implies branch_in_range(
                models@,
                #[trigger] ways(out@)[k],
            ) by {
                if k < before.len() {
                    assert(ways(out@)[k] == before[k]);
                } else {
                    assert(ways(out@)[k] == first[k - before.len()]);
                }
            }
            match branches(
                models@,
                state@,
                targets@.subrange(i + 1, targets@.len() as int),
                l1 as nat,
                forks as nat,
            ) {
                Ok((rest, _)) => {
                    assert(before + (first + rest) =~= (before + first) + rest);
                },
                Err(_) => {},
            }
        }
        left = l1;
        i += 1;
    }
    assert(targets@.subrange(i as int, targets@.len() as int) =~= Seq::<Place>::empty());
    assert(ways(out@) + Seq::<Branch>::empty() =~= ways(out@));
    Ok((out, left))
}

/// Walks from `start` for at most `max_steps` steps in all: straight on
/// and, at a fork, along each way on from it. The state is changed as the
/// straight walk goes; after an error it holds what the steps before it
/// left.
pub(crate) fn walk_from(
    models: &Vec<Model>,
    state: &mut State,
    start: Place,
    max_steps: usize,
    skipping: bool,
) -> (r: Result<Reached, WalkError>)
    requires
        place_in_range(models@, start),
    ensures
        match walk(models@, old(state)@, start, max_steps as nat, skipping) {
            Ok((rest, m2)) => r matches Ok(reached) && reached@ == rest && final(state)@ == m2
                && rest.in_range(models@),
            Err(e) => r == Err::<Reached, WalkError>(e),
        },
{
    let mut passed: Vec<Place> = Vec::new();
    match follow_from(models, state, start, max_steps, skipping, &mut passed) {
        Err(e) => Err(e),
        Ok(Stop::Arrived(q)) => Ok(Reached::Arrived(q)),
        Ok(Stop::Ended(q)) => Ok(Reached::Ended(q)),
        Ok(Stop::Forked(q, targets)) => {
            assert(passed@ =~= trail(models@, old(state)@, start, max_steps as nat, skipping));
            let left: usize = max_steps - passed.len();
            match resolve(models, state, &targets, left, MAX_FORKS) {
                Err(e) => Err(e),
                Ok((found, _)) => {
                    if found.len() == 0 {
                        Ok(Reached::Ended(q))
                    } else {
                        Ok(Reached::Waiting(q, found))
                    }
                },
            }
        },
    }
}

/// Runs the instructions at the places of a trail, one after the other. On
/// an error the state is as it was before.
pub(crate) fn run_trail(models: &Vec<Model>, state: &mut State, places: &Vec<Place>) -> (r: Result<
    (),
    EvalError,
>)
    requires
        places_in_range(models@, places@),
    ensures
        match apply_trail(models@, old(state)@, places@) {
            Ok(m2) => r is Ok && final(state)@ == m2,
            Err(e) => r == Err::<(), EvalError>(e) && final(state)@ == old(state)@,
        },
{
    let mut working = state.copy();
    let mut i: usize = 0;
    assert(places@.subrange(0, places@.len() as int) =~= places@);
    while i < places.len()
        invariant
            i <= places@.len(),
            places_in_range(models@, places@),
            state@ == old(state)@,
            apply_trail(models@, state@, places@) == apply_trail(
                models@,
                working@,
                places@.subrange(i as int, places@.len() as int),
            ),
        decreases places@.len() - i,
    {
        let ghost suffix = places@.subrange(i as int, places@.len() as int);
        assert(suffix[0] == places@[i as int]);
        assert(suffix.drop_first() =~= places@.subrange(i + 1, places@.len() as int));
        let p = places[i];
        let entered_back = match p.via {
            Via::Output(_) => true,
            _ => false,
        };
        if !entered_back {
            match &models[p.node].kind {
                ModelKind::Instruction { expression } => {
                    match execute_instructions(expression.as_str(), &mut working) {
                        Ok(()) => {},
                        Err(e) => {
                            return Err(e);
                        },
                    }
                },
                _ => {},
            }
        }
        i += 1;
    }
    assert(places@.subrange(i as int, places@.len() as int) =~= Seq::<Place>::empty());
    *state = working;
    Ok(())
}

} // verus!
