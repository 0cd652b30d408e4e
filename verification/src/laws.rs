//! What holds of the library as a whole, proved from the definitions that
//! the contracts of its functions use.

use crate::validation::{connection_resolves, references_resolve, valid_models};
use crate::error::Fault;
use crate::eval::{assigned, eval, instructions, predicate, run_statements};
use crate::interpreter::{
    advance_step, choose_step, chosen, goals, set_state_step, start_step, Report, Session,
};
use crate::model::{
    find_id, lemma_find_id, HierarchyNode, Model, ModelKind, Pin, Place, Via,
};
use crate::syntax::{parse_statements, EvalError, ExprView, StatementView};
use crate::value::{lookup, store, ValueView};
use crate::walker::{
    apply_trail, arrival, branch, branches, depart, exit_pins, follow, intends_end,
    open_targets, passing, pin_targets, prefixed, reported, stops_at, trail, walk, Branch, Halt,
    MAX_FORKS,
};
use vstd::prelude::*;

verus! {

// ---------------------------------------------------------------------
// The state map
// ---------------------------------------------------------------------

/// A value that is written is the value that is read, and writing `Empty`
/// leaves `Empty` to be read; no other key is touched by a write.
pub proof fn law_state_round_trip(
    m: Map<Seq<char>, ValueView>,
    key: Seq<char>,
    value: ValueView,
    other: Seq<char>,
)
    ensures
        !(value is Empty) ==> lookup(store(m, key, value), key) == value,
        lookup(store(m, key, ValueView::Empty), key) == ValueView::Empty,
        other != key ==> lookup(store(m, key, value), other) == lookup(m, other),
{
}

/// The same for an interpreter: after `set_state(key, value)`, `get_state(key)`
/// reads `value`, and the cursor, the pending choices and the stop are as
/// before.
pub proof fn law_set_then_get(s: Session, key: Seq<char>, value: ValueView)
    ensures
        lookup(set_state_step(s, key, value).state, key) == value,
        set_state_step(s, key, value).cursor == s.cursor,
        set_state_step(s, key, value).pending == s.pending,
        set_state_step(s, key, value).stopped == s.stopped,
{
}

/// No binding of the state holds a tuple.
pub open spec fn tuple_free(m: Map<Seq<char>, ValueView>) -> bool {
    forall|k: Seq<char>| m.dom().contains(k) ==> !(#[trigger] m[k] is Tuple)
}

/// In a state without tuples no expression evaluates to a tuple.
pub proof fn lemma_eval_makes_no_tuple(e: ExprView, m: Map<Seq<char>, ValueView>)
    requires
        tuple_free(m),
    ensures
        eval(e, m) matches Ok(v) ==> !(v is Tuple),
    decreases e,
{
    match e {
        ExprView::Not(a) => {
            lemma_eval_makes_no_tuple(*a, m);
        },
        ExprView::Negate(a) => {
            lemma_eval_makes_no_tuple(*a, m);
        },
        ExprView::Binary(_, a, b) => {
            lemma_eval_makes_no_tuple(*a, m);
            lemma_eval_makes_no_tuple(*b, m);
        },
        _ => {},
    }
}

proof fn lemma_statements_make_no_tuple(sts: Seq<StatementView>, m: Map<Seq<char>, ValueView>)
    requires
        tuple_free(m),
    ensures
        run_statements(sts, m) matches Ok(m2) ==> tuple_free(m2),
    decreases sts.len(),
{
    if sts.len() > 0 {
        lemma_eval_makes_no_tuple(sts[0].value, m);
        match assigned(sts[0], m) {
            Ok(v) => {
                lemma_statements_make_no_tuple(sts.drop_first(), store(m, sts[0].target, v));
            },
            Err(_) => {},
        }
    }
}

/// The scripts make scalars only: where the state holds no tuple before an
/// instruction, it holds none after it. A tuple is in the state only where
/// the embedder wrote one.
pub proof fn law_instructions_make_no_tuple(text: Seq<char>, m: Map<Seq<char>, ValueView>)
    requires
        tuple_free(m),
    ensures
        instructions(text, m) matches Ok(m2) ==> tuple_free(m2),
{
    match parse_statements(text, 0) {
        Some(sts) => {
            lemma_statements_make_no_tuple(sts, m);
        },
        None => {},
    }
}

/// The same for a straight walk, and so for every walk.
pub proof fn law_walk_makes_no_tuple(
    ms: Seq<Model>,
    m: Map<Seq<char>, ValueView>,
    p: Place,
    fuel: nat,
    skipping: bool,
)
    requires
        tuple_free(m),
    ensures
        follow(ms, m, p, fuel, skipping) matches Ok((_, m2)) ==> tuple_free(m2),
        walk(ms, m, p, fuel, skipping) matches Ok((_, m2)) ==> tuple_free(m2),
    decreases fuel,
{
    if fuel > 0 {
        reveal(depart);
        match ms[p.node as int].kind {
            ModelKind::Instruction { expression } => {
                law_instructions_make_no_tuple(expression@, m);
            },
            _ => {},
        }
        match depart(ms, m, p) {
            Ok((ts, m2)) => {
                if ts.len() == 1 {
                    match stops_at(ms, m2, ts[0], skipping) {
                        Ok(false) => {
                            law_walk_makes_no_tuple(ms, m2, ts[0], (fuel - 1) as nat, skipping);
                        },
                        _ => {},
                    }
                }
            },
            Err(_) => {},
        }
    }
}

// ---------------------------------------------------------------------
// Determinism
// ---------------------------------------------------------------------

/// A call of the interpreter after its start.
pub enum Call {
    Advance,
    ExhaustMaximally,
    Choose(Seq<char>),
}

/// The session and the report after one call.
pub open spec fn call_step(ms: Seq<Model>, root: HierarchyNode, s: Session, call: Call) -> (
    Session,
    Result<Report, Fault>,
) {
    match call {
        Call::Advance => advance_step(ms, root, s, false),
        Call::ExhaustMaximally => advance_step(ms, root, s, true),
        Call::Choose(id) => choose_step(ms, s, id),
    }
}

/// The reports of a sequence of calls, made one after the other from the
/// session `s`.
pub open spec fn reports(ms: Seq<Model>, root: HierarchyNode, s: Session, calls: Seq<Call>) -> Seq<
    Result<Report, Fault>,
>
    decreases calls.len(),
{
    if calls.len() == 0 {
        Seq::empty()
    } else {
        let (next, report) = call_step(ms, root, s, calls[0]);
        seq![report] + reports(ms, root, next, calls.drop_first())
    }
}

/// The reports of `start(id)` and of the calls that follow it.
pub open spec fn dialogue(
    ms: Seq<Model>,
    root: HierarchyNode,
    s: Session,
    id: Seq<char>,
    calls: Seq<Call>,
) -> Seq<Result<Report, Fault>> {
    let (started, report) = start_step(ms, s, id);
    seq![report] + reports(ms, root, started, calls)
}

/// A start of a known model, followed by a fixed sequence of calls, reports
/// the same from any two sessions with the same state map and the same step
/// bound: where an earlier run left the cursor, the pending choices and the
/// stop has no part in it.
pub proof fn law_determinism(
    ms: Seq<Model>,
    root: HierarchyNode,
    a: Session,
    b: Session,
    id: Seq<char>,
    calls: Seq<Call>,
)
    requires
        a.state == b.state,
        a.max_steps == b.max_steps,
    ensures
        find_id(ms, id, 0) is Some ==> dialogue(ms, root, a, id, calls) == dialogue(
            ms,
            root,
            b,
            id,
            calls,
        ),
        a == b ==> dialogue(ms, root, a, id, calls) == dialogue(ms, root, b, id, calls),
{
    if find_id(ms, id, 0) is Some {
        assert(start_step(ms, a, id).0 == start_step(ms, b, id).0);
    }
}

// ---------------------------------------------------------------------
// What is reported
// ---------------------------------------------------------------------

/// A straight walk arrives only at a model that is reported.
pub proof fn lemma_follow_arrives_at_reported(
    ms: Seq<Model>,
    m: Map<Seq<char>, ValueView>,
    p: Place,
    fuel: nat,
    skipping: bool,
)
    ensures
        follow(ms, m, p, fuel, skipping) matches Ok((Halt::Arrived(q), _)) ==> reported(ms, q),
    decreases fuel,
{
    if fuel > 0 {
        match depart(ms, m, p) {
            Ok((ts, m2)) => {
                if ts.len() == 1 {
                    match stops_at(ms, m2, ts[0], skipping) {
                        Ok(false) => {
                            lemma_follow_arrives_at_reported(
                                ms,
                                m2,
                                ts[0],
                                (fuel - 1) as nat,
                                skipping,
                            );
                        },
                        _ => {},
                    }
                }
            },
            Err(_) => {},
        }
    }
}

/// Every pending choice of the session is a model that is reported.
pub open spec fn offers_reported(ms: Seq<Model>, s: Session) -> bool {
    forall|k: int| 0 <= k < s.pending.len() ==> reported(ms, (#[trigger] s.pending[k]).goal)
}

/// The model that `advance` or `exhaust_maximally` reports as reached, and
/// every model that it lists as a choice, is of an observable kind: a
/// dialogue fragment, an entity, a user folder or a model of a custom kind.
/// A condition, an instruction, a jump, a hub or a container is neither
/// reached nor listed; and the choices that are then pending are the models
/// that were listed.
pub proof fn law_only_observable_models_are_reported(
    ms: Seq<Model>,
    root: HierarchyNode,
    s: Session,
    skipping: bool,
)
    ensures
        advance_step(ms, root, s, skipping).1 matches Ok(Report::Advanced(p)) ==> reported(ms, p)
            && ms[p.node as int].kind.observable(),
        advance_step(ms, root, s, skipping).1 matches Ok(Report::WaitingForChoice(ts)) ==> ts.len()
            > 0 && ts == goals(advance_step(ms, root, s, skipping).0.pending) && forall|k: int|
            0 <= k < ts.len() ==> reported(ms, #[trigger] ts[k]) && ms[ts[k].node as int].kind.observable(),
        offers_reported(ms, s) ==> offers_reported(ms, advance_step(ms, root, s, skipping).0),
{
    if s.cursor is Some && s.pending.len() == 0 && !s.stopped {
        let c = s.cursor->Some_0;
        lemma_follow_arrives_at_reported(ms, s.state, c, s.max_steps, skipping);
        match follow(ms, s.state, c, s.max_steps, skipping) {
            Ok((Halt::Forked(_, ts), m2)) => {
                let left = (s.max_steps - trail(ms, s.state, c, s.max_steps, skipping).len()) as nat;
                lemma_branches_lead(ms, m2, ts, left, MAX_FORKS as nat);
                match branches(ms, m2, ts, left, MAX_FORKS as nat) {
                    Ok((bs, _)) => {
                        assert forall|k: int| 0 <= k < bs.len() implies reported(
                            ms,
                            #[trigger] goals(bs)[k],
                        ) by {
                            assert(leads(ms, m2, bs[k]));
                        }
                    },
                    Err(_) => {},
                }
            },
            _ => {},
        }
    }
}

/// The model that `choose_option` reports is the one that was chosen: it
/// has the identifier that was asked for and becomes the cursor, and it is
/// of an observable kind, as every pending choice is. `start`, `set_state`
/// and `choose_option` keep it so that every pending choice is reported.
pub proof fn law_the_chosen_model_is_reported(
    ms: Seq<Model>,
    s: Session,
    id: Seq<char>,
    key: Seq<char>,
    value: ValueView,
)
    requires
        offers_reported(ms, s),
    ensures
        choose_step(ms, s, id).1 matches Ok(r) ==> (r matches Report::Advanced(p) && ms[p.node as int].id@
            == id && reported(ms, p) && ms[p.node as int].kind.observable() && choose_step(
            ms,
            s,
            id,
        ).0.cursor == Some(p) && choose_step(ms, s, id).0.pending.len() == 0),
        offers_reported(ms, choose_step(ms, s, id).0),
        offers_reported(ms, start_step(ms, s, id).0),
        offers_reported(ms, set_state_step(s, key, value)),
        offers_reported(ms, Session::initial()),
{
    lemma_chosen(ms, s.pending, id, 0);
}

// ---------------------------------------------------------------------
// Choices
// ---------------------------------------------------------------------

/// Whether `id` is the identifier of one of the pending choices.
pub open spec fn is_pending(ms: Seq<Model>, pending: Seq<Branch>, id: Seq<char>) -> bool {
    exists|i: int| 0 <= i < pending.len() && ms[(#[trigger] pending[i]).goal.node as int].id@ == id
}

/// [`chosen`] finds a choice exactly where `id` is pending.
pub proof fn lemma_chosen(ms: Seq<Model>, pending: Seq<Branch>, id: Seq<char>, from: int)
    requires
        0 <= from,
    ensures
        match chosen(ms, pending, id, from) {
            Some(i) => from <= i < pending.len() && ms[pending[i].goal.node as int].id@ == id,
            None => forall|i: int|
                from <= i < pending.len() ==> ms[(#[trigger] pending[i]).goal.node as int].id@ != id,
        },
    decreases pending.len() - from,
{
    if from < pending.len() && ms[pending[from].goal.node as int].id@ != id {
        lemma_chosen(ms, pending, id, from + 1);
    }
}

/// `choose_option(id)` is refused as an invalid choice exactly where `id` is
/// none of the pending choices, and then nothing changes. Once a choice is
/// taken, nothing is pending: every further choice is refused.
pub proof fn law_only_a_pending_choice_is_taken(
    ms: Seq<Model>,
    s: Session,
    id: Seq<char>,
    later: Seq<char>,
)
    ensures
        choose_step(ms, s, id).1 == Err::<Report, Fault>(Fault::InvalidChoice(id)) <==> !is_pending(
            ms,
            s.pending,
            id,
        ),
        choose_step(ms, s, id).1 is Err ==> choose_step(ms, s, id).0 == s,
        choose_step(ms, s, id).1 is Ok ==> choose_step(ms, choose_step(ms, s, id).0, later).1
            == Err::<Report, Fault>(Fault::InvalidChoice(later)),
{
    lemma_chosen(ms, s.pending, id, 0);
    let after = choose_step(ms, s, id).0;
    if choose_step(ms, s, id).1 is Ok {
        assert(after.pending.len() == 0);
        assert(chosen(ms, after.pending, later, 0) is None);
    }
}

/// The instructions on the trail of a straight walk that comes to an end
/// all evaluate, one after the other, from the state at its start, and
/// leave the state at its end.
pub proof fn lemma_trail_runs(
    ms: Seq<Model>,
    m: Map<Seq<char>, ValueView>,
    p: Place,
    fuel: nat,
    skipping: bool,
)
    ensures
        follow(ms, m, p, fuel, skipping) matches Ok((_, m2)) ==> apply_trail(
            ms,
            m,
            trail(ms, m, p, fuel, skipping),
        ) == Ok::<Map<Seq<char>, ValueView>, EvalError>(m2),
    decreases fuel,
{
    if fuel > 0 {
        lemma_depart_passing(ms, m, p);
        match depart(ms, m, p) {
            Err(_) => {},
            Ok((ts, m2)) => {
                let here = seq![p];
                assert(here.drop_first() =~= Seq::<Place>::empty());
                if ts.len() != 1 {
                    assert(apply_trail(ms, m, here) == apply_trail(ms, m2, here.drop_first()));
                } else {
                    match stops_at(ms, m2, ts[0], skipping) {
                        Ok(false) => {
                            let rest = trail(ms, m2, ts[0], (fuel - 1) as nat, skipping);
                            lemma_trail_runs(ms, m2, ts[0], (fuel - 1) as nat, skipping);
                            assert((here + rest).drop_first() =~= rest);
                            assert((here + rest)[0] == p);
                        },
                        Ok(true) => {
                            assert(apply_trail(ms, m, here) == apply_trail(
                                ms,
                                m2,
                                here.drop_first(),
                            ));
                        },
                        Err(_) => {},
                    }
                }
            },
        }
    }
}

/// Running the instructions of two trails one after the other is running
/// those of the one trail that they make up.
pub proof fn lemma_apply_trail_joined(
    ms: Seq<Model>,
    m: Map<Seq<char>, ValueView>,
    a: Seq<Place>,
    b: Seq<Place>,
)
    ensures
        apply_trail(ms, m, a + b) == match apply_trail(ms, m, a) {
            Ok(m2) => apply_trail(ms, m2, b),
            Err(e) => Err(e),
        },
    decreases a.len(),
{
    if a.len() == 0 {
        assert(a + b =~= b);
    } else {
        assert((a + b)[0] == a[0]);
        assert((a + b).drop_first() =~= a.drop_first() + b);
        match passing(ms, m, a[0]) {
            Ok(m2) => {
                lemma_apply_trail_joined(ms, m2, a.drop_first(), b);
            },
            Err(_) => {},
        }
    }
}

/// A trail is no longer than the steps that the walk may take, and a walk
/// that comes to an end has left at least one place.
pub proof fn lemma_trail_length(
    ms: Seq<Model>,
    m: Map<Seq<char>, ValueView>,
    p: Place,
    fuel: nat,
    skipping: bool,
)
    ensures
        trail(ms, m, p, fuel, skipping).len() <= fuel,
        follow(ms, m, p, fuel, skipping) is Ok ==> trail(ms, m, p, fuel, skipping).len() >= 1,
    decreases fuel,
{
    if fuel > 0 {
        match depart(ms, m, p) {
            Ok((ts, m2)) => {
                if ts.len() == 1 {
                    lemma_trail_length(ms, m2, ts[0], (fuel - 1) as nat, skipping);
                }
            },
            Err(_) => {},
        }
    }
}

/// The branch leads on from a fork in the state `m`: its goal is a model
/// that is reported, and the instructions on its trail evaluate from `m`.
pub open spec fn leads(ms: Seq<Model>, m: Map<Seq<char>, ValueView>, b: Branch) -> bool {
    reported(ms, b.goal) && apply_trail(ms, m, b.trail) is Ok
}

/// Every way on from a fork to one target leads to a model that is
/// reported, by instructions that evaluate in the state of the fork.
pub proof fn lemma_branch_leads(
    ms: Seq<Model>,
    m: Map<Seq<char>, ValueView>,
    t: Place,
    fuel: nat,
    forks: nat,
)
    ensures
        branch(ms, m, t, fuel, forks) matches Ok((bs, left)) ==> left <= fuel && forall|k: int|
            0 <= k < bs.len() ==> leads(ms, m, #[trigger] bs[k]),
    decreases fuel, 0nat,
{
    if reported(ms, t) {
        assert(apply_trail(ms, m, Seq::<Place>::empty()) is Ok);
    } else {
        let passed = trail(ms, m, t, fuel, false);
        lemma_follow_arrives_at_reported(ms, m, t, fuel, false);
        lemma_trail_runs(ms, m, t, fuel, false);
        lemma_trail_length(ms, m, t, fuel, false);
        match follow(ms, m, t, fuel, false) {
            Ok((Halt::Arrived(q), _)) => {
                assert(leads(ms, m, Branch { goal: q, trail: passed }));
            },
            Ok((Halt::Forked(_, ts), m2)) => {
                if forks > 0 && 1 <= passed.len() <= fuel {
                    let left = (fuel - passed.len()) as nat;
                    lemma_branches_lead(ms, m2, ts, left, (forks - 1) as nat);
                    match branches(ms, m2, ts, left, (forks - 1) as nat) {
                        Ok((sub, _)) => {
                            let bs = prefixed(passed, sub);
                            assert forall|k: int| 0 <= k < bs.len() implies leads(
                                ms,
                                m,
                                #[trigger] bs[k],
                            ) by {
                                assert(leads(ms, m2, sub[k]));
                                lemma_apply_trail_joined(ms, m, passed, sub[k].trail);
                                assert(bs[k].trail == passed + sub[k].trail);
                                assert(bs[k].goal == sub[k].goal);
                            }
                            assert(branch(ms, m, t, fuel, forks)->Ok_0.0 == bs);
                        },
                        Err(_) => {},
                    }
                }
            },
            _ => {},
        }
    }
}

/// The same for all the ways on from a fork.
pub proof fn lemma_branches_lead(
    ms: Seq<Model>,
    m: Map<Seq<char>, ValueView>,
    ts: Seq<Place>,
    fuel: nat,
    forks: nat,
)
    ensures
        branches(ms, m, ts, fuel, forks) matches Ok((bs, left)) ==> left <= fuel && forall|k: int|
            0 <= k < bs.len() ==> leads(ms, m, #[trigger] bs[k]),
    decreases fuel, ts.len() + 1,
{
    if ts.len() > 0 {
        lemma_branch_leads(ms, m, ts[0], fuel, forks);
        match branch(ms, m, ts[0], fuel, forks) {
            Ok((first, left)) => {
                if left <= fuel {
                    lemma_branches_lead(ms, m, ts.drop_first(), left, forks);
                    match branches(ms, m, ts.drop_first(), left, forks) {
                        Ok((rest, _)) => {
                            let bs = first + rest;
                            assert forall|k: int| 0 <= k < bs.len() implies leads(
                                ms,
                                m,
                                #[trigger] bs[k],
                            ) by {
                                if k < first.len() {
                                    assert(bs[k] == first[k]);
                                } else {
                                    assert(bs[k] == rest[k - first.len()]);
                                }
                            }
                        },
                        Err(_) => {},
                    }
                }
            },
            Err(_) => {},
        }
    }
}

/// Every choice that `advance` or `exhaust_maximally` lists is accepted
/// when it is taken next: `choose_option` with the identifier of a listed
/// model reports a model of that identifier as reached.
pub proof fn law_a_listed_choice_is_accepted(
    ms: Seq<Model>,
    root: HierarchyNode,
    s: Session,
    skipping: bool,
    k: int,
)
    requires
        advance_step(ms, root, s, skipping).1 matches Ok(Report::WaitingForChoice(ts)) && 0 <= k
            < ts.len(),
    ensures
        ({
            let listed = advance_step(ms, root, s, skipping).1->Ok_0->WaitingForChoice_0;
            let id = ms[listed[k].node as int].id@;
            choose_step(ms, advance_step(ms, root, s, skipping).0, id).1 matches Ok(
                Report::Advanced(p),
            ) && ms[p.node as int].id@ == id
        }),
{
    let c = s.cursor->Some_0;
    let after = advance_step(ms, root, s, skipping).0;
    let listed = advance_step(ms, root, s, skipping).1->Ok_0->WaitingForChoice_0;
    let id = ms[listed[k].node as int].id@;
    match follow(ms, s.state, c, s.max_steps, skipping) {
        Ok((Halt::Forked(_, ts), m2)) => {
            let left = (s.max_steps - trail(ms, s.state, c, s.max_steps, skipping).len()) as nat;
            lemma_branches_lead(ms, m2, ts, left, MAX_FORKS as nat);
            assert(after.pending[k].goal == listed[k]);
            lemma_chosen(ms, after.pending, id, 0);
            let i = chosen(ms, after.pending, id, 0)->Some_0;
            assert(leads(ms, m2, after.pending[i]));
        },
        _ => {},
    }
}

// ---------------------------------------------------------------------
// Instructions
// ---------------------------------------------------------------------

/// A step changes the state by what passing the place that it leaves does.
pub proof fn lemma_depart_passing(ms: Seq<Model>, m: Map<Seq<char>, ValueView>, p: Place)
    ensures
        depart(ms, m, p) matches Ok((_, m2)) ==> passing(ms, m, p) == Ok::<
            Map<Seq<char>, ValueView>,
            EvalError,
        >(m2),
{
    reveal(depart);
}

/// The state at the end of a walk is the state at its start after the
/// instructions on its trail, each run once and in the order of the trail:
/// all of them have been run when the walk reports where it ended. The
/// instructions on the way to a choice are run, once and in order, when the
/// choice is taken, before the chosen model is reported.
pub proof fn law_instruction_order(
    ms: Seq<Model>,
    m: Map<Seq<char>, ValueView>,
    p: Place,
    fuel: nat,
    skipping: bool,
    s: Session,
    id: Seq<char>,
)
    ensures
        walk(ms, m, p, fuel, skipping) matches Ok((_, m2)) ==> apply_trail(
            ms,
            m,
            trail(ms, m, p, fuel, skipping),
        ) == Ok::<Map<Seq<char>, ValueView>, EvalError>(m2),
        (chosen(ms, s.pending, id, 0) matches Some(i) && choose_step(ms, s, id).1 is Ok)
            ==> apply_trail(ms, s.state, s.pending[chosen(ms, s.pending, id, 0)->Some_0].trail)
            == Ok::<Map<Seq<char>, ValueView>, EvalError>(choose_step(ms, s, id).0.state),
{
    lemma_trail_runs(ms, m, p, fuel, skipping);
}

// ---------------------------------------------------------------------
// Validity
// ---------------------------------------------------------------------

/// In a valid project no connection leads nowhere and no jump is without a
/// target: every connection of every pin arrives at a place, which is a
/// model of the project entered through a pin that the model has.
pub proof fn law_valid_connections_arrive(ms: Seq<Model>, i: int, pin: Pin, k: int)
    requires
        valid_models(ms),
        0 <= i < ms.len(),
        ms[i].input_pins@.contains(pin) || ms[i].output_pins@.contains(pin),
        0 <= k < pin.connections@.len(),
    ensures
        arrival(ms, pin.connections@[k]) matches Some(p) && p.node < ms.len() && !(p.via is Start),
        ms[i].kind matches ModelKind::Jump { target } ==> find_id(ms, target@, 0) is Some,
{
    let c = pin.connections@[k];
    assert(references_resolve(ms, ms[i]));
    if ms[i].input_pins@.contains(pin) {
        let a = choose|a: int| 0 <= a < ms[i].input_pins@.len() && ms[i].input_pins@[a] == pin;
        assert(connection_resolves(ms, ms[i].input_pins@[a].connections@[k]));
    } else {
        let a = choose|a: int| 0 <= a < ms[i].output_pins@.len() && ms[i].output_pins@[a] == pin;
        assert(connection_resolves(ms, ms[i].output_pins@[a].connections@[k]));
    }
    lemma_find_id(ms, c.target@, 0);
}

// ---------------------------------------------------------------------
// Guards
// ---------------------------------------------------------------------

/// Every place among the targets of a pin is where one of its connections
/// leads.
pub proof fn lemma_pin_target_is_arrival(ms: Seq<Model>, pin: Pin, k: int)
    requires
        0 <= k < pin_targets(ms, pin.connections@).len(),
    ensures
        exists|j: int|
            0 <= j < pin.connections@.len() && arrival(ms, #[trigger] pin.connections@[j]) == Some(
                pin_targets(ms, pin.connections@)[k],
            ),
{
    lemma_targets_are_arrivals(ms, pin.connections@, k);
}

proof fn lemma_targets_are_arrivals(ms: Seq<Model>, conns: Seq<crate::model::Connection>, k: int)
    requires
        0 <= k < pin_targets(ms, conns).len(),
    ensures
        exists|j: int|
            0 <= j < conns.len() && arrival(ms, #[trigger] conns[j]) == Some(
                pin_targets(ms, conns)[k],
            ),
    decreases conns.len(),
{
    let before = pin_targets(ms, conns.drop_last());
    if k < before.len() {
        lemma_targets_are_arrivals(ms, conns.drop_last(), k);
        let j = choose|j: int|
            0 <= j < conns.drop_last().len() && arrival(ms, #[trigger] conns.drop_last()[j])
                == Some(before[k]);
        assert(conns[j] == conns.drop_last()[j]);
    } else {
        assert(arrival(ms, conns[conns.len() - 1]) == Some(pin_targets(ms, conns)[k]));
    }
}

/// A connection of a closed pin is never taken: every place to which the
/// walk may go from `pins` is where a connection of a pin leads whose guard
/// is true in the state.
pub proof fn law_closed_pin_not_taken(
    ms: Seq<Model>,
    pins: Seq<Pin>,
    m: Map<Seq<char>, ValueView>,
    k: int,
)
    requires
        open_targets(ms, pins, m) matches Ok(ts) && 0 <= k < ts.len(),
    ensures
        exists|i: int, j: int|
            0 <= i < pins.len() && predicate(pins[i].guard@, m) == Ok::<bool, EvalError>(true) && 0
                <= j < pins[i].connections@.len() && arrival(
                ms,
                #[trigger] pins[i].connections@[j],
            ) == Some(open_targets(ms, pins, m)->Ok_0[k]),
    decreases pins.len(),
{
    let ts = open_targets(ms, pins, m)->Ok_0;
    let rest_pins = pins.drop_first();
    let rest = open_targets(ms, rest_pins, m)->Ok_0;
    let first = pin_targets(ms, pins[0].connections@);
    if predicate(pins[0].guard@, m) == Ok::<bool, EvalError>(true) && k < first.len() {
        lemma_pin_target_is_arrival(ms, pins[0], k);
        let j = choose|j: int|
            0 <= j < pins[0].connections@.len() && arrival(ms, #[trigger] pins[0].connections@[j])
                == Some(first[k]);
        assert(arrival(ms, pins[0].connections@[j]) == Some(ts[k]));
    } else {
        let k2 = if predicate(pins[0].guard@, m) == Ok::<bool, EvalError>(true) {
            k - first.len()
        } else {
            k
        };
        assert(rest[k2] == ts[k]);
        law_closed_pin_not_taken(ms, rest_pins, m, k2);
        let (i, j) = choose|i: int, j: int|
            0 <= i < rest_pins.len() && predicate(rest_pins[i].guard@, m) == Ok::<bool, EvalError>(
                true,
            ) && 0 <= j < rest_pins[i].connections@.len() && arrival(
                ms,
                #[trigger] rest_pins[i].connections@[j],
            ) == Some(rest[k2]);
        assert(pins[i + 1] == rest_pins[i]);
        assert(arrival(ms, pins[i + 1].connections@[j]) == Some(ts[k]));
    }
}

/// The place `t` is where a connection of a pin of the model at `p` leads
/// whose guard is true in the state `m`.
pub open spec fn by_open_connection(
    ms: Seq<Model>,
    m: Map<Seq<char>, ValueView>,
    p: Place,
    t: Place,
) -> bool {
    exists|pin: Pin, j: int|
        (ms[p.node as int].input_pins@.contains(pin) || ms[p.node as int].output_pins@.contains(
            pin,
        )) && predicate(pin.guard@, m) == Ok::<bool, EvalError>(true) && 0 <= j
            < pin.connections@.len() && arrival(ms, #[trigger] pin.connections@[j]) == Some(t)
}

/// The pins through which a model is left are pins of the model.
proof fn lemma_exit_pins_are_pins(model: Model, via: Via, branch: bool, i: int)
    requires
        0 <= i < exit_pins(model, via, branch).len(),
    ensures
        model.input_pins@.contains(exit_pins(model, via, branch)[i]) || model.output_pins@.contains(
            exit_pins(model, via, branch)[i],
        ),
{
    let pins = exit_pins(model, via, branch);
    let pin = pins[i];
    let ins = model.input_pins@;
    let outs = model.output_pins@;
    if exists|k: int| 0 <= k < outs.len() && outs[k] == pin {
    } else if exists|k: int| 0 <= k < ins.len() && ins[k] == pin {
    } else {
        match via {
            Via::Output(j) => {
                assert(outs[j as int + i] == pin);
            },
            Via::Input(j) => {
                if model.kind.container() {
                    assert(ins[j as int + i] == pin);
                } else if model.kind is Condition {
                    assert(outs[i] == pin || outs[i + 1] == pin);
                } else {
                    assert(outs[i] == pin);
                }
            },
            Via::Start => {
                if model.kind.container() {
                    assert(ins[i] == pin);
                } else if model.kind is Condition {
                    assert(outs[i] == pin || outs[i + 1] == pin);
                } else {
                    assert(outs[i] == pin);
                }
            },
        }
    }
}

/// No step takes a connection of a closed pin: every place to which a step
/// leads, but for the target of a jump, is where a connection of a pin of
/// the model leads whose guard is true in the state after the step.
pub proof fn law_step_takes_open_connections(
    ms: Seq<Model>,
    m: Map<Seq<char>, ValueView>,
    p: Place,
    k: int,
)
    requires
        depart(ms, m, p) matches Ok((ts, _)) && 0 <= k < ts.len(),
        p.via is Output || !(ms[p.node as int].kind is Jump),
    ensures
        by_open_connection(ms, depart(ms, m, p)->Ok_0.1, p, depart(ms, m, p)->Ok_0.0[k]),
{
    reveal(depart);
    let model = ms[p.node as int];
    let (ts, m2) = depart(ms, m, p)->Ok_0;
    let branch = match model.kind {
        ModelKind::Condition { expression } => if p.via is Output {
            true
        } else {
            predicate(expression@, m)->Ok_0
        },
        _ => true,
    };
    let pins = exit_pins(model, p.via, branch);
    let all = open_targets(ms, pins, m2)->Ok_0;
    assert(open_targets(ms, pins, m2) is Ok);
    assert(0 <= k < all.len() && all[k] == ts[k]);
    law_closed_pin_not_taken(ms, pins, m2, k);
    let (i, j) = choose|i: int, j: int|
        0 <= i < pins.len() && predicate(pins[i].guard@, m2) == Ok::<bool, EvalError>(true) && 0
            <= j < pins[i].connections@.len() && arrival(ms, #[trigger] pins[i].connections@[j])
            == Some(all[k]);
    lemma_exit_pins_are_pins(model, p.via, branch, i);
    assert(arrival(ms, pins[i].connections@[j]) == Some(ts[k]));
}

/// Pins that are all closed have no open target.
pub proof fn lemma_all_closed_no_target(ms: Seq<Model>, pins: Seq<Pin>, m: Map<Seq<char>, ValueView>)
    requires
        forall|i: int|
            0 <= i < pins.len() ==> predicate((#[trigger] pins[i]).guard@, m) == Ok::<
                bool,
                EvalError,
            >(false),
    ensures
        open_targets(ms, pins, m) == Ok::<Seq<Place>, EvalError>(Seq::empty()),
    decreases pins.len(),
{
    if pins.len() > 0 {
        assert forall|i: int| 0 <= i < pins.drop_first().len() implies predicate(
            (#[trigger] pins.drop_first()[i]).guard@,
            m,
        ) == Ok::<bool, EvalError>(false) by {
            assert(pins.drop_first()[i] == pins[i + 1]);
        }
        lemma_all_closed_no_target(ms, pins.drop_first(), m);
    }
}

/// Where the cursor is at a condition that evaluates and whose output pins
/// are all closed, and the graph intends an end there, `advance` reports the
/// end of the dialogue, and the state map is as before.
pub proof fn law_closed_condition_ends(ms: Seq<Model>, root: HierarchyNode, s: Session, c: Place)
    requires
        intends_end(ms, root, c),
        s.cursor == Some(c),
        s.pending.len() == 0,
        !s.stopped,
        s.max_steps > 0,
        !(c.via is Output),
        ms[c.node as int].kind matches ModelKind::Condition { expression } && predicate(
            expression@,
            s.state,
        ) is Ok,
        forall|i: int|
            0 <= i < ms[c.node as int].output_pins@.len() ==> predicate(
                (#[trigger] ms[c.node as int].output_pins@[i]).guard@,
                s.state,
            ) == Ok::<bool, EvalError>(false),
    ensures
        advance_step(ms, root, s, false).1 == Ok::<Report, Fault>(Report::EndOfDialogue),
        advance_step(ms, root, s, false).0 == (Session { stopped: true, ..s }),
{
    reveal(depart);
    let model = ms[c.node as int];
    let expression = model.kind->Condition_expression;
    let branch = predicate(expression@, s.state)->Ok_0;
    let pins = exit_pins(model, c.via, branch);
    assert forall|i: int| 0 <= i < pins.len() implies predicate((#[trigger] pins[i]).guard@, s.state)
        == Ok::<bool, EvalError>(false) by {
        if branch {
            assert(pins[i] == model.output_pins@[i]);
        } else {
            assert(pins[i] == model.output_pins@[i + 1]);
        }
    }
    lemma_all_closed_no_target(ms, pins, s.state);
    assert(depart(ms, s.state, c) == Ok::<
        (Seq<Place>, Map<Seq<char>, ValueView>),
        EvalError,
    >((Seq::empty(), s.state)));
    assert(s.pending =~= Seq::<Branch>::empty());
}

} // verus!
