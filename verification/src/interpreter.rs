//! The interpreter: a cursor into the graph of a database, the state map,
//! and the protocol of `start`, `advance`, `choose_option` and
//! `exhaust_maximally`.
//!
//! ```text
//!   Idle --start--> Running --advance--> Running
//!                    |  ^                   |
//!                    |  +--choose_option----+ (while a choice is pending)
//!                    v                      v
//!              AwaitingChoice            Terminal
//! ```
//!
//! Every operation is a function of the models, the session before it and
//! its arguments: [`start_step`], [`advance_step`] and [`choose_step`] say
//! what the session is afterwards and what is reported.
//!
//! Only models of an observable kind are reported: conditions, instructions,
//! jumps, hubs and containers are passed in silence, also on the way from a
//! branching point to the choices that it offers. A choice is the model to
//! which a way leads; the instructions on the way are run when the choice is
//! taken, and the chosen model is then what is reported.

use crate::database::Database;
use crate::error::{Error, Fault};
use crate::model::{
    find_id, find_model, lemma_find_id, place_in_range, HierarchyNode, Model, Place, Via,
};
use crate::syntax::EvalError;
use crate::value::{lookup, store, State, StateValue, ValueView};
use crate::walker::{
    apply_trail, branch_in_range, branches_in_range, intends_end, is_intended_end, run_trail,
    walk, walk_from, ways, Branch, Reached, Rest, WalkError, Way,
};
use vstd::prelude::*;

verus! {

/// The number of steps that one operation may take, unless it is set.
pub const DEFAULT_MAX_STEPS: usize = 10000;

/// What an operation of the interpreter reports.
#[derive(Debug)]
pub enum Outcome<'a> {
    /// The cursor has moved to this model, which is now current.
    Advanced(&'a Model),
    /// The cursor is at a branching point; one of these models, each of
    /// which is reported when it is reached, is to be chosen.
    WaitingForChoice(Vec<&'a Model>),
    /// The interpreter has been stopped.
    Stopped,
    /// The walk has come to its end.
    EndOfDialogue,
}

/// What an operation reports, by places in the list of models.
pub enum Report {
    Advanced(Place),
    WaitingForChoice(Seq<Place>),
    Stopped,
    EndOfDialogue,
}

/// The mathematical content of an interpreter, apart from its models.
pub struct Session {
    /// The state map.
    pub state: Map<Seq<char>, ValueView>,
    /// The current position, once started.
    pub cursor: Option<Place>,
    /// The choices that are waited for, each with the way to it; empty when
    /// none is.
    pub pending: Seq<Branch>,
    /// Whether the walk has come to its end.
    pub stopped: bool,
    /// The number of steps that one operation may take.
    pub max_steps: nat,
}

impl Session {
    /// The session of a new interpreter.
    pub open spec fn initial() -> Session {
        Session {
            state: Map::empty(),
            cursor: None,
            pending: Seq::empty(),
            stopped: false,
            max_steps: DEFAULT_MAX_STEPS as nat,
        }
    }
}

/// The goals of the branches, in order.
pub open spec fn goals(bs: Seq<Branch>) -> Seq<Place> {
    Seq::new(bs.len(), |i: int| bs[i].goal)
}

/// The session is in order for the models: its cursor is one of them, and
/// every pending choice is a reported model with a trail among them.
pub open spec fn settled(ms: Seq<Model>, s: Session) -> bool {
    &&& ms.len() <= usize::MAX
    &&& s.cursor matches Some(c) ==> place_in_range(ms, c)
    &&& branches_in_range(ms, s.pending)
}

/// Whether a computed result is what is expected: the models of an outcome
/// are the models at the places of the report, and an error has the content
/// of the fault.
pub open spec fn outcome_is<'a>(
    ms: Seq<Model>,
    r: Result<Outcome<'a>, Error>,
    expected: Result<Report, Fault>,
) -> bool {
    match expected {
        Ok(Report::Advanced(p)) => r matches Ok(Outcome::Advanced(m)) && *m == ms[p.node as int],
        Ok(Report::WaitingForChoice(ts)) => r matches Ok(Outcome::WaitingForChoice(v)) && v@.len()
            == ts.len() && forall|i: int|
            0 <= i < ts.len() ==> *(#[trigger] v@[i]) == ms[ts[i].node as int],
        Ok(Report::Stopped) => r matches Ok(Outcome::Stopped),
        Ok(Report::EndOfDialogue) => r matches Ok(Outcome::EndOfDialogue),
        Err(f) => r matches Err(e) && e@ == f,
    }
}

/// The session and the report after a walk from the session `s`. A walk
/// that fails leaves the session as it was; one that took all its steps
/// fails with `out_of_steps`. At a fork the models to which the ways on
/// lead are the choices; the state is that of the fork, and the
/// instructions on a way are run when its choice is taken. A walk that
/// cannot go on has come to the end of the dialogue where the graph intends
/// an end there (see [`intends_end`]); else it is stuck, and the session is
/// left as it was.
pub open spec fn after_walk(
    ms: Seq<Model>,
    root: HierarchyNode,
    s: Session,
    walked: Result<(Rest, Map<Seq<char>, ValueView>), WalkError>,
    out_of_steps: Fault,
) -> (Session, Result<Report, Fault>) {
    match walked {
        Err(WalkError::Eval(e)) => (s, Err(Fault::EvalError(e))),
        Err(WalkError::OutOfSteps) => (s, Err(out_of_steps)),
        Ok((Rest::Arrived(q), m)) => (
            Session { state: m, cursor: Some(q), pending: Seq::empty(), stopped: false, ..s },
            Ok(Report::Advanced(q)),
        ),
        Ok((Rest::Waiting(p, bs), m)) => (
            Session { state: m, cursor: Some(p), pending: bs, stopped: false, ..s },
            Ok(Report::WaitingForChoice(goals(bs))),
        ),
        Ok((Rest::Ended(p), m)) => if intends_end(ms, root, p) {
            (
                Session { state: m, cursor: Some(p), pending: Seq::empty(), stopped: true, ..s },
                Ok(Report::EndOfDialogue),
            )
        } else {
            (s, Err(Fault::Stuck))
        },
    }
}

/// What running out of steps is called: `Runaway` for a walk that skips,
/// `Stuck` for one that does not.
pub open spec fn out_of_steps(skipping: bool) -> Fault {
    if skipping {
        Fault::Runaway
    } else {
        Fault::Stuck
    }
}

/// `start(id)`: the cursor is set to the model of that identifier, pending
/// choices and the stop are cleared, and the model is reported. The state
/// map is kept. An unknown identifier changes nothing.
pub open spec fn start_step(ms: Seq<Model>, s: Session, id: Seq<char>) -> (
    Session,
    Result<Report, Fault>,
) {
    match find_id(ms, id, 0) {
        None => (s, Err(Fault::NotFound(id))),
        Some(n) => {
            let p = Place { node: n as usize, via: Via::Start };
            (
                Session { cursor: Some(p), pending: Seq::empty(), stopped: false, ..s },
                Ok(Report::Advanced(p)),
            )
        },
    }
}

/// `advance()`, and with `skipping` `exhaust_maximally()`: fails while a
/// choice is pending and before a start; reports the end again once the walk
/// has ended; else walks from the cursor. A walk that takes all the steps
/// of the session without coming to an event fails: as stuck in `advance`,
/// as a runaway in `exhaust_maximally`.
pub open spec fn advance_step(
    ms: Seq<Model>,
    root: HierarchyNode,
    s: Session,
    skipping: bool,
) -> (Session, Result<Report, Fault>) {
    if s.pending.len() > 0 {
        (s, Err(Fault::AwaitingChoice))
    } else {
        match s.cursor {
            None => (s, Err(Fault::NotStarted)),
            Some(c) => if s.stopped {
                (s, Ok(Report::EndOfDialogue))
            } else {
                after_walk(
                    ms,
                    root,
                    s,
                    walk(ms, s.state, c, s.max_steps, skipping),
                    out_of_steps(skipping),
                )
            },
        }
    }
}

/// The index of the first pending choice at or after `from` whose model has
/// the identifier `id`.
pub open spec fn chosen(ms: Seq<Model>, pending: Seq<Branch>, id: Seq<char>, from: int) -> Option<
    int,
>
    decreases pending.len() - from,
{
    if from < 0 || from >= pending.len() {
        None
    } else if ms[pending[from].goal.node as int].id@ == id {
        Some(from)
    } else {
        chosen(ms, pending, id, from + 1)
    }
}

/// `choose_option(id)`: an identifier that is none of the pending choices
/// changes nothing. Else the instructions on the way to the first choice of
/// that identifier are run, the chosen model becomes current and is
/// reported, and no choice is pending any more. An instruction that fails
/// to evaluate fails the call and changes nothing.
pub open spec fn choose_step(ms: Seq<Model>, s: Session, id: Seq<char>) -> (
    Session,
    Result<Report, Fault>,
) {
    match chosen(ms, s.pending, id, 0) {
        None => (s, Err(Fault::InvalidChoice(id))),
        Some(i) => {
            let b = s.pending[i];
            match apply_trail(ms, s.state, b.trail) {
                Ok(m) => (
                    Session {
                        state: m,
                        cursor: Some(b.goal),
                        pending: Seq::empty(),
                        stopped: false,
                        ..s
                    },
                    Ok(Report::Advanced(b.goal)),
                ),
                Err(e) => (s, Err(Fault::EvalError(e))),
            }
        },
    }
}

/// `set_state(key, value)`: the state map after the write; nothing else
/// changes.
pub open spec fn set_state_step(s: Session, key: Seq<char>, value: ValueView) -> Session {
    Session { state: store(s.state, key, value), ..s }
}

/// The interpreter over the models of one database.
#[derive(Debug)]
pub struct Interpreter<'a> {
    models: &'a Vec<Model>,
    hierarchy: &'a HierarchyNode,
    state: State,
    cursor: Option<Place>,
    pending: Vec<Way>,
    stopped: bool,
    max_steps: usize,
}

impl<'a> View for Interpreter<'a> {
    type V = Session;

    closed spec fn view(&self) -> Session {
        Session {
            state: self.state@,
            cursor: self.cursor,
            pending: ways(self.pending@),
            stopped: self.stopped,
            max_steps: self.max_steps as nat,
        }
    }
}

impl<'a> Interpreter<'a> {
    #[verifier::type_invariant]
    spec fn well_formed(&self) -> bool {
        &&& self.cursor matches Some(c) ==> place_in_range(self.models@, c)
        &&& branches_in_range(self.models@, ways(self.pending@))
    }

    /// The models that the interpreter walks: those of its database.
    pub closed spec fn models(&self) -> Seq<Model> {
        self.models@
    }

    /// The root of the hierarchy of its database.
    pub closed spec fn hierarchy(&self) -> HierarchyNode {
        *self.hierarchy
    }

    /// An interpreter over the models of `db`, with an empty state and no
    /// cursor.
    pub fn new(db: &'a Database) -> (r: Result<Interpreter<'a>, Error>)
        ensures
            match r {
                Ok(i) => db.loaded() && i.models() == db.models() && Some(i.hierarchy())
                    == db.hierarchy() && i@ == Session::initial() && settled(i.models(), i@),
                Err(e) => !db.loaded() && e == Error::NotLoaded,
            },
    {
        match db.project() {
            Some(project) => {
                assert(project.models.len() <= usize::MAX);
                assert(ways(Seq::<Way>::empty()) =~= Seq::<Branch>::empty());
                Ok(
                Interpreter {
                    models: &project.models,
                    hierarchy: &project.hierarchy,
                    state: State::new(),
                    cursor: None,
                    pending: Vec::new(),
                    stopped: false,
                    max_steps: DEFAULT_MAX_STEPS,
                },
            )
            },
            None => Err(Error::NotLoaded),
        }
    }

    /// Sets the number of steps that one operation may take.
    pub fn set_max_steps(&mut self, max_steps: usize)
        ensures
            final(self).models() == old(self).models(),
            final(self).hierarchy() == old(self).hierarchy(),
            settled(final(self).models(), final(self)@),
            final(self)@ == (Session { max_steps: max_steps as nat, ..old(self)@ }),
    {
        proof {
            use_type_invariant(&*self);
            assert(self.models.len() <= usize::MAX);
        }
        self.max_steps = max_steps;
    }

    /// The value of `key` in the state map; `Empty` for a missing key.
    pub fn get_state(&self, key: &str) -> (r: StateValue)
        ensures
            r@ == lookup(self@.state, key@),
    {
        self.state.get(key)
    }

    /// Writes `value` under `key` in the state map; `Empty` removes the key.
    pub fn set_state(&mut self, key: &str, value: StateValue)
        ensures
            final(self).models() == old(self).models(),
            final(self).hierarchy() == old(self).hierarchy(),
            settled(final(self).models(), final(self)@),
            final(self)@ == set_state_step(old(self)@, key@, value@),
    {
        proof {
            use_type_invariant(&*self);
            assert(self.models.len() <= usize::MAX);
        }
        let mut working = self.state.copy();
        working.set(key, value);
        self.state = working;
    }

    /// The state map.
    pub fn state(&self) -> (r: &State)
        ensures
            r@ == self@.state,
    {
        &self.state
    }

    /// The model at the cursor.
    pub fn get_current_model(&self) -> (r: Result<&'a Model, Error>)
        ensures
            match r {
                Ok(m) => self@.cursor matches Some(c) && *m == self.models()[c.node as int],
                Err(e) => self@.cursor is None && e == Error::NotStarted,
            },
    {
        proof {
            use_type_invariant(self);
        }
        let models: &'a Vec<Model> = self.models;
        match self.cursor {
            Some(c) => Ok(&models[c.node]),
            None => Err(Error::NotStarted),
        }
    }

    /// The models of the pending choices, in order. Each of them is of an
    /// observable kind.
    pub fn pending_choices(&self) -> (r: Vec<&'a Model>)
        ensures
            r@.len() == self@.pending.len(),
            forall|i: int|
                0 <= i < r@.len() ==> *(#[trigger] r@[i]) == self.models()[self@.pending[i].goal.node as int]
                    && r@[i].kind.observable(),
    {
        proof {
            use_type_invariant(self);
        }
        models_at(self.models, &self.pending)
    }

    /// Whether the walk has come to its end.
    pub fn is_stopped(&self) -> (b: bool)
        ensures
            b == self@.stopped,
    {
        self.stopped
    }

    /// Sets the cursor to the model `id` and reports it. See [`start_step`].
    pub fn start(&mut self, id: &str) -> (r: Result<Outcome<'a>, Error>)
        ensures
            final(self).models() == old(self).models(),
            final(self).hierarchy() == old(self).hierarchy(),
            settled(final(self).models(), final(self)@),
            final(self)@ == start_step(old(self).models(), old(self)@, id@).0,
            outcome_is(old(self).models(), r, start_step(old(self).models(), old(self)@, id@).1),
            match r {
                Ok(Outcome::Advanced(m)) => m.id@ == id@,
                Ok(_) => false,
                Err(e) => e@ == Fault::NotFound(id@),
            },
    {
        proof {
            use_type_invariant(&*self);
            assert(self.models.len() <= usize::MAX);
        }
        let models: &'a Vec<Model> = self.models;
        let owned = id.to_owned();
        match find_model(models, &owned) {
            None => Err(Error::NotFound(owned)),
            Some(n) => {
                proof {
                    lemma_find_id(models@, id@, 0);
                    assert(ways(Seq::<Way>::empty()) =~= Seq::<Branch>::empty());
                }
                self.cursor = Some(Place { node: n, via: Via::Start });
                self.pending = Vec::new();
                self.stopped = false;
                Ok(Outcome::Advanced(&models[n]))
            },
        }
    }

    /// Walks from `from` and settles the session on where the walk ends.
    fn run(&mut self, from: Place, skipping: bool) -> (r: Result<Outcome<'a>, Error>)
        requires
            place_in_range(old(self).models(), from),
        ensures
            final(self).models() == old(self).models(),
            final(self).hierarchy() == old(self).hierarchy(),
            settled(final(self).models(), final(self)@),
            final(self)@ == after_walk(
                old(self).models(),
                old(self).hierarchy(),
                old(self)@,
                walk(old(self).models(), old(self)@.state, from, old(self)@.max_steps, skipping),
                out_of_steps(skipping),
            ).0,
            outcome_is(
                old(self).models(),
                r,
                after_walk(
                    old(self).models(),
                    old(self).hierarchy(),
                    old(self)@,
                    walk(
                        old(self).models(),
                        old(self)@.state,
                        from,
                        old(self)@.max_steps,
                        skipping,
                    ),
                    out_of_steps(skipping),
                ).1,
            ),
            only_observable(r),
    {
        proof {
            use_type_invariant(&*self);
            assert(self.models.len() <= usize::MAX);
        }
        let models: &'a Vec<Model> = self.models;
        let mut working = self.state.copy();
        match walk_from(models, &mut working, from, self.max_steps, skipping) {
            Err(WalkError::Eval(e)) => Err(Error::EvalError(e)),
            Err(WalkError::OutOfSteps) => if skipping {
                Err(Error::Runaway)
            } else {
                Err(Error::Stuck)
            },
            Ok(Reached::Arrived(q)) => {
                proof {
                    assert(ways(Seq::<Way>::empty()) =~= Seq::<Branch>::empty());
                }
                self.state = working;
                self.cursor = Some(q);
                self.pending = Vec::new();
                self.stopped = false;
                Ok(Outcome::Advanced(&models[q.node]))
            },
            Ok(Reached::Waiting(p, found)) => {
                let choices = models_at(models, &found);
                proof {
                    assert(goals(ways(found@)).len() == found@.len());
                }
                self.state = working;
                self.cursor = Some(p);
                self.pending = found;
                self.stopped = false;
                Ok(Outcome::WaitingForChoice(choices))
            },
            Ok(Reached::Ended(p)) => {
                if is_intended_end(models, self.hierarchy, p) {
                    proof {
                        assert(ways(Seq::<Way>::empty()) =~= Seq::<Branch>::empty());
                    }
                    self.state = working;
                    self.cursor = Some(p);
                    self.pending = Vec::new();
                    self.stopped = true;
                    Ok(Outcome::EndOfDialogue)
                } else {
                    Err(Error::Stuck)
                }
            },
        }
    }

    /// Moves on to the next model that is reported, to a choice or to the
    /// end. See [`advance_step`]. A model that is reached, and every model
    /// of a choice, is of an observable kind: never a condition, an
    /// instruction, a jump, a hub or a container.
    pub fn advance(&mut self) -> (r: Result<Outcome<'a>, Error>)
        ensures
            final(self).models() == old(self).models(),
            final(self).hierarchy() == old(self).hierarchy(),
            settled(final(self).models(), final(self)@),
            final(self)@ == advance_step(
                old(self).models(),
                old(self).hierarchy(),
                old(self)@,
                false,
            ).0,
            outcome_is(
                old(self).models(),
                r,
                advance_step(old(self).models(), old(self).hierarchy(), old(self)@, false).1,
            ),
            only_observable(r),
    {
        self.proceed(false)
    }

    /// Moves on as `advance` does, and passes over every dialogue fragment
    /// with an empty text or with output pins that are all closed. See
    /// [`advance_step`].
    pub fn exhaust_maximally(&mut self) -> (r: Result<Outcome<'a>, Error>)
        ensures
            final(self).models() == old(self).models(),
            final(self).hierarchy() == old(self).hierarchy(),
            settled(final(self).models(), final(self)@),
            final(self)@ == advance_step(
                old(self).models(),
                old(self).hierarchy(),
                old(self)@,
                true,
            ).0,
            outcome_is(
                old(self).models(),
                r,
                advance_step(old(self).models(), old(self).hierarchy(), old(self)@, true).1,
            ),
            only_observable(r),
    {
        self.proceed(true)
    }

    fn proceed(&mut self, skipping: bool) -> (r: Result<Outcome<'a>, Error>)
        ensures
            final(self).models() == old(self).models(),
            final(self).hierarchy() == old(self).hierarchy(),
            settled(final(self).models(), final(self)@),
            final(self)@ == advance_step(
                old(self).models(),
                old(self).hierarchy(),
                old(self)@,
                skipping,
            ).0,
            outcome_is(
                old(self).models(),
                r,
                advance_step(old(self).models(), old(self).hierarchy(), old(self)@, skipping).1,
            ),
            only_observable(r),
    {
        proof {
            use_type_invariant(&*self);
            assert(self.models.len() <= usize::MAX);
        }
        if self.pending.len() > 0 {
            return Err(Error::AwaitingChoice);
        }
        match self.cursor {
            None => Err(Error::NotStarted),
            Some(c) => {
                if self.stopped {
                    Ok(Outcome::EndOfDialogue)
                } else {
                    self.run(c, skipping)
                }
            },
        }
    }

    /// Takes the pending choice `id`: the chosen model becomes current and
    /// is what is reported. See [`choose_step`].
    pub fn choose_option(&mut self, id: &str) -> (r: Result<Outcome<'a>, Error>)
        ensures
            final(self).models() == old(self).models(),
            final(self).hierarchy() == old(self).hierarchy(),
            settled(final(self).models(), final(self)@),
            final(self)@ == choose_step(old(self).models(), old(self)@, id@).0,
            outcome_is(old(self).models(), r, choose_step(old(self).models(), old(self)@, id@).1),
            match r {
                Ok(Outcome::Advanced(m)) => m.id@ == id@ && m.kind.observable(),
                Ok(_) => false,
                Err(_) => true,
            },
    {
        proof {
            use_type_invariant(&*self);
            assert(self.models.len() <= usize::MAX);
        }
        let models: &'a Vec<Model> = self.models;
        let owned = id.to_owned();
        let mut i: usize = 0;
        while i < self.pending.len()
            invariant
                *self == *old(self),
                i <= self.pending@.len(),
                owned@ == id@,
                models@ == self.models@,
                models@.len() <= usize::MAX,
                self.cursor matches Some(c) ==> place_in_range(models@, c),
                branches_in_range(models@, ways(self.pending@)),
                chosen(models@, ways(self.pending@), id@, 0) == chosen(
                    models@,
                    ways(self.pending@),
                    id@,
                    i as int,
                ),
            decreases self.pending@.len() - i,
        {
            assert(branch_in_range(models@, ways(self.pending@)[i as int]));
            let q = self.pending[i].goal;
            if models[q.node].id == owned {
                let mut working = self.state.copy();
                match run_trail(models, &mut working, &self.pending[i].trail) {
                    Ok(()) => {
                        proof {
                            assert(ways(Seq::<Way>::empty()) =~= Seq::<Branch>::empty());
                        }
                        self.state = working;
                        self.cursor = Some(q);
                        self.pending = Vec::new();
                        self.stopped = false;
                        return Ok(Outcome::Advanced(&models[q.node]));
                    },
                    Err(e) => {
                        return Err(Error::EvalError(e));
                    },
                }
            }
            i += 1;
        }
        Err(Error::InvalidChoice(owned))
    }
}

/// Every model of the outcome is of an observable kind, and a choice has at
/// least one model.
pub open spec fn only_observable<'a>(r: Result<Outcome<'a>, Error>) -> bool {
    match r {
        Ok(Outcome::Advanced(m)) => m.kind.observable(),
        Ok(Outcome::WaitingForChoice(v)) => v@.len() > 0 && forall|i: int|
            0 <= i < v@.len() ==> (#[trigger] v@[i]).kind.observable(),
        _ => true,
    }
}

/// The models at the goals of the ways, in order.
fn models_at<'a>(models: &'a Vec<Model>, found: &Vec<Way>) -> (r: Vec<&'a Model>)
    requires
        branches_in_range(models@, ways(found@)),
    ensures
        r@.len() == found@.len(),
        forall|i: int|
            0 <= i < r@.len() ==> *(#[trigger] r@[i]) == models@[found@[i].goal.node as int]
                && r@[i].kind.observable(),
{
    let mut out: Vec<&'a Model> = Vec::new();
    let mut i: usize = 0;
    while i < found.len()
        invariant
            i <= found@.len(),
            branches_in_range(models@, ways(found@)),
            out@.len() == i,
            forall|k: int|
                0 <= k < i ==> *(#[trigger] out@[k]) == models@[found@[k].goal.node as int]
                    && out@[k].kind.observable(),
        decreases found@.len() - i,
    {
        assert(branch_in_range(models@, ways(found@)[i as int]));
        out.push(&models[found[i].goal.node]);
        i += 1;
    }
    out
}

} // verus!
