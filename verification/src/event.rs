//! The event envelope: what an embedder shows for an outcome of the
//! interpreter.

use crate::interpreter::Outcome;
use crate::json::{Json, JsonView};
use crate::model::{Model, ModelKind};
use vstd::prelude::*;

verus! {

/// A spoken line.
#[derive(Debug, PartialEq, Eq)]
pub struct Line {
    pub id: String,
    pub text: String,
    pub menu_text: String,
    pub speaker_id: String,
    pub technical_name: String,
    pub template: Option<Json>,
}

/// One entry of a choice list.
#[derive(Debug, PartialEq, Eq)]
pub struct Choice {
    pub id: String,
    pub label: String,
}

/// An event for the embedder.
#[derive(Debug)]
pub enum Event<'a> {
    /// A dialogue fragment was reached.
    Line(Line),
    /// A choice is to be made among these entries.
    Choices(Vec<Choice>),
    /// A model that is no dialogue fragment was reached.
    Model(&'a Model),
    /// The dialogue is over.
    Stopped,
}

/// The mathematical content of a [`Line`].
pub struct LineView {
    pub id: Seq<char>,
    pub text: Seq<char>,
    pub menu_text: Seq<char>,
    pub speaker_id: Seq<char>,
    pub technical_name: Seq<char>,
    pub template: Option<JsonView>,
}

/// The mathematical content of a [`Choice`].
pub struct ChoiceView {
    pub id: Seq<char>,
    pub label: Seq<char>,
}

/// The mathematical content of an [`Event`].
pub enum EventView {
    Line(LineView),
    Choices(Seq<ChoiceView>),
    Model(Model),
    Stopped,
}

impl View for Line {
    type V = LineView;

    open spec fn view(&self) -> LineView {
        LineView {
            id: self.id@,
            text: self.text@,
            menu_text: self.menu_text@,
            speaker_id: self.speaker_id@,
            technical_name: self.technical_name@,
            template: match self.template {
                Some(t) => Some(t@),
                None => None,
            },
        }
    }
}

impl View for Choice {
    type V = ChoiceView;

    open spec fn view(&self) -> ChoiceView {
        ChoiceView { id: self.id@, label: self.label@ }
    }
}

impl<'a> View for Event<'a> {
    type V = EventView;

    open spec fn view(&self) -> EventView {
        match self {
            Event::Line(line) => EventView::Line(line@),
            Event::Choices(entries) => EventView::Choices(
                Seq::new(entries@.len(), |i: int| entries@[i]@),
            ),
            Event::Model(m) => EventView::Model(**m),
            Event::Stopped => EventView::Stopped,
        }
    }
}

/// The views of a list of events, in order.
pub open spec fn event_views<'a>(events: Seq<Event<'a>>) -> Seq<EventView> {
    Seq::new(events.len(), |i: int| events[i]@)
}

/// The label of a choice: the menu text, or the text where the menu text
/// is empty.
pub open spec fn label(text: Seq<char>, menu_text: Seq<char>) -> Seq<char> {
    if menu_text.len() == 0 {
        text
    } else {
        menu_text
    }
}

/// The event for a model that was reached: a line for a dialogue fragment,
/// the model itself for any other kind.
pub open spec fn visit_event(m: Model) -> EventView {
    match m.kind {
        ModelKind::DialogueFragment { text, menu_text, speaker } => EventView::Line(
            LineView {
                id: m.id@,
                text: text@,
                menu_text: menu_text@,
                speaker_id: speaker@,
                technical_name: m.technical_name@,
                template: match m.template {
                    Some(t) => Some(t@),
                    None => None,
                },
            },
        ),
        _ => EventView::Model(m),
    }
}

/// The entries of a choice list: one for each dialogue fragment among the
/// choices, in order.
pub open spec fn choice_entries(choices: Seq<&Model>) -> Seq<ChoiceView>
    decreases choices.len(),
{
    if choices.len() == 0 {
        Seq::empty()
    } else {
        let before = choice_entries(choices.drop_last());
        match choices.last().kind {
            ModelKind::DialogueFragment { text, menu_text, .. } => before.push(
                ChoiceView { id: choices.last().id@, label: label(text@, menu_text@) },
            ),
            _ => before,
        }
    }
}

/// The events for the choices that are no dialogue fragments: each is shown
/// as a model, in order. The interpreter offers only models of an observable
/// kind, so these are entities, user folders and models of a custom kind.
pub open spec fn other_choices(choices: Seq<&Model>) -> Seq<EventView>
    decreases choices.len(),
{
    if choices.len() == 0 {
        Seq::empty()
    } else {
        let before = other_choices(choices.drop_last());
        if choices.last().kind is DialogueFragment {
            before
        } else {
            before.push(EventView::Model(*choices.last()))
        }
    }
}

/// The events for an outcome, in the order in which they are to be shown:
///
/// - `Advanced`: the event of the model;
/// - `WaitingForChoice`: a model event for each choice that is no dialogue
///   fragment, then one choice list with an entry for each fragment;
/// - `Stopped` and `EndOfDialogue`: one `Stopped`.
pub open spec fn outcome_events<'a>(outcome: Outcome<'a>) -> Seq<EventView> {
    match outcome {
        Outcome::Advanced(m) => seq![visit_event(*m)],
        Outcome::WaitingForChoice(choices) => other_choices(choices@).push(
            EventView::Choices(choice_entries(choices@)),
        ),
        Outcome::Stopped => seq![EventView::Stopped],
        Outcome::EndOfDialogue => seq![EventView::Stopped],
    }
}

fn copy_option(s: &Option<Json>) -> (r: Option<Json>)
    ensures
        match r {
            Some(t) => s matches Some(u) && t@ == u@,
            None => s is None,
        },
{
    match s {
        Some(t) => Some(t.copy()),
        None => None,
    }
}

/// The event for a model that was reached.
pub fn visit<'a>(m: &'a Model) -> (r: Event<'a>)
    ensures
        r@ == visit_event(*m),
{
    match &m.kind {
        ModelKind::DialogueFragment { text, menu_text, speaker } => Event::Line(
            Line {
                id: m.id.clone(),
                text: text.clone(),
                menu_text: menu_text.clone(),
                speaker_id: speaker.clone(),
                technical_name: m.technical_name.clone(),
                template: copy_option(&m.template),
            },
        ),
        _ => Event::Model(m),
    }
}

/// The events for an outcome. See [`outcome_events`].
pub fn handle_outcome<'a>(outcome: &Outcome<'a>) -> (r: Vec<Event<'a>>)
    ensures
        event_views(r@) == outcome_events(*outcome),
{
    let mut events: Vec<Event<'a>> = Vec::new();
    match outcome {
        Outcome::Advanced(m) => {
            events.push(visit(*m));
            assert(event_views(events@) =~= outcome_events(*outcome));
        },
        Outcome::WaitingForChoice(choices) => {
            let mut entries: Vec<Choice> = Vec::new();
            let mut i: usize = 0;
            assert(choices@.subrange(0, 0) =~= Seq::<&Model>::empty());
            assert(event_views(events@) =~= other_choices(choices@.subrange(0, 0)));
            assert(Seq::new(entries@.len(), |k: int| entries@[k]@) =~= choice_entries(
                choices@.subrange(0, 0),
            ));
            while i < choices.len()
                invariant
                    i <= choices@.len(),
                    event_views(events@) == other_choices(choices@.subrange(0, i as int)),
                    Seq::new(entries@.len(), |k: int| entries@[k]@) == choice_entries(
                        choices@.subrange(0, i as int),
                    ),
                decreases choices@.len() - i,
            {
                let ghost next = choices@.subrange(0, i + 1);
                assert(next.drop_last() =~= choices@.subrange(0, i as int));
                assert(next.last() == choices@[i as int]);
                let ghost events_before = event_views(events@);
                let ghost entries_before = Seq::new(entries@.len(), |k: int| entries@[k]@);
                let m: &'a Model = choices[i];
                match &m.kind {
                    ModelKind::DialogueFragment { text, menu_text, .. } => {
                        let shown = if menu_text.as_str().is_empty() {
                            text.clone()
                        } else {
                            menu_text.clone()
                        };
                        let entry = Choice { id: m.id.clone(), label: shown };
                        let ghost entry_view = entry@;
                        entries.push(entry);
                        assert(Seq::new(entries@.len(), |k: int| entries@[k]@)
                            =~= entries_before.push(entry_view));
                    },
                    _ => {
                        events.push(Event::Model(m));
                        assert(event_views(events@) =~= events_before.push(EventView::Model(*m)));
                    },
                }
                i += 1;
            }
            assert(choices@.subrange(0, i as int) =~= choices@);
            let ghost events_before = event_views(events@);
            let ghost list = Seq::new(entries@.len(), |k: int| entries@[k]@);
            events.push(Event::Choices(entries));
            assert(event_views(events@) =~= events_before.push(EventView::Choices(list)));
        },
        Outcome::Stopped => {
            events.push(Event::Stopped);
            assert(event_views(events@) =~= outcome_events(*outcome));
        },
        Outcome::EndOfDialogue => {
            events.push(Event::Stopped);
            assert(event_views(events@) =~= outcome_events(*outcome));
        },
    }
    events
}

} // verus!
