//! Events that views send one another, collected during a batch and delivered
//! to every view once the batch is over.
use vstd::prelude::*;

use crate::model::tournament::{StageId, TournamentId};

verus! {

pub type UiElementId = usize;

#[derive(Clone, Copy, Debug, PartialEq, Eq, Structural)]
pub enum Event {
    /// A view (the outline) selected another tournament and stage.
    SelectedTournamentAndStageChanged {
        source: UiElementId,
        new_tournament_id: Option<TournamentId>,
        new_stage_id: Option<StageId>,
    },
}

pub struct EventList {
    events: Vec<Event>,
}

impl View for EventList {
    type V = Seq<Event>;

    closed spec fn view(&self) -> Seq<Event> {
        self.events@
    }
}

impl EventList {
    pub fn new() -> (r: EventList)
        ensures
            r@ == Seq::<Event>::empty(),
    {
        EventList { events: Vec::new() }
    }

    pub fn single(e: Event) -> (r: EventList)
        ensures
            r@ == seq![e],
    {
        let mut events: Vec<Event> = Vec::new();
        events.push(e);
        proof {
            assert(events@ =~= seq![e]);
        }
        EventList { events }
    }

    /// Appends the events of `new_events`, after those already held.
    pub fn combine(&mut self, new_events: EventList)
        ensures
            final(self)@ == old(self)@ + new_events@,
    {
        let mut more = new_events.events;
        self.events.append(&mut more);
    }

    pub fn get_events(&self) -> (r: &Vec<Event>)
        ensures
            r@ == self@,
    {
        &self.events
    }
}

} // verus!
