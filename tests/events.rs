use tournament_tracker::ui::{Event, EventList};

#[test]
fn event_lists_combine_in_order() {
    let e1 = Event::SelectedTournamentAndStageChanged { source: 1, new_tournament_id: Some(4), new_stage_id: None };
    let e2 = Event::SelectedTournamentAndStageChanged { source: 2, new_tournament_id: None, new_stage_id: None };
    let mut all = EventList::new();
    assert!(all.get_events().is_empty());
    all.combine(EventList::single(e1));
    all.combine(EventList::new());
    all.combine(EventList::single(e2));
    assert_eq!(all.get_events(), &vec![e1, e2]);
}
