use tournament_tracker::model::stored::LoadError;
use tournament_tracker::model::tournament::{
    Fixture, FixtureInput, FixtureTeam, HeadToHead, Match, Outcome, Resolution, Stage, StageKind,
};
use tournament_tracker::model::{Model, StoredVersion};

fn stage<'a>(model: &'a Model, t: usize, s: usize) -> &'a Stage {
    model.get_stage(t, s).expect("stage exists")
}

fn fixture(model: &Model, t: usize, s: usize, f: usize) -> Fixture {
    match &stage(model, t, s).kind {
        StageKind::Bracket { fixtures } => *fixtures.get(&f).expect("fixture exists"),
        StageKind::RoundRobin {} => panic!("not a bracket"),
    }
}

#[test]
fn end_to_end_round_robin() {
    let mut model = Model::new();
    let cup = model.add_tournament("Cup".to_string());
    let group = model.add_stage_round_robin(cup, "Group".to_string()).unwrap();
    let a = model.add_team(cup, group, "A".to_string()).unwrap();
    let b = model.add_team(cup, group, "B".to_string()).unwrap();
    let c = model.add_team(cup, group, "C".to_string()).unwrap();
    let m = model.add_match(cup, group, a, b, 1, 0).unwrap();
    assert_eq!(stage(&model, cup, group).standings(), vec![(a, 1, 0), (b, 0, 1), (c, 0, 0)]);
    assert_eq!(stage(&model, cup, group).get_match(m).unwrap().get_winner(), Some(a));

    assert_eq!(model.delete_team(cup, group, b), Ok(()));
    assert!(stage(&model, cup, group).get_match(m).is_none());
    assert_eq!(stage(&model, cup, group).matches.len(), 0);
    assert_eq!(stage(&model, cup, group).standings(), vec![(a, 0, 0), (c, 0, 0)]);
    assert_eq!(stage(&model, cup, group).teams.len(), 2);
}

#[test]
fn delete_team_keeps_other_matches() {
    let mut model = Model::new();
    let t = model.add_tournament("T".to_string());
    let s = model.add_stage_round_robin(t, "S".to_string()).unwrap();
    let a = model.add_team(t, s, "A".to_string()).unwrap();
    let b = model.add_team(t, s, "B".to_string()).unwrap();
    let c = model.add_team(t, s, "C".to_string()).unwrap();
    let ab = model.add_match(t, s, a, b, 2, 1).unwrap();
    let bc = model.add_match(t, s, b, c, 0, 3).unwrap();
    let ca = model.add_match(t, s, c, a, 1, 1).unwrap();
    assert_eq!(model.delete_team(t, s, b), Ok(()));
    let keys: Vec<usize> = stage(&model, t, s).matches.keys().copied().collect();
    assert_eq!(keys, vec![ca]);
    assert!(stage(&model, t, s).get_match(ab).is_none());
    assert!(stage(&model, t, s).get_match(bc).is_none());
    assert_eq!(model.delete_team(t, s, b), Err(()));
}

#[test]
fn delete_stage_and_tournament_remove_everything() {
    let mut model = Model::new();
    let t = model.add_tournament("T".to_string());
    let s = model.add_stage_round_robin(t, "S".to_string()).unwrap();
    model.add_team(t, s, "A".to_string()).unwrap();
    assert_eq!(model.delete_stage(t, s), Ok(()));
    assert!(model.get_stage(t, s).is_none());
    assert_eq!(model.delete_stage(t, s), Err(()));
    let s2 = model.add_stage_bracket(t, "B".to_string()).unwrap();
    assert_eq!(model.delete_tournament(t), Ok(()));
    assert!(model.get_tournament(t).is_none());
    assert!(model.get_stage(t, s2).is_none());
    assert_eq!(model.delete_tournament(t), Err(()));
    assert_eq!(model.get_tournaments().len(), 0);
}

#[test]
fn bracket_dangling_link_is_unresolved() {
    let mut model = Model::new();
    let t = model.add_tournament("T".to_string());
    let s = model.add_stage_bracket(t, "Playoffs".to_string()).unwrap();
    let a = model.add_team(t, s, "A".to_string()).unwrap();
    let b = model.add_team(t, s, "B".to_string()).unwrap();
    let c = model.add_team(t, s, "C".to_string()).unwrap();
    let f1 = model.add_fixture(t, s, (0, 0), FixtureTeam::Fixed(a), FixtureTeam::Fixed(b)).unwrap();
    let link = FixtureTeam::Linked { fixture_id: f1, outcome: Outcome::Winner };
    let f2 = model.add_fixture(t, s, (100, 0), link, FixtureTeam::Fixed(c)).unwrap();
    assert_eq!(stage(&model, t, s).resolve(fixture(&model, t, s, f2).team_a), Resolution::Pending);
    assert_eq!(stage(&model, t, s).resolve(fixture(&model, t, s, f2).team_b), Resolution::Team(c));

    assert_eq!(model.delete_fixture(t, s, f1), Ok(()));
    let f = fixture(&model, t, s, f2);
    assert_eq!(f.team_a, link);
    assert_eq!(stage(&model, t, s).resolve(f.team_a), Resolution::Unresolved);
    assert_eq!(model.delete_fixture(t, s, f1), Err(()));
}

#[test]
fn linked_slot_resolves_through_played_match() {
    let mut model = Model::new();
    let t = model.add_tournament("T".to_string());
    let s = model.add_stage_bracket(t, "Playoffs".to_string()).unwrap();
    let a = model.add_team(t, s, "A".to_string()).unwrap();
    let b = model.add_team(t, s, "B".to_string()).unwrap();
    let m = model.add_match(t, s, a, b, 0, 2).unwrap();
    let stage_ref = stage(&model, t, s);
    let winner = FixtureTeam::Linked { fixture_id: 99, outcome: Outcome::Winner };
    assert_eq!(stage_ref.resolve(winner), Resolution::Unresolved);
    assert_eq!(stage_ref.resolve(FixtureTeam::Fixed(12345)), Resolution::Unresolved);
    assert_eq!(stage_ref.get_match(m).unwrap().get_loser(), Some(a));
}

#[test]
fn fixture_edits() {
    let mut model = Model::new();
    let t = model.add_tournament("T".to_string());
    let s = model.add_stage_bracket(t, "Playoffs".to_string()).unwrap();
    let a = model.add_team(t, s, "A".to_string()).unwrap();
    let b = model.add_team(t, s, "B".to_string()).unwrap();
    let f = model.add_fixture(t, s, (1, 2), FixtureTeam::Fixed(a), FixtureTeam::Fixed(a)).unwrap();
    assert_eq!(model.set_fixture_layout(t, s, f, (30, -40)), Ok(()));
    assert_eq!(fixture(&model, t, s, f).layout, (30, -40));
    assert_eq!(model.set_fixture_input(t, s, f, FixtureInput::TeamB, FixtureTeam::Fixed(b)), Ok(()));
    let x = fixture(&model, t, s, f);
    assert_eq!(x.team_a, FixtureTeam::Fixed(a));
    assert_eq!(x.team_b, FixtureTeam::Fixed(b));
    assert_eq!(x.match_id, None);
    assert_eq!(x.id, f);
    assert_eq!(model.set_fixture_layout(t, s, f + 100, (0, 0)), Err(()));
    assert_eq!(model.set_fixture_input(t, s, f + 100, FixtureInput::TeamA, FixtureTeam::Fixed(b)), Err(()));
}

#[test]
fn fixtures_need_a_bracket_stage() {
    let mut model = Model::new();
    let t = model.add_tournament("T".to_string());
    let s = model.add_stage_round_robin(t, "S".to_string()).unwrap();
    assert_eq!(model.add_fixture(t, s, (0, 0), FixtureTeam::Fixed(0), FixtureTeam::Fixed(1)), None);
    assert_eq!(model.set_fixture_layout(t, s, 0, (0, 0)), Err(()));
    assert_eq!(model.delete_fixture(t, s, 0), Err(()));
    assert_eq!(model.add_fixture(t, s + 50, (0, 0), FixtureTeam::Fixed(0), FixtureTeam::Fixed(1)), None);
}

#[test]
fn add_match_validity() {
    let mut model = Model::new();
    let t = model.add_tournament("T".to_string());
    let s = model.add_stage_round_robin(t, "S".to_string()).unwrap();
    let other = model.add_stage_round_robin(t, "O".to_string()).unwrap();
    let a = model.add_team(t, s, "A".to_string()).unwrap();
    let b = model.add_team(t, s, "B".to_string()).unwrap();
    let x = model.add_team(t, other, "X".to_string()).unwrap();
    assert_eq!(model.add_match(t, s, a, a, 1, 0), None);
    assert_eq!(model.add_match(t, s, a, x, 1, 0), None);
    assert_eq!(model.add_match(t, s + 1000, a, b, 1, 0), None);
    assert_eq!(model.add_match(t + 1000, s, a, b, 1, 0), None);
    assert_eq!(stage(&model, t, s).matches.len(), 0);

    let m1 = model.add_match(t, s, a, b, 3, 5).unwrap();
    let m2 = model.add_match(t, s, a, b, 2, 2).unwrap();
    let st = stage(&model, t, s);
    assert_eq!(st.get_match(m1).unwrap().get_winner(), Some(b));
    assert_eq!(st.get_match(m1).unwrap().get_loser(), Some(a));
    assert_eq!(st.get_match(m2).unwrap().get_winner(), None);
    assert_eq!(st.get_match(m2).unwrap().get_loser(), None);
    assert_eq!(st.team_record(a), (0, 1));
    assert_eq!(st.team_record(b), (1, 0));
}

#[test]
fn match_queries() {
    let m = Match { id: 7, team_a: 1, team_b: 2, team_a_score: 4, team_b_score: 1 };
    assert!(m.is_between(1, 2));
    assert!(m.is_between(2, 1));
    assert!(!m.is_between(1, 3));
    assert!(m.contains(2));
    assert!(!m.contains(3));
    assert!(m.omits(3));
    assert_eq!(m.get_winner(), Some(1));
    assert_eq!(m.get_loser(), Some(2));
}

#[test]
fn reorder_match_moves_and_clamps() {
    let mut model = Model::new();
    let t = model.add_tournament("T".to_string());
    let s = model.add_stage_round_robin(t, "S".to_string()).unwrap();
    let a = model.add_team(t, s, "A".to_string()).unwrap();
    let b = model.add_team(t, s, "B".to_string()).unwrap();
    let m1 = model.add_match(t, s, a, b, 1, 0).unwrap();
    let m2 = model.add_match(t, s, a, b, 0, 1).unwrap();
    let m3 = model.add_match(t, s, a, b, 2, 0).unwrap();
    let order = |model: &Model| -> Vec<usize> { stage(model, t, s).matches.keys().copied().collect() };

    assert_eq!(model.reorder_match(t, s, m1, 10), Ok(()));
    assert_eq!(order(&model), vec![m2, m3, m1]);
    assert_eq!(model.reorder_match(t, s, m1, 0), Ok(()));
    assert_eq!(order(&model), vec![m1, m2, m3]);
    assert_eq!(model.reorder_match(t, s, m3, 1), Ok(()));
    assert_eq!(order(&model), vec![m1, m3, m2]);
    assert_eq!(model.reorder_match(t, s, m3, 1), Ok(()));
    assert_eq!(order(&model), vec![m1, m3, m2]);
    assert_eq!(model.reorder_match(t, s, 9999, 0), Err(()));
    assert_eq!(model.delete_match(t, s, m3), Ok(()));
    assert_eq!(order(&model), vec![m1, m2]);
    assert_eq!(model.delete_match(t, s, m3), Err(()));
}

#[test]
fn ids_are_never_reused() {
    let mut model = Model::new();
    let t = model.add_tournament("T".to_string());
    let s = model.add_stage_bracket(t, "S".to_string()).unwrap();
    let a = model.add_team(t, s, "A".to_string()).unwrap();
    let b = model.add_team(t, s, "B".to_string()).unwrap();
    let m = model.add_match(t, s, a, b, 1, 0).unwrap();
    let f = model.add_fixture(t, s, (0, 0), FixtureTeam::Fixed(a), FixtureTeam::Fixed(b)).unwrap();
    assert_eq!(model.add_team(t, s + 77, "missing".to_string()), None);
    model.delete_team(t, s, b).unwrap();
    let c = model.add_team(t, s, "C".to_string()).unwrap();
    let next = model.get_next_id();
    let ids = vec![t, s, a, b, m, f, c, next];
    for i in 0..ids.len() {
        for j in (i + 1)..ids.len() {
            assert_ne!(ids[i], ids[j]);
        }
    }
    assert_eq!(ids, vec![0, 1, 2, 3, 4, 5, 7, 8]);
}

#[test]
fn rename_tournament_and_stage() {
    let mut model = Model::new();
    let t = model.add_tournament("Old".to_string());
    let s = model.add_stage_round_robin(t, "Group".to_string()).unwrap();
    assert_eq!(model.rename_tournament(t, "New"), Ok(()));
    assert_eq!(model.get_tournament(t).unwrap().name, "New");
    assert_eq!(model.rename_stage(t, s, "Groups"), Ok(()));
    assert_eq!(stage(&model, t, s).name, "Groups");
    assert_eq!(stage(&model, t, s).tournament_id, t);
    assert_eq!(model.rename_tournament(t + 9, "X"), Err(()));
    assert_eq!(model.rename_stage(t, s + 9, "X"), Err(()));
}

#[test]
fn batch_notification_and_single_save() {
    let mut model = Model::new();
    let a = model.add_tournament("A".to_string());
    let b = model.add_tournament("B".to_string());
    let first = model.process_updates();
    assert_eq!(first.changed, vec![a, b]);
    assert!(first.save);

    model.rename_tournament(a, "A1").unwrap();
    model.rename_tournament(a, "A2").unwrap();
    model.rename_tournament(b, "B1").unwrap();
    assert_eq!(model.rename_tournament(b + 10, "none"), Err(()));
    let batch = model.process_updates();
    assert_eq!(batch.changed, vec![a, a, b]);
    assert!(batch.save);

    let empty = model.process_updates();
    assert!(empty.changed.is_empty());
    assert!(!empty.save);
}

#[test]
fn failed_changes_are_not_recorded() {
    let mut model = Model::new();
    assert_eq!(model.add_stage_round_robin(5, "S".to_string()), None);
    assert_eq!(model.delete_tournament(5), Err(()));
    let updates = model.process_updates();
    assert!(updates.changed.is_empty());
    assert!(!updates.save);
}

#[test]
fn load_error_variant() {
    assert_eq!(LoadError::InvalidKey, LoadError::InvalidKey);
}

#[test]
fn ranked_standings_best_first() {
    let mut model = Model::new();
    let t = model.add_tournament("T".to_string());
    let s = model.add_stage_round_robin(t, "S".to_string()).unwrap();
    let a = model.add_team(t, s, "A".to_string()).unwrap();
    let b = model.add_team(t, s, "B".to_string()).unwrap();
    let c = model.add_team(t, s, "C".to_string()).unwrap();
    let d = model.add_team(t, s, "D".to_string()).unwrap();
    model.add_match(t, s, c, a, 1, 0).unwrap();
    model.add_match(t, s, c, b, 1, 0).unwrap();
    model.add_match(t, s, b, a, 2, 1).unwrap();
    let st = stage(&model, t, s);
    assert_eq!(st.standings(), vec![(a, 0, 2), (b, 1, 1), (c, 2, 0), (d, 0, 0)]);
    assert_eq!(st.ranked_standings(), vec![(c, 2, 0), (b, 1, 1), (a, 0, 2), (d, 0, 0)]);
}

#[test]
fn ranked_standings_ties_put_later_team_first() {
    let mut model = Model::new();
    let t = model.add_tournament("T".to_string());
    let s = model.add_stage_round_robin(t, "S".to_string()).unwrap();
    let a = model.add_team(t, s, "A".to_string()).unwrap();
    let b = model.add_team(t, s, "B".to_string()).unwrap();
    assert_eq!(stage(&model, t, s).ranked_standings(), vec![(b, 0, 0), (a, 0, 0)]);
}

#[test]
fn head_to_head_uses_first_match() {
    let mut model = Model::new();
    let t = model.add_tournament("T".to_string());
    let s = model.add_stage_round_robin(t, "S".to_string()).unwrap();
    let a = model.add_team(t, s, "A".to_string()).unwrap();
    let b = model.add_team(t, s, "B".to_string()).unwrap();
    let c = model.add_team(t, s, "C".to_string()).unwrap();
    let first = model.add_match(t, s, b, a, 0, 1).unwrap();
    model.add_match(t, s, a, b, 0, 1).unwrap();
    model.add_match(t, s, a, c, 2, 2).unwrap();
    let st = stage(&model, t, s);
    assert_eq!(st.find_match_between(a, b).unwrap().id, first);
    assert_eq!(st.head_to_head(a, b), HeadToHead::Won);
    assert_eq!(st.head_to_head(b, a), HeadToHead::Lost);
    assert_eq!(st.head_to_head(a, c), HeadToHead::Drawn);
    assert_eq!(st.head_to_head(b, c), HeadToHead::NotPlayed);
    assert_eq!(st.head_to_head(c, c), HeadToHead::SameTeam);
    assert!(st.find_match_between(b, c).is_none());
}

#[test]
fn stored_version_from_marker() {
    assert_eq!(Model::stored_version(Some(&"3".to_string())), StoredVersion::Current);
    assert_eq!(Model::stored_version(Some(&"2".to_string())), StoredVersion::Second);
    assert_eq!(Model::stored_version(Some(&"1".to_string())), StoredVersion::First);
    assert_eq!(Model::stored_version(Some(&"33".to_string())), StoredVersion::First);
    assert_eq!(Model::stored_version(None), StoredVersion::First);
    assert_eq!(Model::VERSION, 3);
}

#[test]
fn id_counter_queries() {
    let mut model = Model::new();
    assert!(model.has_free_id());
    assert_eq!(model.peek_next_id(), 0);
    model.add_tournament("T".to_string());
    assert_eq!(model.peek_next_id(), 1);
    assert_eq!(model.get_next_id(), 1);
    assert_eq!(model.peek_next_id(), 2);
}

#[test]
fn add_fixture_rejects_teams_of_other_stages() {
    let mut model = Model::new();
    let t = model.add_tournament("T".to_string());
    let s = model.add_stage_bracket(t, "Playoffs".to_string()).unwrap();
    let other = model.add_stage_round_robin(t, "Group".to_string()).unwrap();
    let a = model.add_team(t, s, "A".to_string()).unwrap();
    let x = model.add_team(t, other, "X".to_string()).unwrap();
    let before = model.peek_next_id();
    assert_eq!(model.add_fixture(t, s, (0, 0), FixtureTeam::Fixed(a), FixtureTeam::Fixed(x)), None);
    assert_eq!(model.add_fixture(t, s, (0, 0), FixtureTeam::Fixed(12345), FixtureTeam::Fixed(a)), None);
    assert_eq!(model.peek_next_id(), before + 2);
    match &stage(&model, t, s).kind {
        StageKind::Bracket { fixtures } => assert!(fixtures.is_empty()),
        StageKind::RoundRobin {} => panic!("expected a bracket"),
    }
    let link = FixtureTeam::Linked { fixture_id: 999, outcome: Outcome::Loser };
    assert!(model.add_fixture(t, s, (0, 0), link, FixtureTeam::Fixed(a)).is_some());
}
