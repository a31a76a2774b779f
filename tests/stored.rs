use tournament_tracker::model::stored::{
    LoadError, StoredModel, StoredStage, StoredStageKind, StoredTournament,
};
use tournament_tracker::model::tournament::{Fixture, FixtureTeam, Match, Outcome, StageKind, Team};
use tournament_tracker::model::{v1, v2, Model};

fn team(id: usize, name: &str) -> (usize, Team) {
    (id, Team::new(id, name.to_string()))
}

fn stored(stage_teams: Vec<(usize, Team)>, matches: Vec<(usize, Match)>) -> StoredModel {
    let stage = StoredStage {
        id: 1,
        tournament_id: 0,
        name: "Group".to_string(),
        teams: stage_teams,
        matches,
        kind: StoredStageKind::RoundRobin,
    };
    StoredModel {
        tournaments: vec![(0, StoredTournament { id: 0, name: "Cup".to_string(), stages: vec![(1, stage)] })],
        next_id: 10,
    }
}

#[test]
fn restore_reads_back_entries_in_order() {
    let m = Match { id: 5, team_a: 3, team_b: 2, team_a_score: 1, team_b_score: 0 };
    let data = stored(vec![team(3, "A"), team(2, "B")], vec![(5, m)]);
    let mut model = Model::restore(&data).unwrap();
    let stage = model.get_stage(0, 1).unwrap();
    let keys: Vec<usize> = stage.teams.keys().copied().collect();
    assert_eq!(keys, vec![3, 2]);
    assert_eq!(stage.teams.get(&2).unwrap().name, "B");
    assert_eq!(stage.get_match(5), Some(m));
    assert_eq!(model.get_tournament(0).unwrap().name, "Cup");
    assert_eq!(model.get_next_id(), 10);
    assert!(!model.process_updates().save);
}

#[test]
fn restore_rejects_duplicate_keys() {
    let data = stored(vec![team(3, "A"), team(3, "B")], vec![]);
    assert!(matches!(Model::restore(&data), Err(LoadError::InvalidKey)));
    let m = Match { id: 5, team_a: 3, team_b: 2, team_a_score: 1, team_b_score: 0 };
    let data = stored(vec![team(3, "A"), team(2, "B")], vec![(5, m), (5, m)]);
    assert!(matches!(Model::restore(&data), Err(LoadError::InvalidKey)));
}

fn v1_model(matches: Vec<(usize, v1::Match)>) -> v1::Model {
    let stage = v1::Stage {
        id: 1,
        tournament_id: 0,
        name: "Group".to_string(),
        teams: vec![team(2, "A"), team(3, "B")],
        matches,
    };
    v1::Model {
        tournaments: vec![(0, v1::Tournament { id: 0, name: "LCS".to_string(), stages: vec![(1, stage)] })],
        next_id: 20,
    }
}

#[test]
fn v1_upgrade_scores_the_recorded_winner() {
    let first_won = v1::Match { id: 4, teams: [2, 3], winner: 2, loser: 3 };
    let second_won = v1::Match { id: 5, teams: [2, 3], winner: 3, loser: 2 };
    let old = v1_model(vec![(4, first_won), (5, second_won)]);
    let mut model = v1::load_and_upgrade(&old).unwrap();
    let stage = model.get_stage(0, 1).unwrap();
    assert_eq!(stage.get_match(4), Some(Match { id: 4, team_a: 2, team_b: 3, team_a_score: 1, team_b_score: 0 }));
    assert_eq!(stage.get_match(5), Some(Match { id: 5, team_a: 2, team_b: 3, team_a_score: 0, team_b_score: 1 }));
    assert!(matches!(stage.kind, StageKind::RoundRobin {}));
    assert_eq!(stage.name, "Group");
    assert_eq!(stage.teams.get(&3).unwrap().name, "B");
    assert_eq!(stage.standings(), vec![(2, 1, 1), (3, 1, 1)]);
    assert_eq!(model.get_next_id(), 20);
}

#[test]
fn v1_upgrade_goes_through_second_format() {
    let old = v1_model(vec![(4, v1::Match { id: 4, teams: [2, 3], winner: 3, loser: 2 })]);
    let second = v1::upgrade(&old);
    assert_eq!(second.next_id, 20);
    let stage = &second.tournaments[0].1.stages[0].1;
    assert_eq!(stage.matches, vec![(4, Match { id: 4, team_a: 2, team_b: 3, team_a_score: 0, team_b_score: 1 })]);
    assert!(matches!(stage.kind, v2::StageKind::RoundRobin {}));
}

#[test]
fn v1_duplicate_keys_fail_to_load() {
    let m = v1::Match { id: 4, teams: [2, 3], winner: 2, loser: 3 };
    let old = v1_model(vec![(4, m), (4, m)]);
    assert!(matches!(v1::load_and_upgrade(&old), Err(LoadError::InvalidKey)));
}

#[test]
fn v2_upgrade_links_fixtures() {
    let f1 = v2::Fixture { id: 7, layout: (10, 20), match_id: Some(9), team_a: v2::FixtureTeam::Fixed(2), team_b: v2::FixtureTeam::Fixed(3) };
    let f2 = v2::Fixture { id: 8, layout: (30, 40), match_id: None, team_a: v2::FixtureTeam::Winner(7), team_b: v2::FixtureTeam::Loser(7) };
    let stage = v2::Stage {
        id: 1,
        tournament_id: 0,
        name: "Playoffs".to_string(),
        teams: vec![team(2, "A"), team(3, "B")],
        matches: vec![(9, Match { id: 9, team_a: 2, team_b: 3, team_a_score: 3, team_b_score: 1 })],
        kind: v2::StageKind::Bracket { fixtures: vec![(7, f1), (8, f2)] },
    };
    let old = v2::Model {
        tournaments: vec![(0, v2::Tournament { id: 0, name: "Cup".to_string(), stages: vec![(1, stage)] })],
        next_id: 11,
    };
    let model = v2::load_and_upgrade(&old).unwrap();
    let stage = model.get_stage(0, 1).unwrap();
    let fixtures: Vec<Fixture> = match &stage.kind {
        StageKind::Bracket { fixtures } => fixtures.values().copied().collect(),
        StageKind::RoundRobin {} => panic!("expected a bracket"),
    };
    assert_eq!(fixtures.len(), 2);
    assert_eq!(fixtures[0].team_a, FixtureTeam::Fixed(2));
    assert_eq!(fixtures[0].match_id, Some(9));
    assert_eq!(fixtures[0].layout, (10, 20));
    assert_eq!(fixtures[1].id, 8);
    assert_eq!(fixtures[1].team_a, FixtureTeam::Linked { fixture_id: 7, outcome: Outcome::Winner });
    assert_eq!(fixtures[1].team_b, FixtureTeam::Linked { fixture_id: 7, outcome: Outcome::Loser });
    assert_eq!(stage.resolve(fixtures[1].team_a), tournament_tracker::model::tournament::Resolution::Team(2));
    assert_eq!(stage.resolve(fixtures[1].team_b), tournament_tracker::model::tournament::Resolution::Team(3));
}

#[test]
fn restore_rejects_keys_at_or_above_the_counter() {
    let mut data = stored(vec![team(3, "A"), team(2, "B")], vec![]);
    data.next_id = 3;
    assert!(matches!(Model::restore(&data), Err(LoadError::InvalidKey)));
    data.next_id = 4;
    let mut model = Model::restore(&data).unwrap();
    let t = model.add_tournament("New".to_string());
    assert_eq!(t, 4);
}
