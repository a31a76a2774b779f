//! The stored model of the second format, in which a fixture slot linked to
//! another fixture named the outcome in its own variant.
use vstd::prelude::*;

use crate::entries::map_entries;
use crate::model::Model as CurrentModel;
use crate::model::{ModelView, well_formed};
use crate::model::stored::{
    LoadError, StoredModel, StoredStage, StoredStageKind, StoredTournament, copy_matches,
    copy_teams, tournaments_valid, stored_stage_view, stored_tournament_view,
};
use crate::model::tournament::{
    FixtureId, Match, MatchId, Outcome, StageId, StageKindView, StageView, Team, TeamId,
    TournamentId, TournamentView, team_view,
};
use crate::model::tournament::Fixture as CurrentFixture;
use crate::model::tournament::FixtureTeam as CurrentFixtureTeam;

verus! {

pub struct Model {
    pub tournaments: Vec<(TournamentId, Tournament)>,
    pub next_id: usize,
}

pub struct Tournament {
    pub id: TournamentId,
    pub name: String,
    pub stages: Vec<(StageId, Stage)>,
}

pub struct Stage {
    pub id: StageId,
    pub tournament_id: TournamentId,
    pub name: String,
    pub teams: Vec<(TeamId, Team)>,
    pub matches: Vec<(MatchId, Match)>,
    pub kind: StageKind,
}

pub enum StageKind {
    RoundRobin {},
    Bracket { fixtures: Vec<(FixtureId, Fixture)> },
}

#[derive(Clone, Copy, Debug)]
pub struct Fixture {
    pub id: FixtureId,
    pub layout: (i32, i32),
    pub match_id: Option<MatchId>,
    pub team_a: FixtureTeam,
    pub team_b: FixtureTeam,
}

#[derive(Clone, Copy, Debug, PartialEq, Eq, Structural)]
pub enum FixtureTeam {
    /// The team is fixed, not based on the result of another fixture.
    Fixed(TeamId),
    /// The winner of another fixture of the stage.
    Winner(FixtureId),
    /// The loser of another fixture of the stage.
    Loser(FixtureId),
}

/// A fixture slot in the current format: the two linked variants become one.
pub open spec fn upgraded_fixture_team(t: FixtureTeam) -> CurrentFixtureTeam {
    match t {
        FixtureTeam::Fixed(team) => CurrentFixtureTeam::Fixed(team),
        FixtureTeam::Winner(f) => CurrentFixtureTeam::Linked { fixture_id: f, outcome: Outcome::Winner },
        FixtureTeam::Loser(f) => CurrentFixtureTeam::Linked { fixture_id: f, outcome: Outcome::Loser },
    }
}

pub open spec fn upgraded_fixture(f: Fixture) -> CurrentFixture {
    CurrentFixture {
        id: f.id,
        layout: f.layout,
        match_id: f.match_id,
        team_a: upgraded_fixture_team(f.team_a),
        team_b: upgraded_fixture_team(f.team_b),
    }
}

/// A stage of tournament `tid` in the current format.
pub open spec fn upgraded_stage(tid: TournamentId, s: Stage) -> StageView {
    StageView {
        id: s.id,
        tournament_id: tid,
        name: s.name@,
        teams: map_entries(s.teams@, |t: Team| team_view(t)),
        matches: s.matches@,
        kind: match s.kind {
            StageKind::RoundRobin {  } => StageKindView::RoundRobin,
            StageKind::Bracket { fixtures } => StageKindView::Bracket {
                fixtures: map_entries(fixtures@, |f: Fixture| upgraded_fixture(f)),
            },
        },
    }
}

/// A tournament stored under key `tid`, in the current format.
pub open spec fn upgraded_tournament(tid: TournamentId, t: Tournament) -> TournamentView {
    TournamentView {
        id: t.id,
        name: t.name@,
        stages: map_entries(t.stages@, |s: Stage| upgraded_stage(tid, s)),
    }
}

/// All tournaments in the current format.
pub open spec fn upgraded(m: Model) -> Seq<(TournamentId, TournamentView)> {
    m.tournaments@.map_values(
        |e: (TournamentId, Tournament)| (e.0, upgraded_tournament(e.0, e.1)),
    )
}

fn upgrade_fixture_team(t: FixtureTeam) -> (r: CurrentFixtureTeam)
    ensures
        r == upgraded_fixture_team(t),
{
    match t {
        FixtureTeam::Fixed(team) => CurrentFixtureTeam::Fixed(team),
        FixtureTeam::Winner(f) => CurrentFixtureTeam::Linked { fixture_id: f, outcome: Outcome::Winner },
        FixtureTeam::Loser(f) => CurrentFixtureTeam::Linked { fixture_id: f, outcome: Outcome::Loser },
    }
}

fn upgrade_fixture(f: &Fixture) -> (r: CurrentFixture)
    ensures
        r == upgraded_fixture(*f),
{
    CurrentFixture {
        id: f.id,
        layout: f.layout,
        match_id: f.match_id,
        team_a: upgrade_fixture_team(f.team_a),
        team_b: upgrade_fixture_team(f.team_b),
    }
}

/// The fixtures of a bracket stage in the current format.
fn upgrade_fixtures(v: &Vec<(FixtureId, Fixture)>) -> (r: Vec<(FixtureId, CurrentFixture)>)
    ensures
        map_entries(r@, |x: CurrentFixture| x) == map_entries(v@, |x: Fixture| upgraded_fixture(x)),
{
    let mut r: Vec<(FixtureId, CurrentFixture)> = Vec::new();
    let mut i: usize = 0;
    while i < v.len()
        invariant
            0 <= i <= v@.len(),
            map_entries(r@, |x: CurrentFixture| x) == map_entries(
                v@.take(i as int),
                |x: Fixture| upgraded_fixture(x),
            ),
        decreases v@.len() - i,
    {
        let entry = &v[i];
        let y = upgrade_fixture(&entry.1);
        proof {
            assert(v@.take(i + 1) =~= v@.take(i as int).push(v@[i as int]));
            assert(map_entries(v@.take(i + 1), |x: Fixture| upgraded_fixture(x)) =~= map_entries(
                v@.take(i as int),
                |x: Fixture| upgraded_fixture(x),
            ).push((entry.0, upgraded_fixture(v@[i as int].1))));
        }
        r.push((entry.0, y));
        proof {
            assert(map_entries(r@, |x: CurrentFixture| x) =~= map_entries(
                v@.take(i + 1),
                |x: Fixture| upgraded_fixture(x),
            ));
        }
        i = i + 1;
    }
    proof {
        assert(v@.take(v@.len() as int) =~= v@);
    }
    r
}

fn upgrade_stage(tid: TournamentId, s: &Stage) -> (r: StoredStage)
    ensures
        r@ == upgraded_stage(tid, *s),
{
    let kind = match &s.kind {
        StageKind::RoundRobin {  } => StoredStageKind::RoundRobin,
        StageKind::Bracket { fixtures } => {
            let upgraded = upgrade_fixtures(fixtures);
            proof {
                assert(upgraded@ =~= map_entries(upgraded@, |x: CurrentFixture| x));
            }
            StoredStageKind::Bracket { fixtures: upgraded }
        },
    };
    let teams = copy_teams(&s.teams);
    let matches = copy_matches(&s.matches);
    proof {
        assert(matches@ =~= map_entries(matches@, |x: Match| x));
        assert(s.matches@ =~= map_entries(s.matches@, |x: Match| x));
    }
    StoredStage { id: s.id, tournament_id: tid, name: s.name.clone(), teams, matches, kind }
}

/// The stages of tournament `tid` in the current format.
fn upgrade_stages(tid: TournamentId, v: &Vec<(StageId, Stage)>) -> (r: Vec<(StageId, StoredStage)>)
    ensures
        map_entries(r@, |x: StoredStage| stored_stage_view(x)) == map_entries(v@, |x: Stage| upgraded_stage(tid, x)),
{
    let mut r: Vec<(StageId, StoredStage)> = Vec::new();
    let mut i: usize = 0;
    while i < v.len()
        invariant
            0 <= i <= v@.len(),
            map_entries(r@, |x: StoredStage| stored_stage_view(x)) == map_entries(
                v@.take(i as int),
                |x: Stage| upgraded_stage(tid, x),
            ),
        decreases v@.len() - i,
    {
        let entry = &v[i];
        let y = upgrade_stage(tid, &entry.1);
        proof {
            assert(v@.take(i + 1) =~= v@.take(i as int).push(v@[i as int]));
            assert(map_entries(v@.take(i + 1), |x: Stage| upgraded_stage(tid, x)) =~= map_entries(
                v@.take(i as int),
                |x: Stage| upgraded_stage(tid, x),
            ).push((entry.0, upgraded_stage(tid, v@[i as int].1))));
        }
        r.push((entry.0, y));
        proof {
            assert(map_entries(r@, |x: StoredStage| stored_stage_view(x)) =~= map_entries(
                v@.take(i + 1),
                |x: Stage| upgraded_stage(tid, x),
            ));
        }
        i = i + 1;
    }
    proof {
        assert(v@.take(v@.len() as int) =~= v@);
    }
    r
}

fn upgrade_tournament(tid: TournamentId, t: &Tournament) -> (r: StoredTournament)
    ensures
        r@ == upgraded_tournament(tid, *t),
{
    let stages = upgrade_stages(tid, &t.stages);
    StoredTournament { id: t.id, name: t.name.clone(), stages }
}

/// The model in the current stored format.
pub fn upgrade(m: &Model) -> (r: StoredModel)
    ensures
        r.tournaments_view() == upgraded(*m),
        r.next_id == m.next_id,
{
    let mut r: Vec<(TournamentId, StoredTournament)> = Vec::new();
    let mut i: usize = 0;
    while i < m.tournaments.len()
        invariant
            0 <= i <= m.tournaments@.len(),
            map_entries(r@, |x: StoredTournament| stored_tournament_view(x)) == m.tournaments@.take(
                i as int,
            ).map_values(|e: (TournamentId, Tournament)| (e.0, upgraded_tournament(e.0, e.1))),
        decreases m.tournaments@.len() - i,
    {
        let entry = &m.tournaments[i];
        let t = upgrade_tournament(entry.0, &entry.1);
        proof {
            assert(m.tournaments@.take(i + 1) =~= m.tournaments@.take(i as int).push(
                m.tournaments@[i as int],
            ));
            assert(m.tournaments@.take(i + 1).map_values(
                |e: (TournamentId, Tournament)| (e.0, upgraded_tournament(e.0, e.1)),
            ) =~= m.tournaments@.take(i as int).map_values(
                |e: (TournamentId, Tournament)| (e.0, upgraded_tournament(e.0, e.1)),
            ).push((entry.0, t@)));
        }
        let ghost r0 = r@;
        r.push((entry.0, t));
        proof {
            assert(map_entries(r@, |x: StoredTournament| stored_tournament_view(x)) =~= map_entries(
                r0,
                |x: StoredTournament| stored_tournament_view(x),
            ).push((entry.0, t@)));
            assert(map_entries(r@, |x: StoredTournament| stored_tournament_view(x))
                =~= m.tournaments@.take(i + 1).map_values(
                |e: (TournamentId, Tournament)| (e.0, upgraded_tournament(e.0, e.1)),
            ));
        }
        i = i + 1;
    }
    proof {
        assert(m.tournaments@.take(m.tournaments@.len() as int) =~= m.tournaments@);
    }
    StoredModel { tournaments: r, next_id: m.next_id }
}

/// The upgrade loses nothing of a fixture: it keeps its key, id, position, match
/// and fixed teams, and a slot that took the winner (or the loser) of a fixture
/// links to that fixture with that outcome.
pub proof fn upgrade_links_fixtures(m: Model, i: int, j: int, l: int)
    requires
        0 <= i < m.tournaments@.len(),
        0 <= j < m.tournaments@[i].1.stages@.len(),
        m.tournaments@[i].1.stages@[j].1.kind is Bracket,
        0 <= l < m.tournaments@[i].1.stages@[j].1.kind->Bracket_fixtures@.len(),
    ensures
        ({
            let old = m.tournaments@[i].1.stages@[j].1.kind->Bracket_fixtures@[l];
            let kind = upgraded(m)[i].1.stages[j].1.kind;
            &&& kind is Bracket
            &&& kind->Bracket_fixtures.len() == m.tournaments@[i].1.stages@[
                j
            ].1.kind->Bracket_fixtures@.len()
            &&& kind->Bracket_fixtures[l].0 == old.0
            &&& kind->Bracket_fixtures[l].1.id == old.1.id
            &&& kind->Bracket_fixtures[l].1.layout == old.1.layout
            &&& kind->Bracket_fixtures[l].1.match_id == old.1.match_id
            &&& kind->Bracket_fixtures[l].1.team_a == upgraded_fixture_team(old.1.team_a)
            &&& kind->Bracket_fixtures[l].1.team_b == upgraded_fixture_team(old.1.team_b)
        }),
        forall|f: FixtureId|
            #[trigger] upgraded_fixture_team(FixtureTeam::Winner(f)) == (CurrentFixtureTeam::Linked {
                fixture_id: f,
                outcome: Outcome::Winner,
            }),
        forall|f: FixtureId|
            #[trigger] upgraded_fixture_team(FixtureTeam::Loser(f)) == (CurrentFixtureTeam::Linked {
                fixture_id: f,
                outcome: Outcome::Loser,
            }),
        forall|t: TeamId|
            #[trigger] upgraded_fixture_team(FixtureTeam::Fixed(t)) == CurrentFixtureTeam::Fixed(t),
{
}

/// Reads a model of this format into the current one; fails when some map of it
/// holds a key twice or a key not below the id counter.
pub fn load_and_upgrade(m: &Model) -> (r: Result<CurrentModel, LoadError>)
    ensures
        r is Ok <==> tournaments_valid(upgraded(*m), m.next_id as nat),
        r matches Ok(x) ==> x@ == (ModelView {
            tournaments: upgraded(*m),
            next_id: m.next_id as nat,
            changed: Seq::empty(),
        }),
        r matches Ok(x) ==> well_formed(x@),
{
    let data = upgrade(m);
    CurrentModel::restore(&data)
}

} // verus!
