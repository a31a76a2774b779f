//! The model in the plain shape in which it is stored: ordered lists of entries
//! instead of maps, read back into a `Model` with every key checked.
use vstd::prelude::*;
use indexmap::IndexMap;

use crate::entries::{
    keys_below, map_entries, unique_keys, lemma_below_map, lemma_keys_map, lemma_map_with_entry, lemma_repeated_key,
    lemma_unique_push,
};
use crate::model::maps::{
    fixture_entries, fixtures_insert, fixtures_new, match_entries, matches_insert, matches_new,
    stage_entries, stages_insert, stages_new, team_entries, teams_insert, teams_new,
    tournament_entries, tournaments_insert, tournaments_new,
};
use crate::model::stage_ids_below;
use crate::model::tournament::{
    Fixture, FixtureId, Match, MatchId, Stage, StageId, StageKind, StageKindView, StageView, Team,
    TeamId, Tournament, TournamentId, TournamentView, stage_view, team_view, tournament_view,
};

verus! {

/// The whole model as stored, without the record of pending changes.
pub struct StoredModel {
    pub tournaments: Vec<(TournamentId, StoredTournament)>,
    pub next_id: usize,
}

pub struct StoredTournament {
    pub id: TournamentId,
    pub name: String,
    pub stages: Vec<(StageId, StoredStage)>,
}

pub struct StoredStage {
    pub id: StageId,
    pub tournament_id: TournamentId,
    pub name: String,
    pub teams: Vec<(TeamId, Team)>,
    pub matches: Vec<(MatchId, Match)>,
    pub kind: StoredStageKind,
}

pub enum StoredStageKind {
    RoundRobin,
    Bracket { fixtures: Vec<(FixtureId, Fixture)> },
}

/// Why stored data could not be read back.
#[derive(Clone, Copy, Debug, PartialEq, Eq, Structural)]
pub enum LoadError {
    /// Some map holds one key twice, or a key that is not below the id counter
    /// (which would let a new record reuse it).
    InvalidKey,
}

impl View for StoredStageKind {
    type V = StageKindView;

    open spec fn view(&self) -> StageKindView {
        match self {
            StoredStageKind::RoundRobin => StageKindView::RoundRobin,
            StoredStageKind::Bracket { fixtures } => StageKindView::Bracket { fixtures: fixtures@ },
        }
    }
}

impl View for StoredStage {
    type V = StageView;

    open spec fn view(&self) -> StageView {
        StageView {
            id: self.id,
            tournament_id: self.tournament_id,
            name: self.name@,
            teams: map_entries(self.teams@, |t: Team| team_view(t)),
            matches: self.matches@,
            kind: self.kind@,
        }
    }
}

/// The view of one stored stage.
pub open spec fn stored_stage_view(s: StoredStage) -> StageView {
    s@
}

impl View for StoredTournament {
    type V = TournamentView;

    open spec fn view(&self) -> TournamentView {
        TournamentView {
            id: self.id,
            name: self.name@,
            stages: map_entries(self.stages@, |s: StoredStage| stored_stage_view(s)),
        }
    }
}

/// The view of one stored tournament.
pub open spec fn stored_tournament_view(t: StoredTournament) -> TournamentView {
    t@
}

impl StoredModel {
    /// The stored tournaments as mathematical data.
    pub open spec fn tournaments_view(&self) -> Seq<(TournamentId, TournamentView)> {
        map_entries(self.tournaments@, |t: StoredTournament| stored_tournament_view(t))
    }
}

/// No map of the stage holds a key twice, and every key is below `n`.
pub open spec fn stage_valid(s: StageView, n: nat) -> bool {
    &&& unique_keys(s.teams)
    &&& unique_keys(s.matches)
    &&& match s.kind {
        StageKindView::Bracket { fixtures } => unique_keys(fixtures),
        StageKindView::RoundRobin => true,
    }
    &&& stage_ids_below(s, n)
}

/// No map of the tournament holds a key twice, and every key is below `n`.
pub open spec fn tournament_valid(t: TournamentView, n: nat) -> bool {
    &&& unique_keys(t.stages)
    &&& keys_below(t.stages, n)
    &&& forall|j: int| 0 <= j < t.stages.len() ==> stage_valid(#[trigger] t.stages[j].1, n)
}

/// No map anywhere in the tournaments holds a key twice, and every key is below `n`.
pub open spec fn tournaments_valid(ts: Seq<(TournamentId, TournamentView)>, n: nat) -> bool {
    &&& unique_keys(ts)
    &&& keys_below(ts, n)
    &&& forall|i: int| 0 <= i < ts.len() ==> tournament_valid(#[trigger] ts[i].1, n)
}

/// The map of the given teams, or none if a key occurs twice or is not below
/// `bound`.
fn build_teams(v: &Vec<(TeamId, Team)>, bound: usize) -> (r: Option<IndexMap<TeamId, Team>>)
    ensures
        r is Some <==> (unique_keys(v@) && keys_below(v@, bound as nat)),
        r matches Some(m) ==> map_entries(team_entries(m), |t: Team| team_view(t)) == map_entries(
            v@,
            |t: Team| team_view(t),
        ),
{
    let mut m = teams_new();
    let mut i: usize = 0;
    proof {
        assert(v@.take(0) =~= Seq::<(TeamId, Team)>::empty());
        assert(map_entries(team_entries(m), |t: Team| team_view(t)) =~= map_entries(
            v@.take(0),
            |t: Team| team_view(t),
        ));
    }
    while i < v.len()
        invariant
            0 <= i <= v@.len(),
            unique_keys(v@.take(i as int)),
            keys_below(v@.take(i as int), bound as nat),
            map_entries(team_entries(m), |t: Team| team_view(t)) == map_entries(
                v@.take(i as int),
                |t: Team| team_view(t),
            ),
        decreases v@.len() - i,
    {
        let entry = &v[i];
        let k = entry.0;
        let t = entry.1.duplicate();
        let ghost prev = team_entries(m);
        proof {
            lemma_keys_map(prev, |t: Team| team_view(t));
            lemma_keys_map(v@.take(i as int), |t: Team| team_view(t));
            lemma_map_with_entry(prev, k, t, |t: Team| team_view(t));
            assert(v@.take(i + 1) =~= v@.take(i as int).push(v@[i as int]));
        }
        if k >= bound {
            proof {
                assert(v@[i as int].0 >= bound);
            }
            return None;
        }
        if teams_insert(&mut m, k, t).is_some() {
            proof {
                lemma_repeated_key(v@, i as int);
            }
            return None;
        }
        proof {
            lemma_unique_push(v@.take(i as int), k, v@[i as int].1);
            assert(map_entries(v@.take(i + 1), |t: Team| team_view(t)) =~= map_entries(
                v@.take(i as int),
                |t: Team| team_view(t),
            ).push((k, t@)));
        }
        i = i + 1;
    }
    proof {
        assert(v@.take(v@.len() as int) =~= v@);
    }
    Some(m)
}

/// The map of the given matches, or none if a key occurs twice or is not below
/// `bound`.
fn build_matches(v: &Vec<(MatchId, Match)>, bound: usize) -> (r: Option<IndexMap<MatchId, Match>>)
    ensures
        r is Some <==> (unique_keys(v@) && keys_below(v@, bound as nat)),
        r matches Some(m) ==> match_entries(m) == v@,
{
    let mut m = matches_new();
    let mut i: usize = 0;
    proof {
        assert(v@.take(0) =~= Seq::<(MatchId, Match)>::empty());
    }
    while i < v.len()
        invariant
            0 <= i <= v@.len(),
            unique_keys(v@.take(i as int)),
            keys_below(v@.take(i as int), bound as nat),
            match_entries(m) == v@.take(i as int),
        decreases v@.len() - i,
    {
        let entry = v[i];
        let ghost prev = match_entries(m);
        proof {
            assert(v@.take(i + 1) =~= v@.take(i as int).push(v@[i as int]));
        }
        if entry.0 >= bound {
            proof {
                assert(v@[i as int].0 >= bound);
            }
            return None;
        }
        if matches_insert(&mut m, entry.0, entry.1).is_some() {
            proof {
                lemma_repeated_key(v@, i as int);
            }
            return None;
        }
        proof {
            lemma_unique_push(v@.take(i as int), entry.0, entry.1);
        }
        i = i + 1;
    }
    proof {
        assert(v@.take(v@.len() as int) =~= v@);
    }
    Some(m)
}

/// The map of the given fixtures, or none if a key occurs twice or is not below
/// `bound`.
fn build_fixtures(v: &Vec<(FixtureId, Fixture)>, bound: usize) -> (r: Option<IndexMap<FixtureId, Fixture>>)
    ensures
        r is Some <==> (unique_keys(v@) && keys_below(v@, bound as nat)),
        r matches Some(m) ==> fixture_entries(m) == v@,
{
    let mut m = fixtures_new();
    let mut i: usize = 0;
    proof {
        assert(v@.take(0) =~= Seq::<(FixtureId, Fixture)>::empty());
    }
    while i < v.len()
        invariant
            0 <= i <= v@.len(),
            unique_keys(v@.take(i as int)),
            keys_below(v@.take(i as int), bound as nat),
            fixture_entries(m) == v@.take(i as int),
        decreases v@.len() - i,
    {
        let entry = v[i];
        let ghost prev = fixture_entries(m);
        proof {
            assert(v@.take(i + 1) =~= v@.take(i as int).push(v@[i as int]));
        }
        if entry.0 >= bound {
            proof {
                assert(v@[i as int].0 >= bound);
            }
            return None;
        }
        if fixtures_insert(&mut m, entry.0, entry.1).is_some() {
            proof {
                lemma_repeated_key(v@, i as int);
            }
            return None;
        }
        proof {
            lemma_unique_push(v@.take(i as int), entry.0, entry.1);
        }
        i = i + 1;
    }
    proof {
        assert(v@.take(v@.len() as int) =~= v@);
    }
    Some(m)
}

/// The stage with maps for its lists, or none if a key occurs twice or is not
/// below `bound`.
fn build_stage(s: &StoredStage, bound: usize) -> (r: Option<Stage>)
    ensures
        r is Some <==> stage_valid(s@, bound as nat),
        r matches Some(st) ==> st@ == s@,
{
    proof {
        lemma_keys_map(s.teams@, |t: Team| team_view(t));
        lemma_below_map(s.teams@, |t: Team| team_view(t), bound as nat);
    }
    let teams = match build_teams(&s.teams, bound) {
        Some(m) => m,
        None => {
            return None;
        },
    };
    let matches = match build_matches(&s.matches, bound) {
        Some(m) => m,
        None => {
            return None;
        },
    };
    let kind = match &s.kind {
        StoredStageKind::RoundRobin => StageKind::RoundRobin {  },
        StoredStageKind::Bracket { fixtures } => match build_fixtures(fixtures, bound) {
            Some(m) => StageKind::Bracket { fixtures: m },
            None => {
                return None;
            },
        },
    };
    Some(Stage { id: s.id, tournament_id: s.tournament_id, name: s.name.clone(), teams, matches, kind })
}

/// The map of the given stages, or none if a key occurs twice anywhere or is not
/// below `bound`.
fn build_stages(v: &Vec<(StageId, StoredStage)>, bound: usize) -> (r: Option<IndexMap<StageId, Stage>>)
    ensures
        r is Some <==> (unique_keys(v@) && keys_below(v@, bound as nat) && forall|j: int|
            0 <= j < v@.len() ==> stage_valid(#[trigger] v@[j].1@, bound as nat)),
        r matches Some(m) ==> map_entries(stage_entries(m), |x: Stage| stage_view(x)) == map_entries(
            v@,
            |x: StoredStage| stored_stage_view(x),
        ),
{
    let mut m = stages_new();
    let mut i: usize = 0;
    proof {
        assert(v@.take(0) =~= Seq::<(StageId, StoredStage)>::empty());
        assert(map_entries(stage_entries(m), |x: Stage| stage_view(x)) =~= map_entries(
            v@.take(0),
            |x: StoredStage| stored_stage_view(x),
        ));
    }
    while i < v.len()
        invariant
            0 <= i <= v@.len(),
            unique_keys(v@.take(i as int)),
            keys_below(v@.take(i as int), bound as nat),
            forall|j: int| 0 <= j < i ==> stage_valid(#[trigger] v@[j].1@, bound as nat),
            map_entries(stage_entries(m), |x: Stage| stage_view(x)) == map_entries(
                v@.take(i as int),
                |x: StoredStage| stored_stage_view(x),
            ),
        decreases v@.len() - i,
    {
        let entry = &v[i];
        let k = entry.0;
        if k >= bound {
            proof {
                assert(v@[i as int].0 >= bound);
            }
            return None;
        }
        let x = match build_stage(&entry.1, bound) {
            Some(x) => x,
            None => {
                return None;
            },
        };
        let ghost prev = stage_entries(m);
        proof {
            lemma_keys_map(prev, |x: Stage| stage_view(x));
            lemma_keys_map(v@.take(i as int), |x: StoredStage| stored_stage_view(x));
            lemma_map_with_entry(prev, k, x, |x: Stage| stage_view(x));
            assert(v@.take(i + 1) =~= v@.take(i as int).push(v@[i as int]));
        }
        if stages_insert(&mut m, k, x).is_some() {
            proof {
                lemma_repeated_key(v@, i as int);
            }
            return None;
        }
        proof {
            lemma_unique_push(v@.take(i as int), k, v@[i as int].1);
            assert(map_entries(v@.take(i + 1), |x: StoredStage| stored_stage_view(x)) =~= map_entries(
                v@.take(i as int),
                |x: StoredStage| stored_stage_view(x),
            ).push((k, x@)));
        }
        i = i + 1;
    }
    proof {
        assert(v@.take(v@.len() as int) =~= v@);
    }
    Some(m)
}

/// The tournament with maps for its lists, or none if a key occurs twice or is
/// not below `bound`.
fn build_tournament(t: &StoredTournament, bound: usize) -> (r: Option<Tournament>)
    ensures
        r is Some <==> tournament_valid(t@, bound as nat),
        r matches Some(x) ==> x@ == t@,
{
    proof {
        lemma_keys_map(t.stages@, |s: StoredStage| stored_stage_view(s));
        lemma_below_map(t.stages@, |s: StoredStage| stored_stage_view(s), bound as nat);
        assert forall|j: int| 0 <= j < t.stages@.len() implies t@.stages[j].1 == #[trigger] t.stages@[j].1@ by {}
    }
    let stages = match build_stages(&t.stages, bound) {
        Some(m) => m,
        None => {
            return None;
        },
    };
    Some(Tournament { id: t.id, name: t.name.clone(), stages })
}

/// The map of the given tournaments, or none if a key occurs twice anywhere or
/// is not below `bound`.
pub(crate) fn build_tournaments(v: &Vec<(TournamentId, StoredTournament)>, bound: usize) -> (r: Option<IndexMap<TournamentId, Tournament>>)
    ensures
        r is Some <==> (unique_keys(v@) && keys_below(v@, bound as nat) && forall|j: int|
            0 <= j < v@.len() ==> tournament_valid(#[trigger] v@[j].1@, bound as nat)),
        r matches Some(m) ==> map_entries(tournament_entries(m), |x: Tournament| tournament_view(x)) == map_entries(
            v@,
            |x: StoredTournament| stored_tournament_view(x),
        ),
{
    let mut m = tournaments_new();
    let mut i: usize = 0;
    proof {
        assert(v@.take(0) =~= Seq::<(TournamentId, StoredTournament)>::empty());
        assert(map_entries(tournament_entries(m), |x: Tournament| tournament_view(x)) =~= map_entries(
            v@.take(0),
            |x: StoredTournament| stored_tournament_view(x),
        ));
    }
    while i < v.len()
        invariant
            0 <= i <= v@.len(),
            unique_keys(v@.take(i as int)),
            keys_below(v@.take(i as int), bound as nat),
            forall|j: int| 0 <= j < i ==> tournament_valid(#[trigger] v@[j].1@, bound as nat),
            map_entries(tournament_entries(m), |x: Tournament| tournament_view(x)) == map_entries(
                v@.take(i as int),
                |x: StoredTournament| stored_tournament_view(x),
            ),
        decreases v@.len() - i,
    {
        let entry = &v[i];
        let k = entry.0;
        if k >= bound {
            proof {
                assert(v@[i as int].0 >= bound);
            }
            return None;
        }
        let x = match build_tournament(&entry.1, bound) {
            Some(x) => x,
            None => {
                return None;
            },
        };
        let ghost prev = tournament_entries(m);
        proof {
            lemma_keys_map(prev, |x: Tournament| tournament_view(x));
            lemma_keys_map(v@.take(i as int), |x: StoredTournament| stored_tournament_view(x));
            lemma_map_with_entry(prev, k, x, |x: Tournament| tournament_view(x));
            assert(v@.take(i + 1) =~= v@.take(i as int).push(v@[i as int]));
        }
        if tournaments_insert(&mut m, k, x).is_some() {
            proof {
                lemma_repeated_key(v@, i as int);
            }
            return None;
        }
        proof {
            lemma_unique_push(v@.take(i as int), k, v@[i as int].1);
            assert(map_entries(v@.take(i + 1), |x: StoredTournament| stored_tournament_view(x)) =~= map_entries(
                v@.take(i as int),
                |x: StoredTournament| stored_tournament_view(x),
            ).push((k, x@)));
        }
        i = i + 1;
    }
    proof {
        assert(v@.take(v@.len() as int) =~= v@);
    }
    Some(m)
}

/// A copy of a list of teams.
pub(crate) fn copy_teams(v: &Vec<(TeamId, Team)>) -> (r: Vec<(TeamId, Team)>)
    ensures
        map_entries(r@, |x: Team| team_view(x)) == map_entries(v@, |x: Team| team_view(x)),
{
    let mut r: Vec<(TeamId, Team)> = Vec::new();
    let mut i: usize = 0;
    while i < v.len()
        invariant
            0 <= i <= v@.len(),
            map_entries(r@, |x: Team| team_view(x)) == map_entries(
                v@.take(i as int),
                |x: Team| team_view(x),
            ),
        decreases v@.len() - i,
    {
        let entry = &v[i];
        let y = entry.1.duplicate();
        proof {
            assert(v@.take(i + 1) =~= v@.take(i as int).push(v@[i as int]));
            assert(map_entries(v@.take(i + 1), |x: Team| team_view(x)) =~= map_entries(
                v@.take(i as int),
                |x: Team| team_view(x),
            ).push((entry.0, team_view(v@[i as int].1))));
        }
        r.push((entry.0, y));
        proof {
            assert(map_entries(r@, |x: Team| team_view(x)) =~= map_entries(
                v@.take(i + 1),
                |x: Team| team_view(x),
            ));
        }
        i = i + 1;
    }
    proof {
        assert(v@.take(v@.len() as int) =~= v@);
    }
    r
}

/// A copy of a list of matches.
pub(crate) fn copy_matches(v: &Vec<(MatchId, Match)>) -> (r: Vec<(MatchId, Match)>)
    ensures
        map_entries(r@, |x: Match| x) == map_entries(v@, |x: Match| x),
{
    let mut r: Vec<(MatchId, Match)> = Vec::new();
    let mut i: usize = 0;
    while i < v.len()
        invariant
            0 <= i <= v@.len(),
            map_entries(r@, |x: Match| x) == map_entries(
                v@.take(i as int),
                |x: Match| x,
            ),
        decreases v@.len() - i,
    {
        let entry = &v[i];
        let y = entry.1;
        proof {
            assert(v@.take(i + 1) =~= v@.take(i as int).push(v@[i as int]));
            assert(map_entries(v@.take(i + 1), |x: Match| x) =~= map_entries(
                v@.take(i as int),
                |x: Match| x,
            ).push((entry.0, v@[i as int].1)));
        }
        r.push((entry.0, y));
        proof {
            assert(map_entries(r@, |x: Match| x) =~= map_entries(
                v@.take(i + 1),
                |x: Match| x,
            ));
        }
        i = i + 1;
    }
    proof {
        assert(v@.take(v@.len() as int) =~= v@);
    }
    r
}

} // verus!
