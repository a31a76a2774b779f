//! The stored model of the first format, from before formats were numbered: a
//! match named its two teams and which of them won, and every stage was a
//! round-robin stage.
use vstd::prelude::*;

use crate::entries::map_entries;
use crate::model::Model as CurrentModel;
use crate::model::{ModelView, well_formed};
use crate::model::stored::{LoadError, copy_teams, tournaments_valid};
use crate::model::tournament::{
    MatchId, StageId, StageKindView, StageView, Team, TeamId, TournamentId, TournamentView,
    team_view,
};
use crate::model::tournament::Match as CurrentMatch;
use crate::model::v2;

verus! {

pub struct Model {
    pub tournaments: Vec<(TournamentId, Tournament)>,
    pub next_id: usize,
}

pub struct Tournament {
    pub id: TournamentId,
    pub name: String,
    pub stages: Vec<(StageId, Stage)>,
}

pub struct Stage {
    pub id: StageId,
    pub tournament_id: TournamentId,
    pub name: String,
    pub teams: Vec<(TeamId, Team)>,
    pub matches: Vec<(MatchId, Match)>,
}

#[derive(Clone, Copy, Debug)]
pub struct Match {
    pub id: MatchId,
    pub teams: [TeamId; 2],
    pub winner: TeamId,
    pub loser: TeamId,
}

/// A match with scores: one point to the side recorded as the winner.
pub open spec fn upgraded_match(m: Match) -> CurrentMatch {
    CurrentMatch {
        id: m.id,
        team_a: m.teams@[0],
        team_b: m.teams@[1],
        team_a_score: if m.winner == m.teams@[0] {
            1
        } else {
            0
        },
        team_b_score: if m.winner == m.teams@[1] {
            1
        } else {
            0
        },
    }
}

/// `new` is stage `old` of tournament `tid` in the second format.
pub open spec fn stage_upgraded(tid: TournamentId, old: Stage, new: v2::Stage) -> bool {
    &&& new.id == old.id
    &&& new.tournament_id == tid
    &&& new.name@ == old.name@
    &&& map_entries(new.teams@, |t: Team| team_view(t)) == map_entries(
        old.teams@,
        |t: Team| team_view(t),
    )
    &&& new.matches@ == map_entries(old.matches@, |m: Match| upgraded_match(m))
    &&& new.kind is RoundRobin
}

/// `new` is tournament `old`, stored under key `tid`, in the second format.
pub open spec fn tournament_upgraded(tid: TournamentId, old: Tournament, new: v2::Tournament) -> bool {
    &&& new.id == old.id
    &&& new.name@ == old.name@
    &&& new.stages@.len() == old.stages@.len()
    &&& forall|j: int|
        0 <= j < old.stages@.len() ==> new.stages@[j].0 == (#[trigger] old.stages@[j]).0 && stage_upgraded(
            tid,
            old.stages@[j].1,
            new.stages@[j].1,
        )
}

/// `new` is model `old` in the second format.
pub open spec fn model_upgraded(old: Model, new: v2::Model) -> bool {
    &&& new.next_id == old.next_id
    &&& new.tournaments@.len() == old.tournaments@.len()
    &&& forall|i: int|
        0 <= i < old.tournaments@.len() ==> new.tournaments@[i].0 == (#[trigger] old.tournaments@[i]).0
            && tournament_upgraded(
            old.tournaments@[i].0,
            old.tournaments@[i].1,
            new.tournaments@[i].1,
        )
}

/// A stage of tournament `tid` in the current format.
pub open spec fn upgraded_stage(tid: TournamentId, s: Stage) -> StageView {
    StageView {
        id: s.id,
        tournament_id: tid,
        name: s.name@,
        teams: map_entries(s.teams@, |t: Team| team_view(t)),
        matches: map_entries(s.matches@, |m: Match| upgraded_match(m)),
        kind: StageKindView::RoundRobin,
    }
}

/// A tournament stored under key `tid`, in the current format.
pub open spec fn upgraded_tournament(tid: TournamentId, t: Tournament) -> TournamentView {
    TournamentView {
        id: t.id,
        name: t.name@,
        stages: map_entries(t.stages@, |s: Stage| upgraded_stage(tid, s)),
    }
}

/// All tournaments in the current format.
pub open spec fn upgraded(m: Model) -> Seq<(TournamentId, TournamentView)> {
    m.tournaments@.map_values(
        |e: (TournamentId, Tournament)| (e.0, upgraded_tournament(e.0, e.1)),
    )
}

fn upgrade_match(m: &Match) -> (r: CurrentMatch)
    ensures
        r == upgraded_match(*m),
{
    CurrentMatch {
        id: m.id,
        team_a: m.teams[0],
        team_b: m.teams[1],
        team_a_score: if m.winner == m.teams[0] {
            1
        } else {
            0
        },
        team_b_score: if m.winner == m.teams[1] {
            1
        } else {
            0
        },
    }
}

fn upgrade_matches(v: &Vec<(MatchId, Match)>) -> (r: Vec<(MatchId, CurrentMatch)>)
    ensures
        r@ == map_entries(v@, |m: Match| upgraded_match(m)),
{
    let mut r: Vec<(MatchId, CurrentMatch)> = Vec::new();
    let mut i: usize = 0;
    while i < v.len()
        invariant
            0 <= i <= v@.len(),
            r@ == map_entries(v@.take(i as int), |m: Match| upgraded_match(m)),
        decreases v@.len() - i,
    {
        let entry = &v[i];
        let m = upgrade_match(&entry.1);
        proof {
            assert(v@.take(i + 1) =~= v@.take(i as int).push(v@[i as int]));
            assert(map_entries(v@.take(i + 1), |m: Match| upgraded_match(m)) =~= map_entries(
                v@.take(i as int),
                |m: Match| upgraded_match(m),
            ).push((entry.0, m)));
        }
        r.push((entry.0, m));
        i = i + 1;
    }
    proof {
        assert(v@.take(v@.len() as int) =~= v@);
    }
    r
}

fn upgrade_stage(tid: TournamentId, s: &Stage) -> (r: v2::Stage)
    ensures
        stage_upgraded(tid, *s, r),
{
    v2::Stage {
        id: s.id,
        tournament_id: tid,
        name: s.name.clone(),
        teams: copy_teams(&s.teams),
        matches: upgrade_matches(&s.matches),
        kind: v2::StageKind::RoundRobin {  },
    }
}

fn upgrade_stages(tid: TournamentId, v: &Vec<(StageId, Stage)>) -> (r: Vec<(StageId, v2::Stage)>)
    ensures
        r@.len() == v@.len(),
        forall|j: int|
            0 <= j < v@.len() ==> r@[j].0 == (#[trigger] v@[j]).0 && stage_upgraded(
                tid,
                v@[j].1,
                r@[j].1,
            ),
{
    let mut r: Vec<(StageId, v2::Stage)> = Vec::new();
    let mut i: usize = 0;
    while i < v.len()
        invariant
            0 <= i <= v@.len(),
            r@.len() == i,
            forall|j: int|
                0 <= j < i ==> r@[j].0 == (#[trigger] v@[j]).0 && stage_upgraded(
                    tid,
                    v@[j].1,
                    r@[j].1,
                ),
        decreases v@.len() - i,
    {
        let entry = &v[i];
        let s = upgrade_stage(tid, &entry.1);
        let ghost r0 = r@;
        r.push((entry.0, s));
        proof {
            assert forall|j: int| 0 <= j < i + 1 implies r@[j].0 == (#[trigger] v@[j]).0 && stage_upgraded(
                tid,
                v@[j].1,
                r@[j].1,
            ) by {
                if j < i {
                    assert(r@[j] == r0[j]);
                    assert(r0[j].0 == v@[j].0);
                } else {
                    assert(r@[j] == (entry.0, s));
                    assert(entry.0 == v@[j].0);
                }
            }
        }
        i = i + 1;
    }
    r
}

fn upgrade_tournament(tid: TournamentId, t: &Tournament) -> (r: v2::Tournament)
    ensures
        tournament_upgraded(tid, *t, r),
{
    v2::Tournament { id: t.id, name: t.name.clone(), stages: upgrade_stages(tid, &t.stages) }
}

/// The model in the second format.
pub fn upgrade(m: &Model) -> (r: v2::Model)
    ensures
        model_upgraded(*m, r),
{
    let mut r: Vec<(TournamentId, v2::Tournament)> = Vec::new();
    let mut i: usize = 0;
    while i < m.tournaments.len()
        invariant
            0 <= i <= m.tournaments@.len(),
            r@.len() == i,
            forall|j: int|
                0 <= j < i ==> r@[j].0 == (#[trigger] m.tournaments@[j]).0 && tournament_upgraded(
                    m.tournaments@[j].0,
                    m.tournaments@[j].1,
                    r@[j].1,
                ),
        decreases m.tournaments@.len() - i,
    {
        let entry = &m.tournaments[i];
        let t = upgrade_tournament(entry.0, &entry.1);
        let ghost r0 = r@;
        r.push((entry.0, t));
        proof {
            assert forall|j: int| 0 <= j < i + 1 implies r@[j].0 == (#[trigger] m.tournaments@[j]).0
                && tournament_upgraded(
                m.tournaments@[j].0,
                m.tournaments@[j].1,
                r@[j].1,
            ) by {
                if j < i {
                    assert(r@[j] == r0[j]);
                }
            }
        }
        i = i + 1;
    }
    v2::Model { tournaments: r, next_id: m.next_id }
}

/// Going through the second format gives the current one directly.
proof fn lemma_chain(m: Model, m2: v2::Model)
    requires
        model_upgraded(m, m2),
    ensures
        v2::upgraded(m2) == upgraded(m),
{
    assert forall|i: int| 0 <= i < m.tournaments@.len() implies #[trigger] v2::upgraded(m2)[i]
        == upgraded(m)[i] by {
        let k = m.tournaments@[i].0;
        let t = m.tournaments@[i].1;
        let t2 = m2.tournaments@[i].1;
        assert(tournament_upgraded(k, t, t2));
        let a = map_entries(t2.stages@, |s: v2::Stage| v2::upgraded_stage(k, s));
        let b = map_entries(t.stages@, |s: Stage| upgraded_stage(k, s));
        assert forall|j: int| 0 <= j < t.stages@.len() implies #[trigger] a[j] == b[j] by {
            let s = t.stages@[j].1;
            let s2 = t2.stages@[j].1;
            assert(stage_upgraded(k, s, s2));
            assert(s2.matches@ =~= map_entries(s.matches@, |m: Match| upgraded_match(m)));
        }
        assert(a =~= b);
    }
    assert(v2::upgraded(m2) =~= upgraded(m));
}

/// After the upgrade, a match between two different teams scores one to nothing
/// for its first team exactly when that team was recorded as the winner, and
/// nothing to one exactly when the second team was; its key, id and teams are kept.
pub proof fn upgrade_scores_the_winner(m: Model, i: int, j: int, l: int)
    requires
        0 <= i < m.tournaments@.len(),
        0 <= j < m.tournaments@[i].1.stages@.len(),
        0 <= l < m.tournaments@[i].1.stages@[j].1.matches@.len(),
        m.tournaments@[i].1.stages@[j].1.matches@[l].1.teams@[0]
            != m.tournaments@[i].1.stages@[j].1.matches@[l].1.teams@[1],
    ensures
        ({
            let old = m.tournaments@[i].1.stages@[j].1.matches@[l];
            let new = upgraded(m)[i].1.stages[j].1.matches[l];
            &&& new.0 == old.0
            &&& new.1.id == old.1.id
            &&& new.1.team_a == old.1.teams@[0]
            &&& new.1.team_b == old.1.teams@[1]
            &&& (new.1.team_a_score == 1 && new.1.team_b_score == 0) <==> old.1.winner
                == old.1.teams@[0]
            &&& (new.1.team_a_score == 0 && new.1.team_b_score == 1) <==> old.1.winner
                == old.1.teams@[1]
        }),
{
}

/// Reads a model of this format into the current one, through the second format;
/// fails when some map of it holds a key twice or a key not below the id counter.
pub fn load_and_upgrade(m: &Model) -> (r: Result<CurrentModel, LoadError>)
    ensures
        r is Ok <==> tournaments_valid(upgraded(*m), m.next_id as nat),
        r matches Ok(x) ==> x@ == (ModelView {
            tournaments: upgraded(*m),
            next_id: m.next_id as nat,
            changed: Seq::empty(),
        }),
        r matches Ok(x) ==> well_formed(x@),
{
    let second = upgrade(m);
    proof {
        lemma_chain(*m, second);
    }
    v2::load_and_upgrade(&second)
}

} // verus!
