//! The records held by the model: tournaments, stages, teams, matches and fixtures.
use vstd::prelude::*;
use indexmap::IndexMap;

use crate::entries::{has_key, lookup, map_entries, lemma_keys_map};
use crate::model::maps::{
    team_entries, match_entries, fixture_entries, stage_entries, teams_new, matches_new,
    fixtures_new, stages_new, teams_contains_key, teams_get_index, teams_len, matches_len,
    fixtures_get, matches_get_index_of, matches_get_index as match_at,
};

verus! {

pub type TournamentId = usize;

pub type StageId = usize;

pub type TeamId = usize;

pub type MatchId = usize;

pub type FixtureId = usize;

pub struct Tournament {
    pub id: TournamentId,
    pub name: String,
    pub stages: IndexMap<StageId, Stage>,
}

pub struct Stage {
    pub id: StageId,
    pub tournament_id: TournamentId,
    pub name: String,
    pub teams: IndexMap<TeamId, Team>,
    pub matches: IndexMap<MatchId, Match>,
    pub kind: StageKind,
}

pub enum StageKind {
    RoundRobin {},
    Bracket { fixtures: IndexMap<FixtureId, Fixture> },
}

pub struct Team {
    pub id: TeamId,
    pub name: String,
}

/// A match is something that we already have the results for. See also `Fixture`.
#[derive(Clone, Copy, Debug, PartialEq, Eq, Structural)]
pub struct Match {
    pub id: MatchId,
    pub team_a: TeamId,
    pub team_b: TeamId,
    pub team_a_score: u32,
    pub team_b_score: u32,
}

/// Which side of a fixture's result feeds forward.
#[derive(Clone, Copy, Debug, PartialEq, Eq, Structural)]
pub enum Outcome {
    Winner,
    Loser,
}

/// One of the two team slots of a fixture.
#[derive(Clone, Copy, Debug, PartialEq, Eq, Structural)]
pub enum FixtureInput {
    TeamA,
    TeamB,
}

/// Who plays in one slot of a fixture.
#[derive(Clone, Copy, Debug, PartialEq, Eq, Structural)]
pub enum FixtureTeam {
    /// The team is fixed, not based on the result of another fixture.
    Fixed(TeamId),
    /// The team is the winner or the loser of another fixture of the stage.
    Linked { fixture_id: FixtureId, outcome: Outcome },
}

/// A fixture is a match that might not yet have been played, used to describe an
/// elimination bracket. See also `Match`.
#[derive(Clone, Copy, Debug)]
pub struct Fixture {
    pub id: FixtureId,
    /// The position of this fixture on the bracket view.
    pub layout: (i32, i32),
    /// If this fixture has already been played, this links to the match results.
    pub match_id: Option<MatchId>,
    pub team_a: FixtureTeam,
    pub team_b: FixtureTeam,
}

/// A team, with its name as a sequence of characters.
pub struct TeamView {
    pub id: TeamId,
    pub name: Seq<char>,
}

pub enum StageKindView {
    RoundRobin,
    Bracket { fixtures: Seq<(FixtureId, Fixture)> },
}

pub struct StageView {
    pub id: StageId,
    pub tournament_id: TournamentId,
    pub name: Seq<char>,
    pub teams: Seq<(TeamId, TeamView)>,
    pub matches: Seq<(MatchId, Match)>,
    pub kind: StageKindView,
}

pub struct TournamentView {
    pub id: TournamentId,
    pub name: Seq<char>,
    pub stages: Seq<(StageId, StageView)>,
}

impl View for Team {
    type V = TeamView;

    open spec fn view(&self) -> TeamView {
        TeamView { id: self.id, name: self.name@ }
    }
}

/// The view of one team.
pub open spec fn team_view(t: Team) -> TeamView {
    t@
}

/// The view of one tournament.
pub open spec fn tournament_view(t: Tournament) -> TournamentView {
    t@
}

/// The view of one stage.
pub open spec fn stage_view(s: Stage) -> StageView {
    s@
}

impl View for StageKind {
    type V = StageKindView;

    open spec fn view(&self) -> StageKindView {
        match self {
            StageKind::RoundRobin {  } => StageKindView::RoundRobin,
            StageKind::Bracket { fixtures } => StageKindView::Bracket {
                fixtures: fixture_entries(*fixtures),
            },
        }
    }
}

impl View for Stage {
    type V = StageView;

    open spec fn view(&self) -> StageView {
        StageView {
            id: self.id,
            tournament_id: self.tournament_id,
            name: self.name@,
            teams: map_entries(team_entries(self.teams), |t: Team| team_view(t)),
            matches: match_entries(self.matches),
            kind: self.kind@,
        }
    }
}

impl View for Tournament {
    type V = TournamentView;

    open spec fn view(&self) -> TournamentView {
        TournamentView {
            id: self.id,
            name: self.name@,
            stages: map_entries(stage_entries(self.stages), |s: Stage| stage_view(s)),
        }
    }
}

impl Match {
    /// The team with the strictly higher score; none on a tie.
    pub open spec fn winner(self) -> Option<TeamId> {
        if self.team_a_score > self.team_b_score {
            Some(self.team_a)
        } else if self.team_a_score < self.team_b_score {
            Some(self.team_b)
        } else {
            None
        }
    }

    /// The team with the strictly lower score; none on a tie.
    pub open spec fn loser(self) -> Option<TeamId> {
        if self.team_a_score > self.team_b_score {
            Some(self.team_b)
        } else if self.team_a_score < self.team_b_score {
            Some(self.team_a)
        } else {
            None
        }
    }

    pub open spec fn involves(self, t: TeamId) -> bool {
        self.team_a == t || self.team_b == t
    }

    /// Whether this match was played between `a` and `b`, in either order.
    pub fn is_between(&self, a: TeamId, b: TeamId) -> (r: bool)
        ensures
            r == ((self.team_a == a && self.team_b == b) || (self.team_a == b && self.team_b == a)),
    {
        (self.team_a == a && self.team_b == b) || (self.team_a == b && self.team_b == a)
    }

    /// Whether `t` played in this match.
    pub fn contains(&self, t: TeamId) -> (r: bool)
        ensures
            r == self.involves(t),
    {
        self.team_a == t || self.team_b == t
    }

    /// Whether `t` did not play in this match.
    pub fn omits(&self, t: TeamId) -> (r: bool)
        ensures
            r == !self.involves(t),
    {
        self.team_a != t && self.team_b != t
    }

    pub fn get_winner(&self) -> (r: Option<TeamId>)
        ensures
            r == self.winner(),
    {
        if self.team_a_score > self.team_b_score {
            Some(self.team_a)
        } else if self.team_a_score < self.team_b_score {
            Some(self.team_b)
        } else {
            None
        }
    }

    pub fn get_loser(&self) -> (r: Option<TeamId>)
        ensures
            r == self.loser(),
    {
        if self.team_a_score > self.team_b_score {
            Some(self.team_b)
        } else if self.team_a_score < self.team_b_score {
            Some(self.team_a)
        } else {
            None
        }
    }
}

impl Team {
    pub fn new(id: TeamId, name: String) -> (r: Team)
        ensures
            r.id == id,
            r.name == name,
    {
        Team { id, name }
    }

    /// A copy of this team.
    pub fn duplicate(&self) -> (r: Team)
        ensures
            r@ == self@,
    {
        Team { id: self.id, name: self.name.clone() }
    }
}

impl Tournament {
    pub fn new(id: TournamentId, name: String) -> (r: Tournament)
        ensures
            r@ == (TournamentView { id, name: name@, stages: Seq::empty() }),
    {
        let stages = stages_new();
        let r = Tournament { id, name, stages };
        assert(r@.stages =~= Seq::empty());
        r
    }
}

/// A slot fixed to a team names a team of stage `s`; a linked slot always passes.
pub open spec fn slot_in_stage(s: StageView, ft: FixtureTeam) -> bool {
    match ft {
        FixtureTeam::Fixed(t) => has_key(s.teams, t),
        FixtureTeam::Linked { .. } => true,
    }
}

/// What one slot of a fixture stands for, as far as the stage can tell.
#[derive(Clone, Copy, Debug, PartialEq, Eq, Structural)]
pub enum Resolution {
    /// A team of the stage.
    Team(TeamId),
    /// The outcome of a fixture of the stage that has no decided result yet.
    Pending,
    /// A team or a fixture that is not (or no longer) in the stage.
    Unresolved,
}

/// The id, wins and losses of every team of stage `s`, in the order of the teams.
pub open spec fn standings_of(s: StageView) -> Seq<(TeamId, usize, usize)> {
    Seq::new(
        s.teams.len(),
        |i: int|
            (
                s.teams[i].1.id,
                wins(s.matches, s.teams[i].1.id) as usize,
                losses(s.matches, s.teams[i].1.id) as usize,
            ),
    )
}

/// Record `a` ranks at least as high as record `b`: more wins, or as many wins
/// and at least as many losses.
pub open spec fn spec_ranks_at_least(a: (TeamId, usize, usize), b: (TeamId, usize, usize)) -> bool {
    a.1 > b.1 || (a.1 == b.1 && a.2 >= b.2)
}

/// The records are in ranking order, best first.
pub open spec fn ranked(s: Seq<(TeamId, usize, usize)>) -> bool {
    forall|a: int, b: int|
        0 <= a < b < s.len() ==> spec_ranks_at_least(#[trigger] s[a], #[trigger] s[b])
}

/// Whether record `a` ranks at least as high as record `b`.
pub fn ranks_at_least(a: (TeamId, usize, usize), b: (TeamId, usize, usize)) -> (r: bool)
    ensures
        r == spec_ranks_at_least(a, b),
{
    a.1 > b.1 || (a.1 == b.1 && a.2 >= b.2)
}

/// Inserting an element adds it to the multiset of the sequence.
proof fn lemma_insert_multiset<A>(s: Seq<A>, pos: int, x: A)
    requires
        0 <= pos <= s.len(),
    ensures
        s.insert(pos, x).to_multiset() == s.to_multiset().insert(x),
{
    broadcast use vstd::seq_lib::group_to_multiset_ensures;
    broadcast use vstd::multiset::group_multiset_axioms;

    let a = s.take(pos);
    let b = s.skip(pos);
    assert(s =~= a + b);
    assert(s.insert(pos, x) =~= a.push(x) + b);
    vstd::seq_lib::lemma_multiset_commutative(a.push(x), b);
    vstd::seq_lib::lemma_multiset_commutative(a, b);
    assert(s.insert(pos, x).to_multiset() =~= s.to_multiset().insert(x));
}

/// Number of matches in `ms` won by `t`.
pub open spec fn wins(ms: Seq<(MatchId, Match)>, t: TeamId) -> nat
    decreases ms.len(),
{
    if ms.len() == 0 {
        0
    } else {
        wins(ms.drop_last(), t) + if ms.last().1.winner() == Some(t) {
            1nat
        } else {
            0nat
        }
    }
}

/// Number of matches in `ms` lost by `t`.
pub open spec fn losses(ms: Seq<(MatchId, Match)>, t: TeamId) -> nat
    decreases ms.len(),
{
    if ms.len() == 0 {
        0
    } else {
        losses(ms.drop_last(), t) + if ms.last().1.loser() == Some(t) {
            1nat
        } else {
            0nat
        }
    }
}

/// The matches of `ms` that `team` did not play in, in their order.
pub open spec fn matches_without(ms: Seq<(MatchId, Match)>, team: TeamId) -> Seq<(MatchId, Match)> {
    ms.filter(|e: (MatchId, Match)| !e.1.involves(team))
}

/// The first match of `ms` played between `a` and `b`, in either order.
pub open spec fn first_between(ms: Seq<(MatchId, Match)>, a: TeamId, b: TeamId) -> Option<Match>
    decreases ms.len(),
{
    if ms.len() == 0 {
        None
    } else if (ms[0].1.team_a == a && ms[0].1.team_b == b) || (ms[0].1.team_a == b && ms[0].1.team_b
        == a) {
        Some(ms[0].1)
    } else {
        first_between(ms.drop_first(), a, b)
    }
}

/// How `team` fared against `other` in a stage: by the first match between them.
#[derive(Clone, Copy, Debug, PartialEq, Eq, Structural)]
pub enum HeadToHead {
    Won,
    Lost,
    Drawn,
    NotPlayed,
    /// A team does not play itself.
    SameTeam,
}

pub open spec fn head_to_head_of(ms: Seq<(MatchId, Match)>, team: TeamId, other: TeamId) -> HeadToHead {
    match first_between(ms, team, other) {
        Some(m) => if m.winner() == Some(team) {
            HeadToHead::Won
        } else if m.loser() == Some(team) {
            HeadToHead::Lost
        } else {
            HeadToHead::Drawn
        },
        None => if team == other {
            HeadToHead::SameTeam
        } else {
            HeadToHead::NotPlayed
        },
    }
}

/// The team that a match gives for an outcome.
pub open spec fn outcome_team(m: Match, outcome: Outcome) -> Option<TeamId> {
    match outcome {
        Outcome::Winner => m.winner(),
        Outcome::Loser => m.loser(),
    }
}

/// What a fixture slot stands for in stage `s`. A link to a fixture that is not in
/// the stage (for example one deleted since) is unresolved, never an error.
pub open spec fn resolution(s: StageView, ft: FixtureTeam) -> Resolution {
    match ft {
        FixtureTeam::Fixed(t) => if has_key(s.teams, t) {
            Resolution::Team(t)
        } else {
            Resolution::Unresolved
        },
        FixtureTeam::Linked { fixture_id, outcome } => match s.kind {
            StageKindView::Bracket { fixtures } => match lookup(fixtures, fixture_id) {
                Some(f) => match f.match_id {
                    Some(mid) => match lookup(s.matches, mid) {
                        Some(m) => match outcome_team(m, outcome) {
                            Some(t) => Resolution::Team(t),
                            None => Resolution::Pending,
                        },
                        None => Resolution::Pending,
                    },
                    None => Resolution::Pending,
                },
                None => Resolution::Unresolved,
            },
            StageKindView::RoundRobin => Resolution::Unresolved,
        },
    }
}

impl Stage {
    /// The wins and the losses of `team` over the matches of the stage.
    pub fn team_record(&self, team: TeamId) -> (r: (usize, usize))
        ensures
            r.0 == wins(self@.matches, team),
            r.1 == losses(self@.matches, team),
    {
        let n = matches_len(&self.matches);
        let mut w: usize = 0;
        let mut l: usize = 0;
        let mut i: usize = 0;
        while i < n
            invariant
                n == self@.matches.len(),
                0 <= i <= n,
                w == wins(self@.matches.take(i as int), team),
                l == losses(self@.matches.take(i as int), team),
                w <= i,
                l <= i,
            decreases n - i,
        {
            let m = match_at(&self.matches, i).unwrap();
            proof {
                assert(self@.matches.take(i + 1).drop_last() =~= self@.matches.take(i as int));
            }
            if m.get_winner() == Some(team) {
                w = w + 1;
            }
            if m.get_loser() == Some(team) {
                l = l + 1;
            }
            i = i + 1;
        }
        proof {
            assert(self@.matches.take(n as int) =~= self@.matches);
        }
        (w, l)
    }

    /// The id, the wins and the losses of every team of the stage, in the order of
    /// the teams.
    pub fn standings(&self) -> (r: Vec<(TeamId, usize, usize)>)
        ensures
            r@ == standings_of(self@),
    {
        let n = teams_len(&self.teams);
        let mut r: Vec<(TeamId, usize, usize)> = Vec::new();
        let mut i: usize = 0;
        while i < n
            invariant
                n == self@.teams.len(),
                0 <= i <= n,
                r@.len() == i,
                forall|j: int|
                    0 <= j < i ==> #[trigger] r@[j] == (
                        self@.teams[j].1.id,
                        wins(self@.matches, self@.teams[j].1.id) as usize,
                        losses(self@.matches, self@.teams[j].1.id) as usize,
                    ),
            decreases n - i,
        {
            let team = teams_get_index(&self.teams, i).unwrap();
            let (w, l) = self.team_record(team.id);
            r.push((team.id, w, l));
            i = i + 1;
        }
        proof {
            assert(r@ =~= standings_of(self@));
        }
        r
    }

    /// The standings, best first: more wins first, then more losses first.
    pub fn ranked_standings(&self) -> (r: Vec<(TeamId, usize, usize)>)
        ensures
            ranked(r@),
            r@.to_multiset() == standings_of(self@).to_multiset(),
    {
        let all = self.standings();
        let mut r: Vec<(TeamId, usize, usize)> = Vec::new();
        let mut i: usize = 0;
        proof {
            assert(all@.take(0) =~= Seq::<(TeamId, usize, usize)>::empty());
            broadcast use vstd::seq_lib::group_to_multiset_ensures;
            assert(r@.to_multiset() =~= all@.take(0).to_multiset());
        }
        while i < all.len()
            invariant
                0 <= i <= all@.len(),
                ranked(r@),
                r@.to_multiset() == all@.take(i as int).to_multiset(),
            decreases all@.len() - i,
        {
            let x = all[i];
            let mut pos: usize = 0;
            while pos < r.len() && !ranks_at_least(x, r[pos])
                invariant
                    0 <= pos <= r@.len(),
                    forall|k: int| 0 <= k < pos ==> !spec_ranks_at_least(x, #[trigger] r@[k]),
                decreases r@.len() - pos,
            {
                pos = pos + 1;
            }
            let ghost r0 = r@;
            r.insert(pos, x);
            proof {
                lemma_insert_multiset(r0, pos as int, x);
                assert(all@.take(i + 1) =~= all@.take(i as int).push(x));
                broadcast use vstd::seq_lib::group_to_multiset_ensures;
                assert forall|a: int, b: int| 0 <= a < b < r@.len() implies spec_ranks_at_least(
                    #[trigger] r@[a],
                    #[trigger] r@[b],
                ) by {
                    if b < pos {
                        assert(r@[a] == r0[a] && r@[b] == r0[b]);
                    } else if b == pos {
                        assert(r@[a] == r0[a]);
                    } else if a == pos {
                        assert(r@[b] == r0[b - 1]);
                        assert(spec_ranks_at_least(r0[pos as int], r0[b - 1]));
                    } else if a < pos {
                        assert(r@[a] == r0[a] && r@[b] == r0[b - 1]);
                    } else {
                        assert(r@[a] == r0[a - 1] && r@[b] == r0[b - 1]);
                    }
                }
            }
            i = i + 1;
        }
        proof {
            assert(all@.take(all@.len() as int) =~= all@);
        }
        r
    }

    /// Whether a slot fixed to a team names a team of this stage (a linked slot
    /// always does).
    pub fn has_slot_team(&self, ft: FixtureTeam) -> (r: bool)
        ensures
            r == slot_in_stage(self@, ft),
    {
        proof {
            lemma_keys_map(team_entries(self.teams), |t: Team| team_view(t));
        }
        match ft {
            FixtureTeam::Fixed(t) => teams_contains_key(&self.teams, t),
            FixtureTeam::Linked { .. } => true,
        }
    }

    /// What a fixture slot stands for in this stage.
    pub fn resolve(&self, ft: FixtureTeam) -> (r: Resolution)
        ensures
            r == resolution(self@, ft),
    {
        proof {
            lemma_keys_map(team_entries(self.teams), |t: Team| team_view(t));
        }
        match ft {
            FixtureTeam::Fixed(t) => if teams_contains_key(&self.teams, t) {
                Resolution::Team(t)
            } else {
                Resolution::Unresolved
            },
            FixtureTeam::Linked { fixture_id, outcome } => match &self.kind {
                StageKind::Bracket { fixtures } => match fixtures_get(fixtures, fixture_id) {
                    Some(f) => match f.match_id {
                        Some(mid) => match self.get_match(mid) {
                            Some(m) => {
                                let t = match outcome {
                                    Outcome::Winner => m.get_winner(),
                                    Outcome::Loser => m.get_loser(),
                                };
                                match t {
                                    Some(t) => Resolution::Team(t),
                                    None => Resolution::Pending,
                                }
                            },
                            None => Resolution::Pending,
                        },
                        None => Resolution::Pending,
                    },
                    None => Resolution::Unresolved,
                },
                StageKind::RoundRobin {  } => Resolution::Unresolved,
            },
        }
    }

    /// The first match of the stage between `a` and `b`, in either order.
    pub fn find_match_between(&self, a: TeamId, b: TeamId) -> (r: Option<Match>)
        ensures
            r == first_between(self@.matches, a, b),
    {
        let n = matches_len(&self.matches);
        let mut i: usize = 0;
        proof {
            assert(self@.matches.subrange(0, n as int) =~= self@.matches);
        }
        while i < n
            invariant
                n == self@.matches.len(),
                0 <= i <= n,
                first_between(self@.matches, a, b) == first_between(
                    self@.matches.subrange(i as int, n as int),
                    a,
                    b,
                ),
            decreases n - i,
        {
            let m = match_at(&self.matches, i).unwrap();
            proof {
                assert(self@.matches.subrange(i as int, n as int).drop_first() =~= self@.matches.subrange(
                    i + 1,
                    n as int,
                ));
            }
            if m.is_between(a, b) {
                return Some(m);
            }
            i = i + 1;
        }
        None
    }

    /// How `team` fared against `other`: by the first match between them.
    pub fn head_to_head(&self, team: TeamId, other: TeamId) -> (r: HeadToHead)
        ensures
            r == head_to_head_of(self@.matches, team, other),
    {
        match self.find_match_between(team, other) {
            Some(m) => if m.get_winner() == Some(team) {
                HeadToHead::Won
            } else if m.get_loser() == Some(team) {
                HeadToHead::Lost
            } else {
                HeadToHead::Drawn
            },
            None => if team == other {
                HeadToHead::SameTeam
            } else {
                HeadToHead::NotPlayed
            },
        }
    }

    /// The match stored under `id`.
    pub fn get_match(&self, id: MatchId) -> (r: Option<Match>)
        ensures
            r == lookup(self@.matches, id),
    {
        match matches_get_index_of(&self.matches, id) {
            Some(i) => {
                proof {
                    crate::entries::lemma_index_of(self@.matches, id);
                }
                match_at(&self.matches, i)
            },
            None => None,
        }
    }

    pub fn new_round_robin(id: StageId, tournament_id: TournamentId, name: String) -> (r: Stage)
        ensures
            r@ == (StageView {
                id,
                tournament_id,
                name: name@,
                teams: Seq::empty(),
                matches: Seq::empty(),
                kind: StageKindView::RoundRobin,
            }),
    {
        let teams = teams_new();
        let matches = matches_new();
        let r = Stage { id, tournament_id, name, teams, matches, kind: StageKind::RoundRobin {  } };
        assert(r@.teams =~= Seq::empty());
        r
    }

    pub fn new_bracket(id: StageId, tournament_id: TournamentId, name: String) -> (r: Stage)
        ensures
            r@ == (StageView {
                id,
                tournament_id,
                name: name@,
                teams: Seq::empty(),
                matches: Seq::empty(),
                kind: StageKindView::Bracket { fixtures: Seq::empty() },
            }),
    {
        let teams = teams_new();
        let matches = matches_new();
        let fixtures = fixtures_new();
        let r = Stage {
            id,
            tournament_id,
            name,
            teams,
            matches,
            kind: StageKind::Bracket { fixtures },
        };
        assert(r@.teams =~= Seq::empty());
        r
    }
}

} // verus!
