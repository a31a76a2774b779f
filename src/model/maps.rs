//! The insertion-ordered maps of the model, kept in `indexmap::IndexMap`.
//!
//! What a map holds is named by a spec function per value type: the sequence of
//! its entries in order. Each wrapper below states what one `IndexMap` method
//! does to that sequence.
use vstd::prelude::*;
use indexmap::IndexMap;

use crate::entries::{has_key, index_of, lookup, moved, with_entry, without_key};
use crate::model::tournament::{
    Fixture, FixtureId, Match, MatchId, Stage, StageId, Team, TeamId, Tournament, TournamentId,
    matches_without,
};

verus! {

#[verifier::external_type_specification]
#[verifier::external_body]
#[verifier::reject_recursive_types(K)]
#[verifier::reject_recursive_types(V)]
#[verifier::reject_recursive_types(S)]
pub struct ExIndexMap<K, V, S>(IndexMap<K, V, S>);

/// The entries of a map of tournaments, in order.
pub uninterp spec fn tournament_entries(m: IndexMap<TournamentId, Tournament>) -> Seq<(TournamentId, Tournament)>;

/// Relies on `IndexMap::new`: the map starts empty.
#[verifier::external_body]
pub(crate) fn tournaments_new() -> (r: IndexMap<TournamentId, Tournament>)
    ensures
        tournament_entries(r) == Seq::<(TournamentId, Tournament)>::empty(),
{
    IndexMap::new()
}

/// Relies on `IndexMap::insert`: an existing key keeps its place and gets the new
/// value, and the old value is returned; a new key goes last.
#[verifier::external_body]
pub(crate) fn tournaments_insert(m: &mut IndexMap<TournamentId, Tournament>, k: TournamentId, v: Tournament) -> (r: Option<Tournament>)
    ensures
        tournament_entries(*final(m)) == with_entry(tournament_entries(*old(m)), k, v),
        r == lookup(tournament_entries(*old(m)), k),
{
    m.insert(k, v)
}

/// Relies on `IndexMap::shift_remove`: the entry of `k` is removed and returned,
/// the others keep their order.
#[verifier::external_body]
pub(crate) fn tournaments_shift_remove(m: &mut IndexMap<TournamentId, Tournament>, k: TournamentId) -> (r: Option<Tournament>)
    ensures
        tournament_entries(*final(m)) == without_key(tournament_entries(*old(m)), k),
        r == lookup(tournament_entries(*old(m)), k),
{
    m.shift_remove(&k)
}

/// Relies on `IndexMap::get`: the value stored under `k`.
#[verifier::external_body]
pub(crate) fn tournaments_get(m: &IndexMap<TournamentId, Tournament>, k: TournamentId) -> (r: Option<&Tournament>)
    ensures
        match r {
            Some(v) => lookup(tournament_entries(*m), k) == Some(*v),
            None => lookup(tournament_entries(*m), k) is None,
        },
{
    m.get(&k)
}

/// Relies on `IndexMap::get_mut`: a mutable reference to the value stored under
/// `k`, which stays in its place.
#[verifier::external_body]
pub(crate) fn tournaments_get_mut(m: &mut IndexMap<TournamentId, Tournament>, k: TournamentId) -> (r: Option<&mut Tournament>)
    ensures
        match r {
            Some(v) => has_key(tournament_entries(*old(m)), k) && *v == tournament_entries(*old(m))[index_of(
                tournament_entries(*old(m)),
                k,
            )].1 && tournament_entries(*final(m)) == tournament_entries(*old(m)).update(
                index_of(tournament_entries(*old(m)), k),
                (k, *final(v)),
            ),
            None => !has_key(tournament_entries(*old(m)), k) && *final(m) == *old(m),
        },
{
    m.get_mut(&k)
}

/// The entries of a map of stages, in order.
pub uninterp spec fn stage_entries(m: IndexMap<StageId, Stage>) -> Seq<(StageId, Stage)>;

/// Relies on `IndexMap::new`: the map starts empty.
#[verifier::external_body]
pub(crate) fn stages_new() -> (r: IndexMap<StageId, Stage>)
    ensures
        stage_entries(r) == Seq::<(StageId, Stage)>::empty(),
{
    IndexMap::new()
}

/// Relies on `IndexMap::insert`: an existing key keeps its place and gets the new
/// value, and the old value is returned; a new key goes last.
#[verifier::external_body]
pub(crate) fn stages_insert(m: &mut IndexMap<StageId, Stage>, k: StageId, v: Stage) -> (r: Option<Stage>)
    ensures
        stage_entries(*final(m)) == with_entry(stage_entries(*old(m)), k, v),
        r == lookup(stage_entries(*old(m)), k),
{
    m.insert(k, v)
}

/// Relies on `IndexMap::shift_remove`: the entry of `k` is removed and returned,
/// the others keep their order.
#[verifier::external_body]
pub(crate) fn stages_shift_remove(m: &mut IndexMap<StageId, Stage>, k: StageId) -> (r: Option<Stage>)
    ensures
        stage_entries(*final(m)) == without_key(stage_entries(*old(m)), k),
        r == lookup(stage_entries(*old(m)), k),
{
    m.shift_remove(&k)
}

/// Relies on `IndexMap::get`: the value stored under `k`.
#[verifier::external_body]
pub(crate) fn stages_get(m: &IndexMap<StageId, Stage>, k: StageId) -> (r: Option<&Stage>)
    ensures
        match r {
            Some(v) => lookup(stage_entries(*m), k) == Some(*v),
            None => lookup(stage_entries(*m), k) is None,
        },
{
    m.get(&k)
}

/// Relies on `IndexMap::get_mut`: a mutable reference to the value stored under
/// `k`, which stays in its place.
#[verifier::external_body]
pub(crate) fn stages_get_mut(m: &mut IndexMap<StageId, Stage>, k: StageId) -> (r: Option<&mut Stage>)
    ensures
        match r {
            Some(v) => has_key(stage_entries(*old(m)), k) && *v == stage_entries(*old(m))[index_of(
                stage_entries(*old(m)),
                k,
            )].1 && stage_entries(*final(m)) == stage_entries(*old(m)).update(
                index_of(stage_entries(*old(m)), k),
                (k, *final(v)),
            ),
            None => !has_key(stage_entries(*old(m)), k) && *final(m) == *old(m),
        },
{
    m.get_mut(&k)
}

/// The entries of a map of teams, in order.
pub uninterp spec fn team_entries(m: IndexMap<TeamId, Team>) -> Seq<(TeamId, Team)>;

/// Relies on `IndexMap::new`: the map starts empty.
#[verifier::external_body]
pub(crate) fn teams_new() -> (r: IndexMap<TeamId, Team>)
    ensures
        team_entries(r) == Seq::<(TeamId, Team)>::empty(),
{
    IndexMap::new()
}

/// Relies on `IndexMap::insert`: an existing key keeps its place and gets the new
/// value, and the old value is returned; a new key goes last.
#[verifier::external_body]
pub(crate) fn teams_insert(m: &mut IndexMap<TeamId, Team>, k: TeamId, v: Team) -> (r: Option<Team>)
    ensures
        team_entries(*final(m)) == with_entry(team_entries(*old(m)), k, v),
        r == lookup(team_entries(*old(m)), k),
{
    m.insert(k, v)
}

/// Relies on `IndexMap::shift_remove`: the entry of `k` is removed and returned,
/// the others keep their order.
#[verifier::external_body]
pub(crate) fn teams_shift_remove(m: &mut IndexMap<TeamId, Team>, k: TeamId) -> (r: Option<Team>)
    ensures
        team_entries(*final(m)) == without_key(team_entries(*old(m)), k),
        r == lookup(team_entries(*old(m)), k),
{
    m.shift_remove(&k)
}

/// Relies on `IndexMap::contains_key`.
#[verifier::external_body]
pub(crate) fn teams_contains_key(m: &IndexMap<TeamId, Team>, k: TeamId) -> (r: bool)
    ensures
        r == has_key(team_entries(*m), k),
{
    m.contains_key(&k)
}

/// Relies on `IndexMap::len`: the number of entries.
#[verifier::external_body]
pub(crate) fn teams_len(m: &IndexMap<TeamId, Team>) -> (r: usize)
    ensures
        r == team_entries(*m).len(),
{
    m.len()
}

/// Relies on `IndexMap::get_index`: the value of the entry at position `i`.
#[verifier::external_body]
pub(crate) fn teams_get_index(m: &IndexMap<TeamId, Team>, i: usize) -> (r: Option<&Team>)
    ensures
        match r {
            Some(v) => i < team_entries(*m).len() && *v == team_entries(*m)[i as int].1,
            None => i >= team_entries(*m).len(),
        },
{
    m.get_index(i).map(|(_, v)| v)
}

/// The entries of a map of matches, in order.
pub uninterp spec fn match_entries(m: IndexMap<MatchId, Match>) -> Seq<(MatchId, Match)>;

/// Relies on `IndexMap::new`: the map starts empty.
#[verifier::external_body]
pub(crate) fn matches_new() -> (r: IndexMap<MatchId, Match>)
    ensures
        match_entries(r) == Seq::<(MatchId, Match)>::empty(),
{
    IndexMap::new()
}

/// Relies on `IndexMap::insert`: an existing key keeps its place and gets the new
/// value, and the old value is returned; a new key goes last.
#[verifier::external_body]
pub(crate) fn matches_insert(m: &mut IndexMap<MatchId, Match>, k: MatchId, v: Match) -> (r: Option<Match>)
    ensures
        match_entries(*final(m)) == with_entry(match_entries(*old(m)), k, v),
        r == lookup(match_entries(*old(m)), k),
{
    m.insert(k, v)
}

/// Relies on `IndexMap::shift_remove`: the entry of `k` is removed and returned,
/// the others keep their order.
#[verifier::external_body]
pub(crate) fn matches_shift_remove(m: &mut IndexMap<MatchId, Match>, k: MatchId) -> (r: Option<Match>)
    ensures
        match_entries(*final(m)) == without_key(match_entries(*old(m)), k),
        r == lookup(match_entries(*old(m)), k),
{
    m.shift_remove(&k)
}

/// Relies on `IndexMap::get_index_of`: the position of `k`.
#[verifier::external_body]
pub(crate) fn matches_get_index_of(m: &IndexMap<MatchId, Match>, k: MatchId) -> (r: Option<usize>)
    ensures
        match r {
            Some(i) => has_key(match_entries(*m), k) && i as int == index_of(match_entries(*m), k),
            None => !has_key(match_entries(*m), k),
        },
{
    m.get_index_of(&k)
}

/// Relies on `IndexMap::move_index`: the entry at `from` moves to `to`, the entries
/// in between shift by one. It panics on a position out of bounds.
#[verifier::external_body]
pub(crate) fn matches_move_index(m: &mut IndexMap<MatchId, Match>, from: usize, to: usize)
    requires
        from < match_entries(*old(m)).len(),
        to < match_entries(*old(m)).len(),
    ensures
        match_entries(*final(m)) == moved(match_entries(*old(m)), from as int, to as int),
{
    m.move_index(from, to)
}

/// Relies on `IndexMap::len`: the number of entries.
#[verifier::external_body]
pub(crate) fn matches_len(m: &IndexMap<MatchId, Match>) -> (r: usize)
    ensures
        r == match_entries(*m).len(),
{
    m.len()
}

/// Relies on `IndexMap::get_index`: the value of the entry at position `i`.
#[verifier::external_body]
pub(crate) fn matches_get_index(m: &IndexMap<MatchId, Match>, i: usize) -> (r: Option<Match>)
    ensures
        i < match_entries(*m).len() ==> r == Some(match_entries(*m)[i as int].1),
        i >= match_entries(*m).len() ==> r is None,
{
    m.get_index(i).map(|(_, v)| *v)
}

/// Relies on `IndexMap::retain`: the entries whose match does not involve `t`
/// stay, in their order; the others are removed.
#[verifier::external_body]
pub(crate) fn matches_retain_without(m: &mut IndexMap<MatchId, Match>, t: TeamId)
    ensures
        match_entries(*final(m)) == matches_without(match_entries(*old(m)), t),
{
    m.retain(|_, x| x.omits(t))
}

/// The entries of a map of fixtures, in order.
pub uninterp spec fn fixture_entries(m: IndexMap<FixtureId, Fixture>) -> Seq<(FixtureId, Fixture)>;

/// Relies on `IndexMap::new`: the map starts empty.
#[verifier::external_body]
pub(crate) fn fixtures_new() -> (r: IndexMap<FixtureId, Fixture>)
    ensures
        fixture_entries(r) == Seq::<(FixtureId, Fixture)>::empty(),
{
    IndexMap::new()
}

/// Relies on `IndexMap::insert`: an existing key keeps its place and gets the new
/// value, and the old value is returned; a new key goes last.
#[verifier::external_body]
pub(crate) fn fixtures_insert(m: &mut IndexMap<FixtureId, Fixture>, k: FixtureId, v: Fixture) -> (r: Option<Fixture>)
    ensures
        fixture_entries(*final(m)) == with_entry(fixture_entries(*old(m)), k, v),
        r == lookup(fixture_entries(*old(m)), k),
{
    m.insert(k, v)
}

/// Relies on `IndexMap::shift_remove`: the entry of `k` is removed and returned,
/// the others keep their order.
#[verifier::external_body]
pub(crate) fn fixtures_shift_remove(m: &mut IndexMap<FixtureId, Fixture>, k: FixtureId) -> (r: Option<Fixture>)
    ensures
        fixture_entries(*final(m)) == without_key(fixture_entries(*old(m)), k),
        r == lookup(fixture_entries(*old(m)), k),
{
    m.shift_remove(&k)
}

/// Relies on `IndexMap::get`: the value stored under `k`.
#[verifier::external_body]
pub(crate) fn fixtures_get(m: &IndexMap<FixtureId, Fixture>, k: FixtureId) -> (r: Option<&Fixture>)
    ensures
        match r {
            Some(v) => lookup(fixture_entries(*m), k) == Some(*v),
            None => lookup(fixture_entries(*m), k) is None,
        },
{
    m.get(&k)
}

/// Relies on `IndexMap::get_mut`: a mutable reference to the value stored under
/// `k`, which stays in its place.
#[verifier::external_body]
pub(crate) fn fixtures_get_mut(m: &mut IndexMap<FixtureId, Fixture>, k: FixtureId) -> (r: Option<&mut Fixture>)
    ensures
        match r {
            Some(v) => has_key(fixture_entries(*old(m)), k) && *v == fixture_entries(*old(m))[index_of(
                fixture_entries(*old(m)),
                k,
            )].1 && fixture_entries(*final(m)) == fixture_entries(*old(m)).update(
                index_of(fixture_entries(*old(m)), k),
                (k, *final(v)),
            ),
            None => !has_key(fixture_entries(*old(m)), k) && *final(m) == *old(m),
        },
{
    m.get_mut(&k)
}

} // verus!
