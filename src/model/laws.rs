//! Properties that hold of every use of the model, stated over the spec
//! functions in which its operations are described.
use vstd::prelude::*;

use crate::entries::{
    has_key, index_of, keys_of, lookup, moved, unique_keys, with_entry, without_key, lemma_index_of,
};
use crate::model::{
    ModelView, clamped, id_in_use, lemma_lookup_valid, lemma_valid_below, stage_of, stage_uses, tournament_uses, well_formed,
};
use crate::model::tournament::{
    Match, MatchId, StageId, TeamId, TournamentId, TournamentView, matches_without,
};

verus! {

/// The counter of a run of states never goes down.
proof fn lemma_counter_grows(states: Seq<ModelView>, i: int, j: int)
    requires
        0 <= i <= j < states.len(),
        forall|k: int| 0 <= k < states.len() - 1 ==> #[trigger] states[k + 1].next_id >= states[k].next_id,
    ensures
        states[j].next_id >= states[i].next_id,
    decreases j - i,
{
    if i < j {
        lemma_counter_grows(states, i, j - 1);
        assert(states[(j - 1) + 1].next_id >= states[j - 1].next_id);
    }
}

/// Ids never repeat. In a run of operations on a model, `states[k]` is the model
/// before operation `k` and `states[k + 1]` after it, and `ids[k]` is the id that
/// operation `k` created, if any. Every operation keeps or raises the counter, and
/// one that creates a record takes the counter as its id and raises it by one (so
/// say the contracts of `Model`). Then no two created records share an id.
pub proof fn created_ids_differ(states: Seq<ModelView>, ids: Seq<Option<usize>>)
    requires
        states.len() == ids.len() + 1,
        forall|k: int| 0 <= k < ids.len() ==> #[trigger] states[k + 1].next_id >= states[k].next_id,
        forall|k: int|
            0 <= k < ids.len() && #[trigger] ids[k] is Some ==> ids[k]->Some_0 == states[k].next_id
                && states[k + 1].next_id == states[k].next_id + 1,
    ensures
        forall|a: int, b: int|
            0 <= a < b < ids.len() && #[trigger] ids[a] is Some && #[trigger] ids[b] is Some
                ==> ids[a] != ids[b],
{
    assert forall|a: int, b: int|
        0 <= a < b < ids.len() && #[trigger] ids[a] is Some && #[trigger] ids[b] is Some implies ids[a]
        != ids[b] by {
        assert forall|k: int| 0 <= k < states.len() - 1 implies #[trigger] states[k + 1].next_id
            >= states[k].next_id by {}
        lemma_counter_grows(states, a + 1, b);
    }
}

/// The id a new record gets is used by no record of the model, of any kind. This
/// holds of every well-formed model: `Model::new` and `Model::restore` give such
/// models, and every operation keeps them so.
pub proof fn next_id_is_unused(m: ModelView)
    requires
        well_formed(m),
        m.next_id <= usize::MAX,
    ensures
        !id_in_use(m, m.next_id as usize),
{
    lemma_valid_below(m.tournaments, m.next_id);
    let id = m.next_id as usize;
    if id_in_use(m, id) {
        let i = choose|i: int|
            0 <= i < m.tournaments.len() && (m.tournaments[i].0 == id || #[trigger] tournament_uses(
                m.tournaments[i].1,
                id,
            ));
        assert(m.tournaments[i].0 < m.next_id);
        if tournament_uses(m.tournaments[i].1, id) {
            let t = m.tournaments[i].1;
            let j = choose|j: int|
                0 <= j < t.stages.len() && (t.stages[j].0 == id || #[trigger] stage_uses(
                    t.stages[j].1,
                    id,
                ));
            assert(t.stages[j].0 < m.next_id);
            let s = t.stages[j].1;
            if has_key(s.teams, id) {
                lemma_index_of(s.teams, id);
                assert(s.teams[index_of(s.teams, id)].0 < m.next_id);
            }
            if has_key(s.matches, id) {
                lemma_index_of(s.matches, id);
                assert(s.matches[index_of(s.matches, id)].0 < m.next_id);
            }
            if let crate::model::tournament::StageKindView::Bracket { fixtures } = s.kind {
                if has_key(fixtures, id) {
                    lemma_index_of(fixtures, id);
                    assert(fixtures[index_of(fixtures, id)].0 < m.next_id);
                }
            }
        }
    }
}

/// Deleting a team removes exactly the matches it played in: no match left
/// involves the team, every match that did not involve it is left, and nothing
/// else is.
pub proof fn cascade_removes_exactly(matches: Seq<(MatchId, Match)>, team: TeamId)
    ensures
        forall|i: int|
            0 <= i < matches_without(matches, team).len() ==> !(#[trigger] matches_without(
                matches,
                team,
            )[i]).1.involves(team),
        forall|e: (MatchId, Match)|
            matches.contains(e) && !e.1.involves(team) ==> #[trigger] matches_without(
                matches,
                team,
            ).contains(e),
        forall|e: (MatchId, Match)|
            #[trigger] matches_without(matches, team).contains(e) ==> matches.contains(e),
{
    let p = |e: (MatchId, Match)| !e.1.involves(team);
    broadcast use vstd::seq_lib::group_filter_ensures;

    assert forall|e: (MatchId, Match)| matches.contains(e) && !e.1.involves(team) implies #[trigger] matches_without(
        matches,
        team,
    ).contains(e) by {
        let i = choose|i: int| 0 <= i < matches.len() && matches[i] == e;
        matches.lemma_filter_contains(p, i);
    }
    assert forall|e: (MatchId, Match)| #[trigger] matches_without(matches, team).contains(e) implies matches.contains(
        e,
    ) by {
        matches.lemma_filter_contains_rev(p, e);
    }
}

/// Moving one entry keeps the relative order of all the others: taking the moved
/// entry out again gives the list without it. Moving an entry to its own
/// position changes nothing.
pub proof fn move_keeps_order<A>(s: Seq<A>, from: int, to: int)
    requires
        0 <= from < s.len(),
        0 <= to < s.len(),
    ensures
        moved(s, from, to).remove(to) == s.remove(from),
        moved(s, from, to)[to] == s[from],
        moved(s, from, from) == s,
{
    assert(moved(s, from, to).remove(to) =~= s.remove(from));
    assert(moved(s, from, from) =~= s);
}

/// Deleting a tournament of a well-formed model removes it with everything in it:
/// nothing is found under its key any more.
pub proof fn deleted_tournament_is_gone(m: ModelView, tid: TournamentId)
    requires
        well_formed(m),
    ensures
        lookup(without_key(m.tournaments, tid), tid) is None,
{
    deleted_entry_is_gone(m.tournaments, tid);
}

/// Deleting a stage of a well-formed model removes it with everything in it: the
/// stage is no longer found in its tournament.
pub proof fn deleted_stage_is_gone(m: ModelView, tid: TournamentId, sid: StageId)
    requires
        well_formed(m),
        stage_of(m, tid, sid) is Some,
    ensures
        ({
            let t = lookup(m.tournaments, tid)->Some_0;
            let after = ModelView {
                tournaments: with_entry(
                    m.tournaments,
                    tid,
                    TournamentView { stages: without_key(t.stages, sid), ..t },
                ),
                ..m
            };
            stage_of(after, tid, sid) is None
        }),
{
    lemma_lookup_valid(m.tournaments, tid, m.next_id);
    let t = lookup(m.tournaments, tid)->Some_0;
    let t2 = TournamentView { stages: without_key(t.stages, sid), ..t };
    lemma_index_of(m.tournaments, tid);
    let ts2 = m.tournaments.update(index_of(m.tournaments, tid), (tid, t2));
    assert(keys_of(ts2) =~= keys_of(m.tournaments));
    deleted_entry_is_gone(t.stages, sid);
}

/// A match that is added scores as recorded: its winner is the team with the
/// strictly higher score and its loser the other one, with none on a tie.
pub proof fn added_match_outcome(
    id: MatchId,
    team_a: TeamId,
    team_b: TeamId,
    team_a_score: u32,
    team_b_score: u32,
)
    ensures
        ({
            let m = Match { id, team_a, team_b, team_a_score, team_b_score };
            &&& m.winner() == if team_a_score > team_b_score {
                Some(team_a)
            } else if team_b_score > team_a_score {
                Some(team_b)
            } else {
                None
            }
            &&& m.loser() == if team_a_score > team_b_score {
                Some(team_b)
            } else if team_b_score > team_a_score {
                Some(team_a)
            } else {
                None
            }
        }),
{
}

/// The position a match is moved to lies in the list, and is the one asked for
/// whenever that lies in the list.
pub proof fn clamped_position_in_list(new_index: usize, len: int)
    requires
        len >= 1,
    ensures
        0 <= clamped(new_index as int, len) < len,
        new_index < len ==> clamped(new_index as int, len) == new_index,
{
}

/// A deleted entry is gone: after the removal of a key from entries with unique
/// keys, nothing is found under it.
pub proof fn deleted_entry_is_gone<V>(s: Seq<(usize, V)>, k: usize)
    requires
        unique_keys(s),
    ensures
        lookup(without_key(s, k), k) is None,
        without_key(s, k).len() == if has_key(s, k) {
            s.len() - 1
        } else {
            s.len() as int
        },
{
    if has_key(s, k) {
        lemma_index_of(s, k);
        let i = index_of(s, k);
        let r = s.remove(i);
        if has_key(r, k) {
            let j = index_of(r, k);
            lemma_index_of(r, k);
            let jj = if j < i {
                j
            } else {
                j + 1
            };
            assert(crate::entries::keys_of(s)[jj] == crate::entries::keys_of(s)[i]);
        }
    }
}

} // verus!
