//! The data model: all tournaments, and the only way to change them.
//!
//! Every change goes through a method of `Model`, which records the tournament
//! that changed; `process_updates` hands those records out once per batch.
use vstd::prelude::*;
use indexmap::IndexMap;

use crate::entries::{
    has_key, index_of, lookup, map_entries, moved, with_entry, without_key, lemma_index_of,
    lemma_keys_map, lemma_map_update, lemma_map_with_entry, lemma_map_without_key,
    lemma_lookup_map, lemma_update_same, lemma_map_update_all, keys_below, unique_keys,
};
use crate::model::maps::{
    fixture_entries, fixtures_get_mut, fixtures_insert, fixtures_shift_remove, match_entries,
    matches_get_index_of, matches_insert, matches_len, matches_move_index, matches_retain_without,
    matches_shift_remove, stage_entries, stages_get, stages_get_mut, stages_insert,
    stages_shift_remove, team_entries, teams_contains_key, teams_insert, teams_shift_remove,
    tournament_entries, tournaments_get, tournaments_get_mut, tournaments_insert, tournaments_new,
    tournaments_shift_remove,
};
use crate::model::stored::{
    LoadError, StoredModel, StoredTournament, build_tournaments, stage_valid,
    stored_tournament_view, tournament_valid, tournaments_valid,
};
use crate::model::tournament::{
    Fixture, FixtureId, FixtureInput, FixtureTeam, Match, MatchId, Stage, StageId, StageKind,
    StageKindView, StageView, Team, TeamId, TeamView, Tournament, TournamentId, TournamentView,
    stage_view, team_view, tournament_view, matches_without, slot_in_stage,
};

pub mod laws;
pub mod maps;
pub mod stored;
pub mod v1;
pub mod v2;
pub mod tournament;

verus! {

/// The data model, holding all the tournaments, stages, teams, etc.
/// The records are readable by anyone, but only through shared references: every
/// change is made by a method of the model, so that it can be tracked.
pub struct Model {
    tournaments: IndexMap<TournamentId, Tournament>,
    next_id: usize,
    changed_tournaments: Vec<TournamentId>,
}

/// The model as mathematical data.
pub struct ModelView {
    pub tournaments: Seq<(TournamentId, TournamentView)>,
    pub next_id: nat,
    pub changed: Seq<TournamentId>,
}

impl View for Model {
    type V = ModelView;

    closed spec fn view(&self) -> ModelView {
        ModelView {
            tournaments: map_entries(
                tournament_entries(self.tournaments),
                |t: Tournament| tournament_view(t),
            ),
            next_id: self.next_id as nat,
            changed: self.changed_tournaments@,
        }
    }
}

/// What the caller of `process_updates` must do after a batch of changes.
pub struct Updates {
    /// The tournaments to announce as changed, in the order the changes were made.
    pub changed: Vec<TournamentId>,
    /// Whether the model must be written to storage (once, after the announcements).
    pub save: bool,
}

/// The format in which a model was stored.
#[derive(Clone, Copy, Debug, PartialEq, Eq, Structural)]
pub enum StoredVersion {
    /// The current format.
    Current,
    /// The second format.
    Second,
    /// The first format, which carried no version marker.
    First,
}

/// The format named by a stored version marker: "3" is the current one, "2" the
/// second, and anything else, or no marker, the first.
pub open spec fn version_of(marker: Option<Seq<char>>) -> StoredVersion {
    match marker {
        Some(m) => if m == seq!['3'] {
            StoredVersion::Current
        } else if m == seq!['2'] {
            StoredVersion::Second
        } else {
            StoredVersion::First
        },
        None => StoredVersion::First,
    }
}

/// The stage `sid` of tournament `tid`, if both exist.
pub open spec fn stage_of(m: ModelView, tid: TournamentId, sid: StageId) -> Option<StageView> {
    match lookup(m.tournaments, tid) {
        Some(t) => lookup(t.stages, sid),
        None => None,
    }
}

/// The fixtures of a stage, if it is a bracket stage.
pub open spec fn fixtures_of(s: StageView) -> Option<Seq<(FixtureId, Fixture)>> {
    match s.kind {
        StageKindView::Bracket { fixtures } => Some(fixtures),
        StageKindView::RoundRobin => None,
    }
}

/// The tournaments with the stage `sid` of tournament `tid` replaced by `s`.
pub open spec fn with_stage(
    ts: Seq<(TournamentId, TournamentView)>,
    tid: TournamentId,
    sid: StageId,
    s: StageView,
) -> Seq<(TournamentId, TournamentView)> {
    let t = lookup(ts, tid)->Some_0;
    with_entry(ts, tid, TournamentView { stages: with_entry(t.stages, sid, s), ..t })
}

/// A stage with its fixtures replaced.
pub open spec fn with_fixtures(s: StageView, fixtures: Seq<(FixtureId, Fixture)>) -> StageView {
    StageView { kind: StageKindView::Bracket { fixtures }, ..s }
}

/// The fixtures of stage `sid` of tournament `tid`, if it exists and is a bracket stage.
pub open spec fn fixtures_in(m: ModelView, tid: TournamentId, sid: StageId) -> Option<
    Seq<(FixtureId, Fixture)>,
> {
    match stage_of(m, tid, sid) {
        Some(s) => fixtures_of(s),
        None => None,
    }
}

/// The tournaments with the fixtures of stage `sid` of tournament `tid` replaced.
pub open spec fn with_fixtures_in(
    m: ModelView,
    tid: TournamentId,
    sid: StageId,
    fixtures: Seq<(FixtureId, Fixture)>,
) -> Seq<(TournamentId, TournamentView)> {
    with_stage(m.tournaments, tid, sid, with_fixtures(stage_of(m, tid, sid)->Some_0, fixtures))
}

/// The tournaments with the matches of stage `sid` of tournament `tid` replaced.
pub open spec fn with_matches(
    m: ModelView,
    tid: TournamentId,
    sid: StageId,
    matches: Seq<(MatchId, Match)>,
) -> Seq<(TournamentId, TournamentView)> {
    with_stage(m.tournaments, tid, sid, StageView { matches, ..stage_of(m, tid, sid)->Some_0 })
}

/// A fixture with one of its inputs replaced.
pub open spec fn with_input(f: Fixture, input: FixtureInput, team: FixtureTeam) -> Fixture {
    match input {
        FixtureInput::TeamA => Fixture { team_a: team, ..f },
        FixtureInput::TeamB => Fixture { team_b: team, ..f },
    }
}

/// The position a match is moved to: `new_index`, held within the list of `len` matches.
pub open spec fn clamped(new_index: int, len: int) -> int {
    if new_index < len - 1 {
        new_index
    } else {
        len - 1
    }
}

/// The model after a failed change that took an id.
pub open spec fn id_taken(m: ModelView) -> ModelView {
    ModelView { next_id: m.next_id + 1, ..m }
}

/// The model after a change of tournament `tid` that leaves `ts` as the tournaments.
pub open spec fn changed_to(
    m: ModelView,
    ts: Seq<(TournamentId, TournamentView)>,
    tid: TournamentId,
) -> ModelView {
    ModelView { tournaments: ts, changed: m.changed.push(tid), ..m }
}

/// The stage found in the view is the view of the stage found in the maps.
proof fn lemma_stage_of(ts: Seq<(TournamentId, Tournament)>, tid: TournamentId, sid: StageId)
    ensures
        stage_of(
            ModelView {
                tournaments: map_entries(ts, |t: Tournament| tournament_view(t)),
                next_id: 0,
                changed: Seq::empty(),
            },
            tid,
            sid,
        ) == (match lookup(ts, tid) {
            Some(t) => match lookup(stage_entries(t.stages), sid) {
                Some(s) => Some(s@),
                None => None,
            },
            None => None,
        }),
{
    lemma_lookup_map(ts, tid, |t: Tournament| tournament_view(t));
    if has_key(ts, tid) {
        let t = ts[index_of(ts, tid)].1;
        lemma_lookup_map(stage_entries(t.stages), sid, |s: Stage| stage_view(s));
    }
}

/// Every key of the stage's maps is below `n`.
pub open spec fn stage_ids_below(s: StageView, n: nat) -> bool {
    &&& keys_below(s.teams, n)
    &&& keys_below(s.matches, n)
    &&& match s.kind {
        StageKindView::Bracket { fixtures } => keys_below(fixtures, n),
        StageKindView::RoundRobin => true,
    }
}

/// Every key of the tournament's maps, and of their stages, is below `n`.
pub open spec fn tournament_ids_below(t: TournamentView, n: nat) -> bool {
    &&& keys_below(t.stages, n)
    &&& forall|j: int| 0 <= j < t.stages.len() ==> stage_ids_below(#[trigger] t.stages[j].1, n)
}

/// Every key of the tournaments, at every level, is below `n`.
pub open spec fn tournaments_ids_below(ts: Seq<(TournamentId, TournamentView)>, n: nat) -> bool {
    &&& keys_below(ts, n)
    &&& forall|i: int| 0 <= i < ts.len() ==> tournament_ids_below(#[trigger] ts[i].1, n)
}

/// Whether some record of the model, of any kind, has key `id`.
pub open spec fn id_in_use(m: ModelView, id: usize) -> bool {
    exists|i: int|
        0 <= i < m.tournaments.len() && (m.tournaments[i].0 == id || #[trigger] tournament_uses(
            m.tournaments[i].1,
            id,
        ))
}

/// Whether some stage of `t`, or a record in one, has key `id`.
pub open spec fn tournament_uses(t: TournamentView, id: usize) -> bool {
    exists|j: int|
        0 <= j < t.stages.len() && (t.stages[j].0 == id || #[trigger] stage_uses(t.stages[j].1, id))
}

/// Whether a team, match or fixture of `s` has key `id`.
pub open spec fn stage_uses(s: StageView, id: usize) -> bool {
    ||| has_key(s.teams, id)
    ||| has_key(s.matches, id)
    ||| match s.kind {
        StageKindView::Bracket { fixtures } => has_key(fixtures, id),
        StageKindView::RoundRobin => false,
    }
}

/// Removing a key keeps every value of the rest.
proof fn lemma_without_key_values<V>(s: Seq<(usize, V)>, k: usize, i: int)
    requires
        0 <= i < without_key(s, k).len(),
    ensures
        exists|j: int| 0 <= j < s.len() && #[trigger] s[j] == without_key(s, k)[i],
{
    if has_key(s, k) {
        lemma_index_of(s, k);
        if i < index_of(s, k) {
            assert(s[i] == without_key(s, k)[i]);
        } else {
            assert(s[i + 1] == without_key(s, k)[i]);
        }
    } else {
        assert(s[i] == without_key(s, k)[i]);
    }
}

/// Valid stored tournaments have all their ids below the bound.
proof fn lemma_valid_below(ts: Seq<(TournamentId, TournamentView)>, n: nat)
    requires
        tournaments_valid(ts, n),
    ensures
        tournaments_ids_below(ts, n),
{
    assert forall|i: int| 0 <= i < ts.len() implies tournament_ids_below(#[trigger] ts[i].1, n) by {
        assert(tournament_valid(ts[i].1, n));
        assert forall|j: int| 0 <= j < ts[i].1.stages.len() implies stage_ids_below(
            #[trigger] ts[i].1.stages[j].1,
            n,
        ) by {
            assert(stage_valid(ts[i].1.stages[j].1, n));
        }
    }
}

/// Keeping the matches without a team keeps the keys unique and below the bound.
proof fn lemma_matches_without_valid(ms: Seq<(MatchId, Match)>, team: TeamId, n: nat)
    requires
        keys_below(ms, n),
        unique_keys(ms),
    ensures
        keys_below(matches_without(ms, team), n),
        unique_keys(matches_without(ms, team)),
{
    crate::entries::lemma_below_filter(ms, |e: (MatchId, Match)| !e.1.involves(team), n);
    crate::entries::lemma_unique_filter(ms, |e: (MatchId, Match)| !e.1.involves(team));
}

/// A well-formed model: no map of it holds a key twice, and every key is below
/// the id counter.
pub open spec fn well_formed(m: ModelView) -> bool {
    tournaments_valid(m.tournaments, m.next_id)
}

/// Validity holds for a larger bound.
proof fn lemma_valid_grow(ts: Seq<(TournamentId, TournamentView)>, n: nat, n2: nat)
    requires
        tournaments_valid(ts, n),
        n <= n2,
    ensures
        tournaments_valid(ts, n2),
{
    assert forall|i: int| 0 <= i < ts.len() implies tournament_valid(#[trigger] ts[i].1, n2) by {
        let t = ts[i].1;
        assert(tournament_valid(t, n));
        assert forall|j: int| 0 <= j < t.stages.len() implies stage_valid(#[trigger] t.stages[j].1, n2) by {
            assert(stage_valid(t.stages[j].1, n));
        }
    }
}

/// The tournament found under a key is valid, and the key is below the bound.
proof fn lemma_lookup_valid(ts: Seq<(TournamentId, TournamentView)>, tid: TournamentId, n: nat)
    requires
        tournaments_valid(ts, n),
        has_key(ts, tid),
    ensures
        tid < n,
        tournament_valid(lookup(ts, tid)->Some_0, n),
{
    lemma_index_of(ts, tid);
    assert(ts[index_of(ts, tid)].0 == tid);
}

/// Storing a valid tournament keeps the tournaments valid.
proof fn lemma_with_tournament_valid(
    ts: Seq<(TournamentId, TournamentView)>,
    n: nat,
    n2: nat,
    tid: TournamentId,
    t2: TournamentView,
)
    requires
        tournaments_valid(ts, n),
        n <= n2,
        tid < n2,
        tournament_valid(t2, n2),
    ensures
        tournaments_valid(with_entry(ts, tid, t2), n2),
{
    lemma_valid_grow(ts, n, n2);
    crate::entries::lemma_below_with_entry(ts, tid, t2, n2);
    crate::entries::lemma_unique_with_entry(ts, tid, t2);
    let r = with_entry(ts, tid, t2);
    if has_key(ts, tid) {
        lemma_index_of(ts, tid);
    }
    assert forall|i: int| 0 <= i < r.len() implies tournament_valid(#[trigger] r[i].1, n2) by {
        if r[i].1 != t2 {
            assert(r[i] == ts[i]);
        }
    }
}

/// Storing a valid stage into a valid tournament keeps it valid.
proof fn lemma_with_stage_valid(t: TournamentView, n: nat, n2: nat, sid: StageId, s2: StageView)
    requires
        tournament_valid(t, n),
        n <= n2,
        sid < n2,
        stage_valid(s2, n2),
    ensures
        tournament_valid(TournamentView { stages: with_entry(t.stages, sid, s2), ..t }, n2),
{
    crate::entries::lemma_below_with_entry(t.stages, sid, s2, n2);
    crate::entries::lemma_unique_with_entry(t.stages, sid, s2);
    let r = with_entry(t.stages, sid, s2);
    if has_key(t.stages, sid) {
        lemma_index_of(t.stages, sid);
    }
    assert forall|j: int| 0 <= j < r.len() implies stage_valid(#[trigger] r[j].1, n2) by {
        if r[j].1 != s2 {
            assert(r[j] == t.stages[j]);
            assert(stage_valid(t.stages[j].1, n));
        }
    }
}

/// Removing a tournament keeps the tournaments valid.
proof fn lemma_without_tournament_valid(ts: Seq<(TournamentId, TournamentView)>, tid: TournamentId, n: nat)
    requires
        tournaments_valid(ts, n),
    ensures
        tournaments_valid(without_key(ts, tid), n),
{
    crate::entries::lemma_below_without_key(ts, tid, n);
    crate::entries::lemma_unique_without_key(ts, tid);
    let r = without_key(ts, tid);
    assert forall|i: int| 0 <= i < r.len() implies tournament_valid(#[trigger] r[i].1, n) by {
        lemma_without_key_values(ts, tid, i);
    }
}

/// Removing a stage keeps a tournament valid.
proof fn lemma_without_stage_valid(t: TournamentView, sid: StageId, n: nat)
    requires
        tournament_valid(t, n),
    ensures
        tournament_valid(TournamentView { stages: without_key(t.stages, sid), ..t }, n),
{
    crate::entries::lemma_below_without_key(t.stages, sid, n);
    crate::entries::lemma_unique_without_key(t.stages, sid);
    let r = without_key(t.stages, sid);
    assert forall|j: int| 0 <= j < r.len() implies stage_valid(#[trigger] r[j].1, n) by {
        lemma_without_key_values(t.stages, sid, j);
    }
}

/// The stage `sid` of tournament `tid` of a well-formed model is valid.
proof fn lemma_stage_valid(m: ModelView, tid: TournamentId, sid: StageId)
    requires
        well_formed(m),
        stage_of(m, tid, sid) is Some,
    ensures
        tid < m.next_id,
        sid < m.next_id,
        stage_valid(stage_of(m, tid, sid)->Some_0, m.next_id),
        tournament_valid(lookup(m.tournaments, tid)->Some_0, m.next_id),
{
    lemma_lookup_valid(m.tournaments, tid, m.next_id);
    let t = lookup(m.tournaments, tid)->Some_0;
    lemma_index_of(t.stages, sid);
    assert(t.stages[index_of(t.stages, sid)].0 == sid);
}

/// Replacing a stage of a well-formed model by a valid one keeps it well-formed.
proof fn lemma_replace_stage_valid(m: ModelView, tid: TournamentId, sid: StageId, s2: StageView, n2: nat)
    requires
        well_formed(m),
        stage_of(m, tid, sid) is Some,
        m.next_id <= n2,
        stage_valid(s2, n2),
    ensures
        tournaments_valid(with_stage(m.tournaments, tid, sid, s2), n2),
{
    lemma_stage_valid(m, tid, sid);
    let t = lookup(m.tournaments, tid)->Some_0;
    lemma_with_stage_valid(t, m.next_id, n2, sid, s2);
    lemma_with_tournament_valid(
        m.tournaments,
        m.next_id,
        n2,
        tid,
        TournamentView { stages: with_entry(t.stages, sid, s2), ..t },
    );
}

/// Writing back a stage unchanged leaves the tournaments as they were.
proof fn lemma_with_stage_same(m: ModelView, tid: TournamentId, sid: StageId)
    requires
        stage_of(m, tid, sid) is Some,
    ensures
        with_stage(m.tournaments, tid, sid, stage_of(m, tid, sid)->Some_0) == m.tournaments,
{
    let t = lookup(m.tournaments, tid)->Some_0;
    lemma_update_same(t.stages, sid);
    assert(with_entry(t.stages, sid, stage_of(m, tid, sid)->Some_0) == t.stages);
    assert(TournamentView { stages: t.stages, ..t } == t);
    lemma_update_same(m.tournaments, tid);
}

impl Model {
    /// The number of the current stored format.
    pub const VERSION: i32 = 3;

    /// The format of stored data, by its version marker.
    pub fn stored_version(marker: Option<&String>) -> (r: StoredVersion)
        ensures
            r == version_of(
                match marker {
                    Some(m) => Some(m@),
                    None => None,
                },
            ),
    {
        proof {
            reveal_strlit("3");
            reveal_strlit("2");
        }
        match marker {
            Some(m) => {
                let current = "3".to_owned();
                let second = "2".to_owned();
                assert(current@ =~= seq!['3']);
                assert(second@ =~= seq!['2']);
                if *m == current {
                    StoredVersion::Current
                } else if *m == second {
                    StoredVersion::Second
                } else {
                    StoredVersion::First
                }
            },
            None => StoredVersion::First,
        }
    }

    /// The stage `stage_id` of tournament `tournament_id`, to change in place.
    fn stage_mut(&mut self, tournament_id: TournamentId, stage_id: StageId) -> (r: Option<&mut Stage>)
        ensures
            match r {
                Some(s) => stage_of(old(self)@, tournament_id, stage_id) == Some((*s)@)
                    && final(self)@ == (ModelView {
                    tournaments: with_stage(
                        old(self)@.tournaments,
                        tournament_id,
                        stage_id,
                        (*final(s))@,
                    ),
                    ..old(self)@
                }),
                None => stage_of(old(self)@, tournament_id, stage_id) is None && final(self)@ == old(
                    self,
                )@,
            },
    {
        let ghost ts0 = tournament_entries(self.tournaments);
        proof {
            lemma_stage_of(ts0, tournament_id, stage_id);
            if has_key(ts0, tournament_id) {
                lemma_index_of(ts0, tournament_id);
                lemma_update_same(ts0, tournament_id);
                lemma_map_update_all(ts0, tournament_id, |t: Tournament| tournament_view(t));
                let ss0 = stage_entries(ts0[index_of(ts0, tournament_id)].1.stages);
                if has_key(ss0, stage_id) {
                    lemma_map_update_all(ss0, stage_id, |s: Stage| stage_view(s));
                }
            }
        }
        match tournaments_get_mut(&mut self.tournaments, tournament_id) {
            Some(t) => stages_get_mut(&mut t.stages, stage_id),
            None => None,
        }
    }

    /// Tournament `tournament_id`, to change in place.
    fn tournament_mut(&mut self, tournament_id: TournamentId) -> (r: Option<&mut Tournament>)
        ensures
            match r {
                Some(t) => lookup(old(self)@.tournaments, tournament_id) == Some((*t)@)
                    && final(self)@ == (ModelView {
                    tournaments: with_entry(old(self)@.tournaments, tournament_id, (*final(t))@),
                    ..old(self)@
                }),
                None => lookup(old(self)@.tournaments, tournament_id) is None && final(self)@ == old(
                    self,
                )@,
            },
    {
        let ghost ts0 = tournament_entries(self.tournaments);
        proof {
            lemma_lookup_map(ts0, tournament_id, |t: Tournament| tournament_view(t));
            if has_key(ts0, tournament_id) {
                lemma_map_update_all(ts0, tournament_id, |t: Tournament| tournament_view(t));
            }
        }
        tournaments_get_mut(&mut self.tournaments, tournament_id)
    }

    /// The fixtures of a bracket stage, to change in place.
    fn fixtures_mut(&mut self, tournament_id: TournamentId, stage_id: StageId) -> (r: Option<
        &mut IndexMap<FixtureId, Fixture>,
    >)
        ensures
            match r {
                Some(f) => fixtures_in(old(self)@, tournament_id, stage_id) == Some(
                    fixture_entries(*f),
                ) && final(self)@ == (ModelView {
                    tournaments: with_fixtures_in(
                        old(self)@,
                        tournament_id,
                        stage_id,
                        fixture_entries(*final(f)),
                    ),
                    ..old(self)@
                }),
                None => fixtures_in(old(self)@, tournament_id, stage_id) is None && final(self)@
                    == old(self)@,
            },
    {
        proof {
            if stage_of(self@, tournament_id, stage_id) is Some {
                lemma_with_stage_same(self@, tournament_id, stage_id);
            }
        }
        match self.stage_mut(tournament_id, stage_id) {
            Some(s) => match &mut s.kind {
                StageKind::Bracket { fixtures } => Some(fixtures),
                StageKind::RoundRobin {  } => None,
            },
            None => None,
        }
    }

    pub fn new() -> (r: Model)
        ensures
            r@ == (ModelView { tournaments: Seq::empty(), next_id: 0, changed: Seq::empty() }),
            well_formed(r@),
    {
        let r = Model { tournaments: tournaments_new(), next_id: 0, changed_tournaments: Vec::new() };
        assert(r@.tournaments =~= Seq::empty());
        r
    }

    /// Reads back a stored model, which fails when some map of it holds a key twice
    /// or a key that is not below the id counter.
    pub fn restore(data: &StoredModel) -> (r: Result<Model, LoadError>)
        ensures
            r is Ok <==> tournaments_valid(data.tournaments_view(), data.next_id as nat),
            r matches Ok(m) ==> m@ == (ModelView {
                tournaments: data.tournaments_view(),
                next_id: data.next_id as nat,
                changed: Seq::empty(),
            }),
            r matches Ok(m) ==> well_formed(m@),
    {
        proof {
            lemma_keys_map(data.tournaments@, |t: StoredTournament| stored_tournament_view(t));
            crate::entries::lemma_below_map(
                data.tournaments@,
                |t: StoredTournament| stored_tournament_view(t),
                data.next_id as nat,
            );
            assert forall|j: int| 0 <= j < data.tournaments@.len() implies data.tournaments_view()[j].1
                == #[trigger] data.tournaments@[j].1@ by {}
        }
        proof {
            if tournaments_valid(data.tournaments_view(), data.next_id as nat) {
                lemma_valid_below(data.tournaments_view(), data.next_id as nat);
            }
        }
        match build_tournaments(&data.tournaments, data.next_id) {
            Some(tournaments) => Ok(
                Model { tournaments, next_id: data.next_id, changed_tournaments: Vec::new() },
            ),
            None => Err(LoadError::InvalidKey),
        }
    }

    /// The id that the next created record will get.
    pub fn peek_next_id(&self) -> (r: usize)
        ensures
            r == self@.next_id,
    {
        self.next_id
    }

    /// Whether an id can still be taken: the operations that create a record
    /// require it.
    pub fn has_free_id(&self) -> (r: bool)
        ensures
            r == (self@.next_id < usize::MAX),
    {
        self.next_id < usize::MAX
    }

    /// Takes the next id; ids are shared by every kind of record and never reused.
    pub fn get_next_id(&mut self) -> (r: usize)
        requires
            old(self)@.next_id < usize::MAX,
        ensures
            r == old(self)@.next_id,
            final(self)@ == id_taken(old(self)@),
            well_formed(old(self)@) ==> well_formed(final(self)@),
    {
        proof {
            if well_formed(self@) {
                lemma_valid_grow(self@.tournaments, self@.next_id, self@.next_id + 1);
            }
        }
        let id = self.next_id;
        self.next_id = self.next_id + 1;
        id
    }

    pub fn add_tournament(&mut self, name: String) -> (r: TournamentId)
        requires
            old(self)@.next_id < usize::MAX,
        ensures
            r == old(self)@.next_id,
            final(self)@ == changed_to(
                id_taken(old(self)@),
                with_entry(
                    old(self)@.tournaments,
                    r,
                    TournamentView { id: r, name: name@, stages: Seq::empty() },
                ),
                r,
            ),
            well_formed(old(self)@) ==> well_formed(final(self)@),
    {
        proof {
            if well_formed(self@) {
                lemma_with_tournament_valid(
                    self@.tournaments,
                    self@.next_id,
                    self@.next_id + 1,
                    self@.next_id as usize,
                    TournamentView { id: self@.next_id as usize, name: name@, stages: Seq::empty() },
                );
            }
        }
        let id = self.get_next_id();
        let t = Tournament::new(id, name);
        proof {
            lemma_map_with_entry(tournament_entries(self.tournaments), id, t, |t: Tournament| tournament_view(t));
        }
        tournaments_insert(&mut self.tournaments, id, t);
        self.changed_tournaments.push(id);
        id
    }

    pub fn add_team(&mut self, tournament_id: TournamentId, stage_id: StageId, name: String) -> (r:
        Option<TeamId>)
        requires
            old(self)@.next_id < usize::MAX,
        ensures
            match stage_of(old(self)@, tournament_id, stage_id) {
                Some(s) => r == Some(old(self)@.next_id as usize) && final(self)@ == changed_to(
                    id_taken(old(self)@),
                    with_stage(
                        old(self)@.tournaments,
                        tournament_id,
                        stage_id,
                        StageView {
                            teams: with_entry(
                                s.teams,
                                old(self)@.next_id as usize,
                                TeamView { id: old(self)@.next_id as usize, name: name@ },
                            ),
                            ..s
                        },
                    ),
                    tournament_id,
                ),
                None => r is None && final(self)@ == id_taken(old(self)@),
            },
            well_formed(old(self)@) ==> well_formed(final(self)@),
    {
        proof {
            if well_formed(self@) {
                lemma_valid_grow(self@.tournaments, self@.next_id, self@.next_id + 1);
                if stage_of(self@, tournament_id, stage_id) is Some {
                    lemma_stage_valid(self@, tournament_id, stage_id);
                    let s = stage_of(self@, tournament_id, stage_id)->Some_0;
                    let id = self@.next_id as usize;
                    let team = TeamView { id, name: name@ };
                    crate::entries::lemma_below_with_entry(s.teams, id, team, self@.next_id + 1);
                    crate::entries::lemma_unique_with_entry(s.teams, id, team);
                    lemma_replace_stage_valid(
                        self@,
                        tournament_id,
                        stage_id,
                        StageView { teams: with_entry(s.teams, id, team), ..s },
                        self@.next_id + 1,
                    );
                }
            }
        }
        let id = self.get_next_id();
        match self.stage_mut(tournament_id, stage_id) {
            Some(s) => {
                let ghost s0 = *s;
                let team = Team::new(id, name);
                proof {
                    lemma_map_with_entry(team_entries(s0.teams), id, team, |t: Team| team_view(t));
                }
                teams_insert(&mut s.teams, id, team);
            },
            None => {
                return None;
            },
        }
        self.changed_tournaments.push(tournament_id);
        Some(id)
    }

    pub fn get_tournaments(&self) -> (r: &IndexMap<TournamentId, Tournament>)
        ensures
            map_entries(tournament_entries(*r), |t: Tournament| tournament_view(t))
                == self@.tournaments,
    {
        &self.tournaments
    }

    pub fn get_tournament(&self, id: TournamentId) -> (r: Option<&Tournament>)
        ensures
            match r {
                Some(t) => lookup(self@.tournaments, id) == Some(t@),
                None => lookup(self@.tournaments, id) is None,
            },
    {
        proof {
            lemma_lookup_map(tournament_entries(self.tournaments), id, |t: Tournament| tournament_view(t));
        }
        tournaments_get(&self.tournaments, id)
    }

    pub fn get_stage(&self, tournament_id: TournamentId, stage_id: StageId) -> (r: Option<&Stage>)
        ensures
            match r {
                Some(s) => stage_of(self@, tournament_id, stage_id) == Some(s@),
                None => stage_of(self@, tournament_id, stage_id) is None,
            },
    {
        proof {
            lemma_stage_of(tournament_entries(self.tournaments), tournament_id, stage_id);
        }
        match tournaments_get(&self.tournaments, tournament_id) {
            Some(t) => stages_get(&t.stages, stage_id),
            None => None,
        }
    }

    pub fn delete_tournament(&mut self, tournament_id: TournamentId) -> (r: Result<(), ()>)
        ensures
            r is Ok <==> has_key(old(self)@.tournaments, tournament_id),
            r is Ok ==> final(self)@ == changed_to(
                old(self)@,
                without_key(old(self)@.tournaments, tournament_id),
                tournament_id,
            ),
            r is Err ==> final(self)@ == old(self)@,
            well_formed(old(self)@) ==> well_formed(final(self)@),
    {
        proof {
            if well_formed(self@) {
                lemma_without_tournament_valid(self@.tournaments, tournament_id, self@.next_id);
            }
        }
        proof {
            lemma_map_without_key(tournament_entries(self.tournaments), tournament_id, |t: Tournament| tournament_view(t));
        }
        if tournaments_shift_remove(&mut self.tournaments, tournament_id).is_some() {
            self.changed_tournaments.push(tournament_id);
            Ok(())
        } else {
            Err(())
        }
    }

    pub fn rename_tournament(&mut self, tournament_id: TournamentId, new_name: &str) -> (r: Result<
        (),
        (),
    >)
        ensures
            match lookup(old(self)@.tournaments, tournament_id) {
                Some(t) => r is Ok && final(self)@ == changed_to(
                    old(self)@,
                    with_entry(
                        old(self)@.tournaments,
                        tournament_id,
                        TournamentView { name: new_name@, ..t },
                    ),
                    tournament_id,
                ),
                None => r is Err && final(self)@ == old(self)@,
            },
            well_formed(old(self)@) ==> well_formed(final(self)@),
    {
        proof {
            if well_formed(self@) {
                if has_key(self@.tournaments, tournament_id) {
                    lemma_lookup_valid(self@.tournaments, tournament_id, self@.next_id);
                    let t = lookup(self@.tournaments, tournament_id)->Some_0;
                    lemma_with_tournament_valid(
                        self@.tournaments,
                        self@.next_id,
                        self@.next_id,
                        tournament_id,
                        TournamentView { name: new_name@, ..t },
                    );
                }
            }
        }
        match self.tournament_mut(tournament_id) {
            Some(t) => {
                t.name = new_name.to_string();
            },
            None => {
                return Err(());
            },
        }
        self.changed_tournaments.push(tournament_id);
        Ok(())
    }

    pub fn add_stage_round_robin(&mut self, tournament_id: TournamentId, name: String) -> (r:
        Option<StageId>)
        requires
            old(self)@.next_id < usize::MAX,
        ensures
            match lookup(old(self)@.tournaments, tournament_id) {
                Some(t) => r == Some(old(self)@.next_id as usize) && final(self)@ == changed_to(
                    id_taken(old(self)@),
                    with_entry(
                        old(self)@.tournaments,
                        tournament_id,
                        TournamentView {
                            stages: with_entry(
                                t.stages,
                                old(self)@.next_id as usize,
                                StageView {
                                    id: old(self)@.next_id as usize,
                                    tournament_id,
                                    name: name@,
                                    teams: Seq::empty(),
                                    matches: Seq::empty(),
                                    kind: StageKindView::RoundRobin,
                                },
                            ),
                            ..t
                        },
                    ),
                    tournament_id,
                ),
                None => r is None && final(self)@ == id_taken(old(self)@),
            },
            well_formed(old(self)@) ==> well_formed(final(self)@),
    {
        proof {
            if well_formed(self@) {
                lemma_valid_grow(self@.tournaments, self@.next_id, self@.next_id + 1);
                if has_key(self@.tournaments, tournament_id) {
                    lemma_lookup_valid(self@.tournaments, tournament_id, self@.next_id);
                    let t = lookup(self@.tournaments, tournament_id)->Some_0;
                    let id = self@.next_id as usize;
                    let sv = StageView {
                        id,
                        tournament_id,
                        name: name@,
                        teams: Seq::empty(),
                        matches: Seq::empty(),
                        kind: StageKindView::RoundRobin,
                    };
                    lemma_with_stage_valid(t, self@.next_id, self@.next_id + 1, id, sv);
                    lemma_with_tournament_valid(
                        self@.tournaments,
                        self@.next_id,
                        self@.next_id + 1,
                        tournament_id,
                        TournamentView { stages: with_entry(t.stages, id, sv), ..t },
                    );
                }
            }
        }
        let id = self.get_next_id();
        match self.tournament_mut(tournament_id) {
            Some(t) => {
                let ghost t0 = *t;
                let stage = Stage::new_round_robin(id, tournament_id, name);
                proof {
                    lemma_map_with_entry(stage_entries(t0.stages), id, stage, |s: Stage| stage_view(s));
                }
                stages_insert(&mut t.stages, id, stage);
            },
            None => {
                return None;
            },
        }
        self.changed_tournaments.push(tournament_id);
        Some(id)
    }

    pub fn add_stage_bracket(&mut self, tournament_id: TournamentId, name: String) -> (r: Option<
        StageId,
    >)
        requires
            old(self)@.next_id < usize::MAX,
        ensures
            match lookup(old(self)@.tournaments, tournament_id) {
                Some(t) => r == Some(old(self)@.next_id as usize) && final(self)@ == changed_to(
                    id_taken(old(self)@),
                    with_entry(
                        old(self)@.tournaments,
                        tournament_id,
                        TournamentView {
                            stages: with_entry(
                                t.stages,
                                old(self)@.next_id as usize,
                                StageView {
                                    id: old(self)@.next_id as usize,
                                    tournament_id,
                                    name: name@,
                                    teams: Seq::empty(),
                                    matches: Seq::empty(),
                                    kind: StageKindView::Bracket { fixtures: Seq::empty() },
                                },
                            ),
                            ..t
                        },
                    ),
                    tournament_id,
                ),
                None => r is None && final(self)@ == id_taken(old(self)@),
            },
            well_formed(old(self)@) ==> well_formed(final(self)@),
    {
        proof {
            if well_formed(self@) {
                lemma_valid_grow(self@.tournaments, self@.next_id, self@.next_id + 1);
                if has_key(self@.tournaments, tournament_id) {
                    lemma_lookup_valid(self@.tournaments, tournament_id, self@.next_id);
                    let t = lookup(self@.tournaments, tournament_id)->Some_0;
                    let id = self@.next_id as usize;
                    let sv = StageView {
                        id,
                        tournament_id,
                        name: name@,
                        teams: Seq::empty(),
                        matches: Seq::empty(),
                        kind: StageKindView::Bracket { fixtures: Seq::empty() },
                    };
                    lemma_with_stage_valid(t, self@.next_id, self@.next_id + 1, id, sv);
                    lemma_with_tournament_valid(
                        self@.tournaments,
                        self@.next_id,
                        self@.next_id + 1,
                        tournament_id,
                        TournamentView { stages: with_entry(t.stages, id, sv), ..t },
                    );
                }
            }
        }
        let id = self.get_next_id();
        match self.tournament_mut(tournament_id) {
            Some(t) => {
                let ghost t0 = *t;
                let stage = Stage::new_bracket(id, tournament_id, name);
                proof {
                    lemma_map_with_entry(stage_entries(t0.stages), id, stage, |s: Stage| stage_view(s));
                }
                stages_insert(&mut t.stages, id, stage);
            },
            None => {
                return None;
            },
        }
        self.changed_tournaments.push(tournament_id);
        Some(id)
    }

    pub fn delete_stage(&mut self, tournament_id: TournamentId, stage_id: StageId) -> (r: Result<
        (),
        (),
    >)
        ensures
            r is Ok <==> stage_of(old(self)@, tournament_id, stage_id) is Some,
            r is Ok ==> final(self)@ == changed_to(
                old(self)@,
                with_entry(
                    old(self)@.tournaments,
                    tournament_id,
                    TournamentView {
                        stages: without_key(
                            lookup(old(self)@.tournaments, tournament_id)->Some_0.stages,
                            stage_id,
                        ),
                        ..lookup(old(self)@.tournaments, tournament_id)->Some_0
                    },
                ),
                tournament_id,
            ),
            r is Err ==> final(self)@ == old(self)@,
            well_formed(old(self)@) ==> well_formed(final(self)@),
    {
        proof {
            if well_formed(self@) {
                if stage_of(self@, tournament_id, stage_id) is Some {
                    lemma_lookup_valid(self@.tournaments, tournament_id, self@.next_id);
                    let t = lookup(self@.tournaments, tournament_id)->Some_0;
                    lemma_without_stage_valid(t, stage_id, self@.next_id);
                    lemma_with_tournament_valid(
                        self@.tournaments,
                        self@.next_id,
                        self@.next_id,
                        tournament_id,
                        TournamentView { stages: without_key(t.stages, stage_id), ..t },
                    );
                }
            }
        }
        proof {
            if has_key(old(self)@.tournaments, tournament_id) {
                lemma_update_same(old(self)@.tournaments, tournament_id);
            }
        }
        let removed = match self.tournament_mut(tournament_id) {
            Some(t) => {
                let ghost t0 = *t;
                proof {
                    lemma_map_without_key(stage_entries(t0.stages), stage_id, |s: Stage| stage_view(s));
                    lemma_lookup_map(stage_entries(t0.stages), stage_id, |s: Stage| stage_view(s));
                }
                stages_shift_remove(&mut t.stages, stage_id).is_some()
            },
            None => false,
        };
        if removed {
            self.changed_tournaments.push(tournament_id);
            Ok(())
        } else {
            Err(())
        }
    }

    pub fn rename_stage(&mut self, tournament_id: TournamentId, stage_id: StageId, new_name: &str) -> (r:
        Result<(), ()>)
        ensures
            match stage_of(old(self)@, tournament_id, stage_id) {
                Some(s) => r is Ok && final(self)@ == changed_to(
                    old(self)@,
                    with_stage(
                        old(self)@.tournaments,
                        tournament_id,
                        stage_id,
                        StageView { name: new_name@, ..s },
                    ),
                    tournament_id,
                ),
                None => r is Err && final(self)@ == old(self)@,
            },
            well_formed(old(self)@) ==> well_formed(final(self)@),
    {
        proof {
            if well_formed(self@) {
                if stage_of(self@, tournament_id, stage_id) is Some {
                    lemma_stage_valid(self@, tournament_id, stage_id);
                    let s = stage_of(self@, tournament_id, stage_id)->Some_0;
                    lemma_replace_stage_valid(
                        self@,
                        tournament_id,
                        stage_id,
                        StageView { name: new_name@, ..s },
                        self@.next_id,
                    );
                }
            }
        }
        match self.stage_mut(tournament_id, stage_id) {
            Some(s) => {
                s.name = new_name.to_string();
            },
            None => {
                return Err(());
            },
        }
        self.changed_tournaments.push(tournament_id);
        Ok(())
    }

    /// Deletes a team, and with it every match that it played in the stage.
    pub fn delete_team(&mut self, tournament_id: TournamentId, stage_id: StageId, team_id: TeamId) -> (r:
        Result<(), ()>)
        ensures
            match stage_of(old(self)@, tournament_id, stage_id) {
                Some(s) => if has_key(s.teams, team_id) {
                    r is Ok && final(self)@ == changed_to(
                        old(self)@,
                        with_stage(
                            old(self)@.tournaments,
                            tournament_id,
                            stage_id,
                            StageView {
                                teams: without_key(s.teams, team_id),
                                matches: matches_without(s.matches, team_id),
                                ..s
                            },
                        ),
                        tournament_id,
                    )
                } else {
                    r is Err && final(self)@ == old(self)@
                },
                None => r is Err && final(self)@ == old(self)@,
            },
            well_formed(old(self)@) ==> well_formed(final(self)@),
    {
        proof {
            if well_formed(self@) {
                if stage_of(self@, tournament_id, stage_id) is Some {
                    lemma_stage_valid(self@, tournament_id, stage_id);
                    let s = stage_of(self@, tournament_id, stage_id)->Some_0;
                    crate::entries::lemma_below_without_key(s.teams, team_id, self@.next_id);
                    crate::entries::lemma_unique_without_key(s.teams, team_id);
                    lemma_matches_without_valid(s.matches, team_id, self@.next_id);
                    lemma_replace_stage_valid(
                        self@,
                        tournament_id,
                        stage_id,
                        StageView {
                            teams: without_key(s.teams, team_id),
                            matches: matches_without(s.matches, team_id),
                            ..s
                        },
                        self@.next_id,
                    );
                }
            }
        }
        proof {
            if stage_of(self@, tournament_id, stage_id) is Some {
                lemma_with_stage_same(self@, tournament_id, stage_id);
            }
        }
        match self.stage_mut(tournament_id, stage_id) {
            Some(s) => {
                let ghost s0 = *s;
                proof {
                    lemma_map_without_key(team_entries(s0.teams), team_id, |t: Team| team_view(t));
                }
                if !teams_contains_key(&s.teams, team_id) {
                    return Err(());
                }
                // Remove every match this team was in
                matches_retain_without(&mut s.matches, team_id);
                teams_shift_remove(&mut s.teams, team_id);
            },
            None => {
                return Err(());
            },
        }
        self.changed_tournaments.push(tournament_id);
        Ok(())
    }

    /// Records a played match between two different teams of the stage.
    pub fn add_match(
        &mut self,
        tournament_id: TournamentId,
        stage_id: StageId,
        team_a: TeamId,
        team_b: TeamId,
        team_a_score: u32,
        team_b_score: u32,
    ) -> (r: Option<MatchId>)
        requires
            old(self)@.next_id < usize::MAX,
        ensures
            match stage_of(old(self)@, tournament_id, stage_id) {
                Some(s) => if has_key(s.teams, team_a) && has_key(s.teams, team_b) && team_a
                    != team_b {
                    r == Some(old(self)@.next_id as usize) && final(self)@ == changed_to(
                        id_taken(old(self)@),
                        with_matches(
                            old(self)@,
                            tournament_id,
                            stage_id,
                            with_entry(
                                s.matches,
                                old(self)@.next_id as usize,
                                Match {
                                    id: old(self)@.next_id as usize,
                                    team_a,
                                    team_b,
                                    team_a_score,
                                    team_b_score,
                                },
                            ),
                        ),
                        tournament_id,
                    )
                } else {
                    r is None && final(self)@ == id_taken(old(self)@)
                },
                None => r is None && final(self)@ == id_taken(old(self)@),
            },
            well_formed(old(self)@) ==> well_formed(final(self)@),
    {
        proof {
            if well_formed(self@) {
                lemma_valid_grow(self@.tournaments, self@.next_id, self@.next_id + 1);
                if stage_of(self@, tournament_id, stage_id) is Some {
                    lemma_stage_valid(self@, tournament_id, stage_id);
                    let s = stage_of(self@, tournament_id, stage_id)->Some_0;
                    let id = self@.next_id as usize;
                    let m = Match { id, team_a, team_b, team_a_score, team_b_score };
                    crate::entries::lemma_below_with_entry(s.matches, id, m, self@.next_id + 1);
                    crate::entries::lemma_unique_with_entry(s.matches, id, m);
                    lemma_replace_stage_valid(
                        self@,
                        tournament_id,
                        stage_id,
                        StageView { matches: with_entry(s.matches, id, m), ..s },
                        self@.next_id + 1,
                    );
                }
            }
        }
        let id = self.get_next_id();
        proof {
            if stage_of(self@, tournament_id, stage_id) is Some {
                lemma_with_stage_same(self@, tournament_id, stage_id);
            }
        }
        match self.stage_mut(tournament_id, stage_id) {
            Some(s) => {
                let ghost s0 = *s;
                proof {
                    lemma_keys_map(team_entries(s0.teams), |t: Team| team_view(t));
                }
                if !teams_contains_key(&s.teams, team_a) || !teams_contains_key(&s.teams, team_b) {
                    return None;
                }
                if team_a == team_b {
                    return None;
                }
                matches_insert(
                    &mut s.matches,
                    id,
                    Match { id, team_a, team_b, team_a_score, team_b_score },
                );
            },
            None => {
                return None;
            },
        }
        self.changed_tournaments.push(tournament_id);
        Some(id)
    }

    pub fn delete_match(&mut self, tournament_id: TournamentId, stage_id: StageId, match_id: MatchId) -> (r:
        Result<(), ()>)
        ensures
            match stage_of(old(self)@, tournament_id, stage_id) {
                Some(s) => if has_key(s.matches, match_id) {
                    r is Ok && final(self)@ == changed_to(
                        old(self)@,
                        with_matches(
                            old(self)@,
                            tournament_id,
                            stage_id,
                            without_key(s.matches, match_id),
                        ),
                        tournament_id,
                    )
                } else {
                    r is Err && final(self)@ == old(self)@
                },
                None => r is Err && final(self)@ == old(self)@,
            },
            well_formed(old(self)@) ==> well_formed(final(self)@),
    {
        proof {
            if well_formed(self@) {
                if stage_of(self@, tournament_id, stage_id) is Some {
                    lemma_stage_valid(self@, tournament_id, stage_id);
                    let s = stage_of(self@, tournament_id, stage_id)->Some_0;
                    crate::entries::lemma_below_without_key(s.matches, match_id, self@.next_id);
                    crate::entries::lemma_unique_without_key(s.matches, match_id);
                    lemma_replace_stage_valid(
                        self@,
                        tournament_id,
                        stage_id,
                        StageView { matches: without_key(s.matches, match_id), ..s },
                        self@.next_id,
                    );
                }
            }
        }
        proof {
            if stage_of(self@, tournament_id, stage_id) is Some {
                lemma_with_stage_same(self@, tournament_id, stage_id);
            }
        }
        match self.stage_mut(tournament_id, stage_id) {
            Some(s) => {
                if matches_shift_remove(&mut s.matches, match_id).is_none() {
                    return Err(());
                }
            },
            None => {
                return Err(());
            },
        }
        self.changed_tournaments.push(tournament_id);
        Ok(())
    }

    /// Moves a match to position `new_index` of the stage's list, held within the
    /// list; the other matches keep their relative order.
    pub fn reorder_match(
        &mut self,
        tournament_id: TournamentId,
        stage_id: StageId,
        match_id: MatchId,
        new_index: usize,
    ) -> (r: Result<(), ()>)
        ensures
            match stage_of(old(self)@, tournament_id, stage_id) {
                Some(s) => if has_key(s.matches, match_id) {
                    r is Ok && final(self)@ == changed_to(
                        old(self)@,
                        with_matches(
                            old(self)@,
                            tournament_id,
                            stage_id,
                            moved(
                                s.matches,
                                index_of(s.matches, match_id),
                                clamped(new_index as int, s.matches.len() as int),
                            ),
                        ),
                        tournament_id,
                    )
                } else {
                    r is Err && final(self)@ == old(self)@
                },
                None => r is Err && final(self)@ == old(self)@,
            },
            well_formed(old(self)@) ==> well_formed(final(self)@),
    {
        proof {
            if well_formed(self@) {
                if stage_of(self@, tournament_id, stage_id) is Some {
                    lemma_stage_valid(self@, tournament_id, stage_id);
                    let s = stage_of(self@, tournament_id, stage_id)->Some_0;
                    if has_key(s.matches, match_id) {
                        lemma_index_of(s.matches, match_id);
                        let ms = moved(
                            s.matches,
                            index_of(s.matches, match_id),
                            clamped(new_index as int, s.matches.len() as int),
                        );
                        crate::entries::lemma_below_moved(
                            s.matches,
                            index_of(s.matches, match_id),
                            clamped(new_index as int, s.matches.len() as int),
                            self@.next_id,
                        );
                        crate::entries::lemma_unique_moved(
                            s.matches,
                            index_of(s.matches, match_id),
                            clamped(new_index as int, s.matches.len() as int),
                        );
                        lemma_replace_stage_valid(
                            self@,
                            tournament_id,
                            stage_id,
                            StageView { matches: ms, ..s },
                            self@.next_id,
                        );
                    }
                }
            }
        }
        proof {
            if stage_of(self@, tournament_id, stage_id) is Some {
                lemma_with_stage_same(self@, tournament_id, stage_id);
            }
        }
        match self.stage_mut(tournament_id, stage_id) {
            Some(s) => {
                proof {
                    if has_key(match_entries(s.matches), match_id) {
                        lemma_index_of(match_entries(s.matches), match_id);
                    }
                }
                match matches_get_index_of(&s.matches, match_id) {
                    Some(old_index) => {
                        let len = matches_len(&s.matches);
                        let to = if new_index < len - 1 {
                            new_index
                        } else {
                            len - 1
                        };
                        matches_move_index(&mut s.matches, old_index, to);
                    },
                    None => {
                        return Err(());
                    },
                }
            },
            None => {
                return Err(());
            },
        }
        self.changed_tournaments.push(tournament_id);
        Ok(())
    }

    /// Adds a fixture to a bracket stage. A slot fixed to a team must name a team of
    /// the stage; a linked slot may name any fixture.
    pub fn add_fixture(
        &mut self,
        tournament_id: TournamentId,
        stage_id: StageId,
        layout: (i32, i32),
        team_a: FixtureTeam,
        team_b: FixtureTeam,
    ) -> (r: Option<FixtureId>)
        requires
            old(self)@.next_id < usize::MAX,
        ensures
            match fixtures_in(old(self)@, tournament_id, stage_id) {
                Some(fs) => if slot_in_stage(
                    stage_of(old(self)@, tournament_id, stage_id)->Some_0,
                    team_a,
                ) && slot_in_stage(stage_of(old(self)@, tournament_id, stage_id)->Some_0, team_b) {
                    r == Some(old(self)@.next_id as usize) && final(self)@ == changed_to(
                        id_taken(old(self)@),
                        with_fixtures_in(
                            old(self)@,
                            tournament_id,
                            stage_id,
                            with_entry(
                                fs,
                                old(self)@.next_id as usize,
                                Fixture {
                                    id: old(self)@.next_id as usize,
                                    layout,
                                    match_id: None,
                                    team_a,
                                    team_b,
                                },
                            ),
                        ),
                        tournament_id,
                    )
                } else {
                    r is None && final(self)@ == id_taken(old(self)@)
                },
                None => r is None && final(self)@ == id_taken(old(self)@),
            },
            well_formed(old(self)@) ==> well_formed(final(self)@),
    {
        proof {
            if well_formed(self@) {
                lemma_valid_grow(self@.tournaments, self@.next_id, self@.next_id + 1);
                if fixtures_in(self@, tournament_id, stage_id) is Some {
                    lemma_stage_valid(self@, tournament_id, stage_id);
                    let s = stage_of(self@, tournament_id, stage_id)->Some_0;
                    let fs = fixtures_in(self@, tournament_id, stage_id)->Some_0;
                    let id = self@.next_id as usize;
                    let f = Fixture { id, layout, match_id: None, team_a, team_b };
                    crate::entries::lemma_below_with_entry(fs, id, f, self@.next_id + 1);
                    crate::entries::lemma_unique_with_entry(fs, id, f);
                    lemma_replace_stage_valid(
                        self@,
                        tournament_id,
                        stage_id,
                        with_fixtures(s, with_entry(fs, id, f)),
                        self@.next_id + 1,
                    );
                }
            }
        }
        let id = self.get_next_id();
        match self.get_stage(tournament_id, stage_id) {
            Some(s) => {
                if !s.has_slot_team(team_a) || !s.has_slot_team(team_b) {
                    return None;
                }
            },
            None => {
                return None;
            },
        }
        match self.fixtures_mut(tournament_id, stage_id) {
            Some(fixtures) => {
                fixtures_insert(fixtures, id, Fixture { id, layout, match_id: None, team_a, team_b });
            },
            None => {
                return None;
            },
        }
        self.changed_tournaments.push(tournament_id);
        Some(id)
    }

    pub fn set_fixture_layout(
        &mut self,
        tournament_id: TournamentId,
        stage_id: StageId,
        fixture_id: FixtureId,
        layout: (i32, i32),
    ) -> (r: Result<(), ()>)
        ensures
            match fixtures_in(old(self)@, tournament_id, stage_id) {
                Some(fs) => match lookup(fs, fixture_id) {
                    Some(f) => r is Ok && final(self)@ == changed_to(
                        old(self)@,
                        with_fixtures_in(
                            old(self)@,
                            tournament_id,
                            stage_id,
                            with_entry(fs, fixture_id, Fixture { layout, ..f }),
                        ),
                        tournament_id,
                    ),
                    None => r is Err && final(self)@ == old(self)@,
                },
                None => r is Err && final(self)@ == old(self)@,
            },
            well_formed(old(self)@) ==> well_formed(final(self)@),
    {
        proof {
            if well_formed(self@) {
                if fixtures_in(self@, tournament_id, stage_id) is Some {
                    lemma_stage_valid(self@, tournament_id, stage_id);
                    let s = stage_of(self@, tournament_id, stage_id)->Some_0;
                    let fs = fixtures_in(self@, tournament_id, stage_id)->Some_0;
                    if has_key(fs, fixture_id) {
                        lemma_index_of(fs, fixture_id);
                        let f = Fixture { layout, ..lookup(fs, fixture_id)->Some_0 };
                        crate::entries::lemma_below_with_entry(fs, fixture_id, f, self@.next_id);
                        crate::entries::lemma_unique_with_entry(fs, fixture_id, f);
                        lemma_replace_stage_valid(
                            self@,
                            tournament_id,
                            stage_id,
                            with_fixtures(s, with_entry(fs, fixture_id, f)),
                            self@.next_id,
                        );
                    }
                }
            }
        }
        proof {
            if fixtures_in(self@, tournament_id, stage_id) is Some {
                lemma_with_stage_same(self@, tournament_id, stage_id);
            }
        }
        match self.fixtures_mut(tournament_id, stage_id) {
            Some(fixtures) => {
                match fixtures_get_mut(fixtures, fixture_id) {
                    Some(f) => {
                        f.layout = layout;
                    },
                    None => {
                        return Err(());
                    },
                }
            },
            None => {
                return Err(());
            },
        }
        self.changed_tournaments.push(tournament_id);
        Ok(())
    }

    /// Sets who plays in one slot of a fixture.
    pub fn set_fixture_input(
        &mut self,
        tournament_id: TournamentId,
        stage_id: StageId,
        fixture_id: FixtureId,
        input: FixtureInput,
        team: FixtureTeam,
    ) -> (r: Result<(), ()>)
        ensures
            match fixtures_in(old(self)@, tournament_id, stage_id) {
                Some(fs) => match lookup(fs, fixture_id) {
                    Some(f) => r is Ok && final(self)@ == changed_to(
                        old(self)@,
                        with_fixtures_in(
                            old(self)@,
                            tournament_id,
                            stage_id,
                            with_entry(fs, fixture_id, with_input(f, input, team)),
                        ),
                        tournament_id,
                    ),
                    None => r is Err && final(self)@ == old(self)@,
                },
                None => r is Err && final(self)@ == old(self)@,
            },
            well_formed(old(self)@) ==> well_formed(final(self)@),
    {
        proof {
            if well_formed(self@) {
                if fixtures_in(self@, tournament_id, stage_id) is Some {
                    lemma_stage_valid(self@, tournament_id, stage_id);
                    let s = stage_of(self@, tournament_id, stage_id)->Some_0;
                    let fs = fixtures_in(self@, tournament_id, stage_id)->Some_0;
                    if has_key(fs, fixture_id) {
                        lemma_index_of(fs, fixture_id);
                        let f = with_input(lookup(fs, fixture_id)->Some_0, input, team);
                        crate::entries::lemma_below_with_entry(fs, fixture_id, f, self@.next_id);
                        crate::entries::lemma_unique_with_entry(fs, fixture_id, f);
                        lemma_replace_stage_valid(
                            self@,
                            tournament_id,
                            stage_id,
                            with_fixtures(s, with_entry(fs, fixture_id, f)),
                            self@.next_id,
                        );
                    }
                }
            }
        }
        proof {
            if fixtures_in(self@, tournament_id, stage_id) is Some {
                lemma_with_stage_same(self@, tournament_id, stage_id);
            }
        }
        match self.fixtures_mut(tournament_id, stage_id) {
            Some(fixtures) => {
                match fixtures_get_mut(fixtures, fixture_id) {
                    Some(f) => {
                        match input {
                            FixtureInput::TeamA => f.team_a = team,
                            FixtureInput::TeamB => f.team_b = team,
                        }
                    },
                    None => {
                        return Err(());
                    },
                }
            },
            None => {
                return Err(());
            },
        }
        self.changed_tournaments.push(tournament_id);
        Ok(())
    }

    /// Deletes a fixture. Links to it from other fixtures stay, and are then unresolved.
    pub fn delete_fixture(&mut self, tournament_id: TournamentId, stage_id: StageId, fixture_id: FixtureId) -> (r:
        Result<(), ()>)
        ensures
            match fixtures_in(old(self)@, tournament_id, stage_id) {
                Some(fs) => if has_key(fs, fixture_id) {
                    r is Ok && final(self)@ == changed_to(
                        old(self)@,
                        with_fixtures_in(
                            old(self)@,
                            tournament_id,
                            stage_id,
                            without_key(fs, fixture_id),
                        ),
                        tournament_id,
                    )
                } else {
                    r is Err && final(self)@ == old(self)@
                },
                None => r is Err && final(self)@ == old(self)@,
            },
            well_formed(old(self)@) ==> well_formed(final(self)@),
    {
        proof {
            if well_formed(self@) {
                if fixtures_in(self@, tournament_id, stage_id) is Some {
                    lemma_stage_valid(self@, tournament_id, stage_id);
                    let s = stage_of(self@, tournament_id, stage_id)->Some_0;
                    let fs = fixtures_in(self@, tournament_id, stage_id)->Some_0;
                    crate::entries::lemma_below_without_key(fs, fixture_id, self@.next_id);
                    crate::entries::lemma_unique_without_key(fs, fixture_id);
                    lemma_replace_stage_valid(
                        self@,
                        tournament_id,
                        stage_id,
                        with_fixtures(s, without_key(fs, fixture_id)),
                        self@.next_id,
                    );
                }
            }
        }
        proof {
            if fixtures_in(self@, tournament_id, stage_id) is Some {
                lemma_with_stage_same(self@, tournament_id, stage_id);
            }
        }
        match self.fixtures_mut(tournament_id, stage_id) {
            Some(fixtures) => {
                if fixtures_shift_remove(fixtures, fixture_id).is_none() {
                    return Err(());
                }
            },
            None => {
                return Err(());
            },
        }
        self.changed_tournaments.push(tournament_id);
        Ok(())
    }

    /// Ends a batch of changes: hands out the tournaments that changed, in the order
    /// of the changes (a tournament changed twice is listed twice), and whether the
    /// model must be saved, which is when anything changed. The record is cleared.
    pub fn process_updates(&mut self) -> (r: Updates)
        ensures
            r.changed@ == old(self)@.changed,
            r.save == (old(self)@.changed.len() > 0),
            final(self)@ == (ModelView { changed: Seq::empty(), ..old(self)@ }),
            well_formed(old(self)@) ==> well_formed(final(self)@),
    {
        let mut changed: Vec<TournamentId> = Vec::new();
        std::mem::swap(&mut changed, &mut self.changed_tournaments);
        let save = changed.len() > 0;
        Updates { changed, save }
    }
}

} // verus!
