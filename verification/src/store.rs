//! The relational store: scenarios own games, games own their stats,
//! tile and key/value rows, and playlists group scenarios with a repetition
//! count. All rows live in insertion order; identifiers are handed out by
//! monotone counters, so each table is sorted by id.
//!
//! Days are counted as plain day numbers; the caller supplies "today" and
//! the store never reads a clock.

use vstd::prelude::*;

use crate::fingerprint::{calculate_hash, fingerprint};
use crate::records::{Data, DataV, KeyValueRecord, KeyValueV, Stats, StatsV, TileRowV,
    TilesRecords};

verus! {

/// How far a fresh playlist's start is pushed into the future, in days.
pub const FAR_FUTURE_START_DAYS: u64 = 7305;

/// How far a playlist's end is pushed into the future, in days.
pub const FAR_FUTURE_END_DAYS: u64 = 8036;

#[derive(Clone, Copy, Debug, PartialEq, Eq, Structural)]
pub enum Difficulty {
    Easy,
    Medium,
    Hard,
}

#[derive(Clone, Copy, Debug, PartialEq, Eq, Structural)]
pub enum PlaylistState {
    Active,
    Inactive,
}

#[derive(Debug)]
pub struct Settings {
    pub directory_path: String,
}

#[verifier::ext_equal]
pub struct SettingsV {
    pub directory_path: Seq<char>,
}

impl View for Settings {
    type V = SettingsV;

    open spec fn view(&self) -> SettingsV {
        SettingsV { directory_path: self.directory_path@ }
    }
}

impl Clone for Settings {
    fn clone(&self) -> (r: Self)
        ensures
            r == *self,
    {
        Settings { directory_path: self.directory_path.clone() }
    }
}

#[derive(Debug)]
pub struct Scenario {
    pub id: u64,
    pub name: String,
    pub difficulty: Difficulty,
    pub created_day: u64,
    pub games_count: u64,
}

#[verifier::ext_equal]
pub struct ScenarioV {
    pub id: u64,
    pub name: Seq<char>,
    pub difficulty: Difficulty,
    pub created_day: u64,
    pub games_count: u64,
}

impl View for Scenario {
    type V = ScenarioV;

    open spec fn view(&self) -> ScenarioV {
        ScenarioV {
            id: self.id,
            name: self.name@,
            difficulty: self.difficulty,
            created_day: self.created_day,
            games_count: self.games_count,
        }
    }
}

impl Clone for Scenario {
    fn clone(&self) -> (r: Self)
        ensures
            r == *self,
    {
        Scenario {
            id: self.id,
            name: self.name.clone(),
            difficulty: self.difficulty,
            created_day: self.created_day,
            games_count: self.games_count,
        }
    }
}

#[derive(Debug)]
pub struct Game {
    pub id: u64,
    pub hash: i64,
    pub scenario_id: u64,
    pub name: String,
    pub created_day: u64,
}

#[verifier::ext_equal]
pub struct GameV {
    pub id: u64,
    pub hash: i64,
    pub scenario_id: u64,
    pub name: Seq<char>,
    pub created_day: u64,
}

impl View for Game {
    type V = GameV;

    open spec fn view(&self) -> GameV {
        GameV {
            id: self.id,
            hash: self.hash,
            scenario_id: self.scenario_id,
            name: self.name@,
            created_day: self.created_day,
        }
    }
}

impl Clone for Game {
    fn clone(&self) -> (r: Self)
        ensures
            r == *self,
    {
        Game {
            id: self.id,
            hash: self.hash,
            scenario_id: self.scenario_id,
            name: self.name.clone(),
            created_day: self.created_day,
        }
    }
}

/// A stats row, owned by one game.
#[derive(Debug)]
pub struct GameStats {
    pub game_id: u64,
    pub stats: Stats,
}

#[verifier::ext_equal]
pub struct GameStatsV {
    pub game_id: u64,
    pub stats: StatsV,
}

impl View for GameStats {
    type V = GameStatsV;

    open spec fn view(&self) -> GameStatsV {
        GameStatsV { game_id: self.game_id, stats: self.stats@ }
    }
}

/// A tile row, owned by one game.
#[derive(Debug)]
pub struct GameTile {
    pub game_id: u64,
    pub tile: TilesRecords,
}

#[verifier::ext_equal]
pub struct GameTileV {
    pub game_id: u64,
    pub tile: TileRowV,
}

impl View for GameTile {
    type V = GameTileV;

    open spec fn view(&self) -> GameTileV {
        GameTileV { game_id: self.game_id, tile: self.tile@ }
    }
}

/// A key/value row, owned by one game.
#[derive(Debug)]
pub struct GameKeyValue {
    pub game_id: u64,
    pub record: KeyValueRecord,
}

#[verifier::ext_equal]
pub struct GameKeyValueV {
    pub game_id: u64,
    pub record: KeyValueV,
}

impl View for GameKeyValue {
    type V = GameKeyValueV;

    open spec fn view(&self) -> GameKeyValueV {
        GameKeyValueV { game_id: self.game_id, record: self.record@ }
    }
}

#[derive(Debug)]
pub struct Playlist {
    pub id: u64,
    pub name: String,
    pub description: String,
    pub duration: u8,
    pub state: PlaylistState,
    pub started_day: u64,
    pub ended_day: u64,
    pub created_day: u64,
}

#[verifier::ext_equal]
pub struct PlaylistV {
    pub id: u64,
    pub name: Seq<char>,
    pub description: Seq<char>,
    pub duration: u8,
    pub state: PlaylistState,
    pub started_day: u64,
    pub ended_day: u64,
    pub created_day: u64,
}

impl View for Playlist {
    type V = PlaylistV;

    open spec fn view(&self) -> PlaylistV {
        PlaylistV {
            id: self.id,
            name: self.name@,
            description: self.description@,
            duration: self.duration,
            state: self.state,
            started_day: self.started_day,
            ended_day: self.ended_day,
            created_day: self.created_day,
        }
    }
}

impl Clone for Playlist {
    fn clone(&self) -> (r: Self)
        ensures
            r == *self,
    {
        Playlist {
            id: self.id,
            name: self.name.clone(),
            description: self.description.clone(),
            duration: self.duration,
            state: self.state,
            started_day: self.started_day,
            ended_day: self.ended_day,
            created_day: self.created_day,
        }
    }
}

/// One scenario/repetitions pair in a playlist-insertion request.
#[derive(Clone, Copy, Debug, PartialEq, Eq, Structural)]
pub struct ScenarioPlaylist {
    pub scenario_id: u64,
    pub reps: u64,
}

/// A playlist-insertion request.
#[derive(Debug)]
pub struct InsertPlaylist {
    pub name: String,
    pub description: String,
    pub duration: u8,
    pub scenarios: Vec<ScenarioPlaylist>,
}

#[verifier::ext_equal]
pub struct InsertPlaylistV {
    pub name: Seq<char>,
    pub description: Seq<char>,
    pub duration: u8,
    pub scenarios: Seq<ScenarioPlaylist>,
}

impl View for InsertPlaylist {
    type V = InsertPlaylistV;

    open spec fn view(&self) -> InsertPlaylistV {
        InsertPlaylistV {
            name: self.name@,
            description: self.description@,
            duration: self.duration,
            scenarios: self.scenarios@,
        }
    }
}

/// One stored playlist/scenario association, carrying its repetitions.
#[derive(Clone, Copy, Debug, PartialEq, Eq, Structural)]
pub struct PlaylistEntry {
    pub playlist_id: u64,
    pub scenario_id: u64,
    pub reps: u64,
}

/// Mathematical image of the whole store.
#[verifier::ext_equal]
pub struct StoreV {
    pub settings: SettingsV,
    pub scenarios: Seq<ScenarioV>,
    pub games: Seq<GameV>,
    pub stats_rows: Seq<GameStatsV>,
    pub tile_rows: Seq<GameTileV>,
    pub key_value_rows: Seq<GameKeyValueV>,
    pub playlists: Seq<PlaylistV>,
    pub playlist_entries: Seq<PlaylistEntry>,
    pub next_scenario_id: u64,
    pub next_game_id: u64,
    pub next_playlist_id: u64,
}

/// The relational store itself.
pub struct Store {
    pub(crate) settings: Settings,
    pub(crate) scenarios: Vec<Scenario>,
    pub(crate) games: Vec<Game>,
    pub(crate) stats_rows: Vec<GameStats>,
    pub(crate) tile_rows: Vec<GameTile>,
    pub(crate) key_value_rows: Vec<GameKeyValue>,
    pub(crate) playlists: Vec<Playlist>,
    pub(crate) playlist_entries: Vec<PlaylistEntry>,
    pub(crate) next_scenario_id: u64,
    pub(crate) next_game_id: u64,
    pub(crate) next_playlist_id: u64,
}

impl View for Store {
    type V = StoreV;

    closed spec fn view(&self) -> StoreV {
        StoreV {
            settings: self.settings@,
            scenarios: self.scenarios@.map_values(|x: Scenario| x@),
            games: self.games@.map_values(|x: Game| x@),
            stats_rows: self.stats_rows@.map_values(|x: GameStats| x@),
            tile_rows: self.tile_rows@.map_values(|x: GameTile| x@),
            key_value_rows: self.key_value_rows@.map_values(|x: GameKeyValue| x@),
            playlists: self.playlists@.map_values(|x: Playlist| x@),
            playlist_entries: self.playlist_entries@,
            next_scenario_id: self.next_scenario_id,
            next_game_id: self.next_game_id,
            next_playlist_id: self.next_playlist_id,
        }
    }
}

// ---------------------------------------------------------------------------
// Spec-level queries over the store image
// ---------------------------------------------------------------------------

pub open spec fn has_scenario_id(s: StoreV, id: u64) -> bool {
    exists|k: int| 0 <= k < s.scenarios.len() && (#[trigger] s.scenarios[k]).id == id
}

pub open spec fn has_game_id(s: StoreV, id: u64) -> bool {
    exists|k: int| 0 <= k < s.games.len() && (#[trigger] s.games[k]).id == id
}

pub open spec fn has_playlist_id(s: StoreV, id: u64) -> bool {
    exists|k: int| 0 <= k < s.playlists.len() && (#[trigger] s.playlists[k]).id == id
}

/// Whether a run with this fingerprint is already stored.
pub open spec fn has_game_with_hash(s: StoreV, h: i64) -> bool {
    exists|k: int| 0 <= k < s.games.len() && (#[trigger] s.games[k]).hash == h
}

pub open spec fn has_stats_for(s: StoreV, game_id: u64) -> bool {
    exists|k: int| 0 <= k < s.stats_rows.len() && (#[trigger] s.stats_rows[k]).game_id == game_id
}

pub open spec fn has_scenario_named(s: StoreV, n: Seq<char>) -> bool {
    exists|k: int| 0 <= k < s.scenarios.len() && (#[trigger] s.scenarios[k]).name == n
}

/// The scenario with this name; meaningful under well-formedness, which
/// makes names unique.
pub open spec fn scenario_named(s: StoreV, n: Seq<char>) -> ScenarioV {
    s.scenarios[choose|k: int| 0 <= k < s.scenarios.len() && (#[trigger] s.scenarios[k]).name
        == n]
}

/// The one stats record of a game; meaningful under well-formedness.
pub open spec fn stats_of_game(s: StoreV, game_id: u64) -> StatsV {
    s.stats_rows[choose|k: int|
        0 <= k < s.stats_rows.len() && (#[trigger] s.stats_rows[k]).game_id == game_id].stats
}

pub open spec fn tiles_of_game(s: StoreV, game_id: u64) -> Seq<TileRowV> {
    s.tile_rows.filter(|r: GameTileV| r.game_id == game_id).map_values(|r: GameTileV| r.tile)
}

pub open spec fn kvs_of_game(s: StoreV, game_id: u64) -> Seq<KeyValueV> {
    s.key_value_rows.filter(|r: GameKeyValueV| r.game_id == game_id).map_values(
        |r: GameKeyValueV| r.record,
    )
}

/// A stored game with its children, reassembled as a parsed run.
pub open spec fn game_data(s: StoreV, game_id: u64) -> DataV {
    DataV {
        tiles: tiles_of_game(s, game_id),
        key_value: kvs_of_game(s, game_id),
        stats: stats_of_game(s, game_id),
    }
}

pub open spec fn games_of_scenario(s: StoreV, scenario_id: u64) -> Seq<GameV> {
    s.games.filter(|g: GameV| g.scenario_id == scenario_id)
}

pub open spec fn games_count_of(s: StoreV, scenario_id: u64) -> nat {
    games_of_scenario(s, scenario_id).len()
}

/// Well-formedness does not depend on the settings: two store images with
/// the same tables and counters are well-formed together.
pub proof fn lemma_wf_same_tables(a: StoreV, b: StoreV)
    requires
        wf_store(a),
        b.scenarios == a.scenarios,
        b.games == a.games,
        b.stats_rows == a.stats_rows,
        b.tile_rows == a.tile_rows,
        b.key_value_rows == a.key_value_rows,
        b.playlists == a.playlists,
        b.playlist_entries == a.playlist_entries,
        b.next_scenario_id == a.next_scenario_id,
        b.next_game_id == a.next_game_id,
        b.next_playlist_id == a.next_playlist_id,
    ensures
        wf_store(b),
{
    assert forall|id: u64| has_scenario_id(a, id) implies has_scenario_id(b, id) by {
        let k = choose|k: int|
            0 <= k < a.scenarios.len() && (#[trigger] a.scenarios[k]).id == id;
        assert(b.scenarios[k].id == id);
    }
    assert forall|id: u64| has_game_id(a, id) implies has_game_id(b, id) by {
        let k = choose|k: int| 0 <= k < a.games.len() && (#[trigger] a.games[k]).id == id;
        assert(b.games[k].id == id);
    }
    assert forall|id: u64| has_playlist_id(a, id) implies has_playlist_id(b, id) by {
        let k = choose|k: int| 0 <= k < a.playlists.len() && (#[trigger] a.playlists[k]).id == id;
        assert(b.playlists[k].id == id);
    }
    assert forall|id: u64| has_stats_for(a, id) implies has_stats_for(b, id) by {
        let k = choose|k: int|
            0 <= k < a.stats_rows.len() && (#[trigger] a.stats_rows[k]).game_id == id;
        assert(b.stats_rows[k].game_id == id);
    }
}

/// Filtering a sequence extended by one element keeps the old result and
/// appends the element exactly when it satisfies the predicate.
pub proof fn lemma_filter_push<A>(s: Seq<A>, pred: spec_fn(A) -> bool, x: A)
    ensures
        s.push(x).filter(pred) == if pred(x) {
            s.filter(pred).push(x)
        } else {
            s.filter(pred)
        },
{
    reveal(Seq::filter);
    assert(s.push(x).drop_last() =~= s);
    assert(s.push(x).last() == x);
}

// ---------------------------------------------------------------------------
// Well-formedness
// ---------------------------------------------------------------------------

pub open spec fn wf_store(s: StoreV) -> bool {
    // identifiers grow with insertion order and stay below the counters
    &&& forall|i: int, j: int|
        0 <= i < j < s.scenarios.len() ==> (#[trigger] s.scenarios[i]).id < (
        #[trigger] s.scenarios[j]).id
    &&& forall|i: int| 0 <= i < s.scenarios.len() ==> (#[trigger] s.scenarios[i]).id
        < s.next_scenario_id
    &&& forall|i: int, j: int|
        0 <= i < j < s.games.len() ==> (#[trigger] s.games[i]).id < (#[trigger] s.games[j]).id
    &&& forall|i: int| 0 <= i < s.games.len() ==> (#[trigger] s.games[i]).id < s.next_game_id
    &&& forall|i: int, j: int|
        0 <= i < j < s.playlists.len() ==> (#[trigger] s.playlists[i]).id < (
        #[trigger] s.playlists[j]).id
    &&& forall|i: int| 0 <= i < s.playlists.len() ==> (#[trigger] s.playlists[i]).id
        < s.next_playlist_id
    // scenario names are unique
    &&& forall|i: int, j: int|
        0 <= i < j < s.scenarios.len() ==> (#[trigger] s.scenarios[i]).name != (
        #[trigger] s.scenarios[j]).name
    // referential integrity
    &&& forall|i: int| 0 <= i < s.games.len() ==> has_scenario_id(
        s,
        (#[trigger] s.games[i]).scenario_id,
    )
    &&& forall|i: int| 0 <= i < s.stats_rows.len() ==> has_game_id(
        s,
        (#[trigger] s.stats_rows[i]).game_id,
    )
    &&& forall|i: int| 0 <= i < s.tile_rows.len() ==> has_game_id(
        s,
        (#[trigger] s.tile_rows[i]).game_id,
    )
    &&& forall|i: int| 0 <= i < s.key_value_rows.len() ==> has_game_id(
        s,
        (#[trigger] s.key_value_rows[i]).game_id,
    )
    &&& forall|i: int| 0 <= i < s.playlist_entries.len() ==> has_playlist_id(
        s,
        (#[trigger] s.playlist_entries[i]).playlist_id,
    ) && has_scenario_id(s, s.playlist_entries[i].scenario_id)
    // every game owns exactly one stats row
    &&& forall|i: int, j: int|
        0 <= i < j < s.stats_rows.len() ==> (#[trigger] s.stats_rows[i]).game_id != (
        #[trigger] s.stats_rows[j]).game_id
    &&& forall|i: int| 0 <= i < s.games.len() ==> has_stats_for(s, (#[trigger] s.games[i]).id)
}

impl Store {
    pub open spec fn wf(&self) -> bool {
        wf_store(self@)
    }

    /// How the store's image is assembled from its tables, for sibling
    /// modules that state loop invariants over both.
    pub(crate) proof fn view_facts(&self)
        ensures
            self@.settings == self.settings@,
            self@.scenarios == self.scenarios@.map_values(|x: Scenario| x@),
            self@.games == self.games@.map_values(|x: Game| x@),
            self@.stats_rows == self.stats_rows@.map_values(|x: GameStats| x@),
            self@.tile_rows == self.tile_rows@.map_values(|x: GameTile| x@),
            self@.key_value_rows == self.key_value_rows@.map_values(|x: GameKeyValue| x@),
            self@.playlists == self.playlists@.map_values(|x: Playlist| x@),
            self@.playlist_entries == self.playlist_entries@,
            self@.next_scenario_id == self.next_scenario_id,
            self@.next_game_id == self.next_game_id,
            self@.next_playlist_id == self.next_playlist_id,
    {
    }

    /// An empty store with the given scan-root path.
    pub fn new(directory_path: String) -> (r: Store)
        ensures
            r.wf(),
            r@ == (StoreV {
                settings: SettingsV { directory_path: directory_path@ },
                scenarios: Seq::empty(),
                games: Seq::empty(),
                stats_rows: Seq::empty(),
                tile_rows: Seq::empty(),
                key_value_rows: Seq::empty(),
                playlists: Seq::empty(),
                playlist_entries: Seq::empty(),
                next_scenario_id: 1,
                next_game_id: 1,
                next_playlist_id: 1,
            }),
    {
        let r = Store {
            settings: Settings { directory_path },
            scenarios: Vec::new(),
            games: Vec::new(),
            stats_rows: Vec::new(),
            tile_rows: Vec::new(),
            key_value_rows: Vec::new(),
            playlists: Vec::new(),
            playlist_entries: Vec::new(),
            next_scenario_id: 1,
            next_game_id: 1,
            next_playlist_id: 1,
        };
        proof {
            assert(r@ =~= (StoreV {
                settings: SettingsV { directory_path: directory_path@ },
                scenarios: Seq::empty(),
                games: Seq::empty(),
                stats_rows: Seq::empty(),
                tile_rows: Seq::empty(),
                key_value_rows: Seq::empty(),
                playlists: Seq::empty(),
                playlist_entries: Seq::empty(),
                next_scenario_id: 1,
                next_game_id: 1,
                next_playlist_id: 1,
            }));
        }
        r
    }

    /// The stored settings.
    pub fn get_settings(&self) -> (r: Settings)
        ensures
            r@ == self@.settings,
    {
        self.settings.clone()
    }

    /// Replace the stored settings; nothing else moves.
    pub fn update_settings(&mut self, settings: Settings)
        ensures
            final(self)@ == (StoreV { settings: settings@, ..old(self)@ }),
            old(self).wf() ==> final(self).wf(),
    {
        self.settings = settings;
        proof {
            assert(self@ =~= (StoreV { settings: self.settings@, ..old(self)@ }));
            if wf_store(old(self)@) {
                lemma_wf_same_tables(old(self)@, self@);
            }
        }
    }

    /// Whether the id counters leave room for another ingestion.
    pub fn can_insert_game(&self) -> (r: bool)
        ensures
            r == (self@.next_game_id < u64::MAX && self@.next_scenario_id < u64::MAX),
    {
        self.next_game_id < u64::MAX && self.next_scenario_id < u64::MAX
    }

    /// Whether the id counter leaves room for another playlist.
    pub fn can_insert_playlist(&self) -> (r: bool)
        ensures
            r == (self@.next_playlist_id < u64::MAX),
    {
        self.next_playlist_id < u64::MAX
    }

    /// Whether a game with this content hash is already stored.
    pub fn game_exists(&self, hash: i64) -> (r: bool)
        ensures
            r == has_game_with_hash(self@, hash),
    {
        let mut i: usize = 0;
        while i < self.games.len()
            invariant
                i <= self.games@.len(),
                self@.games == self.games@.map_values(|x: Game| x@),
                forall|k: int| 0 <= k < i ==> (#[trigger] self@.games[k]).hash != hash,
            decreases self.games@.len() - i,
        {
            if self.games[i].hash == hash {
                proof {
                    assert(self@.games[i as int].hash == hash);
                }
                return true;
            }
            i = i + 1;
        }
        false
    }

    /// Look a scenario up by name; under well-formedness at most one can
    /// match.
    pub fn scenario_exists(&self, name: &String) -> (r: Option<Scenario>)
        requires
            self.wf(),
        ensures
            match r {
                Some(sc) => has_scenario_named(self@, name@) && sc@ == scenario_named(
                    self@,
                    name@,
                ),
                None => !has_scenario_named(self@, name@),
            },
    {
        let mut i: usize = 0;
        while i < self.scenarios.len()
            invariant
                i <= self.scenarios@.len(),
                self@.scenarios == self.scenarios@.map_values(|x: Scenario| x@),
                self.wf(),
                forall|k: int| 0 <= k < i ==> (#[trigger] self@.scenarios[k]).name != name@,
            decreases self.scenarios@.len() - i,
        {
            if crate::parse::str_eq(self.scenarios[i].name.as_str(), name.as_str()) {
                let sc = self.scenarios[i].clone();
                proof {
                    assert(self@.scenarios[i as int].name == name@);
                    let j = choose|k: int|
                        0 <= k < self@.scenarios.len() && (#[trigger] self@.scenarios[k]).name
                            == name@;
                    assert(self@.scenarios[j].name == name@);
                    if j != i as int {
                        assert(self@.scenarios[j].name != self@.scenarios[i as int].name);
                        assert(false);
                    }
                }
                return Some(sc);
            }
            i = i + 1;
        }
        None
    }

    /// All key/value rows of one game, in insertion order.
    pub fn fetch_key_value(&self, game_id: u64) -> (r: Vec<KeyValueRecord>)
        ensures
            r@.map_values(|x: KeyValueRecord| x@) == kvs_of_game(self@, game_id),
    {
        let mut out: Vec<KeyValueRecord> = Vec::new();
        let mut i: usize = 0;
        proof {
            assert(self@.key_value_rows.take(0) =~= Seq::<GameKeyValueV>::empty());
            reveal(Seq::filter);
        }
        while i < self.key_value_rows.len()
            invariant
                i <= self.key_value_rows@.len(),
                self@.key_value_rows == self.key_value_rows@.map_values(|x: GameKeyValue| x@),
                out@.map_values(|x: KeyValueRecord| x@) == self@.key_value_rows.take(
                    i as int,
                ).filter(|row: GameKeyValueV| row.game_id == game_id).map_values(
                    |row: GameKeyValueV| row.record,
                ),
            decreases self.key_value_rows@.len() - i,
        {
            proof {
                assert(self@.key_value_rows.take(i + 1) =~= self@.key_value_rows.take(
                    i as int,
                ).push(self@.key_value_rows[i as int]));
                lemma_filter_push(
                    self@.key_value_rows.take(i as int),
                    |row: GameKeyValueV| row.game_id == game_id,
                    self@.key_value_rows[i as int],
                );
            }
            if self.key_value_rows[i].game_id == game_id {
                let ghost old_out = out@;
                let ghost rowv = self@.key_value_rows[i as int];
                let rec = self.key_value_rows[i].record.clone();
                out.push(rec);
                proof {
                    let f = |x: KeyValueRecord| x@;
                    let g = |row: GameKeyValueV| row.record;
                    let p = |row: GameKeyValueV| row.game_id == game_id;
                    assert(out@ == old_out.push(self.key_value_rows@[i as int].record));
                    assert(self.key_value_rows@[i as int].record@ == rowv.record);
                    assert(out@.map_values(f) =~= old_out.map_values(f).push(rowv.record));
                    assert(self@.key_value_rows.take(i + 1).filter(p)
                        == self@.key_value_rows.take(i as int).filter(p).push(rowv));
                    assert(self@.key_value_rows.take(i + 1).filter(p).map_values(g)
                        =~= self@.key_value_rows.take(i as int).filter(p).map_values(g).push(
                        rowv.record,
                    ));
                    assert(out@.map_values(f) == self@.key_value_rows.take(i + 1).filter(
                        p,
                    ).map_values(g));
                }
            } else {
                proof {
                    assert(out@.map_values(|x: KeyValueRecord| x@) =~= self@.key_value_rows.take(
                        i + 1,
                    ).filter(|row: GameKeyValueV| row.game_id == game_id).map_values(
                        |row: GameKeyValueV| row.record,
                    ));
                }
            }
            i = i + 1;
        }
        proof {
            assert(self@.key_value_rows.take(self.key_value_rows@.len() as int)
                =~= self@.key_value_rows);
        }
        out
    }

    /// All tile rows of one game, in insertion order.
    pub fn fetch_tiles(&self, game_id: u64) -> (r: Vec<TilesRecords>)
        ensures
            r@.map_values(|x: TilesRecords| x@) == tiles_of_game(self@, game_id),
    {
        let mut out: Vec<TilesRecords> = Vec::new();
        let mut i: usize = 0;
        proof {
            assert(self@.tile_rows.take(0) =~= Seq::<GameTileV>::empty());
            reveal(Seq::filter);
        }
        while i < self.tile_rows.len()
            invariant
                i <= self.tile_rows@.len(),
                self@.tile_rows == self.tile_rows@.map_values(|x: GameTile| x@),
                out@.map_values(|x: TilesRecords| x@) == self@.tile_rows.take(i as int).filter(
                    |row: GameTileV| row.game_id == game_id,
                ).map_values(|row: GameTileV| row.tile),
            decreases self.tile_rows@.len() - i,
        {
            proof {
                assert(self@.tile_rows.take(i + 1) =~= self@.tile_rows.take(i as int).push(
                    self@.tile_rows[i as int],
                ));
                lemma_filter_push(
                    self@.tile_rows.take(i as int),
                    |row: GameTileV| row.game_id == game_id,
                    self@.tile_rows[i as int],
                );
            }
            if self.tile_rows[i].game_id == game_id {
                let ghost old_out = out@;
                let ghost rowv = self@.tile_rows[i as int];
                let rec = self.tile_rows[i].tile.clone();
                out.push(rec);
                proof {
                    let f = |x: TilesRecords| x@;
                    let g = |row: GameTileV| row.tile;
                    let p = |row: GameTileV| row.game_id == game_id;
                    assert(out@ == old_out.push(self.tile_rows@[i as int].tile));
                    assert(self.tile_rows@[i as int].tile@ == rowv.tile);
                    assert(out@.map_values(f) =~= old_out.map_values(f).push(rowv.tile));
                    assert(self@.tile_rows.take(i + 1).filter(p) == self@.tile_rows.take(
                        i as int,
                    ).filter(p).push(rowv));
                    assert(self@.tile_rows.take(i + 1).filter(p).map_values(g)
                        =~= self@.tile_rows.take(i as int).filter(p).map_values(g).push(
                        rowv.tile,
                    ));
                    assert(out@.map_values(f) == self@.tile_rows.take(i + 1).filter(p).map_values(
                        g,
                    ));
                }
            } else {
                proof {
                    assert(out@.map_values(|x: TilesRecords| x@) =~= self@.tile_rows.take(
                        i + 1,
                    ).filter(|row: GameTileV| row.game_id == game_id).map_values(
                        |row: GameTileV| row.tile,
                    ));
                }
            }
            i = i + 1;
        }
        proof {
            assert(self@.tile_rows.take(self.tile_rows@.len() as int) =~= self@.tile_rows);
        }
        out
    }

    /// The stats record of one game; absent when no such game is stored.
    pub fn fetch_stats(&self, game_id: u64) -> (r: Option<Stats>)
        requires
            self.wf(),
        ensures
            match r {
                Some(st) => exists|k: int|
                    0 <= k < self@.stats_rows.len() && (#[trigger] self@.stats_rows[k]).game_id
                        == game_id && st@ == stats_of_game(self@, game_id),
                None => forall|k: int|
                    0 <= k < self@.stats_rows.len() ==> (#[trigger] self@.stats_rows[k]).game_id
                        != game_id,
            },
    {
        let mut i: usize = 0;
        while i < self.stats_rows.len()
            invariant
                i <= self.stats_rows@.len(),
                self@.stats_rows == self.stats_rows@.map_values(|x: GameStats| x@),
                self.wf(),
                forall|k: int| 0 <= k < i ==> (#[trigger] self@.stats_rows[k]).game_id != game_id,
            decreases self.stats_rows@.len() - i,
        {
            if self.stats_rows[i].game_id == game_id {
                let st = self.stats_rows[i].stats.clone();
                proof {
                    assert(self@.stats_rows[i as int].game_id == game_id);
                    let j = choose|k: int|
                        0 <= k < self@.stats_rows.len() && (#[trigger] self@.stats_rows[k]).game_id
                            == game_id;
                    assert(self@.stats_rows[j].game_id == game_id);
                    if j != i as int {
                        assert(self@.stats_rows[j].game_id != self@.stats_rows[i as int].game_id);
                        assert(false);
                    }
                }
                return Some(st);
            }
            i = i + 1;
        }
        None
    }
}

// ---------------------------------------------------------------------------
// Ingestion
// ---------------------------------------------------------------------------

#[derive(Clone, Copy, Debug, PartialEq, Eq, Structural)]
pub enum IngestOutcome {
    /// The run was new and has been written with all its child rows.
    Inserted,
    /// A game with the same fingerprint already existed: a no-op success.
    Duplicate,
}

#[derive(Clone, Copy, Debug, PartialEq, Eq, Structural)]
pub enum IngestError {
    /// The run does not carry exactly one `Scenario:` key/value record.
    MissingScenarioTag,
}

/// A fresh scenario row with default difficulty.
pub open spec fn spec_add_scenario(s: StoreV, n: Seq<char>, now: u64) -> StoreV {
    StoreV {
        scenarios: s.scenarios.push(
            ScenarioV {
                id: s.next_scenario_id,
                name: n,
                difficulty: Difficulty::Easy,
                created_day: now,
                games_count: 0,
            },
        ),
        next_scenario_id: (s.next_scenario_id + 1) as u64,
        ..s
    }
}

/// Reuse the scenario with this name, or create it.
pub open spec fn spec_resolve_scenario(s: StoreV, n: Seq<char>, now: u64) -> StoreV {
    if has_scenario_named(s, n) {
        s
    } else {
        spec_add_scenario(s, n, now)
    }
}

/// One new game row and all its child rows, in one step.
pub open spec fn spec_add_game(s: StoreV, d: DataV, scenario_id: u64, now: u64) -> StoreV {
    let gid = s.next_game_id;
    StoreV {
        games: s.games.push(
            GameV {
                id: gid,
                hash: fingerprint(d),
                scenario_id: scenario_id,
                name: "name"@,
                created_day: now,
            },
        ),
        stats_rows: s.stats_rows.push(GameStatsV { game_id: gid, stats: d.stats }),
        tile_rows: s.tile_rows + d.tiles.map_values(
            |t: TileRowV| GameTileV { game_id: gid, tile: t },
        ),
        key_value_rows: s.key_value_rows + d.key_value.map_values(
            |kv: KeyValueV| GameKeyValueV { game_id: gid, record: kv },
        ),
        next_game_id: (s.next_game_id + 1) as u64,
        ..s
    }
}

/// The whole ingestion step for a run that is not yet stored and names
/// the scenario `n`.
pub open spec fn spec_ingest(s: StoreV, d: DataV, n: Seq<char>, now: u64) -> StoreV {
    let s1 = spec_resolve_scenario(s, n, now);
    spec_add_game(s1, d, scenario_named(s1, n).id, now)
}

/// The scenario tag among a run's key/value records: present exactly when
/// exactly one record carries the key `Scenario:`.
pub open spec fn scenario_tag_in(kvs: Seq<KeyValueV>) -> Option<Seq<char>> {
    let hits = kvs.filter(|kv: KeyValueV| kv.key == "Scenario:"@);
    if hits.len() == 1 {
        Some(hits[0].value)
    } else {
        None
    }
}

pub open spec fn scenario_tag_of(d: DataV) -> Option<Seq<char>> {
    scenario_tag_in(d.key_value)
}

/// Find the run's scenario tag: the value of the key/value record with
/// key `Scenario:`, required to occur exactly once.
pub fn scenario_tag(key_value: &Vec<KeyValueRecord>) -> (r: Option<String>)
    ensures
        crate::records::view_opt_text(r) == scenario_tag_in(
            key_value@.map_values(|x: KeyValueRecord| x@),
        ),
{
    let ghost kvs = key_value@.map_values(|x: KeyValueRecord| x@);
    let ghost pred = |kv: KeyValueV| kv.key == "Scenario:"@;
    let mut found: Option<String> = None;
    let mut count: usize = 0;
    let mut i: usize = 0;
    proof {
        assert(kvs.take(0) =~= Seq::<KeyValueV>::empty());
        reveal(Seq::filter);
    }
    while i < key_value.len()
        invariant
            i <= key_value@.len(),
            count <= i,
            kvs == key_value@.map_values(|x: KeyValueRecord| x@),
            count == kvs.take(i as int).filter(|kv: KeyValueV| kv.key == "Scenario:"@).len(),
            count == 0 ==> found is None,
            count > 0 ==> found is Some && found.unwrap()@ == kvs.take(i as int).filter(
                |kv: KeyValueV| kv.key == "Scenario:"@,
            )[0].value,
        decreases key_value@.len() - i,
    {
        proof {
            assert(kvs.take(i + 1) =~= kvs.take(i as int).push(kvs[i as int]));
            lemma_filter_push(
                kvs.take(i as int),
                |kv: KeyValueV| kv.key == "Scenario:"@,
                kvs[i as int],
            );
        }
        if crate::parse::str_eq(key_value[i].key.as_str(), "Scenario:") {
            if count == 0 {
                found = Some(key_value[i].value.clone());
            }
            count = count + 1;
        }
        i = i + 1;
    }
    proof {
        assert(kvs.take(key_value@.len() as int) =~= kvs);
    }
    if count == 1 {
        found
    } else {
        None
    }
}

/// A full ingestion step keeps the store well-formed.
pub proof fn lemma_ingest_preserves_wf(s: StoreV, d: DataV, n: Seq<char>, now: u64)
    requires
        wf_store(s),
        s.next_game_id < u64::MAX,
        s.next_scenario_id < u64::MAX,
    ensures
        wf_store(spec_ingest(s, d, n, now)),
{
    let s1 = spec_resolve_scenario(s, n, now);
    // the resolved store is well-formed and keeps every old row
    assert forall|id: u64| has_scenario_id(s, id) implies has_scenario_id(s1, id) by {
        let k = choose|k: int|
            0 <= k < s.scenarios.len() && (#[trigger] s.scenarios[k]).id == id;
        assert(s1.scenarios[k].id == id);
    }
    assert(wf_store(s1));
    let t = spec_ingest(s, d, n, now);
    let gid = s1.next_game_id;
    // old scenarios and games carry over
    assert forall|id: u64| has_scenario_id(s1, id) implies has_scenario_id(t, id) by {
        let k = choose|k: int|
            0 <= k < s1.scenarios.len() && (#[trigger] s1.scenarios[k]).id == id;
        assert(t.scenarios[k].id == id);
    }
    assert forall|id: u64| has_game_id(s1, id) implies has_game_id(t, id) by {
        let k = choose|k: int| 0 <= k < s1.games.len() && (#[trigger] s1.games[k]).id == id;
        assert(t.games[k].id == id);
    }
    assert forall|id: u64| has_playlist_id(s1, id) implies has_playlist_id(t, id) by {
        let k = choose|k: int|
            0 <= k < s1.playlists.len() && (#[trigger] s1.playlists[k]).id == id;
        assert(t.playlists[k].id == id);
    }
    assert forall|id: u64| has_stats_for(s1, id) implies has_stats_for(t, id) by {
        let k = choose|k: int|
            0 <= k < s1.stats_rows.len() && (#[trigger] s1.stats_rows[k]).game_id == id;
        assert(t.stats_rows[k].game_id == id);
    }
    // every old stats row names a game older than the new one
    assert forall|i: int| 0 <= i < s1.stats_rows.len() implies (
    #[trigger] s1.stats_rows[i]).game_id < gid by {
        let k = choose|k: int|
            0 <= k < s1.games.len() && (#[trigger] s1.games[k]).id == s1.stats_rows[i].game_id;
        assert(s1.games[k].id < s1.next_game_id);
    }
    // the new game's scenario exists
    if !has_scenario_named(s, n) {
        assert(s1.scenarios[s1.scenarios.len() - 1].name == n);
    }
    assert(has_scenario_named(s1, n));
    let sk = choose|k: int|
        0 <= k < s1.scenarios.len() && (#[trigger] s1.scenarios[k]).name == n;
    assert(t.scenarios[sk].id == scenario_named(s1, n).id);
    assert(has_scenario_id(t, scenario_named(s1, n).id));
    // the new game and its children line up
    assert(t.games[t.games.len() - 1].id == gid);
    assert(has_game_id(t, gid));
    assert(t.stats_rows[t.stats_rows.len() - 1].game_id == gid);
    assert(has_stats_for(t, gid));
    assert forall|i: int| 0 <= i < t.tile_rows.len() implies has_game_id(
        t,
        (#[trigger] t.tile_rows[i]).game_id,
    ) by {
        if i < s1.tile_rows.len() {
            assert(t.tile_rows[i] == s1.tile_rows[i]);
        } else {
            assert(t.tile_rows[i].game_id == gid);
        }
    }
    assert forall|i: int| 0 <= i < t.key_value_rows.len() implies has_game_id(
        t,
        (#[trigger] t.key_value_rows[i]).game_id,
    ) by {
        if i < s1.key_value_rows.len() {
            assert(t.key_value_rows[i] == s1.key_value_rows[i]);
        } else {
            assert(t.key_value_rows[i].game_id == gid);
        }
    }
    assert(wf_store(t));
}

impl Store {
    /// Ingest one parsed run.
    ///
    /// A run whose fingerprint is already stored is a no-op success. A
    /// run without exactly one `Scenario:` key/value record is rejected
    /// and nothing is written. Otherwise the scenario is reused or
    /// created with default difficulty, and the game with every child
    /// row is written in one step.
    pub fn insert_game(&mut self, data: &Data, now_day: u64) -> (r: Result<
        IngestOutcome,
        IngestError,
    >)
        requires
            old(self).wf(),
            old(self)@.next_game_id < u64::MAX,
            old(self)@.next_scenario_id < u64::MAX,
        ensures
            final(self).wf(),
            has_game_with_hash(old(self)@, fingerprint(data@)) ==> final(self)@ == old(self)@ && r
                == Ok::<IngestOutcome, IngestError>(IngestOutcome::Duplicate),
            !has_game_with_hash(old(self)@, fingerprint(data@)) && scenario_tag_of(data@) is None
                ==> final(self)@ == old(self)@ && r == Err::<IngestOutcome, IngestError>(
                IngestError::MissingScenarioTag,
            ),
            !has_game_with_hash(old(self)@, fingerprint(data@)) && scenario_tag_of(data@) is Some
                ==> final(self)@ == spec_ingest(
                old(self)@,
                data@,
                scenario_tag_of(data@).unwrap(),
                now_day,
            ) && r == Ok::<IngestOutcome, IngestError>(IngestOutcome::Inserted),
    {
        let h = calculate_hash(data);
        if self.game_exists(h) {
            return Ok(IngestOutcome::Duplicate);
        }
        let name = match scenario_tag(&data.key_value) {
            None => {
                return Err(IngestError::MissingScenarioTag);
            },
            Some(n) => n,
        };
        let ghost s0 = self@;
        let ghost nv = name@;
        let ghost s1 = spec_resolve_scenario(s0, nv, now_day);
        let sid: u64;
        match self.scenario_exists(&name) {
            Some(sc) => {
                sid = sc.id;
                proof {
                    assert(self@ == s1);
                    assert(sid == scenario_named(s1, nv).id);
                }
            },
            None => {
                let sc = Scenario {
                    id: self.next_scenario_id,
                    name: name,
                    difficulty: Difficulty::Easy,
                    created_day: now_day,
                    games_count: 0,
                };
                sid = sc.id;
                self.scenarios.push(sc);
                self.next_scenario_id = self.next_scenario_id + 1;
                proof {
                    assert(self@.scenarios =~= s0.scenarios.push(
                        ScenarioV {
                            id: s0.next_scenario_id,
                            name: nv,
                            difficulty: Difficulty::Easy,
                            created_day: now_day,
                            games_count: 0,
                        },
                    ));
                    assert(self@ =~= s1);
                    // the fresh scenario is the only one with this name
                    let k = choose|k: int|
                        0 <= k < s1.scenarios.len() && (#[trigger] s1.scenarios[k]).name == nv;
                    assert(s1.scenarios[s1.scenarios.len() - 1].name == nv);
                    if k != s1.scenarios.len() - 1 {
                        assert(s0.scenarios[k].name == nv);
                        assert(false);
                    }
                    assert(sid == scenario_named(s1, nv).id);
                }
            },
        }
        let gid = self.next_game_id;
        self.games.push(
            Game {
                id: gid,
                hash: h,
                scenario_id: sid,
                name: String::from_str("name"),
                created_day: now_day,
            },
        );
        self.next_game_id = self.next_game_id + 1;
        self.stats_rows.push(GameStats { game_id: gid, stats: data.stats.clone() });
        let ghost s2 = self@;
        let mut new_tiles: Vec<GameTile> = Vec::new();
        let mut i: usize = 0;
        proof {
            assert(data@.tiles.take(0).map_values(
                |t: TileRowV| GameTileV { game_id: gid, tile: t },
            ) =~= Seq::<GameTileV>::empty());
            assert(new_tiles@.map_values(|x: GameTile| x@) =~= Seq::<GameTileV>::empty());
        }
        while i < data.tiles.len()
            invariant
                i <= data.tiles@.len(),
                data@.tiles == data.tiles@.map_values(|t: TilesRecords| t@),
                new_tiles@.map_values(|x: GameTile| x@) == data@.tiles.take(i as int).map_values(
                    |t: TileRowV| GameTileV { game_id: gid, tile: t },
                ),
            decreases data.tiles@.len() - i,
        {
            let ghost old_out = new_tiles@;
            let tl = data.tiles[i].clone();
            let ghost tlv = tl@;
            new_tiles.push(GameTile { game_id: gid, tile: tl });
            proof {
                let f = |x: GameTile| x@;
                let m = |t: TileRowV| GameTileV { game_id: gid, tile: t };
                assert(tlv == data@.tiles[i as int]);
                assert(new_tiles@.map_values(f) =~= old_out.map_values(f).push(
                    GameTileV { game_id: gid, tile: tlv },
                ));
                assert(data@.tiles.take(i + 1) =~= data@.tiles.take(i as int).push(
                    data@.tiles[i as int],
                ));
                assert(data@.tiles.take(i + 1).map_values(m) =~= data@.tiles.take(
                    i as int,
                ).map_values(m).push(m(data@.tiles[i as int])));
                assert(new_tiles@.map_values(f) == data@.tiles.take(i + 1).map_values(m));
            }
            i = i + 1;
        }
        self.tile_rows.append(&mut new_tiles);
        let mut new_kvs: Vec<GameKeyValue> = Vec::new();
        let mut j: usize = 0;
        proof {
            assert(data@.key_value.take(0).map_values(
                |kv: KeyValueV| GameKeyValueV { game_id: gid, record: kv },
            ) =~= Seq::<GameKeyValueV>::empty());
            assert(new_kvs@.map_values(|x: GameKeyValue| x@) =~= Seq::<GameKeyValueV>::empty());
        }
        while j < data.key_value.len()
            invariant
                j <= data.key_value@.len(),
                data@.key_value == data.key_value@.map_values(|x: KeyValueRecord| x@),
                new_kvs@.map_values(|x: GameKeyValue| x@) == data@.key_value.take(
                    j as int,
                ).map_values(|kv: KeyValueV| GameKeyValueV { game_id: gid, record: kv }),
            decreases data.key_value@.len() - j,
        {
            let ghost old_out = new_kvs@;
            let kv = data.key_value[j].clone();
            let ghost kvv = kv@;
            new_kvs.push(GameKeyValue { game_id: gid, record: kv });
            proof {
                let f = |x: GameKeyValue| x@;
                let m = |r2: KeyValueV| GameKeyValueV { game_id: gid, record: r2 };
                assert(kvv == data@.key_value[j as int]);
                assert(new_kvs@.map_values(f) =~= old_out.map_values(f).push(
                    GameKeyValueV { game_id: gid, record: kvv },
                ));
                assert(data@.key_value.take(j + 1) =~= data@.key_value.take(j as int).push(
                    data@.key_value[j as int],
                ));
                assert(data@.key_value.take(j + 1).map_values(m) =~= data@.key_value.take(
                    j as int,
                ).map_values(m).push(m(data@.key_value[j as int])));
                assert(new_kvs@.map_values(f) == data@.key_value.take(j + 1).map_values(m));
            }
            j = j + 1;
        }
        self.key_value_rows.append(&mut new_kvs);
        proof {
            assert(data@.tiles.take(data.tiles@.len() as int) =~= data@.tiles);
            assert(data@.key_value.take(data.key_value@.len() as int) =~= data@.key_value);
            assert(self@.games =~= s1.games.push(
                GameV {
                    id: gid,
                    hash: fingerprint(data@),
                    scenario_id: sid,
                    name: "name"@,
                    created_day: now_day,
                },
            ));
            assert(self@.stats_rows =~= s1.stats_rows.push(
                GameStatsV { game_id: gid, stats: data@.stats },
            ));
            assert(self@ =~= spec_add_game(s1, data@, sid, now_day));
            assert(self@ == spec_ingest(s0, data@, nv, now_day));
            lemma_ingest_preserves_wf(s0, data@, nv, now_day);
        }
        Ok(IngestOutcome::Inserted)
    }
}


// ---------------------------------------------------------------------------
// Deletion
// ---------------------------------------------------------------------------

/// Removing a game removes its stats, tile and key/value rows with it.
pub open spec fn spec_delete_game(s: StoreV, game_id: u64) -> StoreV {
    StoreV {
        games: s.games.filter(|g: GameV| g.id != game_id),
        stats_rows: s.stats_rows.filter(|r: GameStatsV| r.game_id != game_id),
        tile_rows: s.tile_rows.filter(|r: GameTileV| r.game_id != game_id),
        key_value_rows: s.key_value_rows.filter(|r: GameKeyValueV| r.game_id != game_id),
        ..s
    }
}

/// Every element of a filtered sequence occurs in the original.
pub proof fn lemma_filter_members<A>(s: Seq<A>, pred: spec_fn(A) -> bool)
    ensures
        forall|i: int|
            0 <= i < s.filter(pred).len() ==> exists|j: int|
                0 <= j < s.len() && s[j] == #[trigger] s.filter(pred)[i],
    decreases s.len(),
{
    reveal(Seq::filter);
    if s.len() > 0 {
        let d = s.drop_last();
        lemma_filter_members(d, pred);
        assert forall|i: int| 0 <= i < s.filter(pred).len() implies exists|j: int|
            0 <= j < s.len() && s[j] == #[trigger] s.filter(pred)[i] by {
            if i < d.filter(pred).len() {
                let j = choose|j: int| 0 <= j < d.len() && d[j] == d.filter(pred)[i];
                assert(s[j] == s.filter(pred)[i]);
            } else {
                assert(s[s.len() - 1] == s.filter(pred)[i]);
            }
        }
    }
}

/// A pairwise order on a sequence survives filtering.
pub proof fn lemma_filter_pairwise<A>(s: Seq<A>, pred: spec_fn(A) -> bool, rel: spec_fn(A, A) -> bool)
    requires
        forall|i: int, j: int| 0 <= i < j < s.len() ==> rel(#[trigger] s[i], #[trigger] s[j]),
    ensures
        forall|i: int, j: int|
            0 <= i < j < s.filter(pred).len() ==> rel(
                #[trigger] s.filter(pred)[i],
                #[trigger] s.filter(pred)[j],
            ),
    decreases s.len(),
{
    reveal(Seq::filter);
    if s.len() > 0 {
        let d = s.drop_last();
        lemma_filter_pairwise(d, pred, rel);
        lemma_filter_members(d, pred);
        if pred(s.last()) {
            assert forall|i: int, j: int| 0 <= i < j < s.filter(pred).len() implies rel(
                #[trigger] s.filter(pred)[i],
                #[trigger] s.filter(pred)[j],
            ) by {
                if j < d.filter(pred).len() {
                    assert(rel(d.filter(pred)[i], d.filter(pred)[j]));
                } else {
                    let k = choose|k: int| 0 <= k < d.len() && d[k] == d.filter(pred)[i];
                    assert(rel(s[k], s.last()));
                }
            }
        }
    }
}

impl Store {
    /// Whether a scenario with this id is stored.
    pub fn scenario_id_exists(&self, scenario_id: u64) -> (r: bool)
        ensures
            r == has_scenario_id(self@, scenario_id),
    {
        let mut i: usize = 0;
        while i < self.scenarios.len()
            invariant
                i <= self.scenarios@.len(),
                self@.scenarios == self.scenarios@.map_values(|x: Scenario| x@),
                forall|k: int| 0 <= k < i ==> (#[trigger] self@.scenarios[k]).id != scenario_id,
            decreases self.scenarios@.len() - i,
        {
            if self.scenarios[i].id == scenario_id {
                proof {
                    assert(self@.scenarios[i as int].id == scenario_id);
                }
                return true;
            }
            i = i + 1;
        }
        false
    }

    /// Delete one game and, with it, every stats, tile and key/value row
    /// it owns. Deleting an unknown id changes nothing.
    pub fn delete_game(&mut self, game_id: u64)
        requires
            old(self).wf(),
        ensures
            final(self).wf(),
            final(self)@ == spec_delete_game(old(self)@, game_id),
    {
        let ghost s0 = self@;
        let mut games: Vec<Game> = Vec::new();
        let mut i: usize = 0;
        proof {
            assert(s0.games.take(0) =~= Seq::<GameV>::empty());
            assert(games@.map_values(|x: Game| x@) =~= Seq::<GameV>::empty());
        }
        while i < self.games.len()
            invariant
                i <= self.games@.len(),
                self@.games == self.games@.map_values(|x: Game| x@),
                s0 == self@,
                games@.map_values(|x: Game| x@) == s0.games.take(i as int).filter(
                    |g: GameV| g.id != game_id,
                ),
            decreases self.games@.len() - i,
        {
            proof {
                assert(s0.games.take(i + 1) =~= s0.games.take(i as int).push(s0.games[i as int]));
                lemma_filter_push(s0.games.take(i as int), |g: GameV| g.id != game_id, s0.games[i as int]);
            }
            if self.games[i].id != game_id {
                let ghost old_out = games@;
                let g = self.games[i].clone();
                games.push(g);
                proof {
                    assert(games@.map_values(|x: Game| x@) =~= old_out.map_values(
                        |x: Game| x@,
                    ).push(s0.games[i as int]));
                }
            }
            i = i + 1;
        }
        let mut stats_rows: Vec<GameStats> = Vec::new();
        let mut j: usize = 0;
        proof {
            assert(s0.games.take(self.games@.len() as int) =~= s0.games);
            assert(s0.stats_rows.take(0) =~= Seq::<GameStatsV>::empty());
            assert(stats_rows@.map_values(|x: GameStats| x@) =~= Seq::<GameStatsV>::empty());
        }
        while j < self.stats_rows.len()
            invariant
                j <= self.stats_rows@.len(),
                self@.stats_rows == self.stats_rows@.map_values(|x: GameStats| x@),
                s0 == self@,
                stats_rows@.map_values(|x: GameStats| x@) == s0.stats_rows.take(j as int).filter(
                    |r: GameStatsV| r.game_id != game_id,
                ),
            decreases self.stats_rows@.len() - j,
        {
            proof {
                assert(s0.stats_rows.take(j + 1) =~= s0.stats_rows.take(j as int).push(
                    s0.stats_rows[j as int],
                ));
                lemma_filter_push(
                    s0.stats_rows.take(j as int),
                    |r: GameStatsV| r.game_id != game_id,
                    s0.stats_rows[j as int],
                );
            }
            if self.stats_rows[j].game_id != game_id {
                let ghost old_out = stats_rows@;
                let row = GameStats {
                    game_id: self.stats_rows[j].game_id,
                    stats: self.stats_rows[j].stats.clone(),
                };
                stats_rows.push(row);
                proof {
                    assert(stats_rows@.map_values(|x: GameStats| x@) =~= old_out.map_values(
                        |x: GameStats| x@,
                    ).push(s0.stats_rows[j as int]));
                }
            }
            j = j + 1;
        }
        let mut tile_rows: Vec<GameTile> = Vec::new();
        let mut k: usize = 0;
        proof {
            assert(s0.stats_rows.take(self.stats_rows@.len() as int) =~= s0.stats_rows);
            assert(s0.tile_rows.take(0) =~= Seq::<GameTileV>::empty());
            assert(tile_rows@.map_values(|x: GameTile| x@) =~= Seq::<GameTileV>::empty());
        }
        while k < self.tile_rows.len()
            invariant
                k <= self.tile_rows@.len(),
                self@.tile_rows == self.tile_rows@.map_values(|x: GameTile| x@),
                s0 == self@,
                tile_rows@.map_values(|x: GameTile| x@) == s0.tile_rows.take(k as int).filter(
                    |r: GameTileV| r.game_id != game_id,
                ),
            decreases self.tile_rows@.len() - k,
        {
            proof {
                assert(s0.tile_rows.take(k + 1) =~= s0.tile_rows.take(k as int).push(
                    s0.tile_rows[k as int],
                ));
                lemma_filter_push(
                    s0.tile_rows.take(k as int),
                    |r: GameTileV| r.game_id != game_id,
                    s0.tile_rows[k as int],
                );
            }
            if self.tile_rows[k].game_id != game_id {
                let ghost old_out = tile_rows@;
                let row = GameTile {
                    game_id: self.tile_rows[k].game_id,
                    tile: self.tile_rows[k].tile.clone(),
                };
                tile_rows.push(row);
                proof {
                    assert(tile_rows@.map_values(|x: GameTile| x@) =~= old_out.map_values(
                        |x: GameTile| x@,
                    ).push(s0.tile_rows[k as int]));
                }
            }
            k = k + 1;
        }
        let mut key_value_rows: Vec<GameKeyValue> = Vec::new();
        let mut m: usize = 0;
        proof {
            assert(s0.tile_rows.take(self.tile_rows@.len() as int) =~= s0.tile_rows);
            assert(s0.key_value_rows.take(0) =~= Seq::<GameKeyValueV>::empty());
            assert(key_value_rows@.map_values(|x: GameKeyValue| x@) =~= Seq::<
                GameKeyValueV,
            >::empty());
        }
        while m < self.key_value_rows.len()
            invariant
                m <= self.key_value_rows@.len(),
                self@.key_value_rows == self.key_value_rows@.map_values(|x: GameKeyValue| x@),
                s0 == self@,
                key_value_rows@.map_values(|x: GameKeyValue| x@) == s0.key_value_rows.take(
                    m as int,
                ).filter(|r: GameKeyValueV| r.game_id != game_id),
            decreases self.key_value_rows@.len() - m,
        {
            proof {
                assert(s0.key_value_rows.take(m + 1) =~= s0.key_value_rows.take(m as int).push(
                    s0.key_value_rows[m as int],
                ));
                lemma_filter_push(
                    s0.key_value_rows.take(m as int),
                    |r: GameKeyValueV| r.game_id != game_id,
                    s0.key_value_rows[m as int],
                );
            }
            if self.key_value_rows[m].game_id != game_id {
                let ghost old_out = key_value_rows@;
                let row = GameKeyValue {
                    game_id: self.key_value_rows[m].game_id,
                    record: self.key_value_rows[m].record.clone(),
                };
                key_value_rows.push(row);
                proof {
                    assert(key_value_rows@.map_values(|x: GameKeyValue| x@) =~= old_out.map_values(
                        |x: GameKeyValue| x@,
                    ).push(s0.key_value_rows[m as int]));
                }
            }
            m = m + 1;
        }
        proof {
            assert(s0.key_value_rows.take(self.key_value_rows@.len() as int)
                =~= s0.key_value_rows);
        }
        self.games = games;
        self.stats_rows = stats_rows;
        self.tile_rows = tile_rows;
        self.key_value_rows = key_value_rows;
        proof {
            let t = spec_delete_game(s0, game_id);
            assert(self@ =~= t);
            // well-formedness of the filtered store
            lemma_filter_pairwise(
                s0.games,
                |g: GameV| g.id != game_id,
                |a: GameV, b: GameV| a.id < b.id,
            );
            lemma_filter_members(s0.games, |g: GameV| g.id != game_id);
            lemma_filter_pairwise(
                s0.stats_rows,
                |r: GameStatsV| r.game_id != game_id,
                |a: GameStatsV, b: GameStatsV| a.game_id != b.game_id,
            );
            lemma_filter_members(s0.stats_rows, |r: GameStatsV| r.game_id != game_id);
            lemma_filter_members(s0.tile_rows, |r: GameTileV| r.game_id != game_id);
            lemma_filter_members(s0.key_value_rows, |r: GameKeyValueV| r.game_id != game_id);
            assert forall|i: int| 0 <= i < t.games.len() implies (#[trigger] t.games[i]).id
                < t.next_game_id by {
                let w = choose|w: int| 0 <= w < s0.games.len() && s0.games[w] == t.games[i];
                assert(s0.games[w].id < s0.next_game_id);
            }
            assert forall|i: int| 0 <= i < t.games.len() implies has_scenario_id(
                t,
                (#[trigger] t.games[i]).scenario_id,
            ) by {
                let w = choose|w: int| 0 <= w < s0.games.len() && s0.games[w] == t.games[i];
                let k2 = choose|k2: int|
                    0 <= k2 < s0.scenarios.len() && (#[trigger] s0.scenarios[k2]).id
                        == s0.games[w].scenario_id;
                assert(t.scenarios[k2].id == t.games[i].scenario_id);
            }
            assert forall|i: int| 0 <= i < t.stats_rows.len() implies has_game_id(
                t,
                (#[trigger] t.stats_rows[i]).game_id,
            ) by {
                let w = choose|w: int|
                    0 <= w < s0.stats_rows.len() && s0.stats_rows[w] == t.stats_rows[i];
                let k2 = choose|k2: int|
                    0 <= k2 < s0.games.len() && (#[trigger] s0.games[k2]).id
                        == s0.stats_rows[w].game_id;
                assert(s0.games[k2].id != game_id);
                assert(s0.games.filter(|g: GameV| g.id != game_id).contains(s0.games[k2]));
                let k3 = choose|k3: int|
                    0 <= k3 < t.games.len() && t.games[k3] == s0.games[k2];
                assert(t.games[k3].id == t.stats_rows[i].game_id);
            }
            assert forall|i: int| 0 <= i < t.tile_rows.len() implies has_game_id(
                t,
                (#[trigger] t.tile_rows[i]).game_id,
            ) by {
                let w = choose|w: int|
                    0 <= w < s0.tile_rows.len() && s0.tile_rows[w] == t.tile_rows[i];
                let k2 = choose|k2: int|
                    0 <= k2 < s0.games.len() && (#[trigger] s0.games[k2]).id
                        == s0.tile_rows[w].game_id;
                assert(s0.games[k2].id != game_id);
                assert(s0.games.filter(|g: GameV| g.id != game_id).contains(s0.games[k2]));
                let k3 = choose|k3: int|
                    0 <= k3 < t.games.len() && t.games[k3] == s0.games[k2];
                assert(t.games[k3].id == t.tile_rows[i].game_id);
            }
            assert forall|i: int| 0 <= i < t.key_value_rows.len() implies has_game_id(
                t,
                (#[trigger] t.key_value_rows[i]).game_id,
            ) by {
                let w = choose|w: int|
                    0 <= w < s0.key_value_rows.len() && s0.key_value_rows[w]
                        == t.key_value_rows[i];
                let k2 = choose|k2: int|
                    0 <= k2 < s0.games.len() && (#[trigger] s0.games[k2]).id
                        == s0.key_value_rows[w].game_id;
                assert(s0.games[k2].id != game_id);
                assert(s0.games.filter(|g: GameV| g.id != game_id).contains(s0.games[k2]));
                let k3 = choose|k3: int|
                    0 <= k3 < t.games.len() && t.games[k3] == s0.games[k2];
                assert(t.games[k3].id == t.key_value_rows[i].game_id);
            }
            assert forall|i: int| 0 <= i < t.playlist_entries.len() implies has_playlist_id(
                t,
                (#[trigger] t.playlist_entries[i]).playlist_id,
            ) && has_scenario_id(t, t.playlist_entries[i].scenario_id) by {
                let k2 = choose|k2: int|
                    0 <= k2 < s0.playlists.len() && (#[trigger] s0.playlists[k2]).id
                        == s0.playlist_entries[i].playlist_id;
                assert(t.playlists[k2].id == t.playlist_entries[i].playlist_id);
                let k3 = choose|k3: int|
                    0 <= k3 < s0.scenarios.len() && (#[trigger] s0.scenarios[k3]).id
                        == s0.playlist_entries[i].scenario_id;
                assert(t.scenarios[k3].id == t.playlist_entries[i].scenario_id);
            }
            assert forall|i: int| 0 <= i < t.games.len() implies has_stats_for(
                t,
                (#[trigger] t.games[i]).id,
            ) by {
                let w = choose|w: int| 0 <= w < s0.games.len() && s0.games[w] == t.games[i];
                let k2 = choose|k2: int|
                    0 <= k2 < s0.stats_rows.len() && (#[trigger] s0.stats_rows[k2]).game_id
                        == s0.games[w].id;
                assert(s0.games[w].id != game_id);
                assert(s0.stats_rows[k2].game_id != game_id);
                assert(s0.stats_rows.filter(|r: GameStatsV| r.game_id != game_id).contains(
                    s0.stats_rows[k2],
                ));
                let k3 = choose|k3: int|
                    0 <= k3 < t.stats_rows.len() && t.stats_rows[k3] == s0.stats_rows[k2];
                assert(t.stats_rows[k3].game_id == t.games[i].id);
            }
            assert(wf_store(t));
        }
    }

    /// Empty the game and scenario tables; playlists and settings stay.
    /// Associations to the removed scenarios go with them.
    pub fn clear_database(&mut self)
        requires
            old(self).wf(),
        ensures
            final(self).wf(),
            final(self)@ == (StoreV {
                scenarios: Seq::empty(),
                games: Seq::empty(),
                stats_rows: Seq::empty(),
                tile_rows: Seq::empty(),
                key_value_rows: Seq::empty(),
                playlist_entries: Seq::empty(),
                ..old(self)@
            }),
    {
        self.scenarios = Vec::new();
        self.games = Vec::new();
        self.stats_rows = Vec::new();
        self.tile_rows = Vec::new();
        self.key_value_rows = Vec::new();
        self.playlist_entries = Vec::new();
        proof {
            assert(self@ =~= (StoreV {
                scenarios: Seq::empty(),
                games: Seq::empty(),
                stats_rows: Seq::empty(),
                tile_rows: Seq::empty(),
                key_value_rows: Seq::empty(),
                playlist_entries: Seq::empty(),
                ..old(self)@
            }));
        }
    }
}


// ---------------------------------------------------------------------------
// Playlists
// ---------------------------------------------------------------------------

#[derive(Clone, Copy, Debug, PartialEq, Eq, Structural)]
pub enum PlaylistError {
    /// The request names a scenario id that is not stored; nothing is
    /// written.
    UnknownScenario,
}

pub open spec fn request_scenarios_exist(s: StoreV, d: InsertPlaylistV) -> bool {
    forall|k: int| 0 <= k < d.scenarios.len() ==> has_scenario_id(
        s,
        (#[trigger] d.scenarios[k]).scenario_id,
    )
}

/// A fresh playlist: inactive, with its window pushed far into the
/// future, and one association row per requested scenario.
pub open spec fn spec_insert_playlist(s: StoreV, d: InsertPlaylistV, now: u64) -> StoreV {
    let pid = s.next_playlist_id;
    StoreV {
        playlists: s.playlists.push(
            PlaylistV {
                id: pid,
                name: d.name,
                description: d.description,
                duration: d.duration,
                state: PlaylistState::Inactive,
                started_day: (now + FAR_FUTURE_START_DAYS) as u64,
                ended_day: (now + FAR_FUTURE_END_DAYS) as u64,
                created_day: now,
            },
        ),
        playlist_entries: s.playlist_entries + d.scenarios.map_values(
            |sp: ScenarioPlaylist| PlaylistEntry {
                playlist_id: pid,
                scenario_id: sp.scenario_id,
                reps: sp.reps,
            },
        ),
        next_playlist_id: (s.next_playlist_id + 1) as u64,
        ..s
    }
}

/// The effect of a state change on one playlist row: a switch to active
/// restarts the window today, any other switch closes it today.
pub open spec fn apply_playlist_state(p: PlaylistV, state: PlaylistState, now: u64) -> PlaylistV {
    PlaylistV {
        state: state,
        started_day: if state is Active {
            now
        } else {
            p.started_day
        },
        ended_day: if state is Active {
            (now + FAR_FUTURE_END_DAYS) as u64
        } else {
            now
        },
        ..p
    }
}

pub open spec fn spec_update_playlist_state(
    s: StoreV,
    playlist_id: u64,
    state: PlaylistState,
    now: u64,
) -> StoreV {
    StoreV {
        playlists: s.playlists.map_values(
            |p: PlaylistV|
                if p.id == playlist_id {
                    apply_playlist_state(p, state, now)
                } else {
                    p
                },
        ),
        ..s
    }
}

impl Store {
    /// Store a playlist with its scenario associations in one step; a
    /// request naming an unknown scenario writes nothing.
    pub fn insert_playlist(&mut self, playlist_data: InsertPlaylist, now_day: u64) -> (r: Result<
        (),
        PlaylistError,
    >)
        requires
            old(self).wf(),
            old(self)@.next_playlist_id < u64::MAX,
            now_day + FAR_FUTURE_END_DAYS <= u64::MAX,
        ensures
            final(self).wf(),
            request_scenarios_exist(old(self)@, playlist_data@) ==> r == Ok::<(), PlaylistError>(())
                && final(self)@ == spec_insert_playlist(old(self)@, playlist_data@, now_day),
            !request_scenarios_exist(old(self)@, playlist_data@) ==> r == Err::<(), PlaylistError>(
                PlaylistError::UnknownScenario,
            ) && final(self)@ == old(self)@,
    {
        let ghost s0 = self@;
        let ghost dv = playlist_data@;
        let mut v: usize = 0;
        while v < playlist_data.scenarios.len()
            invariant
                v <= playlist_data@.scenarios.len(),
                s0 == self@,
                self.wf(),
                dv == playlist_data@,
                forall|k: int| 0 <= k < v ==> has_scenario_id(
                    s0,
                    (#[trigger] dv.scenarios[k]).scenario_id,
                ),
            decreases playlist_data@.scenarios.len() - v,
        {
            if !self.scenario_id_exists(playlist_data.scenarios[v].scenario_id) {
                return Err(PlaylistError::UnknownScenario);
            }
            v = v + 1;
        }
        let pid = self.next_playlist_id;
        self.playlists.push(
            Playlist {
                id: pid,
                name: playlist_data.name,
                description: playlist_data.description,
                duration: playlist_data.duration,
                state: PlaylistState::Inactive,
                started_day: now_day + FAR_FUTURE_START_DAYS,
                ended_day: now_day + FAR_FUTURE_END_DAYS,
                created_day: now_day,
            },
        );
        self.next_playlist_id = self.next_playlist_id + 1;
        let mut entries: Vec<PlaylistEntry> = Vec::new();
        let mut i: usize = 0;
        proof {
            assert(dv.scenarios.take(0).map_values(
                |sp: ScenarioPlaylist| PlaylistEntry {
                    playlist_id: pid,
                    scenario_id: sp.scenario_id,
                    reps: sp.reps,
                },
            ) =~= Seq::<PlaylistEntry>::empty());
            assert(entries@ =~= Seq::<PlaylistEntry>::empty());
        }
        while i < playlist_data.scenarios.len()
            invariant
                i <= playlist_data@.scenarios.len(),
                dv == playlist_data@,
                entries@ == dv.scenarios.take(i as int).map_values(
                    |sp: ScenarioPlaylist| PlaylistEntry {
                        playlist_id: pid,
                        scenario_id: sp.scenario_id,
                        reps: sp.reps,
                    },
                ),
            decreases playlist_data@.scenarios.len() - i,
        {
            let sp = playlist_data.scenarios[i];
            entries.push(
                PlaylistEntry { playlist_id: pid, scenario_id: sp.scenario_id, reps: sp.reps },
            );
            proof {
                let m = |sp2: ScenarioPlaylist| PlaylistEntry {
                    playlist_id: pid,
                    scenario_id: sp2.scenario_id,
                    reps: sp2.reps,
                };
                assert(dv.scenarios.take(i + 1) =~= dv.scenarios.take(i as int).push(
                    dv.scenarios[i as int],
                ));
                assert(dv.scenarios.take(i + 1).map_values(m) =~= dv.scenarios.take(
                    i as int,
                ).map_values(m).push(m(dv.scenarios[i as int])));
            }
            i = i + 1;
        }
        self.playlist_entries.append(&mut entries);
        proof {
            assert(dv.scenarios.take(dv.scenarios.len() as int) =~= dv.scenarios);
            let t = spec_insert_playlist(s0, dv, now_day);
            assert(self@.playlists =~= t.playlists);
            assert(self@ =~= t);
            // well-formedness: the new id tops the old ones, associations
            // point at the new playlist and at checked scenarios
            assert forall|id: u64| has_scenario_id(s0, id) implies has_scenario_id(t, id) by {
                let k = choose|k: int|
                    0 <= k < s0.scenarios.len() && (#[trigger] s0.scenarios[k]).id == id;
                assert(t.scenarios[k].id == id);
            }
            assert forall|id: u64| has_game_id(s0, id) implies has_game_id(t, id) by {
                let k = choose|k: int|
                    0 <= k < s0.games.len() && (#[trigger] s0.games[k]).id == id;
                assert(t.games[k].id == id);
            }
            assert forall|id: u64| has_stats_for(s0, id) implies has_stats_for(t, id) by {
                let k = choose|k: int|
                    0 <= k < s0.stats_rows.len() && (#[trigger] s0.stats_rows[k]).game_id == id;
                assert(t.stats_rows[k].game_id == id);
            }
            assert forall|id: u64| has_playlist_id(s0, id) implies has_playlist_id(t, id) by {
                let k = choose|k: int|
                    0 <= k < s0.playlists.len() && (#[trigger] s0.playlists[k]).id == id;
                assert(t.playlists[k].id == id);
            }
            assert(t.playlists[t.playlists.len() - 1].id == pid);
            assert(has_playlist_id(t, pid));
            assert forall|k: int| 0 <= k < t.playlist_entries.len() implies has_playlist_id(
                t,
                (#[trigger] t.playlist_entries[k]).playlist_id,
            ) && has_scenario_id(t, t.playlist_entries[k].scenario_id) by {
                if k < s0.playlist_entries.len() {
                    assert(t.playlist_entries[k] == s0.playlist_entries[k]);
                } else {
                    assert(t.playlist_entries[k].playlist_id == pid);
                    assert(t.playlist_entries[k].scenario_id == dv.scenarios[k
                        - s0.playlist_entries.len()].scenario_id);
                }
            }
            assert(wf_store(t));
        }
        Ok(())
    }

    /// Switch one playlist's state, adjusting its active window: a switch
    /// to active restarts it today, any other switch closes it today.
    /// Naming an unknown playlist changes nothing.
    pub fn update_playlist_state(
        &mut self,
        playlist_id: u64,
        state: PlaylistState,
        now_day: u64,
    )
        requires
            old(self).wf(),
            now_day + FAR_FUTURE_END_DAYS <= u64::MAX,
        ensures
            final(self).wf(),
            final(self)@ == spec_update_playlist_state(old(self)@, playlist_id, state, now_day),
    {
        let ghost s0 = self@;
        let ghost m = |p: PlaylistV|
            if p.id == playlist_id {
                apply_playlist_state(p, state, now_day)
            } else {
                p
            };
        let mut out: Vec<Playlist> = Vec::new();
        let mut i: usize = 0;
        proof {
            assert(out@.map_values(|x: Playlist| x@) =~= s0.playlists.map_values(m).take(0));
        }
        while i < self.playlists.len()
            invariant
                i <= self.playlists@.len(),
                now_day + FAR_FUTURE_END_DAYS <= u64::MAX,
                self@ == s0,
                self@.playlists == self.playlists@.map_values(|x: Playlist| x@),
                out@.map_values(|x: Playlist| x@) == s0.playlists.map_values(m).take(i as int),
                m == (|p: PlaylistV|
                    if p.id == playlist_id {
                        apply_playlist_state(p, state, now_day)
                    } else {
                        p
                    }),
            decreases self.playlists@.len() - i,
        {
            let ghost old_out = out@;
            let p = self.playlists[i].clone();
            if p.id == playlist_id {
                let updated = Playlist {
                    id: p.id,
                    name: p.name,
                    description: p.description,
                    duration: p.duration,
                    state: state,
                    started_day: if matches!(state, PlaylistState::Active) {
                        now_day
                    } else {
                        p.started_day
                    },
                    ended_day: if matches!(state, PlaylistState::Active) {
                        now_day + FAR_FUTURE_END_DAYS
                    } else {
                        now_day
                    },
                    created_day: p.created_day,
                };
                proof {
                    assert(updated@ =~= apply_playlist_state(s0.playlists[i as int], state, now_day));
                    assert(updated@ == m(s0.playlists[i as int]));
                }
                out.push(updated);
            } else {
                proof {
                    assert(p@ == m(s0.playlists[i as int]));
                }
                out.push(p);
            }
            proof {
                assert(s0.playlists.map_values(m).take(i + 1) =~= s0.playlists.map_values(m).take(
                    i as int,
                ).push(m(s0.playlists[i as int])));
                assert(out@.map_values(|x: Playlist| x@) =~= old_out.map_values(
                    |x: Playlist| x@,
                ).push(m(s0.playlists[i as int])));
            }
            i = i + 1;
        }
        proof {
            assert(s0.playlists.map_values(m).take(s0.playlists.len() as int)
                =~= s0.playlists.map_values(m));
        }
        self.playlists = out;
        proof {
            let t = spec_update_playlist_state(s0, playlist_id, state, now_day);
            assert(self@.playlists =~= s0.playlists.map_values(m));
            assert(self@ =~= t);
            assert forall|id: u64| has_playlist_id(s0, id) implies has_playlist_id(t, id) by {
                let k = choose|k: int|
                    0 <= k < s0.playlists.len() && (#[trigger] s0.playlists[k]).id == id;
                assert(t.playlists[k].id == id);
            }
            assert forall|id: u64| has_scenario_id(s0, id) implies has_scenario_id(t, id) by {
                let k = choose|k: int|
                    0 <= k < s0.scenarios.len() && (#[trigger] s0.scenarios[k]).id == id;
                assert(t.scenarios[k].id == id);
            }
            assert forall|id: u64| has_game_id(s0, id) implies has_game_id(t, id) by {
                let k = choose|k: int|
                    0 <= k < s0.games.len() && (#[trigger] s0.games[k]).id == id;
                assert(t.games[k].id == id);
            }
            assert forall|id: u64| has_stats_for(s0, id) implies has_stats_for(t, id) by {
                let k = choose|k: int|
                    0 <= k < s0.stats_rows.len() && (#[trigger] s0.stats_rows[k]).game_id == id;
                assert(t.stats_rows[k].game_id == id);
            }
            assert(wf_store(t));
        }
    }
}


// ---------------------------------------------------------------------------
// Listing queries
// ---------------------------------------------------------------------------

#[derive(Clone, Copy, Debug, PartialEq, Eq, Structural)]
pub enum QueryError {
    /// The id the query names is not stored.
    NotFound,
}

/// Every scenario, in id order, with its stored game count filled in.
pub open spec fn spec_scenarios_with_counts(s: StoreV) -> Seq<ScenarioV> {
    s.scenarios.map_values(
        |sc: ScenarioV| ScenarioV { games_count: games_count_of(s, sc.id) as u64, ..sc },
    )
}

/// One page of games, each reassembled with its child rows.
pub open spec fn spec_game_page(s: StoreV, page: u8, limit: u8) -> Seq<DataV> {
    let off = (page - 1) * limit;
    let lo: int = if off > s.games.len() {
        s.games.len() as int
    } else {
        off as int
    };
    let hi: int = if off + limit > s.games.len() {
        s.games.len() as int
    } else {
        off + limit
    };
    s.games.subrange(lo, hi).map_values(|g: GameV| game_data(s, g.id))
}

impl Store {
    /// One stored game with its child rows, as a parsed run.
    fn assemble_game_data(&self, game_id: u64) -> (d: Data)
        requires
            self.wf(),
            has_stats_for(self@, game_id),
        ensures
            d@ == game_data(self@, game_id),
    {
        let tiles = self.fetch_tiles(game_id);
        let key_value = self.fetch_key_value(game_id);
        let stats = match self.fetch_stats(game_id) {
            Some(st) => st,
            None => {
                proof {
                    let k = choose|k: int|
                        0 <= k < self@.stats_rows.len() && (#[trigger] self@.stats_rows[k]).game_id
                            == game_id;
                    assert(false);
                }
                vstd::pervasive::unreached()
            },
        };
        let d = Data { tiles, key_value, stats };
        proof {
            assert(d@ =~= game_data(self@, game_id));
        }
        d
    }

    /// Every scenario in id order, each with the count of its games.
    pub fn fetch_scenarios(&self) -> (r: Vec<Scenario>)
        requires
            self.wf(),
        ensures
            r@.map_values(|x: Scenario| x@) == spec_scenarios_with_counts(self@),
    {
        let ghost s0 = self@;
        let ghost m = |sc: ScenarioV| ScenarioV {
            games_count: games_count_of(s0, sc.id) as u64,
            ..sc
        };
        let mut out: Vec<Scenario> = Vec::new();
        let mut i: usize = 0;
        proof {
            assert(out@.map_values(|x: Scenario| x@) =~= s0.scenarios.map_values(m).take(0));
        }
        while i < self.scenarios.len()
            invariant
                i <= self.scenarios@.len(),
                self@ == s0,
                self@.scenarios == self.scenarios@.map_values(|x: Scenario| x@),
                self@.games == self.games@.map_values(|x: Game| x@),
                out@.map_values(|x: Scenario| x@) == s0.scenarios.map_values(m).take(i as int),
                m == (|sc: ScenarioV| ScenarioV {
                    games_count: games_count_of(s0, sc.id) as u64,
                    ..sc
                }),
            decreases self.scenarios@.len() - i,
        {
            let sc = self.scenarios[i].clone();
            let sid = sc.id;
            let mut count: u64 = 0;
            let mut k: usize = 0;
            proof {
                assert(s0.games.take(0).filter(|g: GameV| g.scenario_id == sid)
                    =~= Seq::<GameV>::empty());
                reveal(Seq::filter);
            }
            while k < self.games.len()
                invariant
                    k <= self.games@.len(),
                    count <= k,
                    self@ == s0,
                    self@.games == self.games@.map_values(|x: Game| x@),
                    count == s0.games.take(k as int).filter(
                        |g: GameV| g.scenario_id == sid,
                    ).len(),
                decreases self.games@.len() - k,
            {
                proof {
                    assert(s0.games.take(k + 1) =~= s0.games.take(k as int).push(
                        s0.games[k as int],
                    ));
                    lemma_filter_push(
                        s0.games.take(k as int),
                        |g: GameV| g.scenario_id == sid,
                        s0.games[k as int],
                    );
                }
                if self.games[k].scenario_id == sid {
                    count = count + 1;
                }
                k = k + 1;
            }
            proof {
                assert(s0.games.take(self.games@.len() as int) =~= s0.games);
                assert(count == games_count_of(s0, sid) as u64);
            }
            let ghost old_out = out@;
            let filled = Scenario {
                id: sc.id,
                name: sc.name,
                difficulty: sc.difficulty,
                created_day: sc.created_day,
                games_count: count,
            };
            proof {
                assert(filled@ =~= m(s0.scenarios[i as int]));
            }
            out.push(filled);
            proof {
                assert(s0.scenarios.map_values(m).take(i + 1) =~= s0.scenarios.map_values(m).take(
                    i as int,
                ).push(m(s0.scenarios[i as int])));
                assert(out@.map_values(|x: Scenario| x@) =~= old_out.map_values(
                    |x: Scenario| x@,
                ).push(m(s0.scenarios[i as int])));
            }
            i = i + 1;
        }
        proof {
            assert(s0.scenarios.map_values(m).take(s0.scenarios.len() as int)
                =~= s0.scenarios.map_values(m));
        }
        out
    }

    /// One page of games, in id order, each with its child rows. Pages
    /// count from one; a page past the end is empty.
    pub fn fetch_game_page(&self, page: u8, limit: u8) -> (r: Vec<Data>)
        requires
            self.wf(),
            page >= 1,
        ensures
            r@.map_values(|d: Data| d@) == spec_game_page(self@, page, limit),
    {
        let ghost s0 = self@;
        proof {
            assert((page - 1) * limit <= 64770) by (nonlinear_arith)
                requires
                    1 <= page <= 255,
                    limit <= 255,
            ;
        }
        let off: usize = (page as usize - 1) * (limit as usize);
        let lo: usize = if off > self.games.len() {
            self.games.len()
        } else {
            off
        };
        let hi: usize = if off + limit as usize > self.games.len() {
            self.games.len()
        } else {
            off + limit as usize
        };
        let mut out: Vec<Data> = Vec::new();
        let mut i: usize = lo;
        proof {
            assert(out@.map_values(|d: Data| d@) =~= s0.games.subrange(
                lo as int,
                lo as int,
            ).map_values(|g: GameV| game_data(s0, g.id)));
        }
        while i < hi
            invariant
                lo <= i <= hi <= self.games@.len(),
                self@ == s0,
                self.wf(),
                self@.games == self.games@.map_values(|x: Game| x@),
                out@.map_values(|d: Data| d@) == s0.games.subrange(lo as int, i as int).map_values(
                    |g: GameV| game_data(s0, g.id),
                ),
            decreases hi - i,
        {
            let gid = self.games[i].id;
            proof {
                assert(s0.games[i as int].id == gid);
            }
            let ghost old_out = out@;
            let d = self.assemble_game_data(gid);
            out.push(d);
            proof {
                let g2 = |g: GameV| game_data(s0, g.id);
                assert(s0.games.subrange(lo as int, i + 1) =~= s0.games.subrange(
                    lo as int,
                    i as int,
                ).push(s0.games[i as int]));
                assert(s0.games.subrange(lo as int, i + 1).map_values(g2) =~= s0.games.subrange(
                    lo as int,
                    i as int,
                ).map_values(g2).push(g2(s0.games[i as int])));
                assert(out@.map_values(|d2: Data| d2@) =~= old_out.map_values(
                    |d2: Data| d2@,
                ).push(game_data(s0, gid)));
            }
            i = i + 1;
        }
        out
    }

    /// The games whose id matches, each with its child rows.
    pub fn fetch_gamed_with_scenario_id(&self, game_id: u64) -> (r: Vec<Data>)
        requires
            self.wf(),
        ensures
            r@.map_values(|d: Data| d@) == self@.games.filter(
                |g: GameV| g.id == game_id,
            ).map_values(|g: GameV| game_data(self@, g.id)),
    {
        let ghost s0 = self@;
        let ghost pred = |g: GameV| g.id == game_id;
        let ghost g2 = |g: GameV| game_data(s0, g.id);
        let mut out: Vec<Data> = Vec::new();
        let mut i: usize = 0;
        proof {
            assert(s0.games.take(0).filter(pred) =~= Seq::<GameV>::empty());
            assert(out@.map_values(|d: Data| d@) =~= s0.games.take(0).filter(pred).map_values(g2));
        }
        while i < self.games.len()
            invariant
                i <= self.games@.len(),
                self@ == s0,
                self.wf(),
                self@.games == self.games@.map_values(|x: Game| x@),
                pred == (|g: GameV| g.id == game_id),
                g2 == (|g: GameV| game_data(s0, g.id)),
                out@.map_values(|d: Data| d@) == s0.games.take(i as int).filter(pred).map_values(
                    g2,
                ),
            decreases self.games@.len() - i,
        {
            proof {
                assert(s0.games.take(i + 1) =~= s0.games.take(i as int).push(s0.games[i as int]));
                lemma_filter_push(s0.games.take(i as int), pred, s0.games[i as int]);
            }
            if self.games[i].id == game_id {
                let ghost old_out = out@;
                let d = self.assemble_game_data(game_id);
                out.push(d);
                proof {
                    assert(s0.games[i as int].id == game_id);
                    assert(g2(s0.games[i as int]) == game_data(s0, game_id));
                    assert(out@.map_values(|d2: Data| d2@) =~= old_out.map_values(
                        |d2: Data| d2@,
                    ).push(game_data(s0, game_id)));
                    assert(s0.games.take(i + 1).filter(pred).map_values(g2) =~= s0.games.take(
                        i as int,
                    ).filter(pred).map_values(g2).push(g2(s0.games[i as int])));
                }
            }
            i = i + 1;
        }
        proof {
            assert(s0.games.take(self.games@.len() as int) =~= s0.games);
        }
        out
    }

    /// All games of one scenario, each with its child rows; an unknown
    /// scenario id is reported, not an empty list.
    pub fn fetch_scenarios_games(&self, scenario_id: u64) -> (r: Result<Vec<Data>, QueryError>)
        requires
            self.wf(),
        ensures
            match r {
                Ok(v) => has_scenario_id(self@, scenario_id) && v@.map_values(|d: Data| d@)
                    == games_of_scenario(self@, scenario_id).map_values(
                    |g: GameV| game_data(self@, g.id),
                ),
                Err(e) => e == QueryError::NotFound && !has_scenario_id(self@, scenario_id),
            },
    {
        if !self.scenario_id_exists(scenario_id) {
            return Err(QueryError::NotFound);
        }
        let ghost s0 = self@;
        let ghost pred = |g: GameV| g.scenario_id == scenario_id;
        let ghost g2 = |g: GameV| game_data(s0, g.id);
        let mut out: Vec<Data> = Vec::new();
        let mut i: usize = 0;
        proof {
            assert(s0.games.take(0).filter(pred) =~= Seq::<GameV>::empty());
            assert(out@.map_values(|d: Data| d@) =~= s0.games.take(0).filter(pred).map_values(g2));
        }
        while i < self.games.len()
            invariant
                i <= self.games@.len(),
                self@ == s0,
                self.wf(),
                self@.games == self.games@.map_values(|x: Game| x@),
                pred == (|g: GameV| g.scenario_id == scenario_id),
                g2 == (|g: GameV| game_data(s0, g.id)),
                out@.map_values(|d: Data| d@) == s0.games.take(i as int).filter(pred).map_values(
                    g2,
                ),
            decreases self.games@.len() - i,
        {
            proof {
                assert(s0.games.take(i + 1) =~= s0.games.take(i as int).push(s0.games[i as int]));
                lemma_filter_push(s0.games.take(i as int), pred, s0.games[i as int]);
            }
            if self.games[i].scenario_id == scenario_id {
                let gid = self.games[i].id;
                let ghost old_out = out@;
                let d = self.assemble_game_data(gid);
                out.push(d);
                proof {
                    assert(s0.games[i as int].id == gid);
                    assert(g2(s0.games[i as int]) == game_data(s0, gid));
                    assert(out@.map_values(|d2: Data| d2@) =~= old_out.map_values(
                        |d2: Data| d2@,
                    ).push(game_data(s0, gid)));
                    assert(s0.games.take(i + 1).filter(pred).map_values(g2) =~= s0.games.take(
                        i as int,
                    ).filter(pred).map_values(g2).push(g2(s0.games[i as int])));
                }
            }
            i = i + 1;
        }
        proof {
            assert(s0.games.take(self.games@.len() as int) =~= s0.games);
        }
        Ok(out)
    }
}


} // verus!
