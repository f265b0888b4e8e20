use aim_trainer_stats::records::{Data, KeyValueRecord, Stats, TilesRecords};
use aim_trainer_stats::store::{Difficulty, IngestError, IngestOutcome, InsertPlaylist,
    PlaylistError, PlaylistState, QueryError, ScenarioPlaylist, Settings, Store};

fn run_for(scenario: &str, shots: u16, hits: u16) -> Data {
    Data {
        tiles: vec![TilesRecords {
            kill: Some(1),
            timestamp: Some("12:00:01".to_string()),
            bot: Some("botA".to_string()),
            weapon: Some("rifle".to_string()),
            ttk: Some("0.5s".to_string()),
            shots: Some(10),
            accuracy: Some("0.85".to_string()),
            damage_done: Some(100),
            damage_taken: Some(20),
            efficiency: Some("0.75".to_string()),
            cheated: Some(false),
        }],
        key_value: vec![KeyValueRecord {
            key: "Scenario:".to_string(),
            value: scenario.to_string(),
        }],
        stats: Stats {
            weapon: "rifle".to_string(),
            shots,
            hits,
            damage_done: "345.5".to_string(),
            damage_possible: "700.25".to_string(),
        },
    }
}

fn new_store() -> Store {
    Store::new("logs".to_string())
}

#[test]
fn first_ingestion_creates_scenario_and_game() {
    let mut store = new_store();
    let r = store.insert_game(&run_for("aim", 100, 60), 10);
    assert_eq!(r, Ok(IngestOutcome::Inserted));
    let scs = store.fetch_scenarios();
    assert_eq!(scs.len(), 1);
    assert_eq!(scs[0].name, "aim");
    assert_eq!(scs[0].difficulty, Difficulty::Easy);
    assert_eq!(scs[0].games_count, 1);
}

#[test]
fn reingesting_identical_content_is_a_noop() {
    let mut store = new_store();
    let data = run_for("aim", 100, 60);
    assert_eq!(store.insert_game(&data, 10), Ok(IngestOutcome::Inserted));
    let again = run_for("aim", 100, 60);
    assert_eq!(store.insert_game(&again, 11), Ok(IngestOutcome::Duplicate));
    let scs = store.fetch_scenarios();
    assert_eq!(scs.len(), 1);
    assert_eq!(scs[0].games_count, 1);
}

#[test]
fn run_without_scenario_tag_is_rejected() {
    let mut store = new_store();
    let mut data = run_for("aim", 100, 60);
    data.key_value.clear();
    assert_eq!(
        store.insert_game(&data, 10),
        Err(IngestError::MissingScenarioTag)
    );
    assert_eq!(store.fetch_scenarios().len(), 0);
}

#[test]
fn run_with_two_scenario_tags_is_rejected() {
    let mut store = new_store();
    let mut data = run_for("aim", 100, 60);
    data.key_value.push(KeyValueRecord {
        key: "Scenario:".to_string(),
        value: "other".to_string(),
    });
    assert_eq!(
        store.insert_game(&data, 10),
        Err(IngestError::MissingScenarioTag)
    );
}

#[test]
fn two_runs_naming_the_same_new_scenario_share_one_row() {
    let mut store = new_store();
    assert_eq!(
        store.insert_game(&run_for("aim", 100, 60), 10),
        Ok(IngestOutcome::Inserted)
    );
    assert_eq!(
        store.insert_game(&run_for("aim", 90, 50), 10),
        Ok(IngestOutcome::Inserted)
    );
    let scs = store.fetch_scenarios();
    assert_eq!(scs.len(), 1);
    assert_eq!(scs[0].name, "aim");
    assert_eq!(scs[0].games_count, 2);
}

#[test]
fn stats_round_trip_exactly() {
    let mut store = new_store();
    let data = run_for("aim", 123, 77);
    store.insert_game(&data, 10).unwrap();
    let games = store.fetch_game_page(1, 10);
    assert_eq!(games.len(), 1);
    let st = &games[0].stats;
    assert_eq!(st.shots, 123);
    assert_eq!(st.hits, 77);
    assert_eq!(st.damage_done, "345.5");
    assert_eq!(st.damage_possible, "700.25");
    // the damage texts decode to the same floats that were written
    assert_eq!(
        st.damage_done.parse::<f32>().unwrap().to_bits(),
        "345.5".parse::<f32>().unwrap().to_bits()
    );
    assert_eq!(games[0].tiles, data.tiles);
    assert_eq!(games[0].key_value, data.key_value);
}

#[test]
fn deleting_a_game_cascades_to_its_rows() {
    let mut store = new_store();
    store.insert_game(&run_for("aim", 100, 60), 10).unwrap();
    // the first game gets the first id
    let games = store.fetch_gamed_with_scenario_id(1);
    assert_eq!(games.len(), 1);
    store.delete_game(1);
    assert_eq!(store.fetch_gamed_with_scenario_id(1).len(), 0);
    assert_eq!(store.fetch_tiles(1).len(), 0);
    assert_eq!(store.fetch_key_value(1).len(), 0);
    assert!(store.fetch_stats(1).is_none());
    // the scenario stays, now without games
    let scs = store.fetch_scenarios();
    assert_eq!(scs.len(), 1);
    assert_eq!(scs[0].games_count, 0);
}

#[test]
fn end_to_end_three_files_then_duplicate() {
    let mut store = new_store();
    let f1 = run_for("S", 100, 60);
    let f2 = run_for("S", 90, 50);
    let f3 = run_for("S", 80, 40);
    assert_eq!(store.insert_game(&f1, 1), Ok(IngestOutcome::Inserted));
    assert_eq!(store.insert_game(&f2, 2), Ok(IngestOutcome::Inserted));
    assert_eq!(store.insert_game(&f3, 3), Ok(IngestOutcome::Inserted));
    let scs = store.fetch_scenarios();
    assert_eq!(scs.len(), 1);
    assert_eq!(scs[0].name, "S");
    assert_eq!(scs[0].games_count, 3);
    assert_eq!(
        store.insert_game(&run_for("S", 90, 50), 4),
        Ok(IngestOutcome::Duplicate)
    );
    assert_eq!(store.fetch_scenarios()[0].games_count, 3);
}

#[test]
fn game_pages_cut_in_id_order() {
    let mut store = new_store();
    for i in 0..5u16 {
        store.insert_game(&run_for("aim", 100 + i, 60), 10).unwrap();
    }
    assert_eq!(store.fetch_game_page(1, 2).len(), 2);
    assert_eq!(store.fetch_game_page(3, 2).len(), 1);
    assert_eq!(store.fetch_game_page(4, 2).len(), 0);
    assert_eq!(store.fetch_game_page(1, 2)[0].stats.shots, 100);
    assert_eq!(store.fetch_game_page(2, 2)[0].stats.shots, 102);
}

#[test]
fn games_of_an_unknown_scenario_are_reported_missing() {
    let store = new_store();
    assert_eq!(store.fetch_scenarios_games(7), Err(QueryError::NotFound));
}

#[test]
fn games_of_a_scenario_come_back_whole() {
    let mut store = new_store();
    store.insert_game(&run_for("aim", 100, 60), 10).unwrap();
    store.insert_game(&run_for("other", 90, 50), 10).unwrap();
    store.insert_game(&run_for("aim", 80, 40), 11).unwrap();
    let games = store.fetch_scenarios_games(1).unwrap();
    assert_eq!(games.len(), 2);
    assert_eq!(games[0].stats.shots, 100);
    assert_eq!(games[1].stats.shots, 80);
}

#[test]
fn clearing_keeps_playlists_and_settings() {
    let mut store = new_store();
    store.insert_game(&run_for("aim", 100, 60), 10).unwrap();
    store
        .insert_playlist(
            InsertPlaylist {
                name: "daily".to_string(),
                description: "warmup".to_string(),
                duration: 30,
                scenarios: vec![ScenarioPlaylist { scenario_id: 1, reps: 5 }],
            },
            10,
        )
        .unwrap();
    store.clear_database();
    assert_eq!(store.fetch_scenarios().len(), 0);
    assert_eq!(store.fetch_game_page(1, 10).len(), 0);
    let grouped = store.fetch_playlist_with_data(false);
    assert_eq!(grouped.len(), 1);
    assert_eq!(grouped[0].name, "daily");
    assert_eq!(grouped[0].scenarios.len(), 0);
    assert_eq!(store.get_settings().directory_path, "logs");
}

#[test]
fn settings_update_and_read_back() {
    let mut store = new_store();
    store.update_settings(Settings { directory_path: "elsewhere".to_string() });
    assert_eq!(store.get_settings().directory_path, "elsewhere");
}

#[test]
fn playlist_naming_unknown_scenario_writes_nothing() {
    let mut store = new_store();
    let r = store.insert_playlist(
        InsertPlaylist {
            name: "daily".to_string(),
            description: "warmup".to_string(),
            duration: 30,
            scenarios: vec![ScenarioPlaylist { scenario_id: 9, reps: 5 }],
        },
        10,
    );
    assert_eq!(r, Err(PlaylistError::UnknownScenario));
    assert_eq!(store.fetch_playlist_with_data(false).len(), 0);
}

#[test]
fn activating_a_playlist_opens_its_window_today() {
    let mut store = new_store();
    store.insert_game(&run_for("aim", 100, 60), 50).unwrap();
    store
        .insert_playlist(
            InsertPlaylist {
                name: "daily".to_string(),
                description: "warmup".to_string(),
                duration: 30,
                scenarios: vec![ScenarioPlaylist { scenario_id: 1, reps: 5 }],
            },
            50,
        )
        .unwrap();
    // while inactive the window sits far in the future: no games counted
    let grouped = store.fetch_playlist_with_data(false);
    assert_eq!(grouped[0].scenarios[0].days[0].games_count, 0);
    // nothing is active yet
    assert_eq!(store.fetch_playlist_with_data(true).len(), 0);
    store.update_playlist_state(1, PlaylistState::Active, 50);
    let grouped = store.fetch_playlist_with_data(true);
    assert_eq!(grouped.len(), 1);
    assert_eq!(grouped[0].state, PlaylistState::Active);
    assert_eq!(grouped[0].scenarios[0].days.len(), 1);
    assert_eq!(grouped[0].scenarios[0].days[0].games_count, 1);
}

#[test]
fn a_zero_limit_page_is_empty() {
    let mut store = new_store();
    store.insert_game(&run_for("aim", 100, 60), 10).unwrap();
    assert_eq!(store.fetch_game_page(1, 0).len(), 0);
}
