use aim_trainer_stats::aggregate::{fold_chart_rows, fold_playlist_rows, AccuracyRatio, ChartRow,
    FetchedPlaylistData, PlaylistScenarioRow};
use aim_trainer_stats::records::{Data, KeyValueRecord, Stats, TilesRecords};
use aim_trainer_stats::store::{Difficulty, InsertPlaylist, PlaylistState, ScenarioPlaylist,
    Store};

fn run_with(scenario: &str, shots: u16, hits: u16, dd: &str, dp: &str) -> Data {
    Data {
        tiles: vec![TilesRecords {
            kill: Some(1),
            timestamp: None,
            bot: None,
            weapon: None,
            ttk: None,
            shots: Some(10),
            accuracy: None,
            damage_done: Some(100),
            damage_taken: Some(20),
            efficiency: None,
            cheated: Some(false),
        }],
        key_value: vec![KeyValueRecord {
            key: "Scenario:".to_string(),
            value: scenario.to_string(),
        }],
        stats: Stats {
            weapon: "rifle".to_string(),
            shots,
            hits,
            damage_done: dd.to_string(),
            damage_possible: dp.to_string(),
        },
    }
}

#[test]
fn general_stats_report_exact_totals() {
    let mut store = Store::new(String::new());
    store.insert_game(&run_with("aim", 100, 60, "10.5", "20.5"), 1).unwrap();
    store.insert_game(&run_with("aim", 50, 30, "1.5", "2.5"), 2).unwrap();
    let stats = store.fetch_general_scenario_stats();
    assert_eq!(stats.len(), 1);
    assert_eq!(stats[0].name, "aim");
    assert_eq!(stats[0].games_count, 2);
    let totals = stats[0].totals.as_ref().unwrap();
    assert_eq!(totals.shots, 150);
    assert_eq!(totals.hits, 90);
    assert_eq!(totals.damage_done, vec!["10.5", "1.5"]);
    assert_eq!(totals.damage_possible, vec!["20.5", "2.5"]);
    // averages and the accuracy percentage follow exactly from the totals
    let avg_shots = totals.shots as f64 / stats[0].games_count as f64;
    assert_eq!(avg_shots, 75.0);
    let accuracy = totals.hits as f64 / totals.shots as f64 * 100.0;
    assert_eq!(accuracy, 60.0);
}

#[test]
fn scenario_with_zero_games_reports_absent_totals() {
    let mut store = Store::new(String::new());
    store.insert_game(&run_with("aim", 100, 60, "1.0", "2.0"), 1).unwrap();
    store.delete_game(1);
    let stats = store.fetch_general_scenario_stats();
    assert_eq!(stats.len(), 1);
    assert_eq!(stats[0].games_count, 0);
    assert!(stats[0].totals.is_none());
}

#[test]
fn chart_stats_bucket_by_scenario_and_day() {
    let mut store = Store::new(String::new());
    store.insert_game(&run_with("aim", 100, 60, "1.0", "2.0"), 5).unwrap();
    store.insert_game(&run_with("aim", 50, 20, "1.5", "2.0"), 5).unwrap();
    store.insert_game(&run_with("aim", 10, 5, "2.0", "2.0"), 6).unwrap();
    store.insert_game(&run_with("other", 40, 10, "3.0", "4.0"), 6).unwrap();
    let series = store.fetch_chart_scenario_stats();
    assert_eq!(series.len(), 2);
    assert_eq!(series[0].name, "aim");
    assert_eq!(series[0].data.len(), 2);
    assert_eq!(series[0].data[0].date, 5);
    assert_eq!(
        series[0].data[0].avg_accuracy,
        Some(AccuracyRatio { hits: 80, shots: 150 })
    );
    assert_eq!(series[0].data[1].date, 6);
    assert_eq!(
        series[0].data[1].avg_accuracy,
        Some(AccuracyRatio { hits: 5, shots: 10 })
    );
    assert_eq!(series[1].name, "other");
    assert_eq!(series[1].data.len(), 1);
}

#[test]
fn chart_accuracy_is_absent_when_no_shots_were_fired() {
    let mut store = Store::new(String::new());
    store.insert_game(&run_with("aim", 0, 0, "0.0", "0.0"), 5).unwrap();
    let series = store.fetch_chart_scenario_stats();
    assert_eq!(series[0].data[0].avg_accuracy, None);
}

#[test]
fn chart_fold_matches_by_name_not_adjacency() {
    let row = |name: &str, date: u64| ChartRow {
        name: name.to_string(),
        date,
        avg_accuracy: None,
    };
    let rows = vec![row("a", 1), row("b", 1), row("a", 2)];
    let folded = fold_chart_rows(&rows);
    assert_eq!(folded.len(), 2);
    assert_eq!(folded[0].name, "a");
    assert_eq!(folded[0].data.len(), 2);
    assert_eq!(folded[0].data[1].date, 2);
    assert_eq!(folded[1].name, "b");
    assert_eq!(folded[1].data.len(), 1);
}

fn flat_row(id: u64, scenario: Option<(&str, u64)>) -> FetchedPlaylistData {
    FetchedPlaylistData {
        id,
        name: format!("playlist {}", id),
        description: String::new(),
        duration: 30,
        state: PlaylistState::Inactive,
        scenario: scenario.map(|(name, games)| PlaylistScenarioRow {
            scenario_name: name.to_string(),
            scenario_difficulty: Difficulty::Easy,
            games_played: games,
            reps: 5,
        }),
    }
}

#[test]
fn grouped_playlist_fold_nests_three_levels() {
    let rows = vec![
        flat_row(1, Some(("A", 1))),
        flat_row(1, Some(("A", 2))),
        flat_row(1, Some(("B", 1))),
        flat_row(2, None),
    ];
    let grouped = fold_playlist_rows(&rows);
    assert_eq!(grouped.len(), 2);
    assert_eq!(grouped[0].id, 1);
    assert_eq!(grouped[0].scenarios.len(), 2);
    assert_eq!(grouped[0].scenarios[0].scenario_name, "A");
    assert_eq!(grouped[0].scenarios[0].days.len(), 2);
    assert_eq!(grouped[0].scenarios[0].days[0].games_count, 1);
    assert_eq!(grouped[0].scenarios[0].days[1].games_count, 2);
    assert_eq!(grouped[0].scenarios[1].scenario_name, "B");
    assert_eq!(grouped[0].scenarios[1].days.len(), 1);
    assert_eq!(grouped[0].scenarios[1].days[0].games_count, 1);
    assert_eq!(grouped[1].id, 2);
    assert_eq!(grouped[1].scenarios.len(), 0);
}

#[test]
fn grouped_view_counts_games_inside_the_active_window() {
    let mut store = Store::new(String::new());
    store.insert_game(&run_with("aim", 100, 60, "1.0", "2.0"), 50).unwrap();
    store.insert_game(&run_with("aim", 90, 50, "1.5", "2.0"), 50).unwrap();
    store.insert_game(&run_with("aim", 80, 40, "2.0", "2.0"), 51).unwrap();
    store
        .insert_playlist(
            InsertPlaylist {
                name: "daily".to_string(),
                description: String::new(),
                duration: 30,
                scenarios: vec![ScenarioPlaylist { scenario_id: 1, reps: 5 }],
            },
            50,
        )
        .unwrap();
    store.update_playlist_state(1, PlaylistState::Active, 50);
    let grouped = store.fetch_playlist_with_data(false);
    assert_eq!(grouped.len(), 1);
    let days = &grouped[0].scenarios[0].days;
    assert_eq!(days.len(), 2);
    assert_eq!(days[0].games_count, 2);
    assert_eq!(days[1].games_count, 1);
    // a game created after the window closes is not counted
    store.insert_game(&run_with("aim", 70, 30, "2.5", "2.0"), 99).unwrap();
    let grouped = store.fetch_playlist_with_data(false);
    assert_eq!(grouped[0].scenarios[0].days.len(), 2);
}

#[test]
fn playlist_without_scenarios_still_appears() {
    let mut store = Store::new(String::new());
    store
        .insert_playlist(
            InsertPlaylist {
                name: "empty".to_string(),
                description: String::new(),
                duration: 7,
                scenarios: vec![],
            },
            50,
        )
        .unwrap();
    let grouped = store.fetch_playlist_with_data(false);
    assert_eq!(grouped.len(), 1);
    assert_eq!(grouped[0].name, "empty");
    assert_eq!(grouped[0].scenarios.len(), 0);
}
