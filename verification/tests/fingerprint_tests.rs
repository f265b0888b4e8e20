use aim_trainer_stats::fingerprint::calculate_hash;
use aim_trainer_stats::records::{Data, KeyValueRecord, Stats, TilesRecords};

fn sample_tile() -> TilesRecords {
    TilesRecords {
        kill: Some(1),
        timestamp: Some("12:00:01".to_string()),
        bot: Some("botA".to_string()),
        weapon: Some("rifle".to_string()),
        ttk: Some("0.5s".to_string()),
        shots: Some(10),
        accuracy: Some("0.85".to_string()),
        damage_done: Some(100),
        damage_taken: Some(20),
        efficiency: Some("0.75".to_string()),
        cheated: Some(false),
    }
}

fn sample_data() -> Data {
    Data {
        tiles: vec![sample_tile()],
        key_value: vec![KeyValueRecord {
            key: "Scenario:".to_string(),
            value: "aim".to_string(),
        }],
        stats: Stats {
            weapon: "rifle".to_string(),
            shots: 100,
            hits: 60,
            damage_done: "345.5".to_string(),
            damage_possible: "700.25".to_string(),
        },
    }
}

#[test]
fn identical_content_fingerprints_identically() {
    let a = sample_data();
    let b = sample_data();
    assert_eq!(calculate_hash(&a), calculate_hash(&b));
}

#[test]
fn construction_order_does_not_matter() {
    let a = sample_data();
    // the same content assembled the other way round
    let stats = Stats {
        weapon: "rifle".to_string(),
        shots: 100,
        hits: 60,
        damage_done: "345.5".to_string(),
        damage_possible: "700.25".to_string(),
    };
    let key_value = vec![KeyValueRecord {
        key: "Scenario:".to_string(),
        value: "aim".to_string(),
    }];
    let tiles = vec![sample_tile()];
    let b = Data { stats, key_value, tiles };
    assert_eq!(calculate_hash(&a), calculate_hash(&b));
}

#[test]
fn distinct_float_bit_patterns_fingerprint_differently() {
    // "0.0" and "-0.0" parse to floats that compare equal but whose bit
    // patterns differ; their carried text differs, so the runs must not
    // collapse into one.
    assert_eq!(("0.0".parse::<f32>().unwrap()), ("-0.0".parse::<f32>().unwrap()));
    assert_ne!(
        "0.0".parse::<f32>().unwrap().to_bits(),
        "-0.0".parse::<f32>().unwrap().to_bits()
    );
    let a = sample_data();
    let mut b = sample_data();
    b.stats.damage_possible = "-0.0".to_string();
    let mut a0 = a;
    a0.stats.damage_possible = "0.0".to_string();
    assert_ne!(calculate_hash(&a0), calculate_hash(&b));
}

#[test]
fn every_field_reaches_the_fingerprint() {
    let base = sample_data();
    let h = calculate_hash(&base);

    let mut m = sample_data();
    m.tiles[0].kill = Some(2);
    assert_ne!(calculate_hash(&m), h);

    let mut m = sample_data();
    m.tiles[0].cheated = None;
    assert_ne!(calculate_hash(&m), h);

    let mut m = sample_data();
    m.key_value[0].value = "aim2".to_string();
    assert_ne!(calculate_hash(&m), h);

    let mut m = sample_data();
    m.stats.hits = 61;
    assert_ne!(calculate_hash(&m), h);

    let mut m = sample_data();
    m.stats.damage_done = "345.50".to_string();
    assert_ne!(calculate_hash(&m), h);
}

#[test]
fn absent_and_empty_text_fields_differ() {
    let mut a = sample_data();
    a.tiles[0].bot = None;
    let mut b = sample_data();
    b.tiles[0].bot = Some(String::new());
    assert_ne!(calculate_hash(&a), calculate_hash(&b));
}
