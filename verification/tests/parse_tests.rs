use aim_trainer_stats::parse::{is_float_cell, parse_u16_cell, parse_u8_cell, read_file,
    split_records, str_eq, ParseError};

fn header() -> &'static str {
    "Kill #,Timestamp,Bot,Weapon,TTK,Shots,Accuracy,Damage Done,Damage Taken,Efficiency,Cheated,Extra\n"
}

#[test]
fn tile_row_with_malformed_cells_decodes_to_absent_fields() {
    let content = format!(
        "{}1,12:00:01,botA,rifle,0.5s,abc,0.85,100,oops,0.75,true,x\n",
        header()
    );
    let (tiles, kvs, _stats) = read_file(&content).unwrap();
    assert_eq!(tiles.len(), 1);
    assert_eq!(kvs.len(), 0);
    let t = &tiles[0];
    assert_eq!(t.kill, Some(1));
    assert_eq!(t.timestamp.as_deref(), Some("12:00:01"));
    assert_eq!(t.bot.as_deref(), Some("botA"));
    assert_eq!(t.weapon.as_deref(), Some("rifle"));
    assert_eq!(t.ttk.as_deref(), Some("0.5s"));
    assert_eq!(t.shots, None); // "abc" is not a number
    assert_eq!(t.accuracy.as_deref(), Some("0.85"));
    assert_eq!(t.damage_done, Some(100));
    assert_eq!(t.damage_taken, None); // "oops" is not a number
    assert_eq!(t.efficiency.as_deref(), Some("0.75"));
    assert_eq!(t.cheated, Some(true));
}

#[test]
fn tile_row_with_empty_cells_decodes_to_absent_fields() {
    let content = format!("{},,,,,,,,,,,\n", header());
    let (tiles, _, _) = read_file(&content).unwrap();
    assert_eq!(tiles.len(), 1);
    let t = &tiles[0];
    assert_eq!(t.kill, None);
    assert_eq!(t.timestamp, None);
    assert_eq!(t.bot, None);
    assert_eq!(t.shots, None);
    assert_eq!(t.accuracy, None);
    assert_eq!(t.cheated, None);
}

#[test]
fn allow_listed_key_value_rows_are_kept() {
    let content = format!("{}Scenario:,1wall6targets\nFOV:,103\n", header());
    let (_, kvs, _) = read_file(&content).unwrap();
    assert_eq!(kvs.len(), 2);
    assert_eq!(kvs[0].key, "Scenario:");
    assert_eq!(kvs[0].value, "1wall6targets");
    assert_eq!(kvs[1].key, "FOV:");
    assert_eq!(kvs[1].value, "103");
}

#[test]
fn two_column_row_off_the_allow_list_is_dropped() {
    let content = format!("{}Vert Sens:,2.5\nScenario:,aim\n", header());
    let (_, kvs, _) = read_file(&content).unwrap();
    assert_eq!(kvs.len(), 1);
    assert_eq!(kvs[0].key, "Scenario:");
}

#[test]
fn stats_row_decodes_exactly_and_last_one_wins() {
    let content = format!(
        "{}rifle,100,60,345.5,700.25,x\npistol,50,25,10.5,20.5,y\n",
        header()
    );
    let (_, _, stats) = read_file(&content).unwrap();
    assert_eq!(stats.weapon, "pistol");
    assert_eq!(stats.shots, 50);
    assert_eq!(stats.hits, 25);
    assert_eq!(stats.damage_done, "10.5");
    assert_eq!(stats.damage_possible, "20.5");
}

#[test]
fn file_without_stats_row_falls_back_to_the_zero_record() {
    let content = format!("{}Scenario:,aim\n", header());
    let (_, _, stats) = read_file(&content).unwrap();
    assert_eq!(stats.weapon, "");
    assert_eq!(stats.shots, 0);
    assert_eq!(stats.hits, 0);
    assert_eq!(stats.damage_done, "");
    assert_eq!(stats.damage_possible, "");
}

#[test]
fn malformed_stats_row_aborts_the_file() {
    let content = format!("{}rifle,notanumber,60,345.5,700.25,x\n", header());
    let err = read_file(&content).unwrap_err();
    assert_eq!(err, ParseError::MalformedStatsRow);
}

#[test]
fn malformed_stats_damage_cell_aborts_the_file() {
    let content = format!("{}rifle,100,60,notafloat,700.25,x\n", header());
    assert!(read_file(&content).is_err());
}

#[test]
fn rows_of_unmatched_width_are_skipped() {
    let content = format!("{}a,b,c\none\na,b,c,d,e,f,g\n", header());
    let (tiles, kvs, stats) = read_file(&content).unwrap();
    assert_eq!(tiles.len(), 0);
    assert_eq!(kvs.len(), 0);
    assert_eq!(stats.shots, 0);
}

#[test]
fn crlf_and_blank_lines_split_like_single_terminators() {
    let rows = split_records("a,b\r\n\r\nc,d\ne,f\r");
    assert_eq!(rows.len(), 3);
    assert_eq!(rows[0], vec!["a", "b"]);
    assert_eq!(rows[1], vec!["c", "d"]);
    assert_eq!(rows[2], vec!["e", "f"]);
}

#[test]
fn final_row_without_terminator_still_counts() {
    let rows = split_records("h1,h2\nx,y");
    assert_eq!(rows.len(), 2);
    assert_eq!(rows[1], vec!["x", "y"]);
}

#[test]
fn quote_characters_are_literal() {
    let rows = split_records("h\n\"a,b\"\n");
    assert_eq!(rows.len(), 2);
    assert_eq!(rows[1], vec!["\"a", "b\""]);
}

#[test]
fn trailing_comma_yields_an_empty_cell() {
    let rows = split_records("a,\n");
    assert_eq!(rows[0], vec!["a", ""]);
}

#[test]
fn unsigned_cell_grammar() {
    assert_eq!(parse_u16_cell("123"), Some(123));
    assert_eq!(parse_u16_cell("+7"), Some(7));
    assert_eq!(parse_u16_cell("0012"), Some(12));
    assert_eq!(parse_u16_cell("65535"), Some(65535));
    assert_eq!(parse_u16_cell("65536"), None);
    assert_eq!(parse_u16_cell(""), None);
    assert_eq!(parse_u16_cell("+"), None);
    assert_eq!(parse_u16_cell("-1"), None);
    assert_eq!(parse_u16_cell("12a"), None);
    assert_eq!(parse_u8_cell("255"), Some(255));
    assert_eq!(parse_u8_cell("256"), None);
}

#[test]
fn float_cell_grammar() {
    assert!(is_float_cell("1.5"));
    assert!(is_float_cell("-0.0"));
    assert!(is_float_cell(".5"));
    assert!(is_float_cell("1."));
    assert!(is_float_cell("3e10"));
    assert!(is_float_cell("-2.5E-3"));
    assert!(is_float_cell("inf"));
    assert!(is_float_cell("-Infinity"));
    assert!(is_float_cell("NaN"));
    assert!(!is_float_cell(""));
    assert!(!is_float_cell("abc"));
    assert!(!is_float_cell("1e"));
    assert!(!is_float_cell("."));
    assert!(!is_float_cell("1.5x"));
    assert!(!is_float_cell("--1"));
}

#[test]
fn str_eq_compares_by_characters() {
    assert!(str_eq("Scenario:", "Scenario:"));
    assert!(!str_eq("Scenario:", "scenario:"));
    assert!(!str_eq("a", "ab"));
}

#[test]
fn empty_file_yields_empty_collections_and_zero_stats() {
    let (tiles, kvs, stats) = read_file("").unwrap();
    assert_eq!(tiles.len(), 0);
    assert_eq!(kvs.len(), 0);
    assert_eq!(stats.shots, 0);
    assert_eq!(stats.weapon, "");
}

#[test]
fn header_only_file_yields_empty_collections() {
    let (tiles, kvs, stats) = read_file(header()).unwrap();
    assert_eq!(tiles.len(), 0);
    assert_eq!(kvs.len(), 0);
    assert_eq!(stats.hits, 0);
}
