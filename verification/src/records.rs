//! The three record kinds a log file is parsed into, and the parsed run
//! that bundles them.
//!
//! Numeric cells that the source format stores as floating point
//! (accuracy, efficiency, damage done/possible) are carried as their exact
//! cell text, validated against the float-literal grammar by the parser.
//! Keeping the text preserves the value bit-for-bit: equal text means an
//! equal float, and distinct bit patterns always come from distinct text.

use vstd::prelude::*;

verus! {

/// One combat-tick record. Every field is optional: a missing or
/// malformed cell decodes to `None`, never to a row error.
#[derive(Debug, PartialEq)]
pub struct TilesRecords {
    pub kill: Option<u16>,
    pub timestamp: Option<String>,
    pub bot: Option<String>,
    pub weapon: Option<String>,
    pub ttk: Option<String>,
    pub shots: Option<u8>,
    pub accuracy: Option<String>,
    pub damage_done: Option<u16>,
    pub damage_taken: Option<u16>,
    pub efficiency: Option<String>,
    pub cheated: Option<bool>,
}

/// A free-form metadata pair taken from a two-column header row.
#[derive(Debug, PartialEq)]
pub struct KeyValueRecord {
    pub key: String,
    pub value: String,
}

/// The per-run aggregate record; exactly one per file, all fields required.
#[derive(Debug, PartialEq)]
pub struct Stats {
    pub weapon: String,
    pub shots: u16,
    pub hits: u16,
    pub damage_done: String,
    pub damage_possible: String,
}

/// One parsed file: the unit that is fingerprinted and ingested.
#[derive(Debug, PartialEq)]
pub struct Data {
    pub tiles: Vec<TilesRecords>,
    pub key_value: Vec<KeyValueRecord>,
    pub stats: Stats,
}

/// A clock time as it appears in a tile's timestamp cell.
#[derive(Clone, Copy, Debug, PartialEq, Eq, Structural)]
pub struct Timestamp {
    pub hours: u8,
    pub minutes: u8,
    pub seconds: u8,
    pub milliseconds: u16,
}

/// Mathematical image of a [`TilesRecords`]: text fields as char sequences.
#[verifier::ext_equal]
pub struct TileRowV {
    pub kill: Option<u16>,
    pub timestamp: Option<Seq<char>>,
    pub bot: Option<Seq<char>>,
    pub weapon: Option<Seq<char>>,
    pub ttk: Option<Seq<char>>,
    pub shots: Option<u8>,
    pub accuracy: Option<Seq<char>>,
    pub damage_done: Option<u16>,
    pub damage_taken: Option<u16>,
    pub efficiency: Option<Seq<char>>,
    pub cheated: Option<bool>,
}

/// Mathematical image of a [`KeyValueRecord`].
#[verifier::ext_equal]
pub struct KeyValueV {
    pub key: Seq<char>,
    pub value: Seq<char>,
}

/// Mathematical image of a [`Stats`] record.
#[verifier::ext_equal]
pub struct StatsV {
    pub weapon: Seq<char>,
    pub shots: u16,
    pub hits: u16,
    pub damage_done: Seq<char>,
    pub damage_possible: Seq<char>,
}

/// Mathematical image of a [`Data`] value.
#[verifier::ext_equal]
pub struct DataV {
    pub tiles: Seq<TileRowV>,
    pub key_value: Seq<KeyValueV>,
    pub stats: StatsV,
}

pub open spec fn view_opt_text(o: Option<String>) -> Option<Seq<char>> {
    match o {
        Some(s) => Some(s@),
        None => None,
    }
}

impl View for TilesRecords {
    type V = TileRowV;

    open spec fn view(&self) -> TileRowV {
        TileRowV {
            kill: self.kill,
            timestamp: view_opt_text(self.timestamp),
            bot: view_opt_text(self.bot),
            weapon: view_opt_text(self.weapon),
            ttk: view_opt_text(self.ttk),
            shots: self.shots,
            accuracy: view_opt_text(self.accuracy),
            damage_done: self.damage_done,
            damage_taken: self.damage_taken,
            efficiency: view_opt_text(self.efficiency),
            cheated: self.cheated,
        }
    }
}

impl View for KeyValueRecord {
    type V = KeyValueV;

    open spec fn view(&self) -> KeyValueV {
        KeyValueV { key: self.key@, value: self.value@ }
    }
}

impl View for Stats {
    type V = StatsV;

    open spec fn view(&self) -> StatsV {
        StatsV {
            weapon: self.weapon@,
            shots: self.shots,
            hits: self.hits,
            damage_done: self.damage_done@,
            damage_possible: self.damage_possible@,
        }
    }
}

impl View for Data {
    type V = DataV;

    open spec fn view(&self) -> DataV {
        DataV {
            tiles: self.tiles@.map_values(|t: TilesRecords| t@),
            key_value: self.key_value@.map_values(|r: KeyValueRecord| r@),
            stats: self.stats@,
        }
    }
}

impl StatsV {
    /// The zero-value record a file without a stats row falls back to.
    pub open spec fn zero() -> StatsV {
        StatsV {
            weapon: Seq::<char>::empty(),
            shots: 0,
            hits: 0,
            damage_done: Seq::<char>::empty(),
            damage_possible: Seq::<char>::empty(),
        }
    }
}

impl Default for Stats {
    /// The zero-value record a file without a stats row falls back to.
    fn default() -> (r: Stats)
        ensures
            r@ == StatsV::zero(),
    {
        let r = Stats {
            weapon: String::new(),
            shots: 0,
            hits: 0,
            damage_done: String::new(),
            damage_possible: String::new(),
        };
        assert(r@ =~= StatsV::zero());
        r
    }
}

fn clone_opt_string(o: &Option<String>) -> (r: Option<String>)
    ensures
        r == *o,
{
    match o {
        Some(s) => Some(s.clone()),
        None => None,
    }
}

impl Clone for TilesRecords {
    fn clone(&self) -> (r: Self)
        ensures
            r == *self,
    {
        TilesRecords {
            kill: self.kill,
            timestamp: clone_opt_string(&self.timestamp),
            bot: clone_opt_string(&self.bot),
            weapon: clone_opt_string(&self.weapon),
            ttk: clone_opt_string(&self.ttk),
            shots: self.shots,
            accuracy: clone_opt_string(&self.accuracy),
            damage_done: self.damage_done,
            damage_taken: self.damage_taken,
            efficiency: clone_opt_string(&self.efficiency),
            cheated: self.cheated,
        }
    }
}

impl Clone for KeyValueRecord {
    fn clone(&self) -> (r: Self)
        ensures
            r == *self,
    {
        KeyValueRecord { key: self.key.clone(), value: self.value.clone() }
    }
}

impl Clone for Stats {
    fn clone(&self) -> (r: Self)
        ensures
            r == *self,
    {
        Stats {
            weapon: self.weapon.clone(),
            shots: self.shots,
            hits: self.hits,
            damage_done: self.damage_done.clone(),
            damage_possible: self.damage_possible.clone(),
        }
    }
}

impl Clone for Data {
    fn clone(&self) -> (r: Self)
        ensures
            r.tiles@ == self.tiles@,
            r.key_value@ == self.key_value@,
            r.stats == self.stats,
            r@ == self@,
    {
        let mut tiles: Vec<TilesRecords> = Vec::new();
        let mut i: usize = 0;
        while i < self.tiles.len()
            invariant
                i <= self.tiles@.len(),
                tiles@ =~= self.tiles@.take(i as int),
            decreases self.tiles@.len() - i,
        {
            tiles.push(self.tiles[i].clone());
            proof {
                assert(self.tiles@.take(i + 1) =~= self.tiles@.take(i as int).push(
                    self.tiles@[i as int],
                ));
            }
            i = i + 1;
        }
        let mut key_value: Vec<KeyValueRecord> = Vec::new();
        let mut j: usize = 0;
        while j < self.key_value.len()
            invariant
                j <= self.key_value@.len(),
                key_value@ =~= self.key_value@.take(j as int),
            decreases self.key_value@.len() - j,
        {
            key_value.push(self.key_value[j].clone());
            proof {
                assert(self.key_value@.take(j + 1) =~= self.key_value@.take(j as int).push(
                    self.key_value@[j as int],
                ));
            }
            j = j + 1;
        }
        proof {
            assert(self.tiles@.take(self.tiles@.len() as int) =~= self.tiles@);
            assert(self.key_value@.take(self.key_value@.len() as int) =~= self.key_value@);
        }
        let r = Data { tiles, key_value, stats: self.stats.clone() };
        proof {
            assert(r@ =~= self@);
        }
        r
    }
}


} // verus!
