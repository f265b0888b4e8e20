//! Deterministic 64-bit fingerprint over a parsed run's full structural
//! content, used as the deduplication key for ingestion.
//!
//! The digest is a multiply-and-add mix over every field of every record,
//! with each variable-length part length-prefixed. It is a pure function
//! of the run's content, so byte-identical files always fingerprint
//! identically; the fingerprint space is treated as large enough that a
//! collision counts as "same run" (a documented approximation).

use vstd::prelude::*;
use vstd::wrapping::u64_specs;

use crate::records::{Data, DataV, KeyValueRecord, KeyValueV, Stats, StatsV, TileRowV,
    TilesRecords};

verus! {

pub const MIX_MULT: u64 = 0x100000001b3;

pub const MIX_SEED: u64 = 0xcbf29ce484222325;

/// One mixing step: fold the word `w` into the running state `h`.
#[verifier::opaque]
pub open spec fn mix(h: u64, w: u64) -> u64 {
    u64_specs::wrapping_add(u64_specs::wrapping_mul(h, MIX_MULT), w)
}

pub open spec fn hash_chars(h: u64, s: Seq<char>) -> u64
    decreases s.len(),
{
    if s.len() == 0 {
        h
    } else {
        hash_chars(mix(h, s[0] as u64), s.drop_first())
    }
}

/// A text field: its length, then its characters.
pub open spec fn hash_text(h: u64, s: Seq<char>) -> u64 {
    hash_chars(mix(h, s.len() as u64), s)
}

pub open spec fn hash_opt_text(h: u64, o: Option<Seq<char>>) -> u64 {
    match o {
        None => mix(h, 0),
        Some(s) => hash_text(mix(h, 1), s),
    }
}

pub open spec fn hash_opt_word(h: u64, o: Option<u64>) -> u64 {
    match o {
        None => mix(h, 0),
        Some(w) => mix(mix(h, 1), w),
    }
}

pub open spec fn word_of_opt_u16(o: Option<u16>) -> Option<u64> {
    match o {
        None => None,
        Some(v) => Some(v as u64),
    }
}

pub open spec fn word_of_opt_u8(o: Option<u8>) -> Option<u64> {
    match o {
        None => None,
        Some(v) => Some(v as u64),
    }
}

pub open spec fn word_of_opt_bool(o: Option<bool>) -> Option<u64> {
    match o {
        None => None,
        Some(b) => Some(if b { 1u64 } else { 0u64 }),
    }
}

/// Every field of one tile record, in declaration order.
pub open spec fn hash_tile(h: u64, t: TileRowV) -> u64 {
    let h = hash_opt_word(h, word_of_opt_u16(t.kill));
    let h = hash_opt_text(h, t.timestamp);
    let h = hash_opt_text(h, t.bot);
    let h = hash_opt_text(h, t.weapon);
    let h = hash_opt_text(h, t.ttk);
    let h = hash_opt_word(h, word_of_opt_u8(t.shots));
    let h = hash_opt_text(h, t.accuracy);
    let h = hash_opt_word(h, word_of_opt_u16(t.damage_done));
    let h = hash_opt_word(h, word_of_opt_u16(t.damage_taken));
    let h = hash_opt_text(h, t.efficiency);
    hash_opt_word(h, word_of_opt_bool(t.cheated))
}

pub open spec fn hash_tile_seq(h: u64, ts: Seq<TileRowV>) -> u64
    decreases ts.len(),
{
    if ts.len() == 0 {
        h
    } else {
        hash_tile_seq(hash_tile(h, ts[0]), ts.drop_first())
    }
}

pub open spec fn hash_key_value(h: u64, r: KeyValueV) -> u64 {
    hash_text(hash_text(h, r.key), r.value)
}

pub open spec fn hash_key_value_seq(h: u64, rs: Seq<KeyValueV>) -> u64
    decreases rs.len(),
{
    if rs.len() == 0 {
        h
    } else {
        hash_key_value_seq(hash_key_value(h, rs[0]), rs.drop_first())
    }
}

pub open spec fn hash_stats(h: u64, s: StatsV) -> u64 {
    let h = hash_text(h, s.weapon);
    let h = mix(h, s.shots as u64);
    let h = mix(h, s.hits as u64);
    let h = hash_text(h, s.damage_done);
    hash_text(h, s.damage_possible)
}

/// The whole run: tile records, key/value records, then the stats record.
pub open spec fn fingerprint64(d: DataV) -> u64 {
    let h = mix(MIX_SEED, d.tiles.len() as u64);
    let h = hash_tile_seq(h, d.tiles);
    let h = mix(h, d.key_value.len() as u64);
    let h = hash_key_value_seq(h, d.key_value);
    hash_stats(h, d.stats)
}

pub open spec fn to_signed(h: u64) -> i64 {
    if h <= 0x7fff_ffff_ffff_ffff {
        h as i64
    } else {
        (h - 0x1_0000_0000_0000_0000) as i64
    }
}

/// The fingerprint as it is stored on a game row.
pub open spec fn fingerprint(d: DataV) -> i64 {
    to_signed(fingerprint64(d))
}

fn mix_step(h: u64, w: u64) -> (r: u64)
    ensures
        r == mix(h, w),
{
    proof {
        reveal(mix);
    }
    h.wrapping_mul(MIX_MULT).wrapping_add(w)
}

#[verifier::rlimit(60)]
fn hash_str_chars(h0: u64, s: &str) -> (r: u64)
    ensures
        r == hash_chars(h0, s@),
{
    let n = s.unicode_len();
    let mut h = h0;
    let mut i: usize = 0;
    proof {
        assert(s@.skip(0) =~= s@);
    }
    while i < n
        invariant
            n == s@.len(),
            i <= n,
            hash_chars(h, s@.skip(i as int)) == hash_chars(h0, s@),
        decreases n - i,
    {
        let c = s.get_char(i);
        proof {
            assert(s@.skip(i as int)[0] == s@[i as int]);
            assert(s@.skip(i as int).drop_first() =~= s@.skip(i + 1));
        }
        h = mix_step(h, c as u64);
        i = i + 1;
    }
    proof {
        assert(s@.skip(n as int) =~= Seq::<char>::empty());
    }
    h
}

fn hash_string_field(h: u64, s: &String) -> (r: u64)
    ensures
        r == hash_text(h, s@),
{
    let n = s.as_str().unicode_len();
    let h = mix_step(h, n as u64);
    hash_str_chars(h, s.as_str())
}

fn hash_opt_string_field(h: u64, o: &Option<String>) -> (r: u64)
    ensures
        r == hash_opt_text(h, crate::records::view_opt_text(*o)),
{
    match o {
        None => mix_step(h, 0),
        Some(s) => {
            let h = mix_step(h, 1);
            hash_string_field(h, s)
        },
    }
}

fn hash_opt_u16_field(h: u64, o: &Option<u16>) -> (r: u64)
    ensures
        r == hash_opt_word(h, word_of_opt_u16(*o)),
{
    match o {
        None => mix_step(h, 0),
        Some(v) => {
            let h = mix_step(h, 1);
            mix_step(h, *v as u64)
        },
    }
}

fn hash_opt_u8_field(h: u64, o: &Option<u8>) -> (r: u64)
    ensures
        r == hash_opt_word(h, word_of_opt_u8(*o)),
{
    match o {
        None => mix_step(h, 0),
        Some(v) => {
            let h = mix_step(h, 1);
            mix_step(h, *v as u64)
        },
    }
}

fn hash_opt_bool_field(h: u64, o: &Option<bool>) -> (r: u64)
    ensures
        r == hash_opt_word(h, word_of_opt_bool(*o)),
{
    match o {
        None => mix_step(h, 0),
        Some(b) => {
            let h = mix_step(h, 1);
            mix_step(h, if *b { 1 } else { 0 })
        },
    }
}

fn hash_tile_record(h: u64, t: &TilesRecords) -> (r: u64)
    ensures
        r == hash_tile(h, t@),
{
    let h = hash_opt_u16_field(h, &t.kill);
    let h = hash_opt_string_field(h, &t.timestamp);
    let h = hash_opt_string_field(h, &t.bot);
    let h = hash_opt_string_field(h, &t.weapon);
    let h = hash_opt_string_field(h, &t.ttk);
    let h = hash_opt_u8_field(h, &t.shots);
    let h = hash_opt_string_field(h, &t.accuracy);
    let h = hash_opt_u16_field(h, &t.damage_done);
    let h = hash_opt_u16_field(h, &t.damage_taken);
    let h = hash_opt_string_field(h, &t.efficiency);
    hash_opt_bool_field(h, &t.cheated)
}

fn hash_key_value_record(h: u64, r: &KeyValueRecord) -> (res: u64)
    ensures
        res == hash_key_value(h, r@),
{
    let h = hash_string_field(h, &r.key);
    hash_string_field(h, &r.value)
}

fn hash_stats_record(h: u64, s: &Stats) -> (r: u64)
    ensures
        r == hash_stats(h, s@),
{
    let h = hash_string_field(h, &s.weapon);
    let h = mix_step(h, s.shots as u64);
    let h = mix_step(h, s.hits as u64);
    let h = hash_string_field(h, &s.damage_done);
    hash_string_field(h, &s.damage_possible)
}

fn to_signed_exec(h: u64) -> (r: i64)
    ensures
        r == to_signed(h),
{
    if h <= 0x7fff_ffff_ffff_ffff {
        h as i64
    } else {
        -((u64::MAX - h) as i64) - 1
    }
}

/// The run's deduplication key, a pure function of its content.
#[verifier::rlimit(60)]
pub fn calculate_hash(data: &Data) -> (r: i64)
    ensures
        r == fingerprint(data@),
{
    let ghost dv = data@;
    let mut h = mix_step(MIX_SEED, data.tiles.len() as u64);
    let mut i: usize = 0;
    let ghost h_tiles_start = h;
    proof {
        assert(dv.tiles.skip(0) =~= dv.tiles);
    }
    while i < data.tiles.len()
        invariant
            i <= data.tiles.len(),
            dv == data@,
            dv.tiles == data.tiles@.map_values(|t: TilesRecords| t@),
            hash_tile_seq(h, dv.tiles.skip(i as int)) == hash_tile_seq(h_tiles_start, dv.tiles),
        decreases data.tiles.len() - i,
    {
        proof {
            assert(dv.tiles.skip(i as int)[0] == dv.tiles[i as int]);
            assert(dv.tiles.skip(i as int).drop_first() =~= dv.tiles.skip(i + 1));
        }
        h = hash_tile_record(h, &data.tiles[i]);
        i = i + 1;
    }
    proof {
        assert(dv.tiles.skip(data.tiles@.len() as int) =~= Seq::<TileRowV>::empty());
    }

    h = mix_step(h, data.key_value.len() as u64);
    let ghost h_kv_start = h;
    let mut j: usize = 0;
    proof {
        assert(dv.key_value.skip(0) =~= dv.key_value);
    }
    while j < data.key_value.len()
        invariant
            j <= data.key_value.len(),
            dv == data@,
            dv.key_value == data.key_value@.map_values(|r: KeyValueRecord| r@),
            hash_key_value_seq(h, dv.key_value.skip(j as int)) == hash_key_value_seq(
                h_kv_start,
                dv.key_value,
            ),
        decreases data.key_value.len() - j,
    {
        proof {
            assert(dv.key_value.skip(j as int)[0] == dv.key_value[j as int]);
            assert(dv.key_value.skip(j as int).drop_first() =~= dv.key_value.skip(j + 1));
        }
        h = hash_key_value_record(h, &data.key_value[j]);
        j = j + 1;
    }
    proof {
        assert(dv.key_value.skip(data.key_value@.len() as int) =~= Seq::<KeyValueV>::empty());
    }

    let h = hash_stats_record(h, &data.stats);
    to_signed_exec(h)
}

} // verus!
