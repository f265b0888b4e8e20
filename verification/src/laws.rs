//! The library's cross-cutting guarantees, stated and proved once over
//! the spec-level transitions that the executable functions are verified
//! against.

use vstd::prelude::*;

use crate::aggregate::{chart_index_from, playlist_fold_step, playlist_index_from,
    spec_fold_chart, spec_fold_playlists, spec_general_row, chart_fold_step, FetchedPlaylistDataV,
    GroupedPlaylistV, ScenarioChartStatsV, ChartRowV};
use crate::fingerprint::{fingerprint, fingerprint64, hash_chars, hash_text, mix, to_signed};
use crate::parse::{classify_row, ClassifyV};
use crate::records::DataV;
use crate::store::{games_count_of, has_game_with_hash, has_scenario_named, lemma_filter_push,
    lemma_ingest_preserves_wf, spec_ingest, stats_of_game, wf_store, ScenarioV, StoreV};

verus! {

/// After a run is ingested, its fingerprint is stored; so a second
/// ingestion of byte-identical content is the duplicate no-op of
/// `Store::insert_game`'s contract, and no game count changes.
pub proof fn lemma_reingest_is_noop(s: StoreV, d: DataV, n: Seq<char>, now: u64)
    ensures
        has_game_with_hash(spec_ingest(s, d, n, now), fingerprint(d)),
{
    let t = spec_ingest(s, d, n, now);
    assert(t.games[t.games.len() - 1].hash == fingerprint(d));
}

/// Classification aborts a file only on a width-6 row: rows of any other
/// width, the tile and key/value rows included, always decode or are
/// skipped, never fail.
pub proof fn lemma_row_classification_total(acc: ClassifyV, r: Seq<Seq<char>>)
    requires
        r.len() != 6,
    ensures
        classify_row(acc, r) is Ok,
{
}

/// The stats record round-trips exactly: the game that ingestion writes
/// holds, field for field, the stats record of the parsed run.
pub proof fn lemma_stats_round_trip(s: StoreV, d: DataV, n: Seq<char>, now: u64)
    requires
        wf_store(s),
        s.next_game_id < u64::MAX,
        s.next_scenario_id < u64::MAX,
    ensures
        stats_of_game(spec_ingest(s, d, n, now), s.next_game_id) == d.stats,
{
    let t = spec_ingest(s, d, n, now);
    let gid = s.next_game_id;
    lemma_ingest_preserves_wf(s, d, n, now);
    assert(t.stats_rows[t.stats_rows.len() - 1].game_id == gid);
    let k = choose|k: int|
        0 <= k < t.stats_rows.len() && (#[trigger] t.stats_rows[k]).game_id == gid;
    if k != t.stats_rows.len() - 1 {
        assert(t.stats_rows[k].game_id != t.stats_rows[t.stats_rows.len() - 1].game_id);
        assert(false);
    }
}

proof fn lemma_char_casts_distinct(c1: char, c2: char)
    requires
        c1 != c2,
    ensures
        c1 as u64 != c2 as u64,
{
}

proof fn lemma_hash_chars_last(h: u64, p: Seq<char>, c: char)
    ensures
        hash_chars(h, p.push(c)) == mix(hash_chars(h, p), c as u64),
    decreases p.len(),
{
    if p.len() == 0 {
        assert(p.push(c)[0] == c);
        assert(p.push(c).drop_first() =~= Seq::<char>::empty());
        assert(hash_chars(h, p.push(c)) == hash_chars(
            mix(h, p.push(c)[0] as u64),
            p.push(c).drop_first(),
        ));
        assert(hash_chars(mix(h, c as u64), Seq::<char>::empty()) == mix(h, c as u64));
        assert(hash_chars(h, p) == h);
    } else {
        assert(p.push(c)[0] == p[0]);
        assert(p.push(c).drop_first() =~= p.drop_first().push(c));
        assert(hash_chars(h, p.push(c)) == hash_chars(
            mix(h, p.push(c)[0] as u64),
            p.push(c).drop_first(),
        ));
        lemma_hash_chars_last(mix(h, p[0] as u64), p.drop_first(), c);
        assert(hash_chars(h, p) == hash_chars(mix(h, p[0] as u64), p.drop_first()));
    }
}

proof fn lemma_mix_separates(h: u64, w1: u64, w2: u64)
    requires
        w1 != w2,
    ensures
        mix(h, w1) != mix(h, w2),
{
    reveal(mix);
}

proof fn lemma_to_signed_injective(a: u64, b: u64)
    requires
        a != b,
    ensures
        to_signed(a) != to_signed(b),
{
}

/// Two runs that differ in the final character of the aggregate damage
/// field always fingerprint differently. (For arbitrary differences a
/// 64-bit digest admits collisions; the design accepts a collision as
/// "same run", so the general statement is checked by tests, not
/// proved.)
pub proof fn lemma_fingerprint_separates_last_char(a: DataV, b: DataV)
    requires
        a.tiles == b.tiles,
        a.key_value == b.key_value,
        a.stats.weapon == b.stats.weapon,
        a.stats.shots == b.stats.shots,
        a.stats.hits == b.stats.hits,
        a.stats.damage_done == b.stats.damage_done,
        a.stats.damage_possible.len() == b.stats.damage_possible.len(),
        a.stats.damage_possible.len() > 0,
        a.stats.damage_possible.drop_last() == b.stats.damage_possible.drop_last(),
        a.stats.damage_possible.last() != b.stats.damage_possible.last(),
    ensures
        fingerprint(a) != fingerprint(b),
{
    let ha = fingerprint64(a);
    let hb = fingerprint64(b);
    let h0a = mix(crate::fingerprint::MIX_SEED, a.tiles.len() as u64);
    let h1a = crate::fingerprint::hash_tile_seq(h0a, a.tiles);
    let h2a = mix(h1a, a.key_value.len() as u64);
    let h3a = crate::fingerprint::hash_key_value_seq(h2a, a.key_value);
    // the chains agree up to the damage-possible field
    let hw = hash_text(h3a, a.stats.weapon);
    let hs = mix(hw, a.stats.shots as u64);
    let hh = mix(hs, a.stats.hits as u64);
    let hd = hash_text(hh, a.stats.damage_done);
    let dpa = a.stats.damage_possible;
    let dpb = b.stats.damage_possible;
    let hl = mix(hd, dpa.len() as u64);
    assert(ha == hash_chars(hl, dpa));
    assert(hb == hash_chars(hl, dpb));
    assert(dpa =~= dpa.drop_last().push(dpa.last()));
    assert(dpb =~= dpb.drop_last().push(dpb.last()));
    lemma_hash_chars_last(hl, dpa.drop_last(), dpa.last());
    lemma_hash_chars_last(hl, dpb.drop_last(), dpb.last());
    let hp = hash_chars(hl, dpa.drop_last());
    lemma_char_casts_distinct(dpa.last(), dpb.last());
    lemma_mix_separates(hp, dpa.last() as u64, dpb.last() as u64);
    lemma_to_signed_injective(ha, hb);
}

/// How many scenario rows carry this name.
pub open spec fn count_scenarios_named(s: StoreV, n: Seq<char>) -> nat {
    s.scenarios.filter(|sc: ScenarioV| sc.name == n).len()
}

proof fn lemma_filter_none<A>(s: Seq<A>, pred: spec_fn(A) -> bool)
    requires
        forall|i: int| 0 <= i < s.len() ==> !pred(#[trigger] s[i]),
    ensures
        s.filter(pred).len() == 0,
    decreases s.len(),
{
    reveal(Seq::filter);
    if s.len() > 0 {
        lemma_filter_none(s.drop_last(), pred);
    }
}

/// Scenario lookup-or-create is idempotent: ingesting two runs that both
/// name the same, previously unseen scenario leaves exactly one scenario
/// row with that name.
pub proof fn lemma_scenario_create_idempotent(
    s: StoreV,
    d1: DataV,
    d2: DataV,
    n: Seq<char>,
    t1: u64,
    t2: u64,
)
    requires
        !has_scenario_named(s, n),
    ensures
        count_scenarios_named(spec_ingest(spec_ingest(s, d1, n, t1), d2, n, t2), n) == 1,
{
    let s1 = spec_ingest(s, d1, n, t1);
    let added = ScenarioV {
        id: s.next_scenario_id,
        name: n,
        difficulty: crate::store::Difficulty::Easy,
        created_day: t1,
        games_count: 0,
    };
    assert(s1.scenarios =~= s.scenarios.push(added));
    assert(s1.scenarios[s1.scenarios.len() - 1].name == n);
    assert(has_scenario_named(s1, n));
    let s2 = spec_ingest(s1, d2, n, t2);
    assert(s2.scenarios == s1.scenarios);
    let pred = |sc: ScenarioV| sc.name == n;
    assert forall|i: int| 0 <= i < s.scenarios.len() implies !pred(
        #[trigger] s.scenarios[i],
    ) by {
        if s.scenarios[i].name == n {
            assert(has_scenario_named(s, n));
        }
    }
    lemma_filter_none(s.scenarios, pred);
    lemma_filter_push(s.scenarios, pred, added);
    assert(s2.scenarios.filter(pred) =~= s.scenarios.filter(pred).push(added));
}

/// A scenario with no games reports no totals at all, and one with games
/// always reports them: never a zero or a placeholder standing in for an
/// absent average.
pub proof fn lemma_zero_games_no_totals(s: StoreV, sc: ScenarioV)
    ensures
        (spec_general_row(s, sc).totals is None) <==> games_count_of(s, sc.id) == 0,
{
}

proof fn lemma_playlist_index_bounds(acc: Seq<GroupedPlaylistV>, id: u64, from: int)
    requires
        0 <= from <= acc.len(),
    ensures
        from <= playlist_index_from(acc, id, from) <= acc.len(),
        playlist_index_from(acc, id, from) < acc.len() ==> acc[playlist_index_from(
            acc,
            id,
            from,
        )].id == id,
    decreases acc.len() - from,
{
    if from < acc.len() && acc[from].id != id {
        lemma_playlist_index_bounds(acc, id, from + 1);
    }
}

proof fn lemma_playlist_index_misses(acc: Seq<GroupedPlaylistV>, id: u64, from: int)
    requires
        0 <= from <= acc.len(),
        playlist_index_from(acc, id, from) == acc.len(),
    ensures
        forall|k: int| from <= k < acc.len() ==> (#[trigger] acc[k]).id != id,
    decreases acc.len() - from,
{
    if from < acc.len() {
        lemma_playlist_index_misses(acc, id, from + 1);
    }
}

proof fn lemma_playlist_step_ids(acc: Seq<GroupedPlaylistV>, row: FetchedPlaylistDataV)
    ensures
        ({
            let out = playlist_fold_step(acc, row);
            let at = playlist_index_from(acc, row.id, 0);
            &&& (at < acc.len() ==> out.len() == acc.len())
            &&& (at >= acc.len() ==> out.len() == acc.len() + 1 && out.last().id == row.id)
            &&& forall|k: int| 0 <= k < acc.len() ==> (#[trigger] out[k]).id == acc[k].id
        }),
{
    let out = playlist_fold_step(acc, row);
    let at = playlist_index_from(acc, row.id, 0);
    lemma_playlist_index_bounds(acc, row.id, 0);
    match row.scenario {
        None => {
        },
        Some(srow) => {
            if at < acc.len() {
                assert(out[at].id == acc[at].id);
            }
        },
    }
}

/// The grouped playlist fold groups by playlist id: a first-seen id
/// opens one node and every later row with that id reuses it, so no id
/// ever appears on two playlist nodes.
pub proof fn lemma_fold_playlists_groups_ids(rows: Seq<FetchedPlaylistDataV>)
    ensures
        forall|i: int, j: int|
            0 <= i < j < spec_fold_playlists(rows).len() ==> (#[trigger] spec_fold_playlists(
                rows,
            )[i]).id != (#[trigger] spec_fold_playlists(rows)[j]).id,
    decreases rows.len(),
{
    if rows.len() > 0 {
        lemma_fold_playlists_groups_ids(rows.drop_last());
        let acc = spec_fold_playlists(rows.drop_last());
        let row = rows.last();
        let out = playlist_fold_step(acc, row);
        let at = playlist_index_from(acc, row.id, 0);
        lemma_playlist_step_ids(acc, row);
        lemma_playlist_index_bounds(acc, row.id, 0);
        if at >= acc.len() {
            lemma_playlist_index_misses(acc, row.id, 0);
        }
        assert forall|i: int, j: int| 0 <= i < j < out.len() implies (#[trigger] out[i]).id != (
        #[trigger] out[j]).id by {
            if j < acc.len() {
                assert(out[i].id == acc[i].id && out[j].id == acc[j].id);
            } else {
                assert(out[i].id == acc[i].id && out[j].id == row.id);
            }
        }
    }
}

proof fn lemma_chart_index_bounds(acc: Seq<ScenarioChartStatsV>, name: Seq<char>, from: int)
    requires
        0 <= from <= acc.len(),
    ensures
        from <= chart_index_from(acc, name, from) <= acc.len(),
        chart_index_from(acc, name, from) < acc.len() ==> acc[chart_index_from(
            acc,
            name,
            from,
        )].name == name,
    decreases acc.len() - from,
{
    if from < acc.len() && acc[from].name != name {
        lemma_chart_index_bounds(acc, name, from + 1);
    }
}

proof fn lemma_chart_index_misses(acc: Seq<ScenarioChartStatsV>, name: Seq<char>, from: int)
    requires
        0 <= from <= acc.len(),
        chart_index_from(acc, name, from) == acc.len(),
    ensures
        forall|k: int| from <= k < acc.len() ==> (#[trigger] acc[k]).name != name,
    decreases acc.len() - from,
{
    if from < acc.len() {
        lemma_chart_index_misses(acc, name, from + 1);
    }
}

proof fn lemma_chart_step_names(acc: Seq<ScenarioChartStatsV>, row: ChartRowV)
    ensures
        ({
            let out = chart_fold_step(acc, row);
            let at = chart_index_from(acc, row.name, 0);
            &&& (at < acc.len() ==> out.len() == acc.len())
            &&& (at >= acc.len() ==> out.len() == acc.len() + 1 && out.last().name == row.name)
            &&& forall|k: int| 0 <= k < acc.len() ==> (#[trigger] out[k]).name == acc[k].name
        }),
{
    let out = chart_fold_step(acc, row);
    let at = chart_index_from(acc, row.name, 0);
    lemma_chart_index_bounds(acc, row.name, 0);
    if at < acc.len() {
        assert(out[at].name == acc[at].name);
    }
}

/// The time-series fold keeps one entry per scenario name: a first-seen
/// name opens the entry, every later row with that name appends to it.
pub proof fn lemma_fold_chart_groups_names(rows: Seq<ChartRowV>)
    ensures
        forall|i: int, j: int|
            0 <= i < j < spec_fold_chart(rows).len() ==> (#[trigger] spec_fold_chart(
                rows,
            )[i]).name != (#[trigger] spec_fold_chart(rows)[j]).name,
    decreases rows.len(),
{
    if rows.len() > 0 {
        lemma_fold_chart_groups_names(rows.drop_last());
        let acc = spec_fold_chart(rows.drop_last());
        let row = rows.last();
        let out = chart_fold_step(acc, row);
        let at = chart_index_from(acc, row.name, 0);
        lemma_chart_step_names(acc, row);
        lemma_chart_index_bounds(acc, row.name, 0);
        if at >= acc.len() {
            lemma_chart_index_misses(acc, row.name, 0);
        }
        assert forall|i: int, j: int| 0 <= i < j < out.len() implies (#[trigger] out[i]).name != (
        #[trigger] out[j]).name by {
            if j < acc.len() {
                assert(out[i].name == acc[i].name && out[j].name == acc[j].name);
            } else {
                assert(out[i].name == acc[i].name && out[j].name == row.name);
            }
        }
    }
}

/// A fresh ingestion stores exactly one new game; everything it adds
/// hangs off that game.
pub proof fn lemma_ingest_adds_one_game(s: StoreV, d: DataV, n: Seq<char>, now: u64)
    ensures
        spec_ingest(s, d, n, now).games.len() == s.games.len() + 1,
        spec_ingest(s, d, n, now).games.last().hash == fingerprint(d),
{
}

} // verus!
