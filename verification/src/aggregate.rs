//! The aggregation engine: read-only folds over the stored rows into
//! nested summary trees.
//!
//! Sums are kept exact as integers, and a quotient (an average, an
//! accuracy) is returned as its numerator and denominator; damage values,
//! carried as text, are returned as the exact list to average. An absent
//! aggregate is `None`, never a zero standing in for one.

use vstd::prelude::*;

use crate::store::{games_count_of, games_of_scenario, has_stats_for, stats_of_game, GameV,
    ScenarioV, Store, StoreV};

verus! {

/// Exact totals over one scenario's games.
#[derive(Debug)]
pub struct ScenarioTotals {
    pub shots: u128,
    pub hits: u128,
    pub damage_done: Vec<String>,
    pub damage_possible: Vec<String>,
}

#[verifier::ext_equal]
pub struct ScenarioTotalsV {
    pub shots: u128,
    pub hits: u128,
    pub damage_done: Seq<Seq<char>>,
    pub damage_possible: Seq<Seq<char>>,
}

impl View for ScenarioTotals {
    type V = ScenarioTotalsV;

    open spec fn view(&self) -> ScenarioTotalsV {
        ScenarioTotalsV {
            shots: self.shots,
            hits: self.hits,
            damage_done: self.damage_done@.map_values(|x: String| x@),
            damage_possible: self.damage_possible@.map_values(|x: String| x@),
        }
    }
}

/// One scenario's summary line: its game count, and, when it has games,
/// the exact totals to average. The average number of shots is
/// `totals.shots / games_count`, and the accuracy percentage is
/// `totals.hits / totals.shots * 100`.
#[derive(Debug)]
pub struct ScenarioGeneralStats {
    pub name: String,
    pub games_count: u64,
    pub totals: Option<ScenarioTotals>,
}

#[verifier::ext_equal]
pub struct ScenarioGeneralStatsV {
    pub name: Seq<char>,
    pub games_count: u64,
    pub totals: Option<ScenarioTotalsV>,
}

impl View for ScenarioGeneralStats {
    type V = ScenarioGeneralStatsV;

    open spec fn view(&self) -> ScenarioGeneralStatsV {
        ScenarioGeneralStatsV {
            name: self.name@,
            games_count: self.games_count,
            totals: match self.totals {
                Some(ref t) => Some(t@),
                None => None,
            },
        }
    }
}

/// Total shots over these games' stats records.
pub open spec fn sum_shots(s: StoreV, gs: Seq<GameV>) -> int
    decreases gs.len(),
{
    if gs.len() == 0 {
        0
    } else {
        sum_shots(s, gs.drop_last()) + stats_of_game(s, gs.last().id).shots
    }
}

/// Total hits over these games' stats records.
pub open spec fn sum_hits(s: StoreV, gs: Seq<GameV>) -> int
    decreases gs.len(),
{
    if gs.len() == 0 {
        0
    } else {
        sum_hits(s, gs.drop_last()) + stats_of_game(s, gs.last().id).hits
    }
}

/// The damage-done cell of each game's stats record, in game order.
pub open spec fn damage_done_texts(s: StoreV, gs: Seq<GameV>) -> Seq<Seq<char>> {
    gs.map_values(|g: GameV| stats_of_game(s, g.id).damage_done)
}

/// The damage-possible cell of each game's stats record, in game order.
pub open spec fn damage_possible_texts(s: StoreV, gs: Seq<GameV>) -> Seq<Seq<char>> {
    gs.map_values(|g: GameV| stats_of_game(s, g.id).damage_possible)
}

/// One scenario's summary: totals are absent exactly when it has no
/// games.
pub open spec fn spec_general_row(s: StoreV, sc: ScenarioV) -> ScenarioGeneralStatsV {
    let gs = games_of_scenario(s, sc.id);
    ScenarioGeneralStatsV {
        name: sc.name,
        games_count: gs.len() as u64,
        totals: if gs.len() == 0 {
            None
        } else {
            Some(
                ScenarioTotalsV {
                    shots: sum_shots(s, gs) as u128,
                    hits: sum_hits(s, gs) as u128,
                    damage_done: damage_done_texts(s, gs),
                    damage_possible: damage_possible_texts(s, gs),
                },
            )
        },
    }
}

pub open spec fn spec_general_stats(s: StoreV) -> Seq<ScenarioGeneralStatsV> {
    s.scenarios.map_values(|sc: ScenarioV| spec_general_row(s, sc))
}

impl Store {
    /// One summary line per scenario, in id order: the game count, and
    /// for a scenario with games the exact totals of shots, hits and the
    /// damage texts; a scenario without games reports no totals at all.
    pub fn fetch_general_scenario_stats(&self) -> (r: Vec<ScenarioGeneralStats>)
        requires
            self.wf(),
        ensures
            r@.map_values(|x: ScenarioGeneralStats| x@) == spec_general_stats(self@),
    {
        let ghost s0 = self@;
        let ghost m = |sc: ScenarioV| spec_general_row(s0, sc);
        let mut out: Vec<ScenarioGeneralStats> = Vec::new();
        let mut i: usize = 0;
        proof {
            self.view_facts();
            assert(out@.map_values(|x: ScenarioGeneralStats| x@) =~= s0.scenarios.map_values(
                m,
            ).take(0));
        }
        while i < self.scenarios.len()
            invariant
                i <= self.scenarios@.len(),
                self@ == s0,
                self.wf(),
                self@.scenarios == self.scenarios@.map_values(|x: crate::store::Scenario| x@),
                out@.map_values(|x: ScenarioGeneralStats| x@) == s0.scenarios.map_values(m).take(
                    i as int,
                ),
                m == (|sc: ScenarioV| spec_general_row(s0, sc)),
            decreases self.scenarios@.len() - i,
        {
            let sid = self.scenarios[i].id;
            let row = self.general_row_for(sid);
            let entry = ScenarioGeneralStats {
                name: self.scenarios[i].name.clone(),
                games_count: row.games_count,
                totals: row.totals,
            };
            let ghost old_out = out@;
            proof {
                assert(s0.scenarios[i as int].id == sid);
                assert(entry@ =~= m(s0.scenarios[i as int]));
            }
            out.push(entry);
            proof {
                assert(s0.scenarios.map_values(m).take(i + 1) =~= s0.scenarios.map_values(m).take(
                    i as int,
                ).push(m(s0.scenarios[i as int])));
                assert(out@.map_values(|x: ScenarioGeneralStats| x@) =~= old_out.map_values(
                    |x: ScenarioGeneralStats| x@,
                ).push(m(s0.scenarios[i as int])));
            }
            i = i + 1;
        }
        proof {
            assert(s0.scenarios.map_values(m).take(s0.scenarios.len() as int)
                =~= s0.scenarios.map_values(m));
        }
        out
    }

    /// The totals of one scenario id, with a placeholder name.
    fn general_row_for(&self, sid: u64) -> (r: ScenarioGeneralStats)
        requires
            self.wf(),
        ensures
            r.games_count == games_count_of(self@, sid) as u64,
            r@.totals == spec_general_row(
                self@,
                ScenarioV {
                    id: sid,
                    name: Seq::empty(),
                    difficulty: crate::store::Difficulty::Easy,
                    created_day: 0,
                    games_count: 0,
                },
            ).totals,
    {
        let ghost s0 = self@;
        let ghost pred = |g: GameV| g.scenario_id == sid;
        let mut count: u64 = 0;
        let mut shots: u128 = 0;
        let mut hits: u128 = 0;
        let mut damage_done: Vec<String> = Vec::new();
        let mut damage_possible: Vec<String> = Vec::new();
        let mut k: usize = 0;
        proof {
            self.view_facts();
            assert(s0.games.take(0).filter(pred) =~= Seq::<GameV>::empty());
            assert(damage_done@.map_values(|x: String| x@) =~= Seq::<Seq<char>>::empty());
            assert(damage_possible@.map_values(|x: String| x@) =~= Seq::<Seq<char>>::empty());
        }
        while k < self.games.len()
            invariant
                k <= self.games@.len(),
                self@ == s0,
                self.wf(),
                self@.games == self.games@.map_values(|x: crate::store::Game| x@),
                pred == (|g: GameV| g.scenario_id == sid),
                count == s0.games.take(k as int).filter(pred).len(),
                count <= k,
                shots == sum_shots(s0, s0.games.take(k as int).filter(pred)),
                hits == sum_hits(s0, s0.games.take(k as int).filter(pred)),
                shots <= 0xffff * (k as int),
                hits <= 0xffff * (k as int),
                damage_done@.map_values(|x: String| x@) == damage_done_texts(
                    s0,
                    s0.games.take(k as int).filter(pred),
                ),
                damage_possible@.map_values(|x: String| x@) == damage_possible_texts(
                    s0,
                    s0.games.take(k as int).filter(pred),
                ),
            decreases self.games@.len() - k,
        {
            let ghost fp = s0.games.take(k as int).filter(pred);
            proof {
                assert(s0.games.take(k + 1) =~= s0.games.take(k as int).push(s0.games[k as int]));
                crate::store::lemma_filter_push(
                    s0.games.take(k as int),
                    pred,
                    s0.games[k as int],
                );
            }
            if self.games[k].scenario_id == sid {
                let gid = self.games[k].id;
                proof {
                    assert(s0.games[k as int].id == gid);
                }
                let st = match self.fetch_stats(gid) {
                    Some(st) => st,
                    None => {
                        proof {
                            assert(has_stats_for(s0, gid));
                            let w = choose|w: int|
                                0 <= w < s0.stats_rows.len() && (
                                #[trigger] s0.stats_rows[w]).game_id == gid;
                            assert(false);
                        }
                        vstd::pervasive::unreached()
                    },
                };
                let ghost fp2 = fp.push(s0.games[k as int]);
                proof {
                    assert(fp2.drop_last() =~= fp);
                    assert(fp2.last() == s0.games[k as int]);
                    assert(st@ == stats_of_game(s0, gid));
                }
                count = count + 1;
                shots = shots + st.shots as u128;
                hits = hits + st.hits as u128;
                let ghost old_dd = damage_done@;
                let ghost old_dp = damage_possible@;
                damage_done.push(st.damage_done);
                damage_possible.push(st.damage_possible);
                proof {
                    let tf = |g: GameV| stats_of_game(s0, g.id).damage_done;
                    let pf = |g: GameV| stats_of_game(s0, g.id).damage_possible;
                    assert(fp2.map_values(tf) =~= fp.map_values(tf).push(
                        stats_of_game(s0, gid).damage_done,
                    ));
                    assert(fp2.map_values(pf) =~= fp.map_values(pf).push(
                        stats_of_game(s0, gid).damage_possible,
                    ));
                    assert(damage_done@.map_values(|x: String| x@) =~= old_dd.map_values(
                        |x: String| x@,
                    ).push(stats_of_game(s0, gid).damage_done));
                    assert(damage_possible@.map_values(|x: String| x@) =~= old_dp.map_values(
                        |x: String| x@,
                    ).push(stats_of_game(s0, gid).damage_possible));
                }
            }
            k = k + 1;
        }
        proof {
            assert(s0.games.take(self.games@.len() as int) =~= s0.games);
        }
        let totals = if count == 0 {
            None
        } else {
            Some(ScenarioTotals { shots, hits, damage_done, damage_possible })
        };
        ScenarioGeneralStats { name: String::new(), games_count: count, totals }
    }
}

// ---------------------------------------------------------------------------
// Time-series scenario stats
// ---------------------------------------------------------------------------

/// An exact accuracy: the percentage is `hits / shots * 100`.
#[derive(Clone, Copy, Debug, PartialEq, Eq, Structural)]
pub struct AccuracyRatio {
    pub hits: u128,
    pub shots: u128,
}

/// One day's bucket for one scenario; the accuracy is absent when the
/// day's games fired no shots.
#[derive(Clone, Copy, Debug, PartialEq, Eq, Structural)]
pub struct DailyScenarioData {
    pub date: u64,
    pub avg_accuracy: Option<AccuracyRatio>,
}

/// One flat row of the time-series query: scenario name, day, accuracy.
#[derive(Debug)]
pub struct ChartRow {
    pub name: String,
    pub date: u64,
    pub avg_accuracy: Option<AccuracyRatio>,
}

#[verifier::ext_equal]
pub struct ChartRowV {
    pub name: Seq<char>,
    pub date: u64,
    pub avg_accuracy: Option<AccuracyRatio>,
}

impl View for ChartRow {
    type V = ChartRowV;

    open spec fn view(&self) -> ChartRowV {
        ChartRowV { name: self.name@, date: self.date, avg_accuracy: self.avg_accuracy }
    }
}

/// One scenario's day-by-day accuracy series.
#[derive(Debug)]
pub struct ScenarioChartStats {
    pub name: String,
    pub data: Vec<DailyScenarioData>,
}

#[verifier::ext_equal]
pub struct ScenarioChartStatsV {
    pub name: Seq<char>,
    pub data: Seq<DailyScenarioData>,
}

impl View for ScenarioChartStats {
    type V = ScenarioChartStatsV;

    open spec fn view(&self) -> ScenarioChartStatsV {
        ScenarioChartStatsV { name: self.name@, data: self.data@ }
    }
}

/// The distinct days of a game list, in order of first appearance.
pub open spec fn distinct_days(gs: Seq<GameV>) -> Seq<u64>
    decreases gs.len(),
{
    if gs.len() == 0 {
        Seq::empty()
    } else {
        let d = distinct_days(gs.drop_last());
        if d.contains(gs.last().created_day) {
            d
        } else {
            d.push(gs.last().created_day)
        }
    }
}

/// One scenario's games created on one day.
pub open spec fn games_on_day(s: StoreV, scenario_id: u64, day: u64) -> Seq<GameV> {
    s.games.filter(|g: GameV| g.scenario_id == scenario_id && g.created_day == day)
}

/// The flat row for one scenario and one of its days.
pub open spec fn spec_chart_row(s: StoreV, sc: ScenarioV, day: u64) -> ChartRowV {
    let gs = games_on_day(s, sc.id, day);
    ChartRowV {
        name: sc.name,
        date: day,
        avg_accuracy: if sum_shots(s, gs) == 0 {
            None
        } else {
            Some(
                AccuracyRatio { hits: sum_hits(s, gs) as u128, shots: sum_shots(s, gs) as u128 },
            )
        },
    }
}

/// All flat rows of one scenario: one per day on which it has games, in
/// order of the days' first appearance among its games.
pub open spec fn spec_chart_rows_for(s: StoreV, sc: ScenarioV) -> Seq<ChartRowV> {
    distinct_days(games_of_scenario(s, sc.id)).map_values(|d: u64| spec_chart_row(s, sc, d))
}

/// All flat rows, scenario by scenario in id order. A scenario without
/// games contributes no rows.
pub open spec fn spec_chart_rows(s: StoreV) -> Seq<ChartRowV> {
    s.scenarios.map_values(|sc: ScenarioV| spec_chart_rows_for(s, sc)).flatten()
}

/// Where the fold would put a row with this name: the first matching
/// entry at or after `from`, or the end.
pub open spec fn chart_index_from(acc: Seq<ScenarioChartStatsV>, name: Seq<char>, from: int) -> int
    decreases acc.len() - from,
{
    if from < 0 || from >= acc.len() {
        acc.len() as int
    } else if acc[from].name == name {
        from
    } else {
        chart_index_from(acc, name, from + 1)
    }
}

/// Fold one flat row into the accumulated series: append the day to the
/// entry with the same name, or open a new entry for a first-seen name.
pub open spec fn chart_fold_step(acc: Seq<ScenarioChartStatsV>, row: ChartRowV) -> Seq<
    ScenarioChartStatsV,
> {
    let i = chart_index_from(acc, row.name, 0);
    let day = DailyScenarioData { date: row.date, avg_accuracy: row.avg_accuracy };
    if i < acc.len() {
        acc.update(i, ScenarioChartStatsV { name: acc[i].name, data: acc[i].data.push(day) })
    } else {
        acc.push(ScenarioChartStatsV { name: row.name, data: seq![day] })
    }
}

pub open spec fn spec_fold_chart(rows: Seq<ChartRowV>) -> Seq<ScenarioChartStatsV>
    decreases rows.len(),
{
    if rows.len() == 0 {
        Seq::empty()
    } else {
        chart_fold_step(spec_fold_chart(rows.drop_last()), rows.last())
    }
}

fn clone_days(v: &Vec<DailyScenarioData>) -> (r: Vec<DailyScenarioData>)
    ensures
        r@ == v@,
{
    let mut r: Vec<DailyScenarioData> = Vec::new();
    let mut i: usize = 0;
    while i < v.len()
        invariant
            i <= v@.len(),
            r@ == v@.take(i as int),
        decreases v@.len() - i,
    {
        r.push(v[i]);
        proof {
            assert(v@.take(i + 1) =~= v@.take(i as int).push(v@[i as int]));
        }
        i = i + 1;
    }
    proof {
        assert(v@.take(v@.len() as int) =~= v@);
    }
    r
}

/// Fold flat (name, day, accuracy) rows into one series per scenario
/// name: names keep their first-appearance order, and each row's day is
/// appended to its name's series in row order. Rows are matched by name,
/// never by adjacency.
pub fn fold_chart_rows(rows: &Vec<ChartRow>) -> (r: Vec<ScenarioChartStats>)
    ensures
        r@.map_values(|x: ScenarioChartStats| x@) == spec_fold_chart(
            rows@.map_values(|x: ChartRow| x@),
        ),
{
    let ghost rv = rows@.map_values(|x: ChartRow| x@);
    let mut acc: Vec<ScenarioChartStats> = Vec::new();
    let mut i: usize = 0;
    proof {
        assert(rv.take(0) =~= Seq::<ChartRowV>::empty());
        assert(acc@.map_values(|x: ScenarioChartStats| x@) =~= spec_fold_chart(rv.take(0)));
    }
    while i < rows.len()
        invariant
            i <= rows@.len(),
            rv == rows@.map_values(|x: ChartRow| x@),
            acc@.map_values(|x: ScenarioChartStats| x@) == spec_fold_chart(rv.take(i as int)),
        decreases rows@.len() - i,
    {
        let ghost accv = acc@.map_values(|x: ScenarioChartStats| x@);
        proof {
            assert(rv.take(i + 1).drop_last() =~= rv.take(i as int));
            assert(rv.take(i + 1).last() == rv[i as int]);
        }
        let row = &rows[i];
        let day = DailyScenarioData { date: row.date, avg_accuracy: row.avg_accuracy };
        // find the entry with this name, if any
        let mut idx: usize = 0;
        let n = acc.len();
        while idx < n && !crate::parse::str_eq(acc[idx].name.as_str(), row.name.as_str())
            invariant
                idx <= n,
                n == acc@.len(),
                accv == acc@.map_values(|x: ScenarioChartStats| x@),
                chart_index_from(accv, row.name@, 0) == chart_index_from(accv, row.name@, idx as int),
            decreases n - idx,
        {
            idx = idx + 1;
        }
        let ghost target = chart_fold_step(accv, rv[i as int]);
        if idx < n {
            proof {
                assert(chart_index_from(accv, row.name@, 0) == idx);
            }
            let entry = &acc[idx];
            let new_entry = ScenarioChartStats {
                name: entry.name.clone(),
                data: {
                    let mut d = clone_days(&entry.data);
                    d.push(day);
                    d
                },
            };
            acc[idx] = new_entry;
            proof {
                assert(acc@.map_values(|x: ScenarioChartStats| x@) =~~= target);
            }
        } else {
            proof {
                assert(chart_index_from(accv, row.name@, 0) == accv.len());
            }
            let mut d: Vec<DailyScenarioData> = Vec::new();
            d.push(day);
            let new_entry = ScenarioChartStats { name: row.name.clone(), data: d };
            acc.push(new_entry);
            proof {
                assert(seq![day] =~= new_entry.data@);
                assert(acc@.map_values(|x: ScenarioChartStats| x@) =~~= target);
            }
        }
        i = i + 1;
    }
    proof {
        assert(rv.take(rows@.len() as int) =~= rv);
    }
    acc
}

impl Store {
    /// The flat time-series rows: for every scenario in id order, one row
    /// per day on which it has games, carrying that day's exact accuracy
    /// ratio. Days appear in first-appearance order among the scenario's
    /// games, which is calendar order when games are recorded day by day.
    pub fn chart_rows(&self) -> (r: Vec<ChartRow>)
        requires
            self.wf(),
        ensures
            r@.map_values(|x: ChartRow| x@) == spec_chart_rows(self@),
    {
        let ghost s0 = self@;
        let ghost rf = |sc: ScenarioV| spec_chart_rows_for(s0, sc);
        let mut out: Vec<ChartRow> = Vec::new();
        let mut i: usize = 0;
        proof {
            self.view_facts();
            assert(s0.scenarios.map_values(rf).take(0).flatten() =~= Seq::<ChartRowV>::empty());
            assert(out@.map_values(|x: ChartRow| x@) =~= s0.scenarios.map_values(rf).take(
                0,
            ).flatten());
        }
        while i < self.scenarios.len()
            invariant
                i <= self.scenarios@.len(),
                self@ == s0,
                self.wf(),
                self@.scenarios == self.scenarios@.map_values(|x: crate::store::Scenario| x@),
                self@.games == self.games@.map_values(|x: crate::store::Game| x@),
                out@.map_values(|x: ChartRow| x@) == s0.scenarios.map_values(rf).take(
                    i as int,
                ).flatten(),
                rf == (|sc: ScenarioV| spec_chart_rows_for(s0, sc)),
            decreases self.scenarios@.len() - i,
        {
            let ghost scv = s0.scenarios[i as int];
            let sid = self.scenarios[i].id;
            proof {
                assert(scv.id == sid);
            }
            // the scenario's distinct days, in first-appearance order
            let mut days: Vec<u64> = Vec::new();
            let ghost gpred = |g: GameV| g.scenario_id == sid;
            let mut k: usize = 0;
            proof {
                assert(s0.games.take(0).filter(gpred) =~= Seq::<GameV>::empty());
                assert(days@ =~= distinct_days(s0.games.take(0).filter(gpred)));
            }
            while k < self.games.len()
                invariant
                    k <= self.games@.len(),
                    self@ == s0,
                    self@.games == self.games@.map_values(|x: crate::store::Game| x@),
                    gpred == (|g: GameV| g.scenario_id == sid),
                    days@ == distinct_days(s0.games.take(k as int).filter(gpred)),
                decreases self.games@.len() - k,
            {
                let ghost fp = s0.games.take(k as int).filter(gpred);
                proof {
                    assert(s0.games.take(k + 1) =~= s0.games.take(k as int).push(
                        s0.games[k as int],
                    ));
                    crate::store::lemma_filter_push(
                        s0.games.take(k as int),
                        gpred,
                        s0.games[k as int],
                    );
                }
                if self.games[k].scenario_id == sid {
                    let dday = self.games[k].created_day;
                    proof {
                        assert(fp.push(s0.games[k as int]).drop_last() =~= fp);
                        assert(s0.games[k as int].created_day == dday);
                    }
                    let mut seen = false;
                    let mut t: usize = 0;
                    while t < days.len()
                        invariant
                            t <= days@.len(),
                            seen == exists|w: int| 0 <= w < t && days@[w] == dday,
                        decreases days@.len() - t,
                    {
                        if days[t] == dday {
                            seen = true;
                        }
                        t = t + 1;
                    }
                    proof {
                        assert(seen == days@.contains(dday));
                    }
                    if !seen {
                        days.push(dday);
                    }
                }
                k = k + 1;
            }
            proof {
                assert(s0.games.take(self.games@.len() as int) =~= s0.games);
                assert(days@ == distinct_days(games_of_scenario(s0, sid)));
            }
            // one row per day
            let ghost rows_target = spec_chart_rows_for(s0, scv);
            let mut rows_for: Vec<ChartRow> = Vec::new();
            let mut d: usize = 0;
            proof {
                assert(rows_for@.map_values(|x: ChartRow| x@) =~= days@.take(0).map_values(
                    |dd: u64| spec_chart_row(s0, scv, dd),
                ));
            }
            while d < days.len()
                invariant
                    d <= days@.len(),
                    self@ == s0,
                    self.wf(),
                    self@.games == self.games@.map_values(|x: crate::store::Game| x@),
                    scv.id == sid,
                    rows_for@.map_values(|x: ChartRow| x@) == days@.take(d as int).map_values(
                        |dd: u64| spec_chart_row(s0, scv, dd),
                    ),
                    scv == s0.scenarios[i as int],
                    i < s0.scenarios.len(),
                    self@.scenarios == self.scenarios@.map_values(
                        |x: crate::store::Scenario| x@,
                    ),
                decreases days@.len() - d,
            {
                let dday = days[d];
                let ghost dpred = |g: GameV| g.scenario_id == sid && g.created_day == dday;
                let mut shots: u128 = 0;
                let mut hits: u128 = 0;
                let mut k2: usize = 0;
                proof {
                    assert(s0.games.take(0).filter(dpred) =~= Seq::<GameV>::empty());
                }
                while k2 < self.games.len()
                    invariant
                        k2 <= self.games@.len(),
                        self@ == s0,
                        self.wf(),
                        self@.games == self.games@.map_values(|x: crate::store::Game| x@),
                        dpred == (|g: GameV| g.scenario_id == sid && g.created_day == dday),
                        shots == sum_shots(s0, s0.games.take(k2 as int).filter(dpred)),
                        hits == sum_hits(s0, s0.games.take(k2 as int).filter(dpred)),
                        shots <= 0xffff * (k2 as int),
                        hits <= 0xffff * (k2 as int),
                    decreases self.games@.len() - k2,
                {
                    let ghost fp = s0.games.take(k2 as int).filter(dpred);
                    proof {
                        assert(s0.games.take(k2 + 1) =~= s0.games.take(k2 as int).push(
                            s0.games[k2 as int],
                        ));
                        crate::store::lemma_filter_push(
                            s0.games.take(k2 as int),
                            dpred,
                            s0.games[k2 as int],
                        );
                    }
                    if self.games[k2].scenario_id == sid && self.games[k2].created_day == dday {
                        let gid = self.games[k2].id;
                        proof {
                            assert(s0.games[k2 as int].id == gid);
                        }
                        let st = match self.fetch_stats(gid) {
                            Some(st) => st,
                            None => {
                                proof {
                                    assert(has_stats_for(s0, gid));
                                    let w = choose|w: int|
                                        0 <= w < s0.stats_rows.len() && (
                                        #[trigger] s0.stats_rows[w]).game_id == gid;
                                    assert(false);
                                }
                                vstd::pervasive::unreached()
                            },
                        };
                        proof {
                            assert(fp.push(s0.games[k2 as int]).drop_last() =~= fp);
                            assert(st@ == stats_of_game(s0, gid));
                        }
                        shots = shots + st.shots as u128;
                        hits = hits + st.hits as u128;
                    }
                    k2 = k2 + 1;
                }
                proof {
                    assert(s0.games.take(self.games@.len() as int) =~= s0.games);
                }
                let row = ChartRow {
                    name: self.scenarios[i].name.clone(),
                    date: dday,
                    avg_accuracy: if shots == 0 {
                        None
                    } else {
                        Some(AccuracyRatio { hits, shots })
                    },
                };
                let ghost old_rows = rows_for@;
                proof {
                    assert(row@ =~= spec_chart_row(s0, scv, dday));
                }
                rows_for.push(row);
                proof {
                    let cm = |dd: u64| spec_chart_row(s0, scv, dd);
                    assert(days@.take(d + 1) =~= days@.take(d as int).push(days@[d as int]));
                    assert(days@.take(d + 1).map_values(cm) =~= days@.take(d as int).map_values(
                        cm,
                    ).push(cm(days@[d as int])));
                    assert(rows_for@.map_values(|x: ChartRow| x@) =~= old_rows.map_values(
                        |x: ChartRow| x@,
                    ).push(spec_chart_row(s0, scv, dday)));
                }
                d = d + 1;
            }
            let ghost old_out = out@;
            let mut rows_for_mut = rows_for;
            out.append(&mut rows_for_mut);
            proof {
                assert(days@.take(days@.len() as int) =~= days@);
                assert(s0.scenarios.map_values(rf).take(i + 1) =~= s0.scenarios.map_values(
                    rf,
                ).take(i as int).push(rf(scv)));
                s0.scenarios.map_values(rf).take(i as int).lemma_flatten_push(rf(scv));
                assert(out@.map_values(|x: ChartRow| x@) =~= old_out.map_values(
                    |x: ChartRow| x@,
                ) + rows_target);
                assert(out@.map_values(|x: ChartRow| x@) =~= s0.scenarios.map_values(rf).take(
                    i + 1,
                ).flatten());
            }
            i = i + 1;
        }
        proof {
            assert(s0.scenarios.map_values(rf).take(s0.scenarios.len() as int)
                =~= s0.scenarios.map_values(rf));
        }
        out
    }

    /// The time-series view: the flat rows folded into one day-by-day
    /// series per scenario name.
    pub fn fetch_chart_scenario_stats(&self) -> (r: Vec<ScenarioChartStats>)
        requires
            self.wf(),
        ensures
            r@.map_values(|x: ScenarioChartStats| x@) == spec_fold_chart(spec_chart_rows(self@)),
    {
        let rows = self.chart_rows();
        fold_chart_rows(&rows)
    }
}


// ---------------------------------------------------------------------------
// Grouped playlist view
// ---------------------------------------------------------------------------

/// One day bucket: how many games were played that day.
#[derive(Clone, Copy, Debug, PartialEq, Eq, Structural)]
pub struct GroupedPlaylistGamesByDay {
    pub games_count: u64,
}

/// One scenario node under a playlist, with its day buckets in row order.
#[derive(Debug)]
pub struct GroupedPlaylistScenario {
    pub scenario_name: String,
    pub scenario_difficulty: crate::store::Difficulty,
    pub reps: u64,
    pub days: Vec<GroupedPlaylistGamesByDay>,
}

#[verifier::ext_equal]
pub struct GroupedPlaylistScenarioV {
    pub scenario_name: Seq<char>,
    pub scenario_difficulty: crate::store::Difficulty,
    pub reps: u64,
    pub days: Seq<GroupedPlaylistGamesByDay>,
}

impl View for GroupedPlaylistScenario {
    type V = GroupedPlaylistScenarioV;

    open spec fn view(&self) -> GroupedPlaylistScenarioV {
        GroupedPlaylistScenarioV {
            scenario_name: self.scenario_name@,
            scenario_difficulty: self.scenario_difficulty,
            reps: self.reps,
            days: self.days@,
        }
    }
}

/// One playlist node of the grouped view.
#[derive(Debug)]
pub struct GroupedPlaylist {
    pub id: u64,
    pub name: String,
    pub description: String,
    pub duration: u8,
    pub state: crate::store::PlaylistState,
    pub scenarios: Vec<GroupedPlaylistScenario>,
}

#[verifier::ext_equal]
pub struct GroupedPlaylistV {
    pub id: u64,
    pub name: Seq<char>,
    pub description: Seq<char>,
    pub duration: u8,
    pub state: crate::store::PlaylistState,
    pub scenarios: Seq<GroupedPlaylistScenarioV>,
}

impl View for GroupedPlaylist {
    type V = GroupedPlaylistV;

    open spec fn view(&self) -> GroupedPlaylistV {
        GroupedPlaylistV {
            id: self.id,
            name: self.name@,
            description: self.description@,
            duration: self.duration,
            state: self.state,
            scenarios: self.scenarios@.map_values(|x: GroupedPlaylistScenario| x@),
        }
    }
}

/// The scenario part of one flat joined row.
#[derive(Debug)]
pub struct PlaylistScenarioRow {
    pub scenario_name: String,
    pub scenario_difficulty: crate::store::Difficulty,
    pub games_played: u64,
    pub reps: u64,
}

#[verifier::ext_equal]
pub struct PlaylistScenarioRowV {
    pub scenario_name: Seq<char>,
    pub scenario_difficulty: crate::store::Difficulty,
    pub games_played: u64,
    pub reps: u64,
}

impl View for PlaylistScenarioRow {
    type V = PlaylistScenarioRowV;

    open spec fn view(&self) -> PlaylistScenarioRowV {
        PlaylistScenarioRowV {
            scenario_name: self.scenario_name@,
            scenario_difficulty: self.scenario_difficulty,
            games_played: self.games_played,
            reps: self.reps,
        }
    }
}

/// One flat joined row: playlist columns, and the scenario/day columns,
/// absent for a playlist without scenarios.
#[derive(Debug)]
pub struct FetchedPlaylistData {
    pub id: u64,
    pub name: String,
    pub description: String,
    pub duration: u8,
    pub state: crate::store::PlaylistState,
    pub scenario: Option<PlaylistScenarioRow>,
}

#[verifier::ext_equal]
pub struct FetchedPlaylistDataV {
    pub id: u64,
    pub name: Seq<char>,
    pub description: Seq<char>,
    pub duration: u8,
    pub state: crate::store::PlaylistState,
    pub scenario: Option<PlaylistScenarioRowV>,
}

impl View for FetchedPlaylistData {
    type V = FetchedPlaylistDataV;

    open spec fn view(&self) -> FetchedPlaylistDataV {
        FetchedPlaylistDataV {
            id: self.id,
            name: self.name@,
            description: self.description@,
            duration: self.duration,
            state: self.state,
            scenario: match self.scenario {
                Some(ref srow) => Some(srow@),
                None => None,
            },
        }
    }
}

/// The first accumulated playlist with this id at or past `from`, or the
/// end.
pub open spec fn playlist_index_from(acc: Seq<GroupedPlaylistV>, id: u64, from: int) -> int
    decreases acc.len() - from,
{
    if from < 0 || from >= acc.len() {
        acc.len() as int
    } else if acc[from].id == id {
        from
    } else {
        playlist_index_from(acc, id, from + 1)
    }
}

/// The first scenario node with this name at or past `from`, or the end.
pub open spec fn scenario_index_from(
    scs: Seq<GroupedPlaylistScenarioV>,
    name: Seq<char>,
    from: int,
) -> int
    decreases scs.len() - from,
{
    if from < 0 || from >= scs.len() {
        scs.len() as int
    } else if scs[from].scenario_name == name {
        from
    } else {
        scenario_index_from(scs, name, from + 1)
    }
}

pub open spec fn scenario_node_of(srow: PlaylistScenarioRowV) -> GroupedPlaylistScenarioV {
    GroupedPlaylistScenarioV {
        scenario_name: srow.scenario_name,
        scenario_difficulty: srow.scenario_difficulty,
        reps: srow.reps,
        days: seq![GroupedPlaylistGamesByDay { games_count: srow.games_played }],
    }
}

/// Fold one flat row into the accumulated tree. A first-seen playlist id
/// opens a playlist node; a known playlist id with a first-seen scenario
/// name opens a scenario node under it; a known pair appends a day
/// bucket. Matching is by the natural keys, never by adjacency.
pub open spec fn playlist_fold_step(acc: Seq<GroupedPlaylistV>, row: FetchedPlaylistDataV) -> Seq<
    GroupedPlaylistV,
> {
    let i = playlist_index_from(acc, row.id, 0);
    if i < acc.len() {
        match row.scenario {
            None => acc,
            Some(srow) => {
                let p = acc[i];
                let j = scenario_index_from(p.scenarios, srow.scenario_name, 0);
                if j < p.scenarios.len() {
                    let sc = p.scenarios[j];
                    acc.update(
                        i,
                        GroupedPlaylistV {
                            scenarios: p.scenarios.update(
                                j,
                                GroupedPlaylistScenarioV {
                                    days: sc.days.push(
                                        GroupedPlaylistGamesByDay {
                                            games_count: srow.games_played,
                                        },
                                    ),
                                    ..sc
                                },
                            ),
                            ..p
                        },
                    )
                } else {
                    acc.update(
                        i,
                        GroupedPlaylistV {
                            scenarios: p.scenarios.push(scenario_node_of(srow)),
                            ..p
                        },
                    )
                }
            },
        }
    } else {
        acc.push(
            GroupedPlaylistV {
                id: row.id,
                name: row.name,
                description: row.description,
                duration: row.duration,
                state: row.state,
                scenarios: match row.scenario {
                    None => Seq::empty(),
                    Some(srow) => seq![scenario_node_of(srow)],
                },
            },
        )
    }
}

pub open spec fn spec_fold_playlists(rows: Seq<FetchedPlaylistDataV>) -> Seq<GroupedPlaylistV>
    decreases rows.len(),
{
    if rows.len() == 0 {
        Seq::empty()
    } else {
        playlist_fold_step(spec_fold_playlists(rows.drop_last()), rows.last())
    }
}

fn clone_day_buckets(v: &Vec<GroupedPlaylistGamesByDay>) -> (r: Vec<GroupedPlaylistGamesByDay>)
    ensures
        r@ == v@,
{
    let mut r: Vec<GroupedPlaylistGamesByDay> = Vec::new();
    let mut i: usize = 0;
    while i < v.len()
        invariant
            i <= v@.len(),
            r@ == v@.take(i as int),
        decreases v@.len() - i,
    {
        r.push(v[i]);
        proof {
            assert(v@.take(i + 1) =~= v@.take(i as int).push(v@[i as int]));
        }
        i = i + 1;
    }
    proof {
        assert(v@.take(v@.len() as int) =~= v@);
    }
    r
}

impl Clone for GroupedPlaylistScenario {
    fn clone(&self) -> (r: Self)
        ensures
            r@ == self@,
    {
        GroupedPlaylistScenario {
            scenario_name: self.scenario_name.clone(),
            scenario_difficulty: self.scenario_difficulty,
            reps: self.reps,
            days: clone_day_buckets(&self.days),
        }
    }
}

fn clone_scenario_nodes(v: &Vec<GroupedPlaylistScenario>) -> (r: Vec<GroupedPlaylistScenario>)
    ensures
        r@.map_values(|x: GroupedPlaylistScenario| x@) == v@.map_values(
            |x: GroupedPlaylistScenario| x@,
        ),
{
    let mut r: Vec<GroupedPlaylistScenario> = Vec::new();
    let mut i: usize = 0;
    proof {
        assert(r@.map_values(|x: GroupedPlaylistScenario| x@) =~= v@.take(0).map_values(
            |x: GroupedPlaylistScenario| x@,
        ));
    }
    while i < v.len()
        invariant
            i <= v@.len(),
            r@.map_values(|x: GroupedPlaylistScenario| x@) == v@.take(i as int).map_values(
                |x: GroupedPlaylistScenario| x@,
            ),
        decreases v@.len() - i,
    {
        let ghost old_r = r@;
        r.push(v[i].clone());
        proof {
            let f = |x: GroupedPlaylistScenario| x@;
            assert(v@.take(i + 1) =~= v@.take(i as int).push(v@[i as int]));
            assert(v@.take(i + 1).map_values(f) =~= v@.take(i as int).map_values(f).push(
                f(v@[i as int]),
            ));
            assert(r@.map_values(f) =~= old_r.map_values(f).push(f(v@[i as int])));
        }
        i = i + 1;
    }
    proof {
        assert(v@.take(v@.len() as int) =~= v@);
    }
    r
}

/// Fold the flat joined rows into the nested playlist tree. Playlists
/// keep the first-appearance order of their ids, scenario nodes the
/// first-appearance order of their names within each playlist, and day
/// buckets the row order; a row without scenario columns contributes the
/// bare playlist node.
pub fn fold_playlist_rows(rows: &Vec<FetchedPlaylistData>) -> (r: Vec<GroupedPlaylist>)
    ensures
        r@.map_values(|x: GroupedPlaylist| x@) == spec_fold_playlists(
            rows@.map_values(|x: FetchedPlaylistData| x@),
        ),
{
    let ghost rv = rows@.map_values(|x: FetchedPlaylistData| x@);
    let mut acc: Vec<GroupedPlaylist> = Vec::new();
    let mut i: usize = 0;
    proof {
        assert(rv.take(0) =~= Seq::<FetchedPlaylistDataV>::empty());
        assert(acc@.map_values(|x: GroupedPlaylist| x@) =~= spec_fold_playlists(rv.take(0)));
    }
    while i < rows.len()
        invariant
            i <= rows@.len(),
            rv == rows@.map_values(|x: FetchedPlaylistData| x@),
            acc@.map_values(|x: GroupedPlaylist| x@) == spec_fold_playlists(rv.take(i as int)),
        decreases rows@.len() - i,
    {
        let ghost accv = acc@.map_values(|x: GroupedPlaylist| x@);
        proof {
            assert(rv.take(i + 1).drop_last() =~= rv.take(i as int));
            assert(rv.take(i + 1).last() == rv[i as int]);
        }
        let row = &rows[i];
        let ghost target = playlist_fold_step(accv, rv[i as int]);
        // find the playlist node with this id, if any
        let mut idx: usize = 0;
        let n = acc.len();
        while idx < n && acc[idx].id != row.id
            invariant
                idx <= n,
                n == acc@.len(),
                accv == acc@.map_values(|x: GroupedPlaylist| x@),
                playlist_index_from(accv, row.id, 0) == playlist_index_from(
                    accv,
                    row.id,
                    idx as int,
                ),
            decreases n - idx,
        {
            idx = idx + 1;
        }
        if idx < n {
            proof {
                assert(playlist_index_from(accv, row.id, 0) == idx);
            }
            match &row.scenario {
                None => {
                    proof {
                        assert(acc@.map_values(|x: GroupedPlaylist| x@) == target);
                    }
                },
                Some(srow) => {
                    let entry = &acc[idx];
                    let ghost pv = accv[idx as int];
                    // find the scenario node with this name, if any
                    let mut j: usize = 0;
                    let sn = entry.scenarios.len();
                    while j < sn && !crate::parse::str_eq(
                        entry.scenarios[j].scenario_name.as_str(),
                        srow.scenario_name.as_str(),
                    )
                        invariant
                            j <= sn,
                            sn == entry.scenarios@.len(),
                            entry == &acc[idx as int],
                            idx < acc@.len(),
                            accv == acc@.map_values(|x: GroupedPlaylist| x@),
                            pv == accv[idx as int],
                            scenario_index_from(pv.scenarios, srow.scenario_name@, 0)
                                == scenario_index_from(
                                pv.scenarios,
                                srow.scenario_name@,
                                j as int,
                            ),
                        decreases sn - j,
                    {
                        j = j + 1;
                    }
                    let day = GroupedPlaylistGamesByDay { games_count: srow.games_played };
                    let mut scs = clone_scenario_nodes(&entry.scenarios);
                    if j < sn {
                        proof {
                            assert(scenario_index_from(pv.scenarios, srow.scenario_name@, 0)
                                == j);
                        }
                        let old_node = &acc[idx].scenarios[j];
                        let mut days = clone_day_buckets(&old_node.days);
                        days.push(day);
                        let new_node = GroupedPlaylistScenario {
                            scenario_name: old_node.scenario_name.clone(),
                            scenario_difficulty: old_node.scenario_difficulty,
                            reps: old_node.reps,
                            days,
                        };
                        scs[j] = new_node;
                    } else {
                        proof {
                            assert(scenario_index_from(pv.scenarios, srow.scenario_name@, 0)
                                == pv.scenarios.len());
                        }
                        scs.push(
                            GroupedPlaylistScenario {
                                scenario_name: srow.scenario_name.clone(),
                                scenario_difficulty: srow.scenario_difficulty,
                                reps: srow.reps,
                                days: {
                                    let mut d: Vec<GroupedPlaylistGamesByDay> = Vec::new();
                                    d.push(day);
                                    d
                                },
                            },
                        );
                    }
                    let new_entry = GroupedPlaylist {
                        id: acc[idx].id,
                        name: acc[idx].name.clone(),
                        description: acc[idx].description.clone(),
                        duration: acc[idx].duration,
                        state: acc[idx].state,
                        scenarios: scs,
                    };
                    acc[idx] = new_entry;
                    proof {
                        assert(acc@.map_values(|x: GroupedPlaylist| x@) =~~= target);
                    }
                },
            }
        } else {
            proof {
                assert(playlist_index_from(accv, row.id, 0) == accv.len());
            }
            let scenarios: Vec<GroupedPlaylistScenario> = match &row.scenario {
                None => Vec::new(),
                Some(srow) => {
                    let mut scs: Vec<GroupedPlaylistScenario> = Vec::new();
                    scs.push(
                        GroupedPlaylistScenario {
                            scenario_name: srow.scenario_name.clone(),
                            scenario_difficulty: srow.scenario_difficulty,
                            reps: srow.reps,
                            days: {
                                let mut d: Vec<GroupedPlaylistGamesByDay> = Vec::new();
                                d.push(GroupedPlaylistGamesByDay { games_count: srow.games_played });
                                d
                            },
                        },
                    );
                    scs
                },
            };
            let new_entry = GroupedPlaylist {
                id: row.id,
                name: row.name.clone(),
                description: row.description.clone(),
                duration: row.duration,
                state: row.state,
                scenarios,
            };
            acc.push(new_entry);
            proof {
                assert(acc@.map_values(|x: GroupedPlaylist| x@) =~~= target);
            }
        }
        i = i + 1;
    }
    proof {
        assert(rv.take(rows@.len() as int) =~= rv);
    }
    acc
}


/// Where a playlist's counting window ends: a fixed number of days after
/// its start while it is active, its closing day otherwise.
pub open spec fn window_end(p: crate::store::PlaylistV) -> int {
    if p.state is Active {
        p.started_day + p.duration
    } else {
        p.ended_day as int
    }
}

/// The games of one scenario whose creation day falls in the playlist's
/// counting window.
pub open spec fn games_in_window(s: StoreV, scenario_id: u64, p: crate::store::PlaylistV) -> Seq<
    GameV,
> {
    s.games.filter(
        |g: GameV|
            g.scenario_id == scenario_id && p.started_day <= g.created_day && g.created_day
                <= window_end(p),
    )
}

/// The scenario with this id; meaningful under well-formedness, which
/// makes ids unique.
pub open spec fn scenario_by_id(s: StoreV, id: u64) -> ScenarioV {
    s.scenarios[choose|k: int| 0 <= k < s.scenarios.len() && (#[trigger] s.scenarios[k]).id == id]
}

/// The flat rows of one playlist/scenario association: one row per day
/// with games in the window, in first-appearance order, or a single
/// zero-count row when the window holds none.
pub open spec fn spec_entry_rows(
    s: StoreV,
    p: crate::store::PlaylistV,
    e: crate::store::PlaylistEntry,
) -> Seq<FetchedPlaylistDataV> {
    let sc = scenario_by_id(s, e.scenario_id);
    let gs = games_in_window(s, e.scenario_id, p);
    if gs.len() == 0 {
        seq![
            FetchedPlaylistDataV {
                id: p.id,
                name: p.name,
                description: p.description,
                duration: p.duration,
                state: p.state,
                scenario: Some(
                    PlaylistScenarioRowV {
                        scenario_name: sc.name,
                        scenario_difficulty: sc.difficulty,
                        games_played: 0,
                        reps: e.reps,
                    },
                ),
            },
        ]
    } else {
        distinct_days(gs).map_values(
            |d: u64| FetchedPlaylistDataV {
                id: p.id,
                name: p.name,
                description: p.description,
                duration: p.duration,
                state: p.state,
                scenario: Some(
                    PlaylistScenarioRowV {
                        scenario_name: sc.name,
                        scenario_difficulty: sc.difficulty,
                        games_played: gs.filter(|g: GameV| g.created_day == d).len() as u64,
                        reps: e.reps,
                    },
                ),
            },
        )
    }
}

/// The flat rows of one playlist: its associations in insertion order,
/// or a single row without scenario columns when it has none.
pub open spec fn spec_playlist_rows_for(s: StoreV, p: crate::store::PlaylistV) -> Seq<
    FetchedPlaylistDataV,
> {
    let es = s.playlist_entries.filter(
        |e: crate::store::PlaylistEntry| e.playlist_id == p.id,
    );
    if es.len() == 0 {
        seq![
            FetchedPlaylistDataV {
                id: p.id,
                name: p.name,
                description: p.description,
                duration: p.duration,
                state: p.state,
                scenario: None,
            },
        ]
    } else {
        es.map_values(|e: crate::store::PlaylistEntry| spec_entry_rows(s, p, e)).flatten()
    }
}

/// All flat rows: playlists in id order, optionally only the active
/// ones.
pub open spec fn spec_playlist_rows(s: StoreV, active_only: bool) -> Seq<FetchedPlaylistDataV> {
    s.playlists.filter(
        |p: crate::store::PlaylistV| !active_only || p.state is Active,
    ).map_values(|p: crate::store::PlaylistV| spec_playlist_rows_for(s, p)).flatten()
}

impl Store {
    /// The scenario with this id.
    fn scenario_by_id_exec(&self, id: u64) -> (r: crate::store::Scenario)
        requires
            self.wf(),
            crate::store::has_scenario_id(self@, id),
        ensures
            r@ == scenario_by_id(self@, id),
    {
        let mut i: usize = 0;
        proof {
            self.view_facts();
        }
        while i < self.scenarios.len()
            invariant
                i <= self.scenarios@.len(),
                self.wf(),
                crate::store::has_scenario_id(self@, id),
                self@.scenarios == self.scenarios@.map_values(|x: crate::store::Scenario| x@),
                forall|k: int| 0 <= k < i ==> (#[trigger] self@.scenarios[k]).id != id,
            decreases self.scenarios@.len() - i,
        {
            if self.scenarios[i].id == id {
                let sc = self.scenarios[i].clone();
                proof {
                    assert(self@.scenarios[i as int].id == id);
                    let j = choose|k: int|
                        0 <= k < self@.scenarios.len() && (#[trigger] self@.scenarios[k]).id
                            == id;
                    if j != i as int {
                        if j < i as int {
                            assert(self@.scenarios[j].id < self@.scenarios[i as int].id);
                        } else {
                            assert(self@.scenarios[i as int].id < self@.scenarios[j].id);
                        }
                        assert(false);
                    }
                }
                return sc;
            }
            i = i + 1;
        }
        proof {
            let j = choose|k: int|
                0 <= k < self@.scenarios.len() && (#[trigger] self@.scenarios[k]).id == id;
            assert(false);
        }
        vstd::pervasive::unreached()
    }

    /// The flat rows of one playlist/scenario association.
    fn entry_rows_for(&self, p: &crate::store::Playlist, e: crate::store::PlaylistEntry) -> (r:
        Vec<FetchedPlaylistData>)
        requires
            self.wf(),
            crate::store::has_scenario_id(self@, e.scenario_id),
        ensures
            r@.map_values(|x: FetchedPlaylistData| x@) == spec_entry_rows(self@, p@, e),
    {
        let ghost s0 = self@;
        let ghost pv = p@;
        let sc = self.scenario_by_id_exec(e.scenario_id);
        let lo = p.started_day;
        let hi: u128 = if matches!(p.state, crate::store::PlaylistState::Active) {
            p.started_day as u128 + p.duration as u128
        } else {
            p.ended_day as u128
        };
        proof {
            assert(hi == window_end(pv));
        }
        let ghost wpred = |g: GameV|
            g.scenario_id == e.scenario_id && pv.started_day <= g.created_day && g.created_day
                <= window_end(pv);
        // materialize the window's games, in id order
        let mut win: Vec<crate::store::Game> = Vec::new();
        let mut k: usize = 0;
        proof {
            self.view_facts();
            assert(s0.games.take(0).filter(wpred) =~= Seq::<GameV>::empty());
            assert(win@.map_values(|x: crate::store::Game| x@) =~= s0.games.take(0).filter(
                wpred,
            ));
        }
        while k < self.games.len()
            invariant
                k <= self.games@.len(),
                self@ == s0,
                self@.games == self.games@.map_values(|x: crate::store::Game| x@),
                wpred == (|g: GameV|
                    g.scenario_id == e.scenario_id && pv.started_day <= g.created_day
                        && g.created_day <= window_end(pv)),
                lo == pv.started_day,
                hi == window_end(pv),
                win@.map_values(|x: crate::store::Game| x@) == s0.games.take(k as int).filter(
                    wpred,
                ),
            decreases self.games@.len() - k,
        {
            proof {
                assert(s0.games.take(k + 1) =~= s0.games.take(k as int).push(s0.games[k as int]));
                crate::store::lemma_filter_push(s0.games.take(k as int), wpred, s0.games[k as int]);
            }
            if self.games[k].scenario_id == e.scenario_id && lo <= self.games[k].created_day
                && self.games[k].created_day as u128 <= hi {
                let ghost old_win = win@;
                let g = self.games[k].clone();
                win.push(g);
                proof {
                    assert(wpred(s0.games[k as int]));
                    assert(win@.map_values(|x: crate::store::Game| x@) =~= old_win.map_values(
                        |x: crate::store::Game| x@,
                    ).push(s0.games[k as int]));
                }
            } else {
                proof {
                    assert(!wpred(s0.games[k as int]));
                }
            }
            k = k + 1;
        }
        proof {
            assert(s0.games.take(self.games@.len() as int) =~= s0.games);
        }
        let ghost gs = games_in_window(s0, e.scenario_id, pv);
        let ghost winv = win@.map_values(|x: crate::store::Game| x@);
        proof {
            assert(winv == gs);
        }
        let mut out: Vec<FetchedPlaylistData> = Vec::new();
        if win.len() == 0 {
            let row = FetchedPlaylistData {
                id: p.id,
                name: p.name.clone(),
                description: p.description.clone(),
                duration: p.duration,
                state: p.state,
                scenario: Some(
                    PlaylistScenarioRow {
                        scenario_name: sc.name.clone(),
                        scenario_difficulty: sc.difficulty,
                        games_played: 0,
                        reps: e.reps,
                    },
                ),
            };
            out.push(row);
            proof {
                assert(gs.len() == 0);
                assert(out@.map_values(|x: FetchedPlaylistData| x@) =~~= spec_entry_rows(
                    s0,
                    pv,
                    e,
                ));
            }
            return out;
        }
        // the window's distinct days, in first-appearance order
        let mut days: Vec<u64> = Vec::new();
        let mut k1: usize = 0;
        proof {
            assert(winv.take(0) =~= Seq::<GameV>::empty());
            assert(days@ =~= distinct_days(winv.take(0)));
        }
        while k1 < win.len()
            invariant
                k1 <= win@.len(),
                winv == win@.map_values(|x: crate::store::Game| x@),
                days@ == distinct_days(winv.take(k1 as int)),
            decreases win@.len() - k1,
        {
            let dday = win[k1].created_day;
            proof {
                assert(winv.take(k1 + 1).drop_last() =~= winv.take(k1 as int));
                assert(winv.take(k1 + 1).last() == winv[k1 as int]);
                assert(winv[k1 as int].created_day == dday);
            }
            let mut seen = false;
            let mut t: usize = 0;
            while t < days.len()
                invariant
                    t <= days@.len(),
                    seen == exists|w: int| 0 <= w < t && days@[w] == dday,
                decreases days@.len() - t,
            {
                if days[t] == dday {
                    seen = true;
                }
                t = t + 1;
            }
            proof {
                assert(seen == days@.contains(dday));
            }
            if !seen {
                days.push(dday);
            }
            k1 = k1 + 1;
        }
        proof {
            assert(winv.take(win@.len() as int) =~= winv);
            assert(days@ == distinct_days(gs));
        }
        let mut d: usize = 0;
        proof {
            assert(out@.map_values(|x: FetchedPlaylistData| x@) =~= spec_entry_rows(
                s0,
                pv,
                e,
            ).take(0));
        }
        while d < days.len()
            invariant
                d <= days@.len(),
                self@ == s0,
                pv == p@,
                sc@ == scenario_by_id(s0, e.scenario_id),
                gs == games_in_window(s0, e.scenario_id, pv),
                gs.len() != 0,
                winv == win@.map_values(|x: crate::store::Game| x@),
                winv == gs,
                days@ == distinct_days(gs),
                out@.map_values(|x: FetchedPlaylistData| x@) == spec_entry_rows(s0, pv, e).take(
                    d as int,
                ),
            decreases days@.len() - d,
        {
            let dday = days[d];
            let mut cnt: u64 = 0;
            let mut k2: usize = 0;
            proof {
                assert(winv.take(0).filter(|g: GameV| g.created_day == dday) =~= Seq::<
                    GameV,
                >::empty());
            }
            while k2 < win.len()
                invariant
                    k2 <= win@.len(),
                    winv == win@.map_values(|x: crate::store::Game| x@),
                    cnt == winv.take(k2 as int).filter(|g: GameV| g.created_day == dday).len(),
                    cnt <= k2,
                decreases win@.len() - k2,
            {
                proof {
                    assert(winv.take(k2 + 1) =~= winv.take(k2 as int).push(winv[k2 as int]));
                    crate::store::lemma_filter_push(
                        winv.take(k2 as int),
                        |g: GameV| g.created_day == dday,
                        winv[k2 as int],
                    );
                }
                if win[k2].created_day == dday {
                    proof {
                        assert(winv[k2 as int].created_day == dday);
                    }
                    cnt = cnt + 1;
                }
                k2 = k2 + 1;
            }
            proof {
                assert(winv.take(win@.len() as int) =~= winv);
                assert(cnt == gs.filter(|g: GameV| g.created_day == dday).len());
            }
            let row = FetchedPlaylistData {
                id: p.id,
                name: p.name.clone(),
                description: p.description.clone(),
                duration: p.duration,
                state: p.state,
                scenario: Some(
                    PlaylistScenarioRow {
                        scenario_name: sc.name.clone(),
                        scenario_difficulty: sc.difficulty,
                        games_played: cnt,
                        reps: e.reps,
                    },
                ),
            };
            let ghost old_out = out@;
            proof {
                assert(row@ =~= spec_entry_rows(s0, pv, e)[d as int]);
            }
            out.push(row);
            proof {
                assert(spec_entry_rows(s0, pv, e).take(d + 1) =~= spec_entry_rows(
                    s0,
                    pv,
                    e,
                ).take(d as int).push(spec_entry_rows(s0, pv, e)[d as int]));
                assert(out@.map_values(|x: FetchedPlaylistData| x@) =~= old_out.map_values(
                    |x: FetchedPlaylistData| x@,
                ).push(spec_entry_rows(s0, pv, e)[d as int]));
            }
            d = d + 1;
        }
        proof {
            assert(spec_entry_rows(s0, pv, e).take(spec_entry_rows(s0, pv, e).len() as int)
                =~= spec_entry_rows(s0, pv, e));
        }
        out
    }

    /// The flat joined rows of the grouped playlist view: for each
    /// playlist (optionally the active ones only), its scenario
    /// associations in insertion order, each with one row per day that
    /// has games in the playlist's window, or a zero-count row; a
    /// playlist without associations yields one row without scenario
    /// columns.
    pub fn playlist_rows(&self, active_only: bool) -> (r: Vec<FetchedPlaylistData>)
        requires
            self.wf(),
        ensures
            r@.map_values(|x: FetchedPlaylistData| x@) == spec_playlist_rows(self@, active_only),
    {
        let ghost s0 = self@;
        let ghost apred = |p: crate::store::PlaylistV|
            !active_only || p.state is Active;
        let ghost prf = |p: crate::store::PlaylistV| spec_playlist_rows_for(s0, p);
        let mut out: Vec<FetchedPlaylistData> = Vec::new();
        let mut i: usize = 0;
        proof {
            self.view_facts();
            assert(s0.playlists.take(0).filter(apred) =~= Seq::<crate::store::PlaylistV>::empty());
            assert(s0.playlists.take(0).filter(apred).map_values(prf).flatten() =~= Seq::<
                FetchedPlaylistDataV,
            >::empty());
            assert(out@.map_values(|x: FetchedPlaylistData| x@) =~= s0.playlists.take(0).filter(
                apred,
            ).map_values(prf).flatten());
        }
        while i < self.playlists.len()
            invariant
                i <= self.playlists@.len(),
                self@ == s0,
                self.wf(),
                self@.playlists == self.playlists@.map_values(|x: crate::store::Playlist| x@),
                self@.playlist_entries == self.playlist_entries@,
                apred == (|p: crate::store::PlaylistV|
                    !active_only || p.state is Active),
                prf == (|p: crate::store::PlaylistV| spec_playlist_rows_for(s0, p)),
                out@.map_values(|x: FetchedPlaylistData| x@) == s0.playlists.take(i as int).filter(
                    apred,
                ).map_values(prf).flatten(),
            decreases self.playlists@.len() - i,
        {
            let ghost plv = s0.playlists[i as int];
            proof {
                assert(s0.playlists.take(i + 1) =~= s0.playlists.take(i as int).push(plv));
                crate::store::lemma_filter_push(s0.playlists.take(i as int), apred, plv);
            }
            let passes = if active_only {
                matches!(self.playlists[i].state, crate::store::PlaylistState::Active)
            } else {
                true
            };
            if passes {
                proof {
                    assert(apred(plv));
                }
                // this playlist's association rows
                let ghost epred = |e: crate::store::PlaylistEntry| e.playlist_id == plv.id;
                let ghost erf = |e: crate::store::PlaylistEntry| spec_entry_rows(s0, plv, e);
                let mut rows_p: Vec<FetchedPlaylistData> = Vec::new();
                let mut any_entry = false;
                let mut t: usize = 0;
                proof {
                    assert(s0.playlist_entries.take(0).filter(epred) =~= Seq::<
                        crate::store::PlaylistEntry,
                    >::empty());
                    assert(s0.playlist_entries.take(0).filter(epred).map_values(
                        erf,
                    ).flatten() =~= Seq::<FetchedPlaylistDataV>::empty());
                    assert(rows_p@.map_values(|x: FetchedPlaylistData| x@)
                        =~= s0.playlist_entries.take(0).filter(epred).map_values(erf).flatten());
                }
                while t < self.playlist_entries.len()
                    invariant
                        t <= self.playlist_entries@.len(),
                        self@ == s0,
                        self.wf(),
                        self@.playlists == self.playlists@.map_values(
                            |x: crate::store::Playlist| x@,
                        ),
                        self@.playlist_entries == self.playlist_entries@,
                        i < self.playlists@.len(),
                        plv == s0.playlists[i as int],
                        epred == (|e: crate::store::PlaylistEntry| e.playlist_id == plv.id),
                        erf == (|e: crate::store::PlaylistEntry| spec_entry_rows(s0, plv, e)),
                        any_entry == (s0.playlist_entries.take(t as int).filter(epred).len()
                            != 0),
                        rows_p@.map_values(|x: FetchedPlaylistData| x@)
                            == s0.playlist_entries.take(t as int).filter(epred).map_values(
                            erf,
                        ).flatten(),
                    decreases self.playlist_entries@.len() - t,
                {
                    proof {
                        assert(s0.playlist_entries.take(t + 1) =~= s0.playlist_entries.take(
                            t as int,
                        ).push(s0.playlist_entries[t as int]));
                        crate::store::lemma_filter_push(
                            s0.playlist_entries.take(t as int),
                            epred,
                            s0.playlist_entries[t as int],
                        );
                    }
                    let e = self.playlist_entries[t];
                    if e.playlist_id == self.playlists[i].id {
                        proof {
                            assert(e == s0.playlist_entries[t as int]);
                            assert(epred(s0.playlist_entries[t as int]));
                            assert(crate::store::has_scenario_id(s0, e.scenario_id));
                        }
                        any_entry = true;
                        let ghost old_rows = rows_p@;
                        let mut er = self.entry_rows_for(&self.playlists[i], e);
                        let ghost erv = er@.map_values(|x: FetchedPlaylistData| x@);
                        proof {
                            assert(self.playlists[i as int]@ == plv);
                            assert(erv == erf(s0.playlist_entries[t as int]));
                        }
                        rows_p.append(&mut er);
                        proof {
                            let fprev = s0.playlist_entries.take(t as int).filter(
                                epred,
                            ).map_values(erf);
                            fprev.lemma_flatten_push(erv);
                            assert(s0.playlist_entries.take(t + 1).filter(epred).map_values(erf)
                                =~= fprev.push(erv));
                            assert(rows_p@.map_values(|x: FetchedPlaylistData| x@)
                                =~= old_rows.map_values(|x: FetchedPlaylistData| x@) + erv);
                        }
                    } else {
                        proof {
                            assert(!epred(s0.playlist_entries[t as int]));
                        }
                    }
                    t = t + 1;
                }
                proof {
                    assert(s0.playlist_entries.take(self.playlist_entries@.len() as int)
                        =~= s0.playlist_entries);
                }
                if !any_entry {
                    let row = FetchedPlaylistData {
                        id: self.playlists[i].id,
                        name: self.playlists[i].name.clone(),
                        description: self.playlists[i].description.clone(),
                        duration: self.playlists[i].duration,
                        state: self.playlists[i].state,
                        scenario: None,
                    };
                    proof {
                        assert(row@ =~= spec_playlist_rows_for(s0, plv)[0]);
                    }
                    rows_p.push(row);
                    proof {
                        assert(rows_p@.map_values(|x: FetchedPlaylistData| x@)
                            =~= spec_playlist_rows_for(s0, plv));
                    }
                } else {
                    proof {
                        assert(rows_p@.map_values(|x: FetchedPlaylistData| x@)
                            =~= spec_playlist_rows_for(s0, plv));
                    }
                }
                let ghost old_out = out@;
                let ghost rows_pv = rows_p@.map_values(|x: FetchedPlaylistData| x@);
                let mut rows_p_mut = rows_p;
                out.append(&mut rows_p_mut);
                proof {
                    let fprev = s0.playlists.take(i as int).filter(apred).map_values(prf);
                    fprev.lemma_flatten_push(rows_pv);
                    assert(s0.playlists.take(i + 1).filter(apred).map_values(prf) =~= fprev.push(
                        rows_pv,
                    ));
                    assert(out@.map_values(|x: FetchedPlaylistData| x@) =~= old_out.map_values(
                        |x: FetchedPlaylistData| x@,
                    ) + rows_pv);
                    assert(out@.map_values(|x: FetchedPlaylistData| x@) =~= s0.playlists.take(
                        i + 1,
                    ).filter(apred).map_values(prf).flatten());
                }
            } else {
                proof {
                    assert(!apred(plv));
                    assert(s0.playlists.take(i + 1).filter(apred) =~= s0.playlists.take(
                        i as int,
                    ).filter(apred));
                }
            }
            i = i + 1;
        }
        proof {
            assert(s0.playlists.take(self.playlists@.len() as int) =~= s0.playlists);
        }
        out
    }

    /// The grouped playlist view: the flat joined rows folded into the
    /// playlist, scenario, day tree.
    pub fn fetch_playlist_with_data(&self, active_only: bool) -> (r: Vec<GroupedPlaylist>)
        requires
            self.wf(),
        ensures
            r@.map_values(|x: GroupedPlaylist| x@) == spec_fold_playlists(
                spec_playlist_rows(self@, active_only),
            ),
    {
        let rows = self.playlist_rows(active_only);
        fold_playlist_rows(&rows)
    }
}


} // verus!
