//! The keyed collection of running histograms: one [`RunningHistogram`] per
//! (ship id, metric) pair, fed by flattening raw stat records and queried
//! for per-metric percentile ranks.
//!
//! Each metric's first histogram is seeded with a domain-informed ceiling
//! from a static table (see [`initial_max_spec`]); unknown territory grows
//! as larger samples arrive. A never-seen ship or a cold metric answers a
//! rank of zero rather than failing.

use vstd::prelude::*;
use crate::histogram::{RunningHistogram, RunHistView, rh_wf, rh_insert, rh_percentile,
    refresh_target};
use crate::wows_data::{DetailedStats, METRIC_COUNT, flatten};
use crate::PCT_FULL;

verus! {

/// Database-size estimate assumed before any measurement arrives.
pub const DEFAULT_DATABASE_SIZE: u64 = 100_000;

/// A database-size estimate must exceed this floor before it is propagated
/// to the per-metric histograms.
pub const DATABASE_SIZE_FLOOR: u64 = 1_000;

/// The domain-informed initial value ceiling for metric `i`, in
/// `VALUE_SCALE` ticks: per-battery-group frags/shots/hits/hitrate
/// ceilings, then the ceilings of the record-level metrics, matching the
/// metric layout of [`crate::wows_data::flat_value`].
pub open spec fn initial_max_spec(i: int) -> u64 {
    if 0 <= i < 20 {
        let o = i % 4;
        if o == 0 {
            20_000_000u64  // frags: 20 per battle
        } else if o == 1 {
            10_000_000_000u64  // shots: 10,000 per battle
        } else if o == 2 {
            1_000_000_000u64  // hits: 1,000 per battle
        } else {
            1_000_000u64  // hitrate: 1.0
        }
    } else if i == 20 {
        10_000_000_000u64  // xp: 10,000 per battle
    } else if i == 21 {
        10_000_000u64  // capture_points: 10 per battle
    } else if i == 22 {
        100_000_000u64  // planes_killed: 100 per battle
    } else if i == 23 {
        1_000_000u64  // survived_wins: 1.0 per battle
    } else if i == 24 {
        1_000_000_000_000u64  // damage_scouting: 1,000,000 per battle
    } else if i == 25 {
        1_000_000_000_000u64  // damage_dealt: 1,000,000 per battle
    } else if i == 26 {
        100_000_000u64  // ships_spotted: 100 per battle
    } else if i == 27 {
        12_000_000u64  // frags: 12 per battle
    } else if i == 28 {
        1_000_000u64  // win_surviverate: 1.0
    } else if i == 29 {
        1_000_000u64  // winrate: 1.0
    } else {
        0u64
    }
}

/// The domain-informed initial value ceiling for metric `i`.
fn initial_max_val(i: usize) -> (r: u64)
    requires
        i < METRIC_COUNT,
    ensures
        r == initial_max_spec(i as int),
{
    if i < 20 {
        let o = i % 4;
        if o == 0 {
            20_000_000
        } else if o == 1 {
            10_000_000_000
        } else if o == 2 {
            1_000_000_000
        } else {
            1_000_000
        }
    } else if i == 20 {
        10_000_000_000
    } else if i == 21 {
        10_000_000
    } else if i == 22 {
        100_000_000
    } else if i == 23 {
        1_000_000
    } else if i == 24 {
        1_000_000_000_000
    } else if i == 25 {
        1_000_000_000_000
    } else if i == 26 {
        100_000_000
    } else if i == 27 {
        12_000_000
    } else if i == 28 {
        1_000_000
    } else {
        1_000_000
    }
}

/// The models of one ship's per-metric histograms.
pub open spec fn table_view(t: Vec<RunningHistogram>) -> Seq<RunHistView> {
    t@.map_values(|r: RunningHistogram| r@)
}

/// The map a sequence of (ship id, table) entries denotes; later entries
/// would win, but the collection keeps its keys unique.
pub open spec fn entries_map(s: Seq<(u64, Vec<RunningHistogram>)>) -> Map<u64, Seq<RunHistView>>
    decreases s.len(),
{
    if s.len() == 0 {
        Map::empty()
    } else {
        entries_map(s.drop_last()).insert(s.last().0, table_view(s.last().1))
    }
}

/// Mathematical model of a [`StatsHistogram`]: the per-ship tables of
/// running-histogram models, and the current database-size estimate.
pub ghost struct StatsView {
    pub ships: Map<u64, Seq<RunHistView>>,
    pub database_size: u64,
}

/// The table a fresh ship starts from: every metric cold, seeded with its
/// domain ceiling and the refresh interval derived from the current
/// database-size estimate.
pub open spec fn fresh_table(db: u64) -> Seq<RunHistView> {
    Seq::new(
        METRIC_COUNT as nat,
        |i: int|
            RunHistView {
                snaps: Seq::empty(),
                max_seen: initial_max_spec(i),
                target: refresh_target(db),
                samples: 0,
            },
    )
}

/// One sample recorded into every metric of a table.
pub open spec fn table_step(t: Seq<RunHistView>, vals: Seq<u64>) -> Seq<RunHistView> {
    Seq::new(t.len(), |i: int| rh_insert(t[i], vals[i]))
}

/// Every metric of a table adopting a new database-size estimate.
pub open spec fn table_retarget(t: Seq<RunHistView>, n: u64) -> Seq<RunHistView> {
    Seq::new(t.len(), |i: int| RunHistView { target: refresh_target(n), ..t[i] })
}

/// The table a record's samples land in: the ship's existing table, or a
/// fresh one on first sight of the ship.
pub open spec fn base_table(v: StatsView, shipid: u64) -> Seq<RunHistView> {
    if v.ships.contains_key(shipid) {
        v.ships[shipid]
    } else {
        fresh_table(v.database_size)
    }
}

/// The rank metric `m` of ship `shipid` assigns to the metric value
/// `vals[m]`: zero for a never-seen ship, else the answer of that metric's
/// running histogram.
pub open spec fn ship_percentile(v: StatsView, shipid: u64, vals: Seq<u64>, m: int) -> u64 {
    if v.ships.contains_key(shipid) {
        rh_percentile(v.ships[shipid][m], vals[m])
    } else {
        0
    }
}

spec fn keys_unique(s: Seq<(u64, Vec<RunningHistogram>)>) -> bool {
    forall|i: int, j: int| 0 <= i < j < s.len() ==> (#[trigger] s[i].0) != (#[trigger] s[j].0)
}

spec fn table_wf(t: Vec<RunningHistogram>) -> bool {
    &&& t@.len() == METRIC_COUNT
    &&& forall|m: int| 0 <= m < t@.len() ==> rh_wf((#[trigger] t@[m])@)
}

/// A map entry sequence contains a key exactly when some entry carries it.
proof fn lemma_entries_contains(s: Seq<(u64, Vec<RunningHistogram>)>, k: u64)
    ensures
        entries_map(s).contains_key(k) <==> exists|i: int|
            0 <= i < s.len() && (#[trigger] s[i].0) == k,
    decreases s.len(),
{
    if s.len() > 0 {
        lemma_entries_contains(s.drop_last(), k);
        if s.last().0 == k {
            assert(s[s.len() - 1].0 == k);
        } else if entries_map(s).contains_key(k) {
            let i = choose|i: int| 0 <= i < s.drop_last().len() && (#[trigger] s.drop_last()[i].0)
                == k;
            assert(s[i].0 == k);
        } else {
            assert forall|i: int| 0 <= i < s.len() implies (#[trigger] s[i].0) != k by {
                if i < s.len() - 1 {
                    assert(s.drop_last()[i].0 != k);
                }
            }
        }
    }
}

/// With unique keys, the map an entry sequence denotes sends each entry's
/// key to that entry's table.
proof fn lemma_entries_index(s: Seq<(u64, Vec<RunningHistogram>)>, i: int)
    requires
        keys_unique(s),
        0 <= i < s.len(),
    ensures
        entries_map(s).contains_key(s[i].0),
        entries_map(s)[s[i].0] == table_view(s[i].1),
    decreases s.len(),
{
    if i == s.len() - 1 {
        assert(s.last() == s[i]);
    } else {
        assert(keys_unique(s.drop_last()));
        assert(s.drop_last()[i] == s[i]);
        lemma_entries_index(s.drop_last(), i);
        assert(s[s.len() - 1].0 != s[i].0);
    }
}

/// Pushing an entry denotes inserting its key.
proof fn lemma_entries_push(s: Seq<(u64, Vec<RunningHistogram>)>, e: (u64, Vec<RunningHistogram>))
    ensures
        entries_map(s.push(e)) == entries_map(s).insert(e.0, table_view(e.1)),
{
    assert(s.push(e).drop_last() =~= s);
    assert(s.push(e).last() == e);
}

/// Replacing the table of entry `i` (keeping its key) denotes inserting
/// the new table under that key.
proof fn lemma_entries_update(
    s: Seq<(u64, Vec<RunningHistogram>)>,
    i: int,
    t: Vec<RunningHistogram>,
)
    requires
        keys_unique(s),
        0 <= i < s.len(),
    ensures
        entries_map(s.update(i, (s[i].0, t))) == entries_map(s).insert(s[i].0, table_view(t)),
    decreases s.len(),
{
    let k = s[i].0;
    let s2 = s.update(i, (k, t));
    assert forall|j: int| 0 <= j < s2.len() implies (#[trigger] s2[j]).0 == s[j].0 by {}
    assert(keys_unique(s2));
    let m1 = entries_map(s2);
    let m2 = entries_map(s).insert(k, table_view(t));
    assert forall|k2: u64| m1.contains_key(k2) implies m2.contains_key(k2) by {
        lemma_entries_contains(s2, k2);
        let j = choose|j: int| 0 <= j < s2.len() && (#[trigger] s2[j].0) == k2;
        if s[j].0 != k {
            lemma_entries_contains(s, k2);
        }
    }
    assert forall|k2: u64| m2.contains_key(k2) implies m1.contains_key(k2) by {
        if k2 != k {
            lemma_entries_contains(s, k2);
            let j = choose|j: int| 0 <= j < s.len() && (#[trigger] s[j].0) == k2;
            assert(s2[j].0 == k2);
            lemma_entries_contains(s2, k2);
        } else {
            assert(s2[i].0 == k);
            lemma_entries_contains(s2, k2);
        }
    }
    assert forall|k2: u64| m1.contains_key(k2) implies m1[k2] == m2[k2] by {
        lemma_entries_contains(s2, k2);
        let j = choose|j: int| 0 <= j < s2.len() && (#[trigger] s2[j].0) == k2;
        lemma_entries_index(s2, j);
        if k2 == k {
            assert(j == i) by {
                if j != i {
                    assert(s[j].0 == k2 && s[i].0 == k);
                }
            }
        } else {
            assert(j != i);
            assert(s[j] == s2[j]);
            lemma_entries_index(s, j);
        }
    }
    assert(m1 =~= m2);
}

/// The keyed collection of running histograms, indexed by (ship id,
/// metric). `increment` flattens one raw record and feeds every derived
/// sample; `get_percentiles` answers a rank per metric, with zero for any
/// ship or metric that has no population yet.
pub struct StatsHistogram {
    ships: Vec<(u64, Vec<RunningHistogram>)>,
    database_size: u64,
}

impl View for StatsHistogram {
    type V = StatsView;

    closed spec fn view(&self) -> StatsView {
        StatsView { ships: entries_map(self.ships@), database_size: self.database_size }
    }
}

impl StatsHistogram {
    /// The collection's internal invariant: ship keys are unique and every
    /// table holds one well-formed running histogram per metric.
    pub closed spec fn inv(&self) -> bool {
        &&& keys_unique(self.ships@)
        &&& forall|i: int| 0 <= i < self.ships@.len() ==> table_wf((#[trigger] self.ships@[i]).1)
    }

    /// An empty collection, assuming `DEFAULT_DATABASE_SIZE` until a
    /// measurement arrives.
    pub fn new() -> (r: StatsHistogram)
        ensures
            r.inv(),
            r@.ships == Map::<u64, Seq<RunHistView>>::empty(),
            r@.database_size == DEFAULT_DATABASE_SIZE,
    {
        StatsHistogram { ships: Vec::new(), database_size: DEFAULT_DATABASE_SIZE }
    }

    /// The index of a ship's entry, if the ship has been seen.
    fn find_ship(&self, shipid: u64) -> (r: Option<usize>)
        ensures
            match r {
                Some(ix) => ix < self.ships@.len() && self.ships@[ix as int].0 == shipid,
                None => forall|i: int|
                    0 <= i < self.ships@.len() ==> (#[trigger] self.ships@[i].0) != shipid,
            },
    {
        let mut i: usize = 0;
        while i < self.ships.len()
            invariant
                i <= self.ships@.len(),
                forall|j: int| 0 <= j < i ==> (#[trigger] self.ships@[j].0) != shipid,
            decreases self.ships@.len() - i,
        {
            if self.ships[i].0 == shipid {
                return Some(i);
            }
            i = i + 1;
        }
        None
    }

    /// Flatten `stats` and record every derived metric sample into ship
    /// `shipid`'s table, creating the table on first sight of the ship.
    pub fn increment(&mut self, shipid: u64, stats: &DetailedStats)
        requires
            old(self).inv(),
        ensures
            final(self).inv(),
            final(self)@.ships == old(self)@.ships.insert(
                shipid,
                table_step(base_table(old(self)@, shipid), flatten(*stats)),
            ),
            final(self)@.database_size == old(self)@.database_size,
    {
        let vals = stats.into_map();
        let ghost expected = table_step(base_table(old(self)@, shipid), flatten(*stats));
        match self.find_ship(shipid) {
            Some(ix) => {
                proof {
                    lemma_entries_index(self.ships@, ix as int);
                }
                let ghost oldentries = self.ships@;
                let ghost oldtable = table_view(self.ships@[ix as int].1);
                proof {
                    assert forall|mm: int| 0 <= mm < METRIC_COUNT implies #[trigger] oldtable[mm]
                        == (oldentries[ix as int].1@[mm])@ by {}
                }
                let mut m: usize = 0;
                while m < METRIC_COUNT
                    invariant
                        m <= METRIC_COUNT,
                        ix < self.ships@.len(),
                        self.ships@.len() == oldentries.len(),
                        self.database_size == old(self).database_size,
                        vals@ == flatten(*stats),
                        vals@.len() == METRIC_COUNT,
                        forall|j: int|
                            0 <= j < oldentries.len() && j != ix ==> self.ships@[j] == oldentries[
                                j
                            ],
                        self.ships@[ix as int].0 == oldentries[ix as int].0,
                        self.ships@[ix as int].1@.len() == METRIC_COUNT,
                        oldentries[ix as int].1@.len() == METRIC_COUNT,
                        oldtable.len() == METRIC_COUNT,
                        forall|mm: int|
                            0 <= mm < METRIC_COUNT ==> #[trigger] oldtable[mm] == (oldentries[
                                ix as int
                            ].1@[mm])@,
                        forall|mm: int|
                            0 <= mm < m ==> (#[trigger] self.ships@[ix as int].1@[mm])@
                                == rh_insert(oldtable[mm], vals@[mm]) && rh_wf(
                                self.ships@[ix as int].1@[mm]@,
                            ),
                        forall|mm: int|
                            m <= mm < METRIC_COUNT ==> (#[trigger] self.ships@[ix as int].1@[mm])
                                == oldentries[ix as int].1@[mm],
                        forall|mm: int|
                            0 <= mm < METRIC_COUNT ==> rh_wf(
                                (#[trigger] oldentries[ix as int].1@[mm])@,
                            ),
                    decreases METRIC_COUNT - m,
                {
                    self.ships[ix].1[m].increment(vals[m]);
                    m = m + 1;
                }
                proof {
                    assert(table_view(self.ships@[ix as int].1) =~= table_step(oldtable, vals@));
                    assert(self.ships@ =~= oldentries.update(
                        ix as int,
                        (shipid, self.ships@[ix as int].1),
                    ));
                    lemma_entries_update(oldentries, ix as int, self.ships@[ix as int].1);
                    assert(expected =~= table_step(oldtable, vals@));
                    assert(keys_unique(self.ships@));
                    assert forall|j: int| 0 <= j < self.ships@.len() implies table_wf(
                        (#[trigger] self.ships@[j]).1,
                    ) by {}
                }
            },
            None => {
                proof {
                    lemma_entries_contains(self.ships@, shipid);
                }
                let mut t: Vec<RunningHistogram> = Vec::new();
                let ghost db = self.database_size;
                let mut i: usize = 0;
                while i < METRIC_COUNT
                    invariant
                        i <= METRIC_COUNT,
                        t@.len() == i,
                        vals@.len() == METRIC_COUNT,
                        db == self.database_size,
                        forall|mm: int|
                            0 <= mm < i ==> (#[trigger] t@[mm])@ == rh_insert(
                                fresh_table(db)[mm],
                                vals@[mm],
                            ) && rh_wf(t@[mm]@),
                    decreases METRIC_COUNT - i,
                {
                    let mut r = RunningHistogram::new(initial_max_val(i));
                    r.update_db_size(self.database_size);
                    r.increment(vals[i]);
                    t.push(r);
                    i = i + 1;
                }
                proof {
                    assert(table_view(t) =~= table_step(fresh_table(db), vals@));
                }
                self.ships.push((shipid, t));
                proof {
                    lemma_entries_push(old(self).ships@, (shipid, t));
                    assert forall|i2: int, j2: int|
                        0 <= i2 < j2 < self.ships@.len() implies (#[trigger] self.ships@[i2].0)
                        != (#[trigger] self.ships@[j2].0) by {}
                }
            },
        }
    }

    /// The percentile rank of each of `stats`'s derived metric values
    /// against ship `shipid`'s population, indexed like the flattening. A
    /// never-seen ship, or a metric with no population yet, answers zero.
    pub fn get_percentiles(&self, shipid: u64, stats: &DetailedStats) -> (r: Vec<u64>)
        requires
            self.inv(),
        ensures
            r@.len() == METRIC_COUNT,
            forall|m: int|
                0 <= m < METRIC_COUNT ==> (#[trigger] r@[m]) == ship_percentile(
                    self@,
                    shipid,
                    flatten(*stats),
                    m,
                ),
            forall|m: int| 0 <= m < METRIC_COUNT ==> (#[trigger] r@[m]) <= PCT_FULL,
    {
        let vals = stats.into_map();
        let mut out: Vec<u64> = Vec::new();
        match self.find_ship(shipid) {
            Some(ix) => {
                proof {
                    lemma_entries_index(self.ships@, ix as int);
                }
                let mut m: usize = 0;
                while m < METRIC_COUNT
                    invariant
                        m <= METRIC_COUNT,
                        out@.len() == m,
                        ix < self.ships@.len(),
                        self.inv(),
                        self.ships@[ix as int].0 == shipid,
                        self@.ships.contains_key(shipid),
                        self@.ships[shipid] == table_view(self.ships@[ix as int].1),
                        vals@ == flatten(*stats),
                        vals@.len() == METRIC_COUNT,
                        forall|mm: int|
                            0 <= mm < m ==> (#[trigger] out@[mm]) == rh_percentile(
                                self@.ships[shipid][mm],
                                vals@[mm],
                            ) && out@[mm] <= PCT_FULL,
                    decreases METRIC_COUNT - m,
                {
                    match self.ships[ix].1[m].percentile(vals[m]) {
                        Ok(p) => {
                            out.push(p);
                        },
                        Err(_) => {
                            proof {
                                assert(false);
                            }
                        },
                    }
                    m = m + 1;
                }
            },
            None => {
                proof {
                    lemma_entries_contains(self.ships@, shipid);
                }
                let mut m: usize = 0;
                while m < METRIC_COUNT
                    invariant
                        m <= METRIC_COUNT,
                        out@.len() == m,
                        forall|mm: int| 0 <= mm < m ==> (#[trigger] out@[mm]) == 0u64,
                    decreases METRIC_COUNT - m,
                {
                    out.push(0);
                    m = m + 1;
                }
            },
        }
        out
    }

    /// Adopt a new database-size estimate. The estimate is propagated to
    /// every live running histogram only when it exceeds
    /// `DATABASE_SIZE_FLOOR`; each then derives its refresh interval from
    /// it. Existing snapshots are never resized.
    pub fn set_database_size(&mut self, total_size: u64)
        requires
            old(self).inv(),
        ensures
            final(self).inv(),
            final(self)@.database_size == total_size,
            total_size <= DATABASE_SIZE_FLOOR ==> final(self)@.ships == old(self)@.ships,
            forall|k: u64|
                final(self)@.ships.contains_key(k) <==> old(self)@.ships.contains_key(k),
            total_size > DATABASE_SIZE_FLOOR ==> forall|k: u64|
                old(self)@.ships.contains_key(k) ==> (#[trigger] final(self)@.ships[k])
                    == table_retarget(old(self)@.ships[k], total_size),
    {
        self.database_size = total_size;
        if total_size <= DATABASE_SIZE_FLOOR {
            return ;
        }
        let ghost oldentries = self.ships@;
        let mut i: usize = 0;
        while i < self.ships.len()
            invariant
                i <= self.ships@.len(),
                self.ships@.len() == oldentries.len(),
                self.database_size == total_size,
                forall|j: int|
                    0 <= j < oldentries.len() ==> (#[trigger] self.ships@[j]).0 == oldentries[j].0,
                forall|j: int|
                    i <= j < oldentries.len() ==> (#[trigger] self.ships@[j]) == oldentries[j],
                forall|j: int|
                    0 <= j < i ==> table_view((#[trigger] self.ships@[j]).1) == table_retarget(
                        table_view(oldentries[j].1),
                        total_size,
                    ) && table_wf(self.ships@[j].1),
                forall|j: int| 0 <= j < oldentries.len() ==> table_wf((#[trigger] oldentries[j]).1),
                keys_unique(oldentries),
            decreases self.ships@.len() - i,
        {
            let ghost snapshot = self.ships@;
            let ghost oldtable = table_view(self.ships@[i as int].1);
            proof {
                assert forall|mm: int| 0 <= mm < METRIC_COUNT implies #[trigger] oldtable[mm] == (
                snapshot[i as int].1@[mm])@ && rh_wf(oldtable[mm]) by {}
            }
            let mut m: usize = 0;
            while m < METRIC_COUNT
                invariant
                    m <= METRIC_COUNT,
                    i < self.ships@.len(),
                    self.ships@.len() == snapshot.len(),
                    self.database_size == total_size,
                    oldtable.len() == METRIC_COUNT,
                    snapshot[i as int].1@.len() == METRIC_COUNT,
                    forall|j: int|
                        0 <= j < snapshot.len() && j != i ==> (#[trigger] self.ships@[j])
                            == snapshot[j],
                    self.ships@[i as int].0 == snapshot[i as int].0,
                    self.ships@[i as int].1@.len() == METRIC_COUNT,
                    forall|mm: int|
                        0 <= mm < METRIC_COUNT ==> #[trigger] oldtable[mm] == (snapshot[
                            i as int
                        ].1@[mm])@,
                    forall|mm: int|
                        0 <= mm < m ==> (#[trigger] self.ships@[i as int].1@[mm])@ == (
                        RunHistView { target: refresh_target(total_size), ..oldtable[mm] }
                        ) && rh_wf(self.ships@[i as int].1@[mm]@),
                    forall|mm: int|
                        m <= mm < METRIC_COUNT ==> (#[trigger] self.ships@[i as int].1@[mm])
                            == snapshot[i as int].1@[mm],
                    forall|mm: int| 0 <= mm < METRIC_COUNT ==> rh_wf(#[trigger] oldtable[mm]),
                decreases METRIC_COUNT - m,
            {
                proof {
                    assert(self.ships@[i as int].1@[m as int] == snapshot[i as int].1@[m as int]);
                    assert(oldtable[m as int] == (snapshot[i as int].1@[m as int])@);
                    assert(rh_wf(oldtable[m as int]));
                }
                self.ships[i].1[m].update_db_size(total_size);
                m = m + 1;
            }
            proof {
                assert(table_view(self.ships@[i as int].1) =~= table_retarget(
                    oldtable,
                    total_size,
                ));
                assert forall|j: int| 0 <= j < i + 1 implies table_view(
                    (#[trigger] self.ships@[j]).1,
                ) == table_retarget(table_view(oldentries[j].1), total_size) && table_wf(
                    self.ships@[j].1,
                ) by {
                    if j < i {
                        assert(self.ships@[j] == snapshot[j]);
                    }
                }
            }
            i = i + 1;
        }
        proof {
            assert(keys_unique(self.ships@));
            assert forall|k: u64|
                entries_map(self.ships@).contains_key(k) <==> entries_map(
                    oldentries,
                ).contains_key(k) by {
                lemma_entries_contains(self.ships@, k);
                lemma_entries_contains(oldentries, k);
                if entries_map(self.ships@).contains_key(k) {
                    let j = choose|j: int| 0 <= j < self.ships@.len() && (#[trigger] self.ships@[
                        j
                    ].0) == k;
                    assert(oldentries[j].0 == k);
                }
                if entries_map(oldentries).contains_key(k) {
                    let j = choose|j: int| 0 <= j < oldentries.len() && (#[trigger] oldentries[
                        j
                    ].0) == k;
                    assert(self.ships@[j].0 == k);
                }
            }
            assert forall|k: u64| entries_map(oldentries).contains_key(k) implies #[trigger] entries_map(
                self.ships@,
            )[k] == table_retarget(entries_map(oldentries)[k], total_size) by {
                lemma_entries_contains(oldentries, k);
                let j = choose|j: int| 0 <= j < oldentries.len() && (#[trigger] oldentries[j].0)
                    == k;
                lemma_entries_index(oldentries, j);
                lemma_entries_index(self.ships@, j);
            }
        }
    }
}

} // verus!
