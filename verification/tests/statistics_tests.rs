use wows_player_stats::statistics::StatsHistogram;
use wows_player_stats::wows_data::{BatteryStats, DetailedStats, metric_name, METRIC_COUNT};

fn battery(frags: u32, shots: u32, hits: u32) -> BatteryStats {
    BatteryStats { max_frags_battle: 0, frags, hits, shots }
}

fn record(battles: u32, wins: u32, damage_dealt: u32, mb_shots: u32, mb_hits: u32) -> DetailedStats {
    DetailedStats {
        max_xp: 0,
        damage_to_buildings: 0,
        main_battery: battery(0, mb_shots, mb_hits),
        suppressions_count: 0,
        max_damage_scouting: 0,
        art_agro: 0,
        ships_spotted: 0,
        second_battery: battery(0, 0, 0),
        xp: 0,
        survived_battles: 0,
        dropped_capture_points: 0,
        max_damage_dealt_to_buildings: 0,
        torpedo_agro: 0,
        draws: 0,
        battles_since_510: 0,
        planes_killed: 0,
        battles,
        max_ships_spotted: 0,
        team_capture_points: 0,
        frags: 0,
        damage_scouting: 0,
        max_total_agro: 0,
        max_frags_battle: 0,
        capture_points: 0,
        ramming: battery(0, 0, 0),
        torpedoes: battery(0, 0, 0),
        aircraft: battery(0, 0, 0),
        survived_wins: 0,
        max_damage_dealt: 0,
        wins,
        losses: battles - wins,
        damage_dealt,
        max_planes_killed: 0,
        max_suppressions_count: 0,
        team_dropped_capture_points: 0,
        battles_since_512: 0,
    }
}

fn index_of(name: &str) -> usize {
    for i in 0..METRIC_COUNT {
        if metric_name(i) == name {
            return i;
        }
    }
    panic!("unknown metric {}", name);
}

#[test]
fn flattening_yields_per_battle_averages_and_ratios() {
    // battles=10, wins=6, damage_dealt=100000, main battery 40/100 hits:
    // winrate 0.6, damage_dealt 10000 per battle, hitrate 0.4.
    let r = record(10, 6, 100_000, 100, 40);
    let vals = r.into_map();
    assert_eq!(vals.len(), METRIC_COUNT);
    assert_eq!(vals[index_of("winrate")], 600_000);
    assert_eq!(vals[index_of("damage_dealt")], 10_000_000_000);
    assert_eq!(vals[index_of("main_battery.hitrate")], 400_000);
}

#[test]
fn zero_battles_flattens_to_zero() {
    let r = record(0, 0, 12_345, 0, 0);
    let vals = r.into_map();
    for i in 0..METRIC_COUNT {
        assert_eq!(vals[i], 0);
    }
}

#[test]
fn percentiles_after_increment_stay_in_range() {
    // Incrementing and querying the same record gives, for every derived
    // metric, a percentile within [0, 100]; with exactly one sample each
    // metric ranks as the sole, highest data point.
    let mut sh = StatsHistogram::new();
    let r = record(10, 6, 100_000, 100, 40);
    sh.increment(100, &r);
    let ps = sh.get_percentiles(100, &r);
    assert_eq!(ps.len(), METRIC_COUNT);
    for i in 0..METRIC_COUNT {
        assert!(ps[i] <= 100_000);
        assert_eq!(ps[i], 99_951);
    }
}

#[test]
fn unknown_ship_answers_zero_everywhere() {
    // A never-seen ship gives 0.0 for every key rather than failing.
    let mut sh = StatsHistogram::new();
    let r = record(10, 6, 100_000, 100, 40);
    sh.increment(100, &r);
    let ps = sh.get_percentiles(999, &r);
    assert_eq!(ps.len(), METRIC_COUNT);
    for i in 0..METRIC_COUNT {
        assert_eq!(ps[i], 0);
    }
}

#[test]
fn median_of_a_thousand_records_ranks_near_fifty() {
    // 1000 records with damage spread uniformly; the median record's
    // damage percentile lands near 50.
    let mut sh = StatsHistogram::new();
    for i in 1..=1000u32 {
        let r = record(10, 6, i * 1_000, 100, 40);
        sh.increment(7, &r);
    }
    let median = record(10, 6, 500_000, 100, 40);
    let ps = sh.get_percentiles(7, &median);
    let p = ps[index_of("damage_dealt")];
    assert!(p >= 48_000, "median percentile too low: {}", p);
    assert!(p <= 52_000, "median percentile too high: {}", p);
}
