//! Data model of the upstream statistics API, and the flattening that turns
//! one per-ship aggregate record into the fixed list of scalar metrics
//! tracked by the percentile estimator.
//!
//! Flattening is a statically enumerated list of `METRIC_COUNT` metrics,
//! each a counter averaged per battle or a ratio between two counters
//! (hit rate, win rate, survival rate). Every metric value is a fixed-point
//! integer scaled by [`crate::VALUE_SCALE`]; a ratio with a zero denominator
//! flattens to zero rather than failing.

use vstd::prelude::*;
use crate::VALUE_SCALE;

verus! {

/// Paging and totals attached to an API reply.
pub struct GenericReplyMeta {
    pub count: Option<u64>,
    pub page_total: Option<u64>,
    pub total: Option<u64>,
    pub limit: Option<u64>,
    pub page: Option<u64>,
}

/// An API-level error envelope (`{"code": 504, "message": "..."}`).
pub struct GenericReplyError {
    pub code: u32,
    pub message: String,
}

/// The common envelope of every API reply: a status string, optional
/// paging metadata, an optional error and the optional payload.
pub struct GenericReply<T> {
    pub status: String,
    pub meta: Option<GenericReplyMeta>,
    pub error: Option<GenericReplyError>,
    pub data: Option<T>,
}

/// Metadata of one ship module from the encyclopedia endpoint.
pub struct ModuleInfo {
    pub name: String,
    pub is_default: bool,
    pub price_xp: u64,
    pub price_credit: u64,
    pub next_ships: Option<Vec<u64>>,
    pub next_modules: Option<Vec<u64>>,
    pub module_id: u64,
    pub module_type: String,
    pub module_id_str: String,
}

/// A player identity as discovered by the account search: the nickname
/// (normalized to lowercase before persisting) and the account id.
#[derive(Clone)]
pub struct PlayerRecord {
    pub nickname: String,
    pub account_id: u64,
}

/// Aggregate counters for one weapon battery.
#[derive(Clone)]
pub struct BatteryStats {
    pub max_frags_battle: u8,
    pub frags: u32,
    pub hits: u32,
    pub shots: u32,
}

/// One per-(account, ship) aggregate of lifetime combat counters, as
/// returned by the detailed-stats endpoint.
#[derive(Clone)]
pub struct DetailedStats {
    pub max_xp: u32,
    pub damage_to_buildings: u32,
    pub main_battery: BatteryStats,
    pub suppressions_count: u32,
    pub max_damage_scouting: u32,
    pub art_agro: u64,
    pub ships_spotted: u32,
    pub second_battery: BatteryStats,
    pub xp: u32,
    pub survived_battles: u32,
    pub dropped_capture_points: u32,
    pub max_damage_dealt_to_buildings: u32,
    pub torpedo_agro: u64,
    pub draws: u32,
    pub battles_since_510: u32,
    pub planes_killed: u32,
    pub battles: u32,
    pub max_ships_spotted: u32,
    pub team_capture_points: u32,
    pub frags: u32,
    pub damage_scouting: u32,
    pub max_total_agro: u32,
    pub max_frags_battle: u32,
    pub capture_points: u32,
    pub ramming: BatteryStats,
    pub torpedoes: BatteryStats,
    pub aircraft: BatteryStats,
    pub survived_wins: u32,
    pub max_damage_dealt: u32,
    pub wins: u32,
    pub losses: u32,
    pub damage_dealt: u32,
    pub max_planes_killed: u32,
    pub max_suppressions_count: u32,
    pub team_dropped_capture_points: u32,
    pub battles_since_512: u32,
}

/// The detailed-stats payload for one ship: the pvp aggregate plus
/// bookkeeping fields.
#[derive(Clone)]
pub struct DetailedStatTypes {
    pub pvp: DetailedStats,
    pub last_battle_time: u64,
    pub account_id: u64,
    pub distance: u64,
    pub updated_at: u64,
    pub battles: u64,
    pub ship_id: u64,
}

/// Number of derived scalar metrics one record flattens into.
pub const METRIC_COUNT: usize = 30;

/// The scaled ratio `c / d`, in `VALUE_SCALE` ticks; zero when the
/// denominator is zero.
pub open spec fn sratio(c: u32, d: u32) -> u64 {
    if d == 0 {
        0u64
    } else {
        (c as int * VALUE_SCALE as int / d as int) as u64
    }
}

/// The four metrics derived from one battery: per-battle frags, shots and
/// hits, plus the hit rate (hits over shots).
pub open spec fn battery_flat(b: BatteryStats, battles: u32) -> Seq<u64> {
    seq![
        sratio(b.frags, battles),
        sratio(b.shots, battles),
        sratio(b.hits, battles),
        sratio(b.hits, b.shots),
    ]
}

/// The value of metric `i` derived from one record: each battery's four
/// metrics in order (main, secondary, torpedoes, ramming, aircraft),
/// followed by the per-battle averages and the two record-level rates
/// (survival rate among wins, win rate).
pub open spec fn flat_value(s: DetailedStats, i: int) -> u64 {
    if i < 4 {
        battery_flat(s.main_battery, s.battles)[i]
    } else if i < 8 {
        battery_flat(s.second_battery, s.battles)[i - 4]
    } else if i < 12 {
        battery_flat(s.torpedoes, s.battles)[i - 8]
    } else if i < 16 {
        battery_flat(s.ramming, s.battles)[i - 12]
    } else if i < 20 {
        battery_flat(s.aircraft, s.battles)[i - 16]
    } else if i == 20 {
        sratio(s.xp, s.battles)
    } else if i == 21 {
        sratio(s.capture_points, s.battles)
    } else if i == 22 {
        sratio(s.planes_killed, s.battles)
    } else if i == 23 {
        sratio(s.survived_wins, s.battles)
    } else if i == 24 {
        sratio(s.damage_scouting, s.battles)
    } else if i == 25 {
        sratio(s.damage_dealt, s.battles)
    } else if i == 26 {
        sratio(s.ships_spotted, s.battles)
    } else if i == 27 {
        sratio(s.frags, s.battles)
    } else if i == 28 {
        sratio(s.survived_wins, s.wins)
    } else {
        sratio(s.wins, s.battles)
    }
}

/// The full flattened metric vector of one record.
pub open spec fn flatten(s: DetailedStats) -> Seq<u64> {
    Seq::new(METRIC_COUNT as nat, |i: int| flat_value(s, i))
}

/// The dotted metric key of metric `i`, matching the layout of
/// [`flat_value`].
pub open spec fn spec_metric_name(i: int) -> Seq<char> {
    if i == 0 {
        "main_battery.frags"@
    } else if i == 1 {
        "main_battery.shots"@
    } else if i == 2 {
        "main_battery.hits"@
    } else if i == 3 {
        "main_battery.hitrate"@
    } else if i == 4 {
        "second_battery.frags"@
    } else if i == 5 {
        "second_battery.shots"@
    } else if i == 6 {
        "second_battery.hits"@
    } else if i == 7 {
        "second_battery.hitrate"@
    } else if i == 8 {
        "torpedoes.frags"@
    } else if i == 9 {
        "torpedoes.shots"@
    } else if i == 10 {
        "torpedoes.hits"@
    } else if i == 11 {
        "torpedoes.hitrate"@
    } else if i == 12 {
        "ramming.frags"@
    } else if i == 13 {
        "ramming.shots"@
    } else if i == 14 {
        "ramming.hits"@
    } else if i == 15 {
        "ramming.hitrate"@
    } else if i == 16 {
        "aircraft.frags"@
    } else if i == 17 {
        "aircraft.shots"@
    } else if i == 18 {
        "aircraft.hits"@
    } else if i == 19 {
        "aircraft.hitrate"@
    } else if i == 20 {
        "xp"@
    } else if i == 21 {
        "capture_points"@
    } else if i == 22 {
        "planes_killed"@
    } else if i == 23 {
        "survived_wins"@
    } else if i == 24 {
        "damage_scouting"@
    } else if i == 25 {
        "damage_dealt"@
    } else if i == 26 {
        "ships_spotted"@
    } else if i == 27 {
        "frags"@
    } else if i == 28 {
        "win_surviverate"@
    } else {
        "winrate"@
    }
}

/// The dotted metric key of metric `i`.
pub fn metric_name(i: usize) -> (r: &'static str)
    requires
        i < METRIC_COUNT,
    ensures
        r@ == spec_metric_name(i as int),
{
    if i == 0 {
        "main_battery.frags"
    } else if i == 1 {
        "main_battery.shots"
    } else if i == 2 {
        "main_battery.hits"
    } else if i == 3 {
        "main_battery.hitrate"
    } else if i == 4 {
        "second_battery.frags"
    } else if i == 5 {
        "second_battery.shots"
    } else if i == 6 {
        "second_battery.hits"
    } else if i == 7 {
        "second_battery.hitrate"
    } else if i == 8 {
        "torpedoes.frags"
    } else if i == 9 {
        "torpedoes.shots"
    } else if i == 10 {
        "torpedoes.hits"
    } else if i == 11 {
        "torpedoes.hitrate"
    } else if i == 12 {
        "ramming.frags"
    } else if i == 13 {
        "ramming.shots"
    } else if i == 14 {
        "ramming.hits"
    } else if i == 15 {
        "ramming.hitrate"
    } else if i == 16 {
        "aircraft.frags"
    } else if i == 17 {
        "aircraft.shots"
    } else if i == 18 {
        "aircraft.hits"
    } else if i == 19 {
        "aircraft.hitrate"
    } else if i == 20 {
        "xp"
    } else if i == 21 {
        "capture_points"
    } else if i == 22 {
        "planes_killed"
    } else if i == 23 {
        "survived_wins"
    } else if i == 24 {
        "damage_scouting"
    } else if i == 25 {
        "damage_dealt"
    } else if i == 26 {
        "ships_spotted"
    } else if i == 27 {
        "frags"
    } else if i == 28 {
        "win_surviverate"
    } else {
        "winrate"
    }
}

/// The scaled ratio `c / d` as executable code.
fn scaled_ratio(c: u32, d: u32) -> (r: u64)
    ensures
        r == sratio(c, d),
{
    if d == 0 {
        0
    } else {
        (c as u64) * VALUE_SCALE / (d as u64)
    }
}

impl BatteryStats {
    /// Append this battery's four derived metrics to `out`.
    pub fn into_map(&self, out: &mut Vec<u64>, battles: u32)
        ensures
            final(out)@ == old(out)@ + battery_flat(*self, battles),
    {
        out.push(scaled_ratio(self.frags, battles));
        out.push(scaled_ratio(self.shots, battles));
        out.push(scaled_ratio(self.hits, battles));
        out.push(scaled_ratio(self.hits, self.shots));
        proof {
            assert(out@ =~= old(out)@ + battery_flat(*self, battles));
        }
    }
}

impl DetailedStats {
    /// Flatten this record into its `METRIC_COUNT` derived metric values,
    /// indexed as [`flat_value`] lays them out.
    pub fn into_map(&self) -> (r: Vec<u64>)
        ensures
            r@ == flatten(*self),
            r@.len() == METRIC_COUNT,
    {
        let mut m: Vec<u64> = Vec::new();
        self.main_battery.into_map(&mut m, self.battles);
        self.second_battery.into_map(&mut m, self.battles);
        self.torpedoes.into_map(&mut m, self.battles);
        self.ramming.into_map(&mut m, self.battles);
        self.aircraft.into_map(&mut m, self.battles);
        m.push(scaled_ratio(self.xp, self.battles));
        m.push(scaled_ratio(self.capture_points, self.battles));
        m.push(scaled_ratio(self.planes_killed, self.battles));
        m.push(scaled_ratio(self.survived_wins, self.battles));
        m.push(scaled_ratio(self.damage_scouting, self.battles));
        m.push(scaled_ratio(self.damage_dealt, self.battles));
        m.push(scaled_ratio(self.ships_spotted, self.battles));
        m.push(scaled_ratio(self.frags, self.battles));
        m.push(scaled_ratio(self.survived_wins, self.wins));
        m.push(scaled_ratio(self.wins, self.battles));
        proof {
            assert(m@ =~= flatten(*self));
        }
        m
    }
}

} // verus!
