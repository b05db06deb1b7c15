//! Payload models handed to downstream consumers: raw per-entity and
//! per-skill counter records, per-target breakdowns, and the typed event
//! payload shells.

use vstd::prelude::*;

use crate::stats::CombatStats;
use crate::sums::{lemma_sum_push, lemma_sum_update, sum_ints};
use crate::tables::{Skill, SkillTargetStats};

verus! {

/// The type of metric a window shows.
#[derive(Debug, Clone, Copy, PartialEq, Eq, Structural)]
pub enum MetricType {
    /// Damage per second.
    Dps,
    /// Healing per second.
    Heal,
    /// Damage taken per second.
    Tanked,
}

/// Raw cumulative counters of one category, as stored.
#[derive(Debug, Clone, Copy, PartialEq, Eq, Structural, Default)]
pub struct RawCombatStats {
    /// Sum of all hit values.
    pub total: u128,
    /// Number of hits.
    pub hits: u128,
    /// Number of critical hits.
    pub crit_hits: u128,
    /// Sum of values of critical hits.
    pub crit_total: u128,
    /// Number of lucky hits.
    pub lucky_hits: u128,
    /// Sum of values of lucky hits.
    pub lucky_total: u128,
}

/// Raw cumulative counters of one skill row.
#[derive(Debug, Clone, Copy, PartialEq, Eq, Structural, Default)]
pub struct RawSkillStats {
    /// Sum of all hit values.
    pub total_value: u128,
    /// Number of hits.
    pub hits: u128,
    /// Number of critical hits.
    pub crit_hits: u128,
    /// Sum of values of critical hits.
    pub crit_total_value: u128,
    /// Number of lucky hits.
    pub lucky_hits: u128,
    /// Sum of values of lucky hits.
    pub lucky_total_value: u128,
}

/// Copy the counters of one category into the raw payload shape.
pub fn to_raw_combat_stats(stats: &CombatStats) -> (r: RawCombatStats)
    ensures
        r.total == stats.total,
        r.hits == stats.hits,
        r.crit_hits == stats.crit_hits,
        r.crit_total == stats.crit_total,
        r.lucky_hits == stats.lucky_hits,
        r.lucky_total == stats.lucky_total,
{
    RawCombatStats {
        total: stats.total,
        hits: stats.hits,
        crit_hits: stats.crit_hits,
        crit_total: stats.crit_total,
        lucky_hits: stats.lucky_hits,
        lucky_total: stats.lucky_total,
    }
}

/// Copy the counters of one skill row into the raw payload shape.
pub fn to_raw_skill_stats(skill: &Skill) -> (r: RawSkillStats)
    ensures
        r.total_value == skill.stats.total,
        r.hits == skill.stats.hits,
        r.crit_hits == skill.stats.crit_hits,
        r.crit_total_value == skill.stats.crit_total,
        r.lucky_hits == skill.stats.lucky_hits,
        r.lucky_total_value == skill.stats.lucky_total,
{
    RawSkillStats {
        total_value: skill.stats.total,
        hits: skill.stats.hits,
        crit_hits: skill.stats.crit_hits,
        crit_total_value: skill.stats.crit_total,
        lucky_hits: skill.stats.lucky_hits,
        lucky_total_value: skill.stats.lucky_total,
    }
}

/// Per-target statistics grouped over all skills an owner used on that
/// target.
#[derive(Debug, Clone, PartialEq, Eq)]
pub struct PerTargetStats {
    /// The target entity id.
    pub target_uid: i64,
    /// The target's monster name, when one was captured.
    pub target_name: Option<String>,
    /// Total value dealt to this target over all skills.
    pub total_value: u128,
    /// Counters aggregated over all skills against this target.
    pub damage: RawCombatStats,
}

/// The per-skill breakdown of one target: the (skill, target) rows stored
/// for `target_uid`, in stored order, each copied into the raw payload
/// shape.
pub open spec fn spec_target_skill_rows(s: Seq<SkillTargetStats>, target_uid: i64) -> Seq<
    crate::snapshot::SkillRow,
>
    decreases s.len(),
{
    if s.len() == 0 {
        Seq::<crate::snapshot::SkillRow>::empty()
    } else {
        let rest = spec_target_skill_rows(s.drop_last(), target_uid);
        if s.last().target_id == target_uid {
            rest.push(
                crate::snapshot::SkillRow {
                    skill_id: s.last().skill_id,
                    stats: RawSkillStats {
                        total_value: s.last().stats.total,
                        hits: s.last().stats.hits,
                        crit_hits: s.last().stats.crit_hits,
                        crit_total_value: s.last().stats.crit_total,
                        lucky_hits: s.last().stats.lucky_hits,
                        lucky_total_value: s.last().stats.lucky_total,
                    },
                },
            )
        } else {
            rest
        }
    }
}

/// Extract the per-skill sub-table of one target from the per-(skill,
/// target) rows, per [`spec_target_skill_rows`].
pub fn target_skill_rows(rows: &Vec<SkillTargetStats>, target_uid: i64) -> (r: Vec<
    crate::snapshot::SkillRow,
>)
    ensures
        r@ == spec_target_skill_rows(rows@, target_uid),
{
    let mut out: Vec<crate::snapshot::SkillRow> = Vec::new();
    let n: usize = rows.len();
    let mut i: usize = 0;
    proof {
        assert(rows@.take(0int) =~= Seq::<SkillTargetStats>::empty());
    }
    while i < n
        invariant
            n == rows@.len(),
            0 <= i <= n,
            out@ == spec_target_skill_rows(rows@.take(i as int), target_uid),
        decreases n - i,
    {
        proof {
            assert(rows@.take(i as int + 1).drop_last() =~= rows@.take(i as int));
            assert(rows@.take(i as int + 1).last() == rows@[i as int]);
        }
        let row = &rows[i];
        if row.target_id == target_uid {
            out.push(
                crate::snapshot::SkillRow {
                    skill_id: row.skill_id,
                    stats: RawSkillStats {
                        total_value: row.stats.total,
                        hits: row.stats.hits,
                        crit_hits: row.stats.crit_hits,
                        crit_total_value: row.stats.crit_total,
                        lucky_hits: row.stats.lucky_hits,
                        lucky_total_value: row.stats.lucky_total,
                    },
                },
            );
        }
        i = i + 1;
    }
    proof {
        assert(rows@.take(n as int) =~= rows@);
    }
    out
}

/// The sum of `total` over all rows for `target_uid`.
pub open spec fn spec_target_sum(s: Seq<SkillTargetStats>, target_uid: i64) -> int {
    sum_ints(
        s.map_values(
            |r: SkillTargetStats|
                if r.target_id == target_uid {
                    r.stats.total as int
                } else {
                    0
                },
        ),
    )
}

/// Whether some row mentions `target_uid`.
pub open spec fn spec_has_target(s: Seq<SkillTargetStats>, target_uid: i64) -> bool {
    exists|i: int| 0 <= i < s.len() && (#[trigger] s[i]).target_id == target_uid
}

/// Group per-(skill, target) rows by target.
///
/// The result has one row per target mentioned in the input, each carrying
/// the summed value over all that target's skills (also as `damage.total`);
/// no other targets appear.
pub fn build_per_target_stats(rows: &Vec<SkillTargetStats>) -> (r: Vec<PerTargetStats>)
    requires
        forall|uid: i64| #[trigger] spec_target_sum(rows@, uid) <= u128::MAX,
    ensures
        forall|k: int, l: int| 0 <= k < l < r@.len() ==> r@[k].target_uid != r@[l].target_uid,
        forall|k: int|
            0 <= k < r@.len() ==> spec_has_target(rows@, (#[trigger] r@[k]).target_uid)
                && r@[k].total_value == spec_target_sum(rows@, r@[k].target_uid)
                && r@[k].damage.total == spec_target_sum(rows@, r@[k].target_uid),
        forall|uid: i64|
            spec_has_target(rows@, uid) ==> exists|k: int|
                0 <= k < r@.len() && (#[trigger] r@[k]).target_uid == uid,
{
    let mut out: Vec<PerTargetStats> = Vec::new();
    let n: usize = rows.len();
    let mut i: usize = 0;
    while i < n
        invariant
            n == rows@.len(),
            0 <= i <= n,
            forall|uid: i64| #[trigger] spec_target_sum(rows@, uid) <= u128::MAX,
            forall|k: int, l: int|
                0 <= k < l < out@.len() ==> out@[k].target_uid != out@[l].target_uid,
            forall|k: int|
                0 <= k < out@.len() ==> spec_has_target(
                    rows@.take(i as int),
                    (#[trigger] out@[k]).target_uid,
                ) && out@[k].total_value == spec_target_sum(
                    rows@.take(i as int),
                    out@[k].target_uid,
                ) && out@[k].damage.total == spec_target_sum(
                    rows@.take(i as int),
                    out@[k].target_uid,
                ),
            forall|uid: i64|
                spec_has_target(rows@.take(i as int), uid) ==> exists|k: int|
                    0 <= k < out@.len() && (#[trigger] out@[k]).target_uid == uid,
        decreases n - i,
    {
        let row = &rows[i];
        let ghost pre = rows@.take(i as int);
        let ghost post = rows@.take(i as int + 1);
        proof {
            assert(post =~= pre.push(rows@[i as int]));
            lemma_target_sum_push(pre, rows@[i as int]);
            lemma_target_sum_prefix_le(rows@, i as int + 1, row.target_id);
        }
        let found = find_group_row(&out, row.target_id);
        match found {
            Some(k) => {
                let ghost out0 = out@;
                let updated = PerTargetStats {
                    target_uid: out[k].target_uid,
                    target_name: match (&out[k].target_name, &row.monster_name) {
                        (Some(nm), _) => Some(nm.clone()),
                        (None, Some(nm)) => Some(nm.clone()),
                        (None, None) => None,
                    },
                    total_value: out[k].total_value + row.stats.total,
                    damage: RawCombatStats {
                        total: out[k].damage.total + row.stats.total,
                        hits: add_sat(out[k].damage.hits, row.stats.hits),
                        crit_hits: add_sat(out[k].damage.crit_hits, row.stats.crit_hits),
                        crit_total: add_sat(out[k].damage.crit_total, row.stats.crit_total),
                        lucky_hits: add_sat(out[k].damage.lucky_hits, row.stats.lucky_hits),
                        lucky_total: add_sat(out[k].damage.lucky_total, row.stats.lucky_total),
                    },
                };
                out[k] = updated;
                proof {
                    assert(out@ =~= out0.update(k as int, updated));
                    assert(forall|l: int|
                        0 <= l < out@.len() ==> out@[l].target_uid == out0[l].target_uid);
                    assert forall|l: int|
                        0 <= l < out@.len() implies spec_has_target(
                        post,
                        (#[trigger] out@[l]).target_uid,
                    ) && out@[l].total_value == spec_target_sum(post, out@[l].target_uid)
                        && out@[l].damage.total == spec_target_sum(post, out@[l].target_uid) by {
                        if l == k as int {
                            assert(out@[l].target_uid == row.target_id);
                        } else {
                            assert(out@[l] == out0[l]);
                            assert(out0[l].target_uid != row.target_id);
                        }
                    }
                    assert forall|uid: i64| spec_has_target(post, uid) implies exists|l: int|
                        0 <= l < out@.len() && (#[trigger] out@[l]).target_uid == uid by {
                        if spec_has_target(pre, uid) {
                            let l = choose|l: int|
                                0 <= l < out0.len() && (#[trigger] out0[l]).target_uid == uid;
                            assert(out@[l].target_uid == uid);
                        } else {
                            assert(uid == row.target_id);
                            assert(out@[k as int].target_uid == uid);
                        }
                    }
                }
            },
            None => {
                let ghost out0 = out@;
                out.push(
                    PerTargetStats {
                        target_uid: row.target_id,
                        target_name: match &row.monster_name {
                            Some(nm) => Some(nm.clone()),
                            None => None,
                        },
                        total_value: row.stats.total,
                        damage: RawCombatStats {
                            total: row.stats.total,
                            hits: row.stats.hits,
                            crit_hits: row.stats.crit_hits,
                            crit_total: row.stats.crit_total,
                            lucky_hits: row.stats.lucky_hits,
                            lucky_total: row.stats.lucky_total,
                        },
                    },
                );
                proof {
                    assert(forall|l: int| 0 <= l < out0.len() ==> out@[l] == out0[l]);
                    assert(out@[out0.len() as int].target_uid == row.target_id);
                    // A target with no output row so far has no input row yet.
                    if spec_has_target(pre, row.target_id) {
                        let l = choose|l: int|
                            0 <= l < out0.len() && (#[trigger] out0[l]).target_uid
                                == row.target_id;
                        assert(false);
                    }
                    lemma_target_sum_absent(pre, row.target_id);
                    assert forall|l: int|
                        0 <= l < out@.len() implies spec_has_target(
                        post,
                        (#[trigger] out@[l]).target_uid,
                    ) && out@[l].total_value == spec_target_sum(post, out@[l].target_uid)
                        && out@[l].damage.total == spec_target_sum(post, out@[l].target_uid) by {
                        if l < out0.len() {
                            assert(out@[l] == out0[l]);
                            assert(out0[l].target_uid != row.target_id);
                        }
                    }
                    assert forall|uid: i64| spec_has_target(post, uid) implies exists|l: int|
                        0 <= l < out@.len() && (#[trigger] out@[l]).target_uid == uid by {
                        if spec_has_target(pre, uid) {
                            let l = choose|l: int|
                                0 <= l < out0.len() && (#[trigger] out0[l]).target_uid == uid;
                            assert(out@[l].target_uid == uid);
                        } else {
                            assert(uid == row.target_id);
                            assert(out@[out0.len() as int].target_uid == uid);
                        }
                    }
                }
            },
        }
        i = i + 1;
    }
    proof {
        assert(rows@.take(n as int) =~= rows@);
    }
    out
}

/// Index of the grouped row for `target_uid`, when one exists.
fn find_group_row(out: &Vec<PerTargetStats>, target_uid: i64) -> (r: Option<usize>)
    ensures
        match r {
            Some(k) => k < out@.len() && out@[k as int].target_uid == target_uid,
            None => forall|l: int| 0 <= l < out@.len() ==> out@[l].target_uid != target_uid,
        },
{
    let m: usize = out.len();
    let mut k: usize = 0;
    while k < m
        invariant
            m == out@.len(),
            0 <= k <= m,
            forall|l: int| 0 <= l < k ==> out@[l].target_uid != target_uid,
        decreases m - k,
    {
        if out[k].target_uid == target_uid {
            return Some(k);
        }
        k = k + 1;
    }
    None
}

/// Saturating addition on unsigned 128-bit counters.
fn add_sat(a: u128, b: u128) -> (r: u128)
    ensures
        r == if a + b <= u128::MAX {
            a + b
        } else {
            u128::MAX as int
        },
{
    if a <= u128::MAX - b {
        a + b
    } else {
        u128::MAX
    }
}

/// A target mentioned by no row has a zero grouped sum.
proof fn lemma_target_sum_absent(s: Seq<SkillTargetStats>, uid: i64)
    requires
        !spec_has_target(s, uid),
    ensures
        spec_target_sum(s, uid) == 0,
{
    let g = |r: SkillTargetStats|
        if r.target_id == uid {
            r.stats.total as int
        } else {
            0int
        };
    assert(forall|l: int| 0 <= l < s.len() ==> (#[trigger] s[l]).target_id != uid);
    assert(forall|l: int| 0 <= l < s.len() ==> s.map_values(g)[l] == 0);
    crate::sums::lemma_sum_zero(s.map_values(g));
}

/// A prefix's grouped sum never exceeds the whole sequence's.
proof fn lemma_target_sum_prefix_le(s: Seq<SkillTargetStats>, j: int, uid: i64)
    requires
        0 <= j <= s.len(),
    ensures
        spec_target_sum(s.take(j), uid) <= spec_target_sum(s, uid),
    decreases s.len() - j,
{
    if j == s.len() {
        assert(s.take(j) =~= s);
    } else {
        assert(s.take(j + 1) =~= s.take(j).push(s[j]));
        lemma_target_sum_push(s.take(j), s[j]);
        lemma_target_sum_prefix_le(s, j + 1, uid);
    }
}

/// Appending one row moves each target's grouped sum by that row's value
/// for its own target and leaves every other target's sum unchanged.
proof fn lemma_target_sum_push(s: Seq<SkillTargetStats>, row: SkillTargetStats)
    ensures
        spec_target_sum(s.push(row), row.target_id) == spec_target_sum(s, row.target_id)
            + row.stats.total,
        forall|uid: i64| uid != row.target_id ==> spec_target_sum(s.push(row), uid)
            == spec_target_sum(s, uid),
        forall|uid: i64|
            spec_has_target(s.push(row), uid) == (spec_has_target(s, uid) || uid
                == row.target_id),
{
    let f = |uid: i64|
        s.push(row).map_values(
            |r: SkillTargetStats|
                if r.target_id == uid {
                    r.stats.total as int
                } else {
                    0
                },
        );
    assert forall|uid: i64| true implies #[trigger] spec_target_sum(s.push(row), uid)
        == spec_target_sum(s, uid) + if uid == row.target_id {
        row.stats.total as int
    } else {
        0int
    } by {
        let g = |r: SkillTargetStats|
            if r.target_id == uid {
                r.stats.total as int
            } else {
                0int
            };
        assert(s.push(row).map_values(g) =~= s.map_values(g).push(g(row)));
        lemma_sum_push(s.map_values(g), g(row));
    }
    assert forall|uid: i64| true implies #[trigger] spec_has_target(s.push(row), uid) == (
    spec_has_target(s, uid) || uid == row.target_id) by {
        if spec_has_target(s, uid) {
            let k = choose|k: int| 0 <= k < s.len() && (#[trigger] s[k]).target_id == uid;
            assert(s.push(row)[k].target_id == uid);
        }
        if uid == row.target_id {
            assert(s.push(row)[s.len() as int].target_id == uid);
        }
        if spec_has_target(s.push(row), uid) {
            let k = choose|k: int|
                0 <= k < s.push(row).len() && (#[trigger] s.push(row)[k]).target_id == uid;
            if k < s.len() {
                assert(s[k].target_id == uid);
            }
        }
    }
}

} // verus!

verus! {

/// A buff definition row offered to pickers.
#[derive(Debug, Clone, PartialEq, Eq)]
pub struct BuffDefinition {
    /// The buff's base id.
    pub base_id: i32,
    /// Its display name.
    pub name: String,
    /// Its icon file name.
    pub sprite_file: String,
    /// Extra keywords it can be found under.
    pub search_keywords: Vec<String>,
}

/// A buff name lookup result.
#[derive(Debug, Clone, PartialEq, Eq)]
pub struct BuffNameInfo {
    /// The buff's base id.
    pub base_id: i32,
    /// Its display name.
    pub name: String,
    /// Whether an icon file exists for it.
    pub has_sprite_file: bool,
}

/// The payload of a buff update.
#[derive(Debug, Clone, PartialEq, Eq)]
pub struct BuffUpdatePayload {
    /// The ordered, filtered buff rows.
    pub buffs: Vec<crate::buffs::BuffUpdateState>,
}

/// One panel attribute value.
#[derive(Debug, Clone, Copy, PartialEq, Eq, Structural)]
pub struct PanelAttrState {
    /// The attribute id.
    pub attr_id: i32,
    /// Its value.
    pub value: i32,
}

/// The payload of a panel-attribute update.
#[derive(Debug, Clone, PartialEq, Eq)]
pub struct PanelAttrUpdatePayload {
    /// The attribute values.
    pub attrs: Vec<PanelAttrState>,
}

/// The current fight-resource values.
#[derive(Debug, Clone, PartialEq, Eq)]
pub struct FightResourceState {
    /// The resource values, in wire order.
    pub values: Vec<i64>,
    /// When this state was received, epoch milliseconds.
    pub received_at: i64,
}

/// The payload of a fight-resource update.
#[derive(Debug, Clone, PartialEq, Eq)]
pub struct FightResourceUpdatePayload {
    /// The current resource state.
    pub fight_res: FightResourceState,
}

/// The payload of a boss-death notification.
#[derive(Debug, Clone, PartialEq, Eq)]
pub struct BossDeathPayload {
    /// The dead boss's display name.
    pub boss_name: String,
}

/// The payload of a scene-change notification.
#[derive(Debug, Clone, PartialEq, Eq)]
pub struct SceneChangePayload {
    /// The new scene's display name.
    pub scene_name: String,
}

/// The payload of a player-metrics reset at a segment boundary.
#[derive(Debug, Clone, PartialEq, Eq)]
pub struct PlayerMetricsResetPayload {
    /// The segment's display name, when one is known.
    pub segment_name: Option<String>,
}

/// Progress of a long module calculation.
#[derive(Debug, Clone, Copy, PartialEq, Eq, Structural)]
pub struct ModuleCalcProgressPayload {
    /// Items processed so far.
    pub processed: u64,
    /// Items in total.
    pub total: u64,
}

} // verus!
