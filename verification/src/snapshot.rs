//! Snapshot building: the encounter header with boss health, the per-player
//! windows for each metric, the per-skill windows, and the emission
//! throttle that holds publications to the configured cadence.

use vstd::prelude::*;
use vstd::seq_lib::group_to_multiset_ensures;
use vstd::string::StringExecFns;

use crate::encounter::{Encounter, find_entity};
use crate::entity::{ATTR_CUR_HP, ATTR_MAX_HP, Entity, EntityType, spec_attr_int};
use crate::models::{MetricType, RawCombatStats, RawSkillStats};
use crate::stats::CombatStats;
use crate::tables::{Skill, find_skill};

verus! {

broadcast use group_to_multiset_ensures;

/// Health of one boss for the header.
#[derive(Debug, Clone, PartialEq, Eq)]
pub struct BossHealth {
    /// The boss entity id.
    pub uid: i64,
    /// The boss's display name: its entity name, else the packet monster
    /// name, else empty (rendered as a uid fallback downstream).
    pub name: String,
    /// Its current HP attribute, when known.
    pub current_hp: Option<i64>,
    /// Its maximum HP attribute, when known.
    pub max_hp: Option<i64>,
}

/// The encounter header of one snapshot.
#[derive(Debug, Clone, PartialEq, Eq)]
pub struct HeaderInfo {
    /// Scope damage: all character damage, or boss-only when so configured.
    pub total_dmg: u128,
    /// Milliseconds from fight start to the last combat packet.
    pub elapsed_ms: u64,
    /// When the fight started, epoch milliseconds; zero before combat.
    pub fight_start_timestamp_ms: u64,
    /// All bosses with any HP attribute known.
    pub bosses: Vec<BossHealth>,
    /// The scene id, when recognised.
    pub scene_id: Option<i32>,
    /// The scene's display name.
    pub scene_name: Option<String>,
}

/// One row of a players window.
#[derive(Debug, Clone, PartialEq, Eq)]
pub struct PlayerRow {
    /// The player's entity id.
    pub uid: i64,
    /// The player's stored name; may be empty.
    pub name: String,
    /// Class id.
    pub class_id: i32,
    /// Class specialisation id.
    pub class_spec: i32,
    /// Ability score.
    pub ability_score: i32,
    /// The counters of the window's metric.
    pub stats: RawCombatStats,
    /// Accumulated active damage time in milliseconds.
    pub active_dmg_time_ms: u64,
    /// Damage dealt to bosses only.
    pub boss_dmg: u128,
    /// Current HP attribute, when known.
    pub current_hp: Option<i64>,
    /// Maximum HP attribute, when known.
    pub max_hp: Option<i64>,
}

/// A players window: one row per participating character, sorted by total
/// descending.
#[derive(Debug, Clone, PartialEq, Eq)]
pub struct PlayersWindow {
    /// The rows, best first.
    pub player_rows: Vec<PlayerRow>,
}

/// One row of a skills window.
#[derive(Debug, Clone, Copy, PartialEq, Eq, Structural)]
pub struct SkillRow {
    /// The skill id.
    pub skill_id: i64,
    /// The counters of this skill.
    pub stats: RawSkillStats,
}

/// A skills window for one player and metric: the player's own row plus
/// one row per skill, sorted by total descending.
#[derive(Debug, Clone, PartialEq, Eq)]
pub struct SkillsWindow {
    /// The player the window belongs to.
    pub curr_player: Vec<PlayerRow>,
    /// The skill rows, best first.
    pub skill_rows: Vec<SkillRow>,
}

/// The counters an entity holds for a metric.
pub open spec fn spec_metric_stats(e: Entity, metric: MetricType) -> CombatStats {
    match metric {
        MetricType::Dps => e.damage,
        MetricType::Heal => e.healing,
        MetricType::Tanked => e.taken,
    }
}

/// The per-skill table an entity holds for a metric.
pub open spec fn spec_metric_skills(e: Entity, metric: MetricType) -> Seq<Skill> {
    match metric {
        MetricType::Dps => e.skill_uid_to_dmg_skill@,
        MetricType::Heal => e.skill_uid_to_heal_skill@,
        MetricType::Tanked => e.skill_uid_to_taken_skill@,
    }
}

/// Whether an entity takes part in the window for a metric: a character
/// with at least one skill row there.
pub open spec fn spec_in_window(e: Entity, metric: MetricType) -> bool {
    e.entity_type == EntityType::Character && spec_metric_skills(e, metric).len() > 0
}

/// Whether a metric has no scope data yet: the damage window is gated on
/// the encounter damage total, the heal window on the healing total, and
/// the tanked window on the damage taken by character entities. A window
/// whose scope total is zero is published empty.
pub open spec fn spec_window_scope_zero(enc: Encounter, metric: MetricType) -> bool {
    match metric {
        MetricType::Dps => enc.total_dmg == 0,
        MetricType::Heal => enc.total_heal == 0,
        MetricType::Tanked => crate::sums::sum_ints(
            crate::encounter::char_taken_totals(enc.entity_uid_to_entity@),
        ) == 0,
    }
}

/// The window row describing an entity under a metric. The active-time
/// tracker and the boss-only split belong to damage alone; heal and tanked
/// rows carry zeroes there.
pub open spec fn spec_player_row(e: Entity, metric: MetricType) -> PlayerRow {
    let st = spec_metric_stats(e, metric);
    PlayerRow {
        uid: e.entity_id,
        name: e.name,
        class_id: e.class_id,
        class_spec: e.class_spec,
        ability_score: e.ability_score,
        stats: RawCombatStats {
            total: st.total,
            hits: st.hits,
            crit_hits: st.crit_hits,
            crit_total: st.crit_total,
            lucky_hits: st.lucky_hits,
            lucky_total: st.lucky_total,
        },
        active_dmg_time_ms: if metric == MetricType::Dps {
            e.active_dmg_time_ms
        } else {
            0
        },
        boss_dmg: if metric == MetricType::Dps {
            e.damage_boss_only.total
        } else {
            0
        },
        current_hp: spec_attr_int(e.attrs@, ATTR_CUR_HP),
        max_hp: spec_attr_int(e.attrs@, ATTR_MAX_HP),
    }
}

/// Rows are ordered by their total, descending.
pub open spec fn spec_rows_sorted_desc(s: Seq<PlayerRow>) -> bool {
    forall|k: int, l: int| 0 <= k <= l < s.len() ==> s[k].stats.total >= s[l].stats.total
}

/// Skill rows are ordered by their total, descending.
pub open spec fn spec_skill_rows_sorted_desc(s: Seq<SkillRow>) -> bool {
    forall|k: int, l: int| 0 <= k <= l < s.len() ==> s[k].stats.total_value
        >= s[l].stats.total_value
}

impl Encounter {
    /// Build the window row for the entity at `idx` under `metric`.
    fn build_player_row(&self, idx: usize, metric: MetricType) -> (r: PlayerRow)
        requires
            idx < self.entity_uid_to_entity@.len(),
        ensures
            r == spec_player_row(self.entity_uid_to_entity@[idx as int], metric),
    {
        let e = &self.entity_uid_to_entity[idx];
        let st: CombatStats = match metric {
            MetricType::Dps => e.damage,
            MetricType::Heal => e.healing,
            MetricType::Tanked => e.taken,
        };
        PlayerRow {
            uid: e.entity_id,
            name: e.name.clone(),
            class_id: e.class_id,
            class_spec: e.class_spec,
            ability_score: e.ability_score,
            stats: RawCombatStats {
                total: st.total,
                hits: st.hits,
                crit_hits: st.crit_hits,
                crit_total: st.crit_total,
                lucky_hits: st.lucky_hits,
                lucky_total: st.lucky_total,
            },
            active_dmg_time_ms: match metric {
                MetricType::Dps => e.active_dmg_time_ms,
                _ => 0,
            },
            boss_dmg: match metric {
                MetricType::Dps => e.damage_boss_only.total,
                _ => 0,
            },
            current_hp: e.attr_int(ATTR_CUR_HP),
            max_hp: e.attr_int(ATTR_MAX_HP),
        }
    }

    /// Build the players window for a metric: empty while the metric has
    /// no scope data; otherwise one row per character entity with any
    /// skill activity there, each row exactly describing its entity,
    /// sorted by total descending.
    pub fn generate_players_window(&self, metric: MetricType) -> (r: PlayersWindow)
        requires
            self.wf(),
        ensures
            spec_rows_sorted_desc(r.player_rows@),
            spec_window_scope_zero(*self, metric) ==> r.player_rows@.len() == 0,
            forall|k: int|
                0 <= k < r.player_rows@.len() ==> {
                    let row = #[trigger] r.player_rows@[k];
                    &&& find_entity(self.entity_uid_to_entity@, row.uid) is Some
                    &&& spec_in_window(
                        find_entity(self.entity_uid_to_entity@, row.uid)->Some_0,
                        metric,
                    )
                    &&& row == spec_player_row(
                        find_entity(self.entity_uid_to_entity@, row.uid)->Some_0,
                        metric,
                    )
                },
            !spec_window_scope_zero(*self, metric) ==> forall|i: int|
                0 <= i < self.entity_uid_to_entity@.len() && spec_in_window(
                    #[trigger] self.entity_uid_to_entity@[i],
                    metric,
                ) ==> exists|k: int|
                    0 <= k < r.player_rows@.len() && (#[trigger] r.player_rows@[k]).uid
                        == self.entity_uid_to_entity@[i].entity_id,
    {
        let scope_zero: bool = match metric {
            MetricType::Dps => self.total_dmg == 0,
            MetricType::Heal => self.total_heal == 0,
            MetricType::Tanked => !self.taken_scope_positive(),
        };
        if scope_zero {
            return PlayersWindow { player_rows: Vec::new() };
        }
        let ghost s = self.entity_uid_to_entity@;
        let mut rows: Vec<PlayerRow> = Vec::new();
        let n: usize = self.entity_uid_to_entity.len();
        let mut i: usize = 0;
        while i < n
            invariant
                n == self.entity_uid_to_entity@.len(),
                s == self.entity_uid_to_entity@,
                self.wf(),
                0 <= i <= n,
                forall|k: int|
                    0 <= k < rows@.len() ==> {
                        let row = #[trigger] rows@[k];
                        &&& find_entity(s, row.uid) is Some
                        &&& spec_in_window(find_entity(s, row.uid)->Some_0, metric)
                        &&& row == spec_player_row(find_entity(s, row.uid)->Some_0, metric)
                    },
                forall|j: int|
                    0 <= j < i && spec_in_window(#[trigger] s[j], metric) ==> exists|k: int|
                        0 <= k < rows@.len() && (#[trigger] rows@[k]).uid == s[j].entity_id,
            decreases n - i,
        {
            let e = &self.entity_uid_to_entity[i];
            let is_char = e.entity_type == EntityType::Character;
            let active = match metric {
                MetricType::Dps => e.skill_uid_to_dmg_skill.len() > 0,
                MetricType::Heal => e.skill_uid_to_heal_skill.len() > 0,
                MetricType::Tanked => e.skill_uid_to_taken_skill.len() > 0,
            };
            if is_char && active {
                let ghost rows0 = rows@;
                let row = self.build_player_row(i, metric);
                proof {
                    crate::encounter::lemma_find_entity_at(s, i as int);
                }
                rows.push(row);
                proof {
                    assert(forall|k: int| 0 <= k < rows0.len() ==> rows@[k] == rows0[k]);
                    assert(rows@[rows0.len() as int] == row);
                }
            }
            i = i + 1;
        }
        let sorted = sort_player_rows_desc(rows);
        proof {
            assert forall|k: int|
                0 <= k < sorted@.len() implies {
                let row = #[trigger] sorted@[k];
                &&& find_entity(s, row.uid) is Some
                &&& spec_in_window(find_entity(s, row.uid)->Some_0, metric)
                &&& row == spec_player_row(find_entity(s, row.uid)->Some_0, metric)
            } by {
                assert(sorted@.to_multiset().count(sorted@[k]) > 0);
                assert(rows@.contains(sorted@[k]));
            }
            assert forall|i2: int|
                0 <= i2 < s.len() && spec_in_window(#[trigger] s[i2], metric) implies exists|k: int|
                0 <= k < sorted@.len() && (#[trigger] sorted@[k]).uid == s[i2].entity_id by {
                let k0 = choose|k0: int|
                    0 <= k0 < rows@.len() && (#[trigger] rows@[k0]).uid == s[i2].entity_id;
                assert(rows@.to_multiset().count(rows@[k0]) > 0);
                assert(sorted@.contains(rows@[k0]));
                let k1 = choose|k1: int| 0 <= k1 < sorted@.len() && sorted@[k1] == rows@[k0];
                assert(sorted@[k1].uid == s[i2].entity_id);
            }
        }
        PlayersWindow { player_rows: sorted }
    }

    /// Build the skills window for one player and metric: `None` when the
    /// player is unknown; otherwise one row per skill in the player's
    /// table for that metric, sorted by total descending, plus the
    /// player's own row.
    pub fn generate_skills_window(&self, player_uid: i64, metric: MetricType) -> (r: Option<
        SkillsWindow,
    >)
        requires
            self.wf(),
        ensures
            r is Some == find_entity(self.entity_uid_to_entity@, player_uid) is Some,
            r is Some ==> {
                let e = find_entity(self.entity_uid_to_entity@, player_uid)->Some_0;
                let w = r->Some_0;
                &&& w.curr_player@.len() == 1
                &&& w.curr_player@[0] == spec_player_row(e, metric)
                &&& spec_skill_rows_sorted_desc(w.skill_rows@)
                &&& w.skill_rows@.len() == spec_metric_skills(e, metric).len()
                &&& (forall|k: int|
                    0 <= k < w.skill_rows@.len() ==> {
                        let row = #[trigger] w.skill_rows@[k];
                        find_skill(spec_metric_skills(e, metric), row.skill_id) == Some(
                            CombatStats {
                                total: row.stats.total_value,
                                hits: row.stats.hits,
                                crit_hits: row.stats.crit_hits,
                                crit_total: row.stats.crit_total_value,
                                lucky_hits: row.stats.lucky_hits,
                                lucky_total: row.stats.lucky_total_value,
                            },
                        )
                    })
                &&& (forall|j: int|
                    0 <= j < spec_metric_skills(e, metric).len() ==> exists|k: int|
                        0 <= k < w.skill_rows@.len() && (#[trigger] w.skill_rows@[k]).skill_id
                            == (#[trigger] spec_metric_skills(e, metric)[j]).skill_id)
            },
    {
        let ghost s = self.entity_uid_to_entity@;
        let idx_opt = self.entity_index_of(player_uid);
        let idx = match idx_opt {
            Some(i) => i,
            None => {
                return None;
            },
        };
        let curr = self.build_player_row(idx, metric);
        let ghost e = s[idx as int];
        let mut rows: Vec<SkillRow> = Vec::new();
        let table_len: usize = match metric {
            MetricType::Dps => self.entity_uid_to_entity[idx].skill_uid_to_dmg_skill.len(),
            MetricType::Heal => self.entity_uid_to_entity[idx].skill_uid_to_heal_skill.len(),
            MetricType::Tanked => self.entity_uid_to_entity[idx].skill_uid_to_taken_skill.len(),
        };
        let mut j: usize = 0;
        while j < table_len
            invariant
                idx < self.entity_uid_to_entity@.len(),
                s == self.entity_uid_to_entity@,
                e == s[idx as int],
                e.wf(),
                table_len == spec_metric_skills(e, metric).len(),
                0 <= j <= table_len,
                rows@.len() == j,
                forall|k: int|
                    0 <= k < j ==> {
                        let row = #[trigger] rows@[k];
                        let sk = spec_metric_skills(e, metric)[k];
                        row.skill_id == sk.skill_id && row.stats.total_value == sk.stats.total
                            && row.stats.hits == sk.stats.hits && row.stats.crit_hits
                            == sk.stats.crit_hits && row.stats.crit_total_value
                            == sk.stats.crit_total && row.stats.lucky_hits == sk.stats.lucky_hits
                            && row.stats.lucky_total_value == sk.stats.lucky_total
                    },
            decreases table_len - j,
        {
            let sk: Skill = match metric {
                MetricType::Dps => self.entity_uid_to_entity[idx].skill_uid_to_dmg_skill[j],
                MetricType::Heal => self.entity_uid_to_entity[idx].skill_uid_to_heal_skill[j],
                MetricType::Tanked => self.entity_uid_to_entity[idx].skill_uid_to_taken_skill[j],
            };
            rows.push(
                SkillRow {
                    skill_id: sk.skill_id,
                    stats: RawSkillStats {
                        total_value: sk.stats.total,
                        hits: sk.stats.hits,
                        crit_hits: sk.stats.crit_hits,
                        crit_total_value: sk.stats.crit_total,
                        lucky_hits: sk.stats.lucky_hits,
                        lucky_total_value: sk.stats.lucky_total,
                    },
                },
            );
            j = j + 1;
        }
        let ghost unsorted = rows@;
        let sorted = sort_skill_rows_desc(rows);
        proof {
            reveal(crate::entity::Entity::wf);
            assert forall|k: int|
                0 <= k < sorted@.len() implies {
                let row = #[trigger] sorted@[k];
                find_skill(spec_metric_skills(e, metric), row.skill_id) == Some(
                    CombatStats {
                        total: row.stats.total_value,
                        hits: row.stats.hits,
                        crit_hits: row.stats.crit_hits,
                        crit_total: row.stats.crit_total_value,
                        lucky_hits: row.stats.lucky_hits,
                        lucky_total: row.stats.lucky_total_value,
                    },
                )
            } by {
                assert(sorted@.to_multiset().count(sorted@[k]) > 0);
                assert(unsorted.contains(sorted@[k]));
                let k0 = choose|k0: int| 0 <= k0 < unsorted.len() && unsorted[k0] == sorted@[k];
                lemma_find_metric_skill_at(e, metric, k0);
            }
            assert forall|j2: int|
                0 <= j2 < spec_metric_skills(e, metric).len() implies exists|k: int|
                0 <= k < sorted@.len() && (#[trigger] sorted@[k]).skill_id == (
                #[trigger] spec_metric_skills(e, metric)[j2]).skill_id by {
                assert(unsorted.to_multiset().count(unsorted[j2]) > 0);
                assert(sorted@.contains(unsorted[j2]));
                let k1 = choose|k1: int| 0 <= k1 < sorted@.len() && sorted@[k1] == unsorted[j2];
                assert(sorted@[k1].skill_id == spec_metric_skills(e, metric)[j2].skill_id);
            }
        }
        let mut curr_player: Vec<PlayerRow> = Vec::new();
        curr_player.push(curr);
        proof {
            assert(find_entity(s, player_uid)->Some_0 == e);
            assert(curr == spec_player_row(e, metric));
            assert(curr_player@.len() == 1 && curr_player@[0] == curr);
            assert(spec_skill_rows_sorted_desc(sorted@));
            assert(sorted@.to_multiset().len() == sorted@.len());
            assert(unsorted.to_multiset().len() == unsorted.len());
            assert(sorted@.len() == spec_metric_skills(e, metric).len());
        }
        Some(SkillsWindow { curr_player, skill_rows: sorted })
    }

    /// Whether any character entity has taken damage: exactly when the
    /// tanked scope total is positive.
    fn taken_scope_positive(&self) -> (r: bool)
        requires
            self.wf(),
        ensures
            r == (crate::sums::sum_ints(
                crate::encounter::char_taken_totals(self.entity_uid_to_entity@),
            ) != 0),
    {
        let ghost s = self.entity_uid_to_entity@;
        let ghost totals = crate::encounter::char_taken_totals(s);
        let n: usize = self.entity_uid_to_entity.len();
        let mut i: usize = 0;
        while i < n
            invariant
                n == self.entity_uid_to_entity@.len(),
                s == self.entity_uid_to_entity@,
                totals == crate::encounter::char_taken_totals(s),
                0 <= i <= n,
                forall|j: int| 0 <= j < i ==> totals[j] == 0,
            decreases n - i,
        {
            let e = &self.entity_uid_to_entity[i];
            if e.entity_type == EntityType::Character && e.taken.total > 0 {
                proof {
                    assert(totals[i as int] == e.taken.total as int);
                    assert(forall|j: int| 0 <= j < totals.len() ==> totals[j] >= 0);
                    crate::sums::lemma_sum_elem_le(totals, i as int);
                }
                return true;
            }
            i = i + 1;
        }
        proof {
            assert(forall|j: int| 0 <= j < totals.len() ==> totals[j] == 0);
            crate::sums::lemma_sum_zero(totals);
        }
        false
    }

    /// Index of the entity with `id`, when present (public lookup used by
    /// the window builders).
    fn entity_index_of(&self, id: i64) -> (r: Option<usize>)
        requires
            self.wf(),
        ensures
            match r {
                Some(i) => i < self.entity_uid_to_entity@.len()
                    && self.entity_uid_to_entity@[i as int].entity_id == id && find_entity(
                    self.entity_uid_to_entity@,
                    id,
                ) == Some(self.entity_uid_to_entity@[i as int]),
                None => find_entity(self.entity_uid_to_entity@, id) is None,
            },
    {
        let n: usize = self.entity_uid_to_entity.len();
        let mut i: usize = 0;
        while i < n
            invariant
                n == self.entity_uid_to_entity@.len(),
                self.wf(),
                0 <= i <= n,
                forall|j: int|
                    0 <= j < i ==> (#[trigger] self.entity_uid_to_entity@[j]).entity_id != id,
            decreases n - i,
        {
            if self.entity_uid_to_entity[i].entity_id == id {
                proof {
                    crate::encounter::lemma_find_entity_at(self.entity_uid_to_entity@, i as int);
                }
                return Some(i);
            }
            i = i + 1;
        }
        proof {
            lemma_no_id_no_find(self.entity_uid_to_entity@, id);
        }
        None
    }

    /// Build the header per [`spec_header_ok`]: scope damage, the fight
    /// clock, and each boss with any HP attribute known, sorted ascending
    /// by uid, with HP pinned to zero for bosses already promoted dead and
    /// for live death candidates.
    pub fn generate_header_info(&self, boss_only: bool, dead_uids: &Vec<i64>) -> (r: HeaderInfo)
        requires
            self.wf(),
        ensures
            spec_header_ok(*self, boss_only, dead_uids@, r),
    {
        let ghost s = self.entity_uid_to_entity@;
        let dps_ok = self.scope_dps_ok(boss_only);
        let mut bosses: Vec<BossHealth> = Vec::new();
        let n: usize = self.entity_uid_to_entity.len();
        let mut i: usize = 0;
        while i < n
            invariant
                n == self.entity_uid_to_entity@.len(),
                s == self.entity_uid_to_entity@,
                self.wf(),
                dps_ok == spec_scope_dps_ok(*self, boss_only),
                0 <= i <= n,
                forall|k: int|
                    0 <= k < bosses@.len() ==> spec_boss_row_ok(
                        s,
                        dead_uids@,
                        dps_ok,
                        #[trigger] bosses@[k],
                    ),
                forall|k: int, l: int|
                    0 <= k < l < bosses@.len() ==> bosses@[k].uid != bosses@[l].uid,
                forall|j: int|
                    0 <= j < i && (#[trigger] s[j]).spec_is_boss() && (spec_attr_int(
                        s[j].attrs@,
                        ATTR_CUR_HP,
                    ) is Some || spec_attr_int(s[j].attrs@, ATTR_MAX_HP) is Some) ==> exists|k: int|
                        0 <= k < bosses@.len() && (#[trigger] bosses@[k]).uid == s[j].entity_id,
                forall|k: int|
                    0 <= k < bosses@.len() ==> exists|j: int|
                        0 <= j < i && (#[trigger] s[j]).entity_id == (
                        #[trigger] bosses@[k]).uid,
            decreases n - i,
        {
            let e = &self.entity_uid_to_entity[i];
            if e.is_boss() {
                let current_hp = e.attr_int(ATTR_CUR_HP);
                let max_hp = e.attr_int(ATTR_MAX_HP);
                let keep = match (&current_hp, &max_hp) {
                    (None, None) => false,
                    _ => true,
                };
                if keep {
                    let name: String = if !e.name.as_str().is_empty() {
                        e.name.clone()
                    } else {
                        match &e.monster_name_packet {
                            Some(nm) => nm.clone(),
                            None => String::new(),
                        }
                    };
                    let is_low = match (&current_hp, &max_hp) {
                        (Some(h), Some(m)) => *m > 0 && (*h as i128) * 20 < (*m as i128),
                        _ => false,
                    };
                    let pinned = contains_uid(dead_uids, e.entity_id) || (is_low && dps_ok);
                    let shown_hp = if pinned {
                        Some(0)
                    } else {
                        current_hp
                    };
                    let ghost b0 = bosses@;
                    proof {
                        crate::encounter::lemma_find_entity_at(s, i as int);
                        assert(is_low == spec_boss_low(
                            spec_attr_int(s[i as int].attrs@, ATTR_CUR_HP),
                            spec_attr_int(s[i as int].attrs@, ATTR_MAX_HP),
                        ));
                    }
                    bosses.push(BossHealth { uid: e.entity_id, name, current_hp: shown_hp, max_hp });
                    proof {
                        assert(forall|k: int| 0 <= k < b0.len() ==> bosses@[k] == b0[k]);
                        assert(bosses@[b0.len() as int].uid == s[i as int].entity_id);
                        assert(spec_boss_row_ok(s, dead_uids@, dps_ok, bosses@[b0.len() as int]));
                        assert forall|k: int, l: int|
                            0 <= k < l < bosses@.len() implies bosses@[k].uid
                            != bosses@[l].uid by {
                            if l == b0.len() as int {
                                let j = choose|j: int|
                                    0 <= j < i && (#[trigger] s[j]).entity_id == bosses@[k].uid;
                                assert(s[j].entity_id != s[i as int].entity_id);
                            }
                        }
                    }
                }
            }
            i = i + 1;
        }
        let ghost unsorted = bosses@;
        let bosses = sort_bosses_by_uid(bosses);
        proof {
            assert forall|k: int|
                0 <= k < bosses@.len() implies spec_boss_row_ok(
                s,
                dead_uids@,
                dps_ok,
                #[trigger] bosses@[k],
            ) by {
                assert(bosses@.to_multiset().count(bosses@[k]) > 0);
                assert(unsorted.contains(bosses@[k]));
                let k0 = choose|k0: int| 0 <= k0 < unsorted.len() && unsorted[k0] == bosses@[k];
            }
            assert forall|j: int|
                0 <= j < s.len() && (#[trigger] s[j]).spec_is_boss() && (spec_attr_int(
                    s[j].attrs@,
                    ATTR_CUR_HP,
                ) is Some || spec_attr_int(s[j].attrs@, ATTR_MAX_HP) is Some) implies exists|k: int|
                0 <= k < bosses@.len() && (#[trigger] bosses@[k]).uid == s[j].entity_id by {
                let k0 = choose|k0: int|
                    0 <= k0 < unsorted.len() && (#[trigger] unsorted[k0]).uid == s[j].entity_id;
                assert(unsorted.to_multiset().count(unsorted[k0]) > 0);
                assert(bosses@.contains(unsorted[k0]));
                let k1 = choose|k1: int| 0 <= k1 < bosses@.len() && bosses@[k1] == unsorted[k0];
                assert(bosses@[k1].uid == s[j].entity_id);
            }
            assert forall|k: int, l: int|
                0 <= k < l < bosses@.len() implies bosses@[k].uid != bosses@[l].uid by {
                assert(bosses@.to_multiset().count(bosses@[k]) > 0);
                assert(bosses@.to_multiset().count(bosses@[l]) > 0);
                assert(unsorted.contains(bosses@[k]));
                assert(unsorted.contains(bosses@[l]));
                if bosses@[k].uid == bosses@[l].uid {
                    lemma_distinct_rows_same_uid(unsorted, bosses@, k, l);
                }
            }
        }
        let elapsed: u64 = if self.time_last_combat_packet_ms >= self.time_fight_start_ms {
            self.time_last_combat_packet_ms - self.time_fight_start_ms
        } else {
            0
        };
        HeaderInfo {
            total_dmg: if boss_only {
                self.total_dmg_boss_only
            } else {
                self.total_dmg
            },
            elapsed_ms: elapsed,
            fight_start_timestamp_ms: self.time_fight_start_ms,
            bosses,
            scene_id: self.current_scene_id,
            scene_name: match &self.current_scene_name {
                Some(nm) => Some(nm.clone()),
                None => None,
            },
        }
    }

    /// Whether the team's scope damage rate reaches the boss-death
    /// threshold, per [`spec_scope_dps_ok`].
    pub fn scope_dps_ok(&self, boss_only: bool) -> (r: bool)
        ensures
            r == spec_scope_dps_ok(*self, boss_only),
    {
        let scope: u128 = if boss_only {
            self.total_dmg_boss_only
        } else {
            self.total_dmg
        };
        let elapsed: u64 = if self.time_last_combat_packet_ms >= self.time_fight_start_ms {
            self.time_last_combat_packet_ms - self.time_fight_start_ms
        } else {
            0
        };
        elapsed > 0 && scope >= 5 * (elapsed as u128)
    }
}

/// With a metric table of a well-formed entity, the row at any index is
/// found under its id.
proof fn lemma_find_metric_skill_at(e: Entity, metric: MetricType, k: int)
    requires
        e.wf(),
        0 <= k < spec_metric_skills(e, metric).len(),
    ensures
        find_skill(spec_metric_skills(e, metric), spec_metric_skills(e, metric)[k].skill_id)
            == Some(spec_metric_skills(e, metric)[k].stats),
{
    reveal(crate::entity::Entity::wf);
    crate::tables::lemma_find_skill_at_pub(spec_metric_skills(e, metric), k);
}

/// When no entity carries `id`, the lookup fails.
proof fn lemma_no_id_no_find(s: Seq<Entity>, id: i64)
    requires
        forall|j: int| 0 <= j < s.len() ==> (#[trigger] s[j]).entity_id != id,
    ensures
        find_entity(s, id) is None,
    decreases s.len(),
{
    if s.len() > 0 {
        lemma_no_id_no_find(s.drop_first(), id);
    }
}

/// Sort player rows by total, descending (selection sort).
fn sort_player_rows_desc(src: Vec<PlayerRow>) -> (r: Vec<PlayerRow>)
    ensures
        r@.to_multiset() == src@.to_multiset(),
        spec_rows_sorted_desc(r@),
{
    let ghost orig = src@;
    let mut rest = src;
    let mut out: Vec<PlayerRow> = Vec::new();
    proof {
        assert(out@.to_multiset().add(rest@.to_multiset()) =~= orig.to_multiset());
    }
    while rest.len() > 0
        invariant
            out@.to_multiset().add(rest@.to_multiset()) == orig.to_multiset(),
            spec_rows_sorted_desc(out@),
            forall|k: int, j: int|
                0 <= k < out@.len() && 0 <= j < rest@.len() ==> out@[k].stats.total
                    >= rest@[j].stats.total,
        decreases rest@.len(),
    {
        let m: usize = rest.len();
        let mut imax: usize = 0;
        let mut j: usize = 1;
        while j < m
            invariant
                m == rest@.len(),
                0 < m,
                0 <= imax < m,
                1 <= j <= m,
                forall|l: int| 0 <= l < j ==> rest@[imax as int].stats.total
                    >= rest@[l].stats.total,
            decreases m - j,
        {
            if rest[j].stats.total > rest[imax].stats.total {
                imax = j;
            }
            j = j + 1;
        }
        let ghost rest0 = rest@;
        let ghost out0 = out@;
        let x = rest.remove(imax);
        out.push(x);
        proof {
            assert(rest@ == rest0.remove(imax as int));
            assert(rest@.to_multiset() =~= rest0.to_multiset().remove(rest0[imax as int]));
            assert(out@.to_multiset() =~= out0.to_multiset().insert(rest0[imax as int]));
            assert(out@.to_multiset().add(rest@.to_multiset()) =~= orig.to_multiset());
            assert(forall|k: int| 0 <= k < out0.len() ==> out@[k] == out0[k]);
            assert(out@[out0.len() as int] == rest0[imax as int]);
            assert forall|k: int, j2: int|
                0 <= k < out@.len() && 0 <= j2 < rest@.len() implies out@[k].stats.total
                >= rest@[j2].stats.total by {
                assert(rest@[j2] == rest0[if j2 < imax as int {
                    j2
                } else {
                    j2 + 1
                }]);
            }
        }
    }
    out
}

/// Sort skill rows by total, descending (selection sort).
pub fn sort_skill_rows_desc(src: Vec<SkillRow>) -> (r: Vec<SkillRow>)
    ensures
        r@.to_multiset() == src@.to_multiset(),
        spec_skill_rows_sorted_desc(r@),
{
    let ghost orig = src@;
    let mut rest = src;
    let mut out: Vec<SkillRow> = Vec::new();
    proof {
        assert(out@.to_multiset().add(rest@.to_multiset()) =~= orig.to_multiset());
    }
    while rest.len() > 0
        invariant
            out@.to_multiset().add(rest@.to_multiset()) == orig.to_multiset(),
            spec_skill_rows_sorted_desc(out@),
            forall|k: int, j: int|
                0 <= k < out@.len() && 0 <= j < rest@.len() ==> out@[k].stats.total_value
                    >= rest@[j].stats.total_value,
        decreases rest@.len(),
    {
        let m: usize = rest.len();
        let mut imax: usize = 0;
        let mut j: usize = 1;
        while j < m
            invariant
                m == rest@.len(),
                0 < m,
                0 <= imax < m,
                1 <= j <= m,
                forall|l: int| 0 <= l < j ==> rest@[imax as int].stats.total_value
                    >= rest@[l].stats.total_value,
            decreases m - j,
        {
            if rest[j].stats.total_value > rest[imax].stats.total_value {
                imax = j;
            }
            j = j + 1;
        }
        let ghost rest0 = rest@;
        let ghost out0 = out@;
        let x = rest.remove(imax);
        out.push(x);
        proof {
            assert(rest@ == rest0.remove(imax as int));
            assert(rest@.to_multiset() =~= rest0.to_multiset().remove(rest0[imax as int]));
            assert(out@.to_multiset() =~= out0.to_multiset().insert(rest0[imax as int]));
            assert(out@.to_multiset().add(rest@.to_multiset()) =~= orig.to_multiset());
            assert(forall|k: int| 0 <= k < out0.len() ==> out@[k] == out0[k]);
            assert(out@[out0.len() as int] == rest0[imax as int]);
            assert forall|k: int, j2: int|
                0 <= k < out@.len() && 0 <= j2 < rest@.len() implies out@[k].stats.total_value
                >= rest@[j2].stats.total_value by {
                assert(rest@[j2] == rest0[if j2 < imax as int {
                    j2
                } else {
                    j2 + 1
                }]);
            }
        }
    }
    out
}

// ---------------------------------------------------------------------------
// Emission throttle
// ---------------------------------------------------------------------------

/// Smallest accepted update rate, in milliseconds.
pub const MIN_UPDATE_RATE_MS: u64 = 50;

/// Largest accepted update rate, in milliseconds.
pub const MAX_UPDATE_RATE_MS: u64 = 2000;

/// Default update rate, in milliseconds.
pub const DEFAULT_UPDATE_RATE_MS: u64 = 200;

/// The rate actually used for a requested rate: clamped into the accepted
/// range.
pub open spec fn spec_clamp_rate(rate_ms: u64) -> u64 {
    if rate_ms < MIN_UPDATE_RATE_MS {
        MIN_UPDATE_RATE_MS
    } else if rate_ms > MAX_UPDATE_RATE_MS {
        MAX_UPDATE_RATE_MS
    } else {
        rate_ms
    }
}

/// Clamp a requested update rate into the accepted range.
pub fn clamp_update_rate(rate_ms: u64) -> (r: u64)
    ensures
        r == spec_clamp_rate(rate_ms),
{
    if rate_ms < MIN_UPDATE_RATE_MS {
        MIN_UPDATE_RATE_MS
    } else if rate_ms > MAX_UPDATE_RATE_MS {
        MAX_UPDATE_RATE_MS
    } else {
        rate_ms
    }
}

/// Holds snapshot publication to the configured cadence.
#[derive(Debug, Clone, Copy, PartialEq, Eq, Structural)]
pub struct EmitThrottle {
    /// When the last emission happened; zero before the first.
    pub last_emit_ms: u64,
}

/// Whether a tick at `now` emits: the clamped rate must have elapsed since
/// the last emission.
pub open spec fn spec_tick_emits(last_emit_ms: u64, now_ms: u64, rate_ms: u64) -> bool {
    now_ms >= last_emit_ms && now_ms - last_emit_ms >= spec_clamp_rate(rate_ms)
}

impl EmitThrottle {
    /// A throttle that emits at the first tick.
    pub fn new() -> (r: EmitThrottle)
        ensures
            r.last_emit_ms == 0,
    {
        EmitThrottle { last_emit_ms: 0 }
    }

    /// One tick of the snapshot timer: emits exactly when the clamped rate
    /// has elapsed since the last emission, and then records this
    /// emission.
    pub fn on_tick(&mut self, now_ms: u64, rate_ms: u64) -> (emitted: bool)
        ensures
            emitted == spec_tick_emits(old(self).last_emit_ms, now_ms, rate_ms),
            final(self).last_emit_ms == if emitted {
                now_ms
            } else {
                old(self).last_emit_ms
            },
    {
        let rate = clamp_update_rate(rate_ms);
        if now_ms >= self.last_emit_ms && now_ms - self.last_emit_ms >= rate {
            self.last_emit_ms = now_ms;
            true
        } else {
            false
        }
    }
}

/// The emission cadence law: along any chain of ticks, two consecutive
/// emissions lie at least the clamped rate apart, and a tick that arrives
/// once the clamped rate has elapsed always emits — so the interval
/// between emissions exceeds the rate by at most one tick spacing.
pub proof fn lemma_emission_cadence(
    ticks: Seq<u64>,
    rate_ms: u64,
    start: EmitThrottle,
    i: int,
    j: int,
)
    requires
        0 <= i < j < ticks.len(),
        // ticks arrive in order
        forall|k: int, l: int| 0 <= k <= l < ticks.len() ==> ticks[k] <= ticks[l],
        // tick i emits, tick j emits, none between
        spec_tick_emits(spec_run_ticks(start, ticks.take(i), rate_ms).last_emit_ms, ticks[i], rate_ms),
        spec_tick_emits(spec_run_ticks(start, ticks.take(j), rate_ms).last_emit_ms, ticks[j], rate_ms),
        forall|k: int|
            i < k < j ==> !spec_tick_emits(
                spec_run_ticks(start, ticks.take(k), rate_ms).last_emit_ms,
                #[trigger] ticks[k],
                rate_ms,
            ),
    ensures
        ticks[j] - ticks[i] >= spec_clamp_rate(rate_ms),
{
    lemma_last_emit_stable(ticks, rate_ms, start, i, j);
}

/// After an emitting tick `i`, as long as no later tick emits, the stored
/// last-emission time stays at `ticks[i]`.
proof fn lemma_last_emit_stable(ticks: Seq<u64>, rate_ms: u64, start: EmitThrottle, i: int, j: int)
    requires
        0 <= i < j < ticks.len(),
        spec_tick_emits(spec_run_ticks(start, ticks.take(i), rate_ms).last_emit_ms, ticks[i], rate_ms),
        forall|k: int|
            i < k < j ==> !spec_tick_emits(
                spec_run_ticks(start, ticks.take(k), rate_ms).last_emit_ms,
                #[trigger] ticks[k],
                rate_ms,
            ),
    ensures
        spec_run_ticks(start, ticks.take(j), rate_ms).last_emit_ms == ticks[i],
    decreases j - i,
{
    if j == i + 1 {
        assert(ticks.take(j) =~= ticks.take(i).push(ticks[i]));
        lemma_run_ticks_push(start, ticks.take(i), ticks[i], rate_ms);
    } else {
        lemma_last_emit_stable(ticks, rate_ms, start, i, j - 1);
        assert(ticks.take(j) =~= ticks.take(j - 1).push(ticks[j - 1]));
        lemma_run_ticks_push(start, ticks.take(j - 1), ticks[j - 1], rate_ms);
        assert(!spec_tick_emits(
            spec_run_ticks(start, ticks.take(j - 1), rate_ms).last_emit_ms,
            ticks[j - 1],
            rate_ms,
        ));
    }
}

/// The throttle state after a sequence of ticks.
pub open spec fn spec_run_ticks(start: EmitThrottle, ticks: Seq<u64>, rate_ms: u64) -> EmitThrottle
    decreases ticks.len(),
{
    if ticks.len() == 0 {
        start
    } else {
        let prev = spec_run_ticks(start, ticks.drop_last(), rate_ms);
        if spec_tick_emits(prev.last_emit_ms, ticks.last(), rate_ms) {
            EmitThrottle { last_emit_ms: ticks.last() }
        } else {
            prev
        }
    }
}

/// Unfolding one tick at the end of a run.
proof fn lemma_run_ticks_push(start: EmitThrottle, ticks: Seq<u64>, t: u64, rate_ms: u64)
    ensures
        spec_run_ticks(start, ticks.push(t), rate_ms) == if spec_tick_emits(
            spec_run_ticks(start, ticks, rate_ms).last_emit_ms,
            t,
            rate_ms,
        ) {
            EmitThrottle { last_emit_ms: t }
        } else {
            spec_run_ticks(start, ticks, rate_ms)
        },
{
    assert(ticks.push(t).drop_last() =~= ticks);
    assert(ticks.push(t).last() == t);
}

} // verus!

verus! {

/// The canonical decimal digits of a non-negative value, most significant
/// first.
pub open spec fn spec_dec_digits(v: nat) -> Seq<char>
    decreases v,
{
    if v < 10 {
        seq![(48 + v) as u8 as char]
    } else {
        spec_dec_digits(v / 10).push((48 + (v % 10)) as u8 as char)
    }
}

/// The canonical decimal rendering of a signed value: a minus sign before
/// the digits for negative values, no leading zeros.
pub open spec fn spec_dec_i64(v: int) -> Seq<char> {
    if v >= 0 {
        spec_dec_digits(v as nat)
    } else {
        seq!['-'] + spec_dec_digits((-v) as nat)
    }
}

/// Render an entity id in decimal.
///
/// Relies on `i64::to_string`: the canonical decimal rendering — a minus
/// sign followed by the digits for negative values, no leading zeros.
#[verifier::external_body]
fn uid_to_string(v: i64) -> (r: String)
    ensures
        r@ == spec_dec_i64(v as int),
{
    v.to_string()
}

/// The display name a window row renders for an entity: its stored name,
/// else the cached name; the local player is suffixed with " (You)", or
/// rendered as plain "You" when no name is known; any other entity with
/// no name renders as "#" followed by its id.
pub open spec fn spec_pretty_name(
    uid: i64,
    local_uid: i64,
    name: Seq<char>,
    cached: Option<Seq<char>>,
) -> Seq<char> {
    let effective = if name.len() > 0 {
        name
    } else {
        match cached {
            Some(c) => c,
            None => Seq::<char>::empty(),
        }
    };
    if uid == local_uid && effective.len() == 0 {
        "You"@
    } else if uid == local_uid {
        effective + " (You)"@
    } else if effective.len() == 0 {
        "#"@ + spec_dec_i64(uid as int)
    } else {
        effective
    }
}

/// Render the display name of an entity per [`spec_pretty_name`].
pub fn prettify_name(uid: i64, local_uid: i64, name: &String, cached: Option<&String>) -> (r:
    String)
    ensures
        r@ == spec_pretty_name(
            uid,
            local_uid,
            name@,
            match cached {
                Some(c) => Some(c@),
                None => None,
            },
        ),
{
    let effective: String = if !name.as_str().is_empty() {
        name.clone()
    } else {
        match cached {
            Some(c) => c.clone(),
            None => String::new(),
        }
    };
    if uid == local_uid && effective.as_str().is_empty() {
        "You".to_owned()
    } else if uid == local_uid {
        effective.concat(" (You)")
    } else if effective.as_str().is_empty() {
        let digits = uid_to_string(uid);
        "#".to_owned().concat(digits.as_str())
    } else {
        effective
    }
}

/// The payload of a players-window update.
#[derive(Debug, Clone, PartialEq, Eq)]
pub struct PlayersUpdatePayload {
    /// Which metric the window shows.
    pub metric_type: crate::models::MetricType,
    /// The window rows.
    pub players_window: PlayersWindow,
}

/// The payload of a skills-window update.
#[derive(Debug, Clone, PartialEq, Eq)]
pub struct SkillsUpdatePayload {
    /// Which metric the window shows.
    pub metric_type: crate::models::MetricType,
    /// The player the window belongs to.
    pub player_uid: i64,
    /// The window rows.
    pub skills_window: SkillsWindow,
}

} // verus!

verus! {

/// Whether a boss with these HP attributes is strictly under the low-HP
/// threshold: both attributes known, a positive maximum, and less than one
/// twentieth of it left.
pub open spec fn spec_boss_low(cur: Option<i64>, max: Option<i64>) -> bool {
    match (cur, max) {
        (Some(h), Some(m)) => m > 0 && 20 * h < m,
        _ => false,
    }
}

/// Whether the team's scope damage rate reaches the boss-death threshold:
/// combat has elapsed and the scope total (boss-only when so configured)
/// is at least the threshold rate times the elapsed seconds.
pub open spec fn spec_scope_dps_ok(enc: Encounter, boss_only: bool) -> bool {
    let scope: u128 = if boss_only {
        enc.total_dmg_boss_only
    } else {
        enc.total_dmg
    };
    let elapsed: u64 = if enc.time_last_combat_packet_ms >= enc.time_fight_start_ms {
        (enc.time_last_combat_packet_ms - enc.time_fight_start_ms) as u64
    } else {
        0u64
    };
    elapsed > 0 && scope >= 5 * (elapsed as u128)
}

/// One header row is right: its entity is a boss with an HP attribute, the
/// name is the entity's (else its packet monster name, else empty), the
/// maximum HP is the attribute, and the shown HP is pinned to zero exactly
/// for promoted or candidate deaths, else the attribute.
pub open spec fn spec_boss_row_ok(
    s: Seq<Entity>,
    dead_uids: Seq<i64>,
    dps_ok: bool,
    b: BossHealth,
) -> bool {
    &&& find_entity(s, b.uid) is Some
    &&& ({
        let e = find_entity(s, b.uid)->Some_0;
        let cur = spec_attr_int(e.attrs@, ATTR_CUR_HP);
        let max = spec_attr_int(e.attrs@, ATTR_MAX_HP);
        &&& e.spec_is_boss()
        &&& (cur is Some || max is Some)
        &&& b.max_hp == max
        &&& b.current_hp == (if crate::boundary::spec_dead_in(dead_uids, b.uid) || (
        spec_boss_low(cur, max) && dps_ok) {
            Some(0i64)
        } else {
            cur
        })
        &&& b.name@ == (if e.name@.len() > 0 {
            e.name@
        } else {
            match e.monster_name_packet {
                Some(nm) => nm@,
                None => Seq::<char>::empty(),
            }
        })
    })
}

/// Everything the header promises: the scope totals and fight clock, the
/// scene context, and one row per boss with any HP attribute known —
/// unique, sorted ascending by uid, HP pinned per [`spec_boss_row_ok`].
pub open spec fn spec_header_ok(
    enc: Encounter,
    boss_only: bool,
    dead_uids: Seq<i64>,
    r: HeaderInfo,
) -> bool {
    let s = enc.entity_uid_to_entity@;
    let dps_ok = spec_scope_dps_ok(enc, boss_only);
    &&& r.total_dmg == (if boss_only {
        enc.total_dmg_boss_only
    } else {
        enc.total_dmg
    })
    &&& r.elapsed_ms == (if enc.time_last_combat_packet_ms >= enc.time_fight_start_ms {
        (enc.time_last_combat_packet_ms - enc.time_fight_start_ms) as u64
    } else {
        0u64
    })
    &&& r.fight_start_timestamp_ms == enc.time_fight_start_ms
    &&& r.scene_id == enc.current_scene_id
    &&& crate::tables::opt_name_view(r.scene_name) == crate::tables::opt_name_view(
        enc.current_scene_name,
    )
    &&& (forall|k: int|
        0 <= k < r.bosses@.len() ==> spec_boss_row_ok(s, dead_uids, dps_ok, #[trigger] r.bosses@[k]))
    &&& (forall|k: int, l: int| 0 <= k < l < r.bosses@.len() ==> r.bosses@[k].uid < r.bosses@[l].uid)
    &&& (forall|j: int|
        0 <= j < s.len() && (#[trigger] s[j]).spec_is_boss() && (spec_attr_int(
            s[j].attrs@,
            ATTR_CUR_HP,
        ) is Some || spec_attr_int(s[j].attrs@, ATTR_MAX_HP) is Some) ==> exists|k: int|
            0 <= k < r.bosses@.len() && (#[trigger] r.bosses@[k]).uid == s[j].entity_id)
}

/// Whether `uid` stands in the list.
pub fn contains_uid(v: &Vec<i64>, uid: i64) -> (r: bool)
    ensures
        r == crate::boundary::spec_dead_in(v@, uid),
{
    let n: usize = v.len();
    let mut i: usize = 0;
    while i < n
        invariant
            n == v@.len(),
            0 <= i <= n,
            forall|j: int| 0 <= j < i ==> v@[j] != uid,
        decreases n - i,
    {
        if v[i] == uid {
            return true;
        }
        i = i + 1;
    }
    proof {
        if v@.contains(uid) {
            let k = choose|k: int| 0 <= k < v@.len() && v@[k] == uid;
        }
    }
    false
}

/// Sort boss rows by uid, ascending (selection sort).
fn sort_bosses_by_uid(src: Vec<BossHealth>) -> (r: Vec<BossHealth>)
    ensures
        r@.to_multiset() == src@.to_multiset(),
        forall|k: int, l: int| 0 <= k <= l < r@.len() ==> r@[k].uid <= r@[l].uid,
{
    let ghost orig = src@;
    let mut rest = src;
    let mut out: Vec<BossHealth> = Vec::new();
    proof {
        assert(out@.to_multiset().add(rest@.to_multiset()) =~= orig.to_multiset());
    }
    while rest.len() > 0
        invariant
            out@.to_multiset().add(rest@.to_multiset()) == orig.to_multiset(),
            forall|k: int, l: int| 0 <= k <= l < out@.len() ==> out@[k].uid <= out@[l].uid,
            forall|k: int, j: int|
                0 <= k < out@.len() && 0 <= j < rest@.len() ==> out@[k].uid <= rest@[j].uid,
        decreases rest@.len(),
    {
        let m: usize = rest.len();
        let mut imin: usize = 0;
        let mut j: usize = 1;
        while j < m
            invariant
                m == rest@.len(),
                0 < m,
                0 <= imin < m,
                1 <= j <= m,
                forall|l: int| 0 <= l < j ==> rest@[imin as int].uid <= rest@[l].uid,
            decreases m - j,
        {
            if rest[j].uid < rest[imin].uid {
                imin = j;
            }
            j = j + 1;
        }
        let ghost rest0 = rest@;
        let ghost out0 = out@;
        let x = rest.remove(imin);
        out.push(x);
        proof {
            assert(rest@ == rest0.remove(imin as int));
            assert(rest@.to_multiset() =~= rest0.to_multiset().remove(rest0[imin as int]));
            assert(out@.to_multiset() =~= out0.to_multiset().insert(rest0[imin as int]));
            assert(out@.to_multiset().add(rest@.to_multiset()) =~= orig.to_multiset());
            assert(forall|k: int| 0 <= k < out0.len() ==> out@[k] == out0[k]);
            assert(out@[out0.len() as int] == rest0[imin as int]);
            assert forall|k: int, j2: int|
                0 <= k < out@.len() && 0 <= j2 < rest@.len() implies out@[k].uid
                <= rest@[j2].uid by {
                assert(rest@[j2] == rest0[if j2 < imin as int {
                    j2
                } else {
                    j2 + 1
                }]);
            }
        }
    }
    out
}

/// Distinct sorted positions carry distinct uids when the rows come from
/// a list with unique uids.
proof fn lemma_distinct_rows_same_uid(
    unsorted: Seq<BossHealth>,
    sorted: Seq<BossHealth>,
    k: int,
    l: int,
)
    requires
        sorted.to_multiset() == unsorted.to_multiset(),
        forall|a: int, b: int| 0 <= a < b < unsorted.len() ==> unsorted[a].uid != unsorted[b].uid,
        0 <= k < l < sorted.len(),
    ensures
        sorted[k].uid != sorted[l].uid,
{
    if sorted[k].uid != sorted[l].uid {
        return ;
    }
    if sorted[k] == sorted[l] {
        lemma_count_ge_two(sorted, k, l);
        assert(unsorted.to_multiset().count(sorted[k]) >= 2);
        assert forall|a: int, b: int|
            0 <= a < unsorted.len() && 0 <= b < unsorted.len() && a != b implies unsorted[a]
            != unsorted[b] by {
            if a < b {
                assert(unsorted[a].uid != unsorted[b].uid);
            } else {
                assert(unsorted[b].uid != unsorted[a].uid);
            }
        }
        assert(unsorted.no_duplicates());
        unsorted.lemma_multiset_has_no_duplicates();
        assert(unsorted.to_multiset().contains(sorted[k]));
    } else {
        assert(sorted.to_multiset().count(sorted[k]) > 0);
        assert(sorted.to_multiset().count(sorted[l]) > 0);
        assert(unsorted.contains(sorted[k]));
        assert(unsorted.contains(sorted[l]));
        let a = choose|a: int| 0 <= a < unsorted.len() && unsorted[a] == sorted[k];
        let b = choose|b: int| 0 <= b < unsorted.len() && unsorted[b] == sorted[l];
        if a < b {
            assert(unsorted[a].uid != unsorted[b].uid);
        } else if b < a {
            assert(unsorted[b].uid != unsorted[a].uid);
        }
    }
}

/// A value standing at two positions counts at least twice.
proof fn lemma_count_ge_two(s: Seq<BossHealth>, k: int, l: int)
    requires
        0 <= k < l < s.len(),
        s[k] == s[l],
    ensures
        s.to_multiset().count(s[k]) >= 2,
{
    let t = s.remove(k);
    assert(t.to_multiset() =~= s.to_multiset().remove(s[k]));
    assert(t[l - 1] == s[l]);
    assert(t.to_multiset().count(s[k]) > 0) by {
        assert(t.contains(s[k]));
    }
}

} // verus!
