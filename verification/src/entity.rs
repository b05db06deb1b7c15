//! The in-memory record of one actor: identity, sparse attributes,
//! cumulative combat totals, per-skill and per-target tables, and the
//! active-time tracker behind True-DPS.

use vstd::prelude::*;

use crate::stats::{
    CombatStats, spec_stats_after_hit, spec_stats_fits, spec_stats_le, spec_stats_zero,
};
use crate::sums::sum_ints;
use crate::tables::{
    Skill, SkillTargetStats, TargetTotal, find_skill, find_st, find_target, lemma_skill_row_fits,
    lemma_st_row_fits, lemma_stats_after_hit_internal_wf, lemma_target_row_fits, opt_name_view,
    skill_hits, skill_ids_unique, skill_row_or_zero, skill_totals, skills_internal_wf,
    spec_stats_internal_wf, st_hits, st_internal_wf, st_keys_unique, st_name_after,
    st_row_or_zero, st_totals, target_ids_unique, target_or_zero, target_totals, upsert_skill_hit,
    upsert_st_hit, upsert_target_value,
};

verus! {

/// Gap cap for the active-damage-time tracker: idle stretches longer than
/// this contribute only this much, in milliseconds.
pub const ACTIVE_GAP_CAP_MS: u64 = 5000;

/// Attribute id under which an entity's current HP is stored.
pub const ATTR_CUR_HP: i32 = 1;

/// Attribute id under which an entity's maximum HP is stored.
pub const ATTR_MAX_HP: i32 = 2;

/// Attribute id for the rank level.
pub const ATTR_RANK_LEVEL: i32 = 3;

/// Attribute id for the critical stat.
pub const ATTR_CRIT: i32 = 4;

/// Attribute id for the lucky stat.
pub const ATTR_LUCKY: i32 = 5;

/// Attribute id for the haste stat.
pub const ATTR_HASTE: i32 = 6;

/// Attribute id for the mastery stat.
pub const ATTR_MASTERY: i32 = 7;

/// Attribute id for the element flag.
pub const ATTR_ELEMENT_FLAG: i32 = 8;

/// Attribute id for the energy flag.
pub const ATTR_ENERGY_FLAG: i32 = 9;

/// Attribute id for the reduction level.
pub const ATTR_REDUCTION_LEVEL: i32 = 10;

/// Attribute id for the season strength.
pub const ATTR_SEASON_STRENGTH: i32 = 11;

/// Broad classification of an actor.
#[derive(Debug, Clone, Copy, PartialEq, Eq, Structural)]
pub enum EntityType {
    /// A player character.
    Character,
    /// A monster.
    Monster,
    /// Anything else (pets, props, unresolved).
    Other,
}

/// A decoded attribute value: an integer or an opaque byte payload.
#[derive(Debug, Clone, PartialEq, Eq)]
pub enum AttrValue {
    /// An integer-valued attribute.
    Int(i64),
    /// A raw byte payload this crate carries without interpreting.
    Bytes(Vec<u8>),
}

/// One sparse attribute: an id and its decoded value.
#[derive(Debug, Clone, PartialEq, Eq)]
pub struct AttrEntry {
    /// The attribute id.
    pub id: i32,
    /// The decoded value.
    pub value: AttrValue,
}

/// No two attribute entries share an id.
pub open spec fn attr_ids_unique(s: Seq<AttrEntry>) -> bool {
    forall|i: int, j: int| 0 <= i < j < s.len() ==> s[i].id != s[j].id
}

/// The value stored for attribute `id`, or `None` when absent.
pub open spec fn find_attr(s: Seq<AttrEntry>, id: i32) -> Option<AttrValue>
    decreases s.len(),
{
    if s.len() == 0 {
        None
    } else if s[0].id == id {
        Some(s[0].value)
    } else {
        find_attr(s.drop_first(), id)
    }
}

/// The integer stored for attribute `id`, or `None` when absent or not an
/// integer.
pub open spec fn spec_attr_int(s: Seq<AttrEntry>, id: i32) -> Option<i64> {
    match find_attr(s, id) {
        Some(AttrValue::Int(v)) => Some(v),
        _ => None,
    }
}

/// The unit of aggregation: one actor and everything recorded about it.
#[derive(Debug, Clone, PartialEq, Eq)]
pub struct Entity {
    /// Stable id of this actor across the encounter.
    pub entity_id: i64,
    /// Broad classification.
    pub entity_type: EntityType,
    /// Server-marked boss flag.
    pub is_boss_flag: bool,
    /// Display name; empty when not yet known.
    pub name: String,
    /// Monster name observed from packets while `name` is empty.
    pub monster_name_packet: Option<String>,
    /// Class id.
    pub class_id: i32,
    /// Class specialisation id.
    pub class_spec: i32,
    /// Ability score.
    pub ability_score: i32,
    /// Sparse attribute map.
    pub attrs: Vec<AttrEntry>,
    /// Damage dealt.
    pub damage: CombatStats,
    /// Healing dealt.
    pub healing: CombatStats,
    /// Damage taken.
    pub taken: CombatStats,
    /// Damage dealt to bosses only.
    pub damage_boss_only: CombatStats,
    /// Per-skill damage rows.
    pub skill_uid_to_dmg_skill: Vec<Skill>,
    /// Per-skill healing rows.
    pub skill_uid_to_heal_skill: Vec<Skill>,
    /// Per-skill damage-taken rows.
    pub skill_uid_to_taken_skill: Vec<Skill>,
    /// Per-(skill, target) damage rows.
    pub skill_dmg_to_target: Vec<SkillTargetStats>,
    /// Per-(skill, target) healing rows.
    pub skill_heal_to_target: Vec<SkillTargetStats>,
    /// Per-target damage totals.
    pub dmg_to_target: Vec<TargetTotal>,
    /// Accumulated active damage time, in milliseconds (gap-capped).
    pub active_dmg_time_ms: u64,
    /// Timestamp of the last damage hit; zero while none was seen.
    pub last_dmg_ms: u64,
}

/// The active-time tracker state after a damage hit at `now`: the first hit
/// only arms the tracker; later hits add the inter-hit gap, capped at
/// [`ACTIVE_GAP_CAP_MS`]; a clock running backwards changes nothing.
pub open spec fn spec_active_after(active: u64, last: u64, now: u64) -> (u64, u64) {
    if last == 0 {
        (active, now)
    } else if now >= last {
        if now - last <= ACTIVE_GAP_CAP_MS {
            ((active + (now - last)) as u64, now)
        } else {
            ((active + ACTIVE_GAP_CAP_MS) as u64, now)
        }
    } else {
        (active, last)
    }
}

impl Entity {
    /// Well-formedness: table keys are unique, every counter record is
    /// internally consistent, each category total and hit count equals the
    /// sum over its per-skill rows, damage also equals the per-target and
    /// per-(skill, target) sums, the boss-only split never exceeds the full
    /// damage counters, and the active-time tracker never exceeds its clock.
    #[verifier::opaque]
    pub open spec fn wf(self) -> bool {
        &&& skill_ids_unique(self.skill_uid_to_dmg_skill@)
        &&& skill_ids_unique(self.skill_uid_to_heal_skill@)
        &&& skill_ids_unique(self.skill_uid_to_taken_skill@)
        &&& skills_internal_wf(self.skill_uid_to_dmg_skill@)
        &&& skills_internal_wf(self.skill_uid_to_heal_skill@)
        &&& skills_internal_wf(self.skill_uid_to_taken_skill@)
        &&& st_keys_unique(self.skill_dmg_to_target@)
        &&& st_keys_unique(self.skill_heal_to_target@)
        &&& st_internal_wf(self.skill_dmg_to_target@)
        &&& st_internal_wf(self.skill_heal_to_target@)
        &&& target_ids_unique(self.dmg_to_target@)
        &&& attr_ids_unique(self.attrs@)
        &&& spec_stats_internal_wf(self.damage)
        &&& spec_stats_internal_wf(self.healing)
        &&& spec_stats_internal_wf(self.taken)
        &&& spec_stats_internal_wf(self.damage_boss_only)
        &&& self.damage.total == sum_ints(skill_totals(self.skill_uid_to_dmg_skill@))
        &&& self.damage.hits == sum_ints(skill_hits(self.skill_uid_to_dmg_skill@))
        &&& self.healing.total == sum_ints(skill_totals(self.skill_uid_to_heal_skill@))
        &&& self.healing.hits == sum_ints(skill_hits(self.skill_uid_to_heal_skill@))
        &&& self.taken.total == sum_ints(skill_totals(self.skill_uid_to_taken_skill@))
        &&& self.taken.hits == sum_ints(skill_hits(self.skill_uid_to_taken_skill@))
        &&& self.damage.total == sum_ints(target_totals(self.dmg_to_target@))
        &&& self.damage.total == sum_ints(st_totals(self.skill_dmg_to_target@))
        &&& self.damage.hits == sum_ints(st_hits(self.skill_dmg_to_target@))
        &&& self.healing.total == sum_ints(st_totals(self.skill_heal_to_target@))
        &&& self.healing.hits == sum_ints(st_hits(self.skill_heal_to_target@))
        &&& spec_stats_le(self.damage_boss_only, self.damage)
        &&& self.active_dmg_time_ms <= self.last_dmg_ms
    }

    /// A fresh entity with the given identity and no combat activity.
    pub fn new(entity_id: i64, entity_type: EntityType) -> (r: Entity)
        ensures
            r.wf(),
            r.entity_id == entity_id,
            r.entity_type == entity_type,
            !r.is_boss_flag,
            r.name@ == Seq::<char>::empty(),
            r.monster_name_packet is None,
            r.class_id == 0,
            r.class_spec == 0,
            r.ability_score == 0,
            r.attrs@.len() == 0,
            r.damage == spec_stats_zero(),
            r.healing == spec_stats_zero(),
            r.taken == spec_stats_zero(),
            r.damage_boss_only == spec_stats_zero(),
            r.skill_uid_to_dmg_skill@.len() == 0,
            r.skill_uid_to_heal_skill@.len() == 0,
            r.skill_uid_to_taken_skill@.len() == 0,
            r.skill_dmg_to_target@.len() == 0,
            r.skill_heal_to_target@.len() == 0,
            r.dmg_to_target@.len() == 0,
            r.active_dmg_time_ms == 0,
            r.last_dmg_ms == 0,
    {
        proof {
            reveal(Entity::wf);
            lemma_empty_tables_sums();
        }
        Entity {
            entity_id,
            entity_type,
            is_boss_flag: false,
            name: String::new(),
            monster_name_packet: None,
            class_id: 0,
            class_spec: 0,
            ability_score: 0,
            attrs: Vec::new(),
            damage: CombatStats::new(),
            healing: CombatStats::new(),
            taken: CombatStats::new(),
            damage_boss_only: CombatStats::new(),
            skill_uid_to_dmg_skill: Vec::new(),
            skill_uid_to_heal_skill: Vec::new(),
            skill_uid_to_taken_skill: Vec::new(),
            skill_dmg_to_target: Vec::new(),
            skill_heal_to_target: Vec::new(),
            dmg_to_target: Vec::new(),
            active_dmg_time_ms: 0,
            last_dmg_ms: 0,
        }
    }


    /// Whether this entity counts as a boss: a monster carrying the
    /// server-marked boss flag.
    pub open spec fn spec_is_boss(self) -> bool {
        self.entity_type == EntityType::Monster && self.is_boss_flag
    }

    /// Runtime check of [`Entity::spec_is_boss`].
    pub fn is_boss(&self) -> (r: bool)
        ensures
            r == self.spec_is_boss(),
    {
        match self.entity_type {
            EntityType::Monster => self.is_boss_flag,
            _ => false,
        }
    }

    /// Whether this entity took part in combat at all.
    pub open spec fn spec_has_combat(self) -> bool {
        self.damage.hits > 0 || self.healing.hits > 0 || self.taken.hits > 0
    }

    /// Runtime check of [`Entity::spec_has_combat`].
    pub fn has_combat(&self) -> (r: bool)
        ensures
            r == self.spec_has_combat(),
    {
        self.damage.hits > 0 || self.healing.hits > 0 || self.taken.hits > 0
    }

    /// The integer stored for attribute `id`, if any.
    pub fn attr_int(&self, id: i32) -> (r: Option<i64>)
        ensures
            r == spec_attr_int(self.attrs@, id),
    {
        let n: usize = self.attrs.len();
        let mut i: usize = 0;
        proof {
            assert(self.attrs@.skip(0) =~= self.attrs@);
        }
        while i < n
            invariant
                n == self.attrs.len(),
                0 <= i <= n,
                forall|j: int| 0 <= j < i ==> self.attrs@[j].id != id,
                spec_attr_int(self.attrs@, id) == spec_attr_int(self.attrs@.skip(i as int), id),
            decreases n - i,
        {
            proof {
                assert(self.attrs@.skip(i as int).len() > 0);
                assert(self.attrs@.skip(i as int)[0] == self.attrs@[i as int]);
                assert(self.attrs@.skip(i as int).drop_first() =~= self.attrs@.skip(i as int + 1));
            }
            if self.attrs[i].id == id {
                return match &self.attrs[i].value {
                    AttrValue::Int(v) => Some(*v),
                    AttrValue::Bytes(_) => None,
                };
            }
            i = i + 1;
        }
        proof {
            assert(self.attrs@.skip(n as int) =~= Seq::<AttrEntry>::empty());
        }
        None
    }

    /// Store attribute `id` with `value`, replacing any existing entry.
    pub fn set_attr(&mut self, id: i32, value: AttrValue)
        requires
            attr_ids_unique(old(self).attrs@),
        ensures
            attr_ids_unique(final(self).attrs@),
            find_attr(final(self).attrs@, id) == Some(value),
            forall|id2: i32| id2 != id ==> find_attr(final(self).attrs@, id2) == find_attr(
                old(self).attrs@,
                id2,
            ),
            *final(self) == (Entity { attrs: final(self).attrs, ..*old(self) }),
    {
        upsert_attr(&mut self.attrs, id, value);
    }

    /// Clear all combat counters and tables, keeping identity and
    /// attributes. The active-time tracker restarts as well.
    pub fn reset_combat(&mut self)
        requires
            attr_ids_unique(old(self).attrs@),
        ensures
            final(self).wf(),
            !final(self).spec_has_combat(),
            final(self).damage == spec_stats_zero(),
            final(self).healing == spec_stats_zero(),
            final(self).taken == spec_stats_zero(),
            final(self).damage_boss_only == spec_stats_zero(),
            final(self).skill_uid_to_dmg_skill@.len() == 0,
            final(self).skill_uid_to_heal_skill@.len() == 0,
            final(self).skill_uid_to_taken_skill@.len() == 0,
            final(self).skill_dmg_to_target@.len() == 0,
            final(self).skill_heal_to_target@.len() == 0,
            final(self).dmg_to_target@.len() == 0,
            final(self).active_dmg_time_ms == 0,
            final(self).last_dmg_ms == 0,
            final(self).entity_id == old(self).entity_id,
            final(self).entity_type == old(self).entity_type,
            final(self).is_boss_flag == old(self).is_boss_flag,
            final(self).name == old(self).name,
            final(self).monster_name_packet == old(self).monster_name_packet,
            final(self).class_id == old(self).class_id,
            final(self).class_spec == old(self).class_spec,
            final(self).ability_score == old(self).ability_score,
            final(self).attrs == old(self).attrs,
    {
        self.damage = CombatStats::new();
        self.healing = CombatStats::new();
        self.taken = CombatStats::new();
        self.damage_boss_only = CombatStats::new();
        self.skill_uid_to_dmg_skill = Vec::new();
        self.skill_uid_to_heal_skill = Vec::new();
        self.skill_uid_to_taken_skill = Vec::new();
        self.skill_dmg_to_target = Vec::new();
        self.skill_heal_to_target = Vec::new();
        self.dmg_to_target = Vec::new();
        self.active_dmg_time_ms = 0;
        self.last_dmg_ms = 0;
        proof {
            reveal(Entity::wf);
            lemma_empty_tables_sums();
        }
    }

    /// Record one damage hit dealt by this entity.
    ///
    /// The category counters, the per-skill row, the per-target total, and
    /// the per-(skill, target) row all move by exactly the hit; the
    /// boss-only split moves too iff the target counted as a boss; the
    /// active-time tracker advances per [`spec_active_after`].
    pub fn apply_damage_hit(
        &mut self,
        skill_id: i64,
        target_id: i64,
        target_is_boss: bool,
        monster_name: Option<String>,
        value: u128,
        crit: bool,
        lucky: bool,
        now_ms: u64,
    )
        requires
            old(self).wf(),
            spec_stats_fits(old(self).damage, value),
        ensures
            final(self).wf(),
            final(self).damage == spec_stats_after_hit(old(self).damage, value, crit, lucky),
            final(self).damage_boss_only == if target_is_boss {
                spec_stats_after_hit(old(self).damage_boss_only, value, crit, lucky)
            } else {
                old(self).damage_boss_only
            },
            find_skill(final(self).skill_uid_to_dmg_skill@, skill_id) == Some(
                spec_stats_after_hit(
                    skill_row_or_zero(old(self).skill_uid_to_dmg_skill@, skill_id),
                    value,
                    crit,
                    lucky,
                ),
            ),
            forall|id: i64| id != skill_id ==> find_skill(final(self).skill_uid_to_dmg_skill@, id)
                == find_skill(old(self).skill_uid_to_dmg_skill@, id),
            find_target(final(self).dmg_to_target@, target_id) == Some(
                (target_or_zero(old(self).dmg_to_target@, target_id) + value) as u128,
            ),
            forall|id: i64| id != target_id ==> find_target(final(self).dmg_to_target@, id)
                == find_target(old(self).dmg_to_target@, id),
            ({
                let row = find_st(final(self).skill_dmg_to_target@, skill_id, target_id);
                &&& row is Some
                &&& row->Some_0.stats == spec_stats_after_hit(
                    st_row_or_zero(old(self).skill_dmg_to_target@, skill_id, target_id),
                    value,
                    crit,
                    lucky,
                )
                &&& opt_name_view(row->Some_0.monster_name) == st_name_after(
                    old(self).skill_dmg_to_target@,
                    skill_id,
                    target_id,
                    opt_name_view(monster_name),
                )
            }),
            forall|sid: i64, tid: i64|
                !(sid == skill_id && tid == target_id) ==> find_st(
                    final(self).skill_dmg_to_target@,
                    sid,
                    tid,
                ) == find_st(old(self).skill_dmg_to_target@, sid, tid),
            (final(self).active_dmg_time_ms, final(self).last_dmg_ms) == spec_active_after(
                old(self).active_dmg_time_ms,
                old(self).last_dmg_ms,
                now_ms,
            ),
            final(self).healing == old(self).healing,
            final(self).taken == old(self).taken,
            final(self).skill_uid_to_heal_skill == old(self).skill_uid_to_heal_skill,
            final(self).skill_uid_to_taken_skill == old(self).skill_uid_to_taken_skill,
            final(self).skill_heal_to_target == old(self).skill_heal_to_target,
            final(self).entity_id == old(self).entity_id,
            final(self).entity_type == old(self).entity_type,
            final(self).is_boss_flag == old(self).is_boss_flag,
            final(self).name == old(self).name,
            final(self).monster_name_packet == old(self).monster_name_packet,
            final(self).class_id == old(self).class_id,
            final(self).class_spec == old(self).class_spec,
            final(self).ability_score == old(self).ability_score,
            final(self).attrs == old(self).attrs,
    {
        proof {
            reveal(Entity::wf);
            lemma_skill_row_fits(
                self.skill_uid_to_dmg_skill@,
                skill_id,
                self.damage,
                value,
            );
            lemma_target_row_fits(self.dmg_to_target@, target_id, self.damage.total, value);
            lemma_st_row_fits(self.skill_dmg_to_target@, skill_id, target_id, self.damage, value);
        }
        self.damage.apply_hit(value, crit, lucky);
        if target_is_boss {
            self.damage_boss_only.apply_hit(value, crit, lucky);
        }
        upsert_skill_hit(&mut self.skill_uid_to_dmg_skill, skill_id, value, crit, lucky);
        upsert_target_value(&mut self.dmg_to_target, target_id, value);
        upsert_st_hit(
            &mut self.skill_dmg_to_target,
            skill_id,
            target_id,
            monster_name,
            value,
            crit,
            lucky,
        );
        if self.last_dmg_ms == 0 {
            self.last_dmg_ms = now_ms;
        } else if now_ms >= self.last_dmg_ms {
            let gap: u64 = now_ms - self.last_dmg_ms;
            let capped: u64 = if gap <= ACTIVE_GAP_CAP_MS {
                gap
            } else {
                ACTIVE_GAP_CAP_MS
            };
            self.active_dmg_time_ms = self.active_dmg_time_ms + capped;
            self.last_dmg_ms = now_ms;
        }
        proof {
            lemma_stats_after_hit_internal_wf(old(self).damage, value, crit, lucky);
            if target_is_boss {
                lemma_stats_after_hit_internal_wf(old(self).damage_boss_only, value, crit, lucky);
            }
        }
    }

    /// Record one healing hit dealt by this entity: the healing counters,
    /// the per-skill row, and the per-(skill, target) row move by exactly
    /// the hit; nothing else changes.
    pub fn apply_heal_hit(
        &mut self,
        skill_id: i64,
        target_id: i64,
        monster_name: Option<String>,
        value: u128,
        crit: bool,
        lucky: bool,
    )
        requires
            old(self).wf(),
            spec_stats_fits(old(self).healing, value),
        ensures
            final(self).wf(),
            final(self).healing == spec_stats_after_hit(old(self).healing, value, crit, lucky),
            find_skill(final(self).skill_uid_to_heal_skill@, skill_id) == Some(
                spec_stats_after_hit(
                    skill_row_or_zero(old(self).skill_uid_to_heal_skill@, skill_id),
                    value,
                    crit,
                    lucky,
                ),
            ),
            forall|id: i64| id != skill_id ==> find_skill(final(self).skill_uid_to_heal_skill@, id)
                == find_skill(old(self).skill_uid_to_heal_skill@, id),
            ({
                let row = find_st(final(self).skill_heal_to_target@, skill_id, target_id);
                &&& row is Some
                &&& row->Some_0.stats == spec_stats_after_hit(
                    st_row_or_zero(old(self).skill_heal_to_target@, skill_id, target_id),
                    value,
                    crit,
                    lucky,
                )
            }),
            final(self).damage == old(self).damage,
            final(self).taken == old(self).taken,
            final(self).damage_boss_only == old(self).damage_boss_only,
            final(self).skill_uid_to_dmg_skill == old(self).skill_uid_to_dmg_skill,
            final(self).skill_uid_to_taken_skill == old(self).skill_uid_to_taken_skill,
            final(self).skill_dmg_to_target == old(self).skill_dmg_to_target,
            final(self).dmg_to_target == old(self).dmg_to_target,
            final(self).active_dmg_time_ms == old(self).active_dmg_time_ms,
            final(self).last_dmg_ms == old(self).last_dmg_ms,
            final(self).entity_id == old(self).entity_id,
            final(self).entity_type == old(self).entity_type,
            final(self).is_boss_flag == old(self).is_boss_flag,
            final(self).name == old(self).name,
            final(self).monster_name_packet == old(self).monster_name_packet,
            final(self).class_id == old(self).class_id,
            final(self).class_spec == old(self).class_spec,
            final(self).ability_score == old(self).ability_score,
            final(self).attrs == old(self).attrs,
    {
        proof {
            reveal(Entity::wf);
            lemma_skill_row_fits(
                self.skill_uid_to_heal_skill@,
                skill_id,
                self.healing,
                value,
            );
            lemma_st_row_fits(self.skill_heal_to_target@, skill_id, target_id, self.healing, value);
        }
        self.healing.apply_hit(value, crit, lucky);
        upsert_skill_hit(&mut self.skill_uid_to_heal_skill, skill_id, value, crit, lucky);
        upsert_st_hit(
            &mut self.skill_heal_to_target,
            skill_id,
            target_id,
            monster_name,
            value,
            crit,
            lucky,
        );
        proof {
            lemma_stats_after_hit_internal_wf(old(self).healing, value, crit, lucky);
        }
    }

    /// Record one damage-taken hit on this entity: the taken counters and
    /// the per-skill row move by exactly the hit; nothing else changes.
    pub fn apply_taken_hit(&mut self, skill_id: i64, value: u128, crit: bool, lucky: bool)
        requires
            old(self).wf(),
            spec_stats_fits(old(self).taken, value),
        ensures
            final(self).wf(),
            final(self).taken == spec_stats_after_hit(old(self).taken, value, crit, lucky),
            find_skill(final(self).skill_uid_to_taken_skill@, skill_id) == Some(
                spec_stats_after_hit(
                    skill_row_or_zero(old(self).skill_uid_to_taken_skill@, skill_id),
                    value,
                    crit,
                    lucky,
                ),
            ),
            forall|id: i64| id != skill_id ==> find_skill(
                final(self).skill_uid_to_taken_skill@,
                id,
            ) == find_skill(old(self).skill_uid_to_taken_skill@, id),
            final(self).damage == old(self).damage,
            final(self).healing == old(self).healing,
            final(self).damage_boss_only == old(self).damage_boss_only,
            final(self).skill_uid_to_dmg_skill == old(self).skill_uid_to_dmg_skill,
            final(self).skill_uid_to_heal_skill == old(self).skill_uid_to_heal_skill,
            final(self).skill_dmg_to_target == old(self).skill_dmg_to_target,
            final(self).skill_heal_to_target == old(self).skill_heal_to_target,
            final(self).dmg_to_target == old(self).dmg_to_target,
            final(self).active_dmg_time_ms == old(self).active_dmg_time_ms,
            final(self).last_dmg_ms == old(self).last_dmg_ms,
            final(self).entity_id == old(self).entity_id,
            final(self).entity_type == old(self).entity_type,
            final(self).is_boss_flag == old(self).is_boss_flag,
            final(self).name == old(self).name,
            final(self).monster_name_packet == old(self).monster_name_packet,
            final(self).class_id == old(self).class_id,
            final(self).class_spec == old(self).class_spec,
            final(self).ability_score == old(self).ability_score,
            final(self).attrs == old(self).attrs,
    {
        proof {
            reveal(Entity::wf);
            lemma_skill_row_fits(
                self.skill_uid_to_taken_skill@,
                skill_id,
                self.taken,
                value,
            );
        }
        self.taken.apply_hit(value, crit, lucky);
        upsert_skill_hit(&mut self.skill_uid_to_taken_skill, skill_id, value, crit, lucky);
        proof {
            lemma_stats_after_hit_internal_wf(old(self).taken, value, crit, lucky);
        }
    }
}

/// Store attribute `id` with `value` in the sparse map, replacing any
/// existing entry; other entries are untouched.
pub fn upsert_attr(v: &mut Vec<AttrEntry>, id: i32, value: AttrValue)
    requires
        attr_ids_unique(old(v)@),
    ensures
        attr_ids_unique(final(v)@),
        find_attr(final(v)@, id) == Some(value),
        forall|id2: i32| id2 != id ==> find_attr(final(v)@, id2) == find_attr(old(v)@, id2),
{
    let ghost s0 = v@;
    let n: usize = v.len();
    let mut i: usize = 0;
    while i < n
        invariant
            n == v.len(),
            v@ == s0,
            s0 == old(v)@,
            0 <= i <= n,
            attr_ids_unique(s0),
            forall|j: int| 0 <= j < i ==> s0[j].id != id,
        decreases n - i,
    {
        if v[i].id == id {
            let row = AttrEntry { id, value };
            v[i] = row;
            proof {
                let s1 = s0.update(i as int, row);
                assert(v@ == s1);
                assert(forall|j: int| 0 <= j < s1.len() ==> s1[j].id == s0[j].id);
                assert(attr_ids_unique(s1));
                lemma_find_attr_at(s1, i as int);
                assert forall|id2: i32| id2 != id implies find_attr(s1, id2) == find_attr(
                    s0,
                    id2,
                ) by {
                    lemma_find_attr_update(s0, i as int, row, id2);
                }
            }
            return ;
        }
        i = i + 1;
    }
    proof {
        lemma_find_attr_none_of(s0, id);
    }
    let row = AttrEntry { id, value };
    v.push(row);
    proof {
        let s1 = s0.push(row);
        assert(v@ == s1);
        assert(forall|j: int| 0 <= j < s0.len() ==> s1[j] == s0[j]);
        assert(s1[s0.len() as int] == row);
        assert(attr_ids_unique(s1));
        lemma_find_attr_push(s0, row, id);
        assert forall|id2: i32| id2 != id implies find_attr(s1, id2) == find_attr(s0, id2) by {
            lemma_find_attr_push(s0, row, id2);
        }
    }
}

/// Column sums of the empty tables are all zero.
pub proof fn lemma_empty_tables_sums()
    ensures
        sum_ints(skill_totals(Seq::<Skill>::empty())) == 0,
        sum_ints(skill_hits(Seq::<Skill>::empty())) == 0,
        sum_ints(target_totals(Seq::<TargetTotal>::empty())) == 0,
        sum_ints(st_totals(Seq::<SkillTargetStats>::empty())) == 0,
        sum_ints(st_hits(Seq::<SkillTargetStats>::empty())) == 0,
{
    assert(skill_totals(Seq::<Skill>::empty()) =~= Seq::<int>::empty());
    assert(skill_hits(Seq::<Skill>::empty()) =~= Seq::<int>::empty());
    assert(target_totals(Seq::<TargetTotal>::empty()) =~= Seq::<int>::empty());
    assert(st_totals(Seq::<SkillTargetStats>::empty()) =~= Seq::<int>::empty());
    assert(st_hits(Seq::<SkillTargetStats>::empty()) =~= Seq::<int>::empty());
}

/// With unique ids, the entry found for an id is the entry at any matching
/// index.
proof fn lemma_find_attr_at(s: Seq<AttrEntry>, i: int)
    requires
        attr_ids_unique(s),
        0 <= i < s.len(),
    ensures
        find_attr(s, s[i].id) == Some(s[i].value),
    decreases s.len(),
{
    if i > 0 {
        assert(s[0].id != s[i].id);
        lemma_find_attr_at(s.drop_first(), i - 1);
    }
}

/// Lookups for other ids are unchanged by an update at index `i`.
proof fn lemma_find_attr_update(s: Seq<AttrEntry>, i: int, row: AttrEntry, id: i32)
    requires
        0 <= i < s.len(),
        s[i].id == row.id,
        id != row.id,
    ensures
        find_attr(s.update(i, row), id) == find_attr(s, id),
    decreases s.len(),
{
    if s.len() > 0 {
        if i == 0 {
            assert(s.update(0, row).drop_first() =~= s.drop_first());
        } else {
            assert(s.update(i, row).drop_first() =~= s.drop_first().update(i - 1, row));
            lemma_find_attr_update(s.drop_first(), i - 1, row, id);
        }
    }
}

/// When no entry carries `id`, nothing is found for it.
proof fn lemma_find_attr_none_of(s: Seq<AttrEntry>, id: i32)
    requires
        forall|j: int| 0 <= j < s.len() ==> s[j].id != id,
    ensures
        find_attr(s, id) is None,
    decreases s.len(),
{
    if s.len() > 0 {
        assert(forall|j: int| 0 <= j < s.drop_first().len() ==> s.drop_first()[j].id != id);
        lemma_find_attr_none_of(s.drop_first(), id);
    }
}

/// Lookups in a map extended by a fresh entry.
proof fn lemma_find_attr_push(s: Seq<AttrEntry>, row: AttrEntry, id: i32)
    requires
        find_attr(s, row.id) is None,
    ensures
        find_attr(s.push(row), row.id) == Some(row.value),
        id != row.id ==> find_attr(s.push(row), id) == find_attr(s, id),
    decreases s.len(),
{
    if s.len() == 0 {
        assert(s.push(row)[0] == row);
        assert(s.push(row).drop_first() =~= Seq::<AttrEntry>::empty());
        assert(find_attr(s.push(row).drop_first(), id) is None);
    } else {
        assert(s.push(row)[0] == s[0]);
        assert(s.push(row).drop_first() =~= s.drop_first().push(row));
        lemma_find_attr_push(s.drop_first(), row, id);
    }
}

} // verus!

verus! {

/// Two attribute values carry the same content.
pub open spec fn attr_value_like(a: AttrValue, b: AttrValue) -> bool {
    match (a, b) {
        (AttrValue::Int(x), AttrValue::Int(y)) => x == y,
        (AttrValue::Bytes(x), AttrValue::Bytes(y)) => x@ == y@,
        _ => false,
    }
}

/// Two attribute maps carry the same content.
pub open spec fn attrs_like(a: Seq<AttrEntry>, b: Seq<AttrEntry>) -> bool {
    &&& a.len() == b.len()
    &&& (forall|i: int|
        0 <= i < a.len() ==> (#[trigger] a[i]).id == b[i].id && attr_value_like(
            a[i].value,
            b[i].value,
        ))
}

/// Two per-(skill, target) tables carry the same content.
pub open spec fn st_rows_like(a: Seq<SkillTargetStats>, b: Seq<SkillTargetStats>) -> bool {
    &&& a.len() == b.len()
    &&& (forall|i: int|
        0 <= i < a.len() ==> {
            let x = #[trigger] a[i];
            let y = b[i];
            &&& x.skill_id == y.skill_id
            &&& x.target_id == y.target_id
            &&& x.stats == y.stats
            &&& crate::tables::opt_name_view(x.monster_name) == crate::tables::opt_name_view(
                y.monster_name,
            )
        })
}

/// Two entity records carry the same content. Distinct record values (for
/// example, a record and its clone, or a decoded copy) may be
/// content-equal without being the same value.
pub open spec fn spec_entity_like(a: Entity, b: Entity) -> bool {
    &&& a.entity_id == b.entity_id
    &&& a.entity_type == b.entity_type
    &&& a.is_boss_flag == b.is_boss_flag
    &&& a.name@ == b.name@
    &&& crate::tables::opt_name_view(a.monster_name_packet) == crate::tables::opt_name_view(
        b.monster_name_packet,
    )
    &&& a.class_id == b.class_id
    &&& a.class_spec == b.class_spec
    &&& a.ability_score == b.ability_score
    &&& attrs_like(a.attrs@, b.attrs@)
    &&& a.damage == b.damage
    &&& a.healing == b.healing
    &&& a.taken == b.taken
    &&& a.damage_boss_only == b.damage_boss_only
    &&& a.skill_uid_to_dmg_skill@ == b.skill_uid_to_dmg_skill@
    &&& a.skill_uid_to_heal_skill@ == b.skill_uid_to_heal_skill@
    &&& a.skill_uid_to_taken_skill@ == b.skill_uid_to_taken_skill@
    &&& st_rows_like(a.skill_dmg_to_target@, b.skill_dmg_to_target@)
    &&& st_rows_like(a.skill_heal_to_target@, b.skill_heal_to_target@)
    &&& a.dmg_to_target@ == b.dmg_to_target@
    &&& a.active_dmg_time_ms == b.active_dmg_time_ms
    &&& a.last_dmg_ms == b.last_dmg_ms
}

/// Copy a byte vector.
pub fn clone_bytes(v: &Vec<u8>) -> (r: Vec<u8>)
    ensures
        r@ == v@,
{
    let n: usize = v.len();
    let mut r: Vec<u8> = Vec::new();
    let mut i: usize = 0;
    while i < n
        invariant
            n == v@.len(),
            0 <= i <= n,
            r@.len() == i,
            forall|j: int| 0 <= j < i ==> r@[j] == v@[j],
        decreases n - i,
    {
        r.push(v[i]);
        i = i + 1;
    }
    proof {
        assert(r@ =~= v@);
    }
    r
}

/// Copy an optional name.
pub fn clone_opt_name(v: &Option<String>) -> (r: Option<String>)
    ensures
        crate::tables::opt_name_view(r) == crate::tables::opt_name_view(*v),
{
    match v {
        Some(nm) => Some(nm.clone()),
        None => None,
    }
}

/// Copy a per-skill table.
pub fn clone_skills(v: &Vec<Skill>) -> (r: Vec<Skill>)
    ensures
        r@ == v@,
{
    let n: usize = v.len();
    let mut r: Vec<Skill> = Vec::new();
    let mut i: usize = 0;
    while i < n
        invariant
            n == v@.len(),
            0 <= i <= n,
            r@.len() == i,
            forall|j: int| 0 <= j < i ==> r@[j] == v@[j],
        decreases n - i,
    {
        r.push(v[i]);
        i = i + 1;
    }
    proof {
        assert(r@ =~= v@);
    }
    r
}

/// Copy a per-target table.
pub fn clone_targets(v: &Vec<TargetTotal>) -> (r: Vec<TargetTotal>)
    ensures
        r@ == v@,
{
    let n: usize = v.len();
    let mut r: Vec<TargetTotal> = Vec::new();
    let mut i: usize = 0;
    while i < n
        invariant
            n == v@.len(),
            0 <= i <= n,
            r@.len() == i,
            forall|j: int| 0 <= j < i ==> r@[j] == v@[j],
        decreases n - i,
    {
        r.push(v[i]);
        i = i + 1;
    }
    proof {
        assert(r@ =~= v@);
    }
    r
}

/// Copy a per-(skill, target) table, content for content.
pub fn clone_st_rows(v: &Vec<SkillTargetStats>) -> (r: Vec<SkillTargetStats>)
    ensures
        st_rows_like(v@, r@),
{
    let n: usize = v.len();
    let mut r: Vec<SkillTargetStats> = Vec::new();
    let mut i: usize = 0;
    while i < n
        invariant
            n == v@.len(),
            0 <= i <= n,
            r@.len() == i,
            forall|j: int|
                0 <= j < i ==> {
                    let x = #[trigger] v@[j];
                    let y = r@[j];
                    &&& x.skill_id == y.skill_id
                    &&& x.target_id == y.target_id
                    &&& x.stats == y.stats
                    &&& crate::tables::opt_name_view(x.monster_name)
                        == crate::tables::opt_name_view(y.monster_name)
                },
        decreases n - i,
    {
        let row = &v[i];
        r.push(
            SkillTargetStats {
                skill_id: row.skill_id,
                target_id: row.target_id,
                monster_name: clone_opt_name(&row.monster_name),
                stats: row.stats,
            },
        );
        i = i + 1;
    }
    r
}

/// Copy an attribute map, content for content.
pub fn clone_attrs(v: &Vec<AttrEntry>) -> (r: Vec<AttrEntry>)
    ensures
        attrs_like(v@, r@),
{
    let n: usize = v.len();
    let mut r: Vec<AttrEntry> = Vec::new();
    let mut i: usize = 0;
    while i < n
        invariant
            n == v@.len(),
            0 <= i <= n,
            r@.len() == i,
            forall|j: int|
                0 <= j < i ==> (#[trigger] v@[j]).id == r@[j].id && attr_value_like(
                    v@[j].value,
                    r@[j].value,
                ),
        decreases n - i,
    {
        let e = &v[i];
        let value = match &e.value {
            AttrValue::Int(x) => AttrValue::Int(*x),
            AttrValue::Bytes(b) => AttrValue::Bytes(clone_bytes(b)),
        };
        r.push(AttrEntry { id: e.id, value });
        i = i + 1;
    }
    r
}

impl Entity {
    /// Copy this record, content for content.
    pub fn clone_entity(&self) -> (r: Entity)
        ensures
            spec_entity_like(*self, r),
    {
        Entity {
            entity_id: self.entity_id,
            entity_type: self.entity_type,
            is_boss_flag: self.is_boss_flag,
            name: self.name.clone(),
            monster_name_packet: clone_opt_name(&self.monster_name_packet),
            class_id: self.class_id,
            class_spec: self.class_spec,
            ability_score: self.ability_score,
            attrs: clone_attrs(&self.attrs),
            damage: self.damage,
            healing: self.healing,
            taken: self.taken,
            damage_boss_only: self.damage_boss_only,
            skill_uid_to_dmg_skill: clone_skills(&self.skill_uid_to_dmg_skill),
            skill_uid_to_heal_skill: clone_skills(&self.skill_uid_to_heal_skill),
            skill_uid_to_taken_skill: clone_skills(&self.skill_uid_to_taken_skill),
            skill_dmg_to_target: clone_st_rows(&self.skill_dmg_to_target),
            skill_heal_to_target: clone_st_rows(&self.skill_heal_to_target),
            dmg_to_target: clone_targets(&self.dmg_to_target),
            active_dmg_time_ms: self.active_dmg_time_ms,
            last_dmg_ms: self.last_dmg_ms,
        }
    }
}

} // verus!
