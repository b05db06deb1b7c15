//! The container for one fight: all entities, the running character-wide
//! totals, the fight clock, scene context, and the application of combat
//! deltas — the hot path of the aggregator.

use vstd::prelude::*;

use crate::entity::{Entity, EntityType, spec_active_after};
use crate::stats::{
    CombatStats, spec_stats_after_hit, spec_stats_fits, spec_stats_le, spec_stats_zero,
};
use crate::sums::{lemma_sum_le, lemma_sum_push, lemma_sum_update, lemma_sum_zero, sum_ints};
use crate::tables::{Skill, SkillTargetStats, TargetTotal};

verus! {

/// The category a combat delta falls in.
#[derive(Debug, Clone, Copy, PartialEq, Eq, Structural)]
pub enum DeltaKind {
    /// Damage dealt by the owner to the target.
    Damage,
    /// Healing dealt by the owner to the target.
    Heal,
    /// Damage taken by the owner.
    Taken,
}

/// One decoded combat delta: who hit whom with which skill, for how much,
/// and with which crit / lucky flags. The decoder supplies the owner's
/// classification for the case the owner was never seen before.
#[derive(Debug, Clone, Copy, PartialEq, Eq, Structural)]
pub struct CombatDelta {
    /// The entity whose counters this delta belongs to.
    pub owner_id: i64,
    /// Classification for an owner created by this delta.
    pub owner_type: EntityType,
    /// The entity on the receiving end.
    pub target_id: i64,
    /// The skill that produced the hit.
    pub skill_id: i64,
    /// The hit value.
    pub value: u64,
    /// Damage, heal, or taken.
    pub kind: DeltaKind,
    /// Whether the hit was critical.
    pub is_crit: bool,
    /// Whether the hit was lucky.
    pub is_lucky: bool,
}

/// No two entities share an id.
pub open spec fn entity_ids_unique(s: Seq<Entity>) -> bool {
    forall|i: int, j: int| 0 <= i < j < s.len() ==> s[i].entity_id != s[j].entity_id
}

/// Every entity is well-formed.
pub open spec fn entities_wf(s: Seq<Entity>) -> bool {
    forall|i: int| 0 <= i < s.len() ==> (#[trigger] s[i]).wf()
}

/// The entity stored for `id`, or `None` when absent.
pub open spec fn find_entity(s: Seq<Entity>, id: i64) -> Option<Entity>
    decreases s.len(),
{
    if s.len() == 0 {
        None
    } else if s[0].entity_id == id {
        Some(s[0])
    } else {
        find_entity(s.drop_first(), id)
    }
}

/// Damage counters of the entity for `id`, or zero when absent.
pub open spec fn ent_damage(s: Seq<Entity>, id: i64) -> CombatStats {
    match find_entity(s, id) {
        Some(e) => e.damage,
        None => spec_stats_zero(),
    }
}

/// Healing counters of the entity for `id`, or zero when absent.
pub open spec fn ent_healing(s: Seq<Entity>, id: i64) -> CombatStats {
    match find_entity(s, id) {
        Some(e) => e.healing,
        None => spec_stats_zero(),
    }
}

/// Damage-taken counters of the entity for `id`, or zero when absent.
pub open spec fn ent_taken(s: Seq<Entity>, id: i64) -> CombatStats {
    match find_entity(s, id) {
        Some(e) => e.taken,
        None => spec_stats_zero(),
    }
}

/// Boss-only damage counters of the entity for `id`, or zero when absent.
pub open spec fn ent_boss_only(s: Seq<Entity>, id: i64) -> CombatStats {
    match find_entity(s, id) {
        Some(e) => e.damage_boss_only,
        None => spec_stats_zero(),
    }
}

/// Per-skill damage rows of the entity for `id`, or empty when absent.
pub open spec fn ent_dmg_skills(s: Seq<Entity>, id: i64) -> Seq<Skill> {
    match find_entity(s, id) {
        Some(e) => e.skill_uid_to_dmg_skill@,
        None => Seq::<Skill>::empty(),
    }
}

/// Per-skill healing rows of the entity for `id`, or empty when absent.
pub open spec fn ent_heal_skills(s: Seq<Entity>, id: i64) -> Seq<Skill> {
    match find_entity(s, id) {
        Some(e) => e.skill_uid_to_heal_skill@,
        None => Seq::<Skill>::empty(),
    }
}

/// Per-skill taken rows of the entity for `id`, or empty when absent.
pub open spec fn ent_taken_skills(s: Seq<Entity>, id: i64) -> Seq<Skill> {
    match find_entity(s, id) {
        Some(e) => e.skill_uid_to_taken_skill@,
        None => Seq::<Skill>::empty(),
    }
}

/// Per-target damage totals of the entity for `id`, or empty when absent.
pub open spec fn ent_dmg_targets(s: Seq<Entity>, id: i64) -> Seq<TargetTotal> {
    match find_entity(s, id) {
        Some(e) => e.dmg_to_target@,
        None => Seq::<TargetTotal>::empty(),
    }
}

/// Per-(skill, target) damage rows of the entity for `id`.
pub open spec fn ent_skill_dmg_targets(s: Seq<Entity>, id: i64) -> Seq<SkillTargetStats> {
    match find_entity(s, id) {
        Some(e) => e.skill_dmg_to_target@,
        None => Seq::<SkillTargetStats>::empty(),
    }
}

/// Active-time tracker of the entity for `id`: (accumulated, last hit).
pub open spec fn ent_active(s: Seq<Entity>, id: i64) -> (u64, u64) {
    match find_entity(s, id) {
        Some(e) => (e.active_dmg_time_ms, e.last_dmg_ms),
        None => (0, 0),
    }
}

/// Whether the entity for `id` counts as a boss; absent entities do not.
pub open spec fn ent_is_boss(s: Seq<Entity>, id: i64) -> bool {
    match find_entity(s, id) {
        Some(e) => e.spec_is_boss(),
        None => false,
    }
}

/// The classification the owner of a delta ends up with: the stored one, or
/// the delta's when the owner is created by it.
pub open spec fn ent_type_or(s: Seq<Entity>, id: i64, et: EntityType) -> EntityType {
    match find_entity(s, id) {
        Some(e) => e.entity_type,
        None => et,
    }
}

/// Per-entity damage totals, counting characters only.
pub open spec fn char_dmg_totals(s: Seq<Entity>) -> Seq<int> {
    s.map_values(
        |e: Entity|
            if e.entity_type == EntityType::Character {
                e.damage.total as int
            } else {
                0
            },
    )
}

/// Per-entity healing totals, counting characters only.
pub open spec fn char_heal_totals(s: Seq<Entity>) -> Seq<int> {
    s.map_values(
        |e: Entity|
            if e.entity_type == EntityType::Character {
                e.healing.total as int
            } else {
                0
            },
    )
}

/// Per-entity damage-taken totals, counting characters only.
pub open spec fn char_taken_totals(s: Seq<Entity>) -> Seq<int> {
    s.map_values(
        |e: Entity|
            if e.entity_type == EntityType::Character {
                e.taken.total as int
            } else {
                0
            },
    )
}

/// Per-entity boss-only damage totals, counting characters only.
pub open spec fn char_boss_totals(s: Seq<Entity>) -> Seq<int> {
    s.map_values(
        |e: Entity|
            if e.entity_type == EntityType::Character {
                e.damage_boss_only.total as int
            } else {
                0
            },
    )
}

/// The container for one fight.
#[derive(Debug, Clone)]
pub struct Encounter {
    /// All entities seen in this encounter.
    pub entity_uid_to_entity: Vec<Entity>,
    /// Sum of damage dealt by character entities.
    pub total_dmg: u128,
    /// Sum of healing dealt by character entities.
    pub total_heal: u128,
    /// Sum of boss-only damage dealt by character entities.
    pub total_dmg_boss_only: u128,
    /// Epoch milliseconds of the first combat hit after a reset; zero
    /// before combat begins.
    pub time_fight_start_ms: u64,
    /// Epoch milliseconds of the last combat packet; zero before combat.
    pub time_last_combat_packet_ms: u64,
    /// The current scene id, when one was recognised.
    pub current_scene_id: Option<i32>,
    /// The current scene's display name.
    pub current_scene_name: Option<String>,
    /// The local player's entity id; zero while unknown.
    pub local_player_uid: i64,
    /// Whether combat packets are currently dropped.
    pub is_encounter_paused: bool,
}

impl Encounter {
    /// Well-formedness: entity ids are unique, every entity is well-formed,
    /// each running total equals the sum over character entities, and the
    /// fight clock has not run before the fight started.
    pub open spec fn wf(self) -> bool {
        &&& entity_ids_unique(self.entity_uid_to_entity@)
        &&& entities_wf(self.entity_uid_to_entity@)
        &&& self.total_dmg == sum_ints(char_dmg_totals(self.entity_uid_to_entity@))
        &&& self.total_heal == sum_ints(char_heal_totals(self.entity_uid_to_entity@))
        &&& self.total_dmg_boss_only == sum_ints(char_boss_totals(self.entity_uid_to_entity@))
        &&& (self.time_fight_start_ms == 0 ==> self.time_last_combat_packet_ms == 0)
    }

    /// A fresh encounter: no entities, zero totals, clock unset.
    pub fn new() -> (r: Encounter)
        ensures
            r.wf(),
            r.entity_uid_to_entity@.len() == 0,
            r.total_dmg == 0,
            r.total_heal == 0,
            r.total_dmg_boss_only == 0,
            r.time_fight_start_ms == 0,
            r.time_last_combat_packet_ms == 0,
            r.current_scene_id is None,
            r.current_scene_name is None,
            r.local_player_uid == 0,
            !r.is_encounter_paused,
    {
        let r = Encounter {
            entity_uid_to_entity: Vec::new(),
            total_dmg: 0,
            total_heal: 0,
            total_dmg_boss_only: 0,
            time_fight_start_ms: 0,
            time_last_combat_packet_ms: 0,
            current_scene_id: None,
            current_scene_name: None,
            local_player_uid: 0,
            is_encounter_paused: false,
        };
        proof {
            assert(char_dmg_totals(r.entity_uid_to_entity@) =~= Seq::<int>::empty());
            assert(char_heal_totals(r.entity_uid_to_entity@) =~= Seq::<int>::empty());
            assert(char_boss_totals(r.entity_uid_to_entity@) =~= Seq::<int>::empty());
        }
        r
    }

    /// Whether any combat activity was recorded since the last reset.
    pub open spec fn spec_has_started(self) -> bool {
        self.time_fight_start_ms > 0
    }

    /// True when one more delta `d` can be applied without any counter
    /// overflowing. With 128-bit counters this is the normal case; a delta
    /// that does not fit is dropped rather than applied saturated.
    pub open spec fn spec_delta_fits(self, d: CombatDelta) -> bool {
        let s = self.entity_uid_to_entity@;
        let owner_char = ent_type_or(s, d.owner_id, d.owner_type) == EntityType::Character;
        match d.kind {
            DeltaKind::Damage => spec_stats_fits(ent_damage(s, d.owner_id), d.value as u128) && (
            owner_char ==> self.total_dmg + d.value <= u128::MAX),
            DeltaKind::Heal => spec_stats_fits(ent_healing(s, d.owner_id), d.value as u128) && (
            owner_char ==> self.total_heal + d.value <= u128::MAX),
            DeltaKind::Taken => spec_stats_fits(ent_taken(s, d.owner_id), d.value as u128),
        }
    }
}

/// Entity lookup: when a row for `id` exists, it stands at some index.
proof fn lemma_find_entity_index(s: Seq<Entity>, id: i64)
    requires
        find_entity(s, id) is Some,
    ensures
        exists|i: int|
            0 <= i < s.len() && (#[trigger] s[i]).entity_id == id && s[i] == find_entity(
                s,
                id,
            )->Some_0,
    decreases s.len(),
{
    if s.len() > 0 && s[0].entity_id != id {
        lemma_find_entity_index(s.drop_first(), id);
        let j = choose|j: int|
            0 <= j < s.drop_first().len() && (#[trigger] s.drop_first()[j]).entity_id == id
                && s.drop_first()[j] == find_entity(s.drop_first(), id)->Some_0;
        assert(s[j + 1] == s.drop_first()[j]);
    }
}

/// With unique ids, the entity found for an id is the one at any matching
/// index.
pub proof fn lemma_find_entity_at(s: Seq<Entity>, i: int)
    requires
        entity_ids_unique(s),
        0 <= i < s.len(),
    ensures
        find_entity(s, s[i].entity_id) == Some(s[i]),
    decreases s.len(),
{
    if i > 0 {
        assert(s[0].entity_id != s[i].entity_id);
        lemma_find_entity_at(s.drop_first(), i - 1);
    }
}

/// Lookups for other ids are unchanged by an update at index `i`.
proof fn lemma_find_entity_update(s: Seq<Entity>, i: int, e: Entity, id: i64)
    requires
        0 <= i < s.len(),
        s[i].entity_id == e.entity_id,
        id != e.entity_id,
    ensures
        find_entity(s.update(i, e), id) == find_entity(s, id),
    decreases s.len(),
{
    if s.len() > 0 {
        if i == 0 {
            assert(s.update(0, e).drop_first() =~= s.drop_first());
        } else {
            assert(s.update(i, e).drop_first() =~= s.drop_first().update(i - 1, e));
            lemma_find_entity_update(s.drop_first(), i - 1, e, id);
        }
    }
}

/// Lookups in a table extended by a fresh entity.
proof fn lemma_find_entity_push(s: Seq<Entity>, e: Entity, id: i64)
    requires
        find_entity(s, e.entity_id) is None,
    ensures
        find_entity(s.push(e), e.entity_id) == Some(e),
        id != e.entity_id ==> find_entity(s.push(e), id) == find_entity(s, id),
    decreases s.len(),
{
    if s.len() == 0 {
        assert(s.push(e)[0] == e);
        assert(s.push(e).drop_first() =~= Seq::<Entity>::empty());
        assert(find_entity(s.push(e).drop_first(), id) is None);
    } else {
        assert(s.push(e)[0] == s[0]);
        assert(s.push(e).drop_first() =~= s.drop_first().push(e));
        lemma_find_entity_push(s.drop_first(), e, id);
    }
}

/// An absent id means no entity carries it.
proof fn lemma_find_entity_none(s: Seq<Entity>, id: i64)
    requires
        find_entity(s, id) is None,
    ensures
        forall|i: int| 0 <= i < s.len() ==> (#[trigger] s[i]).entity_id != id,
    decreases s.len(),
{
    if s.len() > 0 {
        lemma_find_entity_none(s.drop_first(), id);
        assert forall|i: int| 0 <= i < s.len() implies (#[trigger] s[i]).entity_id != id by {
            if i > 0 {
                assert(s[i] == s.drop_first()[i - 1]);
            }
        }
    }
}

/// The boss-only total of every character is bounded by its damage total,
/// so the boss-only sum is bounded by the damage sum.
pub proof fn lemma_boss_sum_le_dmg_sum(s: Seq<Entity>)
    requires
        entities_wf(s),
    ensures
        sum_ints(char_boss_totals(s)) <= sum_ints(char_dmg_totals(s)),
{
    assert forall|i: int| 0 <= i < s.len() implies char_boss_totals(s)[i] <= char_dmg_totals(
        s,
    )[i] by {
        assert(s[i].wf());
        reveal(crate::entity::Entity::wf);
    }
    lemma_sum_le(char_boss_totals(s), char_dmg_totals(s));
}

impl Encounter {
    /// Index of the entity with `id`, when present.
    fn find_entity_index(&self, id: i64) -> (r: Option<usize>)
        requires
            entity_ids_unique(self.entity_uid_to_entity@),
        ensures
            match r {
                Some(i) => i < self.entity_uid_to_entity@.len()
                    && self.entity_uid_to_entity@[i as int].entity_id == id && find_entity(
                    self.entity_uid_to_entity@,
                    id,
                ) == Some(self.entity_uid_to_entity@[i as int]),
                None => find_entity(self.entity_uid_to_entity@, id) is None,
            },
    {
        let n: usize = self.entity_uid_to_entity.len();
        let mut i: usize = 0;
        while i < n
            invariant
                n == self.entity_uid_to_entity@.len(),
                entity_ids_unique(self.entity_uid_to_entity@),
                0 <= i <= n,
                forall|j: int|
                    0 <= j < i ==> (#[trigger] self.entity_uid_to_entity@[j]).entity_id != id,
            decreases n - i,
        {
            if self.entity_uid_to_entity[i].entity_id == id {
                proof {
                    lemma_find_entity_at(self.entity_uid_to_entity@, i as int);
                }
                return Some(i);
            }
            i = i + 1;
        }
        proof {
            if find_entity(self.entity_uid_to_entity@, id) is Some {
                lemma_find_entity_index(self.entity_uid_to_entity@, id);
            }
        }
        None
    }

    /// Make sure an entity with `id` exists, creating a fresh record of the
    /// given type when absent; returns its index.
    fn ensure_entity(&mut self, id: i64, et: EntityType) -> (r: usize)
        requires
            old(self).wf(),
        ensures
            final(self).wf(),
            r < final(self).entity_uid_to_entity@.len(),
            final(self).entity_uid_to_entity@[r as int].entity_id == id,
            find_entity(final(self).entity_uid_to_entity@, id) == Some(
                final(self).entity_uid_to_entity@[r as int],
            ),
            match find_entity(old(self).entity_uid_to_entity@, id) {
                Some(e) => final(self).entity_uid_to_entity@ == old(
                    self,
                ).entity_uid_to_entity@ && final(self).entity_uid_to_entity@[r as int] == e,
                None => {
                    let e = final(self).entity_uid_to_entity@[r as int];
                    &&& final(self).entity_uid_to_entity@ == old(self).entity_uid_to_entity@.push(
                        e,
                    )
                    &&& e.wf()
                    &&& e.entity_type == et
                    &&& !e.is_boss_flag
                    &&& e.name@ == Seq::<char>::empty()
                    &&& e.monster_name_packet is None
                    &&& e.class_id == 0
                    &&& e.class_spec == 0
                    &&& e.ability_score == 0
                    &&& e.attrs@.len() == 0
                    &&& e.damage == spec_stats_zero()
                    &&& e.healing == spec_stats_zero()
                    &&& e.taken == spec_stats_zero()
                    &&& e.damage_boss_only == spec_stats_zero()
                    &&& e.skill_uid_to_dmg_skill@.len() == 0
                    &&& e.skill_uid_to_heal_skill@.len() == 0
                    &&& e.skill_uid_to_taken_skill@.len() == 0
                    &&& e.skill_dmg_to_target@.len() == 0
                    &&& e.skill_heal_to_target@.len() == 0
                    &&& e.dmg_to_target@.len() == 0
                    &&& e.active_dmg_time_ms == 0
                    &&& e.last_dmg_ms == 0
                },
            },
            forall|id2: i64| id2 != id ==> find_entity(final(self).entity_uid_to_entity@, id2)
                == find_entity(old(self).entity_uid_to_entity@, id2),
            final(self).total_dmg == old(self).total_dmg,
            final(self).total_heal == old(self).total_heal,
            final(self).total_dmg_boss_only == old(self).total_dmg_boss_only,
            final(self).time_fight_start_ms == old(self).time_fight_start_ms,
            final(self).time_last_combat_packet_ms == old(self).time_last_combat_packet_ms,
            final(self).current_scene_id == old(self).current_scene_id,
            final(self).current_scene_name == old(self).current_scene_name,
            final(self).local_player_uid == old(self).local_player_uid,
            final(self).is_encounter_paused == old(self).is_encounter_paused,
    {
        match self.find_entity_index(id) {
            Some(i) => i,
            None => {
                let ghost s0 = self.entity_uid_to_entity@;
                let e = Entity::new(id, et);
                self.entity_uid_to_entity.push(e);
                proof {
                    let s1 = self.entity_uid_to_entity@;
                    let en = s1[s0.len() as int];
                    lemma_find_entity_none(s0, id);
                    assert(forall|j: int| 0 <= j < s0.len() ==> s1[j] == s0[j]);
                    assert(entity_ids_unique(s1));
                    assert(entities_wf(s1));
                    lemma_find_entity_push(s0, en, id);
                    assert forall|id2: i64| id2 != id implies find_entity(s1, id2) == find_entity(
                        s0,
                        id2,
                    ) by {
                        lemma_find_entity_push(s0, en, id2);
                    }
                    assert(char_dmg_totals(s1) =~= char_dmg_totals(s0).push(0));
                    assert(char_heal_totals(s1) =~= char_heal_totals(s0).push(0));
                    assert(char_boss_totals(s1) =~= char_boss_totals(s0).push(0));
                    lemma_sum_push(char_dmg_totals(s0), 0);
                    lemma_sum_push(char_heal_totals(s0), 0);
                    lemma_sum_push(char_boss_totals(s0), 0);
                }
                self.entity_uid_to_entity.len() - 1
            },
        }
    }
}

} // verus!

verus! {

use crate::tables::{
    find_skill, find_st, find_target, skill_row_or_zero, st_name_after, st_row_or_zero,
    target_or_zero, opt_name_view,
};

/// The name under which a target is recorded in per-target rows: its
/// non-empty display name, else the monster name seen in packets, else
/// nothing. Absent targets have no name yet.
pub open spec fn ent_target_name(s: Seq<Entity>, id: i64) -> Option<Seq<char>> {
    match find_entity(s, id) {
        Some(e) => if e.name@.len() > 0 {
            Some(e.name@)
        } else {
            match e.monster_name_packet {
                Some(n) => Some(n@),
                None => None,
            }
        },
        None => None,
    }
}

/// The fight clock after an applied combat packet at `now`: the first hit
/// starts the fight, later packets only advance the last-packet stamp.
pub open spec fn spec_times_after(start: u64, last: u64, now: u64) -> (u64, u64) {
    if start == 0 {
        (now, now)
    } else if now > last {
        (start, now)
    } else {
        (start, last)
    }
}

/// Everything an applied combat delta changes, relating the encounter
/// after (`post`) to the one before (`pre`): the owner's category counters
/// and rows move by exactly the hit, totals over characters follow, the
/// fight clock advances, a missing target is created bare, and nothing
/// else changes.
pub open spec fn spec_delta_applied(pre: Encounter, post: Encounter, d: CombatDelta, now: u64) -> bool {
    let s0 = pre.entity_uid_to_entity@;
    let s1 = post.entity_uid_to_entity@;
    let v = d.value as u128;
    let tb = ent_is_boss(s0, d.target_id);
    let owner_char = ent_type_or(s0, d.owner_id, d.owner_type) == EntityType::Character;
    let o = find_entity(s1, d.owner_id);
    &&& o is Some
    &&& ({
        let oe = o->Some_0;
        &&& oe.entity_id == d.owner_id
        &&& oe.entity_type == ent_type_or(s0, d.owner_id, d.owner_type)
        &&& match d.kind {
            DeltaKind::Damage => {
                &&& oe.damage == spec_stats_after_hit(
                    ent_damage(s0, d.owner_id),
                    v,
                    d.is_crit,
                    d.is_lucky,
                )
                &&& oe.damage_boss_only == if tb {
                    spec_stats_after_hit(ent_boss_only(s0, d.owner_id), v, d.is_crit, d.is_lucky)
                } else {
                    ent_boss_only(s0, d.owner_id)
                }
                &&& find_skill(oe.skill_uid_to_dmg_skill@, d.skill_id) == Some(
                    spec_stats_after_hit(
                        skill_row_or_zero(ent_dmg_skills(s0, d.owner_id), d.skill_id),
                        v,
                        d.is_crit,
                        d.is_lucky,
                    ),
                )
                &&& (forall|id: i64| id != d.skill_id ==> find_skill(
                    oe.skill_uid_to_dmg_skill@,
                    id,
                ) == find_skill(ent_dmg_skills(s0, d.owner_id), id))
                &&& find_target(oe.dmg_to_target@, d.target_id) == Some(
                    (target_or_zero(ent_dmg_targets(s0, d.owner_id), d.target_id) + v) as u128,
                )
                &&& (forall|id: i64| id != d.target_id ==> find_target(oe.dmg_to_target@, id)
                    == find_target(ent_dmg_targets(s0, d.owner_id), id))
                &&& ({
                    let row = find_st(oe.skill_dmg_to_target@, d.skill_id, d.target_id);
                    &&& row is Some
                    &&& row->Some_0.stats == spec_stats_after_hit(
                        st_row_or_zero(ent_skill_dmg_targets(s0, d.owner_id), d.skill_id, d.target_id),
                        v,
                        d.is_crit,
                        d.is_lucky,
                    )
                    &&& opt_name_view(row->Some_0.monster_name) == st_name_after(
                        ent_skill_dmg_targets(s0, d.owner_id),
                        d.skill_id,
                        d.target_id,
                        ent_target_name(s0, d.target_id),
                    )
                })
                &&& (oe.active_dmg_time_ms, oe.last_dmg_ms) == spec_active_after(
                    ent_active(s0, d.owner_id).0,
                    ent_active(s0, d.owner_id).1,
                    now,
                )
                &&& oe.healing == ent_healing(s0, d.owner_id)
                &&& oe.taken == ent_taken(s0, d.owner_id)
            },
            DeltaKind::Heal => {
                &&& oe.healing == spec_stats_after_hit(
                    ent_healing(s0, d.owner_id),
                    v,
                    d.is_crit,
                    d.is_lucky,
                )
                &&& find_skill(oe.skill_uid_to_heal_skill@, d.skill_id) == Some(
                    spec_stats_after_hit(
                        skill_row_or_zero(ent_heal_skills(s0, d.owner_id), d.skill_id),
                        v,
                        d.is_crit,
                        d.is_lucky,
                    ),
                )
                &&& (forall|id: i64| id != d.skill_id ==> find_skill(
                    oe.skill_uid_to_heal_skill@,
                    id,
                ) == find_skill(ent_heal_skills(s0, d.owner_id), id))
                &&& oe.damage == ent_damage(s0, d.owner_id)
                &&& oe.damage_boss_only == ent_boss_only(s0, d.owner_id)
                &&& oe.taken == ent_taken(s0, d.owner_id)
                &&& (oe.active_dmg_time_ms, oe.last_dmg_ms) == ent_active(s0, d.owner_id)
            },
            DeltaKind::Taken => {
                &&& oe.taken == spec_stats_after_hit(
                    ent_taken(s0, d.owner_id),
                    v,
                    d.is_crit,
                    d.is_lucky,
                )
                &&& find_skill(oe.skill_uid_to_taken_skill@, d.skill_id) == Some(
                    spec_stats_after_hit(
                        skill_row_or_zero(ent_taken_skills(s0, d.owner_id), d.skill_id),
                        v,
                        d.is_crit,
                        d.is_lucky,
                    ),
                )
                &&& (forall|id: i64| id != d.skill_id ==> find_skill(
                    oe.skill_uid_to_taken_skill@,
                    id,
                ) == find_skill(ent_taken_skills(s0, d.owner_id), id))
                &&& oe.damage == ent_damage(s0, d.owner_id)
                &&& oe.healing == ent_healing(s0, d.owner_id)
                &&& oe.damage_boss_only == ent_boss_only(s0, d.owner_id)
                &&& (oe.active_dmg_time_ms, oe.last_dmg_ms) == ent_active(s0, d.owner_id)
            },
        }
    })
    &&& post.total_dmg == pre.total_dmg + if d.kind == DeltaKind::Damage && owner_char {
        v as int
    } else {
        0int
    }
    &&& post.total_heal == pre.total_heal + if d.kind == DeltaKind::Heal && owner_char {
        v as int
    } else {
        0int
    }
    &&& post.total_dmg_boss_only == pre.total_dmg_boss_only + if d.kind == DeltaKind::Damage
        && owner_char && tb {
        v as int
    } else {
        0int
    }
    &&& (post.time_fight_start_ms, post.time_last_combat_packet_ms) == spec_times_after(
        pre.time_fight_start_ms,
        pre.time_last_combat_packet_ms,
        now,
    )
    &&& (forall|id: i64| id != d.owner_id && id != d.target_id ==> find_entity(s1, id)
        == find_entity(s0, id))
    &&& (d.kind != DeltaKind::Taken && d.target_id != d.owner_id ==> match find_entity(
        s0,
        d.target_id,
    ) {
        Some(t) => find_entity(s1, d.target_id) == Some(t),
        None => {
            let t = find_entity(s1, d.target_id);
            &&& t is Some
            &&& t->Some_0.entity_id == d.target_id
            &&& t->Some_0.entity_type == EntityType::Other
            &&& !t->Some_0.spec_has_combat()
        },
    })
    &&& (d.kind == DeltaKind::Taken ==> forall|id: i64| id != d.owner_id ==> find_entity(s1, id)
        == find_entity(s0, id))
    &&& post.current_scene_id == pre.current_scene_id
    &&& post.current_scene_name == pre.current_scene_name
    &&& post.local_player_uid == pre.local_player_uid
    &&& post.is_encounter_paused == pre.is_encounter_paused
}


impl Encounter {
    /// Apply one combat delta at wall-clock `now_ms`.
    ///
    /// The owner's counters for the delta's category, its per-skill row,
    /// and — for damage — its per-target and per-(skill, target) rows and
    /// the boss-only split all move by exactly the hit; character-wide
    /// totals and the fight clock follow; missing entities are created.
    /// A delta whose counters have no headroom left is dropped whole and
    /// the encounter is unchanged; `applied` says which happened.
    pub fn apply_combat_delta(&mut self, d: CombatDelta, now_ms: u64) -> (applied: bool)
        requires
            old(self).wf(),
            now_ms > 0,
        ensures
            final(self).wf(),
            applied == old(self).spec_delta_fits(d),
            !applied ==> *final(self) == *old(self),
            applied ==> spec_delta_applied(*old(self), *final(self), d, now_ms),
    {
        let ghost s0 = self.entity_uid_to_entity@;
        let v: u128 = d.value as u128;

        // Read the owner's current counters and classification without
        // creating anything, to decide whether the delta fits.
        let owner_probe = self.find_entity_index(d.owner_id);
        let mut ostats: CombatStats = CombatStats::new();
        let mut ochar: bool = d.owner_type == EntityType::Character;
        match owner_probe {
            Some(i) => {
                let e = &self.entity_uid_to_entity[i];
                ostats = match d.kind {
                    DeltaKind::Damage => e.damage,
                    DeltaKind::Heal => e.healing,
                    DeltaKind::Taken => e.taken,
                };
                ochar = e.entity_type == EntityType::Character;
            },
            None => {},
        }
        let fits: bool = ostats.fits(v) && match d.kind {
            DeltaKind::Damage => !ochar || self.total_dmg <= u128::MAX - v,
            DeltaKind::Heal => !ochar || self.total_heal <= u128::MAX - v,
            DeltaKind::Taken => true,
        };
        proof {
            assert(ochar == (ent_type_or(s0, d.owner_id, d.owner_type) == EntityType::Character));
            assert(match d.kind {
                DeltaKind::Damage => ostats == ent_damage(s0, d.owner_id),
                DeltaKind::Heal => ostats == ent_healing(s0, d.owner_id),
                DeltaKind::Taken => ostats == ent_taken(s0, d.owner_id),
            });
            assert(fits == old(self).spec_delta_fits(d));
        }
        if !fits {
            return false;
        }
        match d.kind {
            DeltaKind::Damage => self.apply_delta_damage(d, now_ms),
            DeltaKind::Heal => self.apply_delta_heal(d, now_ms),
            DeltaKind::Taken => self.apply_delta_taken(d, now_ms),
        }
        true
    }

    /// The damage arm of [`Encounter::apply_combat_delta`].
    #[verifier::rlimit(100)]
    #[verifier::spinoff_prover]
    fn apply_delta_damage(&mut self, d: CombatDelta, now_ms: u64)
        requires
            old(self).wf(),
            now_ms > 0,
            d.kind == DeltaKind::Damage,
            old(self).spec_delta_fits(d),
        ensures
            final(self).wf(),
            spec_delta_applied(*old(self), *final(self), d, now_ms),
    {
        let ghost s0 = self.entity_uid_to_entity@;
        let ghost pre = *self;
        let v: u128 = d.value as u128;

        // Capture the target's boss flag and display label from the state
        // before any mutation, then make sure both entities exist. A target
        // that is the owner itself is created with the owner's class.
        let mut target_is_boss: bool = false;
        let mut target_name: Option<String> = None;
        match self.find_entity_index(d.target_id) {
            Some(ti) => {
                let t = &self.entity_uid_to_entity[ti];
                target_is_boss = t.is_boss();
                if !t.name.as_str().is_empty() {
                    target_name = Some(t.name.clone());
                } else {
                    target_name = match &t.monster_name_packet {
                        Some(n) => Some(n.clone()),
                        None => None,
                    };
                }
            },
            None => {},
        }
        let new_type = if d.target_id == d.owner_id {
            d.owner_type
        } else {
            EntityType::Other
        };
        let _ti = self.ensure_entity(d.target_id, new_type);
        let ghost sa = self.entity_uid_to_entity@;
        proof {
            assert(target_is_boss == ent_is_boss(s0, d.target_id));
            assert(opt_name_view(target_name) == ent_target_name(s0, d.target_id));
            assert(forall|id: i64| id != d.target_id ==> find_entity(sa, id) == find_entity(
                s0,
                id,
            ));
        }
        let owner_idx = self.ensure_entity(d.owner_id, d.owner_type);
        let ghost s2 = self.entity_uid_to_entity@;
        let ghost oe_pre = s2[owner_idx as int];
        proof {
            assert(find_entity(s2, d.owner_id) == Some(oe_pre));
            assert(oe_pre.entity_id == d.owner_id);
            assert(oe_pre.entity_type == ent_type_or(s0, d.owner_id, d.owner_type));
            assert(oe_pre.damage == ent_damage(s0, d.owner_id));
            assert(oe_pre.healing == ent_healing(s0, d.owner_id));
            assert(oe_pre.taken == ent_taken(s0, d.owner_id));
            assert(oe_pre.damage_boss_only == ent_boss_only(s0, d.owner_id));
            assert(oe_pre.skill_uid_to_dmg_skill@ =~= ent_dmg_skills(s0, d.owner_id));
            assert(oe_pre.dmg_to_target@ =~= ent_dmg_targets(s0, d.owner_id));
            assert(oe_pre.skill_dmg_to_target@ =~= ent_skill_dmg_targets(s0, d.owner_id));
            assert((oe_pre.active_dmg_time_ms, oe_pre.last_dmg_ms) == ent_active(s0, d.owner_id));
            assert(self.total_dmg == sum_ints(char_dmg_totals(s2)));
            assert(self.total_heal == sum_ints(char_heal_totals(s2)));
            assert(self.total_dmg_boss_only == sum_ints(char_boss_totals(s2)));
        }

        let e = &mut self.entity_uid_to_entity[owner_idx];
        e.apply_damage_hit(
            d.skill_id,
            d.target_id,
            target_is_boss,
            target_name,
            v,
            d.is_crit,
            d.is_lucky,
            now_ms,
        );
        let ghost s3 = self.entity_uid_to_entity@;
        let ghost oe = s3[owner_idx as int];
        proof {
            lemma_after_owner_update(s2, s3, owner_idx as int);
        }
        // Character-wide totals follow the owner's counters.
        let owner_is_char = self.entity_uid_to_entity[owner_idx].entity_type
            == EntityType::Character;
        proof {
            let dmg_new: int = if oe.entity_type == EntityType::Character {
                oe.damage.total as int
            } else {
                0
            };
            let boss_new: int = if oe.entity_type == EntityType::Character {
                oe.damage_boss_only.total as int
            } else {
                0
            };
            assert(char_heal_totals(s2)[owner_idx as int] == char_heal_totals(s3)[owner_idx as int]);
            lemma_sum_update(char_dmg_totals(s2), owner_idx as int, dmg_new);
            lemma_sum_update(char_heal_totals(s2), owner_idx as int, char_heal_totals(s3)[owner_idx as int]);
            lemma_sum_update(char_boss_totals(s2), owner_idx as int, boss_new);
            lemma_boss_sum_le_dmg_sum(s2);
            assert(char_dmg_totals(s3) =~= char_dmg_totals(s2).update(owner_idx as int, dmg_new));
            assert(char_heal_totals(s3) =~= char_heal_totals(s2).update(
                owner_idx as int,
                char_heal_totals(s3)[owner_idx as int],
            ));
            assert(char_boss_totals(s3) =~= char_boss_totals(s2).update(owner_idx as int, boss_new));
        }
        if owner_is_char {
            self.total_dmg = self.total_dmg + v;
            if target_is_boss {
                self.total_dmg_boss_only = self.total_dmg_boss_only + v;
            }
        }
        self.advance_clock(now_ms);
        proof {
            assert(char_dmg_totals(s2)[owner_idx as int] == if oe_pre.entity_type
                == EntityType::Character {
                oe_pre.damage.total as int
            } else {
                0
            });
            assert(char_boss_totals(s2)[owner_idx as int] == if oe_pre.entity_type
                == EntityType::Character {
                oe_pre.damage_boss_only.total as int
            } else {
                0
            });
            if target_is_boss {
                assert(oe_pre.damage_boss_only.total + v <= u128::MAX) by {
                    reveal(crate::entity::Entity::wf);
                    assert(oe_pre.wf());
                }
                assert(oe.damage_boss_only.total == oe_pre.damage_boss_only.total + v);
            } else {
                assert(oe.damage_boss_only == oe_pre.damage_boss_only);
            }
            assert(self.total_dmg == sum_ints(char_dmg_totals(s3)));
            assert(self.total_heal == sum_ints(char_heal_totals(s3)));
            assert(self.total_dmg_boss_only == sum_ints(char_boss_totals(s3)));
        }
    }

    /// The heal arm of [`Encounter::apply_combat_delta`].
    #[verifier::rlimit(100)]
    #[verifier::spinoff_prover]
    fn apply_delta_heal(&mut self, d: CombatDelta, now_ms: u64)
        requires
            old(self).wf(),
            now_ms > 0,
            d.kind == DeltaKind::Heal,
            old(self).spec_delta_fits(d),
        ensures
            final(self).wf(),
            spec_delta_applied(*old(self), *final(self), d, now_ms),
    {
        let ghost s0 = self.entity_uid_to_entity@;
        let ghost pre = *self;
        let v: u128 = d.value as u128;

        let mut target_name: Option<String> = None;
        match self.find_entity_index(d.target_id) {
            Some(ti) => {
                let t = &self.entity_uid_to_entity[ti];
                if !t.name.as_str().is_empty() {
                    target_name = Some(t.name.clone());
                } else {
                    target_name = match &t.monster_name_packet {
                        Some(n) => Some(n.clone()),
                        None => None,
                    };
                }
            },
            None => {},
        }
        let new_type = if d.target_id == d.owner_id {
            d.owner_type
        } else {
            EntityType::Other
        };
        let _ti = self.ensure_entity(d.target_id, new_type);
        let ghost sa = self.entity_uid_to_entity@;
        proof {
            assert(opt_name_view(target_name) == ent_target_name(s0, d.target_id));
            assert(forall|id: i64| id != d.target_id ==> find_entity(sa, id) == find_entity(
                s0,
                id,
            ));
        }
        let owner_idx = self.ensure_entity(d.owner_id, d.owner_type);
        let ghost s2 = self.entity_uid_to_entity@;
        let ghost oe_pre = s2[owner_idx as int];
        proof {
            assert(find_entity(s2, d.owner_id) == Some(oe_pre));
            assert(oe_pre.entity_id == d.owner_id);
            assert(oe_pre.entity_type == ent_type_or(s0, d.owner_id, d.owner_type));
            assert(oe_pre.damage == ent_damage(s0, d.owner_id));
            assert(oe_pre.healing == ent_healing(s0, d.owner_id));
            assert(oe_pre.taken == ent_taken(s0, d.owner_id));
            assert(oe_pre.damage_boss_only == ent_boss_only(s0, d.owner_id));
            assert(oe_pre.skill_uid_to_heal_skill@ =~= ent_heal_skills(s0, d.owner_id));
            assert((oe_pre.active_dmg_time_ms, oe_pre.last_dmg_ms) == ent_active(s0, d.owner_id));
            assert(self.total_dmg == sum_ints(char_dmg_totals(s2)));
            assert(self.total_heal == sum_ints(char_heal_totals(s2)));
            assert(self.total_dmg_boss_only == sum_ints(char_boss_totals(s2)));
        }

        let e = &mut self.entity_uid_to_entity[owner_idx];
        e.apply_heal_hit(d.skill_id, d.target_id, target_name, v, d.is_crit, d.is_lucky);
        let ghost s3 = self.entity_uid_to_entity@;
        let ghost oe = s3[owner_idx as int];
        proof {
            lemma_after_owner_update(s2, s3, owner_idx as int);
        }
        let owner_is_char = self.entity_uid_to_entity[owner_idx].entity_type
            == EntityType::Character;
        proof {
            assert(char_dmg_totals(s2)[owner_idx as int] == char_dmg_totals(s3)[owner_idx as int]);
            assert(char_boss_totals(s2)[owner_idx as int] == char_boss_totals(s3)[owner_idx as int]);
            let heal_new: int = if oe.entity_type == EntityType::Character {
                oe.healing.total as int
            } else {
                0
            };
            lemma_sum_update(char_dmg_totals(s2), owner_idx as int, char_dmg_totals(s3)[owner_idx as int]);
            lemma_sum_update(char_heal_totals(s2), owner_idx as int, heal_new);
            lemma_sum_update(char_boss_totals(s2), owner_idx as int, char_boss_totals(s3)[owner_idx as int]);
            assert(char_dmg_totals(s3) =~= char_dmg_totals(s2).update(
                owner_idx as int,
                char_dmg_totals(s3)[owner_idx as int],
            ));
            assert(char_heal_totals(s3) =~= char_heal_totals(s2).update(owner_idx as int, heal_new));
            assert(char_boss_totals(s3) =~= char_boss_totals(s2).update(
                owner_idx as int,
                char_boss_totals(s3)[owner_idx as int],
            ));
        }
        if owner_is_char {
            self.total_heal = self.total_heal + v;
        }
        self.advance_clock(now_ms);
        proof {
            assert(self.total_dmg == sum_ints(char_dmg_totals(s3)));
            assert(self.total_heal == sum_ints(char_heal_totals(s3)));
            assert(self.total_dmg_boss_only == sum_ints(char_boss_totals(s3)));
        }
    }

    /// The damage-taken arm of [`Encounter::apply_combat_delta`].
    #[verifier::rlimit(100)]
    #[verifier::spinoff_prover]
    fn apply_delta_taken(&mut self, d: CombatDelta, now_ms: u64)
        requires
            old(self).wf(),
            now_ms > 0,
            d.kind == DeltaKind::Taken,
            old(self).spec_delta_fits(d),
        ensures
            final(self).wf(),
            spec_delta_applied(*old(self), *final(self), d, now_ms),
    {
        let ghost s0 = self.entity_uid_to_entity@;
        let ghost pre = *self;
        let v: u128 = d.value as u128;

        let owner_idx = self.ensure_entity(d.owner_id, d.owner_type);
        let ghost s2 = self.entity_uid_to_entity@;
        let ghost oe_pre = s2[owner_idx as int];
        proof {
            assert(find_entity(s2, d.owner_id) == Some(oe_pre));
            assert(oe_pre.entity_id == d.owner_id);
            assert(oe_pre.entity_type == ent_type_or(s0, d.owner_id, d.owner_type));
            assert(oe_pre.damage == ent_damage(s0, d.owner_id));
            assert(oe_pre.healing == ent_healing(s0, d.owner_id));
            assert(oe_pre.taken == ent_taken(s0, d.owner_id));
            assert(oe_pre.damage_boss_only == ent_boss_only(s0, d.owner_id));
            assert(oe_pre.skill_uid_to_taken_skill@ =~= ent_taken_skills(s0, d.owner_id));
            assert((oe_pre.active_dmg_time_ms, oe_pre.last_dmg_ms) == ent_active(s0, d.owner_id));
            assert(self.total_dmg == sum_ints(char_dmg_totals(s2)));
            assert(self.total_heal == sum_ints(char_heal_totals(s2)));
            assert(self.total_dmg_boss_only == sum_ints(char_boss_totals(s2)));
        }

        let e = &mut self.entity_uid_to_entity[owner_idx];
        e.apply_taken_hit(d.skill_id, v, d.is_crit, d.is_lucky);
        let ghost s3 = self.entity_uid_to_entity@;
        let ghost oe = s3[owner_idx as int];
        proof {
            lemma_after_owner_update(s2, s3, owner_idx as int);
            assert(char_dmg_totals(s2)[owner_idx as int] == char_dmg_totals(s3)[owner_idx as int]);
            assert(char_heal_totals(s2)[owner_idx as int] == char_heal_totals(s3)[owner_idx as int]);
            assert(char_boss_totals(s2)[owner_idx as int] == char_boss_totals(s3)[owner_idx as int]);
            lemma_sum_update(char_dmg_totals(s2), owner_idx as int, char_dmg_totals(s3)[owner_idx as int]);
            lemma_sum_update(char_heal_totals(s2), owner_idx as int, char_heal_totals(s3)[owner_idx as int]);
            lemma_sum_update(char_boss_totals(s2), owner_idx as int, char_boss_totals(s3)[owner_idx as int]);
            assert(char_dmg_totals(s3) =~= char_dmg_totals(s2).update(
                owner_idx as int,
                char_dmg_totals(s3)[owner_idx as int],
            ));
            assert(char_heal_totals(s3) =~= char_heal_totals(s2).update(
                owner_idx as int,
                char_heal_totals(s3)[owner_idx as int],
            ));
            assert(char_boss_totals(s3) =~= char_boss_totals(s2).update(
                owner_idx as int,
                char_boss_totals(s3)[owner_idx as int],
            ));
        }
        self.advance_clock(now_ms);
        proof {
            assert(self.total_dmg == sum_ints(char_dmg_totals(s3)));
            assert(self.total_heal == sum_ints(char_heal_totals(s3)));
            assert(self.total_dmg_boss_only == sum_ints(char_boss_totals(s3)));
        }
    }

    /// Advance the fight clock for an applied combat packet: the first hit
    /// starts the fight, later packets only move the last-packet stamp
    /// forward.
    fn advance_clock(&mut self, now_ms: u64)
        requires
            now_ms > 0,
        ensures
            (final(self).time_fight_start_ms, final(self).time_last_combat_packet_ms)
                == spec_times_after(
                old(self).time_fight_start_ms,
                old(self).time_last_combat_packet_ms,
                now_ms,
            ),
            final(self).time_fight_start_ms > 0,
            *final(self) == (Encounter {
                time_fight_start_ms: final(self).time_fight_start_ms,
                time_last_combat_packet_ms: final(self).time_last_combat_packet_ms,
                ..*old(self)
            }),
    {
        if self.time_fight_start_ms == 0 {
            self.time_fight_start_ms = now_ms;
            self.time_last_combat_packet_ms = now_ms;
        } else if now_ms > self.time_last_combat_packet_ms {
            self.time_last_combat_packet_ms = now_ms;
        }
    }
}

/// After an in-place update of one entity, ids and the other entities are
/// as before, the updated entity is found under its id, and every entity is
/// still well-formed provided the updated one is.
proof fn lemma_after_owner_update(s2: Seq<Entity>, s3: Seq<Entity>, i: int)
    requires
        entity_ids_unique(s2),
        entities_wf(s2),
        0 <= i < s2.len(),
        s3 == s2.update(i, s3[i]),
        s3[i].entity_id == s2[i].entity_id,
        s3[i].wf(),
    ensures
        entity_ids_unique(s3),
        entities_wf(s3),
        find_entity(s3, s2[i].entity_id) == Some(s3[i]),
        forall|id: i64| id != s2[i].entity_id ==> find_entity(s3, id) == find_entity(s2, id),
{
    assert(forall|j: int| 0 <= j < s3.len() ==> s3[j].entity_id == s2[j].entity_id);
    assert(entity_ids_unique(s3));
    assert forall|j: int| 0 <= j < s3.len() implies (#[trigger] s3[j]).wf() by {
        if j != i {
            assert(s3[j] == s2[j]);
        }
    }
    lemma_find_entity_at(s3, i);
    assert forall|id: i64| id != s2[i].entity_id implies find_entity(s3, id) == find_entity(
        s2,
        id,
    ) by {
        lemma_find_entity_update(s2, i, s3[i], id);
    }
}

} // verus!

verus! {

/// `post` is `pre` with its combat record cleared: identity, classification
/// and attributes kept, every counter and table empty, the active-time
/// tracker unset.
pub open spec fn spec_combat_cleared(pre: Entity, post: Entity) -> bool {
    &&& post.entity_id == pre.entity_id
    &&& post.entity_type == pre.entity_type
    &&& post.is_boss_flag == pre.is_boss_flag
    &&& post.name == pre.name
    &&& post.monster_name_packet == pre.monster_name_packet
    &&& post.class_id == pre.class_id
    &&& post.class_spec == pre.class_spec
    &&& post.ability_score == pre.ability_score
    &&& post.attrs == pre.attrs
    &&& post.damage == spec_stats_zero()
    &&& post.healing == spec_stats_zero()
    &&& post.taken == spec_stats_zero()
    &&& post.damage_boss_only == spec_stats_zero()
    &&& post.skill_uid_to_dmg_skill@.len() == 0
    &&& post.skill_uid_to_heal_skill@.len() == 0
    &&& post.skill_uid_to_taken_skill@.len() == 0
    &&& post.skill_dmg_to_target@.len() == 0
    &&& post.skill_heal_to_target@.len() == 0
    &&& post.dmg_to_target@.len() == 0
    &&& post.active_dmg_time_ms == 0
    &&& post.last_dmg_ms == 0
    &&& !post.spec_has_combat()
}

/// `post` is `pre` after a full combat reset: the entity roster keeps its
/// identities with all counters cleared, the totals and the fight clock are
/// zero, and scene context, local player and pause flag are untouched.
pub open spec fn spec_encounter_reset(pre: Encounter, post: Encounter) -> bool {
    &&& post.entity_uid_to_entity@.len() == pre.entity_uid_to_entity@.len()
    &&& (forall|i: int|
        0 <= i < pre.entity_uid_to_entity@.len() ==> spec_combat_cleared(
            pre.entity_uid_to_entity@[i],
            #[trigger] post.entity_uid_to_entity@[i],
        ))
    &&& post.total_dmg == 0
    &&& post.total_heal == 0
    &&& post.total_dmg_boss_only == 0
    &&& post.time_fight_start_ms == 0
    &&& post.time_last_combat_packet_ms == 0
    &&& post.current_scene_id == pre.current_scene_id
    &&& post.current_scene_name == pre.current_scene_name
    &&& post.local_player_uid == pre.local_player_uid
    &&& post.is_encounter_paused == pre.is_encounter_paused
}

impl Encounter {
    /// Clear all combat state while keeping every entity's identity, the
    /// scene context, the local player and the pause flag.
    pub fn reset_combat_state(&mut self)
        requires
            old(self).wf(),
        ensures
            final(self).wf(),
            spec_encounter_reset(*old(self), *final(self)),
            !final(self).spec_has_started(),
    {
        let ghost s0 = self.entity_uid_to_entity@;
        let n: usize = self.entity_uid_to_entity.len();
        let mut i: usize = 0;
        while i < n
            invariant
                n == self.entity_uid_to_entity@.len(),
                s0.len() == n,
                0 <= i <= n,
                entity_ids_unique(s0),
                entities_wf(s0),
                forall|j: int| i <= j < n ==> self.entity_uid_to_entity@[j] == s0[j],
                forall|j: int|
                    0 <= j < i ==> spec_combat_cleared(
                        s0[j],
                        #[trigger] self.entity_uid_to_entity@[j],
                    ),
                s0 == old(self).entity_uid_to_entity@,
                self.current_scene_id == old(self).current_scene_id,
                self.current_scene_name == old(self).current_scene_name,
                self.local_player_uid == old(self).local_player_uid,
                self.is_encounter_paused == old(self).is_encounter_paused,
            decreases n - i,
        {
            proof {
                reveal(crate::entity::Entity::wf);
                assert(s0[i as int].wf());
            }
            let e = &mut self.entity_uid_to_entity[i];
            e.reset_combat();
            i = i + 1;
        }
        self.total_dmg = 0;
        self.total_heal = 0;
        self.total_dmg_boss_only = 0;
        self.time_fight_start_ms = 0;
        self.time_last_combat_packet_ms = 0;
        proof {
            let s1 = self.entity_uid_to_entity@;
            assert(forall|j: int| 0 <= j < s1.len() ==> s1[j].entity_id == s0[j].entity_id);
            assert(entity_ids_unique(s1));
            assert forall|j: int| 0 <= j < s1.len() implies (#[trigger] s1[j]).wf() by {
                assert(spec_combat_cleared(s0[j], s1[j]));
                assert(s0[j].wf());
                reveal(crate::entity::Entity::wf);
                crate::entity::lemma_empty_tables_sums();
                assert(s1[j].skill_uid_to_dmg_skill@ =~= Seq::<Skill>::empty());
                assert(s1[j].skill_uid_to_heal_skill@ =~= Seq::<Skill>::empty());
                assert(s1[j].skill_uid_to_taken_skill@ =~= Seq::<Skill>::empty());
                assert(s1[j].skill_dmg_to_target@ =~= Seq::<SkillTargetStats>::empty());
                assert(s1[j].skill_heal_to_target@ =~= Seq::<SkillTargetStats>::empty());
                assert(s1[j].dmg_to_target@ =~= Seq::<TargetTotal>::empty());
            }
            assert(forall|j: int| 0 <= j < s1.len() ==> char_dmg_totals(s1)[j] == 0);
            assert(forall|j: int| 0 <= j < s1.len() ==> char_heal_totals(s1)[j] == 0);
            assert(forall|j: int| 0 <= j < s1.len() ==> char_boss_totals(s1)[j] == 0);
            lemma_sum_zero(char_dmg_totals(s1));
            lemma_sum_zero(char_heal_totals(s1));
            lemma_sum_zero(char_boss_totals(s1));
        }
    }
}

} // verus!

verus! {

/// When no entity carries `id`, the lookup fails.
pub proof fn lemma_absent_entity(s: Seq<Entity>, id: i64)
    requires
        forall|j: int| 0 <= j < s.len() ==> (#[trigger] s[j]).entity_id != id,
    ensures
        find_entity(s, id) is None,
    decreases s.len(),
{
    if s.len() > 0 {
        assert(forall|j: int|
            0 <= j < s.drop_first().len() ==> (#[trigger] s.drop_first()[j]).entity_id != id);
        lemma_absent_entity(s.drop_first(), id);
    }
}

} // verus!

verus! {

use crate::entity::{AttrEntry, AttrValue, attr_ids_unique, find_attr};

/// One entity record carried by a sync packet: identity fields that are
/// present are applied, absent ones leave the stored value.
#[derive(Debug, Clone, PartialEq, Eq)]
pub struct EntityUpdate {
    /// The entity the update belongs to.
    pub entity_id: i64,
    /// Classification; applied only while the entity has no combat yet,
    /// so running totals keep their meaning.
    pub entity_type: Option<EntityType>,
    /// The server-marked boss flag.
    pub is_boss_flag: Option<bool>,
    /// The display name.
    pub name: Option<String>,
    /// The monster name observed in the packet.
    pub monster_name: Option<String>,
    /// The class id.
    pub class_id: Option<i32>,
    /// The class specialisation.
    pub class_spec: Option<i32>,
    /// The ability score.
    pub ability_score: Option<i32>,
    /// Attribute values, applied in order (a later entry wins).
    pub attrs: Vec<AttrEntry>,
}

/// The last value an update list gives an attribute id, if any.
pub open spec fn spec_attrs_last(s: Seq<AttrEntry>, id: i32) -> Option<AttrValue>
    decreases s.len(),
{
    if s.len() == 0 {
        None
    } else if s.last().id == id {
        Some(s.last().value)
    } else {
        spec_attrs_last(s.drop_last(), id)
    }
}

/// Everything an applied entity update changes, relating the encounter
/// after (`post`) to the one before (`pre`): the entity exists afterwards,
/// its identity fields follow the update, its combat record is untouched,
/// and nothing else changes.
pub open spec fn spec_entity_update_applied(pre: Encounter, post: Encounter, upd: EntityUpdate) -> bool {
    let s0 = pre.entity_uid_to_entity@;
    let s1 = post.entity_uid_to_entity@;
    let o = find_entity(s1, upd.entity_id);
    &&& o is Some
    &&& ({
        let oe = o->Some_0;
        let pre_type = ent_type_or(s0, upd.entity_id, EntityType::Other);
        let pre_had_combat = match find_entity(s0, upd.entity_id) {
            Some(e) => e.spec_has_combat(),
            None => false,
        };
        &&& oe.entity_id == upd.entity_id
        &&& oe.entity_type == (match upd.entity_type {
            Some(t) => if pre_had_combat {
                pre_type
            } else {
                t
            },
            None => pre_type,
        })
        &&& oe.is_boss_flag == (match upd.is_boss_flag {
            Some(b) => b,
            None => match find_entity(s0, upd.entity_id) {
                Some(e) => e.is_boss_flag,
                None => false,
            },
        })
        &&& oe.name@ == (match upd.name {
            Some(nm) => nm@,
            None => match find_entity(s0, upd.entity_id) {
                Some(e) => e.name@,
                None => Seq::<char>::empty(),
            },
        })
        &&& oe.damage == ent_damage(s0, upd.entity_id)
        &&& oe.healing == ent_healing(s0, upd.entity_id)
        &&& oe.taken == ent_taken(s0, upd.entity_id)
        &&& oe.damage_boss_only == ent_boss_only(s0, upd.entity_id)
        &&& oe.skill_uid_to_dmg_skill@ == ent_dmg_skills(s0, upd.entity_id)
        &&& oe.skill_uid_to_heal_skill@ == ent_heal_skills(s0, upd.entity_id)
        &&& oe.skill_uid_to_taken_skill@ == ent_taken_skills(s0, upd.entity_id)
        &&& (oe.active_dmg_time_ms, oe.last_dmg_ms) == ent_active(s0, upd.entity_id)
        &&& (forall|id: i32| #![trigger find_attr(oe.attrs@, id)]
            find_attr(oe.attrs@, id) == (match spec_attrs_last(upd.attrs@, id) {
                Some(v) => Some(v),
                None => match find_entity(s0, upd.entity_id) {
                    Some(e) => find_attr(e.attrs@, id),
                    None => None,
                },
            }))
    })
    &&& (forall|id: i64| id != upd.entity_id ==> find_entity(s1, id) == find_entity(s0, id))
    &&& post.total_dmg == pre.total_dmg
    &&& post.total_heal == pre.total_heal
    &&& post.total_dmg_boss_only == pre.total_dmg_boss_only
    &&& post.time_fight_start_ms == pre.time_fight_start_ms
    &&& post.time_last_combat_packet_ms == pre.time_last_combat_packet_ms
    &&& post.current_scene_id == pre.current_scene_id
    &&& post.current_scene_name == pre.current_scene_name
    &&& post.local_player_uid == pre.local_player_uid
    &&& post.is_encounter_paused == pre.is_encounter_paused
}

impl Encounter {
    /// Create or update the entity an entity-sync packet describes:
    /// identity fields present in the update are applied, its attribute
    /// entries are stored in order, and the combat record is untouched.
    /// Classification is only applied while the entity has no combat, so
    /// the running character totals keep their meaning.
    #[verifier::rlimit(100)]
    #[verifier::spinoff_prover]
    pub fn apply_entity_update(&mut self, upd: EntityUpdate)
        requires
            old(self).wf(),
        ensures
            final(self).wf(),
            spec_entity_update_applied(*old(self), *final(self), upd),
    {
        let ghost s0 = self.entity_uid_to_entity@;
        let ghost pre = *self;
        let initial_type = match upd.entity_type {
            Some(t) => t,
            None => EntityType::Other,
        };
        let idx = self.ensure_entity(upd.entity_id, initial_type);
        let ghost s2 = self.entity_uid_to_entity@;
        let ghost oe_pre = s2[idx as int];
        proof {
            assert(find_entity(s2, upd.entity_id) == Some(oe_pre));
            assert(oe_pre.damage == ent_damage(s0, upd.entity_id));
            assert(oe_pre.healing == ent_healing(s0, upd.entity_id));
            assert(oe_pre.taken == ent_taken(s0, upd.entity_id));
            assert(oe_pre.damage_boss_only == ent_boss_only(s0, upd.entity_id));
            assert(oe_pre.skill_uid_to_dmg_skill@ =~= ent_dmg_skills(s0, upd.entity_id));
            assert(oe_pre.skill_uid_to_heal_skill@ =~= ent_heal_skills(s0, upd.entity_id));
            assert(oe_pre.skill_uid_to_taken_skill@ =~= ent_taken_skills(s0, upd.entity_id));
            assert((oe_pre.active_dmg_time_ms, oe_pre.last_dmg_ms) == ent_active(s0, upd.entity_id));
            assert(self.total_dmg == sum_ints(char_dmg_totals(s2)));
            assert(self.total_heal == sum_ints(char_heal_totals(s2)));
            assert(self.total_dmg_boss_only == sum_ints(char_boss_totals(s2)));
        }
        let e = &mut self.entity_uid_to_entity[idx];
        e.apply_identity_update(upd);
        let ghost s3 = self.entity_uid_to_entity@;
        let ghost oe = s3[idx as int];
        proof {
            lemma_after_owner_update(s2, s3, idx as int);
            if oe.entity_type != oe_pre.entity_type {
                reveal(crate::entity::Entity::wf);
                assert(oe_pre.wf());
                assert(!oe_pre.spec_has_combat());
                assert(oe_pre.damage.total == 0);
                assert(oe_pre.healing.total == 0);
                assert(oe_pre.damage_boss_only.total == 0);
            }
            assert(char_dmg_totals(s2)[idx as int] == char_dmg_totals(s3)[idx as int]);
            assert(char_heal_totals(s2)[idx as int] == char_heal_totals(s3)[idx as int]);
            assert(char_boss_totals(s2)[idx as int] == char_boss_totals(s3)[idx as int]);
            lemma_sum_update(char_dmg_totals(s2), idx as int, char_dmg_totals(s3)[idx as int]);
            lemma_sum_update(char_heal_totals(s2), idx as int, char_heal_totals(s3)[idx as int]);
            lemma_sum_update(char_boss_totals(s2), idx as int, char_boss_totals(s3)[idx as int]);
            assert(char_dmg_totals(s3) =~= char_dmg_totals(s2).update(
                idx as int,
                char_dmg_totals(s3)[idx as int],
            ));
            assert(char_heal_totals(s3) =~= char_heal_totals(s2).update(
                idx as int,
                char_heal_totals(s3)[idx as int],
            ));
            assert(char_boss_totals(s3) =~= char_boss_totals(s2).update(
                idx as int,
                char_boss_totals(s3)[idx as int],
            ));
        }
    }
}

} // verus!

verus! {

impl Entity {
    /// Apply the identity fields of an update to this record: present
    /// fields are stored, attribute entries are applied in order, the
    /// combat record is untouched, and the classification changes only
    /// while no combat was recorded.
    pub fn apply_identity_update(&mut self, upd: EntityUpdate)
        requires
            old(self).wf(),
        ensures
            final(self).wf(),
            final(self).entity_id == old(self).entity_id,
            final(self).entity_type == (match upd.entity_type {
                Some(t) => if old(self).spec_has_combat() {
                    old(self).entity_type
                } else {
                    t
                },
                None => old(self).entity_type,
            }),
            final(self).is_boss_flag == (match upd.is_boss_flag {
                Some(b) => b,
                None => old(self).is_boss_flag,
            }),
            final(self).name@ == (match upd.name {
                Some(nm) => nm@,
                None => old(self).name@,
            }),
            crate::tables::opt_name_view(final(self).monster_name_packet) == (
            match upd.monster_name {
                Some(nm) => Some(nm@),
                None => crate::tables::opt_name_view(old(self).monster_name_packet),
            }),
            final(self).class_id == (match upd.class_id {
                Some(v) => v,
                None => old(self).class_id,
            }),
            final(self).class_spec == (match upd.class_spec {
                Some(v) => v,
                None => old(self).class_spec,
            }),
            final(self).ability_score == (match upd.ability_score {
                Some(v) => v,
                None => old(self).ability_score,
            }),
            forall|id: i32| #![trigger find_attr(final(self).attrs@, id)]
                find_attr(final(self).attrs@, id) == (match spec_attrs_last(upd.attrs@, id) {
                    Some(v) => Some(v),
                    None => find_attr(old(self).attrs@, id),
                }),
            final(self).damage == old(self).damage,
            final(self).healing == old(self).healing,
            final(self).taken == old(self).taken,
            final(self).damage_boss_only == old(self).damage_boss_only,
            final(self).skill_uid_to_dmg_skill == old(self).skill_uid_to_dmg_skill,
            final(self).skill_uid_to_heal_skill == old(self).skill_uid_to_heal_skill,
            final(self).skill_uid_to_taken_skill == old(self).skill_uid_to_taken_skill,
            final(self).skill_dmg_to_target == old(self).skill_dmg_to_target,
            final(self).skill_heal_to_target == old(self).skill_heal_to_target,
            final(self).dmg_to_target == old(self).dmg_to_target,
            final(self).active_dmg_time_ms == old(self).active_dmg_time_ms,
            final(self).last_dmg_ms == old(self).last_dmg_ms,
    {
        proof {
            reveal(crate::entity::Entity::wf);
        }
        let has_combat = self.has_combat();
        match upd.entity_type {
            Some(t) => {
                if !has_combat {
                    self.entity_type = t;
                }
            },
            None => {},
        }
        match upd.is_boss_flag {
            Some(b) => {
                self.is_boss_flag = b;
            },
            None => {},
        }
        match upd.name {
            Some(nm) => {
                self.name = nm;
            },
            None => {},
        }
        match upd.monster_name {
            Some(nm) => {
                self.monster_name_packet = Some(nm);
            },
            None => {},
        }
        match upd.class_id {
            Some(v) => {
                self.class_id = v;
            },
            None => {},
        }
        match upd.class_spec {
            Some(v) => {
                self.class_spec = v;
            },
            None => {},
        }
        match upd.ability_score {
            Some(v) => {
                self.ability_score = v;
            },
            None => {},
        }
        let mut updates = upd.attrs;
        let ghost all = updates@;
        let ghost base = self.attrs@;
        let mut i: usize = 0;
        proof {
            assert(all.take(0int) =~= Seq::<AttrEntry>::empty());
            assert(all.len() == updates.len());
        }
        while updates.len() > 0
            invariant
                i + updates@.len() == all.len(),
                all.len() <= usize::MAX,
                updates@ =~= all.skip(i as int),
                attr_ids_unique(self.attrs@),
                forall|id: i32| #![trigger find_attr(self.attrs@, id)]
                    find_attr(self.attrs@, id) == (match spec_attrs_last(
                        all.take(i as int),
                        id,
                    ) {
                        Some(v) => Some(v),
                        None => find_attr(base, id),
                    }),
                self.entity_id == old(self).entity_id,
                self.entity_type == (match upd.entity_type {
                    Some(t) => if old(self).spec_has_combat() {
                        old(self).entity_type
                    } else {
                        t
                    },
                    None => old(self).entity_type,
                }),
                self.is_boss_flag == (match upd.is_boss_flag {
                    Some(b) => b,
                    None => old(self).is_boss_flag,
                }),
                self.name@ == (match upd.name {
                    Some(nm) => nm@,
                    None => old(self).name@,
                }),
                crate::tables::opt_name_view(self.monster_name_packet) == (
                match upd.monster_name {
                    Some(nm) => Some(nm@),
                    None => crate::tables::opt_name_view(old(self).monster_name_packet),
                }),
                self.class_id == (match upd.class_id {
                    Some(v) => v,
                    None => old(self).class_id,
                }),
                self.class_spec == (match upd.class_spec {
                    Some(v) => v,
                    None => old(self).class_spec,
                }),
                self.ability_score == (match upd.ability_score {
                    Some(v) => v,
                    None => old(self).ability_score,
                }),
                self.damage == old(self).damage,
                self.healing == old(self).healing,
                self.taken == old(self).taken,
                self.damage_boss_only == old(self).damage_boss_only,
                self.skill_uid_to_dmg_skill == old(self).skill_uid_to_dmg_skill,
                self.skill_uid_to_heal_skill == old(self).skill_uid_to_heal_skill,
                self.skill_uid_to_taken_skill == old(self).skill_uid_to_taken_skill,
                self.skill_dmg_to_target == old(self).skill_dmg_to_target,
                self.skill_heal_to_target == old(self).skill_heal_to_target,
                self.dmg_to_target == old(self).dmg_to_target,
                self.active_dmg_time_ms == old(self).active_dmg_time_ms,
                self.last_dmg_ms == old(self).last_dmg_ms,
            decreases updates@.len(),
        {
            let entry = updates.remove(0);
            proof {
                assert(entry == all[i as int]);
                assert(all.skip(i as int).drop_first() =~= all.skip(i as int + 1));
            }
            self.set_attr(entry.id, entry.value);
            i = i + 1;
            proof {
                lemma_attrs_last_push_take(all, i as int);
                assert forall|id: i32| true implies #[trigger] find_attr(self.attrs@, id) == (
                match spec_attrs_last(all.take(i as int), id) {
                    Some(v) => Some(v),
                    None => find_attr(base, id),
                }) by {
                    assert(all.take(i as int).drop_last() =~= all.take(i as int - 1));
                    assert(all.take(i as int).last() == all[i as int - 1]);
                }
            }
        }
        proof {
            assert(all.take(all.len() as int) =~= all);
            reveal(crate::entity::Entity::wf);
        }
    }
}

/// Unfolding the last element of a longer prefix.
proof fn lemma_attrs_last_push_take(all: Seq<AttrEntry>, i: int)
    requires
        1 <= i <= all.len(),
    ensures
        all.take(i).len() == i,
        all.take(i).drop_last() =~= all.take(i - 1),
        all.take(i).last() == all[i - 1],
{
}

} // verus!

verus! {

/// When an entity is found for `id`, it stands at some index carrying `id`.
pub proof fn lemma_find_entity_some_index(s: Seq<Entity>, id: i64)
    requires
        find_entity(s, id) is Some,
    ensures
        exists|i: int|
            0 <= i < s.len() && (#[trigger] s[i]).entity_id == id && s[i] == find_entity(
                s,
                id,
            )->Some_0,
    decreases s.len(),
{
    if s.len() > 0 && s[0].entity_id != id {
        lemma_find_entity_some_index(s.drop_first(), id);
        let j = choose|j: int|
            0 <= j < s.drop_first().len() && (#[trigger] s.drop_first()[j]).entity_id == id
                && s.drop_first()[j] == find_entity(s.drop_first(), id)->Some_0;
        assert(s[j + 1] == s.drop_first()[j]);
    }
}

} // verus!
