//! The library's standing laws, stated once over the spec functions the
//! contracts use and proved from the well-formedness the operations keep.

use vstd::prelude::*;

use crate::aggregator::{AppState, spec_full_reset};
use crate::encounter::{Encounter, char_dmg_totals, char_heal_totals, spec_encounter_reset};
use crate::entity::Entity;
use crate::stats::spec_stats_zero;
use crate::sums::sum_ints;
use crate::tables::{skill_hits, skill_totals, st_totals, target_totals};

verus! {

/// For every entity and every category, the category's total and hit count
/// equal the sums over its per-skill rows.
pub proof fn lemma_category_totals_are_skill_sums(e: Entity)
    requires
        e.wf(),
    ensures
        e.damage.total == sum_ints(skill_totals(e.skill_uid_to_dmg_skill@)),
        e.damage.hits == sum_ints(skill_hits(e.skill_uid_to_dmg_skill@)),
        e.healing.total == sum_ints(skill_totals(e.skill_uid_to_heal_skill@)),
        e.healing.hits == sum_ints(skill_hits(e.skill_uid_to_heal_skill@)),
        e.taken.total == sum_ints(skill_totals(e.skill_uid_to_taken_skill@)),
        e.taken.hits == sum_ints(skill_hits(e.skill_uid_to_taken_skill@)),
{
    reveal(crate::entity::Entity::wf);
}

/// An entity's damage total equals the sum of its per-target totals, and
/// also the sum of its per-(skill, target) rows.
pub proof fn lemma_damage_total_is_target_sum(e: Entity)
    requires
        e.wf(),
    ensures
        e.damage.total == sum_ints(target_totals(e.dmg_to_target@)),
        e.damage.total == sum_ints(st_totals(e.skill_dmg_to_target@)),
{
    reveal(crate::entity::Entity::wf);
}

/// The encounter's totals equal the sums of its character entities'
/// category totals.
pub proof fn lemma_encounter_totals_are_entity_sums(enc: Encounter)
    requires
        enc.wf(),
    ensures
        enc.total_dmg == sum_ints(char_dmg_totals(enc.entity_uid_to_entity@)),
        enc.total_heal == sum_ints(char_heal_totals(enc.entity_uid_to_entity@)),
{
}

/// After any encounter reset, every counter is zero, the fight clock is
/// unset, the active buffs and the skill subscriptions are empty, and the
/// entity roster keeps its identities.
pub proof fn lemma_reset_clears_counters(pre: AppState, post: AppState, is_manual: bool)
    requires
        spec_full_reset(pre, post, is_manual),
    ensures
        post.encounter.total_dmg == 0,
        post.encounter.total_heal == 0,
        post.encounter.time_fight_start_ms == 0,
        post.encounter.time_last_combat_packet_ms == 0,
        post.buffs.active_buffs@.len() == 0,
        post.skill_subscriptions@.len() == 0,
        post.encounter.entity_uid_to_entity@.len() == pre.encounter.entity_uid_to_entity@.len(),
        forall|i: int|
            0 <= i < pre.encounter.entity_uid_to_entity@.len() ==> {
                let before = pre.encounter.entity_uid_to_entity@[i];
                let after = #[trigger] post.encounter.entity_uid_to_entity@[i];
                &&& after.entity_id == before.entity_id
                &&& after.name == before.name
                &&& after.damage == spec_stats_zero()
                &&& after.healing == spec_stats_zero()
                &&& after.taken == spec_stats_zero()
            },
{
}

/// After a server change, the reset invariants hold and the battle state
/// machine starts over.
pub proof fn lemma_server_change_reinitializes(pre: AppState, post: AppState)
    requires
        spec_full_reset(pre, post, true),
    ensures
        post.encounter.total_dmg == 0,
        post.encounter.time_fight_start_ms == 0,
        post.buffs.active_buffs@.len() == 0,
        post.skill_subscriptions@.len() == 0,
        post.battle_state.current_objective is None,
        post.battle_state.dungeon_state is None,
        post.battle_state.deferred@.len() == 0,
{
}

} // verus!
