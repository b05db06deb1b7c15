//! The aggregator: owns the live state, consumes decoded packets and
//! control commands, applies combat deltas, routes encounter boundaries,
//! and prepares commits and snapshots.

use vstd::prelude::*;

use crate::battle::{BattleStateMachine, DeferredCall, EncounterResetReason, spec_has_due};
use crate::boundary::BoundaryDetector;
use crate::buffs::{BuffEvent, BuffTracker};
use crate::cooldown::{TempAttr, TempAttrs, calculate_skill_cd, spec_skill_cd};
use crate::dungeon::{DungeonLog, SegmentType};
use crate::encounter::{CombatDelta, Encounter, spec_encounter_reset};
use crate::entity::{AttrEntry, Entity, EntityType};
use crate::models::MetricType;
use crate::scene::SceneRegistry;
use crate::snapshot::{DEFAULT_UPDATE_RATE_MS, EmitThrottle, HeaderInfo, clamp_update_rate, spec_clamp_rate};

verus! {

/// One subscription: a player and the metric whose per-skill window they
/// asked for.
#[derive(Debug, Clone, Copy, PartialEq, Eq, Structural)]
pub struct SkillSubscription {
    /// The player's entity id.
    pub uid: i64,
    /// The metric subscribed to.
    pub metric: MetricType,
}

/// One skill-cooldown record kept for a monitored skill.
#[derive(Debug, Clone, Copy, PartialEq, Eq, Structural)]
pub struct SkillCdState {
    /// The skill-level id.
    pub skill_level_id: i32,
    /// Server timestamp when the cooldown began.
    pub begin_time: i64,
    /// Raw duration in milliseconds; non-positive marks a charge entry.
    pub duration: i32,
    /// The cooldown type value from the wire.
    pub skill_cd_type: i32,
    /// The server-reported valid cooldown time.
    pub valid_cd_time: i32,
    /// Local timestamp when this record was received.
    pub received_at: u64,
    /// Duration after the reduction attributes and temporary modifiers.
    pub calculated_duration: i64,
    /// Acceleration rate in per-10,000 units.
    pub cd_accelerate_rate: i32,
}

/// One cooldown entry of a delta packet.
#[derive(Debug, Clone, Copy, PartialEq, Eq, Structural)]
pub struct SkillCdPacket {
    /// The skill-level id.
    pub skill_level_id: i32,
    /// Server timestamp when the cooldown began.
    pub begin_time: i64,
    /// Raw duration in milliseconds.
    pub duration: i32,
    /// The cooldown type value from the wire.
    pub skill_cd_type: i32,
    /// The server-reported valid cooldown time.
    pub valid_cd_time: i32,
}

/// The live state owned by the aggregator.
#[derive(Debug, Clone)]
pub struct AppState {
    /// The running encounter.
    pub encounter: Encounter,
    /// Which per-skill windows are subscribed.
    pub skill_subscriptions: Vec<SkillSubscription>,
    /// Cooldown records of monitored skills.
    pub skill_cd_map: Vec<SkillCdState>,
    /// Monitored skill ids (cooldown tracking).
    pub monitored_skill_ids: Vec<i32>,
    /// Monitored buff base ids (buff emission).
    pub monitored_buff_ids: Vec<i32>,
    /// Buff priority order for emission.
    pub priority_buff_ids: Vec<i32>,
    /// Whether every buff is emitted.
    pub monitor_all_buff: bool,
    /// The buff tracker.
    pub buffs: BuffTracker,
    /// Whether percentages use boss-only damage.
    pub boss_only_dps: bool,
    /// The boss-death detector.
    pub boundary: BoundaryDetector,
    /// The dungeon log.
    pub dungeon_log: DungeonLog,
    /// Whether dungeon segments are tracked.
    pub dungeon_segments_enabled: bool,
    /// Emission rate in milliseconds.
    pub event_update_rate_ms: u64,
    /// The emission throttle.
    pub throttle: EmitThrottle,
    /// Temporary attribute values.
    pub temp_attrs: TempAttrs,
    /// Fixed cooldown reduction attribute.
    pub attr_skill_cd: i32,
    /// Percentage cooldown reduction attribute, per-10,000.
    pub attr_skill_cd_pct: i32,
    /// Cooldown acceleration attribute, per-10,000.
    pub attr_cd_accelerate_pct: i32,
    /// The battle state machine.
    pub battle_state: BattleStateMachine,
    /// The known scenes.
    pub scene_registry: SceneRegistry,
}

/// What the caller must do after an event was applied: persist a finished
/// encounter, and forward boundary notifications downstream.
#[derive(Debug, Clone)]
pub struct EventEffects {
    /// A finished encounter to persist, when one was committed.
    pub commit: Option<CommitRequest>,
    /// A reset notification is owed downstream.
    pub emit_reset: bool,
    /// A pause notification is owed downstream.
    pub emit_pause: Option<bool>,
    /// A scene-change notification is owed downstream.
    pub scene_changed: bool,
    /// The packet carried combat data while paused and was dropped whole.
    pub dropped_paused: bool,
}

/// Everything the persistence layer needs to store one finished encounter.
#[derive(Debug, Clone)]
pub struct CommitRequest {
    /// When the fight started, epoch milliseconds.
    pub started_at_ms: u64,
    /// When the commit was made, epoch milliseconds.
    pub ended_at_ms: u64,
    /// The local player's entity id.
    pub local_player_id: i64,
    /// Total character damage, saturated to a signed 64-bit column.
    pub total_dmg: i64,
    /// Total character healing, saturated to a signed 64-bit column.
    pub total_heal: i64,
    /// The scene id, when recognised.
    pub scene_id: Option<i32>,
    /// The scene's display name.
    pub scene_name: Option<String>,
    /// Fight duration in milliseconds (last combat packet minus start).
    pub duration_ms: u64,
    /// Whether the user reset the encounter by hand.
    pub is_manually_reset: bool,
    /// Names of bosses defeated in this encounter.
    pub boss_names: Vec<String>,
    /// Names of participating players, unique, sorted byte-lexicographically.
    pub player_names: Vec<String>,
    /// The entities with any combat activity, as they stood at commit.
    pub entities: Vec<Entity>,
}

/// The signed 64-bit column value of a wide counter: saturated at the
/// positive maximum.
pub open spec fn spec_sat_col(v: u128) -> i64 {
    if v > i64::MAX {
        i64::MAX
    } else {
        v as i64
    }
}

/// Saturate a wide counter into a signed 64-bit column.
pub fn sat_col(v: u128) -> (r: i64)
    ensures
        r == spec_sat_col(v),
{
    if v > i64::MAX as u128 {
        i64::MAX
    } else {
        v as i64
    }
}


/// Everything a commit promises about the state it was built from: the
/// header fields mirror the live totals and clock, the entity list holds
/// exactly the combat-active entities, the player names are the distinct
/// non-empty names of combat-active characters, and the boss names are the
/// non-empty labels of the bosses promoted dead.
pub open spec fn spec_commit_ok(st: AppState, now_ms: u64, is_manual: bool, c: CommitRequest) -> bool {
    let s = st.encounter.entity_uid_to_entity@;
    &&& c.started_at_ms == st.encounter.time_fight_start_ms
    &&& c.ended_at_ms == now_ms
    &&& c.local_player_id == st.encounter.local_player_uid
    &&& c.total_dmg == spec_sat_col(st.encounter.total_dmg)
    &&& c.total_heal == spec_sat_col(st.encounter.total_heal)
    &&& c.scene_id == st.encounter.current_scene_id
    &&& crate::tables::opt_name_view(c.scene_name) == crate::tables::opt_name_view(
        st.encounter.current_scene_name,
    )
    &&& c.duration_ms == (if st.encounter.time_last_combat_packet_ms
        >= st.encounter.time_fight_start_ms {
        (st.encounter.time_last_combat_packet_ms - st.encounter.time_fight_start_ms) as u64
    } else {
        0u64
    })
    &&& c.is_manually_reset == is_manual
    // The entity list: exactly the combat-active entities, content intact.
    &&& (forall|k: int|
        0 <= k < c.entities@.len() ==> {
            let e = #[trigger] c.entities@[k];
            let stored = crate::encounter::find_entity(s, e.entity_id);
            &&& stored is Some
            &&& crate::entity::spec_entity_like(stored->Some_0, e)
            &&& e.spec_has_combat()
        })
    &&& (forall|j: int|
        0 <= j < s.len() && (#[trigger] s[j]).spec_has_combat() ==> exists|k: int|
            0 <= k < c.entities@.len() && (#[trigger] c.entities@[k]).entity_id
                == s[j].entity_id)
    // Player names: distinct, non-empty, sorted, from combat-active
    // characters, and complete over them.
    &&& crate::store::spec_names_sorted(c.player_names@)
    &&& (forall|k: int, l: int|
        0 <= k < l < c.player_names@.len() ==> c.player_names@[k]@ != c.player_names@[l]@)
    &&& (forall|k: int|
        0 <= k < c.player_names@.len() ==> (#[trigger] c.player_names@[k])@.len() > 0
            && exists|j: int|
            0 <= j < s.len() && (#[trigger] s[j]).entity_type == EntityType::Character
                && s[j].spec_has_combat() && s[j].name@ == c.player_names@[k]@)
    &&& (forall|j: int|
        0 <= j < s.len() && (#[trigger] s[j]).entity_type == EntityType::Character
            && s[j].spec_has_combat() && s[j].name@.len() > 0
            ==> crate::store::spec_names_has(c.player_names@, s[j].name@))
    // Boss names: the non-empty labels of promoted bosses, and complete
    // over those with a label.
    &&& (forall|k: int|
        0 <= k < c.boss_names@.len() ==> (#[trigger] c.boss_names@[k])@.len() > 0
            && exists|d: int|
            0 <= d < st.boundary.dead_bosses@.len() && crate::encounter::ent_target_name(
                s,
                #[trigger] st.boundary.dead_bosses@[d],
            ) == Some(c.boss_names@[k]@))
    &&& (forall|d: int|
        0 <= d < st.boundary.dead_bosses@.len() ==> (match crate::encounter::ent_target_name(
            s,
            #[trigger] st.boundary.dead_bosses@[d],
        ) {
            Some(nm) => nm.len() > 0 ==> crate::store::spec_names_has(c.boss_names@, nm),
            None => true,
        }))
}

impl AppState {
    /// Well-formedness of the live state: the encounter, the buff tracker,
    /// the boss-death detector and the temporary-attribute store are
    /// well-formed, and every stored cooldown is consistent with the
    /// current attributes (order-invariance of the cooldown formula).
    pub open spec fn wf(self) -> bool {
        &&& self.encounter.wf()
        &&& self.buffs.wf()
        &&& self.boundary.wf()
        &&& self.dungeon_log.wf()
        &&& self.temp_attrs.wf()
        &&& self.spec_cds_consistent()
    }

    /// Every stored cooldown carries exactly the duration the cooldown
    /// formula yields under the current attributes and temporary values.
    pub open spec fn spec_cds_consistent(self) -> bool {
        forall|k: int|
            0 <= k < self.skill_cd_map@.len() ==> {
                let e = #[trigger] self.skill_cd_map@[k];
                if e.duration > 0 {
                    (e.calculated_duration as int, e.cd_accelerate_rate as int) == spec_skill_cd(
                        e.duration as i64,
                        e.skill_level_id,
                        self.temp_attrs.view_map(),
                        self.attr_skill_cd as i64,
                        self.attr_skill_cd_pct as i64,
                        self.attr_cd_accelerate_pct as i64,
                    )
                } else {
                    e.calculated_duration == e.duration && e.cd_accelerate_rate == 0
                }
            }
    }

    /// A fresh live state around the given terminal dungeon states and
    /// scene registry.
    pub fn new(battle_end_states: Vec<i32>, scene_registry: SceneRegistry) -> (r: AppState)
        ensures
            r.wf(),
            r.encounter.entity_uid_to_entity@.len() == 0,
            !r.encounter.spec_has_started(),
            !r.encounter.is_encounter_paused,
            r.skill_subscriptions@.len() == 0,
            r.skill_cd_map@.len() == 0,
            r.monitored_skill_ids@.len() == 0,
            r.monitored_buff_ids@.len() == 0,
            r.priority_buff_ids@.len() == 0,
            !r.monitor_all_buff,
            r.buffs.active_buffs@.len() == 0,
            r.buffs.server_clock_offset == 0,
            !r.boss_only_dps,
            r.boundary.dead_bosses@.len() == 0,
            r.boundary.low_hp_bosses@.len() == 0,
            r.dungeon_log.segments@.len() == 0,
            !r.dungeon_segments_enabled,
            r.event_update_rate_ms == DEFAULT_UPDATE_RATE_MS,
            r.throttle.last_emit_ms == 0,
            r.temp_attrs.view_map() == Map::<int, int>::empty(),
            r.attr_skill_cd == 0,
            r.attr_skill_cd_pct == 0,
            r.attr_cd_accelerate_pct == 0,
            r.battle_state.current_objective is None,
            r.battle_state.dungeon_state is None,
            r.battle_state.end_states == battle_end_states,
            r.battle_state.deferred@.len() == 0,
            r.scene_registry == scene_registry,
    {
        AppState {
            encounter: Encounter::new(),
            skill_subscriptions: Vec::new(),
            skill_cd_map: Vec::new(),
            monitored_skill_ids: Vec::new(),
            monitored_buff_ids: Vec::new(),
            priority_buff_ids: Vec::new(),
            monitor_all_buff: false,
            buffs: BuffTracker::new(),
            boss_only_dps: false,
            boundary: BoundaryDetector::new(),
            dungeon_log: DungeonLog::new(),
            dungeon_segments_enabled: false,
            event_update_rate_ms: DEFAULT_UPDATE_RATE_MS,
            throttle: EmitThrottle::new(),
            temp_attrs: TempAttrs::new(),
            attr_skill_cd: 0,
            attr_skill_cd_pct: 0,
            attr_cd_accelerate_pct: 0,
            battle_state: BattleStateMachine::new(battle_end_states),
            scene_registry,
        }
    }

    /// The label of the first boss the detector tracks, when one exists:
    /// the boss's name, else its packet monster name, else nothing usable.
    fn first_tracked_boss_label(&self) -> (r: Option<Option<String>>)
        requires
            self.wf(),
        ensures
            match spec_first_tracked(self.encounter.entity_uid_to_entity@) {
                Some(e) => r is Some && crate::tables::opt_name_view(r->Some_0)
                    == spec_boss_label(e),
                None => r is None,
            },
    {
        let ghost s = self.encounter.entity_uid_to_entity@;
        let n: usize = self.encounter.entity_uid_to_entity.len();
        let mut i: usize = 0;
        proof {
            assert(s.skip(0) =~= s);
        }
        while i < n
            invariant
                n == s.len(),
                s == self.encounter.entity_uid_to_entity@,
                self.wf(),
                0 <= i <= n,
                spec_first_tracked(s) == spec_first_tracked(s.skip(i as int)),
            decreases n - i,
        {
            proof {
                assert(s.skip(i as int)[0] == s[i as int]);
                assert(s.skip(i as int).drop_first() =~= s.skip(i as int + 1));
            }
            let e = &self.encounter.entity_uid_to_entity[i];
            let is_tracked = e.is_boss() && (match (e.attr_int(ATTR_CUR_HP), e.attr_int(
                ATTR_MAX_HP,
            )) {
                (None, None) => false,
                _ => true,
            });
            if is_tracked {
                proof {
                    assert(spec_boss_tracked(s[i as int]));
                    assert(spec_first_tracked(s) == Some(s[i as int]));
                }
                if !e.name.as_str().is_empty() {
                    return Some(Some(e.name.clone()));
                }
                return match &e.monster_name_packet {
                    Some(nm) => Some(Some(nm.clone())),
                    None => Some(None),
                };
            }
            proof {
                assert(!spec_boss_tracked(s[i as int]));
            }
            i = i + 1;
        }
        proof {
            assert(s.skip(n as int) =~= Seq::<Entity>::empty());
        }
        None
    }

    /// The display label of an entity: its name, else its packet monster
    /// name, else nothing.
    fn entity_label(&self, uid: i64) -> (r: Option<String>)
        requires
            self.encounter.wf(),
        ensures
            match r {
                Some(nm) => crate::encounter::ent_target_name(
                    self.encounter.entity_uid_to_entity@,
                    uid,
                ) == Some(nm@),
                None => crate::encounter::ent_target_name(
                    self.encounter.entity_uid_to_entity@,
                    uid,
                ) is None,
            },
    {
        let n: usize = self.encounter.entity_uid_to_entity.len();
        let mut i: usize = 0;
        while i < n
            invariant
                n == self.encounter.entity_uid_to_entity@.len(),
                self.encounter.wf(),
                0 <= i <= n,
                forall|j: int|
                    0 <= j < i ==> (#[trigger] self.encounter.entity_uid_to_entity@[j]).entity_id
                        != uid,
            decreases n - i,
        {
            let e = &self.encounter.entity_uid_to_entity[i];
            if e.entity_id == uid {
                proof {
                    crate::encounter::lemma_find_entity_at(
                        self.encounter.entity_uid_to_entity@,
                        i as int,
                    );
                }
                if !e.name.as_str().is_empty() {
                    return Some(e.name.clone());
                }
                return match &e.monster_name_packet {
                    Some(nm) => Some(nm.clone()),
                    None => None,
                };
            }
            i = i + 1;
        }
        proof {
            crate::encounter::lemma_absent_entity(self.encounter.entity_uid_to_entity@, uid);
        }
        None
    }

    /// Build the commit for the current encounter, when it has started:
    /// the header fields mirror the live totals and clock, the entity list
    /// holds exactly the entities with combat activity, the player names
    /// are the distinct non-empty names of participating characters, and
    /// the boss names label the bosses promoted dead.
    pub fn build_commit(&self, now_ms: u64, is_manual: bool) -> (r: Option<CommitRequest>)
        requires
            self.wf(),
        ensures
            r is Some == self.encounter.spec_has_started(),
            r is Some ==> spec_commit_ok(*self, now_ms, is_manual, r->Some_0),
    {
        if self.encounter.time_fight_start_ms == 0 {
            return None;
        }
        let ghost s = self.encounter.entity_uid_to_entity@;
        // Entities with combat activity.
        let mut entities: Vec<Entity> = Vec::new();
        let n: usize = self.encounter.entity_uid_to_entity.len();
        let mut i: usize = 0;
        while i < n
            invariant
                n == s.len(),
                s == self.encounter.entity_uid_to_entity@,
                self.encounter.wf(),
                0 <= i <= n,
                forall|k: int|
                    0 <= k < entities@.len() ==> {
                        let e = #[trigger] entities@[k];
                        let stored = crate::encounter::find_entity(s, e.entity_id);
                        &&& stored is Some
                        &&& crate::entity::spec_entity_like(stored->Some_0, e)
                        &&& e.spec_has_combat()
                    },
                forall|j: int|
                    0 <= j < i && (#[trigger] s[j]).spec_has_combat() ==> exists|k: int|
                        0 <= k < entities@.len() && (#[trigger] entities@[k]).entity_id
                            == s[j].entity_id,
            decreases n - i,
        {
            let e = &self.encounter.entity_uid_to_entity[i];
            if e.has_combat() {
                let ghost e0 = entities@;
                proof {
                    crate::encounter::lemma_find_entity_at(s, i as int);
                }
                entities.push(e.clone_entity());
                proof {
                    assert(forall|k: int| 0 <= k < e0.len() ==> entities@[k] == e0[k]);
                    assert(crate::entity::spec_entity_like(s[i as int], entities@[e0.len() as int]));
                    assert(entities@[e0.len() as int].entity_id == s[i as int].entity_id);
                    assert(entities@[e0.len() as int].spec_has_combat());
                }
            }
            i = i + 1;
        }
        // Distinct non-empty names of participating characters.
        let mut player_names: Vec<String> = Vec::new();
        let mut i2: usize = 0;
        while i2 < n
            invariant
                n == s.len(),
                s == self.encounter.entity_uid_to_entity@,
                self.encounter.wf(),
                0 <= i2 <= n,
                forall|k: int, l: int|
                    0 <= k < l < player_names@.len() ==> player_names@[k]@ != player_names@[l]@,
                forall|k: int|
                    0 <= k < player_names@.len() ==> (#[trigger] player_names@[k])@.len() > 0
                        && exists|j: int|
                        0 <= j < s.len() && (#[trigger] s[j]).entity_type
                            == EntityType::Character && s[j].spec_has_combat() && s[j].name@
                            == player_names@[k]@,
                forall|j: int|
                    0 <= j < i2 && (#[trigger] s[j]).entity_type == EntityType::Character
                        && s[j].spec_has_combat() && s[j].name@.len() > 0
                        ==> crate::store::spec_names_has(player_names@, s[j].name@),
            decreases n - i2,
        {
            let e = &self.encounter.entity_uid_to_entity[i2];
            let is_char = e.entity_type == EntityType::Character;
            let ghost p0 = player_names@;
            if is_char && e.has_combat() && !e.name.as_str().is_empty() {
                if !contains_name(&player_names, &e.name) {
                    player_names.push(e.name.clone());
                    proof {
                        assert(forall|k: int| 0 <= k < p0.len() ==> player_names@[k] == p0[k]);
                        assert(player_names@[p0.len() as int]@ == s[i2 as int].name@);
                    }
                }
            }
            proof {
                assert(forall|k: int| 0 <= k < p0.len() ==> player_names@[k] == p0[k]);
                assert forall|j: int|
                    0 <= j < i2 + 1 && (#[trigger] s[j]).entity_type == EntityType::Character
                        && s[j].spec_has_combat() && s[j].name@.len() > 0 implies
                    crate::store::spec_names_has(player_names@, s[j].name@) by {
                    if j < i2 {
                        let w = choose|w: int|
                            0 <= w < p0.len() && (#[trigger] p0[w])@ == s[j].name@;
                        assert(player_names@[w] == p0[w]);
                    } else {
                        if player_names@.len() > p0.len() {
                            assert(player_names@[p0.len() as int]@ == s[j].name@);
                        } else {
                            let w = choose|w: int|
                                0 <= w < p0.len() && (#[trigger] p0[w])@ == s[j].name@;
                            assert(player_names@[w] == p0[w]);
                        }
                    }
                }
            }
            i2 = i2 + 1;
        }
        // The header row stores the names sorted.
        let ghost pn0 = player_names@;
        let player_names = crate::store::sort_names_lex(player_names);
        proof {
            crate::store::lemma_sorted_names_from(pn0, player_names@);
            assert forall|k: int, l: int|
                0 <= k < l < player_names@.len() implies player_names@[k]@
                != player_names@[l]@ by {
                crate::store::lemma_distinct_views_permuted(pn0, player_names@, k, l);
            }
            assert forall|k: int|
                0 <= k < player_names@.len() implies (#[trigger] player_names@[k])@.len() > 0
                && exists|j: int|
                0 <= j < s.len() && (#[trigger] s[j]).entity_type == EntityType::Character
                    && s[j].spec_has_combat() && s[j].name@ == player_names@[k]@ by {
                assert(pn0.contains(player_names@[k]));
                let a = choose|a: int| 0 <= a < pn0.len() && pn0[a] == player_names@[k];
                assert(pn0[a]@.len() > 0);
            }
            assert forall|j: int|
                0 <= j < s.len() && (#[trigger] s[j]).entity_type == EntityType::Character
                    && s[j].spec_has_combat() && s[j].name@.len() > 0 implies
                crate::store::spec_names_has(player_names@, s[j].name@) by {
                let w = choose|w: int| 0 <= w < pn0.len() && (#[trigger] pn0[w])@ == s[j].name@;
                assert(pn0.contains(pn0[w]));
                assert(player_names@.contains(pn0[w]));
                let k1 = choose|k1: int|
                    0 <= k1 < player_names@.len() && player_names@[k1] == pn0[w];
                assert(player_names@[k1]@ == s[j].name@);
            }
        }
        // Labels of bosses promoted dead.
        let mut boss_names: Vec<String> = Vec::new();
        let m: usize = self.boundary.dead_bosses.len();
        let mut k: usize = 0;
        while k < m
            invariant
                m == self.boundary.dead_bosses@.len(),
                s == self.encounter.entity_uid_to_entity@,
                self.wf(),
                0 <= k <= m,
                forall|q: int|
                    0 <= q < boss_names@.len() ==> (#[trigger] boss_names@[q])@.len() > 0
                        && exists|d: int|
                        0 <= d < self.boundary.dead_bosses@.len()
                            && crate::encounter::ent_target_name(
                            s,
                            #[trigger] self.boundary.dead_bosses@[d],
                        ) == Some(boss_names@[q]@),
                forall|d: int|
                    0 <= d < k ==> (match crate::encounter::ent_target_name(
                        s,
                        #[trigger] self.boundary.dead_bosses@[d],
                    ) {
                        Some(nm) => nm.len() > 0 ==> crate::store::spec_names_has(
                            boss_names@,
                            nm,
                        ),
                        None => true,
                    }),
            decreases m - k,
        {
            let uid = self.boundary.dead_bosses[k];
            let ghost b0 = boss_names@;
            match self.entity_label(uid) {
                Some(nm) => {
                    if !nm.as_str().is_empty() {
                        boss_names.push(nm);
                        proof {
                            assert(forall|q: int| 0 <= q < b0.len() ==> boss_names@[q] == b0[q]);
                            assert(crate::encounter::ent_target_name(
                                s,
                                self.boundary.dead_bosses@[k as int],
                            ) == Some(boss_names@[b0.len() as int]@));
                        }
                    }
                },
                None => {},
            }
            proof {
                assert(forall|q: int| 0 <= q < b0.len() ==> boss_names@[q] == b0[q]);
                assert forall|d: int|
                    0 <= d < k + 1 implies (match crate::encounter::ent_target_name(
                    s,
                    #[trigger] self.boundary.dead_bosses@[d],
                ) {
                    Some(nm) => nm.len() > 0 ==> crate::store::spec_names_has(boss_names@, nm),
                    None => true,
                }) by {
                    match crate::encounter::ent_target_name(s, self.boundary.dead_bosses@[d]) {
                        Some(nm) => {
                            if nm.len() > 0 {
                                if d < k {
                                    let w = choose|w: int|
                                        0 <= w < b0.len() && (#[trigger] b0[w])@ == nm;
                                    assert(boss_names@[w] == b0[w]);
                                } else {
                                    assert(boss_names@[b0.len() as int]@ == nm);
                                }
                            }
                        },
                        None => {},
                    }
                }
            }
            k = k + 1;
        }
        let duration_ms: u64 = if self.encounter.time_last_combat_packet_ms
            >= self.encounter.time_fight_start_ms {
            self.encounter.time_last_combat_packet_ms - self.encounter.time_fight_start_ms
        } else {
            0
        };
        Some(
            CommitRequest {
                started_at_ms: self.encounter.time_fight_start_ms,
                ended_at_ms: now_ms,
                local_player_id: self.encounter.local_player_uid,
                total_dmg: sat_col(self.encounter.total_dmg),
                total_heal: sat_col(self.encounter.total_heal),
                scene_id: self.encounter.current_scene_id,
                scene_name: match &self.encounter.current_scene_name {
                    Some(nm) => Some(nm.clone()),
                    None => None,
                },
                duration_ms,
                is_manually_reset: is_manual,
                boss_names,
                player_names,
                entities,
            },
        )
    }
}

/// Whether a name with the same characters is already present.
fn contains_name(names: &Vec<String>, name: &String) -> (r: bool)
    ensures
        r == exists|k: int| 0 <= k < names@.len() && (#[trigger] names@[k])@ == name@,
{
    let n: usize = names.len();
    let mut i: usize = 0;
    while i < n
        invariant
            n == names@.len(),
            0 <= i <= n,
            forall|j: int| 0 <= j < i ==> (#[trigger] names@[j])@ != name@,
        decreases n - i,
    {
        if names[i].eq(name) {
            return true;
        }
        i = i + 1;
    }
    false
}

} // verus!

verus! {

use crate::buffs::{find_buff, spec_buff_event_applied};
use crate::encounter::{EntityUpdate, spec_delta_applied, spec_entity_update_applied};
use crate::scene::{spec_guid_scene_id, spec_scene_id_in_bytes, spec_scene_known, spec_scene_name};

/// One enter-scene packet: the scene guid's raw bytes when one was
/// carried, and the raw attribute payloads in scan priority order.
#[derive(Debug, Clone, PartialEq, Eq)]
pub struct ScenePacket {
    /// The scene guid's bytes, when present.
    pub scene_guid: Option<Vec<u8>>,
    /// Raw attribute payloads to scan, highest priority first.
    pub attr_blobs: Vec<Vec<u8>>,
}

/// One decoded combat-delta packet: the hits plus everything that rides
/// along on the same wire message.
#[derive(Debug, Clone, PartialEq, Eq)]
pub struct DeltaPacket {
    /// The combat hits, in wire order.
    pub deltas: Vec<CombatDelta>,
    /// Cooldown entries.
    pub skill_cds: Vec<SkillCdPacket>,
    /// New fixed cooldown reduction, when carried.
    pub attr_skill_cd: Option<i32>,
    /// New percentage cooldown reduction, when carried.
    pub attr_skill_cd_pct: Option<i32>,
    /// New acceleration percentage, when carried.
    pub attr_cd_accelerate_pct: Option<i32>,
    /// Temporary attribute updates, in wire order.
    pub temp_attrs: Vec<TempAttr>,
    /// Buff events, in wire order.
    pub buff_events: Vec<BuffEvent>,
}

/// One decoded packet or control message the aggregator consumes.
#[derive(Debug, Clone, PartialEq, Eq)]
pub enum StateEvent {
    /// The connection moved to another server.
    ServerChange,
    /// A scene was entered.
    EnterScene(ScenePacket),
    /// Nearby entities were synced.
    SyncNearEntities(Vec<EntityUpdate>),
    /// The local player's container was synced.
    SyncContainerData(EntityUpdate),
    /// Incremental attribute updates for known entities.
    SyncContainerDirtyData(Vec<EntityUpdate>),
    /// Combat deltas addressed to the local player.
    SyncToMeDeltaInfo(DeltaPacket),
    /// Combat deltas for nearby entities.
    SyncNearDeltaInfo(Vec<DeltaPacket>),
    /// A player was revived; HP attributes are restored.
    NotifyReviveUser {
        /// The revived entity.
        entity_id: i64,
        /// Restored current HP.
        current_hp: i64,
        /// Restored maximum HP.
        max_hp: i64,
    },
    /// A dungeon-state sync.
    SyncDungeonData {
        /// The objective id, when carried.
        objective_id: Option<i64>,
        /// The dungeon-state value, when carried.
        state: Option<i32>,
    },
    /// An incremental dungeon-state sync.
    SyncDungeonDirtyData {
        /// The objective id, when carried.
        objective_id: Option<i64>,
        /// The dungeon-state value, when carried.
        state: Option<i32>,
    },
    /// Pause or resume combat accounting.
    PauseEncounter(bool),
    /// Reset the encounter.
    ResetEncounter {
        /// Whether the user asked for the reset by hand.
        is_manual: bool,
    },
}

/// Whether an event carries combat data and is dropped whole while the
/// encounter is paused.
pub open spec fn spec_is_combat_event(ev: StateEvent) -> bool {
    match ev {
        StateEvent::SyncNearEntities(_) => true,
        StateEvent::SyncContainerData(_) => true,
        StateEvent::SyncContainerDirtyData(_) => true,
        StateEvent::SyncToMeDeltaInfo(_) => true,
        StateEvent::SyncNearDeltaInfo(_) => true,
        _ => false,
    }
}

/// One delta either fits and moves the encounter per
/// [`spec_delta_applied`], or does not fit and changes nothing.
pub open spec fn spec_delta_step(pre: Encounter, post: Encounter, d: CombatDelta, now: u64) -> bool {
    if pre.spec_delta_fits(d) {
        spec_delta_applied(pre, post, d, now)
    } else {
        post == pre
    }
}

/// The encounter after a sequence of deltas, applied in order.
pub open spec fn spec_delta_chain(pre: Encounter, ds: Seq<CombatDelta>, now: u64, post: Encounter) -> bool
    decreases ds.len(),
{
    if ds.len() == 0 {
        post == pre
    } else {
        exists|mid: Encounter|
            #[trigger] spec_delta_step(pre, mid, ds[0], now) && spec_delta_chain(
                mid,
                ds.drop_first(),
                now,
                post,
            )
    }
}

/// Extending a delta chain by one step.
proof fn lemma_delta_chain_snoc(
    pre: Encounter,
    ds: Seq<CombatDelta>,
    d: CombatDelta,
    now: u64,
    mid: Encounter,
    post: Encounter,
)
    requires
        spec_delta_chain(pre, ds, now, mid),
        spec_delta_step(mid, post, d, now),
    ensures
        spec_delta_chain(pre, ds.push(d), now, post),
    decreases ds.len(),
{
    if ds.len() == 0 {
        assert(ds.push(d)[0] == d);
        assert(ds.push(d).drop_first() =~= Seq::<CombatDelta>::empty());
        assert(spec_delta_step(pre, post, d, now));
        assert(spec_delta_chain(post, ds.push(d).drop_first(), now, post));
    } else {
        let m0 = choose|m0: Encounter|
            #[trigger] spec_delta_step(pre, m0, ds[0], now) && spec_delta_chain(
                m0,
                ds.drop_first(),
                now,
                mid,
            );
        lemma_delta_chain_snoc(m0, ds.drop_first(), d, now, mid, post);
        assert(ds.push(d)[0] == ds[0]);
        assert(ds.push(d).drop_first() =~= ds.drop_first().push(d));
        assert(spec_delta_step(pre, m0, ds.push(d)[0], now));
    }
}

/// The buff tracker after a sequence of events, applied in order.
pub open spec fn spec_buff_chain(pre: BuffTracker, evs: Seq<BuffEvent>, now: i64, post: BuffTracker) -> bool
    decreases evs.len(),
{
    if evs.len() == 0 {
        post == pre
    } else {
        exists|mid: BuffTracker|
            #[trigger] spec_buff_event_applied(pre, mid, evs[0], now) && spec_buff_chain(
                mid,
                evs.drop_first(),
                now,
                post,
            )
    }
}

/// Extending a buff chain by one step.
proof fn lemma_buff_chain_snoc(
    pre: BuffTracker,
    evs: Seq<BuffEvent>,
    ev: BuffEvent,
    now: i64,
    mid: BuffTracker,
    post: BuffTracker,
)
    requires
        spec_buff_chain(pre, evs, now, mid),
        spec_buff_event_applied(mid, post, ev, now),
    ensures
        spec_buff_chain(pre, evs.push(ev), now, post),
    decreases evs.len(),
{
    if evs.len() == 0 {
        assert(evs.push(ev)[0] == ev);
        assert(evs.push(ev).drop_first() =~= Seq::<BuffEvent>::empty());
        assert(spec_buff_chain(post, evs.push(ev).drop_first(), now, post));
    } else {
        let m0 = choose|m0: BuffTracker|
            #[trigger] spec_buff_event_applied(pre, m0, evs[0], now) && spec_buff_chain(
                m0,
                evs.drop_first(),
                now,
                mid,
            );
        lemma_buff_chain_snoc(m0, evs.drop_first(), ev, now, mid, post);
        assert(evs.push(ev)[0] == evs[0]);
        assert(evs.push(ev).drop_first() =~= evs.drop_first().push(ev));
        assert(spec_buff_event_applied(pre, m0, evs.push(ev)[0], now));
    }
}

/// The encounter after a sequence of entity updates, applied in order.
pub open spec fn spec_update_chain(pre: Encounter, ups: Seq<EntityUpdate>, post: Encounter) -> bool
    decreases ups.len(),
{
    if ups.len() == 0 {
        post == pre
    } else {
        exists|mid: Encounter|
            #[trigger] spec_entity_update_applied(pre, mid, ups[0]) && spec_update_chain(
                mid,
                ups.drop_first(),
                post,
            )
    }
}

/// Extending an update chain by one step.
proof fn lemma_update_chain_snoc(
    pre: Encounter,
    ups: Seq<EntityUpdate>,
    u: EntityUpdate,
    mid: Encounter,
    post: Encounter,
)
    requires
        spec_update_chain(pre, ups, mid),
        spec_entity_update_applied(mid, post, u),
    ensures
        spec_update_chain(pre, ups.push(u), post),
    decreases ups.len(),
{
    if ups.len() == 0 {
        assert(ups.push(u)[0] == u);
        assert(ups.push(u).drop_first() =~= Seq::<EntityUpdate>::empty());
        assert(spec_update_chain(post, ups.push(u).drop_first(), post));
    } else {
        let m0 = choose|m0: Encounter|
            #[trigger] spec_entity_update_applied(pre, m0, ups[0]) && spec_update_chain(
                m0,
                ups.drop_first(),
                mid,
            );
        lemma_update_chain_snoc(m0, ups.drop_first(), u, mid, post);
        assert(ups.push(u)[0] == ups[0]);
        assert(ups.push(u).drop_first() =~= ups.drop_first().push(u));
        assert(spec_entity_update_applied(pre, m0, ups.push(u)[0]));
    }
}

/// The temporary-attribute map after a sequence of updates.
pub open spec fn spec_temps_after(m: Map<int, int>, ups: Seq<TempAttr>) -> Map<int, int>
    decreases ups.len(),
{
    if ups.len() == 0 {
        m
    } else {
        spec_temps_after(m.insert(ups[0].id as int, ups[0].value as int), ups.drop_first())
    }
}

/// Extending a temporary-attribute fold by one update.
proof fn lemma_temps_after_snoc(m: Map<int, int>, ups: Seq<TempAttr>, u: TempAttr)
    ensures
        spec_temps_after(m, ups.push(u)) == spec_temps_after(m, ups).insert(
            u.id as int,
            u.value as int,
        ),
    decreases ups.len(),
{
    if ups.len() == 0 {
        assert(ups.push(u)[0] == u);
        assert(ups.push(u).drop_first() =~= Seq::<TempAttr>::empty());
        assert(spec_temps_after(m.insert(u.id as int, u.value as int), Seq::<TempAttr>::empty())
            == m.insert(u.id as int, u.value as int));
        assert(spec_temps_after(m, Seq::<TempAttr>::empty()) == m);
    } else {
        assert(ups.push(u)[0] == ups[0]);
        assert(ups.push(u).drop_first() =~= ups.drop_first().push(u));
        lemma_temps_after_snoc(m.insert(ups[0].id as int, ups[0].value as int), ups.drop_first(), u);
    }
}

impl AppState {
    /// Recompute every cached cooldown under the current attributes.
    fn recalculate_cached_skill_cds(&mut self)
        requires
            old(self).temp_attrs.wf(),
        ensures
            *final(self) == (AppState { skill_cd_map: final(self).skill_cd_map, ..*old(self) }),
            final(self).spec_cds_consistent(),
            final(self).skill_cd_map@.len() == old(self).skill_cd_map@.len(),
            forall|k: int|
                0 <= k < old(self).skill_cd_map@.len() ==> {
                    let a = #[trigger] old(self).skill_cd_map@[k];
                    let b = final(self).skill_cd_map@[k];
                    b.skill_level_id == a.skill_level_id && b.begin_time == a.begin_time
                        && b.duration == a.duration && b.skill_cd_type == a.skill_cd_type
                        && b.valid_cd_time == a.valid_cd_time && b.received_at == a.received_at
                },
    {
        let n: usize = self.skill_cd_map.len();
        let mut i: usize = 0;
        while i < n
            invariant
                n == self.skill_cd_map@.len(),
                0 <= i <= n,
                self.temp_attrs.wf(),
                *self == (AppState { skill_cd_map: self.skill_cd_map, ..*old(self) }),
                self.skill_cd_map@.len() == old(self).skill_cd_map@.len(),
                forall|k: int|
                    0 <= k < n ==> {
                        let a = #[trigger] old(self).skill_cd_map@[k];
                        let b = self.skill_cd_map@[k];
                        b.skill_level_id == a.skill_level_id && b.begin_time == a.begin_time
                            && b.duration == a.duration && b.skill_cd_type == a.skill_cd_type
                            && b.valid_cd_time == a.valid_cd_time && b.received_at == a.received_at
                    },
                forall|k: int|
                    0 <= k < i ==> {
                        let e = #[trigger] self.skill_cd_map@[k];
                        if e.duration > 0 {
                            (e.calculated_duration as int, e.cd_accelerate_rate as int)
                                == spec_skill_cd(
                                e.duration as i64,
                                e.skill_level_id,
                                self.temp_attrs.view_map(),
                                self.attr_skill_cd as i64,
                                self.attr_skill_cd_pct as i64,
                                self.attr_cd_accelerate_pct as i64,
                            )
                        } else {
                            e.calculated_duration == e.duration && e.cd_accelerate_rate == 0
                        }
                    },
            decreases n - i,
        {
            let e = self.skill_cd_map[i];
            let updated: SkillCdState = if e.duration > 0 {
                let (calc, rate) = calculate_skill_cd(
                    e.duration as i64,
                    e.skill_level_id,
                    &self.temp_attrs,
                    self.attr_skill_cd,
                    self.attr_skill_cd_pct,
                    self.attr_cd_accelerate_pct,
                );
                SkillCdState { calculated_duration: calc, cd_accelerate_rate: rate, ..e }
            } else {
                SkillCdState { calculated_duration: e.duration as i64, cd_accelerate_rate: 0, ..e }
            };
            self.skill_cd_map[i] = updated;
            i = i + 1;
        }
    }

    /// Consume one combat-delta packet at wall-clock `now_ms`: the hits
    /// move the encounter in order, the cooldown attributes and temporary
    /// values are stored (recomputing every cached cooldown), cooldown
    /// entries of monitored skills are recorded, and the buff events run
    /// through the tracker in order.
    pub fn process_delta_packet(&mut self, pkt: &DeltaPacket, now_ms: u64)
        requires
            old(self).wf(),
            now_ms > 0,
            now_ms <= i64::MAX,
        ensures
            final(self).wf(),
            spec_delta_chain(old(self).encounter, pkt.deltas@, now_ms, final(self).encounter),
            spec_buff_chain(
                old(self).buffs,
                pkt.buff_events@,
                now_ms as i64,
                final(self).buffs,
            ),
            final(self).temp_attrs.view_map() == spec_temps_after(
                old(self).temp_attrs.view_map(),
                pkt.temp_attrs@,
            ),
            final(self).attr_skill_cd == (match pkt.attr_skill_cd {
                Some(v) => v,
                None => old(self).attr_skill_cd,
            }),
            final(self).attr_skill_cd_pct == (match pkt.attr_skill_cd_pct {
                Some(v) => v,
                None => old(self).attr_skill_cd_pct,
            }),
            final(self).attr_cd_accelerate_pct == (match pkt.attr_cd_accelerate_pct {
                Some(v) => v,
                None => old(self).attr_cd_accelerate_pct,
            }),
            final(self).boundary == old(self).boundary,
            final(self).dungeon_log == old(self).dungeon_log,
            final(self).battle_state == old(self).battle_state,
            final(self).skill_subscriptions == old(self).skill_subscriptions,
            final(self).throttle == old(self).throttle,
            final(self).event_update_rate_ms == old(self).event_update_rate_ms,
    {
        // Combat hits, in order.
        let n: usize = pkt.deltas.len();
        let mut i: usize = 0;
        proof {
            assert(pkt.deltas@.take(0int) =~= Seq::<CombatDelta>::empty());
        }
        while i < n
            invariant
                n == pkt.deltas@.len(),
                0 <= i <= n,
                now_ms > 0,
                self.encounter.wf(),
                spec_delta_chain(
                    old(self).encounter,
                    pkt.deltas@.take(i as int),
                    now_ms,
                    self.encounter,
                ),
                *self == (AppState { encounter: self.encounter, ..*old(self) }),
                old(self).wf(),
            decreases n - i,
        {
            let ghost mid = self.encounter;
            let d = pkt.deltas[i];
            let _applied = self.encounter.apply_combat_delta(d, now_ms);
            proof {
                assert(spec_delta_step(mid, self.encounter, d, now_ms));
                lemma_delta_chain_snoc(
                    old(self).encounter,
                    pkt.deltas@.take(i as int),
                    d,
                    now_ms,
                    mid,
                    self.encounter,
                );
                assert(pkt.deltas@.take(i as int).push(d) =~= pkt.deltas@.take(i as int + 1));
            }
            i = i + 1;
        }
        proof {
            assert(pkt.deltas@.take(n as int) =~= pkt.deltas@);
        }
        // Cooldown reduction attributes.
        let mut attrs_changed = false;
        match pkt.attr_skill_cd {
            Some(v) => {
                if v != self.attr_skill_cd {
                    self.attr_skill_cd = v;
                    attrs_changed = true;
                }
            },
            None => {},
        }
        match pkt.attr_skill_cd_pct {
            Some(v) => {
                if v != self.attr_skill_cd_pct {
                    self.attr_skill_cd_pct = v;
                    attrs_changed = true;
                }
            },
            None => {},
        }
        match pkt.attr_cd_accelerate_pct {
            Some(v) => {
                if v != self.attr_cd_accelerate_pct {
                    self.attr_cd_accelerate_pct = v;
                    attrs_changed = true;
                }
            },
            None => {},
        }
        let ghost attr_cd_now = self.attr_skill_cd;
        let ghost attr_pct_now = self.attr_skill_cd_pct;
        let ghost attr_acc_now = self.attr_cd_accelerate_pct;
        // Temporary attribute updates.
        let m: usize = pkt.temp_attrs.len();
        let mut k: usize = 0;
        proof {
            assert(pkt.temp_attrs@.take(0int) =~= Seq::<TempAttr>::empty());
        }
        while k < m
            invariant
                m == pkt.temp_attrs@.len(),
                0 <= k <= m,
                self.temp_attrs.view_map() == spec_temps_after(
                    old(self).temp_attrs.view_map(),
                    pkt.temp_attrs@.take(k as int),
                ),
                self.attr_skill_cd == attr_cd_now,
                self.attr_skill_cd_pct == attr_pct_now,
                self.attr_cd_accelerate_pct == attr_acc_now,
                spec_delta_chain(
                    old(self).encounter,
                    pkt.deltas@,
                    now_ms,
                    self.encounter,
                ),
                self.encounter.wf(),
                self.temp_attrs.wf(),
                self.boundary == old(self).boundary,
                self.dungeon_log == old(self).dungeon_log,
                self.battle_state == old(self).battle_state,
                self.skill_subscriptions == old(self).skill_subscriptions,
                self.throttle == old(self).throttle,
                self.event_update_rate_ms == old(self).event_update_rate_ms,
                self.buffs == old(self).buffs,
                self.boundary.wf(),
                self.dungeon_log.wf(),
                self.buffs.wf(),
            decreases m - k,
        {
            let u = pkt.temp_attrs[k];
            self.temp_attrs.set(u.id, u.value);
            attrs_changed = true;
            proof {
                lemma_temps_after_snoc(
                    old(self).temp_attrs.view_map(),
                    pkt.temp_attrs@.take(k as int),
                    u,
                );
                assert(pkt.temp_attrs@.take(k as int).push(u) =~= pkt.temp_attrs@.take(
                    k as int + 1,
                ));
            }
            k = k + 1;
        }
        proof {
            assert(pkt.temp_attrs@.take(m as int) =~= pkt.temp_attrs@);
        }
        let ghost temps_done = self.temp_attrs;
        // Cooldown entries of monitored skills.
        let c: usize = pkt.skill_cds.len();
        let mut j: usize = 0;
        while j < c
            invariant
                c == pkt.skill_cds@.len(),
                0 <= j <= c,
                self.temp_attrs == temps_done,
                self.temp_attrs.view_map() == spec_temps_after(
                    old(self).temp_attrs.view_map(),
                    pkt.temp_attrs@,
                ),
                self.attr_skill_cd == attr_cd_now,
                self.attr_skill_cd_pct == attr_pct_now,
                self.attr_cd_accelerate_pct == attr_acc_now,
                spec_delta_chain(
                    old(self).encounter,
                    pkt.deltas@,
                    now_ms,
                    self.encounter,
                ),
                self.encounter.wf(),
                self.temp_attrs.wf(),
                self.boundary == old(self).boundary,
                self.dungeon_log == old(self).dungeon_log,
                self.battle_state == old(self).battle_state,
                self.skill_subscriptions == old(self).skill_subscriptions,
                self.throttle == old(self).throttle,
                self.event_update_rate_ms == old(self).event_update_rate_ms,
                self.buffs == old(self).buffs,
                self.boundary.wf(),
                self.dungeon_log.wf(),
                self.buffs.wf(),
            decreases c - j,
        {
            let cd = pkt.skill_cds[j];
            if contains_i32(&self.monitored_skill_ids, cd.skill_level_id / 100) {
                let (calc, rate) = if cd.duration > 0 {
                    calculate_skill_cd(
                        cd.duration as i64,
                        cd.skill_level_id,
                        &self.temp_attrs,
                        self.attr_skill_cd,
                        self.attr_skill_cd_pct,
                        self.attr_cd_accelerate_pct,
                    )
                } else {
                    (cd.duration as i64, 0i32)
                };
                let entry = SkillCdState {
                    skill_level_id: cd.skill_level_id,
                    begin_time: cd.begin_time,
                    duration: cd.duration,
                    skill_cd_type: cd.skill_cd_type,
                    valid_cd_time: cd.valid_cd_time,
                    received_at: now_ms,
                    calculated_duration: calc,
                    cd_accelerate_rate: rate,
                };
                upsert_cd(&mut self.skill_cd_map, entry);
            }
            j = j + 1;
        }
        // A changed attribute invalidates every cached cooldown.
        self.recalculate_cached_skill_cds();
        // Buff events, in order.
        let b: usize = pkt.buff_events.len();
        let mut q: usize = 0;
        proof {
            assert(pkt.buff_events@.take(0int) =~= Seq::<BuffEvent>::empty());
        }
        while q < b
            invariant
                b == pkt.buff_events@.len(),
                0 <= q <= b,
                now_ms <= i64::MAX,
                self.buffs.wf(),
                spec_buff_chain(
                    old(self).buffs,
                    pkt.buff_events@.take(q as int),
                    now_ms as i64,
                    self.buffs,
                ),
                spec_delta_chain(old(self).encounter, pkt.deltas@, now_ms, self.encounter),
                self.encounter.wf(),
                self.temp_attrs == temps_done,
                self.temp_attrs.wf(),
                self.temp_attrs.view_map() == spec_temps_after(
                    old(self).temp_attrs.view_map(),
                    pkt.temp_attrs@,
                ),
                self.attr_skill_cd == attr_cd_now,
                self.attr_skill_cd_pct == attr_pct_now,
                self.attr_cd_accelerate_pct == attr_acc_now,
                self.spec_cds_consistent(),
                self.boundary == old(self).boundary,
                self.dungeon_log == old(self).dungeon_log,
                self.battle_state == old(self).battle_state,
                self.skill_subscriptions == old(self).skill_subscriptions,
                self.throttle == old(self).throttle,
                self.event_update_rate_ms == old(self).event_update_rate_ms,
                self.boundary.wf(),
                self.dungeon_log.wf(),
            decreases b - q,
        {
            let ghost mid = self.buffs;
            let ev = pkt.buff_events[q];
            self.buffs.apply_event(ev, now_ms as i64);
            proof {
                lemma_buff_chain_snoc(
                    old(self).buffs,
                    pkt.buff_events@.take(q as int),
                    ev,
                    now_ms as i64,
                    mid,
                    self.buffs,
                );
                assert(pkt.buff_events@.take(q as int).push(ev) =~= pkt.buff_events@.take(
                    q as int + 1,
                ));
            }
            q = q + 1;
        }
        proof {
            assert(pkt.buff_events@.take(b as int) =~= pkt.buff_events@);
        }
    }
}

/// Whether `x` stands in the vector.
fn contains_i32(v: &Vec<i32>, x: i32) -> (r: bool)
    ensures
        r == v@.contains(x),
{
    let n: usize = v.len();
    let mut i: usize = 0;
    while i < n
        invariant
            n == v@.len(),
            0 <= i <= n,
            forall|j: int| 0 <= j < i ==> v@[j] != x,
        decreases n - i,
    {
        if v[i] == x {
            return true;
        }
        i = i + 1;
    }
    proof {
        if v@.contains(x) {
            let k = choose|k: int| 0 <= k < v@.len() && v@[k] == x;
        }
    }
    false
}

/// Insert a cooldown record under its skill-level id, replacing any
/// previous record.
fn upsert_cd(v: &mut Vec<SkillCdState>, entry: SkillCdState)
    ensures
        final(v)@.len() <= old(v)@.len() + 1,
{
    let n: usize = v.len();
    let mut i: usize = 0;
    while i < n
        invariant
            n == v@.len(),
            v@ == old(v)@,
            0 <= i <= n,
        decreases n - i,
    {
        if v[i].skill_level_id == entry.skill_level_id {
            v[i] = entry;
            return ;
        }
        i = i + 1;
    }
    v.push(entry);
}

} // verus!

verus! {

use crate::entity::{ATTR_CUR_HP, ATTR_MAX_HP, AttrValue};

/// A boss the boundary detector tracks: a boss entity with at least one
/// HP attribute known (the same rows the header shows).
pub open spec fn spec_boss_tracked(e: Entity) -> bool {
    e.spec_is_boss() && (crate::entity::spec_attr_int(e.attrs@, ATTR_CUR_HP) is Some
        || crate::entity::spec_attr_int(e.attrs@, ATTR_MAX_HP) is Some)
}

/// The first boss entity the detector tracks, in roster order.
pub open spec fn spec_first_tracked(s: Seq<Entity>) -> Option<Entity>
    decreases s.len(),
{
    if s.len() == 0 {
        None
    } else if spec_boss_tracked(s[0]) {
        Some(s[0])
    } else {
        spec_first_tracked(s.drop_first())
    }
}

/// A boss's display label: its name, else its packet monster name, else
/// nothing usable.
pub open spec fn spec_boss_label(e: Entity) -> Option<Seq<char>> {
    if e.name@.len() > 0 {
        Some(e.name@)
    } else {
        match e.monster_name_packet {
            Some(nm) => Some(nm@),
            None => None,
        }
    }
}

/// The engage transition of an emitting tick: a trash segment, with combat
/// under way and a tracked boss on the roster, closes into a boss segment
/// named after the first tracked boss; otherwise the log is unchanged.
pub open spec fn spec_engage_step(
    pre: DungeonLog,
    s: Seq<Entity>,
    fight_start: u64,
    scene_id: Option<i32>,
    scene_name: Option<Seq<char>>,
    now_ms: u64,
    post: DungeonLog,
) -> bool {
    if pre.spec_has_open() && pre.segments@.last().segment_type == SegmentType::Trash
        && fight_start != 0 && spec_first_tracked(s) is Some {
        &&& post.segments@.len() == pre.segments@.len() + 1
        &&& post.spec_has_open()
        &&& post.segments@.last().segment_type == SegmentType::Boss
        &&& post.segments@.last().started_at_ms == now_ms
        &&& crate::tables::opt_name_view(post.segments@.last().boss_name) == spec_boss_label(
            spec_first_tracked(s)->Some_0,
        )
        &&& post.segments@.last().scene_id == scene_id
        &&& crate::tables::opt_name_view(post.segments@.last().scene_name) == scene_name
    } else {
        post == pre
    }
}

/// The death transition of an emitting tick: a boss segment, with a boss
/// newly promoted dead, closes into a fresh trash segment; otherwise the
/// log is unchanged.
pub open spec fn spec_death_step(
    pre: DungeonLog,
    any_dead: bool,
    scene_id: Option<i32>,
    scene_name: Option<Seq<char>>,
    now_ms: u64,
    post: DungeonLog,
) -> bool {
    if pre.spec_has_open() && pre.segments@.last().segment_type == SegmentType::Boss && any_dead {
        &&& post.segments@.len() == pre.segments@.len() + 1
        &&& post.spec_has_open()
        &&& post.segments@.last().segment_type == SegmentType::Trash
        &&& post.segments@.last().started_at_ms == now_ms
        &&& post.segments@.last().boss_name is None
        &&& post.segments@.last().scene_id == scene_id
        &&& crate::tables::opt_name_view(post.segments@.last().scene_name) == scene_name
    } else {
        post == pre
    }
}

/// The timeout transition of an emitting tick: an open segment silent for
/// the inactivity span closes into a fresh trash segment; otherwise the
/// log is unchanged.
pub open spec fn spec_timeout_step(
    pre: DungeonLog,
    last_combat: u64,
    scene_id: Option<i32>,
    scene_name: Option<Seq<char>>,
    now_ms: u64,
    post: DungeonLog,
) -> bool {
    if pre.spec_has_open() && now_ms >= last_combat && now_ms - last_combat
        >= crate::dungeon::SEGMENT_INACTIVITY_MS {
        &&& post.segments@.len() == pre.segments@.len() + 1
        &&& post.spec_has_open()
        &&& post.segments@.last().segment_type == SegmentType::Trash
        &&& post.segments@.last().started_at_ms == now_ms
        &&& post.segments@.last().boss_name is None
        &&& post.segments@.last().scene_id == scene_id
        &&& crate::tables::opt_name_view(post.segments@.last().scene_name) == scene_name
    } else {
        post == pre
    }
}

/// What an emitting tick does to the dungeon log when segments are
/// tracked: the engage, death and timeout transitions, in that order.
pub open spec fn spec_tick_dungeon(
    pre: DungeonLog,
    s: Seq<Entity>,
    fight_start: u64,
    last_combat: u64,
    any_dead: bool,
    scene_id: Option<i32>,
    scene_name: Option<Seq<char>>,
    now_ms: u64,
    post: DungeonLog,
) -> bool {
    exists|log1: DungeonLog, log2: DungeonLog|
        {
            &&& #[trigger] spec_engage_step(pre, s, fight_start, scene_id, scene_name, now_ms, log1)
            &&& #[trigger] spec_death_step(log1, any_dead, scene_id, scene_name, now_ms, log2)
            &&& spec_timeout_step(log2, last_combat, scene_id, scene_name, now_ms, post)
        }
}

/// Whether a tracked boss is strictly under the low-HP threshold.
pub open spec fn spec_entity_low(e: Entity) -> bool {
    crate::snapshot::spec_boss_low(
        crate::entity::spec_attr_int(e.attrs@, ATTR_CUR_HP),
        crate::entity::spec_attr_int(e.attrs@, ATTR_MAX_HP),
    )
}

/// The boundary detector holds the same dwell timer and promotion for `u`.
pub open spec fn spec_boundary_same(
    pre: BoundaryDetector,
    post: BoundaryDetector,
    u: i64,
) -> bool {
    &&& crate::boundary::spec_dead_in(post.dead_bosses@, u) == crate::boundary::spec_dead_in(
        pre.dead_bosses@,
        u,
    )
    &&& crate::boundary::spec_dwell(post.low_hp_bosses@, u) == crate::boundary::spec_dwell(
        pre.low_hp_bosses@,
        u,
    )
}

/// Whether this tick promotes the boss: low, not yet dead, and its dwell
/// timer armed at least the dwell span ago.
pub open spec fn spec_newly_cond(e: Entity, pre: BoundaryDetector, now_ms: u64) -> bool {
    let u = e.entity_id;
    let d0 = crate::boundary::spec_dwell(pre.low_hp_bosses@, u);
    &&& spec_entity_low(e)
    &&& !crate::boundary::spec_dead_in(pre.dead_bosses@, u)
    &&& d0 != 0
    &&& now_ms >= d0
    &&& now_ms - d0 >= crate::boundary::BOSS_DEATH_DWELL_MS
}

/// One tracked boss's observation was taken: its dwell timer advanced, it
/// was promoted exactly when due, and it stands in the newly-dead list
/// exactly when promoted by this tick.
pub open spec fn spec_obs_done(
    e: Entity,
    pre: BoundaryDetector,
    post: BoundaryDetector,
    newly: Seq<i64>,
    now_ms: u64,
) -> bool {
    let u = e.entity_id;
    let low = spec_entity_low(e);
    let d0 = crate::boundary::spec_dwell(pre.low_hp_bosses@, u);
    let was = crate::boundary::spec_dead_in(pre.dead_bosses@, u);
    let cond = spec_newly_cond(e, pre, now_ms);
    &&& crate::boundary::spec_dead_in(post.dead_bosses@, u) == (was || cond)
    &&& crate::boundary::spec_dwell(post.low_hp_bosses@, u) == (if low {
        if d0 == 0 {
            now_ms
        } else {
            d0
        }
    } else {
        0u64
    })
    &&& crate::boundary::spec_dead_in(newly, u) == cond
}

/// What one emitting tick does to the boss-death state, for every uid: a
/// tracked boss is observed per [`spec_obs_done`]; everything else keeps
/// its dwell timer and promotion and is not reported.
pub open spec fn spec_tick_obs(
    s: Seq<Entity>,
    pre: BoundaryDetector,
    post: BoundaryDetector,
    newly: Seq<i64>,
    u: i64,
    now_ms: u64,
) -> bool {
    match crate::encounter::find_entity(s, u) {
        Some(e) => if spec_boss_tracked(e) {
            spec_obs_done(e, pre, post, newly, now_ms)
        } else {
            spec_boundary_same(pre, post, u) && !crate::boundary::spec_dead_in(newly, u)
        },
        None => spec_boundary_same(pre, post, u) && !crate::boundary::spec_dead_in(newly, u),
    }
}

/// What a dungeon-state packet does to the live state: the stored
/// objective and dungeon state always follow the packet; a changed
/// objective or a first transition into a terminal state while combat has
/// flowed — or a deferred reset come due — commits and resets the
/// encounter; otherwise nothing changes.
pub open spec fn spec_dungeon_arm_ok(
    pre: AppState,
    post: AppState,
    objective_id: Option<i64>,
    state: Option<i32>,
    now_ms: u64,
    fx: EventEffects,
) -> bool {
    let objective_changed = objective_id is Some && pre.battle_state.current_objective is Some
        && objective_id != pre.battle_state.current_objective;
    let state_ended = state is Some && pre.battle_state.dungeon_state != state
        && crate::battle::spec_is_end_state(pre.battle_state.end_states@, state->Some_0);
    let has_stats = pre.encounter.total_dmg > 0 || pre.encounter.total_heal > 0;
    let fires = (objective_changed || state_ended) && has_stats;
    &&& post.battle_state.current_objective == (if objective_id is Some {
        objective_id
    } else {
        pre.battle_state.current_objective
    })
    &&& post.battle_state.dungeon_state == (if state is Some {
        state
    } else {
        pre.battle_state.dungeon_state
    })
    &&& fx.emit_reset == (fires || spec_has_due(pre.battle_state.deferred@, now_ms))
    &&& (fx.emit_reset ==> {
        &&& !post.encounter.spec_has_started()
        &&& fx.commit is Some == pre.encounter.spec_has_started()
        &&& (fx.commit is Some ==> spec_commit_ok(pre, now_ms, false, fx.commit->Some_0))
    })
    &&& (!fx.emit_reset ==> post.encounter == pre.encounter && fx.commit is None)
}

/// Effects with nothing to do.
pub open spec fn spec_no_effects(fx: EventEffects) -> bool {
    &&& fx.commit is None
    &&& !fx.emit_reset
    &&& fx.emit_pause is None
    &&& !fx.scene_changed
    &&& !fx.dropped_paused
}

/// At most this many skills may be monitored for cooldown tracking.
pub const MAX_MONITORED_SKILLS: usize = 10;

/// The cooldown entries kept when the monitored set changes: exactly
/// those of a still-monitored skill, in stored order.
pub open spec fn spec_retained_cds(cds: Seq<SkillCdState>, monitored: Seq<i32>) -> Seq<
    SkillCdState,
>
    decreases cds.len(),
{
    if cds.len() == 0 {
        Seq::<SkillCdState>::empty()
    } else {
        let rest = spec_retained_cds(cds.drop_last(), monitored);
        if exists|m: int|
            0 <= m < monitored.len() && crate::monitor::spec_cd_matches(
                cds.last(),
                #[trigger] monitored[m],
            ) {
            rest.push(cds.last())
        } else {
            rest
        }
    }
}

/// Everything a full reset changes: the encounter loses all combat state,
/// subscriptions, buffs and boss-death tracking are cleared, and — for a
/// manual reset or a server change — the battle state machine starts over.
pub open spec fn spec_full_reset(pre: AppState, post: AppState, reinit_battle: bool) -> bool {
    &&& spec_encounter_reset(pre.encounter, post.encounter)
    &&& post.skill_subscriptions@.len() == 0
    &&& post.buffs.active_buffs@.len() == 0
    &&& post.boundary.low_hp_bosses@.len() == 0
    &&& post.boundary.dead_bosses@.len() == 0
    &&& (if reinit_battle {
        post.battle_state.current_objective is None && post.battle_state.dungeon_state is None
            && post.battle_state.deferred@.len() == 0 && post.battle_state.end_states
            == pre.battle_state.end_states
    } else {
        post.battle_state == pre.battle_state
    })
    &&& post.skill_cd_map == pre.skill_cd_map
    &&& post.monitored_skill_ids == pre.monitored_skill_ids
    &&& post.monitored_buff_ids == pre.monitored_buff_ids
    &&& post.priority_buff_ids == pre.priority_buff_ids
    &&& post.monitor_all_buff == pre.monitor_all_buff
    &&& post.boss_only_dps == pre.boss_only_dps
    &&& post.dungeon_segments_enabled == pre.dungeon_segments_enabled
    &&& post.event_update_rate_ms == pre.event_update_rate_ms
    &&& post.throttle == pre.throttle
    &&& post.temp_attrs == pre.temp_attrs
    &&& post.attr_skill_cd == pre.attr_skill_cd
    &&& post.attr_skill_cd_pct == pre.attr_skill_cd_pct
    &&& post.attr_cd_accelerate_pct == pre.attr_cd_accelerate_pct
    &&& post.scene_registry == pre.scene_registry
    &&& post.dungeon_log == pre.dungeon_log
}

impl AppState {
    /// Commit (when combat has flowed) and fully reset the encounter:
    /// combat state, subscriptions, buffs and boss-death tracking are
    /// cleared; a manual reset also restarts the battle state machine.
    pub fn reset_encounter(&mut self, now_ms: u64, is_manual: bool) -> (commit: Option<
        CommitRequest,
    >)
        requires
            old(self).wf(),
        ensures
            final(self).wf(),
            commit is Some == old(self).encounter.spec_has_started(),
            commit is Some ==> spec_commit_ok(*old(self), now_ms, is_manual, commit->Some_0),
            spec_full_reset(*old(self), *final(self), is_manual),
    {
        let commit = self.build_commit(now_ms, is_manual);
        self.encounter.reset_combat_state();
        self.skill_subscriptions = Vec::new();
        self.buffs.clear();
        self.boundary.reset();
        if is_manual {
            self.battle_state.reinitialize();
        }
        commit
    }

    /// A server change: commit and fully reset, always restarting the
    /// battle state machine.
    pub fn on_server_change(&mut self, now_ms: u64) -> (commit: Option<CommitRequest>)
        requires
            old(self).wf(),
        ensures
            final(self).wf(),
            commit is Some == old(self).encounter.spec_has_started(),
            commit is Some ==> spec_commit_ok(*old(self), now_ms, false, commit->Some_0),
            spec_full_reset(*old(self), *final(self), true),
    {
        let commit = self.build_commit(now_ms, false);
        self.encounter.reset_combat_state();
        self.skill_subscriptions = Vec::new();
        self.buffs.clear();
        self.boundary.reset();
        self.battle_state.reinitialize();
        commit
    }

    /// Replace the monitored skill set: at most [`MAX_MONITORED_SKILLS`]
    /// ids are accepted; on success the cooldown entries of skills no
    /// longer monitored are pruned.
    pub fn set_monitored_skills(&mut self, skill_level_ids: Vec<i32>) -> (accepted: bool)
        requires
            old(self).wf(),
        ensures
            final(self).wf(),
            accepted == (skill_level_ids@.len() <= MAX_MONITORED_SKILLS),
            !accepted ==> *final(self) == *old(self),
            accepted ==> {
                &&& final(self).monitored_skill_ids == skill_level_ids
                &&& final(self).skill_cd_map@ == spec_retained_cds(
                    old(self).skill_cd_map@,
                    skill_level_ids@,
                )
                &&& *final(self) == (AppState {
                    monitored_skill_ids: final(self).monitored_skill_ids,
                    skill_cd_map: final(self).skill_cd_map,
                    ..*old(self)
                })
            },
    {
        if skill_level_ids.len() > MAX_MONITORED_SKILLS {
            return false;
        }
        let ghost map0 = self.skill_cd_map@;
        let mut kept: Vec<SkillCdState> = Vec::new();
        let n: usize = self.skill_cd_map.len();
        let mut i: usize = 0;
        proof {
            assert(map0.take(0int) =~= Seq::<SkillCdState>::empty());
        }
        while i < n
            invariant
                n == map0.len(),
                map0 == self.skill_cd_map@,
                0 <= i <= n,
                kept@ == spec_retained_cds(map0.take(i as int), skill_level_ids@),
                forall|k: int|
                    0 <= k < kept@.len() ==> exists|j: int|
                        0 <= j < i && #[trigger] kept@[k] == map0[j],
            decreases n - i,
        {
            proof {
                assert(map0.take(i as int + 1).drop_last() =~= map0.take(i as int));
                assert(map0.take(i as int + 1).last() == map0[i as int]);
            }
            let cd = self.skill_cd_map[i];
            let mn: usize = skill_level_ids.len();
            let mut still = false;
            let mut m: usize = 0;
            while m < mn
                invariant
                    mn == skill_level_ids@.len(),
                    cd == map0[i as int],
                    i < n,
                    n == map0.len(),
                    0 <= m <= mn,
                    still == exists|m2: int|
                        0 <= m2 < m && crate::monitor::spec_cd_matches(
                            cd,
                            #[trigger] skill_level_ids@[m2],
                        ),
                decreases mn - m,
            {
                if !still && cd.skill_level_id >= 0 && cd.skill_level_id / 100
                    == skill_level_ids[m] {
                    still = true;
                }
                m = m + 1;
            }
            let ghost kept0 = kept@;
            if still {
                kept.push(cd);
                proof {
                    assert(forall|k: int| 0 <= k < kept0.len() ==> kept@[k] == kept0[k]);
                    assert(kept@[kept0.len() as int] == map0[i as int]);
                }
            }
            i = i + 1;
        }
        proof {
            assert(map0.take(n as int) =~= map0);
        }
        self.skill_cd_map = kept;
        self.monitored_skill_ids = skill_level_ids;
        proof {
            assert forall|k: int|
                0 <= k < self.skill_cd_map@.len() implies {
                let e = #[trigger] self.skill_cd_map@[k];
                if e.duration > 0 {
                    (e.calculated_duration as int, e.cd_accelerate_rate as int) == spec_skill_cd(
                        e.duration as i64,
                        e.skill_level_id,
                        self.temp_attrs.view_map(),
                        self.attr_skill_cd as i64,
                        self.attr_skill_cd_pct as i64,
                        self.attr_cd_accelerate_pct as i64,
                    )
                } else {
                    e.calculated_duration == e.duration && e.cd_accelerate_rate == 0
                }
            } by {
                let j = choose|j: int|
                    0 <= j < map0.len() && #[trigger] self.skill_cd_map@[k] == map0[j];
                assert(old(self).spec_cds_consistent());
            }
        }
        true
    }

    /// The wipe check, run on the tick path: when every character on the
    /// team is downed at once while combat flowed recently, the encounter
    /// is committed and fully reset. The downed count comes from the
    /// caller, which holds the active buffs against its configured list of
    /// downed-marker buff ids.
    pub fn check_wipe_reset(
        &mut self,
        downed_char_count: usize,
        char_count: usize,
        recent_combat: bool,
        now_ms: u64,
    ) -> (fx: EventEffects)
        requires
            old(self).wf(),
        ensures
            final(self).wf(),
            !fx.dropped_paused,
            fx.emit_pause is None,
            !fx.scene_changed,
            fx.emit_reset == (char_count > 0 && downed_char_count == char_count
                && recent_combat),
            !fx.emit_reset ==> *final(self) == *old(self) && fx.commit is None,
            fx.emit_reset ==> {
                &&& spec_full_reset(*old(self), *final(self), false)
                &&& fx.commit is Some == old(self).encounter.spec_has_started()
                &&& (fx.commit is Some ==> spec_commit_ok(
                    *old(self),
                    now_ms,
                    false,
                    fx.commit->Some_0,
                ))
            },
    {
        let reason = self.battle_state.check_for_wipe(
            downed_char_count,
            char_count,
            recent_combat,
        );
        match reason {
            Some(_) => {
                let commit = self.reset_encounter(now_ms, false);
                EventEffects {
                    commit,
                    emit_reset: true,
                    emit_pause: None,
                    scene_changed: false,
                    dropped_paused: false,
                }
            },
            None => no_effects(),
        }
    }

    /// Schedule a deferred battle reset — a forced restart or a restart —
    /// to fire once `due_ms` has passed; the delta and dungeon-packet
    /// paths check the schedule and apply the reset when due.
    pub fn schedule_battle_reset(&mut self, due_ms: u64, reason: EncounterResetReason)
        requires
            old(self).wf(),
        ensures
            final(self).wf(),
            final(self).battle_state.deferred@ == old(self).battle_state.deferred@.push(
                DeferredCall { due_ms, reason },
            ),
            final(self).battle_state.current_objective == old(
                self,
            ).battle_state.current_objective,
            final(self).battle_state.dungeon_state == old(self).battle_state.dungeon_state,
            final(self).battle_state.end_states == old(self).battle_state.end_states,
            *final(self) == (AppState { battle_state: final(self).battle_state, ..*old(self) }),
    {
        self.battle_state.schedule_deferred(due_ms, reason);
    }

    /// A segment boundary in dungeon-segment mode: clear the live meter
    /// but keep the fight-start stamp so the full-run duration stays
    /// accurate.
    pub fn snapshot_segment_and_reset(&mut self)
        requires
            old(self).wf(),
        ensures
            final(self).wf(),
            final(self).encounter.time_fight_start_ms == old(
                self,
            ).encounter.time_fight_start_ms,
            final(self).encounter.total_dmg == 0,
            final(self).encounter.total_heal == 0,
            final(self).encounter.total_dmg_boss_only == 0,
            final(self).encounter.time_last_combat_packet_ms == 0,
            final(self).skill_subscriptions@.len() == 0,
            final(self).buffs.active_buffs@.len() == 0,
            final(self).boundary.dead_bosses@.len() == 0,
            final(self).boundary.low_hp_bosses@.len() == 0,
            final(self).encounter.current_scene_id == old(self).encounter.current_scene_id,
            final(self).encounter.local_player_uid == old(self).encounter.local_player_uid,
            final(self).scene_registry == old(self).scene_registry,
            final(self).dungeon_log == old(self).dungeon_log,
            final(self).dungeon_segments_enabled == old(self).dungeon_segments_enabled,
            final(self).encounter.entity_uid_to_entity@.len() == old(
                self,
            ).encounter.entity_uid_to_entity@.len(),
            forall|i: int|
                0 <= i < old(self).encounter.entity_uid_to_entity@.len()
                    ==> crate::encounter::spec_combat_cleared(
                    old(self).encounter.entity_uid_to_entity@[i],
                    #[trigger] final(self).encounter.entity_uid_to_entity@[i],
                ),
    {
        let original_start = self.encounter.time_fight_start_ms;
        self.encounter.reset_combat_state();
        self.encounter.time_fight_start_ms = original_start;
        self.skill_subscriptions = Vec::new();
        self.buffs.clear();
        self.boundary.reset();
        proof {
            assert(final(self).encounter.wf());
        }
    }
}

} // verus!

verus! {

/// The first registered scene id any scanned blob yields, highest
/// priority blob first.
pub open spec fn spec_first_blob_hit(
    blobs: Seq<Vec<u8>>,
    reg: Seq<crate::scene::SceneEntry>,
    i: int,
) -> Option<i32>
    decreases blobs.len() - i,
{
    if i < 0 || i >= blobs.len() {
        None
    } else {
        match spec_scene_id_in_bytes(blobs[i]@, reg) {
            Some(v) => Some(v),
            None => spec_first_blob_hit(blobs, reg, i + 1),
        }
    }
}

/// The scene id an enter-scene packet yields: the first registered value
/// among the guid's digit runs, else the first hit in the scanned blobs.
pub open spec fn spec_extract_scene(pkt: ScenePacket, reg: Seq<crate::scene::SceneEntry>) -> Option<
    i32,
> {
    let guid_hit = match pkt.scene_guid {
        Some(g) => spec_guid_scene_id(g@, reg),
        None => None,
    };
    match guid_hit {
        Some(v) => Some(v),
        None => spec_first_blob_hit(pkt.attr_blobs@, reg, 0),
    }
}

impl AppState {
    /// Consume an enter-scene packet at wall-clock `now_ms`.
    ///
    /// The scene id is extracted per [`spec_extract_scene`]. When it
    /// differs from the current scene while combat had flowed, the
    /// encounter is committed and fully reset — or, in dungeon-segment
    /// mode, only the live meter is cleared with the fight start kept.
    /// The stored scene context always follows the packet, the dungeon
    /// log restarts for the scene, and a scene change is reported.
    pub fn process_enter_scene(&mut self, pkt: &ScenePacket, now_ms: u64) -> (fx: EventEffects)
        requires
            old(self).wf(),
        ensures
            final(self).wf(),
            fx.scene_changed,
            !fx.dropped_paused,
            fx.emit_pause is None,
            ({
                let extracted = spec_extract_scene(*pkt, old(self).scene_registry.entries@);
                let changed = extracted is Some && old(self).encounter.current_scene_id is Some
                    && extracted != old(self).encounter.current_scene_id;
                let was_started = old(self).encounter.spec_has_started();
                &&& final(self).encounter.current_scene_id == extracted
                &&& (match extracted {
                    Some(id) => match spec_scene_name(old(self).scene_registry.entries@, id) {
                        Some(nm) => match final(self).encounter.current_scene_name {
                            Some(x) => x@ == nm,
                            None => false,
                        },
                        None => final(self).encounter.current_scene_name is None,
                    },
                    // An unrecognised scene keeps a guid-derived display
                    // name when the guid decodes as text.
                    None => (match pkt.scene_guid {
                        Some(g) => (if vstd::utf8::valid_utf8(g@) {
                            crate::tables::opt_name_view(final(self).encounter.current_scene_name)
                                == Some(vstd::utf8::decode_utf8(g@))
                        } else {
                            final(self).encounter.current_scene_name is None
                        }),
                        None => final(self).encounter.current_scene_name is None,
                    }),
                })
                &&& fx.emit_reset == (changed && was_started)
                &&& (changed && was_started && !old(self).dungeon_segments_enabled ==> (
                fx.commit is Some && !final(self).encounter.spec_has_started()))
                &&& (fx.commit is Some ==> spec_commit_ok(
                    *old(self),
                    now_ms,
                    false,
                    fx.commit->Some_0,
                ))
                &&& (changed && was_started && old(self).dungeon_segments_enabled ==> {
                    &&& final(self).encounter.time_fight_start_ms == old(
                        self,
                    ).encounter.time_fight_start_ms
                    &&& final(self).encounter.total_dmg == 0
                })
                &&& (!(changed && was_started) ==> {
                    &&& fx.commit is None
                    &&& final(self).encounter.total_dmg == old(self).encounter.total_dmg
                })
            }),
            final(self).dungeon_log.segments@.len() == 1,
            final(self).dungeon_log.spec_has_open(),
    {
        let extracted: Option<i32> = match &pkt.scene_guid {
            Some(g) => {
                match crate::scene::parse_guid_scene_id(g, &self.scene_registry) {
                    Some(v) => Some(v),
                    None => self.scan_blobs(pkt),
                }
            },
            None => self.scan_blobs(pkt),
        };
        proof {
            assert(extracted == spec_extract_scene(*pkt, self.scene_registry.entries@));
        }
        let mut commit: Option<CommitRequest> = None;
        let changed = match (&extracted, &self.encounter.current_scene_id) {
            (Some(new_id), Some(prev)) => *new_id != *prev,
            _ => false,
        };
        let was_started = self.encounter.time_fight_start_ms != 0;
        if changed && was_started {
            if self.dungeon_segments_enabled {
                self.snapshot_segment_and_reset();
            } else {
                commit = self.reset_encounter(now_ms, false);
            }
        }
        match extracted {
            Some(id) => {
                self.encounter.current_scene_id = Some(id);
                self.encounter.current_scene_name = self.scene_registry.lookup(id);
            },
            None => {
                self.encounter.current_scene_id = None;
                self.encounter.current_scene_name = match &pkt.scene_guid {
                    Some(g) => {
                        let gn: usize = g.len();
                        let mut bytes: Vec<u8> = Vec::new();
                        let mut bi: usize = 0;
                        while bi < gn
                            invariant
                                gn == g@.len(),
                                0 <= bi <= gn,
                                bytes@.len() == bi,
                                forall|j: int| 0 <= j < bi ==> bytes@[j] == g@[j],
                            decreases gn - bi,
                        {
                            bytes.push(g[bi]);
                            bi = bi + 1;
                        }
                        proof {
                            assert(bytes@ =~= g@);
                        }
                        crate::codec::bytes_to_string(bytes)
                    },
                    None => None,
                };
            },
        }
        let scene_name_copy = match &self.encounter.current_scene_name {
            Some(nm) => Some(nm.clone()),
            None => None,
        };
        self.dungeon_log.reset_for_scene(now_ms, self.encounter.current_scene_id, scene_name_copy);
        proof {
            let ex = spec_extract_scene(*pkt, old(self).scene_registry.entries@);
            assert(self.encounter.current_scene_id == ex);
            assert(match ex {
                Some(id) => match spec_scene_name(old(self).scene_registry.entries@, id) {
                    Some(nm) => match self.encounter.current_scene_name {
                        Some(x) => x@ == nm,
                        None => false,
                    },
                    None => self.encounter.current_scene_name is None,
                },
                None => (match pkt.scene_guid {
                    Some(g) => (if vstd::utf8::valid_utf8(g@) {
                        crate::tables::opt_name_view(self.encounter.current_scene_name) == Some(
                            vstd::utf8::decode_utf8(g@),
                        )
                    } else {
                        self.encounter.current_scene_name is None
                    }),
                    None => self.encounter.current_scene_name is None,
                }),
            });
            let sp_changed = ex is Some && old(self).encounter.current_scene_id is Some && ex
                != old(self).encounter.current_scene_id;
            assert(changed == sp_changed);
            assert(was_started == old(self).encounter.spec_has_started());
            if changed && was_started && !old(self).dungeon_segments_enabled {
                assert(commit is Some);
                assert(!self.encounter.spec_has_started());
            }
            if changed && was_started && old(self).dungeon_segments_enabled {
                assert(self.encounter.time_fight_start_ms == old(
                    self,
                ).encounter.time_fight_start_ms);
                assert(self.encounter.total_dmg == 0);
            }
            if !(changed && was_started) {
                assert(commit is None);
                assert(self.encounter.total_dmg == old(self).encounter.total_dmg);
            }
        }
        EventEffects {
            commit,
            emit_reset: changed && was_started,
            emit_pause: None,
            scene_changed: true,
            dropped_paused: false,
        }
    }

    /// Scan the packet's attribute blobs in priority order.
    fn scan_blobs(&self, pkt: &ScenePacket) -> (r: Option<i32>)
        ensures
            r == spec_first_blob_hit(pkt.attr_blobs@, self.scene_registry.entries@, 0),
    {
        let n: usize = pkt.attr_blobs.len();
        let mut i: usize = 0;
        while i < n
            invariant
                n == pkt.attr_blobs@.len(),
                0 <= i <= n,
                spec_first_blob_hit(pkt.attr_blobs@, self.scene_registry.entries@, 0)
                    == spec_first_blob_hit(pkt.attr_blobs@, self.scene_registry.entries@, i as int),
            decreases n - i,
        {
            match crate::scene::find_scene_id_in_bytes(&pkt.attr_blobs[i], &self.scene_registry) {
                Some(v) => {
                    return Some(v);
                },
                None => {},
            }
            i = i + 1;
        }
        None
    }

    /// Consume one event at wall-clock `now_ms`.
    ///
    /// Combat packets arriving while the encounter is paused are dropped
    /// whole. Scene, dungeon-state, revive, pause and reset packets are
    /// always processed.
    pub fn apply_event(&mut self, ev: StateEvent, now_ms: u64) -> (fx: EventEffects)
        requires
            old(self).wf(),
            now_ms > 0,
            now_ms <= i64::MAX,
        ensures
            final(self).wf(),
            old(self).encounter.is_encounter_paused && spec_is_combat_event(ev) ==> (*final(self)
                == *old(self) && fx.dropped_paused && fx.commit is None),
            match ev {
                StateEvent::ResetEncounter { is_manual } => {
                    &&& spec_full_reset(*old(self), *final(self), is_manual)
                    &&& fx.emit_reset
                    &&& fx.commit is Some == old(self).encounter.spec_has_started()
                    &&& (fx.commit is Some ==> spec_commit_ok(
                        *old(self),
                        now_ms,
                        is_manual,
                        fx.commit->Some_0,
                    ))
                },
                StateEvent::ServerChange => {
                    &&& spec_full_reset(*old(self), *final(self), true)
                    &&& fx.emit_reset
                    &&& fx.commit is Some == old(self).encounter.spec_has_started()
                    &&& (fx.commit is Some ==> spec_commit_ok(
                        *old(self),
                        now_ms,
                        false,
                        fx.commit->Some_0,
                    ))
                },
                StateEvent::PauseEncounter(p) => {
                    &&& *final(self) == (AppState {
                        encounter: final(self).encounter,
                        ..*old(self)
                    })
                    &&& final(self).encounter == (Encounter {
                        is_encounter_paused: p,
                        ..old(self).encounter
                    })
                    &&& fx.emit_pause == Some(p)
                    &&& fx.commit is None
                    &&& !fx.emit_reset
                },
                StateEvent::SyncToMeDeltaInfo(pkt) => !old(self).encounter.is_encounter_paused
                    ==> {
                    &&& fx.emit_reset == spec_has_due(
                        old(self).battle_state.deferred@,
                        now_ms,
                    )
                    &&& (!fx.emit_reset ==> {
                        &&& spec_delta_chain(
                            old(self).encounter,
                            pkt.deltas@,
                            now_ms,
                            final(self).encounter,
                        )
                        &&& spec_buff_chain(
                            old(self).buffs,
                            pkt.buff_events@,
                            now_ms as i64,
                            final(self).buffs,
                        )
                        &&& fx.commit is None
                    })
                    &&& (fx.emit_reset ==> !final(self).encounter.spec_has_started())
                },
                StateEvent::EnterScene(pkt) => {
                    &&& fx.scene_changed
                    &&& final(self).encounter.current_scene_id == spec_extract_scene(
                        pkt,
                        old(self).scene_registry.entries@,
                    )
                    &&& fx.emit_reset == (spec_extract_scene(
                        pkt,
                        old(self).scene_registry.entries@,
                    ) is Some && old(self).encounter.current_scene_id is Some
                        && spec_extract_scene(pkt, old(self).scene_registry.entries@) != old(
                        self,
                    ).encounter.current_scene_id && old(self).encounter.spec_has_started())
                    &&& (fx.commit is Some ==> spec_commit_ok(
                        *old(self),
                        now_ms,
                        false,
                        fx.commit->Some_0,
                    ))
                },
                StateEvent::SyncNearEntities(updates) => !old(
                    self,
                ).encounter.is_encounter_paused ==> {
                    &&& spec_update_chain(old(self).encounter, updates@, final(self).encounter)
                    &&& *final(self) == (AppState {
                        encounter: final(self).encounter,
                        ..*old(self)
                    })
                    &&& spec_no_effects(fx)
                },
                StateEvent::SyncContainerDirtyData(updates) => !old(
                    self,
                ).encounter.is_encounter_paused ==> {
                    &&& spec_update_chain(old(self).encounter, updates@, final(self).encounter)
                    &&& *final(self) == (AppState {
                        encounter: final(self).encounter,
                        ..*old(self)
                    })
                    &&& spec_no_effects(fx)
                },
                StateEvent::SyncContainerData(upd) => !old(
                    self,
                ).encounter.is_encounter_paused ==> {
                    &&& (exists|mid: Encounter|
                        #[trigger] spec_entity_update_applied(old(self).encounter, mid, upd)
                            && final(self).encounter == (Encounter {
                            local_player_uid: upd.entity_id,
                            ..mid
                        }))
                    &&& *final(self) == (AppState {
                        encounter: final(self).encounter,
                        ..*old(self)
                    })
                    &&& spec_no_effects(fx)
                },
                StateEvent::NotifyReviveUser { entity_id, current_hp, max_hp } => {
                    &&& (exists|upd: EntityUpdate|
                        {
                            &&& #[trigger] spec_entity_update_applied(
                                old(self).encounter,
                                final(self).encounter,
                                upd,
                            )
                            &&& upd.entity_id == entity_id
                            &&& upd.entity_type is None
                            &&& upd.is_boss_flag is None
                            &&& upd.name is None
                            &&& upd.monster_name is None
                            &&& upd.class_id is None
                            &&& upd.class_spec is None
                            &&& upd.ability_score is None
                            &&& upd.attrs@.len() == 2
                            &&& upd.attrs@[0] == (AttrEntry {
                                id: ATTR_CUR_HP,
                                value: AttrValue::Int(current_hp),
                            })
                            &&& upd.attrs@[1] == (AttrEntry {
                                id: ATTR_MAX_HP,
                                value: AttrValue::Int(max_hp),
                            })
                        })
                    &&& *final(self) == (AppState {
                        encounter: final(self).encounter,
                        ..*old(self)
                    })
                    &&& spec_no_effects(fx)
                },
                StateEvent::SyncDungeonData { objective_id, state } => spec_dungeon_arm_ok(
                    *old(self),
                    *final(self),
                    objective_id,
                    state,
                    now_ms,
                    fx,
                ),
                StateEvent::SyncDungeonDirtyData { objective_id, state } => spec_dungeon_arm_ok(
                    *old(self),
                    *final(self),
                    objective_id,
                    state,
                    now_ms,
                    fx,
                ),
                _ => true,
            },
    {
        let paused = self.encounter.is_encounter_paused;
        let is_combat = match &ev {
            StateEvent::SyncNearEntities(_) => true,
            StateEvent::SyncContainerData(_) => true,
            StateEvent::SyncContainerDirtyData(_) => true,
            StateEvent::SyncToMeDeltaInfo(_) => true,
            StateEvent::SyncNearDeltaInfo(_) => true,
            _ => false,
        };
        if paused && is_combat {
            return EventEffects {
                commit: None,
                emit_reset: false,
                emit_pause: None,
                scene_changed: false,
                dropped_paused: true,
            };
        }
        match ev {
            StateEvent::ServerChange => {
                let commit = self.on_server_change(now_ms);
                proof {
                    assert(spec_full_reset(*old(self), *final(self), true));
                }
                EventEffects {
                    commit,
                    emit_reset: true,
                    emit_pause: None,
                    scene_changed: false,
                    dropped_paused: false,
                }
            },
            StateEvent::EnterScene(pkt) => self.process_enter_scene(&pkt, now_ms),
            StateEvent::SyncNearEntities(updates) => {
                self.apply_update_batch(updates);
                no_effects()
            },
            StateEvent::SyncContainerData(upd) => {
                let uid = upd.entity_id;
                let ghost gupd = upd;
                self.encounter.apply_entity_update(upd);
                let ghost mid = self.encounter;
                self.encounter.local_player_uid = uid;
                proof {
                    assert(self.encounter.wf());
                    assert(spec_entity_update_applied(old(self).encounter, mid, gupd));
                    assert(self.encounter == (Encounter {
                        local_player_uid: gupd.entity_id,
                        ..mid
                    }));
                }
                no_effects()
            },
            StateEvent::SyncContainerDirtyData(updates) => {
                self.apply_update_batch(updates);
                no_effects()
            },
            StateEvent::SyncToMeDeltaInfo(pkt) => {
                self.process_delta_packet(&pkt, now_ms);
                let ghost mid = *self;
                let fx2 = self.check_battle_resets(now_ms);
                proof {
                    if !fx2.emit_reset {
                        assert(self.encounter == mid.encounter);
                    }
                }
                fx2
            },
            StateEvent::SyncNearDeltaInfo(pkts) => {
                let mut pkts = pkts;
                while pkts.len() > 0
                    invariant
                        self.wf(),
                        now_ms > 0,
                        now_ms <= i64::MAX,
                    decreases pkts@.len(),
                {
                    let pkt = pkts.remove(0);
                    self.process_delta_packet(&pkt, now_ms);
                }
                no_effects()
            },
            StateEvent::NotifyReviveUser { entity_id, current_hp, max_hp } => {
                let mut attrs: Vec<crate::entity::AttrEntry> = Vec::new();
                attrs.push(crate::entity::AttrEntry { id: ATTR_CUR_HP, value: AttrValue::Int(current_hp) });
                attrs.push(crate::entity::AttrEntry { id: ATTR_MAX_HP, value: AttrValue::Int(max_hp) });
                let upd = EntityUpdate {
                    entity_id,
                    entity_type: None,
                    is_boss_flag: None,
                    name: None,
                    monster_name: None,
                    class_id: None,
                    class_spec: None,
                    ability_score: None,
                    attrs,
                };
                let ghost gupd = upd;
                self.encounter.apply_entity_update(upd);
                proof {
                    assert(gupd.attrs@.len() == 2);
                    assert(gupd.attrs@[0] == (AttrEntry {
                        id: ATTR_CUR_HP,
                        value: AttrValue::Int(current_hp),
                    }));
                    assert(gupd.attrs@[1] == (AttrEntry {
                        id: ATTR_MAX_HP,
                        value: AttrValue::Int(max_hp),
                    }));
                    assert(spec_entity_update_applied(
                        old(self).encounter,
                        self.encounter,
                        gupd,
                    ));
                }
                no_effects()
            },
            StateEvent::SyncDungeonData { objective_id, state } => {
                self.process_dungeon_packet(objective_id, state, now_ms)
            },
            StateEvent::SyncDungeonDirtyData { objective_id, state } => {
                self.process_dungeon_packet(objective_id, state, now_ms)
            },
            StateEvent::PauseEncounter(p) => {
                self.encounter.is_encounter_paused = p;
                proof {
                    assert(self.encounter.wf());
                }
                EventEffects {
                    commit: None,
                    emit_reset: false,
                    emit_pause: Some(p),
                    scene_changed: false,
                    dropped_paused: false,
                }
            },
            StateEvent::ResetEncounter { is_manual } => {
                let commit = self.reset_encounter(now_ms, is_manual);
                EventEffects {
                    commit,
                    emit_reset: true,
                    emit_pause: None,
                    scene_changed: false,
                    dropped_paused: false,
                }
            },
        }
    }

    /// Apply a batch of entity updates to the encounter, in order.
    fn apply_update_batch(&mut self, updates: Vec<EntityUpdate>)
        requires
            old(self).wf(),
        ensures
            final(self).wf(),
            spec_update_chain(old(self).encounter, updates@, final(self).encounter),
            *final(self) == (AppState { encounter: final(self).encounter, ..*old(self) }),
    {
        let ghost all = updates@;
        let ghost pre_enc = self.encounter;
        let mut updates = updates;
        let ghost mut done: int = 0;
        proof {
            assert(all.take(0int) =~= Seq::<EntityUpdate>::empty());
            assert(updates@ =~= all.skip(0int));
        }
        while updates.len() > 0
            invariant
                self.wf(),
                0 <= done <= all.len(),
                updates@ == all.skip(done),
                pre_enc == old(self).encounter,
                spec_update_chain(pre_enc, all.take(done), self.encounter),
                *self == (AppState { encounter: self.encounter, ..*old(self) }),
            decreases updates@.len(),
        {
            let ghost mid_enc = self.encounter;
            let upd = updates.remove(0);
            let ghost gupd = upd;
            proof {
                assert(all.skip(done)[0] == all[done]);
                assert(gupd == all[done]);
                assert(updates@ =~= all.skip(done + 1));
            }
            self.encounter.apply_entity_update(upd);
            proof {
                lemma_update_chain_snoc(pre_enc, all.take(done), gupd, mid_enc, self.encounter);
                assert(all.take(done + 1) =~= all.take(done).push(gupd));
                done = done + 1;
            }
        }
        proof {
            assert(all.skip(done).len() == 0);
            assert(done == all.len());
            assert(all.take(done) =~= all);
        }
    }

    /// Consume one dungeon-state packet, per [`spec_dungeon_arm_ok`]: the
    /// battle state machine decides whether the run's boundary was crossed,
    /// and a due deferred reset is applied otherwise.
    fn process_dungeon_packet(
        &mut self,
        objective_id: Option<i64>,
        state: Option<i32>,
        now_ms: u64,
    ) -> (fx: EventEffects)
        requires
            old(self).wf(),
        ensures
            final(self).wf(),
            spec_dungeon_arm_ok(*old(self), *final(self), objective_id, state, now_ms, fx),
            !fx.dropped_paused,
            fx.emit_pause is None,
            !fx.scene_changed,
    {
        let has_stats = self.encounter_has_stats();
        let reason = self.battle_state.process_dungeon_update(objective_id, state, has_stats);
        let ghost mid = *self;
        match reason {
            Some(_) => {
                let commit = self.reset_encounter(now_ms, false);
                proof {
                    if commit is Some {
                        assert(spec_commit_ok(mid, now_ms, false, commit->Some_0));
                        assert(mid.encounter == old(self).encounter);
                        assert(mid.boundary == old(self).boundary);
                        assert(spec_commit_ok(*old(self), now_ms, false, commit->Some_0));
                    }
                }
                EventEffects {
                    commit,
                    emit_reset: true,
                    emit_pause: None,
                    scene_changed: false,
                    dropped_paused: false,
                }
            },
            None => {
                let fx2 = self.check_battle_resets(now_ms);
                proof {
                    if fx2.commit is Some {
                        assert(spec_commit_ok(mid, now_ms, false, fx2.commit->Some_0));
                        assert(spec_commit_ok(*old(self), now_ms, false, fx2.commit->Some_0));
                    }
                }
                fx2
            },
        }
    }

    /// Whether any combat was recorded.
    fn encounter_has_stats(&self) -> (r: bool)
        ensures
            r == (self.encounter.total_dmg > 0 || self.encounter.total_heal > 0),
    {
        self.encounter.total_dmg > 0 || self.encounter.total_heal > 0
    }

    /// Fire any due deferred battle reset.
    fn check_battle_resets(&mut self, now_ms: u64) -> (fx: EventEffects)
        requires
            old(self).wf(),
        ensures
            final(self).wf(),
            !fx.dropped_paused,
            fx.emit_pause is None,
            !fx.scene_changed,
            fx.emit_reset == spec_has_due(old(self).battle_state.deferred@, now_ms),
            final(self).battle_state.current_objective == old(
                self,
            ).battle_state.current_objective,
            final(self).battle_state.dungeon_state == old(self).battle_state.dungeon_state,
            final(self).battle_state.end_states == old(self).battle_state.end_states,
            !fx.emit_reset ==> *final(self) == *old(self) && fx.commit is None,
            fx.emit_reset ==> {
                &&& !final(self).encounter.spec_has_started()
                &&& final(self).encounter.total_dmg == 0
                &&& final(self).buffs.active_buffs@.len() == 0
                &&& final(self).skill_subscriptions@.len() == 0
                &&& fx.commit is Some == old(self).encounter.spec_has_started()
                &&& (fx.commit is Some ==> spec_commit_ok(
                    *old(self),
                    now_ms,
                    false,
                    fx.commit->Some_0,
                ))
            },
    {
        let ghost pre = *self;
        let reason = self.battle_state.check_deferred_calls(now_ms);
        match reason {
            Some(_) => {
                let commit = self.reset_encounter(now_ms, false);
                EventEffects {
                    commit,
                    emit_reset: true,
                    emit_pause: None,
                    scene_changed: false,
                    dropped_paused: false,
                }
            },
            None => {
                proof {
                    assert(*self == pre);
                }
                no_effects()
            },
        }
    }

    /// One snapshot tick at wall-clock `now_ms`: decide whether to emit
    /// per the throttle; on an emitting tick, advance every tracked boss's
    /// dwell timer exactly per [`spec_tick_obs`], collect the bosses newly
    /// promoted to dead, build the header with dead and candidate bosses
    /// pinned to zero HP, and close a timed-out dungeon segment.
    #[verifier::rlimit(100)]
    #[verifier::spinoff_prover]
    pub fn on_tick(&mut self, now_ms: u64) -> (r: (bool, Vec<i64>, Option<HeaderInfo>))
        requires
            old(self).wf(),
            now_ms > 0,
        ensures
            final(self).wf(),
            r.0 == crate::snapshot::spec_tick_emits(
                old(self).throttle.last_emit_ms,
                now_ms,
                old(self).event_update_rate_ms,
            ),
            final(self).throttle.last_emit_ms == if r.0 {
                now_ms
            } else {
                old(self).throttle.last_emit_ms
            },
            final(self).encounter == old(self).encounter,
            *final(self) == (AppState {
                throttle: final(self).throttle,
                boundary: final(self).boundary,
                dungeon_log: final(self).dungeon_log,
                ..*old(self)
            }),
            r.2 is Some == r.0,
            !r.0 ==> final(self).boundary == old(self).boundary && final(self).dungeon_log == old(
                self,
            ).dungeon_log && r.1@.len() == 0,
            r.0 && old(self).dungeon_segments_enabled ==> spec_tick_dungeon(
                old(self).dungeon_log,
                old(self).encounter.entity_uid_to_entity@,
                old(self).encounter.time_fight_start_ms,
                old(self).encounter.time_last_combat_packet_ms,
                r.1@.len() > 0,
                old(self).encounter.current_scene_id,
                crate::tables::opt_name_view(old(self).encounter.current_scene_name),
                now_ms,
                final(self).dungeon_log,
            ),
            r.0 && !old(self).dungeon_segments_enabled ==> final(self).dungeon_log == old(
                self,
            ).dungeon_log,
            r.0 ==> {
                &&& crate::snapshot::spec_header_ok(
                    old(self).encounter,
                    old(self).boss_only_dps,
                    final(self).boundary.dead_bosses@,
                    r.2->Some_0,
                )
                &&& (forall|u: i64|
                    #[trigger] spec_tick_obs(
                        old(self).encounter.entity_uid_to_entity@,
                        old(self).boundary,
                        final(self).boundary,
                        r.1@,
                        u,
                        now_ms,
                    ))
            },
    {
        let emitted = self.throttle.on_tick(now_ms, self.event_update_rate_ms);
        let ghost th = self.throttle;
        if !emitted {
            return (false, Vec::new(), None);
        }
        // Advance the boss-death dwell timers, one observation per tracked
        // boss entity.
        let dps_ok = self.encounter.scope_dps_ok(self.boss_only_dps);
        let mut newly_dead: Vec<i64> = Vec::new();
        let ghost s = self.encounter.entity_uid_to_entity@;
        let ghost b_pre = self.boundary;
        let n: usize = self.encounter.entity_uid_to_entity.len();
        let mut i: usize = 0;
        while i < n
            invariant
                n == s.len(),
                s == self.encounter.entity_uid_to_entity@,
                self.encounter.wf(),
                self.boundary.wf(),
                b_pre == old(self).boundary,
                b_pre.wf(),
                now_ms > 0,
                0 <= i <= n,
                self.throttle == th,
                *self == (AppState { boundary: self.boundary, throttle: th, ..*old(self) }),
                forall|j: int|
                    0 <= j < i && spec_boss_tracked(#[trigger] s[j]) ==> spec_obs_done(
                        s[j],
                        b_pre,
                        self.boundary,
                        newly_dead@,
                        now_ms,
                    ),
                forall|j: int|
                    i <= j < n && spec_boss_tracked(#[trigger] s[j]) ==> spec_boundary_same(
                        b_pre,
                        self.boundary,
                        s[j].entity_id,
                    ) && !crate::boundary::spec_dead_in(newly_dead@, s[j].entity_id),
                forall|u: i64|
                    (match crate::encounter::find_entity(s, u) {
                        Some(e) => !spec_boss_tracked(e),
                        None => true,
                    }) ==> #[trigger] spec_boundary_same(b_pre, self.boundary, u)
                        && !crate::boundary::spec_dead_in(newly_dead@, u),
            decreases n - i,
        {
            let e = &self.encounter.entity_uid_to_entity[i];
            let observed = e.is_boss() && (match (e.attr_int(ATTR_CUR_HP), e.attr_int(
                ATTR_MAX_HP,
            )) {
                (None, None) => false,
                _ => true,
            });
            if observed {
                let is_low = match (e.attr_int(ATTR_CUR_HP), e.attr_int(ATTR_MAX_HP)) {
                    (Some(h), Some(m)) => m > 0 && (h as i128) * 20 < (m as i128),
                    _ => false,
                };
                let uid = e.entity_id;
                proof {
                    crate::encounter::lemma_find_entity_at(s, i as int);
                    assert(spec_boundary_same(b_pre, self.boundary, uid));
                }
                let ghost nd0 = newly_dead@;
                let ghost b_cur = self.boundary;
                let obs = self.boundary.observe_boss(uid, is_low, dps_ok, now_ms);
                if obs.newly_dead {
                    newly_dead.push(uid);
                }
                proof {
                    if obs.newly_dead {
                        assert(newly_dead@ == nd0.push(uid));
                    }
                    assert forall|u2: i64| true implies #[trigger] crate::boundary::spec_dead_in(
                        newly_dead@,
                        u2,
                    ) == (crate::boundary::spec_dead_in(nd0, u2) || (obs.newly_dead && u2
                        == uid)) by {
                        crate::boundary::lemma_dead_in_push_cases(nd0, newly_dead@, uid, u2, obs.newly_dead);
                    }
                    assert(spec_obs_done(s[i as int], b_pre, self.boundary, newly_dead@, now_ms));
                    assert forall|u: i64|
                        (match crate::encounter::find_entity(s, u) {
                            Some(e2) => !spec_boss_tracked(e2),
                            None => true,
                        }) implies #[trigger] spec_boundary_same(b_pre, self.boundary, u)
                        && !crate::boundary::spec_dead_in(newly_dead@, u) by {
                        assert(u != uid) by {
                            if u == uid {
                                assert(crate::encounter::find_entity(s, u) == Some(s[i as int]));
                            }
                        }
                        assert(spec_boundary_same(b_pre, b_cur, u));
                        assert(spec_boundary_same(b_pre, self.boundary, u));
                    }
                }
            }
            i = i + 1;
        }
        // The header, with dead and candidate bosses pinned to zero HP.
        let header = self.encounter.generate_header_info(
            self.boss_only_dps,
            &self.boundary.dead_bosses,
        );
        // Dungeon segmentation: engaging a boss turns the trash segment
        // into a boss segment; a death closes it; a silent segment times
        // out.
        if self.dungeon_segments_enabled {
            let ghost log0 = self.dungeon_log;
            let ghost scene_name_view = crate::tables::opt_name_view(
                self.encounter.current_scene_name,
            );
            let scene_id = self.encounter.current_scene_id;
            let scene_name = match &self.encounter.current_scene_name {
                Some(nm) => Some(nm.clone()),
                None => None,
            };
            let in_trash = match self.dungeon_log.open_segment_type() {
                Some(SegmentType::Trash) => true,
                _ => false,
            };
            if in_trash && self.encounter.time_fight_start_ms != 0 {
                match self.first_tracked_boss_label() {
                    Some(boss_name) => {
                        let scene_name2 = match &self.encounter.current_scene_name {
                            Some(nm) => Some(nm.clone()),
                            None => None,
                        };
                        self.dungeon_log.on_boss_engage(now_ms, boss_name, scene_id, scene_name2);
                    },
                    None => {},
                }
            }
            let ghost log1 = self.dungeon_log;
            proof {
                assert(spec_engage_step(
                    log0,
                    s,
                    self.encounter.time_fight_start_ms,
                    scene_id,
                    scene_name_view,
                    now_ms,
                    log1,
                ));
            }
            let in_boss = match self.dungeon_log.open_segment_type() {
                Some(SegmentType::Boss) => true,
                _ => false,
            };
            if in_boss && newly_dead.len() > 0 {
                let scene_name3 = match &self.encounter.current_scene_name {
                    Some(nm) => Some(nm.clone()),
                    None => None,
                };
                self.dungeon_log.on_boss_death(now_ms, scene_id, scene_name3);
            }
            let ghost log2 = self.dungeon_log;
            proof {
                assert(spec_death_step(
                    log1,
                    newly_dead@.len() > 0,
                    scene_id,
                    scene_name_view,
                    now_ms,
                    log2,
                ));
            }
            let _timed_out = self.dungeon_log.check_timeout(
                now_ms,
                self.encounter.time_last_combat_packet_ms,
                scene_id,
                scene_name,
            );
            proof {
                assert(spec_timeout_step(
                    log2,
                    self.encounter.time_last_combat_packet_ms,
                    scene_id,
                    scene_name_view,
                    now_ms,
                    self.dungeon_log,
                ));
                assert(spec_tick_dungeon(
                    log0,
                    s,
                    self.encounter.time_fight_start_ms,
                    self.encounter.time_last_combat_packet_ms,
                    newly_dead@.len() > 0,
                    scene_id,
                    scene_name_view,
                    now_ms,
                    self.dungeon_log,
                ));
            }
        }
        proof {
            assert forall|u: i64| true implies #[trigger] spec_tick_obs(
                old(self).encounter.entity_uid_to_entity@,
                old(self).boundary,
                self.boundary,
                newly_dead@,
                u,
                now_ms,
            ) by {
                match crate::encounter::find_entity(s, u) {
                    Some(e) => {
                        if spec_boss_tracked(e) {
                            crate::encounter::lemma_find_entity_some_index(s, u);
                            let j = choose|j: int|
                                0 <= j < s.len() && (#[trigger] s[j]).entity_id == u && s[j]
                                    == crate::encounter::find_entity(s, u)->Some_0;
                            assert(spec_obs_done(s[j], b_pre, self.boundary, newly_dead@, now_ms));
                        } else {
                            assert(spec_boundary_same(b_pre, self.boundary, u));
                            assert(spec_boundary_same(old(self).boundary, self.boundary, u));
                        }
                    },
                    None => {
                        assert(spec_boundary_same(b_pre, self.boundary, u));
                        assert(spec_boundary_same(old(self).boundary, self.boundary, u));
                    },
                }
            }
        }
        (true, newly_dead, Some(header))
    }
}

/// Effects with nothing to do.
fn no_effects() -> (fx: EventEffects)
    ensures
        spec_no_effects(fx),
{
    EventEffects {
        commit: None,
        emit_reset: false,
        emit_pause: None,
        scene_changed: false,
        dropped_paused: false,
    }
}

} // verus!
