use meter_core::aggregator::{AppState, DeltaPacket, ScenePacket, SkillCdPacket, SkillCdState, StateEvent};
use meter_core::monitor::{merge_buff_ids, resolve_active_profile, select_monitored_cds};
use meter_core::boundary::BoundaryDetector;
use meter_core::buffs::{BuffEvent, BuffRelations, BuffTracker};
use meter_core::cooldown::{TempAttrs, calculate_skill_cd};
use meter_core::dungeon::{DungeonLog, SegmentType};
use meter_core::encounter::{CombatDelta, DeltaKind, Encounter, EntityUpdate};
use meter_core::entity::{AttrEntry, AttrValue, Entity, EntityType, ATTR_CUR_HP, ATTR_MAX_HP};
use meter_core::models::{MetricType, build_per_target_stats, target_skill_rows, to_raw_combat_stats};
use meter_core::scene::{SceneEntry, SceneRegistry, find_scene_id_in_bytes, parse_guid_scene_id, parse_varint};
use meter_core::snapshot::{EmitThrottle, prettify_name};
use meter_core::store::{
    EncounterFilters, StoredEncounterRow, build_encounter_blob, bytes_contains,
    encounter_row_matches, list_encounters, load_actor_stats, load_encounter_blob, names_from_json,
    names_to_json, persist_entity, unique_names,
};

fn registry_with(ids: &[i32]) -> SceneRegistry {
    let mut entries = Vec::new();
    for id in ids {
        entries.push(SceneEntry { id: *id, name: format!("scene-{id}") });
    }
    SceneRegistry { entries }
}

fn fresh_state() -> AppState {
    AppState::new(vec![9], registry_with(&[1001, 1002]))
}

fn damage_delta(owner: i64, target: i64, skill: i64, value: u64, crit: bool, lucky: bool) -> CombatDelta {
    CombatDelta {
        owner_id: owner,
        owner_type: EntityType::Character,
        target_id: target,
        skill_id: skill,
        value,
        kind: DeltaKind::Damage,
        is_crit: crit,
        is_lucky: lucky,
    }
}

fn enter_scene_with_id(digits: &str) -> ScenePacket {
    ScenePacket { scene_guid: Some(digits.as_bytes().to_vec()), attr_blobs: Vec::new() }
}

fn boss_update(uid: i64, max_hp: i64) -> EntityUpdate {
    EntityUpdate {
        entity_id: uid,
        entity_type: Some(EntityType::Monster),
        is_boss_flag: Some(true),
        name: Some(String::from("Grand Warden")),
        monster_name: None,
        class_id: None,
        class_spec: None,
        ability_score: None,
        attrs: vec![
            AttrEntry { id: ATTR_CUR_HP, value: AttrValue::Int(max_hp) },
            AttrEntry { id: ATTR_MAX_HP, value: AttrValue::Int(max_hp) },
        ],
    }
}

fn player_update(uid: i64, class_id: i32, name: &str) -> EntityUpdate {
    EntityUpdate {
        entity_id: uid,
        entity_type: Some(EntityType::Character),
        is_boss_flag: None,
        name: Some(String::from(name)),
        monster_name: None,
        class_id: Some(class_id),
        class_spec: None,
        ability_score: None,
        attrs: Vec::new(),
    }
}

fn delta_packet(deltas: Vec<CombatDelta>) -> DeltaPacket {
    DeltaPacket {
        deltas,
        skill_cds: Vec::new(),
        attr_skill_cd: None,
        attr_skill_cd_pct: None,
        attr_cd_accelerate_pct: None,
        temp_attrs: Vec::new(),
        buff_events: Vec::new(),
    }
}

#[test]
fn crit_and_lucky_on_the_same_hit() {
    let mut enc = Encounter::new();
    let applied = enc.apply_combat_delta(damage_delta(1, 900, 42, 1000, true, true), 1_000);
    assert!(applied);
    let e = &enc.entity_uid_to_entity[0];
    let dealt = if e.entity_id == 1 { e } else { &enc.entity_uid_to_entity[1] };
    assert_eq!(dealt.damage.hits, 1);
    assert_eq!(dealt.damage.crit_hits, 1);
    assert_eq!(dealt.damage.lucky_hits, 1);
    assert_eq!(dealt.damage.total, 1000);
    assert_eq!(dealt.damage.crit_total, 1000);
    assert_eq!(dealt.damage.lucky_total, 1000);
}

#[test]
fn category_total_is_sum_of_skills() {
    let mut enc = Encounter::new();
    enc.apply_combat_delta(damage_delta(1, 900, 42, 100, false, false), 1_000);
    enc.apply_combat_delta(damage_delta(1, 900, 43, 250, false, false), 1_500);
    enc.apply_combat_delta(damage_delta(1, 901, 42, 50, false, false), 2_000);
    let e = enc
        .entity_uid_to_entity
        .iter()
        .find(|e| e.entity_id == 1)
        .expect("owner exists");
    let skill_sum: u128 = e.skill_uid_to_dmg_skill.iter().map(|s| s.stats.total).sum();
    assert_eq!(e.damage.total, 400);
    assert_eq!(skill_sum, 400);
    let hits_sum: u128 = e.skill_uid_to_dmg_skill.iter().map(|s| s.stats.hits).sum();
    assert_eq!(e.damage.hits, hits_sum);
}

#[test]
fn damage_total_is_sum_over_targets() {
    let mut enc = Encounter::new();
    enc.apply_combat_delta(damage_delta(1, 900, 42, 100, false, false), 1_000);
    enc.apply_combat_delta(damage_delta(1, 901, 42, 300, false, false), 1_500);
    let e = enc
        .entity_uid_to_entity
        .iter()
        .find(|e| e.entity_id == 1)
        .expect("owner exists");
    let target_sum: u128 = e.dmg_to_target.iter().map(|t| t.total).sum();
    assert_eq!(e.damage.total, 400);
    assert_eq!(target_sum, 400);
}

#[test]
fn encounter_total_sums_character_entities() {
    let mut enc = Encounter::new();
    enc.apply_combat_delta(damage_delta(1, 900, 42, 100, false, false), 1_000);
    enc.apply_combat_delta(damage_delta(2, 900, 7, 300, false, false), 1_500);
    // A monster hitting back must not count into the character total.
    let mut monster_hit = damage_delta(900, 1, 5, 999, false, false);
    monster_hit.owner_type = EntityType::Monster;
    enc.apply_combat_delta(monster_hit, 2_000);
    assert_eq!(enc.total_dmg, 400);
}

#[test]
fn pause_drops_combat_packets() {
    let mut st = fresh_state();
    let fx = st.apply_event(StateEvent::PauseEncounter(true), 1_000);
    assert_eq!(fx.emit_pause, Some(true));
    for i in 0..10 {
        let fx = st.apply_event(
            StateEvent::SyncToMeDeltaInfo(delta_packet(vec![damage_delta(
                1, 900, 42, 500, false, false,
            )])),
            2_000 + i,
        );
        assert!(fx.dropped_paused);
    }
    assert_eq!(st.encounter.total_dmg, 0);
    st.apply_event(StateEvent::PauseEncounter(false), 3_000);
    let fx = st.apply_event(
        StateEvent::SyncToMeDeltaInfo(delta_packet(vec![damage_delta(
            1, 900, 42, 500, false, false,
        )])),
        4_000,
    );
    assert!(!fx.dropped_paused);
    assert_eq!(st.encounter.total_dmg, 500);
}

#[test]
fn active_dps_gap_cap() {
    let mut enc = Encounter::new();
    enc.apply_combat_delta(damage_delta(1, 900, 42, 1000, false, false), 10_000);
    enc.apply_combat_delta(damage_delta(1, 900, 42, 1000, false, false), 20_000);
    let e = enc
        .entity_uid_to_entity
        .iter()
        .find(|e| e.entity_id == 1)
        .expect("owner exists");
    assert_eq!(e.active_dmg_time_ms, 5_000);
    // True DPS: total * 1000 / active time.
    let tdps = e.damage.total * 1000 / (e.active_dmg_time_ms as u128);
    assert_eq!(tdps, 400);
    // Two quick hits accumulate the real gap instead.
    let mut enc2 = Encounter::new();
    enc2.apply_combat_delta(damage_delta(1, 900, 42, 1000, false, false), 10_000);
    enc2.apply_combat_delta(damage_delta(1, 900, 42, 1000, false, false), 11_000);
    let e2 = enc2
        .entity_uid_to_entity
        .iter()
        .find(|e| e.entity_id == 1)
        .expect("owner exists");
    assert_eq!(e2.active_dmg_time_ms, 1_000);
    assert_eq!(e2.damage.total * 1000 / (e2.active_dmg_time_ms as u128), 2000);
}

#[test]
fn single_boss_kill_emits_one_death_and_commits() {
    let mut st = fresh_state();
    let fx = st.apply_event(StateEvent::EnterScene(enter_scene_with_id("1001")), 1_000);
    assert!(fx.scene_changed);
    assert_eq!(st.encounter.current_scene_id, Some(1001));
    st.apply_event(
        StateEvent::SyncNearEntities(vec![boss_update(900, 1_000_000), player_update(1, 7, "Avar")]),
        1_100,
    );
    // 100 hits of 10_000 over ten seconds kill the boss.
    let mut now = 2_000;
    for k in 0..100u64 {
        st.apply_event(
            StateEvent::SyncToMeDeltaInfo(delta_packet(vec![damage_delta(
                1, 900, 42, 10_000, false, false,
            )])),
            now,
        );
        now += 100;
        let hp_left = 1_000_000 - ((k + 1) as i64) * 10_000;
        st.apply_event(
            StateEvent::SyncNearEntities(vec![EntityUpdate {
                attrs: vec![AttrEntry { id: ATTR_CUR_HP, value: AttrValue::Int(hp_left) }],
                entity_type: None,
                is_boss_flag: None,
                name: None,
                monster_name: None,
                class_id: None,
                class_spec: None,
                ability_score: None,
                entity_id: 900,
            }]),
            now,
        );
        now += 1;
    }
    assert_eq!(st.encounter.total_dmg, 1_000_000);
    let player = st
        .encounter
        .entity_uid_to_entity
        .iter()
        .find(|e| e.entity_id == 1)
        .expect("player exists");
    assert_eq!(player.damage.total, 1_000_000);
    // The boss dwells at zero HP; after five seconds one death is reported.
    let (_e1, dead1, hdr1) = st.on_tick(now + 100);
    assert!(dead1.is_empty());
    // A dead candidate (low HP, team damage rate up) is already pinned.
    let hdr1 = hdr1.expect("emitting tick builds a header");
    assert_eq!(hdr1.bosses.len(), 1);
    assert_eq!(hdr1.bosses[0].uid, 900);
    assert_eq!(hdr1.bosses[0].current_hp, Some(0));
    let (_e2, dead2, _hdr2) = st.on_tick(now + 6_000);
    assert_eq!(dead2, vec![900]);
    let (_e3, dead3, hdr3) = st.on_tick(now + 7_000);
    assert!(dead3.is_empty());
    // Once promoted, the boss stays pinned to zero HP in every header.
    assert_eq!(hdr3.expect("emitting tick").bosses[0].current_hp, Some(0));
    // The next scene change commits the encounter.
    let fx = st.apply_event(StateEvent::EnterScene(enter_scene_with_id("1002")), now + 8_000);
    let commit = fx.commit.expect("committed on scene change");
    assert_eq!(commit.total_dmg, 1_000_000);
    assert!(!commit.is_manually_reset);
    assert_eq!(commit.boss_names, vec![String::from("Grand Warden")]);
    assert_eq!(commit.player_names, vec![String::from("Avar")]);
    assert_eq!(st.encounter.time_fight_start_ms, 0);
}

#[test]
fn scene_change_with_dungeon_segments_keeps_fight_start() {
    let mut st = fresh_state();
    st.apply_event(StateEvent::SyncDungeonData { objective_id: None, state: None }, 500);
    let mut enable = fresh_state();
    enable.dungeon_segments_enabled = true;
    let mut st = enable;
    st.apply_event(StateEvent::EnterScene(enter_scene_with_id("1001")), 1_000);
    st.apply_event(
        StateEvent::SyncToMeDeltaInfo(delta_packet(vec![damage_delta(
            1, 900, 42, 100_000, false, false,
        )])),
        2_000,
    );
    assert_eq!(st.encounter.time_fight_start_ms, 2_000);
    let fx = st.apply_event(StateEvent::EnterScene(enter_scene_with_id("1002")), 7_000);
    assert!(fx.scene_changed);
    assert!(fx.commit.is_none());
    assert_eq!(st.encounter.total_dmg, 0);
    assert_eq!(st.encounter.time_fight_start_ms, 2_000);
    assert_eq!(st.encounter.current_scene_id, Some(1002));
    assert_eq!(st.dungeon_log.segments.len(), 1);
    assert_eq!(st.dungeon_log.segments[0].segment_type, SegmentType::Trash);
}

#[test]
fn reset_encounter_clears_state_and_commits() {
    let mut st = fresh_state();
    st.apply_event(
        StateEvent::SyncToMeDeltaInfo(delta_packet(vec![damage_delta(
            1, 900, 42, 777, false, false,
        )])),
        5_000,
    );
    st.buffs.apply_event(
        BuffEvent::Add {
            buff_uuid: 9,
            base_id: 100,
            layer: 1,
            duration: 5_000,
            create_time: Some(4_000),
            source_config_id: 0,
        },
        5_000,
    );
    let fx = st.apply_event(StateEvent::ResetEncounter { is_manual: true }, 9_000);
    assert!(fx.emit_reset);
    let commit = fx.commit.expect("had combat, so a commit");
    assert_eq!(commit.total_dmg, 777);
    assert!(commit.is_manually_reset);
    assert_eq!(commit.started_at_ms, 5_000);
    assert_eq!(commit.ended_at_ms, 9_000);
    assert_eq!(st.encounter.total_dmg, 0);
    assert_eq!(st.encounter.time_fight_start_ms, 0);
    assert!(st.buffs.active_buffs.is_empty());
    assert!(st.skill_subscriptions.is_empty());
    // Entity identities survive.
    assert!(st.encounter.entity_uid_to_entity.iter().any(|e| e.entity_id == 1));
    // A reset without combat commits nothing.
    let fx = st.apply_event(StateEvent::ResetEncounter { is_manual: false }, 10_000);
    assert!(fx.commit.is_none());
}

#[test]
fn boss_death_heuristic_fires_once_after_dwell() {
    let mut b = BoundaryDetector::new();
    // 4% HP with high team damage: displayed dead at once, promoted after
    // five seconds of dwell.
    let o1 = b.observe_boss(900, true, true, 10_000);
    assert!(!o1.newly_dead);
    assert!(o1.display_dead);
    let o2 = b.observe_boss(900, true, true, 14_000);
    assert!(!o2.newly_dead);
    let o3 = b.observe_boss(900, true, true, 15_000);
    assert!(o3.newly_dead);
    let o4 = b.observe_boss(900, true, true, 16_000);
    assert!(!o4.newly_dead);
    assert!(o4.display_dead);
    // HP recovery clears the dwell timer.
    let mut b2 = BoundaryDetector::new();
    b2.observe_boss(7, true, false, 1_000);
    b2.observe_boss(7, false, false, 2_000);
    let o = b2.observe_boss(7, true, false, 7_000);
    assert!(!o.newly_dead);
}

#[test]
fn emission_throttle_respects_update_rate() {
    let mut t = EmitThrottle::new();
    assert!(t.on_tick(1_000, 200));
    assert!(!t.on_tick(1_100, 200));
    assert!(!t.on_tick(1_199, 200));
    assert!(t.on_tick(1_200, 200));
    assert!(t.on_tick(1_400, 200));
    // The rate is clamped into its accepted range.
    let mut t2 = EmitThrottle::new();
    assert!(t2.on_tick(1_000, 1));
    assert!(!t2.on_tick(1_010, 1));
    assert!(t2.on_tick(1_050, 1));
}

#[test]
fn cooldown_formula_exact_value() {
    let temps = TempAttrs::new();
    // 10 s base, 500 ms fixed reduction, 20% percentage reduction, 25%
    // acceleration: (10000 - 500) * 0.8 = 7600, then 7600 / 1.25 = 6080.
    let (ms, rate) = calculate_skill_cd(10_000, 150001, &temps, 500, 2_000, 2_500);
    assert_eq!(ms, 6_080);
    assert_eq!(rate, 2_500);
    // No attributes: the base comes back unchanged.
    let (ms0, rate0) = calculate_skill_cd(10_000, 150001, &temps, 0, 0, 0);
    assert_eq!(ms0, 10_000);
    assert_eq!(rate0, 0);
}

#[test]
fn cooldown_is_order_invariant_in_temp_updates() {
    let mut a = TempAttrs::new();
    a.set(150001, 250);
    a.set(1500, 1_000);
    a.set(150001, 300);
    let mut b = TempAttrs::new();
    b.set(1500, 1_000);
    b.set(150001, 300);
    let ra = calculate_skill_cd(8_000, 150001, &a, 0, 0, 0);
    let rb = calculate_skill_cd(8_000, 150001, &b, 0, 0, 0);
    assert_eq!(ra, rb);
}

#[test]
fn buff_tracker_add_change_remove() {
    let mut t = BuffTracker::new();
    t.apply_event(
        BuffEvent::Add {
            buff_uuid: 5,
            base_id: 77,
            layer: 1,
            duration: 3_000,
            create_time: Some(900),
            source_config_id: 0,
        },
        1_000,
    );
    assert_eq!(t.server_clock_offset, 100);
    t.apply_event(
        BuffEvent::Change { buff_uuid: 5, layer: Some(3), duration: None, create_time: None },
        1_100,
    );
    assert_eq!(t.active_buffs.len(), 1);
    assert_eq!(t.active_buffs[0].layer, 3);
    assert_eq!(t.active_buffs[0].duration, 3_000);
    // Changing an unknown uuid is ignored.
    t.apply_event(
        BuffEvent::Change { buff_uuid: 6, layer: Some(9), duration: None, create_time: None },
        1_200,
    );
    assert_eq!(t.active_buffs.len(), 1);
    t.apply_event(BuffEvent::Remove { buff_uuid: 5 }, 1_300);
    assert!(t.active_buffs.is_empty());
}

#[test]
fn buff_payload_is_filtered_and_ordered() {
    let mut t = BuffTracker::new();
    for (uuid, base) in [(1, 300), (2, 100), (3, 200)] {
        t.apply_event(
            BuffEvent::Add {
                buff_uuid: uuid,
                base_id: base,
                layer: 1,
                duration: 1_000,
                create_time: Some(500),
                source_config_id: 0,
            },
            1_000,
        );
    }
    let monitored = vec![100, 300];
    let priority = vec![300];
    let related = BuffRelations { entries: Vec::new() };
    let rows = t.build_buff_payload(&monitored, false, &priority, &related);
    assert_eq!(rows.len(), 2);
    // The prioritised base id comes first; the clock offset is applied.
    assert_eq!(rows[0].base_id, 300);
    assert_eq!(rows[1].base_id, 100);
    assert_eq!(rows[0].create_time_ms, 1_000);
    let all = t.build_buff_payload(&Vec::new(), true, &Vec::new(), &related);
    assert_eq!(all.len(), 3);
}

#[test]
fn battle_state_machine_detects_boundaries() {
    let mut st = fresh_state();
    st.apply_event(
        StateEvent::SyncDungeonData { objective_id: Some(11), state: Some(1) },
        1_000,
    );
    st.apply_event(
        StateEvent::SyncToMeDeltaInfo(delta_packet(vec![damage_delta(
            1, 900, 42, 100, false, false,
        )])),
        2_000,
    );
    // A new objective while combat has flowed resets and commits.
    let fx = st.apply_event(
        StateEvent::SyncDungeonData { objective_id: Some(12), state: Some(1) },
        3_000,
    );
    assert!(fx.emit_reset);
    assert!(fx.commit.is_some());
    // A terminal dungeon state does the same.
    st.apply_event(
        StateEvent::SyncToMeDeltaInfo(delta_packet(vec![damage_delta(
            1, 900, 42, 100, false, false,
        )])),
        4_000,
    );
    let fx = st.apply_event(
        StateEvent::SyncDungeonDirtyData { objective_id: None, state: Some(9) },
        5_000,
    );
    assert!(fx.emit_reset);
}

#[test]
fn dungeon_log_segments() {
    let mut log = DungeonLog::new();
    log.reset_for_scene(1_000, Some(1001), None);
    assert_eq!(log.segments.len(), 1);
    assert_eq!(log.segments[0].segment_type, SegmentType::Trash);
    log.on_boss_engage(5_000, Some(String::from("Grand Warden")), Some(1001), None);
    assert_eq!(log.segments.len(), 2);
    assert_eq!(log.segments[0].ended_at_ms, Some(5_000));
    assert_eq!(log.segments[1].segment_type, SegmentType::Boss);
    log.on_boss_death(9_000, Some(1001), None);
    assert_eq!(log.segments.len(), 3);
    // Thirty silent seconds time the segment out.
    let fired = log.check_timeout(40_000, 9_500, Some(1001), None);
    assert!(fired);
    assert_eq!(log.segments.len(), 4);
    let not_fired = log.check_timeout(41_000, 40_500, Some(1001), None);
    assert!(!not_fired);
}

#[test]
fn scene_id_extraction_phases() {
    let reg = registry_with(&[1001, 70000]);
    // A varint hit.
    let varint_blob = vec![0xE9u8, 0x07]; // 1001 as a varint
    assert_eq!(find_scene_id_in_bytes(&varint_blob, &reg), Some(1001));
    // A little-endian word hit (1001 = 0x3E9).
    let le_blob = vec![0xFFu8, 0xE9, 0x03, 0x00, 0x00];
    assert_eq!(find_scene_id_in_bytes(&le_blob, &reg), Some(1001));
    // An ASCII decimal run hit.
    let ascii_blob = b"xx1001yy".to_vec();
    assert_eq!(find_scene_id_in_bytes(&ascii_blob, &reg), Some(1001));
    // No registered number anywhere.
    let miss = vec![9u8, 9, 9];
    assert_eq!(find_scene_id_in_bytes(&miss, &reg), None);
    // Varint parsing reports its end offset.
    assert_eq!(parse_varint(&varint_blob, 0), Some((1001, 2)));
}

#[test]
fn persistence_round_trip_restores_totals() {
    let mut st = fresh_state();
    st.apply_event(StateEvent::EnterScene(enter_scene_with_id("1001")), 1_000);
    st.apply_event(
        StateEvent::SyncNearEntities(vec![boss_update(900, 1_000_000), player_update(1, 7, "Avar")]),
        1_100,
    );
    st.apply_event(
        StateEvent::SyncToMeDeltaInfo(delta_packet(vec![
            damage_delta(1, 900, 42, 1_000, true, false),
            damage_delta(1, 900, 43, 500, false, true),
        ])),
        2_000,
    );
    let fx = st.apply_event(StateEvent::ResetEncounter { is_manual: false }, 3_000);
    let commit = fx.commit.expect("combat flowed");
    let blob = build_encounter_blob(&commit.entities).expect("compresses");
    let restored = load_encounter_blob(&blob).expect("decompresses and decodes");
    let actors = load_actor_stats(&restored, commit.duration_ms, commit.local_player_id);
    assert_eq!(actors.len(), 1);
    assert_eq!(actors[0].actor_id, 1);
    assert_eq!(actors[0].damage_dealt, 1_500);
    assert_eq!(actors[0].hits_dealt, 2);
    assert_eq!(actors[0].crit_hits_dealt, 1);
    assert_eq!(actors[0].lucky_hits_dealt, 1);
    assert_eq!(actors[0].name, "Avar");
    // The blob really is compressed, not the raw pack.
    let raw: Vec<meter_core::codec::PersistedEntity> =
        commit.entities.iter().map(persist_entity).collect();
    let packed = meter_core::codec::encode_entities(&raw);
    assert_ne!(blob, packed);
    // The skill tables come back, sorted by total.
    let skills =
        meter_core::store::player_skills_from_persisted(&restored[0], MetricType::Dps);
    assert_eq!(skills.len(), 2);
    assert_eq!(skills[0].skill_id, 42);
    assert_eq!(skills[0].stats.total_value, 1_000);
    assert_eq!(skills[1].stats.total_value, 500);
}

#[test]
fn name_blob_round_trip_and_exact_json() {
    let names = vec![String::from("Avar"), String::from("Belet")];
    let json = names_to_json(&names).expect("serializes");
    assert_eq!(json, "[\"Avar\",\"Belet\"]");
    let back = names_from_json(&json).expect("parses");
    assert_eq!(back, names);
}

#[test]
fn encounter_listing_filters_and_paginates() {
    let row = |id: i32, started: i64, fav: bool, player: &str| StoredEncounterRow {
        id,
        started_at_ms: started,
        ended_at_ms: Some(started + 60_000),
        total_dmg: 10,
        total_heal: 5,
        scene_id: Some(1001),
        scene_name: Some(String::from("scene-1001")),
        duration_ms: 60_000,
        is_favorite: fav,
        boss_names: vec![String::from("Grand Warden")],
        player_names: vec![String::from(player)],
    };
    let rows = vec![
        row(1, 9_000, true, "Avar"),
        row(2, 8_000, false, "Belet"),
        row(3, 7_000, true, "Avarice"),
    ];
    let mut f = EncounterFilters {
        encounter_names: Vec::new(),
        boss_names: Vec::new(),
        player_names: Vec::new(),
        player_name: String::new(),
        only_favorites: false,
        date_from_ms: None,
        date_to_ms: None,
    };
    let (all, count) = list_encounters(&rows, &f, 0, 10);
    assert_eq!(count, 3);
    assert_eq!(all.len(), 3);
    f.only_favorites = true;
    let (favs, count) = list_encounters(&rows, &f, 0, 10);
    assert_eq!(count, 2);
    assert_eq!(favs[0].id, 1);
    // Substring search on player names.
    f.only_favorites = false;
    f.player_name = String::from("var");
    let (subs, count) = list_encounters(&rows, &f, 0, 10);
    assert_eq!(count, 2);
    assert_eq!(subs.len(), 2);
    // Pagination skips matches.
    let (page, count) = list_encounters(&rows, &f, 1, 10);
    assert_eq!(count, 2);
    assert_eq!(page.len(), 1);
    assert_eq!(page[0].id, 3);
    // The per-row predicate is usable on its own.
    f.player_name = String::from("zzz");
    assert!(!encounter_row_matches(&rows[0], &f));
    assert!(bytes_contains(b"Avarice", b"var"));
    assert!(!bytes_contains(b"Avarice", b"warden"));
}

#[test]
fn per_target_stats_group_by_target() {
    let mut enc = Encounter::new();
    enc.apply_combat_delta(damage_delta(1, 900, 42, 100, false, false), 1_000);
    enc.apply_combat_delta(damage_delta(1, 900, 43, 200, false, false), 1_100);
    enc.apply_combat_delta(damage_delta(1, 901, 42, 50, false, false), 1_200);
    let e = enc
        .entity_uid_to_entity
        .iter()
        .find(|e| e.entity_id == 1)
        .expect("owner exists");
    let grouped = build_per_target_stats(&e.skill_dmg_to_target);
    assert_eq!(grouped.len(), 2);
    let t900 = grouped.iter().find(|g| g.target_uid == 900).unwrap();
    assert_eq!(t900.total_value, 300);
    assert_eq!(t900.damage.total, 300);
    let t901 = grouped.iter().find(|g| g.target_uid == 901).unwrap();
    assert_eq!(t901.total_value, 50);
}

#[test]
fn players_window_is_sorted_and_raw_stats_copy() {
    let mut enc = Encounter::new();
    enc.apply_combat_delta(damage_delta(1, 900, 42, 100, false, false), 1_000);
    enc.apply_combat_delta(damage_delta(2, 900, 7, 900, false, false), 1_100);
    let w = enc.generate_players_window(MetricType::Dps);
    assert_eq!(w.player_rows.len(), 2);
    assert_eq!(w.player_rows[0].uid, 2);
    assert_eq!(w.player_rows[0].stats.total, 900);
    assert_eq!(w.player_rows[1].uid, 1);
    let e = enc
        .entity_uid_to_entity
        .iter()
        .find(|e| e.entity_id == 1)
        .expect("owner exists");
    let raw = to_raw_combat_stats(&e.damage);
    assert_eq!(raw.total, 100);
    assert_eq!(raw.hits, 1);
}

#[test]
fn skill_cd_entries_are_tracked_for_monitored_skills() {
    let mut st = fresh_state();
    st.monitored_skill_ids = vec![1500];
    let pkt = DeltaPacket {
        deltas: Vec::new(),
        skill_cds: vec![SkillCdPacket {
            skill_level_id: 150001,
            begin_time: 123,
            duration: 10_000,
            skill_cd_type: 0,
            valid_cd_time: 10_000,
        }],
        attr_skill_cd: Some(500),
        attr_skill_cd_pct: Some(2_000),
        attr_cd_accelerate_pct: Some(2_500),
        temp_attrs: Vec::new(),
        buff_events: Vec::new(),
    };
    st.apply_event(StateEvent::SyncToMeDeltaInfo(pkt), 1_000);
    assert_eq!(st.skill_cd_map.len(), 1);
    assert_eq!(st.skill_cd_map[0].skill_level_id, 150001);
    assert_eq!(st.skill_cd_map[0].calculated_duration, 6_080);
    assert_eq!(st.skill_cd_map[0].cd_accelerate_rate, 2_500);
}

#[test]
fn revive_restores_hp_attributes() {
    let mut st = fresh_state();
    st.apply_event(
        StateEvent::SyncNearEntities(vec![player_update(1, 7, "Avar")]),
        1_000,
    );
    st.apply_event(
        StateEvent::NotifyReviveUser { entity_id: 1, current_hp: 5_000, max_hp: 9_000 },
        2_000,
    );
    let e = st
        .encounter
        .entity_uid_to_entity
        .iter()
        .find(|e| e.entity_id == 1)
        .expect("player exists");
    assert_eq!(e.attr_int(ATTR_CUR_HP), Some(5_000));
    assert_eq!(e.attr_int(ATTR_MAX_HP), Some(9_000));
}

#[test]
fn server_change_reinitializes_battle_state() {
    let mut st = fresh_state();
    st.apply_event(
        StateEvent::SyncDungeonData { objective_id: Some(4), state: Some(2) },
        1_000,
    );
    st.apply_event(
        StateEvent::SyncToMeDeltaInfo(delta_packet(vec![damage_delta(
            1, 900, 42, 42, false, false,
        )])),
        2_000,
    );
    let fx = st.apply_event(StateEvent::ServerChange, 3_000);
    assert!(fx.emit_reset);
    assert!(fx.commit.is_some());
    assert_eq!(st.encounter.total_dmg, 0);
    assert!(st.battle_state.current_objective.is_none());
    assert!(st.battle_state.dungeon_state.is_none());
}

#[test]
fn boss_death_events_once_per_boss_across_encounter() {
    let mut st = fresh_state();
    st.apply_event(
        StateEvent::SyncNearEntities(vec![boss_update(900, 1_000)]),
        1_000,
    );
    st.apply_event(
        StateEvent::SyncToMeDeltaInfo(delta_packet(vec![damage_delta(
            1, 900, 42, 1_000, false, false,
        )])),
        1_500,
    );
    st.apply_event(
        StateEvent::SyncNearEntities(vec![EntityUpdate {
            entity_id: 900,
            entity_type: None,
            is_boss_flag: None,
            name: None,
            monster_name: None,
            class_id: None,
            class_spec: None,
            ability_score: None,
            attrs: vec![AttrEntry { id: ATTR_CUR_HP, value: AttrValue::Int(0) }],
        }]),
        1_600,
    );
    let (_f, d1, _h) = st.on_tick(2_000);
    assert!(d1.is_empty());
    let (_f, d2, _h) = st.on_tick(8_000);
    assert_eq!(d2, vec![900]);
    for now in [9_000u64, 10_000, 20_000] {
        let (_f, d, h) = st.on_tick(now);
        assert!(d.is_empty());
        // The promoted boss stays pinned in every subsequent header.
        assert_eq!(h.expect("emitting tick").bosses[0].current_hp, Some(0));
    }
}

#[test]
fn entity_updates_do_not_change_totals() {
    let mut st = fresh_state();
    let fx = st.apply_event(
        StateEvent::SyncToMeDeltaInfo(delta_packet(vec![damage_delta(
            1, 900, 42, 100, false, false,
        )])),
        1_000,
    );
    assert!(fx.commit.is_none());
    st.apply_event(StateEvent::SyncContainerData(player_update(1, 7, "Avar")), 1_100);
    assert_eq!(st.encounter.total_dmg, 100);
    assert_eq!(st.encounter.local_player_uid, 1);
    let e = st
        .encounter
        .entity_uid_to_entity
        .iter()
        .find(|e| e.entity_id == 1)
        .expect("player exists");
    assert_eq!(e.name, "Avar");
    assert_eq!(e.damage.total, 100);
    // The classification was already set by combat; a later update cannot
    // flip a combat-bearing entity out of the character totals.
    assert_eq!(e.entity_type, EntityType::Character);
}

#[test]
fn heal_window_rows_zero_damage_only_fields() {
    let mut enc = Encounter::new();
    enc.apply_combat_delta(damage_delta(1, 900, 42, 400, false, false), 1_000);
    enc.apply_combat_delta(damage_delta(1, 900, 42, 400, false, false), 2_000);
    let mut heal = damage_delta(1, 2, 9, 250, false, false);
    heal.kind = DeltaKind::Heal;
    enc.apply_combat_delta(heal, 3_000);
    let w = enc.generate_players_window(MetricType::Heal);
    assert_eq!(w.player_rows.len(), 1);
    assert_eq!(w.player_rows[0].stats.total, 250);
    // Active damage time and boss damage belong to the damage window only.
    assert_eq!(w.player_rows[0].active_dmg_time_ms, 0);
    assert_eq!(w.player_rows[0].boss_dmg, 0);
    let d = enc.generate_players_window(MetricType::Dps);
    assert_eq!(d.player_rows[0].active_dmg_time_ms, 1_000);
}

#[test]
fn buff_clock_offset_is_captured_once_per_session() {
    let mut t = BuffTracker::new();
    t.apply_event(
        BuffEvent::Add {
            buff_uuid: 1,
            base_id: 10,
            layer: 1,
            duration: 1_000,
            create_time: Some(900),
            source_config_id: 0,
        },
        1_000,
    );
    assert_eq!(t.server_clock_offset, 100);
    // A later add with another skew does not move the captured offset.
    t.apply_event(
        BuffEvent::Add {
            buff_uuid: 2,
            base_id: 11,
            layer: 1,
            duration: 1_000,
            create_time: Some(500),
            source_config_id: 0,
        },
        2_000,
    );
    assert_eq!(t.server_clock_offset, 100);
}

#[test]
fn dungeon_segments_follow_boss_engage_and_death() {
    let mut st = fresh_state();
    st.dungeon_segments_enabled = true;
    st.apply_event(StateEvent::EnterScene(enter_scene_with_id("1001")), 1_000);
    assert_eq!(st.dungeon_log.segments.len(), 1);
    assert_eq!(st.dungeon_log.segments[0].segment_type, SegmentType::Trash);
    st.apply_event(
        StateEvent::SyncNearEntities(vec![boss_update(900, 1_000)]),
        1_100,
    );
    st.apply_event(
        StateEvent::SyncToMeDeltaInfo(delta_packet(vec![damage_delta(
            1, 900, 42, 1_000, false, false,
        )])),
        1_500,
    );
    // The first emitting tick with a tracked boss and combat opens the
    // boss segment.
    st.on_tick(2_000);
    assert_eq!(st.dungeon_log.segments.len(), 2);
    assert_eq!(st.dungeon_log.segments[1].segment_type, SegmentType::Boss);
    assert_eq!(
        st.dungeon_log.segments[1].boss_name,
        Some(String::from("Grand Warden"))
    );
    // Drop the boss to zero and let the dwell elapse: the death closes the
    // boss segment and opens a trash segment.
    st.apply_event(
        StateEvent::SyncNearEntities(vec![EntityUpdate {
            entity_id: 900,
            entity_type: None,
            is_boss_flag: None,
            name: None,
            monster_name: None,
            class_id: None,
            class_spec: None,
            ability_score: None,
            attrs: vec![AttrEntry { id: ATTR_CUR_HP, value: AttrValue::Int(0) }],
        }]),
        2_100,
    );
    st.on_tick(2_500);
    let (_e, dead, _h) = st.on_tick(8_000);
    assert_eq!(dead, vec![900]);
    let last = st.dungeon_log.segments.last().expect("segments exist");
    assert_eq!(last.segment_type, SegmentType::Trash);
    assert!(last.ended_at_ms.is_none());
}

#[test]
fn listing_page_is_the_exact_slice() {
    let row = |id: i32, started: i64| StoredEncounterRow {
        id,
        started_at_ms: started,
        ended_at_ms: Some(started + 1),
        total_dmg: 1,
        total_heal: 0,
        scene_id: None,
        scene_name: None,
        duration_ms: 1,
        is_favorite: false,
        boss_names: Vec::new(),
        player_names: Vec::new(),
    };
    let rows = vec![row(1, 50), row(2, 40), row(3, 30), row(4, 20), row(5, 10)];
    let f = EncounterFilters {
        encounter_names: Vec::new(),
        boss_names: Vec::new(),
        player_names: Vec::new(),
        player_name: String::new(),
        only_favorites: false,
        date_from_ms: None,
        date_to_ms: None,
    };
    let (page, count) = list_encounters(&rows, &f, 1, 2);
    assert_eq!(count, 5);
    assert_eq!(page.len(), 2);
    assert_eq!(page[0].id, 2);
    assert_eq!(page[1].id, 3);
    let (tail, _) = list_encounters(&rows, &f, 4, 2);
    assert_eq!(tail.len(), 1);
    assert_eq!(tail[0].id, 5);
    let (beyond, _) = list_encounters(&rows, &f, 9, 2);
    assert!(beyond.is_empty());
}

#[test]
fn players_window_is_empty_without_scope_data() {
    let mut enc = Encounter::new();
    // A zero-value hit creates a skill row but no scope damage: the
    // window stays empty.
    enc.apply_combat_delta(damage_delta(1, 900, 42, 0, false, false), 1_000);
    let d = enc.generate_players_window(MetricType::Dps);
    assert!(d.player_rows.is_empty());
    let h = enc.generate_players_window(MetricType::Heal);
    assert!(h.player_rows.is_empty());
    let t = enc.generate_players_window(MetricType::Tanked);
    assert!(t.player_rows.is_empty());
    // The first real damage fills the damage window only.
    enc.apply_combat_delta(damage_delta(1, 900, 42, 500, false, false), 2_000);
    assert_eq!(enc.generate_players_window(MetricType::Dps).player_rows.len(), 1);
    assert!(enc.generate_players_window(MetricType::Heal).player_rows.is_empty());
    assert!(enc.generate_players_window(MetricType::Tanked).player_rows.is_empty());
}

#[test]
fn commit_player_names_are_sorted() {
    let mut st = fresh_state();
    st.apply_event(
        StateEvent::SyncNearEntities(vec![
            player_update(1, 7, "Zef"),
            player_update(2, 3, "Avar"),
            player_update(3, 4, "Mira"),
        ]),
        1_000,
    );
    st.apply_event(
        StateEvent::SyncToMeDeltaInfo(delta_packet(vec![
            damage_delta(1, 900, 42, 100, false, false),
            damage_delta(2, 900, 42, 100, false, false),
            damage_delta(3, 900, 42, 100, false, false),
        ])),
        1_500,
    );
    let fx = st.apply_event(StateEvent::ResetEncounter { is_manual: true }, 2_000);
    let commit = fx.commit.expect("combat flowed, so the reset commits");
    assert_eq!(
        commit.player_names,
        vec![String::from("Avar"), String::from("Mira"), String::from("Zef")]
    );
}

#[test]
fn cooldown_temp_percent_is_multiplicative() {
    // The attribute takes 10% off, the per-skill temporary percentage a
    // further 20%: 10000 * 0.9 = 9000, then 9000 * 0.8 = 7200.
    let mut temps = TempAttrs::new();
    temps.set(1500, 2_000);
    let (ms, rate) = calculate_skill_cd(10_000, 150001, &temps, 0, 1_000, 0);
    assert_eq!(ms, 7_200);
    assert_eq!(rate, 0);
    // The per-skill fixed modifier still adds to the fixed reduction.
    let mut fixed = TempAttrs::new();
    fixed.set(150001, 400);
    let (ms2, _) = calculate_skill_cd(10_000, 150001, &fixed, 600, 0, 0);
    assert_eq!(ms2, 9_000);
}

#[test]
fn guid_digit_runs_are_scanned_separately() {
    let reg = registry_with(&[1001, 1002]);
    // The concatenated digits 991001 name no scene; the second run does.
    assert_eq!(parse_guid_scene_id(&b"99-1001".to_vec(), &reg), Some(1001));
    // The first registered run wins.
    assert_eq!(parse_guid_scene_id(&b"1002-1001".to_vec(), &reg), Some(1002));
    // No run is registered.
    assert_eq!(parse_guid_scene_id(&b"77-88".to_vec(), &reg), None);
    assert_eq!(parse_guid_scene_id(&b"no digits".to_vec(), &reg), None);
}

#[test]
fn unknown_scene_keeps_guid_display_name() {
    let mut st = fresh_state();
    let pkt = ScenePacket { scene_guid: Some(b"mystery-zone".to_vec()), attr_blobs: Vec::new() };
    let fx = st.apply_event(StateEvent::EnterScene(pkt), 1_000);
    assert!(fx.scene_changed);
    assert_eq!(st.encounter.current_scene_id, None);
    assert_eq!(st.encounter.current_scene_name, Some(String::from("mystery-zone")));
}

#[test]
fn full_party_wipe_resets_encounter() {
    let mut st = fresh_state();
    st.apply_event(
        StateEvent::SyncToMeDeltaInfo(delta_packet(vec![damage_delta(
            1, 900, 42, 1_000, false, false,
        )])),
        1_000,
    );
    // A partial down does nothing.
    let fx0 = st.check_wipe_reset(3, 4, true, 2_000);
    assert!(!fx0.emit_reset);
    assert!(st.encounter.time_fight_start_ms > 0);
    // Every character downed with recent combat commits and resets.
    let fx = st.check_wipe_reset(4, 4, true, 3_000);
    assert!(fx.emit_reset);
    let commit = fx.commit.expect("the wipe commits the encounter");
    assert_eq!(commit.total_dmg, 1_000);
    assert_eq!(st.encounter.time_fight_start_ms, 0);
}

#[test]
fn monitored_skill_cap_and_pruning() {
    let mut st = fresh_state();
    st.monitored_skill_ids = vec![1500];
    let pkt = DeltaPacket {
        deltas: Vec::new(),
        skill_cds: vec![SkillCdPacket {
            skill_level_id: 150001,
            begin_time: 123,
            duration: 10_000,
            skill_cd_type: 0,
            valid_cd_time: 10_000,
        }],
        attr_skill_cd: None,
        attr_skill_cd_pct: None,
        attr_cd_accelerate_pct: None,
        temp_attrs: Vec::new(),
        buff_events: Vec::new(),
    };
    st.apply_event(StateEvent::SyncToMeDeltaInfo(pkt), 1_000);
    assert_eq!(st.skill_cd_map.len(), 1);
    // More than ten ids are rejected and nothing changes.
    let too_many: Vec<i32> = (1..=11).collect();
    assert!(!st.set_monitored_skills(too_many));
    assert_eq!(st.monitored_skill_ids, vec![1500]);
    assert_eq!(st.skill_cd_map.len(), 1);
    // A changed set prunes the entries of no-longer-monitored skills.
    assert!(st.set_monitored_skills(vec![9_999]));
    assert_eq!(st.monitored_skill_ids, vec![9_999]);
    assert!(st.skill_cd_map.is_empty());
}

#[test]
fn merge_buff_ids_keeps_first_occurrences() {
    let merged = merge_buff_ids(&vec![3, 1, 3], &vec![2, 1, 4]);
    assert_eq!(merged, vec![3, 1, 2, 4]);
    let user_only = merge_buff_ids(&vec![5, 6], &Vec::new());
    assert_eq!(user_only, vec![5, 6]);
}

#[test]
fn active_profile_index_is_clamped() {
    assert_eq!(resolve_active_profile(0, 5), None);
    assert_eq!(resolve_active_profile(3, 1), Some(1));
    assert_eq!(resolve_active_profile(3, 7), Some(2));
}

#[test]
fn freshest_cooldown_entry_is_selected_per_skill() {
    let mk = |level: i32, received: u64| SkillCdState {
        skill_level_id: level,
        begin_time: 0,
        duration: 1_000,
        skill_cd_type: 0,
        valid_cd_time: 1_000,
        received_at: received,
        calculated_duration: 1_000,
        cd_accelerate_rate: 0,
    };
    let cds = vec![mk(150001, 100), mk(150002, 300), mk(150001, 200), mk(990001, 50)];
    let out = select_monitored_cds(&vec![1500, 7777], &cds);
    // One row for the monitored skill: its freshest entry; the skill
    // without entries contributes none.
    assert_eq!(out.len(), 1);
    assert_eq!(out[0].skill_level_id, 150002);
    assert_eq!(out[0].received_at, 300);
}

#[test]
fn display_names_are_prettified() {
    assert_eq!(prettify_name(1, 1, &String::from("Avar"), None), "Avar (You)");
    assert_eq!(prettify_name(1, 1, &String::new(), None), "You");
    assert_eq!(prettify_name(2, 1, &String::new(), None), "#2");
    assert_eq!(prettify_name(-7, 1, &String::new(), None), "#-7");
    assert_eq!(prettify_name(2, 1, &String::new(), Some(&String::from("Mira"))), "Mira");
    assert_eq!(prettify_name(2, 1, &String::from("Zef"), Some(&String::from("Old"))), "Zef");
}

#[test]
fn unique_names_keep_first_occurrences_and_skip_empties() {
    let lists = vec![
        vec![String::from("Warden"), String::new(), String::from("Hydra")],
        vec![String::from("Warden"), String::from("Drake")],
    ];
    let names = unique_names(&lists);
    assert_eq!(
        names,
        vec![String::from("Warden"), String::from("Hydra"), String::from("Drake")]
    );
}

#[test]
fn per_target_skill_breakdown_is_extracted() {
    let mut enc = Encounter::new();
    enc.apply_combat_delta(damage_delta(1, 900, 42, 100, false, false), 1_000);
    enc.apply_combat_delta(damage_delta(1, 900, 43, 200, true, false), 1_100);
    enc.apply_combat_delta(damage_delta(1, 901, 42, 50, false, false), 1_200);
    let e = enc
        .entity_uid_to_entity
        .iter()
        .find(|e| e.entity_id == 1)
        .expect("owner exists");
    let rows = target_skill_rows(&e.skill_dmg_to_target, 900);
    assert_eq!(rows.len(), 2);
    assert_eq!(rows[0].skill_id, 42);
    assert_eq!(rows[0].stats.total_value, 100);
    assert_eq!(rows[1].skill_id, 43);
    assert_eq!(rows[1].stats.total_value, 200);
    assert_eq!(rows[1].stats.crit_hits, 1);
    let other = target_skill_rows(&e.skill_dmg_to_target, 901);
    assert_eq!(other.len(), 1);
    assert_eq!(other[0].stats.total_value, 50);
}
