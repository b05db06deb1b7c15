//! The persistence surface: building the compressed encounter-detail blob
//! and reading it back, the per-actor statistics derived from a stored
//! encounter, the name-array blobs of the header row, and the filtered
//! encounter listing.

use vstd::prelude::*;
use vstd::seq_lib::group_to_multiset_ensures;

use crate::codec::{
    PeView, PersistedEntity, decode_entities, encode_entities, spec_enc_pes, spec_pes_views,
};
use crate::entity::{Entity, EntityType, clone_skills};
use crate::models::MetricType;
use crate::snapshot::{SkillRow, sort_skill_rows_desc, spec_skill_rows_sorted_desc};
use crate::stats::CombatStats;
use crate::tables::find_skill;

verus! {

broadcast use group_to_multiset_ensures;

/// The compression level the detail blob is written with.
pub const BLOB_COMPRESSION_LEVEL: i32 = 3;

/// The zstd frame the stream compressor produces for a byte sequence at
/// the blob compression level. The result depends on the input alone.
pub uninterp spec fn zstd_frame_of(data: Seq<u8>) -> Seq<u8>;

/// Compress a byte buffer into a zstd frame.
///
/// Relies on `zstd::stream::encode_all`: it compresses the whole input
/// into one zstd frame, deterministically for a fixed level, and — since
/// both ends are in-memory buffers and the level is valid — it does not
/// fail.
#[verifier::external_body]
fn zstd_compress(data: &Vec<u8>) -> (r: Option<Vec<u8>>)
    ensures
        r is Some,
        r->Some_0@ == zstd_frame_of(data@),
{
    match zstd::encode_all(&data[..], BLOB_COMPRESSION_LEVEL) {
        Ok(v) => Some(v),
        Err(_) => None,
    }
}

/// Decompress a zstd frame back into the original bytes.
///
/// Relies on `zstd::stream::decode_all`: its input must be in the zstd
/// frame format, and a frame `encode_all` produced is exactly that, so
/// decompressing it succeeds and yields the bytes that were compressed
/// (zstd is lossless).
#[verifier::external_body]
fn zstd_decompress(data: &Vec<u8>) -> (r: Option<Vec<u8>>)
    ensures
        forall|s: Seq<u8>|
            data@ == zstd_frame_of(s) ==> r is Some && (#[trigger] r->Some_0@) == s,
{
    match zstd::decode_all(&data[..]) {
        Ok(v) => Some(v),
        Err(_) => None,
    }
}

/// The persisted content of a live entity record.
pub open spec fn spec_pe_of_entity(e: Entity) -> PeView {
    PeView {
        entity_id: e.entity_id,
        is_character: e.entity_type == EntityType::Character,
        is_boss: e.spec_is_boss(),
        name: e.name@,
        class_id: e.class_id,
        class_spec: e.class_spec,
        ability_score: e.ability_score,
        damage: e.damage,
        healing: e.healing,
        taken: e.taken,
        damage_boss_only: e.damage_boss_only,
        active_dmg_time_ms: e.active_dmg_time_ms,
        dmg_skills: e.skill_uid_to_dmg_skill@,
        heal_skills: e.skill_uid_to_heal_skill@,
        taken_skills: e.skill_uid_to_taken_skill@,
    }
}

/// The persisted content of a list of live records.
pub open spec fn spec_persist_views(s: Seq<Entity>) -> Seq<PeView> {
    s.map_values(|e: Entity| spec_pe_of_entity(e))
}

/// Convert one live entity record into its persisted form.
pub fn persist_entity(e: &Entity) -> (r: PersistedEntity)
    ensures
        r.view_pe() == spec_pe_of_entity(*e),
{
    PersistedEntity {
        entity_id: e.entity_id,
        is_character: e.entity_type == EntityType::Character,
        is_boss: e.is_boss(),
        name: e.name.clone(),
        class_id: e.class_id,
        class_spec: e.class_spec,
        ability_score: e.ability_score,
        damage: e.damage,
        healing: e.healing,
        taken: e.taken,
        damage_boss_only: e.damage_boss_only,
        active_dmg_time_ms: e.active_dmg_time_ms,
        dmg_skills: clone_skills(&e.skill_uid_to_dmg_skill),
        heal_skills: clone_skills(&e.skill_uid_to_heal_skill),
        taken_skills: clone_skills(&e.skill_uid_to_taken_skill),
    }
}

/// Build the compressed encounter-detail blob for the committed entities:
/// the binary pack of their persisted content, stream-compressed.
pub fn build_encounter_blob(entities: &Vec<Entity>) -> (r: Option<Vec<u8>>)
    ensures
        r is Some,
        r->Some_0@ == zstd_frame_of(spec_enc_pes(spec_persist_views(entities@))),
{
    let mut persisted: Vec<PersistedEntity> = Vec::new();
    let n: usize = entities.len();
    let mut i: usize = 0;
    while i < n
        invariant
            n == entities@.len(),
            0 <= i <= n,
            persisted@.len() == i,
            forall|j: int|
                0 <= j < i ==> (#[trigger] persisted@[j]).view_pe() == spec_pe_of_entity(
                    entities@[j],
                ),
        decreases n - i,
    {
        let p = persist_entity(&entities[i]);
        persisted.push(p);
        i = i + 1;
    }
    let packed = encode_entities(&persisted);
    proof {
        assert(spec_pes_views(persisted@) =~= spec_persist_views(entities@));
    }
    zstd_compress(&packed)
}

/// Read a detail blob back. The round trip is total: a blob
/// [`build_encounter_blob`] produced decodes successfully and carries
/// exactly the content that was committed.
pub fn load_encounter_blob(blob: &Vec<u8>) -> (r: Option<Vec<PersistedEntity>>)
    ensures
        forall|vs: Seq<PeView>|
            blob@ == zstd_frame_of(spec_enc_pes(vs)) ==> r is Some && spec_pes_views(
                #[trigger] r->Some_0@,
            ) == vs,
{
    let packed = match zstd_decompress(blob) {
        Some(p) => p,
        None => {
            return None;
        },
    };
    let r = decode_entities(&packed);
    proof {
        assert forall|vs: Seq<PeView>|
            blob@ == zstd_frame_of(spec_enc_pes(vs)) implies r is Some && spec_pes_views(
            r->Some_0@,
        ) == vs by {
            assert(packed@ == spec_enc_pes(vs));
        }
    }
    r
}

/// Per-actor statistics reconstructed from a stored encounter.
#[derive(Debug, Clone, PartialEq, Eq)]
pub struct ActorStats {
    /// The actor's entity id.
    pub actor_id: i64,
    /// The actor's stored name; empty when none was known.
    pub name: String,
    /// The class id.
    pub class_id: i32,
    /// The ability score.
    pub ability_score: i32,
    /// Total damage dealt, saturated to a signed column.
    pub damage_dealt: i64,
    /// Total healing dealt, saturated.
    pub heal_dealt: i64,
    /// Total damage taken, saturated.
    pub damage_taken: i64,
    /// Hit counts of the three categories, saturated.
    pub hits_dealt: i64,
    /// Healing hit count, saturated.
    pub hits_heal: i64,
    /// Taken hit count, saturated.
    pub hits_taken: i64,
    /// Critical hits dealt, saturated.
    pub crit_hits_dealt: i64,
    /// Lucky hits dealt, saturated.
    pub lucky_hits_dealt: i64,
    /// Boss-only damage dealt, saturated.
    pub boss_damage_dealt: i64,
    /// Accumulated active damage time, in milliseconds.
    pub active_dmg_time_ms: u64,
    /// The encounter duration in milliseconds the rates refer to.
    pub duration_ms: u64,
    /// Whether this actor was the local player.
    pub is_local_player: bool,
}

/// Whether a persisted record took part in combat.
pub open spec fn spec_pe_has_combat(e: PeView) -> bool {
    e.damage.hits > 0 || e.healing.hits > 0 || e.taken.hits > 0
}

/// The clauses of an actor row that mirror its record.
pub open spec fn spec_actor_row_matches(
    r: ActorStats,
    e: PeView,
    duration_ms: u64,
    local_player_id: i64,
) -> bool {
    &&& r.actor_id == e.entity_id
    &&& r.name@ == e.name
    &&& r.class_id == e.class_id
    &&& r.ability_score == e.ability_score
    &&& r.damage_dealt == crate::aggregator::spec_sat_col(e.damage.total)
    &&& r.heal_dealt == crate::aggregator::spec_sat_col(e.healing.total)
    &&& r.damage_taken == crate::aggregator::spec_sat_col(e.taken.total)
    &&& r.hits_dealt == crate::aggregator::spec_sat_col(e.damage.hits)
    &&& r.hits_heal == crate::aggregator::spec_sat_col(e.healing.hits)
    &&& r.hits_taken == crate::aggregator::spec_sat_col(e.taken.hits)
    &&& r.crit_hits_dealt == crate::aggregator::spec_sat_col(e.damage.crit_hits)
    &&& r.lucky_hits_dealt == crate::aggregator::spec_sat_col(e.damage.lucky_hits)
    &&& r.boss_damage_dealt == crate::aggregator::spec_sat_col(e.damage_boss_only.total)
    &&& r.active_dmg_time_ms == e.active_dmg_time_ms
    &&& r.duration_ms == duration_ms
    &&& r.is_local_player == (e.entity_id == local_player_id)
}

/// Build the actor row of one persisted record.
fn actor_row_of(e: &PersistedEntity, duration_ms: u64, local_player_id: i64) -> (r: ActorStats)
    ensures
        spec_actor_row_matches(r, e.view_pe(), duration_ms, local_player_id),
{
    ActorStats {
        actor_id: e.entity_id,
        name: e.name.clone(),
        class_id: e.class_id,
        ability_score: e.ability_score,
        damage_dealt: crate::aggregator::sat_col(e.damage.total),
        heal_dealt: crate::aggregator::sat_col(e.healing.total),
        damage_taken: crate::aggregator::sat_col(e.taken.total),
        hits_dealt: crate::aggregator::sat_col(e.damage.hits),
        hits_heal: crate::aggregator::sat_col(e.healing.hits),
        hits_taken: crate::aggregator::sat_col(e.taken.hits),
        crit_hits_dealt: crate::aggregator::sat_col(e.damage.crit_hits),
        lucky_hits_dealt: crate::aggregator::sat_col(e.damage.lucky_hits),
        boss_damage_dealt: crate::aggregator::sat_col(e.damage_boss_only.total),
        active_dmg_time_ms: e.active_dmg_time_ms,
        duration_ms,
        is_local_player: e.entity_id == local_player_id,
    }
}

/// Derive the per-actor statistics of a stored encounter: one row per
/// character record with combat activity, each mirroring its record's
/// counters saturated into signed columns, sorted by damage descending.
#[verifier::rlimit(100)]
#[verifier::spinoff_prover]
pub fn load_actor_stats(
    entities: &Vec<PersistedEntity>,
    duration_ms: u64,
    local_player_id: i64,
) -> (r: Vec<ActorStats>)
    requires
        forall|a: int, b: int|
            0 <= a < b < entities@.len() ==> entities@[a].entity_id != entities@[b].entity_id,
    ensures
        forall|k: int, l: int|
            0 <= k <= l < r@.len() ==> r@[k].damage_dealt >= r@[l].damage_dealt,
        forall|k: int|
            0 <= k < r@.len() ==> {
                let found = find_pe(entities@, (#[trigger] r@[k]).actor_id);
                &&& found is Some
                &&& found->Some_0.view_pe().is_character
                &&& spec_pe_has_combat(found->Some_0.view_pe())
                &&& spec_actor_row_matches(
                    r@[k],
                    found->Some_0.view_pe(),
                    duration_ms,
                    local_player_id,
                )
            },
        forall|j: int|
            0 <= j < entities@.len() && (#[trigger] entities@[j]).view_pe().is_character
                && spec_pe_has_combat(entities@[j].view_pe()) ==> find_actor(
                r@,
                entities@[j].entity_id,
            ) is Some,
{
    let mut rows: Vec<ActorStats> = Vec::new();
    let n: usize = entities.len();
    let mut i: usize = 0;
    while i < n
        invariant
            n == entities@.len(),
            0 <= i <= n,
            forall|a: int, b: int|
                0 <= a < b < entities@.len() ==> entities@[a].entity_id != entities@[b].entity_id,
            forall|k: int|
                0 <= k < rows@.len() ==> {
                    let found = find_pe(entities@, (#[trigger] rows@[k]).actor_id);
                    &&& found is Some
                    &&& found->Some_0.view_pe().is_character
                    &&& spec_pe_has_combat(found->Some_0.view_pe())
                    &&& spec_actor_row_matches(
                        rows@[k],
                        found->Some_0.view_pe(),
                        duration_ms,
                        local_player_id,
                    )
                },
            forall|j: int|
                0 <= j < i && (#[trigger] entities@[j]).view_pe().is_character
                    && spec_pe_has_combat(entities@[j].view_pe()) ==> find_actor(
                    rows@,
                    entities@[j].entity_id,
                ) is Some,
        decreases n - i,
    {
        let e = &entities[i];
        let ghost rows0 = rows@;
        let has_combat = e.damage.hits > 0 || e.healing.hits > 0 || e.taken.hits > 0;
        if e.is_character && has_combat {
            let row = actor_row_of(e, duration_ms, local_player_id);
            rows.push(row);
            proof {
                assert(forall|k: int| 0 <= k < rows0.len() ==> rows@[k] == rows0[k]);
                lemma_find_pe_at(entities@, i as int);
                assert(rows@[rows0.len() as int].actor_id == entities@[i as int].entity_id);
                assert(spec_actor_row_matches(
                    rows@[rows0.len() as int],
                    entities@[i as int].view_pe(),
                    duration_ms,
                    local_player_id,
                ));
                assert forall|j: int|
                    0 <= j < i + 1 && (#[trigger] entities@[j]).view_pe().is_character
                        && spec_pe_has_combat(entities@[j].view_pe()) implies find_actor(
                    rows@,
                    entities@[j].entity_id,
                ) is Some by {
                    if j < i {
                        let prev = find_actor(rows0, entities@[j].entity_id);
                        lemma_find_actor_prefix(rows0, rows@, entities@[j].entity_id);
                    } else {
                        lemma_find_actor_present(rows@, rows0.len() as int);
                    }
                }
            }
        }
        i = i + 1;
    }
    let ghost unsorted = rows@;
    let sorted = sort_actor_rows_desc(rows);
    proof {
        assert forall|k: int|
            0 <= k < sorted@.len() implies {
            let found = find_pe(entities@, (#[trigger] sorted@[k]).actor_id);
            &&& found is Some
            &&& found->Some_0.view_pe().is_character
            &&& spec_pe_has_combat(found->Some_0.view_pe())
            &&& spec_actor_row_matches(
                sorted@[k],
                found->Some_0.view_pe(),
                duration_ms,
                local_player_id,
            )
        } by {
            assert(sorted@.to_multiset().count(sorted@[k]) > 0);
            assert(unsorted.contains(sorted@[k]));
            let k0 = choose|k0: int| 0 <= k0 < unsorted.len() && unsorted[k0] == sorted@[k];
        }
        assert forall|j: int|
            0 <= j < entities@.len() && (#[trigger] entities@[j]).view_pe().is_character
                && spec_pe_has_combat(entities@[j].view_pe()) implies find_actor(
            sorted@,
            entities@[j].entity_id,
        ) is Some by {
            lemma_find_actor_some_index(unsorted, entities@[j].entity_id);
            let k0 = choose|k0: int|
                0 <= k0 < unsorted.len() && (#[trigger] unsorted[k0]).actor_id
                    == entities@[j].entity_id;
            assert(unsorted.to_multiset().count(unsorted[k0]) > 0);
            assert(sorted@.contains(unsorted[k0]));
            let k1 = choose|k1: int| 0 <= k1 < sorted@.len() && sorted@[k1] == unsorted[k0];
            lemma_find_actor_present(sorted@, k1);
        }
    }
    sorted
}

/// A found id keeps being found when rows are appended at the back.
proof fn lemma_find_actor_prefix(s0: Seq<ActorStats>, s1: Seq<ActorStats>, id: i64)
    requires
        find_actor(s0, id) is Some,
        s1.len() >= s0.len(),
        forall|k: int| 0 <= k < s0.len() ==> s1[k] == s0[k],
    ensures
        find_actor(s1, id) is Some,
    decreases s0.len(),
{
    if s0.len() > 0 {
        if s0[0].actor_id == id {
            assert(s1[0] == s0[0]);
        } else {
            assert(s1[0] == s0[0]);
            assert(forall|k: int|
                0 <= k < s0.drop_first().len() ==> s1.drop_first()[k] == s0.drop_first()[k]);
            lemma_find_actor_prefix(s0.drop_first(), s1.drop_first(), id);
        }
    }
}

/// A found id stands at some index.
proof fn lemma_find_actor_some_index(s: Seq<ActorStats>, id: i64)
    requires
        find_actor(s, id) is Some,
    ensures
        exists|k: int| 0 <= k < s.len() && (#[trigger] s[k]).actor_id == id,
    decreases s.len(),
{
    if s.len() > 0 && s[0].actor_id != id {
        lemma_find_actor_some_index(s.drop_first(), id);
        let k = choose|k: int|
            0 <= k < s.drop_first().len() && (#[trigger] s.drop_first()[k]).actor_id == id;
        assert(s[k + 1].actor_id == id);
    }
}

/// Sort actor rows by damage dealt, descending (selection sort).
fn sort_actor_rows_desc(src: Vec<ActorStats>) -> (r: Vec<ActorStats>)
    ensures
        r@.to_multiset() == src@.to_multiset(),
        forall|k: int, l: int|
            0 <= k <= l < r@.len() ==> r@[k].damage_dealt >= r@[l].damage_dealt,
{
    let ghost orig = src@;
    let mut rest = src;
    let mut out: Vec<ActorStats> = Vec::new();
    proof {
        assert(out@.to_multiset().add(rest@.to_multiset()) =~= orig.to_multiset());
    }
    while rest.len() > 0
        invariant
            out@.to_multiset().add(rest@.to_multiset()) == orig.to_multiset(),
            forall|k: int, l: int|
                0 <= k <= l < out@.len() ==> out@[k].damage_dealt >= out@[l].damage_dealt,
            forall|k: int, j: int|
                0 <= k < out@.len() && 0 <= j < rest@.len() ==> out@[k].damage_dealt
                    >= rest@[j].damage_dealt,
        decreases rest@.len(),
    {
        let m: usize = rest.len();
        let mut imax: usize = 0;
        let mut j: usize = 1;
        while j < m
            invariant
                m == rest@.len(),
                0 < m,
                0 <= imax < m,
                1 <= j <= m,
                forall|l: int| 0 <= l < j ==> rest@[imax as int].damage_dealt
                    >= rest@[l].damage_dealt,
            decreases m - j,
        {
            if rest[j].damage_dealt > rest[imax].damage_dealt {
                imax = j;
            }
            j = j + 1;
        }
        let ghost rest0 = rest@;
        let ghost out0 = out@;
        let x = rest.remove(imax);
        out.push(x);
        proof {
            assert(rest@ == rest0.remove(imax as int));
            assert(rest@.to_multiset() =~= rest0.to_multiset().remove(rest0[imax as int]));
            assert(out@.to_multiset() =~= out0.to_multiset().insert(rest0[imax as int]));
            assert(out@.to_multiset().add(rest@.to_multiset()) =~= orig.to_multiset());
            assert(forall|k: int| 0 <= k < out0.len() ==> out@[k] == out0[k]);
            assert(out@[out0.len() as int] == rest0[imax as int]);
            assert forall|k: int, j2: int|
                0 <= k < out@.len() && 0 <= j2 < rest@.len() implies out@[k].damage_dealt
                >= rest@[j2].damage_dealt by {
                assert(rest@[j2] == rest0[if j2 < imax as int {
                    j2
                } else {
                    j2 + 1
                }]);
            }
        }
    }
    out
}

/// The skill rows of a stored record for a metric, sorted by total
/// descending. The tanked view reads the taken table, the heal view the
/// healing table, and the damage view the damage table.
pub fn player_skills_from_persisted(e: &PersistedEntity, metric: MetricType) -> (r: Vec<SkillRow>)
    requires
        crate::tables::skill_ids_unique(spec_pe_metric_skills(e.view_pe(), metric)),
    ensures
        spec_skill_rows_sorted_desc(r@),
        r@.len() == spec_pe_metric_skills(e.view_pe(), metric).len(),
        forall|k: int|
            0 <= k < r@.len() ==> find_skill(
                spec_pe_metric_skills(e.view_pe(), metric),
                (#[trigger] r@[k]).skill_id,
            ) == Some(
                CombatStats {
                    total: r@[k].stats.total_value,
                    hits: r@[k].stats.hits,
                    crit_hits: r@[k].stats.crit_hits,
                    crit_total: r@[k].stats.crit_total_value,
                    lucky_hits: r@[k].stats.lucky_hits,
                    lucky_total: r@[k].stats.lucky_total_value,
                },
            ),
{
    let table = match metric {
        MetricType::Dps => &e.dmg_skills,
        MetricType::Heal => &e.heal_skills,
        MetricType::Tanked => &e.taken_skills,
    };
    let mut rows: Vec<SkillRow> = Vec::new();
    let n: usize = table.len();
    let mut i: usize = 0;
    while i < n
        invariant
            n == table@.len(),
            table@ == spec_pe_metric_skills(e.view_pe(), metric),
            crate::tables::skill_ids_unique(table@),
            0 <= i <= n,
            rows@.len() == i,
            forall|k: int|
                0 <= k < i ==> {
                    let sk = table@[k];
                    (#[trigger] rows@[k]).skill_id == sk.skill_id && rows@[k].stats.total_value
                        == sk.stats.total && rows@[k].stats.hits == sk.stats.hits
                        && rows@[k].stats.crit_hits == sk.stats.crit_hits
                        && rows@[k].stats.crit_total_value == sk.stats.crit_total
                        && rows@[k].stats.lucky_hits == sk.stats.lucky_hits
                        && rows@[k].stats.lucky_total_value == sk.stats.lucky_total
                },
        decreases n - i,
    {
        let sk = table[i];
        rows.push(
            SkillRow {
                skill_id: sk.skill_id,
                stats: crate::models::RawSkillStats {
                    total_value: sk.stats.total,
                    hits: sk.stats.hits,
                    crit_hits: sk.stats.crit_hits,
                    crit_total_value: sk.stats.crit_total,
                    lucky_hits: sk.stats.lucky_hits,
                    lucky_total_value: sk.stats.lucky_total,
                },
            },
        );
        i = i + 1;
    }
    let ghost unsorted = rows@;
    let sorted = sort_skill_rows_desc(rows);
    proof {
        assert(sorted@.to_multiset().len() == sorted@.len());
        assert(unsorted.to_multiset().len() == unsorted.len());
        assert forall|k: int|
            0 <= k < sorted@.len() implies find_skill(
            spec_pe_metric_skills(e.view_pe(), metric),
            (#[trigger] sorted@[k]).skill_id,
        ) == Some(
            CombatStats {
                total: sorted@[k].stats.total_value,
                hits: sorted@[k].stats.hits,
                crit_hits: sorted@[k].stats.crit_hits,
                crit_total: sorted@[k].stats.crit_total_value,
                lucky_hits: sorted@[k].stats.lucky_hits,
                lucky_total: sorted@[k].stats.lucky_total_value,
            },
        ) by {
            assert(sorted@.to_multiset().count(sorted@[k]) > 0);
            assert(unsorted.contains(sorted@[k]));
            let k0 = choose|k0: int| 0 <= k0 < unsorted.len() && unsorted[k0] == sorted@[k];
            crate::tables::lemma_find_skill_at_pub(table@, k0);
            assert(table@[k0] == (crate::tables::Skill {
                skill_id: sorted@[k].skill_id,
                stats: CombatStats {
                    total: sorted@[k].stats.total_value,
                    hits: sorted@[k].stats.hits,
                    crit_hits: sorted@[k].stats.crit_hits,
                    crit_total: sorted@[k].stats.crit_total_value,
                    lucky_hits: sorted@[k].stats.lucky_hits,
                    lucky_total: sorted@[k].stats.lucky_total_value,
                },
            }));
        }
    }
    sorted
}

/// The per-skill table of a stored record for a metric.
pub open spec fn spec_pe_metric_skills(e: PeView, metric: MetricType) -> Seq<crate::tables::Skill> {
    match metric {
        MetricType::Dps => e.dmg_skills,
        MetricType::Heal => e.heal_skills,
        MetricType::Tanked => e.taken_skills,
    }
}

} // verus!


verus! {

/// The persisted record stored for `id`, or `None` when absent.
pub open spec fn find_pe(s: Seq<PersistedEntity>, id: i64) -> Option<PersistedEntity>
    decreases s.len(),
{
    if s.len() == 0 {
        None
    } else if s[0].entity_id == id {
        Some(s[0])
    } else {
        find_pe(s.drop_first(), id)
    }
}

/// With unique ids, the record found for an id is the one at any matching
/// index.
pub proof fn lemma_find_pe_at(s: Seq<PersistedEntity>, i: int)
    requires
        forall|a: int, b: int| 0 <= a < b < s.len() ==> s[a].entity_id != s[b].entity_id,
        0 <= i < s.len(),
    ensures
        find_pe(s, s[i].entity_id) == Some(s[i]),
    decreases s.len(),
{
    if i > 0 {
        assert(s[0].entity_id != s[i].entity_id);
        lemma_find_pe_at(s.drop_first(), i - 1);
    }
}

/// The actor row stored for `id`, or `None` when absent.
pub open spec fn find_actor(s: Seq<ActorStats>, id: i64) -> Option<ActorStats>
    decreases s.len(),
{
    if s.len() == 0 {
        None
    } else if s[0].actor_id == id {
        Some(s[0])
    } else {
        find_actor(s.drop_first(), id)
    }
}

/// A row standing at some index is found under its id.
pub proof fn lemma_find_actor_present(s: Seq<ActorStats>, k: int)
    requires
        0 <= k < s.len(),
    ensures
        find_actor(s, s[k].actor_id) is Some,
    decreases s.len(),
{
    if k > 0 && s[0].actor_id != s[k].actor_id {
        lemma_find_actor_present(s.drop_first(), k - 1);
    }
}

} // verus!

verus! {

use vstd::utf8::encode_utf8;

/// The JSON text the serializer produces for a list of names. The result
/// depends on the names alone.
pub uninterp spec fn names_json_of(names: Seq<Seq<char>>) -> Seq<char>;

/// Serialize a name list into the header row's name-array blob.
///
/// Relies on `serde_json::to_string` on a `Vec<String>`: it produces a
/// JSON array of the strings, deterministically.
#[verifier::external_body]
pub fn names_to_json(names: &Vec<String>) -> (r: Option<String>)
    ensures
        match r {
            Some(s) => s@ == names_json_of(names.deep_view()),
            None => true,
        },
{
    match serde_json::to_string(names) {
        Ok(s) => Some(s),
        Err(_) => None,
    }
}

/// Parse a name-array blob back into its names.
///
/// Relies on `serde_json::from_str` on a `Vec<String>`: parsing the JSON
/// the serializer produced for a string list succeeds and yields the
/// serialized value back (serde_json round-trips strings losslessly).
#[verifier::external_body]
pub fn names_from_json(s: &String) -> (r: Option<Vec<String>>)
    ensures
        forall|ns: Seq<Seq<char>>|
            s@ == names_json_of(ns) ==> r is Some && (#[trigger] r->Some_0).deep_view() == ns,
{
    match serde_json::from_str::<Vec<String>>(s.as_str()) {
        Ok(v) => Some(v),
        Err(_) => None,
    }
}

/// One stored encounter header row, with its name blobs already parsed.
#[derive(Debug, Clone, PartialEq, Eq)]
pub struct StoredEncounterRow {
    /// The encounter id.
    pub id: i32,
    /// When the fight started, epoch milliseconds.
    pub started_at_ms: i64,
    /// When it ended; open rows are never listed.
    pub ended_at_ms: Option<i64>,
    /// Total damage column.
    pub total_dmg: i64,
    /// Total healing column.
    pub total_heal: i64,
    /// The scene id.
    pub scene_id: Option<i32>,
    /// The scene's display name.
    pub scene_name: Option<String>,
    /// Stored duration in milliseconds.
    pub duration_ms: u64,
    /// Whether the row is marked favorite.
    pub is_favorite: bool,
    /// Defeated boss names.
    pub boss_names: Vec<String>,
    /// Participating player names.
    pub player_names: Vec<String>,
}

/// The filters of the encounter listing.
#[derive(Debug, Clone, PartialEq, Eq)]
pub struct EncounterFilters {
    /// Keep rows whose scene name stands in this set, when non-empty.
    pub encounter_names: Vec<String>,
    /// Keep rows with one of these boss names, when non-empty.
    pub boss_names: Vec<String>,
    /// Keep rows with one of these player names, when non-empty.
    pub player_names: Vec<String>,
    /// Keep rows with a player name containing this text, when non-empty.
    pub player_name: String,
    /// Keep only favorites.
    pub only_favorites: bool,
    /// Keep rows started at or after this time, when present.
    pub date_from_ms: Option<i64>,
    /// Keep rows started at or before this time, when present.
    pub date_to_ms: Option<i64>,
}

/// Whether some stored name equals `name`, by characters.
pub open spec fn spec_names_contain(names: Seq<Seq<char>>, name: Seq<char>) -> bool {
    exists|i: int| 0 <= i < names.len() && names[i] == name
}

/// Whether some name in the list equals `name`, by characters.
pub open spec fn spec_names_has(names: Seq<String>, name: Seq<char>) -> bool {
    exists|i: int| 0 <= i < names.len() && (#[trigger] names[i])@ == name
}

/// Whether some stored name holds `text` as a substring, by UTF-8 bytes.
pub open spec fn spec_names_have_substring(names: Seq<Seq<char>>, text: Seq<char>) -> bool {
    exists|i: int|
        0 <= i < names.len() && spec_is_substring(
            encode_utf8(#[trigger] names[i]),
            encode_utf8(text),
        )
}

/// Whether `needle` occurs contiguously in `hay`.
pub open spec fn spec_is_substring(hay: Seq<u8>, needle: Seq<u8>) -> bool {
    exists|i: int|
        0 <= i && i + needle.len() <= hay.len() && #[trigger] hay.subrange(i, i + needle.len())
            == needle
}

/// Whether a stored row passes the filters: it must be finished, favorite
/// when asked, inside the date range, with a matching scene name, a
/// matching boss name, a matching player name, and a player name holding
/// the searched text.
pub open spec fn spec_row_matches(row: StoredEncounterRow, f: EncounterFilters) -> bool {
    &&& row.ended_at_ms is Some
    &&& (f.only_favorites ==> row.is_favorite)
    &&& (match f.date_from_ms {
        Some(t) => row.started_at_ms >= t,
        None => true,
    })
    &&& (match f.date_to_ms {
        Some(t) => row.started_at_ms <= t,
        None => true,
    })
    &&& (f.encounter_names@.len() > 0 ==> (match row.scene_name {
        Some(nm) => spec_names_contain(f.encounter_names.deep_view(), nm@),
        None => false,
    }))
    &&& (f.boss_names@.len() > 0 ==> exists|i: int|
        0 <= i < f.boss_names@.len() && spec_names_contain(
            row.boss_names.deep_view(),
            (#[trigger] f.boss_names@[i])@,
        ))
    &&& (f.player_names@.len() > 0 ==> exists|i: int|
        0 <= i < f.player_names@.len() && spec_names_contain(
            row.player_names.deep_view(),
            (#[trigger] f.player_names@[i])@,
        ))
    &&& (f.player_name@.len() > 0 ==> spec_names_have_substring(
        row.player_names.deep_view(),
        f.player_name@,
    ))
}

/// Whether `needle` occurs contiguously in `hay` (naive search).
pub fn bytes_contains(hay: &[u8], needle: &[u8]) -> (r: bool)
    ensures
        r == spec_is_substring(hay@, needle@),
{
    let hn: usize = hay.len();
    let nn: usize = needle.len();
    if nn == 0 {
        proof {
            assert(hay@.subrange(0int, 0int + needle@.len()) =~= needle@);
        }
        return true;
    }
    if nn > hn {
        proof {
            if spec_is_substring(hay@, needle@) {
                let i = choose|i: int|
                    0 <= i && i + needle@.len() <= hay@.len() && #[trigger] hay@.subrange(
                        i,
                        i + needle@.len(),
                    ) == needle@;
            }
        }
        return false;
    }
    let mut i: usize = 0;
    while i <= hn - nn
        invariant
            hn == hay@.len(),
            nn == needle@.len(),
            1 <= nn <= hn,
            hn <= usize::MAX,
            0 <= i <= hn - nn + 1,
            forall|i2: int|
                0 <= i2 < i ==> #[trigger] hay@.subrange(i2, i2 + needle@.len()) != needle@,
        decreases hn - nn - i + 1,
    {
        let mut k: usize = 0;
        let mut matches_here = true;
        while k < nn
            invariant
                hn == hay@.len(),
                nn == needle@.len(),
                nn <= hn,
                0 <= i <= hn - nn,
                0 <= k <= nn,
                matches_here ==> forall|k2: int| 0 <= k2 < k ==> hay@[i + k2] == needle@[k2],
                !matches_here ==> hay@.subrange(i as int, i as int + needle@.len()) != needle@,
            decreases nn - k,
        {
            if hay[i + k] != needle[k] {
                proof {
                    assert(hay@.subrange(i as int, i as int + needle@.len())[k as int] == hay@[
                        i + k]);
                }
                matches_here = false;
                k = nn;
            } else {
                k = k + 1;
            }
        }
        if matches_here {
            proof {
                assert(hay@.subrange(i as int, i as int + needle@.len()) =~= needle@);
            }
            return true;
        }
        i = i + 1;
    }
    proof {
        if spec_is_substring(hay@, needle@) {
            let i2 = choose|i2: int|
                0 <= i2 && i2 + needle@.len() <= hay@.len() && #[trigger] hay@.subrange(
                    i2,
                    i2 + needle@.len(),
                ) == needle@;
        }
    }
    false
}

} // verus!

use vstd::string::StringSliceAdditionalSpecFns;

verus! {

/// Whether any stored name equals `name`.
fn names_contain(names: &Vec<String>, name: &String) -> (r: bool)
    ensures
        r == spec_names_contain(names.deep_view(), name@),
{
    let n: usize = names.len();
    let mut i: usize = 0;
    while i < n
        invariant
            n == names@.len(),
            0 <= i <= n,
            forall|j: int| 0 <= j < i ==> (#[trigger] names@[j])@ != name@,
        decreases n - i,
    {
        if names[i].eq(name) {
            proof {
                assert(names.deep_view()[i as int] == names@[i as int]@);
            }
            return true;
        }
        i = i + 1;
    }
    proof {
        if spec_names_contain(names.deep_view(), name@) {
            let j = choose|j: int|
                0 <= j < names.deep_view().len() && names.deep_view()[j] == name@;
            assert(names@[j]@ == name@);
        }
    }
    false
}

/// Whether any stored name holds `text` as a substring.
fn names_have_substring(names: &Vec<String>, text: &String) -> (r: bool)
    ensures
        r == spec_names_have_substring(names.deep_view(), text@),
{
    let n: usize = names.len();
    let mut i: usize = 0;
    while i < n
        invariant
            n == names@.len(),
            0 <= i <= n,
            forall|j: int|
                0 <= j < i ==> !spec_is_substring(
                    encode_utf8((#[trigger] names@[j])@),
                    encode_utf8(text@),
                ),
        decreases n - i,
    {
        if bytes_contains(names[i].as_str().as_bytes(), text.as_str().as_bytes()) {
            proof {
                assert(names.deep_view()[i as int] == names@[i as int]@);
            }
            return true;
        }
        i = i + 1;
    }
    proof {
        if spec_names_have_substring(names.deep_view(), text@) {
            let j = choose|j: int|
                0 <= j < names.deep_view().len() && spec_is_substring(
                    encode_utf8(#[trigger] names.deep_view()[j]),
                    encode_utf8(text@),
                );
            assert(names@[j]@ == names.deep_view()[j]);
        }
    }
    false
}

/// Decide whether a stored row passes the filters, per
/// [`spec_row_matches`].
pub fn encounter_row_matches(row: &StoredEncounterRow, f: &EncounterFilters) -> (r: bool)
    ensures
        r == spec_row_matches(*row, *f),
{
    if !matches_finished(row) {
        return false;
    }
    if f.only_favorites && !row.is_favorite {
        return false;
    }
    match f.date_from_ms {
        Some(t) => {
            if row.started_at_ms < t {
                return false;
            }
        },
        None => {},
    }
    match f.date_to_ms {
        Some(t) => {
            if row.started_at_ms > t {
                return false;
            }
        },
        None => {},
    }
    if f.encounter_names.len() > 0 {
        match &row.scene_name {
            Some(nm) => {
                if !names_contain(&f.encounter_names, nm) {
                    return false;
                }
            },
            None => {
                return false;
            },
        }
    }
    if f.boss_names.len() > 0 {
        let mut any = false;
        let n: usize = f.boss_names.len();
        let mut i: usize = 0;
        while i < n
            invariant
                n == f.boss_names@.len(),
                0 <= i <= n,
                any == exists|j: int|
                    0 <= j < i && spec_names_contain(
                        row.boss_names.deep_view(),
                        (#[trigger] f.boss_names@[j])@,
                    ),
            decreases n - i,
        {
            if !any && names_contain(&row.boss_names, &f.boss_names[i]) {
                any = true;
            }
            i = i + 1;
        }
        if !any {
            return false;
        }
    }
    if f.player_names.len() > 0 {
        let mut any = false;
        let n: usize = f.player_names.len();
        let mut i: usize = 0;
        while i < n
            invariant
                n == f.player_names@.len(),
                0 <= i <= n,
                any == exists|j: int|
                    0 <= j < i && spec_names_contain(
                        row.player_names.deep_view(),
                        (#[trigger] f.player_names@[j])@,
                    ),
            decreases n - i,
        {
            if !any && names_contain(&row.player_names, &f.player_names[i]) {
                any = true;
            }
            i = i + 1;
        }
        if !any {
            return false;
        }
    }
    if !f.player_name.as_str().is_empty() {
        if !names_have_substring(&row.player_names, &f.player_name) {
            return false;
        }
    }
    proof {
        assert(row.ended_at_ms is Some);
        assert(f.only_favorites ==> row.is_favorite);
        assert(match f.date_from_ms {
            Some(t) => row.started_at_ms >= t,
            None => true,
        });
        assert(match f.date_to_ms {
            Some(t) => row.started_at_ms <= t,
            None => true,
        });
        assert(f.encounter_names@.len() > 0 ==> (match row.scene_name {
            Some(nm) => spec_names_contain(f.encounter_names.deep_view(), nm@),
            None => false,
        }));
        assert(f.boss_names@.len() > 0 ==> exists|i: int|
            0 <= i < f.boss_names@.len() && spec_names_contain(
                row.boss_names.deep_view(),
                (#[trigger] f.boss_names@[i])@,
            ));
        assert(f.player_names@.len() > 0 ==> exists|i: int|
            0 <= i < f.player_names@.len() && spec_names_contain(
                row.player_names.deep_view(),
                (#[trigger] f.player_names@[i])@,
            ));
        assert(f.player_name@.len() > 0 ==> spec_names_have_substring(
            row.player_names.deep_view(),
            f.player_name@,
        ));
    }
    true
}

/// Whether the row is finished.
fn matches_finished(row: &StoredEncounterRow) -> (r: bool)
    ensures
        r == (row.ended_at_ms is Some),
{
    match &row.ended_at_ms {
        Some(_) => true,
        None => false,
    }
}

/// Two stored rows carry the same content (a row and its copy).
pub open spec fn spec_row_like(a: StoredEncounterRow, b: StoredEncounterRow) -> bool {
    &&& a.id == b.id
    &&& a.started_at_ms == b.started_at_ms
    &&& a.ended_at_ms == b.ended_at_ms
    &&& a.total_dmg == b.total_dmg
    &&& a.total_heal == b.total_heal
    &&& a.scene_id == b.scene_id
    &&& crate::tables::opt_name_view(a.scene_name) == crate::tables::opt_name_view(b.scene_name)
    &&& a.duration_ms == b.duration_ms
    &&& a.is_favorite == b.is_favorite
    &&& a.boss_names.deep_view() == b.boss_names.deep_view()
    &&& a.player_names.deep_view() == b.player_names.deep_view()
}

/// Content-equal rows pass the same filters.
pub proof fn lemma_row_like_matches(a: StoredEncounterRow, b: StoredEncounterRow, f: EncounterFilters)
    requires
        spec_row_like(a, b),
    ensures
        spec_row_matches(a, f) == spec_row_matches(b, f),
{
    match (a.scene_name, b.scene_name) {
        (Some(na), Some(nb)) => {
            assert(na@ == nb@);
        },
        _ => {},
    }
}

/// The rows that pass the filters, in stored order.
pub open spec fn spec_filtered(rows: Seq<StoredEncounterRow>, f: EncounterFilters) -> Seq<
    StoredEncounterRow,
>
    decreases rows.len(),
{
    if rows.len() == 0 {
        Seq::<StoredEncounterRow>::empty()
    } else {
        let rest = spec_filtered(rows.drop_last(), f);
        if spec_row_matches(rows.last(), f) {
            rest.push(rows.last())
        } else {
            rest
        }
    }
}

/// One more row extends the filtered prefix by itself exactly when it
/// passes the filters.
proof fn lemma_filtered_snoc(rows: Seq<StoredEncounterRow>, i: int, f: EncounterFilters)
    requires
        0 <= i < rows.len(),
    ensures
        spec_filtered(rows.take(i + 1), f) == if spec_row_matches(rows[i], f) {
            spec_filtered(rows.take(i), f).push(rows[i])
        } else {
            spec_filtered(rows.take(i), f)
        },
{
    assert(rows.take(i + 1).drop_last() =~= rows.take(i));
    assert(rows.take(i + 1).last() == rows[i]);
}

/// The filtered length is the match count.
proof fn lemma_filtered_len(rows: Seq<StoredEncounterRow>, f: EncounterFilters)
    ensures
        spec_filtered(rows, f).len() == spec_match_count(rows, f),
    decreases rows.len(),
{
    if rows.len() > 0 {
        lemma_filtered_len(rows.drop_last(), f);
        lemma_count_snoc_last(rows, f);
    }
}

/// The match count over a sequence, split at its last row.
proof fn lemma_count_snoc_last(rows: Seq<StoredEncounterRow>, f: EncounterFilters)
    requires
        rows.len() > 0,
    ensures
        spec_match_count(rows, f) == spec_match_count(rows.drop_last(), f) + (
        if spec_row_matches(rows.last(), f) {
            1int
        } else {
            0int
        }),
    decreases rows.len(),
{
    if rows.len() == 1 {
        assert(rows.drop_last() =~= Seq::<StoredEncounterRow>::empty());
        assert(rows.drop_first() =~= Seq::<StoredEncounterRow>::empty());
    } else {
        lemma_count_snoc_last(rows.drop_first(), f);
        assert(rows.drop_last()[0] == rows[0]);
        assert(rows.drop_last().drop_first() =~= rows.drop_first().drop_last());
        assert(rows.drop_first().last() == rows.last());
    }
}

/// How many rows pass the filters.
pub open spec fn spec_match_count(rows: Seq<StoredEncounterRow>, f: EncounterFilters) -> int
    decreases rows.len(),
{
    if rows.len() == 0 {
        0
    } else {
        (if spec_row_matches(rows[0], f) {
            1int
        } else {
            0int
        }) + spec_match_count(rows.drop_first(), f)
    }
}

/// The page the listing returns: the filtered rows from `offset` on, at
/// most `limit` of them.
pub open spec fn spec_page_len(total: int, offset: int, limit: int) -> int {
    if total <= offset {
        0
    } else if total - offset <= limit {
        total - offset
    } else {
        limit
    }
}

/// List stored encounters: keep the rows that pass the filters, keep their
/// stored order (newest first as stored), apply the offset and the limit,
/// and report the full match count. The page is exactly the slice
/// `offset..offset+limit` of the filtered rows, content for content.
pub fn list_encounters(
    rows: &Vec<StoredEncounterRow>,
    f: &EncounterFilters,
    offset: usize,
    limit: usize,
) -> (r: (Vec<StoredEncounterRow>, usize))
    ensures
        r.1 == spec_match_count(rows@, *f),
        r.0@.len() == spec_page_len(spec_match_count(rows@, *f), offset as int, limit as int),
        forall|k: int|
            0 <= k < r.0@.len() ==> spec_row_like(
                spec_filtered(rows@, *f)[offset + k],
                #[trigger] r.0@[k],
            ),
        forall|k: int| 0 <= k < r.0@.len() ==> spec_row_matches(#[trigger] r.0@[k], *f),
{
    let mut kept: Vec<StoredEncounterRow> = Vec::new();
    let mut count: usize = 0;
    let n: usize = rows.len();
    let mut i: usize = 0;
    proof {
        assert(rows@.take(0int) =~= Seq::<StoredEncounterRow>::empty());
        lemma_filtered_len(rows@.take(0int), *f);
    }
    while i < n
        invariant
            n == rows@.len(),
            0 <= i <= n,
            count == spec_match_count(rows@.take(i as int), *f),
            count == spec_filtered(rows@.take(i as int), *f).len(),
            count <= i,
            kept@.len() == spec_page_len(count as int, offset as int, limit as int),
            forall|k: int|
                0 <= k < kept@.len() ==> spec_row_like(
                    spec_filtered(rows@.take(i as int), *f)[offset + k],
                    #[trigger] kept@[k],
                ),
            forall|k: int| 0 <= k < kept@.len() ==> spec_row_matches(#[trigger] kept@[k], *f),
        decreases n - i,
    {
        proof {
            lemma_match_count_snoc(rows@, i as int, *f);
            lemma_filtered_snoc(rows@, i as int, *f);
            lemma_filtered_len(rows@.take(i as int + 1), *f);
        }
        let ghost fl0 = spec_filtered(rows@.take(i as int), *f);
        if encounter_row_matches(&rows[i], f) {
            if count >= offset && kept.len() < limit {
                let ghost k0 = kept@;
                let copy = clone_row(&rows[i]);
                proof {
                    lemma_row_like_matches(rows@[i as int], copy, *f);
                }
                kept.push(copy);
                proof {
                    assert(forall|k: int| 0 <= k < k0.len() ==> kept@[k] == k0[k]);
                    assert(spec_filtered(rows@.take(i as int + 1), *f) == fl0.push(
                        rows@[i as int],
                    ));
                    assert(fl0.push(rows@[i as int])[count as int] == rows@[i as int]);
                    assert(spec_row_like(
                        spec_filtered(rows@.take(i as int + 1), *f)[offset + k0.len()],
                        kept@[k0.len() as int],
                    ));
                    assert forall|k: int|
                        0 <= k < kept@.len() implies spec_row_like(
                        spec_filtered(rows@.take(i as int + 1), *f)[offset + k],
                        #[trigger] kept@[k],
                    ) by {
                        if k < k0.len() {
                            assert(fl0.push(rows@[i as int])[offset + k] == fl0[offset + k]);
                        }
                    }
                }
            } else {
                proof {
                    assert(spec_filtered(rows@.take(i as int + 1), *f) == fl0.push(
                        rows@[i as int],
                    ));
                    assert forall|k: int|
                        0 <= k < kept@.len() implies spec_row_like(
                        spec_filtered(rows@.take(i as int + 1), *f)[offset + k],
                        #[trigger] kept@[k],
                    ) by {
                        assert(fl0.push(rows@[i as int])[offset + k] == fl0[offset + k]);
                    }
                }
            }
            count = count + 1;
        }
        i = i + 1;
    }
    proof {
        assert(rows@.take(n as int) =~= rows@);
    }
    (kept, count)
}

/// The match count over a longer prefix.
proof fn lemma_match_count_snoc(rows: Seq<StoredEncounterRow>, i: int, f: EncounterFilters)
    requires
        0 <= i < rows.len(),
    ensures
        spec_match_count(rows.take(i + 1), f) == spec_match_count(rows.take(i), f) + (
        if spec_row_matches(rows[i], f) {
            1int
        } else {
            0int
        }),
    decreases i,
{
    if i == 0 {
        assert(rows.take(1)[0] == rows[0]);
        assert(rows.take(1).drop_first() =~= Seq::<StoredEncounterRow>::empty());
        assert(rows.take(0) =~= Seq::<StoredEncounterRow>::empty());
    } else {
        assert(rows.take(i + 1)[0] == rows[0]);
        assert(rows.take(i + 1).drop_first() =~= rows.drop_first().take(i));
        assert(rows.take(i)[0] == rows[0]);
        assert(rows.take(i).drop_first() =~= rows.drop_first().take(i - 1));
        lemma_match_count_snoc(rows.drop_first(), i - 1, f);
        assert(rows.drop_first()[i - 1] == rows[i]);
    }
}

/// Copy one stored row.
fn clone_row(row: &StoredEncounterRow) -> (r: StoredEncounterRow)
    ensures
        spec_row_like(*row, r),
{
    StoredEncounterRow {
        id: row.id,
        started_at_ms: row.started_at_ms,
        ended_at_ms: row.ended_at_ms,
        total_dmg: row.total_dmg,
        total_heal: row.total_heal,
        scene_id: row.scene_id,
        scene_name: crate::entity::clone_opt_name(&row.scene_name),
        duration_ms: row.duration_ms,
        is_favorite: row.is_favorite,
        boss_names: clone_names(&row.boss_names),
        player_names: clone_names(&row.player_names),
    }
}

/// Copy a name list.
fn clone_names(v: &Vec<String>) -> (r: Vec<String>)
    ensures
        r.deep_view() == v.deep_view(),
        r@.len() == v@.len(),
        forall|j: int| 0 <= j < v@.len() ==> (#[trigger] r@[j])@ == v@[j]@,
{
    let n: usize = v.len();
    let mut r: Vec<String> = Vec::new();
    let mut i: usize = 0;
    while i < n
        invariant
            n == v@.len(),
            0 <= i <= n,
            r@.len() == i,
            forall|j: int| 0 <= j < i ==> (#[trigger] r@[j])@ == v@[j]@,
        decreases n - i,
    {
        r.push(v[i].clone());
        i = i + 1;
    }
    proof {
        assert(r.deep_view() =~= v.deep_view());
    }
    r
}

/// Byte-lexicographic order on byte sequences: the empty sequence first,
/// then by the first differing byte.
pub open spec fn spec_bytes_le(a: Seq<u8>, b: Seq<u8>) -> bool
    decreases a.len(),
{
    if a.len() == 0 {
        true
    } else if b.len() == 0 {
        false
    } else if a[0] < b[0] {
        true
    } else if a[0] > b[0] {
        false
    } else {
        spec_bytes_le(a.drop_first(), b.drop_first())
    }
}

/// The order stored name lists are kept in: byte-lexicographic on the
/// UTF-8 encodings of the names.
pub open spec fn spec_name_le(a: Seq<char>, b: Seq<char>) -> bool {
    spec_bytes_le(encode_utf8(a), encode_utf8(b))
}

/// Names are ordered by [`spec_name_le`].
pub open spec fn spec_names_sorted(names: Seq<String>) -> bool {
    forall|k: int, l: int| 0 <= k <= l < names.len() ==> spec_name_le(names[k]@, names[l]@)
}

/// The byte order is total.
pub proof fn lemma_bytes_le_total(a: Seq<u8>, b: Seq<u8>)
    ensures
        spec_bytes_le(a, b) || spec_bytes_le(b, a),
    decreases a.len(),
{
    if a.len() > 0 && b.len() > 0 && a[0] == b[0] {
        lemma_bytes_le_total(a.drop_first(), b.drop_first());
    }
}

/// The byte order is transitive.
pub proof fn lemma_bytes_le_trans(a: Seq<u8>, b: Seq<u8>, c: Seq<u8>)
    requires
        spec_bytes_le(a, b),
        spec_bytes_le(b, c),
    ensures
        spec_bytes_le(a, c),
    decreases a.len(),
{
    if a.len() > 0 {
        if a[0] == b[0] && b[0] == c[0] {
            lemma_bytes_le_trans(a.drop_first(), b.drop_first(), c.drop_first());
        }
    }
}

/// Decide [`spec_name_le`] on two names, by their UTF-8 bytes.
fn name_le(a: &String, b: &String) -> (r: bool)
    ensures
        r == spec_name_le(a@, b@),
{
    let ab = a.as_str().as_bytes();
    let bb = b.as_str().as_bytes();
    let an: usize = ab.len();
    let bn: usize = bb.len();
    let mut i: usize = 0;
    proof {
        assert(ab@.skip(0) =~= ab@);
        assert(bb@.skip(0) =~= bb@);
    }
    while i < an && i < bn
        invariant
            an == ab@.len(),
            bn == bb@.len(),
            ab@ == encode_utf8(a@),
            bb@ == encode_utf8(b@),
            0 <= i <= an,
            i <= bn,
            spec_bytes_le(ab@, bb@) == spec_bytes_le(ab@.skip(i as int), bb@.skip(i as int)),
            spec_bytes_le(bb@, ab@) == spec_bytes_le(bb@.skip(i as int), ab@.skip(i as int)),
        decreases an - i,
    {
        proof {
            assert(ab@.skip(i as int)[0] == ab@[i as int]);
            assert(bb@.skip(i as int)[0] == bb@[i as int]);
            assert(ab@.skip(i as int).drop_first() =~= ab@.skip(i as int + 1));
            assert(bb@.skip(i as int).drop_first() =~= bb@.skip(i as int + 1));
        }
        if ab[i] < bb[i] {
            return true;
        }
        if ab[i] > bb[i] {
            return false;
        }
        i = i + 1;
    }
    proof {
        if i >= an {
            assert(ab@.skip(i as int) =~= Seq::<u8>::empty());
        } else {
            assert(bb@.skip(i as int) =~= Seq::<u8>::empty());
            assert(ab@.skip(i as int).len() > 0);
        }
    }
    an <= bn
}

/// The distinct non-empty names of a name stream, each kept at its first
/// occurrence.
pub open spec fn spec_unique_names(names: Seq<Seq<char>>) -> Seq<Seq<char>>
    decreases names.len(),
{
    if names.len() == 0 {
        Seq::<Seq<char>>::empty()
    } else {
        let rest = spec_unique_names(names.drop_last());
        if names.last().len() == 0 || spec_names_contain(rest, names.last()) {
            rest
        } else {
            rest.push(names.last())
        }
    }
}

/// All names of a list of stored name lists, in stored order.
pub open spec fn spec_all_names(lists: Seq<Seq<Seq<char>>>) -> Seq<Seq<char>>
    decreases lists.len(),
{
    if lists.len() == 0 {
        Seq::<Seq<char>>::empty()
    } else {
        spec_all_names(lists.drop_last()) + lists.last()
    }
}

/// The distinct non-empty names over the stored name-array blobs: the
/// read side of the unique boss-name and scene-name queries.
pub fn unique_names(lists: &Vec<Vec<String>>) -> (r: Vec<String>)
    ensures
        r.deep_view() == spec_unique_names(spec_all_names(lists.deep_view())),
{
    let ghost all = lists.deep_view();
    let mut out: Vec<String> = Vec::new();
    let n: usize = lists.len();
    let mut i: usize = 0;
    proof {
        assert(all.take(0int) =~= Seq::<Seq<Seq<char>>>::empty());
        assert(out.deep_view() =~= spec_unique_names(spec_all_names(all.take(0int))));
    }
    while i < n
        invariant
            n == lists@.len(),
            all == lists.deep_view(),
            all.len() == n,
            0 <= i <= n,
            out.deep_view() == spec_unique_names(spec_all_names(all.take(i as int))),
        decreases n - i,
    {
        let ghost base = spec_all_names(all.take(i as int));
        let ghost cur = all[i as int];
        proof {
            assert(cur =~= lists@[i as int].deep_view());
            assert(cur.take(0int) =~= Seq::<Seq<char>>::empty());
            assert(base + cur.take(0int) =~= base);
        }
        let m: usize = lists[i].len();
        let mut j: usize = 0;
        while j < m
            invariant
                n == lists@.len(),
                all == lists.deep_view(),
                all.len() == n,
                i < n,
                cur == all[i as int],
                cur == lists@[i as int].deep_view(),
                m == lists@[i as int]@.len(),
                cur.len() == m,
                base == spec_all_names(all.take(i as int)),
                0 <= j <= m,
                out.deep_view() == spec_unique_names(base + cur.take(j as int)),
            decreases m - j,
        {
            proof {
                assert(cur[j as int] == lists@[i as int]@[j as int]@);
                assert((base + cur.take(j as int)).push(cur[j as int]) =~= base + cur.take(
                    j as int + 1,
                ));
                assert((base + cur.take(j as int + 1)).drop_last() =~= base + cur.take(j as int));
                assert((base + cur.take(j as int + 1)).last() == cur[j as int]);
            }
            let nm = &lists[i][j];
            let ghost out0 = out.deep_view();
            if !nm.as_str().is_empty() && !names_contain(&out, nm) {
                out.push(nm.clone());
                proof {
                    assert(out.deep_view() =~= out0.push(cur[j as int]));
                }
            }
            j = j + 1;
        }
        proof {
            assert(cur.take(m as int) =~= cur);
            assert(all.take(i as int + 1).drop_last() =~= all.take(i as int));
            assert(all.take(i as int + 1).last() == cur);
            assert(spec_all_names(all.take(i as int + 1)) == base + cur);
        }
        i = i + 1;
    }
    proof {
        assert(all.take(n as int) =~= all);
    }
    out
}

/// A permutation keeps every name, in both directions.
pub proof fn lemma_sorted_names_from(unsorted: Seq<String>, sorted: Seq<String>)
    requires
        sorted.to_multiset() == unsorted.to_multiset(),
    ensures
        sorted.len() == unsorted.len(),
        forall|k: int| 0 <= k < sorted.len() ==> unsorted.contains(#[trigger] sorted[k]),
        forall|a: int| 0 <= a < unsorted.len() ==> sorted.contains(#[trigger] unsorted[a]),
{
    assert(sorted.to_multiset().len() == sorted.len());
    assert(unsorted.to_multiset().len() == unsorted.len());
    assert forall|k: int| 0 <= k < sorted.len() implies unsorted.contains(#[trigger] sorted[k]) by {
        assert(sorted.to_multiset().count(sorted[k]) > 0);
    }
    assert forall|a: int|
        0 <= a < unsorted.len() implies sorted.contains(#[trigger] unsorted[a]) by {
        assert(unsorted.to_multiset().count(unsorted[a]) > 0);
    }
}

/// A permutation of names with pairwise-distinct characters keeps them
/// pairwise distinct.
pub proof fn lemma_distinct_views_permuted(
    unsorted: Seq<String>,
    sorted: Seq<String>,
    k: int,
    l: int,
)
    requires
        sorted.to_multiset() == unsorted.to_multiset(),
        forall|a: int, b: int| 0 <= a < b < unsorted.len() ==> unsorted[a]@ != unsorted[b]@,
        0 <= k < l < sorted.len(),
    ensures
        sorted[k]@ != sorted[l]@,
{
    if sorted[k]@ != sorted[l]@ {
        return ;
    }
    if sorted[k] == sorted[l] {
        lemma_name_count_ge_two(sorted, k, l);
        assert(unsorted.to_multiset().count(sorted[k]) >= 2);
        assert forall|a: int, b: int|
            0 <= a < unsorted.len() && 0 <= b < unsorted.len() && a != b implies unsorted[a]
            != unsorted[b] by {
            if a < b {
                assert(unsorted[a]@ != unsorted[b]@);
            } else {
                assert(unsorted[b]@ != unsorted[a]@);
            }
        }
        assert(unsorted.no_duplicates());
        unsorted.lemma_multiset_has_no_duplicates();
        assert(unsorted.to_multiset().contains(sorted[k]));
    } else {
        assert(sorted.to_multiset().count(sorted[k]) > 0);
        assert(sorted.to_multiset().count(sorted[l]) > 0);
        assert(unsorted.contains(sorted[k]));
        assert(unsorted.contains(sorted[l]));
        let a = choose|a: int| 0 <= a < unsorted.len() && unsorted[a] == sorted[k];
        let b = choose|b: int| 0 <= b < unsorted.len() && unsorted[b] == sorted[l];
        if a < b {
            assert(unsorted[a]@ != unsorted[b]@);
        } else if b < a {
            assert(unsorted[b]@ != unsorted[a]@);
        }
    }
}

/// A name standing at two positions counts at least twice.
proof fn lemma_name_count_ge_two(s: Seq<String>, k: int, l: int)
    requires
        0 <= k < l < s.len(),
        s[k] == s[l],
    ensures
        s.to_multiset().count(s[k]) >= 2,
{
    let t = s.remove(k);
    assert(t.to_multiset() =~= s.to_multiset().remove(s[k]));
    assert(t[l - 1] == s[l]);
    assert(t.to_multiset().count(s[k]) > 0) by {
        assert(t.contains(s[k]));
    }
}

/// Sort a name list byte-lexicographically (selection sort).
pub fn sort_names_lex(src: Vec<String>) -> (r: Vec<String>)
    ensures
        r@.to_multiset() == src@.to_multiset(),
        spec_names_sorted(r@),
{
    let ghost orig = src@;
    let mut rest = src;
    let mut out: Vec<String> = Vec::new();
    proof {
        assert(out@.to_multiset().add(rest@.to_multiset()) =~= orig.to_multiset());
    }
    while rest.len() > 0
        invariant
            out@.to_multiset().add(rest@.to_multiset()) == orig.to_multiset(),
            spec_names_sorted(out@),
            forall|k: int, j: int|
                0 <= k < out@.len() && 0 <= j < rest@.len() ==> spec_name_le(
                    out@[k]@,
                    rest@[j]@,
                ),
        decreases rest@.len(),
    {
        let m: usize = rest.len();
        let mut imin: usize = 0;
        let mut j: usize = 1;
        proof {
            lemma_bytes_le_total(encode_utf8(rest@[0]@), encode_utf8(rest@[0]@));
        }
        while j < m
            invariant
                m == rest@.len(),
                0 < m,
                0 <= imin < m,
                1 <= j <= m,
                forall|l: int|
                    0 <= l < j ==> spec_name_le(rest@[imin as int]@, (#[trigger] rest@[l])@),
            decreases m - j,
        {
            if !name_le(&rest[imin], &rest[j]) {
                proof {
                    lemma_bytes_le_total(
                        encode_utf8(rest@[imin as int]@),
                        encode_utf8(rest@[j as int]@),
                    );
                    assert forall|l: int|
                        0 <= l < j + 1 implies spec_name_le(
                        rest@[j as int]@,
                        (#[trigger] rest@[l])@,
                    ) by {
                        if l < j {
                            lemma_bytes_le_trans(
                                encode_utf8(rest@[j as int]@),
                                encode_utf8(rest@[imin as int]@),
                                encode_utf8(rest@[l]@),
                            );
                        } else {
                            lemma_bytes_le_total(
                                encode_utf8(rest@[j as int]@),
                                encode_utf8(rest@[j as int]@),
                            );
                        }
                    }
                }
                imin = j;
            }
            j = j + 1;
        }
        let ghost rest0 = rest@;
        let ghost out0 = out@;
        let x = rest.remove(imin);
        out.push(x);
        proof {
            assert(rest@ == rest0.remove(imin as int));
            assert(rest@.to_multiset() =~= rest0.to_multiset().remove(rest0[imin as int]));
            assert(out@.to_multiset() =~= out0.to_multiset().insert(rest0[imin as int]));
            assert(out@.to_multiset().add(rest@.to_multiset()) =~= orig.to_multiset());
            assert(forall|k: int| 0 <= k < out0.len() ==> out@[k] == out0[k]);
            assert(out@[out0.len() as int] == rest0[imin as int]);
            lemma_bytes_le_total(
                encode_utf8(rest0[imin as int]@),
                encode_utf8(rest0[imin as int]@),
            );
            assert forall|k: int, j2: int|
                0 <= k < out@.len() && 0 <= j2 < rest@.len() implies spec_name_le(
                out@[k]@,
                rest@[j2]@,
            ) by {
                assert(rest@[j2] == rest0[if j2 < imin as int {
                    j2
                } else {
                    j2 + 1
                }]);
            }
        }
    }
    out
}

} // verus!
