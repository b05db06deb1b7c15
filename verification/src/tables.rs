//! Keyed row tables for per-skill and per-target aggregation.
//!
//! Each table is a vector of rows with unique keys. The operations keep the
//! keys unique and move the column sums by exactly the applied delta, which
//! is what the entity-level invariants (category total equals the sum of its
//! rows) rest on.

use vstd::prelude::*;

use crate::stats::{CombatStats, spec_stats_after_hit, spec_stats_fits, spec_stats_zero};
use crate::sums::{lemma_sum_elem_le, lemma_sum_nonneg, lemma_sum_push, lemma_sum_update, sum_ints};

verus! {

/// One per-skill row: cumulative counters for a single skill id.
#[derive(Debug, Clone, Copy, PartialEq, Eq, Structural)]
pub struct Skill {
    /// The skill id this row aggregates.
    pub skill_id: i64,
    /// Cumulative counters for this skill.
    pub stats: CombatStats,
}

/// One per-target row: cumulative value dealt to a single target.
#[derive(Debug, Clone, Copy, PartialEq, Eq, Structural)]
pub struct TargetTotal {
    /// The target entity id.
    pub target_id: i64,
    /// Total value dealt to this target.
    pub total: u128,
}

/// One per-(skill, target) row, with the target's monster name captured at
/// first observation.
#[derive(Debug, Clone, PartialEq, Eq)]
pub struct SkillTargetStats {
    /// The skill id.
    pub skill_id: i64,
    /// The target entity id.
    pub target_id: i64,
    /// Monster name of the target, captured the first time one was seen.
    pub monster_name: Option<String>,
    /// Cumulative counters for this (skill, target) pair.
    pub stats: CombatStats,
}

/// Internal consistency of one counter record: the crit and lucky splits
/// never exceed the overall counters.
pub open spec fn spec_stats_internal_wf(s: CombatStats) -> bool {
    &&& s.crit_hits <= s.hits
    &&& s.lucky_hits <= s.hits
    &&& s.crit_total <= s.total
    &&& s.lucky_total <= s.total
    &&& (s.hits == 0 ==> s.total == 0)
}

/// `spec_stats_internal_wf` is preserved by recording a hit.
pub proof fn lemma_stats_after_hit_internal_wf(s: CombatStats, value: u128, crit: bool, lucky: bool)
    requires
        spec_stats_internal_wf(s),
        spec_stats_fits(s, value),
    ensures
        spec_stats_internal_wf(spec_stats_after_hit(s, value, crit, lucky)),
{
}

// ---------------------------------------------------------------------------
// Skill table
// ---------------------------------------------------------------------------

/// No two rows share a skill id.
pub open spec fn skill_ids_unique(s: Seq<Skill>) -> bool {
    forall|i: int, j: int| 0 <= i < j < s.len() ==> s[i].skill_id != s[j].skill_id
}

/// Every row's counters are internally consistent.
pub open spec fn skills_internal_wf(s: Seq<Skill>) -> bool {
    forall|i: int| 0 <= i < s.len() ==> spec_stats_internal_wf(#[trigger] s[i].stats)
}

/// The counters stored for `skill_id`, or `None` when no row exists.
pub open spec fn find_skill(s: Seq<Skill>, skill_id: i64) -> Option<CombatStats>
    decreases s.len(),
{
    if s.len() == 0 {
        None
    } else if s[0].skill_id == skill_id {
        Some(s[0].stats)
    } else {
        find_skill(s.drop_first(), skill_id)
    }
}

/// The stored counters for `skill_id`, or the zero record when absent.
pub open spec fn skill_row_or_zero(s: Seq<Skill>, skill_id: i64) -> CombatStats {
    match find_skill(s, skill_id) {
        Some(st) => st,
        None => spec_stats_zero(),
    }
}

/// The column of `total` values, as mathematical integers.
pub open spec fn skill_totals(s: Seq<Skill>) -> Seq<int> {
    s.map_values(|k: Skill| k.stats.total as int)
}

/// The column of `hits` values, as mathematical integers.
pub open spec fn skill_hits(s: Seq<Skill>) -> Seq<int> {
    s.map_values(|k: Skill| k.stats.hits as int)
}

/// When a row for `skill_id` exists, it stands at some index.
proof fn lemma_find_skill_index(s: Seq<Skill>, skill_id: i64)
    requires
        find_skill(s, skill_id) is Some,
    ensures
        exists|i: int|
            0 <= i < s.len() && #[trigger] s[i].skill_id == skill_id && s[i].stats == find_skill(
                s,
                skill_id,
            )->Some_0,
    decreases s.len(),
{
    if s.len() > 0 && s[0].skill_id != skill_id {
        lemma_find_skill_index(s.drop_first(), skill_id);
        let j = choose|j: int|
            0 <= j < s.drop_first().len() && #[trigger] s.drop_first()[j].skill_id == skill_id
                && s.drop_first()[j].stats == find_skill(s.drop_first(), skill_id)->Some_0;
        assert(s[j + 1].skill_id == skill_id);
    }
}

/// With unique ids, the row found for `skill_id` is the row at any index
/// whose id matches.
proof fn lemma_find_skill_at(s: Seq<Skill>, i: int)
    requires
        skill_ids_unique(s),
        0 <= i < s.len(),
    ensures
        find_skill(s, s[i].skill_id) == Some(s[i].stats),
    decreases s.len(),
{
    if i > 0 {
        assert(s[0].skill_id != s[i].skill_id);
        lemma_find_skill_at(s.drop_first(), i - 1);
    }
}

/// Lookups for other ids are unchanged by an update at index `i`.
proof fn lemma_find_skill_update(s: Seq<Skill>, i: int, row: Skill, skill_id: i64)
    requires
        0 <= i < s.len(),
        s[i].skill_id == row.skill_id,
        skill_id != row.skill_id,
    ensures
        find_skill(s.update(i, row), skill_id) == find_skill(s, skill_id),
    decreases s.len(),
{
    if s.len() > 0 {
        if i == 0 {
            assert(s.update(0, row).drop_first() =~= s.drop_first());
        } else {
            assert(s.update(i, row).drop_first() =~= s.drop_first().update(i - 1, row));
            lemma_find_skill_update(s.drop_first(), i - 1, row, skill_id);
        }
    }
}

/// Lookups in a table extended by a fresh row: the new id is found, others
/// are as before.
proof fn lemma_find_skill_push(s: Seq<Skill>, row: Skill, skill_id: i64)
    requires
        find_skill(s, row.skill_id) is None,
    ensures
        find_skill(s.push(row), row.skill_id) == Some(row.stats),
        skill_id != row.skill_id ==> find_skill(s.push(row), skill_id) == find_skill(s, skill_id),
    decreases s.len(),
{
    if s.len() == 0 {
        assert(s.push(row)[0] == row);
        assert(s.push(row).drop_first() =~= Seq::<Skill>::empty());
        assert(find_skill(s.push(row).drop_first(), skill_id) is None);
    } else {
        assert(s.push(row)[0] == s[0]);
        assert(s.push(row).drop_first() =~= s.drop_first().push(row));
        lemma_find_skill_push(s.drop_first(), row, skill_id);
    }
}

/// An absent id means no row carries it.
proof fn lemma_find_skill_none(s: Seq<Skill>, skill_id: i64)
    requires
        find_skill(s, skill_id) is None,
    ensures
        forall|i: int| 0 <= i < s.len() ==> s[i].skill_id != skill_id,
    decreases s.len(),
{
    if s.len() > 0 {
        lemma_find_skill_none(s.drop_first(), skill_id);
        assert forall|i: int| 0 <= i < s.len() implies s[i].skill_id != skill_id by {
            if i > 0 {
                assert(s.drop_first()[i - 1].skill_id != skill_id);
            }
        }
    }
}

/// In a table whose ids are unique and whose rows are internally consistent,
/// the row stored for an id contributes to the column sums, so one more hit
/// on that row fits whenever it fits in a record bounding the sums.
pub proof fn lemma_skill_row_fits(s: Seq<Skill>, skill_id: i64, cap: CombatStats, value: u128)
    requires
        skill_ids_unique(s),
        skills_internal_wf(s),
        cap.total == sum_ints(skill_totals(s)),
        cap.hits == sum_ints(skill_hits(s)),
        spec_stats_fits(cap, value),
    ensures
        spec_stats_fits(skill_row_or_zero(s, skill_id), value),
{
    if find_skill(s, skill_id) is Some {
        lemma_find_skill_index(s, skill_id);
        let i = choose|i: int|
            0 <= i < s.len() && #[trigger] s[i].skill_id == skill_id && s[i].stats == find_skill(
                s,
                skill_id,
            )->Some_0;
        assert(forall|j: int| 0 <= j < s.len() ==> skill_totals(s)[j] >= 0);
        assert(forall|j: int| 0 <= j < s.len() ==> skill_hits(s)[j] >= 0);
        lemma_sum_elem_le(skill_totals(s), i);
        lemma_sum_elem_le(skill_hits(s), i);
        assert(s[i].stats.total <= cap.total);
        assert(s[i].stats.hits <= cap.hits);
    }
}

/// Record one hit of `value` against the row for `skill_id`, creating the
/// row when absent. Keys stay unique; the `total` column sum grows by the
/// value and the `hits` column sum by one; no other row changes.
pub fn upsert_skill_hit(v: &mut Vec<Skill>, skill_id: i64, value: u128, crit: bool, lucky: bool)
    requires
        skill_ids_unique(old(v)@),
        skills_internal_wf(old(v)@),
        spec_stats_fits(skill_row_or_zero(old(v)@, skill_id), value),
    ensures
        skill_ids_unique(final(v)@),
        skills_internal_wf(final(v)@),
        find_skill(final(v)@, skill_id) == Some(
            spec_stats_after_hit(skill_row_or_zero(old(v)@, skill_id), value, crit, lucky),
        ),
        forall|id: i64| id != skill_id ==> find_skill(final(v)@, id) == find_skill(old(v)@, id),
        sum_ints(skill_totals(final(v)@)) == sum_ints(skill_totals(old(v)@)) + value,
        sum_ints(skill_hits(final(v)@)) == sum_ints(skill_hits(old(v)@)) + 1,
    decreases 0int,
{
    let ghost s0 = v@;
    let n: usize = v.len();
    let mut i: usize = 0;
    while i < n
        invariant
            n == v.len(),
            v@ == s0,
            s0 == old(v)@,
            0 <= i <= n,
            skill_ids_unique(s0),
            skills_internal_wf(s0),
            spec_stats_fits(skill_row_or_zero(s0, skill_id), value),
            forall|j: int| 0 <= j < i ==> s0[j].skill_id != skill_id,
        decreases n - i,
    {
        if v[i].skill_id == skill_id {
            proof {
                lemma_find_skill_at(s0, i as int);
            }
            let st = v[i].stats;
            let mut new_stats = st;
            new_stats.apply_hit(value, crit, lucky);
            let row = Skill { skill_id, stats: new_stats };
            v[i] = row;
            proof {
                let s1 = s0.update(i as int, row);
                assert(v@ == s1);
                assert(forall|j: int| 0 <= j < s1.len() ==> s1[j].skill_id == s0[j].skill_id);
                assert(skill_ids_unique(s1));
                lemma_stats_after_hit_internal_wf(st, value, crit, lucky);
                assert forall|j: int| 0 <= j < s1.len() implies spec_stats_internal_wf(
                    #[trigger] s1[j].stats,
                ) by {
                    if j != i as int {
                        assert(s1[j].stats == s0[j].stats);
                    }
                }
                lemma_find_skill_at(s1, i as int);
                assert forall|id: i64| id != skill_id implies find_skill(s1, id) == find_skill(
                    s0,
                    id,
                ) by {
                    lemma_find_skill_update(s0, i as int, row, id);
                }
                assert(skill_totals(s1) =~= skill_totals(s0).update(
                    i as int,
                    row.stats.total as int,
                ));
                assert(skill_hits(s1) =~= skill_hits(s0).update(i as int, row.stats.hits as int));
                lemma_sum_update(skill_totals(s0), i as int, row.stats.total as int);
                lemma_sum_update(skill_hits(s0), i as int, row.stats.hits as int);
            }
            return ;
        }
        i = i + 1;
    }
    proof {
        if find_skill(s0, skill_id) is Some {
            lemma_find_skill_index(s0, skill_id);
        }
        assert(find_skill(s0, skill_id) is None);
    }
    let mut st = CombatStats::new();
    st.apply_hit(value, crit, lucky);
    let row = Skill { skill_id, stats: st };
    v.push(row);
    proof {
        let s1 = s0.push(row);
        assert(v@ == s1);
        lemma_find_skill_none(s0, skill_id);
        assert(forall|j: int| 0 <= j < s0.len() ==> s1[j] == s0[j]);
        assert(s1[s0.len() as int] == row);
        assert(skill_ids_unique(s1));
        lemma_stats_after_hit_internal_wf(spec_stats_zero(), value, crit, lucky);
        assert forall|j: int| 0 <= j < s1.len() implies spec_stats_internal_wf(
            #[trigger] s1[j].stats,
        ) by {
            if j < s0.len() {
                assert(s1[j].stats == s0[j].stats);
            }
        }
        assert forall|id: i64| id != skill_id implies find_skill(s1, id) == find_skill(
            s0,
            id,
        ) by {
            lemma_find_skill_push(s0, row, id);
        }
        lemma_find_skill_push(s0, row, skill_id);
        assert(skill_totals(s1) =~= skill_totals(s0).push(row.stats.total as int));
        assert(skill_hits(s1) =~= skill_hits(s0).push(row.stats.hits as int));
        lemma_sum_push(skill_totals(s0), row.stats.total as int);
        lemma_sum_push(skill_hits(s0), row.stats.hits as int);
    }
}

} // verus!

verus! {

// ---------------------------------------------------------------------------
// Per-target totals
// ---------------------------------------------------------------------------

/// No two rows share a target id.
pub open spec fn target_ids_unique(s: Seq<TargetTotal>) -> bool {
    forall|i: int, j: int| 0 <= i < j < s.len() ==> s[i].target_id != s[j].target_id
}

/// The total stored for `target_id`, or `None` when no row exists.
pub open spec fn find_target(s: Seq<TargetTotal>, target_id: i64) -> Option<u128>
    decreases s.len(),
{
    if s.len() == 0 {
        None
    } else if s[0].target_id == target_id {
        Some(s[0].total)
    } else {
        find_target(s.drop_first(), target_id)
    }
}

/// The stored total for `target_id`, or zero when absent.
pub open spec fn target_or_zero(s: Seq<TargetTotal>, target_id: i64) -> u128 {
    match find_target(s, target_id) {
        Some(t) => t,
        None => 0,
    }
}

/// The column of totals, as mathematical integers.
pub open spec fn target_totals(s: Seq<TargetTotal>) -> Seq<int> {
    s.map_values(|t: TargetTotal| t.total as int)
}

/// When a row for `target_id` exists, it stands at some index.
proof fn lemma_find_target_index(s: Seq<TargetTotal>, target_id: i64)
    requires
        find_target(s, target_id) is Some,
    ensures
        exists|i: int|
            0 <= i < s.len() && #[trigger] s[i].target_id == target_id && s[i].total == find_target(
                s,
                target_id,
            )->Some_0,
    decreases s.len(),
{
    if s.len() > 0 && s[0].target_id != target_id {
        lemma_find_target_index(s.drop_first(), target_id);
        let j = choose|j: int|
            0 <= j < s.drop_first().len() && #[trigger] s.drop_first()[j].target_id == target_id
                && s.drop_first()[j].total == find_target(s.drop_first(), target_id)->Some_0;
        assert(s[j + 1].target_id == target_id);
    }
}

/// With unique ids, the row found for an id is the row at any matching index.
proof fn lemma_find_target_at(s: Seq<TargetTotal>, i: int)
    requires
        target_ids_unique(s),
        0 <= i < s.len(),
    ensures
        find_target(s, s[i].target_id) == Some(s[i].total),
    decreases s.len(),
{
    if i > 0 {
        assert(s[0].target_id != s[i].target_id);
        lemma_find_target_at(s.drop_first(), i - 1);
    }
}

/// Lookups for other ids are unchanged by an update at index `i`.
proof fn lemma_find_target_update(s: Seq<TargetTotal>, i: int, row: TargetTotal, target_id: i64)
    requires
        0 <= i < s.len(),
        s[i].target_id == row.target_id,
        target_id != row.target_id,
    ensures
        find_target(s.update(i, row), target_id) == find_target(s, target_id),
    decreases s.len(),
{
    if s.len() > 0 {
        if i == 0 {
            assert(s.update(0, row).drop_first() =~= s.drop_first());
        } else {
            assert(s.update(i, row).drop_first() =~= s.drop_first().update(i - 1, row));
            lemma_find_target_update(s.drop_first(), i - 1, row, target_id);
        }
    }
}

/// Lookups in a table extended by a fresh row.
proof fn lemma_find_target_push(s: Seq<TargetTotal>, row: TargetTotal, target_id: i64)
    requires
        find_target(s, row.target_id) is None,
    ensures
        find_target(s.push(row), row.target_id) == Some(row.total),
        target_id != row.target_id ==> find_target(s.push(row), target_id) == find_target(
            s,
            target_id,
        ),
    decreases s.len(),
{
    if s.len() == 0 {
        assert(s.push(row)[0] == row);
        assert(s.push(row).drop_first() =~= Seq::<TargetTotal>::empty());
        assert(find_target(s.push(row).drop_first(), target_id) is None);
    } else {
        assert(s.push(row)[0] == s[0]);
        assert(s.push(row).drop_first() =~= s.drop_first().push(row));
        lemma_find_target_push(s.drop_first(), row, target_id);
    }
}

/// An absent id means no row carries it.
proof fn lemma_find_target_none(s: Seq<TargetTotal>, target_id: i64)
    requires
        find_target(s, target_id) is None,
    ensures
        forall|i: int| 0 <= i < s.len() ==> s[i].target_id != target_id,
    decreases s.len(),
{
    if s.len() > 0 {
        lemma_find_target_none(s.drop_first(), target_id);
        assert forall|i: int| 0 <= i < s.len() implies s[i].target_id != target_id by {
            if i > 0 {
                assert(s.drop_first()[i - 1].target_id != target_id);
            }
        }
    }
}

/// In a table with unique ids whose totals sum to at most `cap`, one more
/// `value` on the row for an id fits whenever `cap + value` fits.
pub proof fn lemma_target_row_fits(s: Seq<TargetTotal>, target_id: i64, cap: u128, value: u128)
    requires
        target_ids_unique(s),
        cap == sum_ints(target_totals(s)),
        cap + value <= u128::MAX,
    ensures
        target_or_zero(s, target_id) + value <= u128::MAX,
{
    if find_target(s, target_id) is Some {
        lemma_find_target_index(s, target_id);
        let i = choose|i: int|
            0 <= i < s.len() && #[trigger] s[i].target_id == target_id && s[i].total == find_target(
                s,
                target_id,
            )->Some_0;
        assert(forall|j: int| 0 <= j < s.len() ==> target_totals(s)[j] >= 0);
        lemma_sum_elem_le(target_totals(s), i);
    }
}

/// Add `value` to the row for `target_id`, creating the row when absent.
pub fn upsert_target_value(v: &mut Vec<TargetTotal>, target_id: i64, value: u128)
    requires
        target_ids_unique(old(v)@),
        target_or_zero(old(v)@, target_id) + value <= u128::MAX,
    ensures
        target_ids_unique(final(v)@),
        find_target(final(v)@, target_id) == Some(
            (target_or_zero(old(v)@, target_id) + value) as u128,
        ),
        forall|id: i64| id != target_id ==> find_target(final(v)@, id) == find_target(old(v)@, id),
        sum_ints(target_totals(final(v)@)) == sum_ints(target_totals(old(v)@)) + value,
{
    let ghost s0 = v@;
    let n: usize = v.len();
    let mut i: usize = 0;
    while i < n
        invariant
            n == v.len(),
            v@ == s0,
            s0 == old(v)@,
            0 <= i <= n,
            target_ids_unique(s0),
            target_or_zero(s0, target_id) + value <= u128::MAX,
            forall|j: int| 0 <= j < i ==> s0[j].target_id != target_id,
        decreases n - i,
    {
        if v[i].target_id == target_id {
            proof {
                lemma_find_target_at(s0, i as int);
            }
            let row = TargetTotal { target_id, total: v[i].total + value };
            v[i] = row;
            proof {
                let s1 = s0.update(i as int, row);
                assert(v@ == s1);
                assert(forall|j: int| 0 <= j < s1.len() ==> s1[j].target_id == s0[j].target_id);
                assert(target_ids_unique(s1));
                lemma_find_target_at(s1, i as int);
                assert forall|id: i64| id != target_id implies find_target(s1, id) == find_target(
                    s0,
                    id,
                ) by {
                    lemma_find_target_update(s0, i as int, row, id);
                }
                assert(target_totals(s1) =~= target_totals(s0).update(i as int, row.total as int));
                lemma_sum_update(target_totals(s0), i as int, row.total as int);
            }
            return ;
        }
        i = i + 1;
    }
    proof {
        if find_target(s0, target_id) is Some {
            lemma_find_target_index(s0, target_id);
        }
        assert(find_target(s0, target_id) is None);
    }
    let row = TargetTotal { target_id, total: value };
    v.push(row);
    proof {
        let s1 = s0.push(row);
        assert(v@ == s1);
        lemma_find_target_none(s0, target_id);
        assert(forall|j: int| 0 <= j < s0.len() ==> s1[j] == s0[j]);
        assert(s1[s0.len() as int] == row);
        assert(target_ids_unique(s1));
        assert forall|id: i64| id != target_id implies find_target(s1, id) == find_target(
            s0,
            id,
        ) by {
            lemma_find_target_push(s0, row, id);
        }
        lemma_find_target_push(s0, row, target_id);
        assert(target_totals(s1) =~= target_totals(s0).push(row.total as int));
        lemma_sum_push(target_totals(s0), row.total as int);
    }
}

} // verus!

verus! {

// ---------------------------------------------------------------------------
// Per-(skill, target) rows
// ---------------------------------------------------------------------------

/// No two rows share a (skill, target) key.
pub open spec fn st_keys_unique(s: Seq<SkillTargetStats>) -> bool {
    forall|i: int, j: int|
        0 <= i < j < s.len() ==> !(s[i].skill_id == s[j].skill_id && s[i].target_id
            == s[j].target_id)
}

/// Every row's counters are internally consistent.
pub open spec fn st_internal_wf(s: Seq<SkillTargetStats>) -> bool {
    forall|i: int| 0 <= i < s.len() ==> spec_stats_internal_wf(#[trigger] s[i].stats)
}

/// The row stored for `(skill_id, target_id)`, or `None` when absent.
pub open spec fn find_st(s: Seq<SkillTargetStats>, skill_id: i64, target_id: i64) -> Option<
    SkillTargetStats,
>
    decreases s.len(),
{
    if s.len() == 0 {
        None
    } else if s[0].skill_id == skill_id && s[0].target_id == target_id {
        Some(s[0])
    } else {
        find_st(s.drop_first(), skill_id, target_id)
    }
}

/// The stored counters for the key, or the zero record when absent.
pub open spec fn st_row_or_zero(s: Seq<SkillTargetStats>, skill_id: i64, target_id: i64) -> CombatStats {
    match find_st(s, skill_id, target_id) {
        Some(row) => row.stats,
        None => spec_stats_zero(),
    }
}

/// The monster name a hit with `provided` leaves on the row: an already
/// captured name is kept, otherwise the provided one is taken.
pub open spec fn st_name_after(s: Seq<SkillTargetStats>, skill_id: i64, target_id: i64, provided: Option<Seq<char>>) -> Option<Seq<char>> {
    match find_st(s, skill_id, target_id) {
        Some(row) => match row.monster_name {
            Some(n) => Some(n@),
            None => provided,
        },
        None => provided,
    }
}

/// The column of totals, as mathematical integers.
pub open spec fn st_totals(s: Seq<SkillTargetStats>) -> Seq<int> {
    s.map_values(|t: SkillTargetStats| t.stats.total as int)
}

/// The column of hit counts, as mathematical integers.
pub open spec fn st_hits(s: Seq<SkillTargetStats>) -> Seq<int> {
    s.map_values(|t: SkillTargetStats| t.stats.hits as int)
}

/// View of an optional string.
pub open spec fn opt_name_view(n: Option<String>) -> Option<Seq<char>> {
    match n {
        Some(x) => Some(x@),
        None => None,
    }
}

/// When a row for the key exists, it stands at some index.
proof fn lemma_find_st_index(s: Seq<SkillTargetStats>, skill_id: i64, target_id: i64)
    requires
        find_st(s, skill_id, target_id) is Some,
    ensures
        exists|i: int|
            0 <= i < s.len() && (#[trigger] s[i]).skill_id == skill_id && s[i].target_id
                == target_id && s[i] == find_st(s, skill_id, target_id)->Some_0,
    decreases s.len(),
{
    if s.len() > 0 && !(s[0].skill_id == skill_id && s[0].target_id == target_id) {
        lemma_find_st_index(s.drop_first(), skill_id, target_id);
        let j = choose|j: int|
            0 <= j < s.drop_first().len() && (#[trigger] s.drop_first()[j]).skill_id == skill_id
                && s.drop_first()[j].target_id == target_id && s.drop_first()[j] == find_st(
                s.drop_first(),
                skill_id,
                target_id,
            )->Some_0;
        assert(s[j + 1] == s.drop_first()[j]);
    }
}

/// With unique keys, the row found for a key is the row at any matching index.
proof fn lemma_find_st_at(s: Seq<SkillTargetStats>, i: int)
    requires
        st_keys_unique(s),
        0 <= i < s.len(),
    ensures
        find_st(s, s[i].skill_id, s[i].target_id) == Some(s[i]),
    decreases s.len(),
{
    if i > 0 {
        assert(!(s[0].skill_id == s[i].skill_id && s[0].target_id == s[i].target_id));
        lemma_find_st_at(s.drop_first(), i - 1);
    }
}

/// Lookups for other keys are unchanged by an update at index `i`.
proof fn lemma_find_st_update(
    s: Seq<SkillTargetStats>,
    i: int,
    row: SkillTargetStats,
    skill_id: i64,
    target_id: i64,
)
    requires
        0 <= i < s.len(),
        s[i].skill_id == row.skill_id,
        s[i].target_id == row.target_id,
        !(skill_id == row.skill_id && target_id == row.target_id),
    ensures
        find_st(s.update(i, row), skill_id, target_id) == find_st(s, skill_id, target_id),
    decreases s.len(),
{
    if s.len() > 0 {
        if i == 0 {
            assert(s.update(0, row).drop_first() =~= s.drop_first());
        } else {
            assert(s.update(i, row).drop_first() =~= s.drop_first().update(i - 1, row));
            lemma_find_st_update(s.drop_first(), i - 1, row, skill_id, target_id);
        }
    }
}

/// Lookups in a table extended by a fresh row.
proof fn lemma_find_st_push(
    s: Seq<SkillTargetStats>,
    row: SkillTargetStats,
    skill_id: i64,
    target_id: i64,
)
    requires
        find_st(s, row.skill_id, row.target_id) is None,
    ensures
        find_st(s.push(row), row.skill_id, row.target_id) == Some(row),
        !(skill_id == row.skill_id && target_id == row.target_id) ==> find_st(
            s.push(row),
            skill_id,
            target_id,
        ) == find_st(s, skill_id, target_id),
    decreases s.len(),
{
    if s.len() == 0 {
        assert(s.push(row)[0] == row);
        assert(s.push(row).drop_first() =~= Seq::<SkillTargetStats>::empty());
        assert(find_st(s.push(row).drop_first(), skill_id, target_id) is None);
    } else {
        assert(s.push(row)[0] == s[0]);
        assert(s.push(row).drop_first() =~= s.drop_first().push(row));
        lemma_find_st_push(s.drop_first(), row, skill_id, target_id);
    }
}

/// An absent key means no row carries it.
proof fn lemma_find_st_none(s: Seq<SkillTargetStats>, skill_id: i64, target_id: i64)
    requires
        find_st(s, skill_id, target_id) is None,
    ensures
        forall|i: int|
            0 <= i < s.len() ==> !((#[trigger] s[i]).skill_id == skill_id && s[i].target_id
                == target_id),
    decreases s.len(),
{
    if s.len() > 0 {
        lemma_find_st_none(s.drop_first(), skill_id, target_id);
        assert forall|i: int|
            0 <= i < s.len() implies !((#[trigger] s[i]).skill_id == skill_id && s[i].target_id
            == target_id) by {
            if i > 0 {
                assert(s[i] == s.drop_first()[i - 1]);
            }
        }
    }
}

/// One more hit on the row for a key fits whenever the bounding sums fit.
pub proof fn lemma_st_row_fits(
    s: Seq<SkillTargetStats>,
    skill_id: i64,
    target_id: i64,
    cap: CombatStats,
    value: u128,
)
    requires
        st_keys_unique(s),
        st_internal_wf(s),
        cap.total == sum_ints(st_totals(s)),
        cap.hits == sum_ints(st_hits(s)),
        spec_stats_fits(cap, value),
    ensures
        spec_stats_fits(st_row_or_zero(s, skill_id, target_id), value),
{
    if find_st(s, skill_id, target_id) is Some {
        lemma_find_st_index(s, skill_id, target_id);
        let i = choose|i: int|
            0 <= i < s.len() && (#[trigger] s[i]).skill_id == skill_id && s[i].target_id
                == target_id && s[i] == find_st(s, skill_id, target_id)->Some_0;
        assert(forall|j: int| 0 <= j < s.len() ==> st_totals(s)[j] >= 0);
        assert(forall|j: int| 0 <= j < s.len() ==> st_hits(s)[j] >= 0);
        lemma_sum_elem_le(st_totals(s), i);
        lemma_sum_elem_le(st_hits(s), i);
        assert(s[i].stats.total <= cap.total);
        assert(s[i].stats.hits <= cap.hits);
        assert(spec_stats_internal_wf(s[i].stats));
    }
}

/// Record one hit of `value` against the row for `(skill_id, target_id)`,
/// creating the row when absent; a monster name is captured on first sight.
pub fn upsert_st_hit(
    v: &mut Vec<SkillTargetStats>,
    skill_id: i64,
    target_id: i64,
    monster_name: Option<String>,
    value: u128,
    crit: bool,
    lucky: bool,
)
    requires
        st_keys_unique(old(v)@),
        st_internal_wf(old(v)@),
        spec_stats_fits(st_row_or_zero(old(v)@, skill_id, target_id), value),
    ensures
        st_keys_unique(final(v)@),
        st_internal_wf(final(v)@),
        ({
            let row = find_st(final(v)@, skill_id, target_id);
            &&& row is Some
            &&& row->Some_0.skill_id == skill_id
            &&& row->Some_0.target_id == target_id
            &&& row->Some_0.stats == spec_stats_after_hit(
                st_row_or_zero(old(v)@, skill_id, target_id),
                value,
                crit,
                lucky,
            )
            &&& opt_name_view(row->Some_0.monster_name) == st_name_after(
                old(v)@,
                skill_id,
                target_id,
                opt_name_view(monster_name),
            )
        }),
        forall|sid: i64, tid: i64|
            !(sid == skill_id && tid == target_id) ==> find_st(final(v)@, sid, tid) == find_st(
                old(v)@,
                sid,
                tid,
            ),
        sum_ints(st_totals(final(v)@)) == sum_ints(st_totals(old(v)@)) + value,
        sum_ints(st_hits(final(v)@)) == sum_ints(st_hits(old(v)@)) + 1,
{
    let ghost s0 = v@;
    let n: usize = v.len();
    let mut i: usize = 0;
    while i < n
        invariant
            n == v.len(),
            v@ == s0,
            s0 == old(v)@,
            0 <= i <= n,
            st_keys_unique(s0),
            st_internal_wf(s0),
            spec_stats_fits(st_row_or_zero(s0, skill_id, target_id), value),
            forall|j: int|
                0 <= j < i ==> !((#[trigger] s0[j]).skill_id == skill_id && s0[j].target_id
                    == target_id),
        decreases n - i,
    {
        if v[i].skill_id == skill_id && v[i].target_id == target_id {
            proof {
                lemma_find_st_at(s0, i as int);
            }
            let st = v[i].stats;
            let mut new_stats = st;
            new_stats.apply_hit(value, crit, lucky);
            let kept_name: Option<String> = match &v[i].monster_name {
                Some(n) => Some(n.clone()),
                None => monster_name,
            };
            let row = SkillTargetStats {
                skill_id,
                target_id,
                monster_name: kept_name,
                stats: new_stats,
            };
            v[i] = row;
            proof {
                let s1 = s0.update(i as int, row);
                assert(v@ == s1);
                assert(forall|j: int|
                    0 <= j < s1.len() ==> (#[trigger] s1[j]).skill_id == s0[j].skill_id
                        && s1[j].target_id == s0[j].target_id);
                assert(st_keys_unique(s1));
                lemma_stats_after_hit_internal_wf(st, value, crit, lucky);
                assert forall|j: int| 0 <= j < s1.len() implies spec_stats_internal_wf(
                    #[trigger] s1[j].stats,
                ) by {
                    if j != i as int {
                        assert(s1[j].stats == s0[j].stats);
                    }
                }
                lemma_find_st_at(s1, i as int);
                assert forall|sid: i64, tid: i64|
                    !(sid == skill_id && tid == target_id) implies find_st(s1, sid, tid) == find_st(
                    s0,
                    sid,
                    tid,
                ) by {
                    lemma_find_st_update(s0, i as int, row, sid, tid);
                }
                assert(st_totals(s1) =~= st_totals(s0).update(i as int, row.stats.total as int));
                lemma_sum_update(st_totals(s0), i as int, row.stats.total as int);
                assert(st_hits(s1) =~= st_hits(s0).update(i as int, row.stats.hits as int));
                lemma_sum_update(st_hits(s0), i as int, row.stats.hits as int);
            }
            return ;
        }
        i = i + 1;
    }
    proof {
        if find_st(s0, skill_id, target_id) is Some {
            lemma_find_st_index(s0, skill_id, target_id);
        }
        assert(find_st(s0, skill_id, target_id) is None);
    }
    let mut st = CombatStats::new();
    st.apply_hit(value, crit, lucky);
    let row = SkillTargetStats { skill_id, target_id, monster_name, stats: st };
    v.push(row);
    proof {
        let s1 = s0.push(row);
        assert(v@ == s1);
        lemma_find_st_none(s0, skill_id, target_id);
        assert(forall|j: int| 0 <= j < s0.len() ==> s1[j] == s0[j]);
        assert(s1[s0.len() as int] == row);
        assert(st_keys_unique(s1));
        lemma_stats_after_hit_internal_wf(spec_stats_zero(), value, crit, lucky);
        assert forall|j: int| 0 <= j < s1.len() implies spec_stats_internal_wf(
            #[trigger] s1[j].stats,
        ) by {
            if j < s0.len() {
                assert(s1[j].stats == s0[j].stats);
            }
        }
        assert forall|sid: i64, tid: i64|
            !(sid == skill_id && tid == target_id) implies find_st(s1, sid, tid) == find_st(
            s0,
            sid,
            tid,
        ) by {
            lemma_find_st_push(s0, row, sid, tid);
        }
        lemma_find_st_push(s0, row, skill_id, target_id);
        assert(st_totals(s1) =~= st_totals(s0).push(row.stats.total as int));
        lemma_sum_push(st_totals(s0), row.stats.total as int);
        assert(st_hits(s1) =~= st_hits(s0).push(row.stats.hits as int));
        lemma_sum_push(st_hits(s0), row.stats.hits as int);
    }
}

} // verus!

verus! {

/// Public form of the unique-key lookup fact: in a table with unique ids,
/// the row at any index is the one found under its id.
pub proof fn lemma_find_skill_at_pub(s: Seq<Skill>, i: int)
    requires
        skill_ids_unique(s),
        0 <= i < s.len(),
    ensures
        find_skill(s, s[i].skill_id) == Some(s[i].stats),
{
    lemma_find_skill_at(s, i);
}

} // verus!
