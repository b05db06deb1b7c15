//! Effective skill cooldowns: base duration reduced by a fixed amount, a
//! percentage, per-skill temporary modifiers, and an acceleration rate, all
//! in per-10,000 integer units and integer milliseconds.

use vstd::prelude::*;

verus! {

/// One per-10,000 unit: percentages on the wire are given in this scale.
pub const PER_TEN_K: i64 = 10000;

/// A temporary attribute value keyed by its id.
#[derive(Debug, Clone, Copy, PartialEq, Eq, Structural)]
pub struct TempAttr {
    /// The temporary attribute id.
    pub id: i32,
    /// Its current value.
    pub value: i32,
}

/// No two entries share an id.
pub open spec fn temp_ids_unique(s: Seq<TempAttr>) -> bool {
    forall|i: int, j: int| 0 <= i < j < s.len() ==> s[i].id != s[j].id
}

/// The value stored for id, or `None` when absent.
pub open spec fn find_temp(s: Seq<TempAttr>, id: i32) -> Option<i32>
    decreases s.len(),
{
    if s.len() == 0 {
        None
    } else if s[0].id == id {
        Some(s[0].value)
    } else {
        find_temp(s.drop_first(), id)
    }
}

/// The sparse map of temporary attribute values.
#[derive(Debug, Clone, PartialEq, Eq)]
pub struct TempAttrs {
    /// The entries, with unique ids.
    pub entries: Vec<TempAttr>,
}

/// The mathematical content of a temporary-attribute store: which value
/// each id holds.
pub open spec fn temp_map_view(s: Seq<TempAttr>) -> Map<int, int> {
    Map::new(
        |id: int| i32::MIN <= id <= i32::MAX && find_temp(s, id as i32) is Some,
        |id: int| find_temp(s, id as i32)->Some_0 as int,
    )
}

impl TempAttrs {
    /// Entries hold unique ids.
    pub open spec fn wf(self) -> bool {
        temp_ids_unique(self.entries@)
    }

    /// The store's content as a map from id to value.
    pub open spec fn view_map(self) -> Map<int, int> {
        temp_map_view(self.entries@)
    }

    /// An empty store.
    pub fn new() -> (r: TempAttrs)
        ensures
            r.wf(),
            r.view_map() == Map::<int, int>::empty(),
    {
        let r = TempAttrs { entries: Vec::new() };
        proof {
            assert(r.view_map() =~= Map::<int, int>::empty());
        }
        r
    }

    /// The value stored for `id`, if any.
    pub fn get(&self, id: i32) -> (r: Option<i32>)
        ensures
            r == find_temp(self.entries@, id),
    {
        let n: usize = self.entries.len();
        let mut i: usize = 0;
        proof {
            assert(self.entries@.skip(0) =~= self.entries@);
        }
        while i < n
            invariant
                n == self.entries@.len(),
                0 <= i <= n,
                find_temp(self.entries@, id) == find_temp(self.entries@.skip(i as int), id),
            decreases n - i,
        {
            proof {
                assert(self.entries@.skip(i as int)[0] == self.entries@[i as int]);
                assert(self.entries@.skip(i as int).drop_first() =~= self.entries@.skip(
                    i as int + 1,
                ));
            }
            if self.entries[i].id == id {
                return Some(self.entries[i].value);
            }
            i = i + 1;
        }
        proof {
            assert(self.entries@.skip(n as int) =~= Seq::<TempAttr>::empty());
        }
        None
    }

    /// Store `value` for `id`, replacing any previous value. The store's
    /// content afterwards is the old content with this binding inserted.
    pub fn set(&mut self, id: i32, value: i32)
        requires
            old(self).wf(),
        ensures
            final(self).wf(),
            find_temp(final(self).entries@, id) == Some(value),
            forall|id2: i32| id2 != id ==> find_temp(final(self).entries@, id2) == find_temp(
                old(self).entries@,
                id2,
            ),
            final(self).view_map() == old(self).view_map().insert(id as int, value as int),
    {
        let ghost s0 = self.entries@;
        let n: usize = self.entries.len();
        let mut i: usize = 0;
        while i < n
            invariant
                n == self.entries@.len(),
                self.entries@ == s0,
                s0 == old(self).entries@,
                temp_ids_unique(s0),
                0 <= i <= n,
                forall|j: int| 0 <= j < i ==> s0[j].id != id,
            decreases n - i,
        {
            if self.entries[i].id == id {
                let row = TempAttr { id, value };
                self.entries[i] = row;
                proof {
                    let s1 = s0.update(i as int, row);
                    assert(self.entries@ == s1);
                    assert(forall|j: int| 0 <= j < s1.len() ==> s1[j].id == s0[j].id);
                    assert(temp_ids_unique(s1));
                    lemma_find_temp_at(s1, i as int);
                    assert forall|id2: i32| id2 != id implies find_temp(s1, id2) == find_temp(
                        s0,
                        id2,
                    ) by {
                        lemma_find_temp_update(s0, i as int, row, id2);
                    }
                    assert(temp_map_view(s1) =~= temp_map_view(s0).insert(id as int, value as int));
                }
                return ;
            }
            i = i + 1;
        }
        let row = TempAttr { id, value };
        self.entries.push(row);
        proof {
            let s1 = s0.push(row);
            assert(self.entries@ == s1);
            lemma_find_temp_none_of(s0, id);
            assert(forall|j: int| 0 <= j < s0.len() ==> s1[j] == s0[j]);
            assert(s1[s0.len() as int] == row);
            assert(temp_ids_unique(s1));
            lemma_find_temp_push(s0, row, id);
            assert forall|id2: i32| id2 != id implies find_temp(s1, id2) == find_temp(s0, id2) by {
                lemma_find_temp_push(s0, row, id2);
            }
            assert(temp_map_view(s1) =~= temp_map_view(s0).insert(id as int, value as int));
        }
    }
}

/// With unique ids, the entry found for an id is the one at any matching
/// index.
proof fn lemma_find_temp_at(s: Seq<TempAttr>, i: int)
    requires
        temp_ids_unique(s),
        0 <= i < s.len(),
    ensures
        find_temp(s, s[i].id) == Some(s[i].value),
    decreases s.len(),
{
    if i > 0 {
        assert(s[0].id != s[i].id);
        lemma_find_temp_at(s.drop_first(), i - 1);
    }
}

/// Lookups for other ids are unchanged by an update at index `i`.
proof fn lemma_find_temp_update(s: Seq<TempAttr>, i: int, row: TempAttr, id: i32)
    requires
        0 <= i < s.len(),
        s[i].id == row.id,
        id != row.id,
    ensures
        find_temp(s.update(i, row), id) == find_temp(s, id),
    decreases s.len(),
{
    if s.len() > 0 {
        if i == 0 {
            assert(s.update(0, row).drop_first() =~= s.drop_first());
        } else {
            assert(s.update(i, row).drop_first() =~= s.drop_first().update(i - 1, row));
            lemma_find_temp_update(s.drop_first(), i - 1, row, id);
        }
    }
}

/// When no entry carries `id`, nothing is found for it.
proof fn lemma_find_temp_none_of(s: Seq<TempAttr>, id: i32)
    requires
        forall|j: int| 0 <= j < s.len() ==> s[j].id != id,
    ensures
        find_temp(s, id) is None,
    decreases s.len(),
{
    if s.len() > 0 {
        lemma_find_temp_none_of(s.drop_first(), id);
    }
}

/// Lookups in a store extended by a fresh entry.
proof fn lemma_find_temp_push(s: Seq<TempAttr>, row: TempAttr, id: i32)
    requires
        find_temp(s, row.id) is None,
    ensures
        find_temp(s.push(row), row.id) == Some(row.value),
        id != row.id ==> find_temp(s.push(row), id) == find_temp(s, id),
    decreases s.len(),
{
    if s.len() == 0 {
        assert(s.push(row)[0] == row);
        assert(s.push(row).drop_first() =~= Seq::<TempAttr>::empty());
        assert(find_temp(s.push(row).drop_first(), id) is None);
    } else {
        assert(s.push(row)[0] == s[0]);
        assert(s.push(row).drop_first() =~= s.drop_first().push(row));
        lemma_find_temp_push(s.drop_first(), row, id);
    }
}

/// The key under which a skill's percentage modifier is stored: the skill
/// id, which is the skill-level id with its two level digits dropped.
pub open spec fn spec_pct_key(skill_level_id: i32) -> int {
    if skill_level_id >= 0 {
        skill_level_id as int / 100
    } else {
        skill_level_id as int
    }
}

/// The per-skill temporary modifiers for a skill-level id: the entry stored
/// under the skill-level id itself adds to the fixed reduction, the entry
/// stored under the skill id ([`spec_pct_key`]) adds to the percentage
/// reduction. Both default to zero.
pub open spec fn spec_skill_temp_mods(m: Map<int, int>, skill_level_id: i32) -> (int, int) {
    let fix = if m.dom().contains(skill_level_id as int) {
        m[skill_level_id as int]
    } else {
        0
    };
    let pct = if m.dom().contains(spec_pct_key(skill_level_id)) {
        m[spec_pct_key(skill_level_id)]
    } else {
        0
    };
    (fix, pct)
}

/// Division by a positive divisor, rounded to the nearest integer
/// (half away from zero), on non-negative operands.
pub open spec fn spec_div_round(num: int, den: int) -> int {
    (num + den / 2) / den
}

/// The effective cooldown in milliseconds and the acceleration rate in
/// per-10,000 units, as a function of the base duration, the three
/// reduction attributes, and the per-skill temporary modifiers taken from
/// the temporary-attribute map:
///
/// 1. the fixed reductions — the attribute plus the per-skill temporary
///    fixed modifier — are subtracted, clamped between zero and the
///    largest representable cooldown;
/// 2. the attribute percentage scales what is left by
///    `(10000 - pct) / 10000`, and the per-skill temporary percentage
///    applies a second such factor multiplicatively; each factor is
///    clamped between 0 and 10;
/// 3. the acceleration divides by `1 + rate`, with the rate clamped so the
///    divisor stays positive;
/// 4. each scaling is rounded to the nearest millisecond.
pub open spec fn spec_skill_cd(
    base_ms: i64,
    skill_level_id: i32,
    m: Map<int, int>,
    attr_skill_cd: i64,
    attr_skill_cd_pct: i64,
    attr_cd_accelerate_pct: i64,
) -> (int, int) {
    let mods = spec_skill_temp_mods(m, skill_level_id);
    let fix_total = attr_skill_cd + mods.0;
    let reduced0 = if base_ms - fix_total <= 0 {
        0
    } else if base_ms - fix_total >= 0x7fff_ffff {
        0x7fff_ffff
    } else {
        base_ms - fix_total
    };
    let scale = if PER_TEN_K - attr_skill_cd_pct <= 0 {
        0
    } else if PER_TEN_K - attr_skill_cd_pct >= 10 * PER_TEN_K {
        10 * PER_TEN_K
    } else {
        PER_TEN_K - attr_skill_cd_pct
    };
    let reduced1 = spec_div_round(reduced0 * scale, PER_TEN_K as int);
    let temp_scale = if PER_TEN_K - mods.1 <= 0 {
        0
    } else if PER_TEN_K - mods.1 >= 10 * PER_TEN_K {
        10 * PER_TEN_K
    } else {
        PER_TEN_K - mods.1
    };
    let reduced2 = spec_div_round(reduced1 * temp_scale, PER_TEN_K as int);
    let rate = if attr_cd_accelerate_pct > -PER_TEN_K {
        attr_cd_accelerate_pct as int
    } else {
        1 - PER_TEN_K
    };
    let final_ms = spec_div_round(reduced2 * PER_TEN_K, PER_TEN_K + rate);
    (final_ms, rate)
}

/// Compute the effective cooldown of a skill.
///
/// Returns the effective duration in milliseconds and the acceleration
/// rate in per-10,000 units, exactly as [`spec_skill_cd`] states them.
pub fn calculate_skill_cd(
    base_ms: i64,
    skill_level_id: i32,
    temp_attrs: &TempAttrs,
    attr_skill_cd: i32,
    attr_skill_cd_pct: i32,
    attr_cd_accelerate_pct: i32,
) -> (r: (i64, i32))
    requires
        temp_attrs.wf(),
        0 <= base_ms <= 0x7fff_ffff,
    ensures
        (r.0 as int, r.1 as int) == spec_skill_cd(
            base_ms,
            skill_level_id,
            temp_attrs.view_map(),
            attr_skill_cd as i64,
            attr_skill_cd_pct as i64,
            attr_cd_accelerate_pct as i64,
        ),
{
    let temp_fix: i64 = match temp_attrs.get(skill_level_id) {
        Some(v) => v as i64,
        None => 0,
    };
    let pct_key: i32 = if skill_level_id >= 0 {
        skill_level_id / 100
    } else {
        skill_level_id
    };
    let temp_pct: i64 = match temp_attrs.get(pct_key) {
        Some(v) => v as i64,
        None => 0,
    };
    proof {
        let m = temp_attrs.view_map();
        assert(m.dom().contains(skill_level_id as int) == (find_temp(
            temp_attrs.entries@,
            skill_level_id,
        ) is Some));
        assert(pct_key as int == spec_pct_key(skill_level_id));
        assert(m.dom().contains(spec_pct_key(skill_level_id)) == (find_temp(
            temp_attrs.entries@,
            pct_key,
        ) is Some));
        assert(spec_skill_temp_mods(m, skill_level_id) == (temp_fix as int, temp_pct as int));
    }
    let fix_total: i64 = attr_skill_cd as i64 + temp_fix;
    let reduced0: i64 = if base_ms - fix_total <= 0 {
        0
    } else if base_ms - fix_total >= 0x7fff_ffff {
        0x7fff_ffff
    } else {
        base_ms - fix_total
    };
    let scale: i64 = if PER_TEN_K - (attr_skill_cd_pct as i64) <= 0 {
        0
    } else if PER_TEN_K - (attr_skill_cd_pct as i64) >= 10 * PER_TEN_K {
        10 * PER_TEN_K
    } else {
        PER_TEN_K - (attr_skill_cd_pct as i64)
    };
    proof {
        assert(0 <= reduced0 * scale && reduced0 * scale <= 214748364700000i64) by (nonlinear_arith)
            requires
                0 <= reduced0,
                reduced0 <= 0x7fff_ffffi64,
                0 <= scale,
                scale <= 100000i64,
        ;
    }
    let reduced1: i64 = (reduced0 * scale + PER_TEN_K / 2) / PER_TEN_K;
    let temp_scale: i64 = if PER_TEN_K - temp_pct <= 0 {
        0
    } else if PER_TEN_K - temp_pct >= 10 * PER_TEN_K {
        10 * PER_TEN_K
    } else {
        PER_TEN_K - temp_pct
    };
    proof {
        assert(0 <= reduced1 && reduced1 <= 21474836471i64);
        assert(0 <= reduced1 * temp_scale && reduced1 * temp_scale
            <= 2147483647100000i64) by (nonlinear_arith)
            requires
                0 <= reduced1,
                reduced1 <= 21474836471i64,
                0 <= temp_scale,
                temp_scale <= 100000i64,
        ;
    }
    let reduced2: i64 = (reduced1 * temp_scale + PER_TEN_K / 2) / PER_TEN_K;
    proof {
        assert(0 <= reduced2 && reduced2 <= 214748364711i64);
        assert(0 <= reduced2 * PER_TEN_K && reduced2 * PER_TEN_K <= 2147483647110000i64)
            by (nonlinear_arith)
            requires
                0 <= reduced2,
                reduced2 <= 214748364711i64,
        ;
    }
    let rate: i64 = if (attr_cd_accelerate_pct as i64) > -PER_TEN_K {
        attr_cd_accelerate_pct as i64
    } else {
        1 - PER_TEN_K
    };
    let den: i64 = PER_TEN_K + rate;
    let final_ms: i64 = (reduced2 * PER_TEN_K + den / 2) / den;
    (final_ms, rate as i32)
}

/// The cooldown computation is order-invariant in temporary-attribute
/// updates: any two update histories that leave the store with the same
/// content yield the same effective cooldown and acceleration rate.
pub proof fn lemma_skill_cd_order_invariant(
    a: TempAttrs,
    b: TempAttrs,
    base_ms: i64,
    skill_level_id: i32,
    attr_skill_cd: i64,
    attr_skill_cd_pct: i64,
    attr_cd_accelerate_pct: i64,
)
    requires
        a.view_map() == b.view_map(),
    ensures
        spec_skill_cd(
            base_ms,
            skill_level_id,
            a.view_map(),
            attr_skill_cd,
            attr_skill_cd_pct,
            attr_cd_accelerate_pct,
        ) == spec_skill_cd(
            base_ms,
            skill_level_id,
            b.view_map(),
            attr_skill_cd,
            attr_skill_cd_pct,
            attr_cd_accelerate_pct,
        ),
{
}

} // verus!
