//! Control-surface helpers: merging monitored buff ids at startup,
//! resolving the active skill-monitor profile, and choosing the freshest
//! cooldown entry per monitored skill for emission.

use vstd::prelude::*;

use crate::aggregator::SkillCdState;

verus! {

/// The id list with later duplicates dropped: each id keeps its first
/// occurrence.
pub open spec fn spec_first_occurrences(ids: Seq<i32>) -> Seq<i32>
    decreases ids.len(),
{
    if ids.len() == 0 {
        Seq::<i32>::empty()
    } else {
        let rest = spec_first_occurrences(ids.drop_last());
        if rest.contains(ids.last()) {
            rest
        } else {
            rest.push(ids.last())
        }
    }
}

/// Whether `x` stands in the list.
fn vec_has_i32(v: &Vec<i32>, x: i32) -> (r: bool)
    ensures
        r == v@.contains(x),
{
    let n: usize = v.len();
    let mut i: usize = 0;
    while i < n
        invariant
            n == v@.len(),
            0 <= i <= n,
            forall|j: int| 0 <= j < i ==> v@[j] != x,
        decreases n - i,
    {
        if v[i] == x {
            return true;
        }
        i = i + 1;
    }
    proof {
        if v@.contains(x) {
            let k = choose|k: int| 0 <= k < v@.len() && v@[k] == x;
        }
    }
    false
}

/// Merge the user's monitored buff ids with a class's defaults: the
/// user's ids first, then the defaults, each id kept at its first
/// occurrence.
pub fn merge_buff_ids(user_ids: &Vec<i32>, default_ids: &Vec<i32>) -> (r: Vec<i32>)
    ensures
        r@ == spec_first_occurrences(user_ids@ + default_ids@),
{
    let ghost all = user_ids@ + default_ids@;
    let mut merged: Vec<i32> = Vec::new();
    let un: usize = user_ids.len();
    let mut i: usize = 0;
    proof {
        assert(all.take(0int) =~= Seq::<i32>::empty());
    }
    while i < un
        invariant
            un == user_ids@.len(),
            all == user_ids@ + default_ids@,
            0 <= i <= un,
            merged@ == spec_first_occurrences(all.take(i as int)),
        decreases un - i,
    {
        proof {
            assert(all.take(i as int + 1).drop_last() =~= all.take(i as int));
            assert(all.take(i as int + 1).last() == user_ids@[i as int]);
        }
        let id = user_ids[i];
        if !vec_has_i32(&merged, id) {
            merged.push(id);
        }
        i = i + 1;
    }
    let dn: usize = default_ids.len();
    let mut j: usize = 0;
    while j < dn
        invariant
            un == user_ids@.len(),
            dn == default_ids@.len(),
            all == user_ids@ + default_ids@,
            0 <= j <= dn,
            merged@ == spec_first_occurrences(all.take(un + j as int)),
        decreases dn - j,
    {
        proof {
            assert(all.take(un + j as int + 1).drop_last() =~= all.take(un + j as int));
            assert(all.take(un + j as int + 1).last() == default_ids@[j as int]);
        }
        let id = default_ids[j];
        if !vec_has_i32(&merged, id) {
            merged.push(id);
        }
        j = j + 1;
    }
    proof {
        assert(all.take(un + dn as int) =~= all);
    }
    merged
}

/// Resolve the active skill-monitor profile: none while no profiles
/// exist; otherwise the stored index, clamped to the last profile.
pub fn resolve_active_profile(profile_count: usize, active_index: usize) -> (r: Option<usize>)
    ensures
        r == (if profile_count == 0 {
            None::<usize>
        } else if active_index < profile_count {
            Some(active_index)
        } else {
            Some((profile_count - 1) as usize)
        }),
{
    if profile_count == 0 {
        None
    } else if active_index < profile_count {
        Some(active_index)
    } else {
        Some(profile_count - 1)
    }
}

/// Whether a cooldown entry belongs to a monitored skill id: its level id
/// is the skill id with the two level digits appended. Level ids are
/// non-negative on the wire; a negative one belongs to no skill.
pub open spec fn spec_cd_matches(cd: SkillCdState, skill_id: i32) -> bool {
    cd.skill_level_id >= 0 && cd.skill_level_id as int / 100 == skill_id as int
}

/// The freshest cooldown entry of one skill: among the entries whose
/// level id belongs to the skill, the one received last (the latest entry
/// on a tie).
pub open spec fn spec_best_cd(cds: Seq<SkillCdState>, skill_id: i32) -> Option<SkillCdState>
    decreases cds.len(),
{
    if cds.len() == 0 {
        None
    } else {
        let rest = spec_best_cd(cds.drop_last(), skill_id);
        if spec_cd_matches(cds.last(), skill_id) {
            match rest {
                Some(b) => if cds.last().received_at >= b.received_at {
                    Some(cds.last())
                } else {
                    Some(b)
                },
                None => Some(cds.last()),
            }
        } else {
            rest
        }
    }
}

/// The emission payload of the cooldown tracker: for each monitored skill
/// id, in order, the freshest entry of that skill, where it has any.
pub open spec fn spec_selected_cds(monitored: Seq<i32>, cds: Seq<SkillCdState>) -> Seq<
    SkillCdState,
>
    decreases monitored.len(),
{
    if monitored.len() == 0 {
        Seq::<SkillCdState>::empty()
    } else {
        let rest = spec_selected_cds(monitored.drop_last(), cds);
        match spec_best_cd(cds, monitored.last()) {
            Some(b) => rest.push(b),
            None => rest,
        }
    }
}

/// Build the filtered cooldown payload per [`spec_selected_cds`].
pub fn select_monitored_cds(monitored: &Vec<i32>, cds: &Vec<SkillCdState>) -> (r: Vec<
    SkillCdState,
>)
    ensures
        r@ == spec_selected_cds(monitored@, cds@),
{
    let mut out: Vec<SkillCdState> = Vec::new();
    let mn: usize = monitored.len();
    let mut m: usize = 0;
    proof {
        assert(monitored@.take(0int) =~= Seq::<i32>::empty());
    }
    while m < mn
        invariant
            mn == monitored@.len(),
            0 <= m <= mn,
            out@ == spec_selected_cds(monitored@.take(m as int), cds@),
        decreases mn - m,
    {
        let skill_id = monitored[m];
        let cn: usize = cds.len();
        let mut best: Option<SkillCdState> = None;
        let mut j: usize = 0;
        proof {
            assert(cds@.take(0int) =~= Seq::<SkillCdState>::empty());
        }
        while j < cn
            invariant
                cn == cds@.len(),
                skill_id == monitored@[m as int],
                0 <= j <= cn,
                best == spec_best_cd(cds@.take(j as int), skill_id),
            decreases cn - j,
        {
            proof {
                assert(cds@.take(j as int + 1).drop_last() =~= cds@.take(j as int));
                assert(cds@.take(j as int + 1).last() == cds@[j as int]);
            }
            let cd = cds[j];
            if cd.skill_level_id >= 0 && cd.skill_level_id / 100 == skill_id {
                best = match best {
                    Some(b) => if cd.received_at >= b.received_at {
                        Some(cd)
                    } else {
                        Some(b)
                    },
                    None => Some(cd),
                };
            }
            j = j + 1;
        }
        proof {
            assert(cds@.take(cn as int) =~= cds@);
            assert(monitored@.take(m as int + 1).drop_last() =~= monitored@.take(m as int));
            assert(monitored@.take(m as int + 1).last() == monitored@[m as int]);
        }
        match best {
            Some(b) => out.push(b),
            None => {},
        }
        m = m + 1;
    }
    proof {
        assert(monitored@.take(mn as int) =~= monitored@);
    }
    out
}

} // verus!
