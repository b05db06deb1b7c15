//! The buff tracker: active buffs keyed by instance uuid, add / change /
//! remove events, clock-skew capture, and the ordered, subscription-filtered
//! update payload.

use vstd::prelude::*;
use vstd::seq_lib::group_to_multiset_ensures;

verus! {

broadcast use group_to_multiset_ensures;

/// One active buff instance.
#[derive(Debug, Clone, Copy, PartialEq, Eq, Structural)]
pub struct ActiveBuff {
    /// The buff instance uuid.
    pub buff_uuid: i32,
    /// The buff's base (config) id.
    pub base_id: i32,
    /// Stacked layer count.
    pub layer: i32,
    /// Duration in milliseconds.
    pub duration: i32,
    /// Creation time in the server's clock domain.
    pub create_time: i64,
    /// The config id of whatever applied the buff.
    pub source_config_id: i32,
}

/// One decoded buff event.
#[derive(Debug, Clone, Copy, PartialEq, Eq, Structural)]
pub enum BuffEvent {
    /// A buff was applied.
    Add {
        /// The buff instance uuid.
        buff_uuid: i32,
        /// The buff's base id.
        base_id: i32,
        /// Stacked layer count.
        layer: i32,
        /// Duration in milliseconds.
        duration: i32,
        /// Creation time in the server domain, when the packet carried one.
        create_time: Option<i64>,
        /// The config id of whatever applied the buff.
        source_config_id: i32,
    },
    /// Fields of a known buff changed; unknown uuids are ignored.
    Change {
        /// The buff instance uuid.
        buff_uuid: i32,
        /// New layer count, when carried.
        layer: Option<i32>,
        /// New duration, when carried.
        duration: Option<i32>,
        /// New creation time, when carried.
        create_time: Option<i64>,
    },
    /// A buff ended.
    Remove {
        /// The buff instance uuid.
        buff_uuid: i32,
    },
}


/// Everything one applied buff event changes, relating the tracker after
/// (`post`) to the one before (`pre`).
pub open spec fn spec_buff_event_applied(
    pre: BuffTracker,
    post: BuffTracker,
    ev: BuffEvent,
    now_ms: i64,
) -> bool {
    match ev {
        BuffEvent::Add { buff_uuid, base_id, layer, duration, create_time, source_config_id } => {
            let stamped = match create_time {
                Some(t) => t,
                None => now_ms,
            };
            &&& find_buff(post.active_buffs@, buff_uuid) == Some(
                ActiveBuff {
                    buff_uuid,
                    base_id,
                    layer,
                    duration,
                    create_time: stamped,
                    source_config_id,
                },
            )
            &&& (forall|u: i32| u != buff_uuid ==> find_buff(post.active_buffs@, u) == find_buff(
                pre.active_buffs@,
                u,
            ))
            &&& post.server_clock_offset == match create_time {
                Some(t) => if pre.clock_offset_captured {
                    pre.server_clock_offset as int
                } else {
                    spec_sat_i64(now_ms - t) as int
                },
                None => pre.server_clock_offset as int,
            }
            &&& post.clock_offset_captured == (pre.clock_offset_captured || create_time is Some)
        },
        BuffEvent::Change { buff_uuid, layer, duration, create_time } => {
            &&& post.server_clock_offset == pre.server_clock_offset
            &&& post.clock_offset_captured == pre.clock_offset_captured
            &&& (forall|u: i32| u != buff_uuid ==> find_buff(post.active_buffs@, u) == find_buff(
                pre.active_buffs@,
                u,
            ))
            &&& match find_buff(pre.active_buffs@, buff_uuid) {
                Some(b) => find_buff(post.active_buffs@, buff_uuid) == Some(
                    ActiveBuff {
                        layer: match layer {
                            Some(l) => l,
                            None => b.layer,
                        },
                        duration: match duration {
                            Some(d) => d,
                            None => b.duration,
                        },
                        create_time: match create_time {
                            Some(t) => t,
                            None => b.create_time,
                        },
                        ..b
                    },
                ),
                None => post.active_buffs@ == pre.active_buffs@,
            }
        },
        BuffEvent::Remove { buff_uuid } => {
            &&& post.server_clock_offset == pre.server_clock_offset
            &&& post.clock_offset_captured == pre.clock_offset_captured
            &&& find_buff(post.active_buffs@, buff_uuid) is None
            &&& (forall|u: i32| u != buff_uuid ==> find_buff(post.active_buffs@, u) == find_buff(
                pre.active_buffs@,
                u,
            ))
        },
    }
}

/// The buff stored for `uuid`, or `None` when absent.
pub open spec fn find_buff(s: Seq<ActiveBuff>, uuid: i32) -> Option<ActiveBuff>
    decreases s.len(),
{
    if s.len() == 0 {
        None
    } else if s[0].buff_uuid == uuid {
        Some(s[0])
    } else {
        find_buff(s.drop_first(), uuid)
    }
}

/// No two buffs share a uuid.
pub open spec fn buff_uuids_unique(s: Seq<ActiveBuff>) -> bool {
    forall|i: int, j: int| 0 <= i < j < s.len() ==> s[i].buff_uuid != s[j].buff_uuid
}

/// Maintains the active buffs and the captured server clock offset.
#[derive(Debug, Clone, PartialEq, Eq)]
pub struct BuffTracker {
    /// Active buffs, unique by uuid.
    pub active_buffs: Vec<ActiveBuff>,
    /// `local_ms - server_ms`, measured once per session on the first add
    /// event that carries a server creation time.
    pub server_clock_offset: i64,
    /// Whether the offset was captured already.
    pub clock_offset_captured: bool,
}

impl BuffTracker {
    /// Uuids are unique.
    pub open spec fn wf(self) -> bool {
        buff_uuids_unique(self.active_buffs@)
    }

    /// An empty tracker with no skew captured.
    pub fn new() -> (r: BuffTracker)
        ensures
            r.wf(),
            r.active_buffs@.len() == 0,
            r.server_clock_offset == 0,
            !r.clock_offset_captured,
    {
        BuffTracker { active_buffs: Vec::new(), server_clock_offset: 0, clock_offset_captured: false }
    }

    /// Drop every active buff, keeping the captured clock offset.
    pub fn clear(&mut self)
        ensures
            final(self).wf(),
            final(self).active_buffs@.len() == 0,
            final(self).server_clock_offset == old(self).server_clock_offset,
            final(self).clock_offset_captured == old(self).clock_offset_captured,
    {
        self.active_buffs = Vec::new();
    }

    /// Index of the buff with `uuid`, when present.
    fn index_of(&self, uuid: i32) -> (r: Option<usize>)
        requires
            self.wf(),
        ensures
            match r {
                Some(i) => i < self.active_buffs@.len() && self.active_buffs@[i as int].buff_uuid
                    == uuid && find_buff(self.active_buffs@, uuid) == Some(
                    self.active_buffs@[i as int],
                ),
                None => find_buff(self.active_buffs@, uuid) is None,
            },
    {
        let n: usize = self.active_buffs.len();
        let mut i: usize = 0;
        while i < n
            invariant
                n == self.active_buffs@.len(),
                self.wf(),
                0 <= i <= n,
                forall|j: int| 0 <= j < i ==> self.active_buffs@[j].buff_uuid != uuid,
            decreases n - i,
        {
            if self.active_buffs[i].buff_uuid == uuid {
                proof {
                    lemma_find_buff_at(self.active_buffs@, i as int);
                }
                return Some(i);
            }
            i = i + 1;
        }
        proof {
            lemma_find_buff_none_of(self.active_buffs@, uuid);
        }
        None
    }

    /// Apply one buff event at local time `now_ms`, per
    /// [`spec_buff_event_applied`]: an add inserts or replaces the buff
    /// under its uuid and — when the packet carried a creation time —
    /// captures the clock offset as `now_ms - create_time`; an add without
    /// one stamps the buff with `now_ms`. A change updates the carried
    /// fields of a known buff and is ignored for an unknown uuid. A remove
    /// deletes the buff.
    pub fn apply_event(&mut self, ev: BuffEvent, now_ms: i64)
        requires
            old(self).wf(),
        ensures
            final(self).wf(),
            spec_buff_event_applied(*old(self), *final(self), ev, now_ms),
    {
        self.apply_event_inner(ev, now_ms)
    }

    /// The body of [`BuffTracker::apply_event`].
    fn apply_event_inner(&mut self, ev: BuffEvent, now_ms: i64)
        requires
            old(self).wf(),
        ensures
            final(self).wf(),
            match ev {
                BuffEvent::Add { buff_uuid, base_id, layer, duration, create_time, source_config_id } => {
                    let stamped = match create_time {
                        Some(t) => t,
                        None => now_ms,
                    };
                    &&& find_buff(final(self).active_buffs@, buff_uuid) == Some(
                        ActiveBuff {
                            buff_uuid,
                            base_id,
                            layer,
                            duration,
                            create_time: stamped,
                            source_config_id,
                        },
                    )
                    &&& (forall|u: i32| u != buff_uuid ==> find_buff(final(self).active_buffs@, u)
                        == find_buff(old(self).active_buffs@, u))
                    &&& final(self).server_clock_offset == match create_time {
                        Some(t) => if old(self).clock_offset_captured {
                            old(self).server_clock_offset as int
                        } else {
                            spec_sat_i64(now_ms - t) as int
                        },
                        None => old(self).server_clock_offset as int,
                    }
                    &&& final(self).clock_offset_captured == (old(self).clock_offset_captured
                        || create_time is Some)
                },
                BuffEvent::Change { buff_uuid, layer, duration, create_time } => {
                    &&& final(self).server_clock_offset == old(self).server_clock_offset
                    &&& final(self).clock_offset_captured == old(self).clock_offset_captured
                    &&& (forall|u: i32| u != buff_uuid ==> find_buff(final(self).active_buffs@, u)
                        == find_buff(old(self).active_buffs@, u))
                    &&& match find_buff(old(self).active_buffs@, buff_uuid) {
                        Some(b) => find_buff(final(self).active_buffs@, buff_uuid) == Some(
                            ActiveBuff {
                                layer: match layer {
                                    Some(l) => l,
                                    None => b.layer,
                                },
                                duration: match duration {
                                    Some(d) => d,
                                    None => b.duration,
                                },
                                create_time: match create_time {
                                    Some(t) => t,
                                    None => b.create_time,
                                },
                                ..b
                            },
                        ),
                        None => final(self).active_buffs@ == old(self).active_buffs@,
                    }
                },
                BuffEvent::Remove { buff_uuid } => {
                    &&& final(self).server_clock_offset == old(self).server_clock_offset
                    &&& final(self).clock_offset_captured == old(self).clock_offset_captured
                    &&& find_buff(final(self).active_buffs@, buff_uuid) is None
                    &&& (forall|u: i32| u != buff_uuid ==> find_buff(final(self).active_buffs@, u)
                        == find_buff(old(self).active_buffs@, u))
                },
            },
    {
        match ev {
            BuffEvent::Add { buff_uuid, base_id, layer, duration, create_time, source_config_id } => {
                let stamped: i64 = match create_time {
                    Some(t) => t,
                    None => now_ms,
                };
                match create_time {
                    Some(t) => {
                        if !self.clock_offset_captured {
                            self.server_clock_offset = sub_sat_i64(now_ms, t);
                        }
                        self.clock_offset_captured = true;
                    },
                    None => {},
                }
                let row = ActiveBuff {
                    buff_uuid,
                    base_id,
                    layer,
                    duration,
                    create_time: stamped,
                    source_config_id,
                };
                self.upsert(row);
            },
            BuffEvent::Change { buff_uuid, layer, duration, create_time } => {
                match self.index_of(buff_uuid) {
                    Some(i) => {
                        let b = self.active_buffs[i];
                        let row = ActiveBuff {
                            layer: match layer {
                                Some(l) => l,
                                None => b.layer,
                            },
                            duration: match duration {
                                Some(d) => d,
                                None => b.duration,
                            },
                            create_time: match create_time {
                                Some(t) => t,
                                None => b.create_time,
                            },
                            ..b
                        };
                        let ghost s0 = self.active_buffs@;
                        self.active_buffs[i] = row;
                        proof {
                            let s1 = s0.update(i as int, row);
                            assert(self.active_buffs@ == s1);
                            assert(forall|j: int|
                                0 <= j < s1.len() ==> s1[j].buff_uuid == s0[j].buff_uuid);
                            lemma_find_buff_at(s1, i as int);
                            assert forall|u: i32| u != buff_uuid implies find_buff(s1, u)
                                == find_buff(s0, u) by {
                                lemma_find_buff_update(s0, i as int, row, u);
                            }
                        }
                    },
                    None => {},
                }
            },
            BuffEvent::Remove { buff_uuid } => {
                match self.index_of(buff_uuid) {
                    Some(i) => {
                        let ghost s0 = self.active_buffs@;
                        let _removed = self.active_buffs.remove(i);
                        proof {
                            lemma_find_buff_remove(s0, i as int);
                        }
                    },
                    None => {},
                }
            },
        }
    }

    /// Insert `row` under its uuid, replacing any previous instance.
    fn upsert(&mut self, row: ActiveBuff)
        requires
            old(self).wf(),
        ensures
            final(self).wf(),
            find_buff(final(self).active_buffs@, row.buff_uuid) == Some(row),
            forall|u: i32| u != row.buff_uuid ==> find_buff(final(self).active_buffs@, u)
                == find_buff(old(self).active_buffs@, u),
            final(self).server_clock_offset == old(self).server_clock_offset,
            final(self).clock_offset_captured == old(self).clock_offset_captured,
    {
        let ghost s0 = self.active_buffs@;
        match self.index_of(row.buff_uuid) {
            Some(i) => {
                self.active_buffs[i] = row;
                proof {
                    let s1 = s0.update(i as int, row);
                    assert(self.active_buffs@ == s1);
                    assert(forall|j: int| 0 <= j < s1.len() ==> s1[j].buff_uuid == s0[j].buff_uuid);
                    lemma_find_buff_at(s1, i as int);
                    assert forall|u: i32| u != row.buff_uuid implies find_buff(s1, u) == find_buff(
                        s0,
                        u,
                    ) by {
                        lemma_find_buff_update(s0, i as int, row, u);
                    }
                }
            },
            None => {
                self.active_buffs.push(row);
                proof {
                    let s1 = s0.push(row);
                    assert(self.active_buffs@ == s1);
                    lemma_find_buff_none_gives(s0, row.buff_uuid);
                    assert(forall|j: int| 0 <= j < s0.len() ==> s1[j] == s0[j]);
                    assert(s1[s0.len() as int] == row);
                    assert(buff_uuids_unique(s1));
                    lemma_find_buff_push(s0, row, row.buff_uuid);
                    assert forall|u: i32| u != row.buff_uuid implies find_buff(s1, u) == find_buff(
                        s0,
                        u,
                    ) by {
                        lemma_find_buff_push(s0, row, u);
                    }
                }
            },
        }
    }
}

/// The signed 64-bit value nearest to a mathematical integer.
pub open spec fn spec_sat_i64(x: int) -> i64 {
    if x > i64::MAX {
        i64::MAX
    } else if x < i64::MIN {
        i64::MIN
    } else {
        x as i64
    }
}

/// Saturating subtraction on signed 64-bit values.
fn sub_sat_i64(a: i64, b: i64) -> (r: i64)
    ensures
        r == spec_sat_i64(a - b),
{
    if b >= 0 {
        if a >= i64::MIN + b {
            a - b
        } else {
            i64::MIN
        }
    } else {
        if a <= i64::MAX + b {
            a - b
        } else {
            i64::MAX
        }
    }
}

/// Saturating addition on signed 64-bit values.
pub fn add_sat_i64(a: i64, b: i64) -> (r: i64)
    ensures
        r == spec_sat_i64(a + b),
{
    if b >= 0 {
        if a <= i64::MAX - b {
            a + b
        } else {
            i64::MAX
        }
    } else {
        if a >= i64::MIN - b {
            a + b
        } else {
            i64::MIN
        }
    }
}

/// With unique uuids, the buff found for a uuid is the one at any matching
/// index.
proof fn lemma_find_buff_at(s: Seq<ActiveBuff>, i: int)
    requires
        buff_uuids_unique(s),
        0 <= i < s.len(),
    ensures
        find_buff(s, s[i].buff_uuid) == Some(s[i]),
    decreases s.len(),
{
    if i > 0 {
        assert(s[0].buff_uuid != s[i].buff_uuid);
        lemma_find_buff_at(s.drop_first(), i - 1);
    }
}

/// Lookups for other uuids are unchanged by an update at index `i`.
proof fn lemma_find_buff_update(s: Seq<ActiveBuff>, i: int, row: ActiveBuff, uuid: i32)
    requires
        0 <= i < s.len(),
        s[i].buff_uuid == row.buff_uuid,
        uuid != row.buff_uuid,
    ensures
        find_buff(s.update(i, row), uuid) == find_buff(s, uuid),
    decreases s.len(),
{
    if s.len() > 0 {
        if i == 0 {
            assert(s.update(0, row).drop_first() =~= s.drop_first());
        } else {
            assert(s.update(i, row).drop_first() =~= s.drop_first().update(i - 1, row));
            lemma_find_buff_update(s.drop_first(), i - 1, row, uuid);
        }
    }
}

/// A failed lookup means no entry carries the uuid.
proof fn lemma_find_buff_none_gives(s: Seq<ActiveBuff>, uuid: i32)
    requires
        find_buff(s, uuid) is None,
    ensures
        forall|j: int| 0 <= j < s.len() ==> (#[trigger] s[j]).buff_uuid != uuid,
    decreases s.len(),
{
    if s.len() > 0 {
        lemma_find_buff_none_gives(s.drop_first(), uuid);
        assert forall|j: int| 0 <= j < s.len() implies (#[trigger] s[j]).buff_uuid != uuid by {
            if j > 0 {
                assert(s[j] == s.drop_first()[j - 1]);
            }
        }
    }
}

/// When no entry carries the uuid, the lookup fails.
proof fn lemma_find_buff_none_of(s: Seq<ActiveBuff>, uuid: i32)
    requires
        forall|j: int| 0 <= j < s.len() ==> (#[trigger] s[j]).buff_uuid != uuid,
    ensures
        find_buff(s, uuid) is None,
    decreases s.len(),
{
    if s.len() > 0 {
        lemma_find_buff_none_of(s.drop_first(), uuid);
    }
}

/// Lookups in a table extended by a fresh entry.
proof fn lemma_find_buff_push(s: Seq<ActiveBuff>, row: ActiveBuff, uuid: i32)
    requires
        find_buff(s, row.buff_uuid) is None,
    ensures
        find_buff(s.push(row), row.buff_uuid) == Some(row),
        uuid != row.buff_uuid ==> find_buff(s.push(row), uuid) == find_buff(s, uuid),
    decreases s.len(),
{
    if s.len() == 0 {
        assert(s.push(row)[0] == row);
        assert(s.push(row).drop_first() =~= Seq::<ActiveBuff>::empty());
        assert(find_buff(s.push(row).drop_first(), uuid) is None);
    } else {
        assert(s.push(row)[0] == s[0]);
        assert(s.push(row).drop_first() =~= s.drop_first().push(row));
        lemma_find_buff_push(s.drop_first(), row, uuid);
    }
}

/// Removing the entry at `i` removes its uuid and keeps all others, for a
/// table with unique uuids.
proof fn lemma_find_buff_remove(s: Seq<ActiveBuff>, i: int)
    requires
        buff_uuids_unique(s),
        0 <= i < s.len(),
    ensures
        buff_uuids_unique(s.remove(i)),
        find_buff(s.remove(i), s[i].buff_uuid) is None,
        forall|u: i32| u != s[i].buff_uuid ==> find_buff(s.remove(i), u) == find_buff(s, u),
    decreases s.len(),
{
    let t = s.remove(i);
    assert forall|k: int, l: int| 0 <= k < l < t.len() implies t[k].buff_uuid
        != t[l].buff_uuid by {
        let k2 = if k < i {
            k
        } else {
            k + 1
        };
        let l2 = if l < i {
            l
        } else {
            l + 1
        };
        assert(t[k] == s[k2] && t[l] == s[l2]);
    }
    assert forall|j: int| 0 <= j < t.len() implies (#[trigger] t[j]).buff_uuid
        != s[i].buff_uuid by {
        if j < i {
            assert(t[j] == s[j]);
        } else {
            assert(t[j] == s[j + 1]);
        }
    }
    lemma_find_buff_none_of(t, s[i].buff_uuid);
    assert forall|u: i32| u != s[i].buff_uuid implies find_buff(t, u) == find_buff(s, u) by {
        lemma_find_buff_keep_remove(s, i, u);
    }
}

/// Point lookup across a removal, by induction.
proof fn lemma_find_buff_keep_remove(s: Seq<ActiveBuff>, i: int, u: i32)
    requires
        0 <= i < s.len(),
        u != s[i].buff_uuid,
    ensures
        find_buff(s.remove(i), u) == find_buff(s, u),
    decreases s.len(),
{
    if i == 0 {
        assert(s.remove(0) =~= s.drop_first());
    } else {
        assert(s.remove(i).drop_first() =~= s.drop_first().remove(i - 1));
        assert(s.remove(i)[0] == s[0]);
        lemma_find_buff_keep_remove(s.drop_first(), i - 1, u);
    }
}

} // verus!

verus! {

/// One row of a buff-update payload, with the creation time translated
/// into the local clock domain.
#[derive(Debug, Clone, Copy, PartialEq, Eq, Structural)]
pub struct BuffUpdateState {
    /// The buff instance uuid.
    pub buff_uuid: i32,
    /// The buff's base id.
    pub base_id: i32,
    /// Stacked layer count.
    pub layer: i32,
    /// Duration in milliseconds.
    pub duration_ms: i32,
    /// Creation time translated by the captured clock offset.
    pub create_time_ms: i64,
    /// The config id of whatever applied the buff.
    pub source_config_id: i32,
}

/// Related base ids for one source config id.
#[derive(Debug, Clone, PartialEq, Eq)]
pub struct RelatedEntry {
    /// The source config id.
    pub source_config_id: i32,
    /// Base ids considered related to it.
    pub base_ids: Vec<i32>,
}

/// The table mapping source config ids to related base ids.
#[derive(Debug, Clone, PartialEq, Eq)]
pub struct BuffRelations {
    /// The entries.
    pub entries: Vec<RelatedEntry>,
}

/// The related base ids recorded for a source config id; empty by default.
pub open spec fn spec_related(s: Seq<RelatedEntry>, source_config_id: i32) -> Seq<i32>
    decreases s.len(),
{
    if s.len() == 0 {
        Seq::<i32>::empty()
    } else if s[0].source_config_id == source_config_id {
        s[0].base_ids@
    } else {
        spec_related(s.drop_first(), source_config_id)
    }
}

/// Whether a buff is emitted: everything under monitor-all, else a
/// monitored base id, else a source whose related base ids meet the
/// monitored set.
pub open spec fn spec_buff_passes(
    b: ActiveBuff,
    monitored: Seq<i32>,
    monitor_all: bool,
    related: Seq<RelatedEntry>,
) -> bool {
    ||| monitor_all
    ||| monitored.contains(b.base_id)
    ||| (b.source_config_id != 0 && exists|k: int|
        0 <= k < spec_related(related, b.source_config_id).len() && monitored.contains(
            #[trigger] spec_related(related, b.source_config_id)[k],
        ))
}

/// The rank the configured priority order gives a base id: its first
/// position there, or the list length when absent (lowest priority).
pub open spec fn spec_priority_index(p: Seq<i32>, base_id: i32) -> int
    decreases p.len(),
{
    if p.len() == 0 {
        0
    } else if p[0] == base_id {
        0
    } else {
        1 + spec_priority_index(p.drop_first(), base_id)
    }
}

/// Emission order: by priority rank, then base id, then creation time,
/// then uuid.
pub open spec fn spec_buff_le(p: Seq<i32>, a: ActiveBuff, b: ActiveBuff) -> bool {
    let pa = spec_priority_index(p, a.base_id);
    let pb = spec_priority_index(p, b.base_id);
    ||| pa < pb
    ||| (pa == pb && a.base_id < b.base_id)
    ||| (pa == pb && a.base_id == b.base_id && a.create_time < b.create_time)
    ||| (pa == pb && a.base_id == b.base_id && a.create_time == b.create_time && a.buff_uuid
        <= b.buff_uuid)
}

/// The payload row rendering a buff under a clock offset.
pub open spec fn spec_buff_row(b: ActiveBuff, offset: i64) -> BuffUpdateState {
    BuffUpdateState {
        buff_uuid: b.buff_uuid,
        base_id: b.base_id,
        layer: b.layer,
        duration_ms: b.duration,
        create_time_ms: spec_sat_i64(b.create_time + offset),
        source_config_id: b.source_config_id,
    }
}

/// Whether `x` stands in the vector.
fn vec_contains_i32(v: &Vec<i32>, x: i32) -> (r: bool)
    ensures
        r == v@.contains(x),
{
    let n: usize = v.len();
    let mut i: usize = 0;
    while i < n
        invariant
            n == v@.len(),
            0 <= i <= n,
            forall|j: int| 0 <= j < i ==> v@[j] != x,
        decreases n - i,
    {
        if v[i] == x {
            return true;
        }
        i = i + 1;
    }
    proof {
        if v@.contains(x) {
            let k = choose|k: int| 0 <= k < v@.len() && v@[k] == x;
        }
    }
    false
}

/// The priority rank of a base id.
fn priority_index(p: &Vec<i32>, base_id: i32) -> (r: usize)
    ensures
        r == spec_priority_index(p@, base_id),
{
    let n: usize = p.len();
    let mut i: usize = 0;
    proof {
        assert(p@.skip(0) =~= p@);
        lemma_priority_skip(p@, 0, base_id);
    }
    while i < n
        invariant
            n == p@.len(),
            0 <= i <= n,
            spec_priority_index(p@, base_id) == i + spec_priority_index(
                p@.skip(i as int),
                base_id,
            ),
            forall|j: int| 0 <= j < i ==> p@[j] != base_id,
        decreases n - i,
    {
        proof {
            assert(p@.skip(i as int)[0] == p@[i as int]);
            assert(p@.skip(i as int).drop_first() =~= p@.skip(i as int + 1));
        }
        if p[i] == base_id {
            return i;
        }
        i = i + 1;
    }
    proof {
        assert(p@.skip(n as int) =~= Seq::<i32>::empty());
    }
    n
}

/// `spec_priority_index` decomposes over a skip.
proof fn lemma_priority_skip(p: Seq<i32>, i: int, base_id: i32)
    requires
        0 <= i <= p.len(),
        forall|j: int| 0 <= j < i ==> p[j] != base_id,
    ensures
        spec_priority_index(p, base_id) == i + spec_priority_index(p.skip(i), base_id),
    decreases i,
{
    if i > 0 {
        assert(p.skip(i - 1).drop_first() =~= p.skip(i));
        lemma_priority_skip(p, i - 1, base_id);
        assert(p.skip(i - 1)[0] == p[i - 1]);
    } else {
        assert(p.skip(0) =~= p);
    }
}

/// Emission order as an executable comparison.
fn buff_le(p: &Vec<i32>, a: &ActiveBuff, b: &ActiveBuff) -> (r: bool)
    ensures
        r == spec_buff_le(p@, *a, *b),
{
    let pa = priority_index(p, a.base_id);
    let pb = priority_index(p, b.base_id);
    if pa != pb {
        pa < pb
    } else if a.base_id != b.base_id {
        a.base_id < b.base_id
    } else if a.create_time != b.create_time {
        a.create_time < b.create_time
    } else {
        a.buff_uuid <= b.buff_uuid
    }
}

/// Rows are ordered by the configured emission order.
pub open spec fn spec_buffs_sorted(p: Seq<i32>, s: Seq<ActiveBuff>) -> bool {
    forall|k: int, l: int| 0 <= k <= l < s.len() ==> spec_buff_le(p, s[k], s[l])
}

/// The payload row stored for `uuid`, or `None` when absent.
pub open spec fn find_row(r: Seq<BuffUpdateState>, uuid: i32) -> Option<BuffUpdateState>
    decreases r.len(),
{
    if r.len() == 0 {
        None
    } else if r[0].buff_uuid == uuid {
        Some(r[0])
    } else {
        find_row(r.drop_first(), uuid)
    }
}

/// What the buff payload promises: every row renders the stored, passing
/// buff carrying its uuid under the captured clock offset, every stored,
/// passing buff has a row under its uuid, and the rows stand in the
/// configured emission order of their stored buffs — priority rank first,
/// then base id, creation time and uuid.
pub open spec fn spec_payload_ok(
    t: BuffTracker,
    monitored: Seq<i32>,
    monitor_all: bool,
    related: Seq<RelatedEntry>,
    priority: Seq<i32>,
    r: Seq<BuffUpdateState>,
) -> bool {
    &&& (forall|k: int| #![trigger r[k]]
        0 <= k < r.len() ==> {
            let b = find_buff(t.active_buffs@, r[k].buff_uuid);
            &&& b is Some
            &&& spec_buff_passes(b->Some_0, monitored, monitor_all, related)
            &&& r[k] == spec_buff_row(b->Some_0, t.server_clock_offset)
        })
    &&& (forall|j: int|
        0 <= j < t.active_buffs@.len() && spec_buff_passes(
            #[trigger] t.active_buffs@[j],
            monitored,
            monitor_all,
            related,
        ) ==> find_row(r, t.active_buffs@[j].buff_uuid) is Some)
    &&& (forall|k: int, l: int|
        0 <= k <= l < r.len() ==> spec_buff_le(
            priority,
            find_buff(t.active_buffs@, r[k].buff_uuid)->Some_0,
            find_buff(t.active_buffs@, r[l].buff_uuid)->Some_0,
        ))
}

/// A uuid standing at some row is found.
proof fn lemma_find_row_present(r: Seq<BuffUpdateState>, k: int)
    requires
        0 <= k < r.len(),
    ensures
        find_row(r, r[k].buff_uuid) is Some,
    decreases r.len(),
{
    if k > 0 && r[0].buff_uuid != r[k].buff_uuid {
        lemma_find_row_present(r.drop_first(), k - 1);
    }
}

impl BuffTracker {
    /// Build the ordered, filtered buff payload: one row per active buff
    /// that passes the monitored filter, ordered by priority rank, base id,
    /// creation time and uuid, each with its creation time translated into
    /// the local clock domain.
    pub fn build_buff_payload(
        &self,
        monitored: &Vec<i32>,
        monitor_all: bool,
        priority: &Vec<i32>,
        related: &BuffRelations,
    ) -> (r: Vec<BuffUpdateState>)
        requires
            self.wf(),
        ensures
            spec_payload_ok(*self, monitored@, monitor_all, related.entries@, priority@, r@),
    {
        let ghost s = self.active_buffs@;
        let mut kept: Vec<ActiveBuff> = Vec::new();
        let n: usize = self.active_buffs.len();
        let mut i: usize = 0;
        while i < n
            invariant
                n == self.active_buffs@.len(),
                s == self.active_buffs@,
                self.wf(),
                0 <= i <= n,
                forall|k: int|
                    0 <= k < kept@.len() ==> {
                        &&& find_buff(s, (#[trigger] kept@[k]).buff_uuid) == Some(kept@[k])
                        &&& spec_buff_passes(kept@[k], monitored@, monitor_all, related.entries@)
                    },
                forall|j: int|
                    0 <= j < i && spec_buff_passes(
                        #[trigger] s[j],
                        monitored@,
                        monitor_all,
                        related.entries@,
                    ) ==> exists|k: int|
                        0 <= k < kept@.len() && (#[trigger] kept@[k]).buff_uuid == s[j].buff_uuid,
            decreases n - i,
        {
            let b = self.active_buffs[i];
            let mut passes = monitor_all || vec_contains_i32(monitored, b.base_id);
            if !passes && b.source_config_id != 0 {
                passes = related_passes(related, b.source_config_id, monitored);
            }
            proof {
                assert(passes == spec_buff_passes(b, monitored@, monitor_all, related.entries@));
            }
            if passes {
                let ghost kept0 = kept@;
                proof {
                    lemma_find_buff_at(s, i as int);
                }
                kept.push(b);
                proof {
                    assert(forall|k: int| 0 <= k < kept0.len() ==> kept@[k] == kept0[k]);
                    assert(kept@[kept0.len() as int] == b);
                }
            }
            i = i + 1;
        }
        let ghost kept_seq = kept@;
        let sorted = sort_buffs(kept, priority);
        let offset = self.server_clock_offset;
        let mut out: Vec<BuffUpdateState> = Vec::new();
        let m: usize = sorted.len();
        let mut k: usize = 0;
        while k < m
            invariant
                m == sorted@.len(),
                sorted@.to_multiset() == kept_seq.to_multiset(),
                forall|k2: int|
                    0 <= k2 < kept_seq.len() ==> {
                        &&& find_buff(s, (#[trigger] kept_seq[k2]).buff_uuid) == Some(kept_seq[k2])
                        &&& spec_buff_passes(
                            kept_seq[k2],
                            monitored@,
                            monitor_all,
                            related.entries@,
                        )
                    },
                offset == self.server_clock_offset,
                0 <= k <= m,
                out@.len() == k,
                forall|k2: int|
                    0 <= k2 < k ==> #[trigger] out@[k2] == spec_buff_row(sorted@[k2], offset),
            decreases m - k,
        {
            let b = sorted[k];
            let ct = add_sat_i64(b.create_time, offset);
            out.push(
                BuffUpdateState {
                    buff_uuid: b.buff_uuid,
                    base_id: b.base_id,
                    layer: b.layer,
                    duration_ms: b.duration,
                    create_time_ms: ct,
                    source_config_id: b.source_config_id,
                },
            );
            k = k + 1;
        }
        proof {
            assert forall|k2: int| #![trigger out@[k2]]
                0 <= k2 < out@.len() implies {
                let b = find_buff(self.active_buffs@, out@[k2].buff_uuid);
                &&& b is Some
                &&& spec_buff_passes(b->Some_0, monitored@, monitor_all, related.entries@)
                &&& out@[k2] == spec_buff_row(b->Some_0, self.server_clock_offset)
            } by {
                assert(sorted@.to_multiset().count(sorted@[k2]) > 0);
                assert(kept_seq.contains(sorted@[k2]));
                let k0 = choose|k0: int| 0 <= k0 < kept_seq.len() && kept_seq[k0] == sorted@[k2];
                assert(find_buff(s, kept_seq[k0].buff_uuid) == Some(kept_seq[k0]));
                assert(out@[k2] == spec_buff_row(kept_seq[k0], self.server_clock_offset));
                assert(out@[k2].buff_uuid == kept_seq[k0].buff_uuid);
            }
            assert forall|j: int|
                0 <= j < self.active_buffs@.len() && spec_buff_passes(
                    #[trigger] self.active_buffs@[j],
                    monitored@,
                    monitor_all,
                    related.entries@,
                ) implies find_row(out@, self.active_buffs@[j].buff_uuid) is Some by {
                assert(self.active_buffs@[j] == s[j]);
                let k0 = choose|k0: int|
                    0 <= k0 < kept_seq.len() && (#[trigger] kept_seq[k0]).buff_uuid
                        == s[j].buff_uuid;
                assert(kept_seq.to_multiset().count(kept_seq[k0]) > 0);
                assert(sorted@.contains(kept_seq[k0]));
                let k1 = choose|k1: int| 0 <= k1 < sorted@.len() && sorted@[k1] == kept_seq[k0];
                assert(out@[k1] == spec_buff_row(sorted@[k1], offset));
                assert(out@[k1].buff_uuid == s[j].buff_uuid);
                lemma_find_row_present(out@, k1);
            }
            assert forall|k2: int, l2: int|
                0 <= k2 <= l2 < out@.len() implies spec_buff_le(
                priority@,
                find_buff(self.active_buffs@, out@[k2].buff_uuid)->Some_0,
                find_buff(self.active_buffs@, out@[l2].buff_uuid)->Some_0,
            ) by {
                assert(sorted@.to_multiset().count(sorted@[k2]) > 0);
                assert(kept_seq.contains(sorted@[k2]));
                let a = choose|a: int| 0 <= a < kept_seq.len() && kept_seq[a] == sorted@[k2];
                assert(find_buff(s, sorted@[k2].buff_uuid) == Some(sorted@[k2]));
                assert(sorted@.to_multiset().count(sorted@[l2]) > 0);
                assert(kept_seq.contains(sorted@[l2]));
                let b = choose|b: int| 0 <= b < kept_seq.len() && kept_seq[b] == sorted@[l2];
                assert(find_buff(s, sorted@[l2].buff_uuid) == Some(sorted@[l2]));
                assert(out@[k2] == spec_buff_row(sorted@[k2], offset));
                assert(out@[l2] == spec_buff_row(sorted@[l2], offset));
                assert(spec_buff_le(priority@, sorted@[k2], sorted@[l2]));
            }
        }
        out
    }
}

/// Whether any base id related to `source_config_id` is monitored.
fn related_passes(related: &BuffRelations, source_config_id: i32, monitored: &Vec<i32>) -> (r:
    bool)
    ensures
        r == exists|k: int|
            0 <= k < spec_related(related.entries@, source_config_id).len() && monitored@.contains(
                #[trigger] spec_related(related.entries@, source_config_id)[k],
            ),
{
    let n: usize = related.entries.len();
    let mut i: usize = 0;
    proof {
        assert(related.entries@.skip(0) =~= related.entries@);
    }
    while i < n
        invariant
            n == related.entries@.len(),
            0 <= i <= n,
            spec_related(related.entries@, source_config_id) == spec_related(
                related.entries@.skip(i as int),
                source_config_id,
            ),
        decreases n - i,
    {
        proof {
            assert(related.entries@.skip(i as int)[0] == related.entries@[i as int]);
            assert(related.entries@.skip(i as int).drop_first() =~= related.entries@.skip(
                i as int + 1,
            ));
        }
        if related.entries[i].source_config_id == source_config_id {
            let ids = &related.entries[i].base_ids;
            let m: usize = ids.len();
            let mut k: usize = 0;
            while k < m
                invariant
                    m == ids@.len(),
                    ids@ == spec_related(related.entries@, source_config_id),
                    0 <= k <= m,
                    forall|l: int| 0 <= l < k ==> !monitored@.contains(ids@[l]),
                decreases m - k,
            {
                if vec_contains_i32(monitored, ids[k]) {
                    return true;
                }
                k = k + 1;
            }
            return false;
        }
        i = i + 1;
    }
    proof {
        assert(related.entries@.skip(n as int) =~= Seq::<RelatedEntry>::empty());
        assert(spec_related(related.entries@, source_config_id) =~= Seq::<i32>::empty());
    }
    false
}

/// Sort buffs by the configured emission order (selection sort).
fn sort_buffs(src: Vec<ActiveBuff>, priority: &Vec<i32>) -> (r: Vec<ActiveBuff>)
    ensures
        r@.to_multiset() == src@.to_multiset(),
        spec_buffs_sorted(priority@, r@),
{
    let ghost orig = src@;
    let mut rest = src;
    let mut out: Vec<ActiveBuff> = Vec::new();
    proof {
        assert(out@.to_multiset().add(rest@.to_multiset()) =~= orig.to_multiset());
    }
    while rest.len() > 0
        invariant
            out@.to_multiset().add(rest@.to_multiset()) == orig.to_multiset(),
            spec_buffs_sorted(priority@, out@),
            forall|k: int, j: int|
                0 <= k < out@.len() && 0 <= j < rest@.len() ==> spec_buff_le(
                    priority@,
                    out@[k],
                    rest@[j],
                ),
        decreases rest@.len(),
    {
        let m: usize = rest.len();
        let mut imin: usize = 0;
        let mut j: usize = 1;
        while j < m
            invariant
                m == rest@.len(),
                0 < m,
                0 <= imin < m,
                1 <= j <= m,
                forall|l: int| 0 <= l < j ==> spec_buff_le(
                    priority@,
                    rest@[imin as int],
                    #[trigger] rest@[l],
                ),
            decreases m - j,
        {
            if !buff_le(priority, &rest[imin], &rest[j]) {
                proof {
                    lemma_buff_le_total(priority@, rest@[imin as int], rest@[j as int]);
                }
                imin = j;
            }
            j = j + 1;
        }
        let ghost rest0 = rest@;
        let ghost out0 = out@;
        let x = rest.remove(imin);
        out.push(x);
        proof {
            assert(rest@ == rest0.remove(imin as int));
            assert(rest@.to_multiset() =~= rest0.to_multiset().remove(rest0[imin as int]));
            assert(out@.to_multiset() =~= out0.to_multiset().insert(rest0[imin as int]));
            assert(out@.to_multiset().add(rest@.to_multiset()) =~= orig.to_multiset());
            assert(forall|k: int| 0 <= k < out0.len() ==> out@[k] == out0[k]);
            assert(out@[out0.len() as int] == rest0[imin as int]);
            assert forall|k: int, j2: int|
                0 <= k < out@.len() && 0 <= j2 < rest@.len() implies spec_buff_le(
                priority@,
                out@[k],
                rest@[j2],
            ) by {
                assert(rest@[j2] == rest0[if j2 < imin as int {
                    j2
                } else {
                    j2 + 1
                }]);
            }
        }
    }
    out
}

/// The emission order is total: two buffs are always comparable.
proof fn lemma_buff_le_total(p: Seq<i32>, a: ActiveBuff, b: ActiveBuff)
    ensures
        spec_buff_le(p, a, b) || spec_buff_le(p, b, a),
{
}

} // verus!
