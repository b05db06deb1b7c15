//! Boss-death inference: a boss whose HP has dwelt under the low-HP
//! threshold long enough is promoted to dead, exactly once, and a boss
//! under the threshold while the team keeps its damage rate up is shown
//! as dead immediately.

use vstd::prelude::*;

verus! {

/// HP percentage threshold, in percent: a boss strictly under this is low.
pub const BOSS_LOW_HP_PCT: u64 = 5;

/// How long a boss must dwell under the threshold before it is promoted to
/// dead, in milliseconds.
pub const BOSS_DEATH_DWELL_MS: u64 = 5000;

/// Team damage rate required for the death heuristics, in value per second.
pub const BOSS_DEATH_MIN_DPS: u128 = 5000;

/// One dwell entry: when this boss was first seen under the threshold;
/// zero while it is not under it.
#[derive(Debug, Clone, Copy, PartialEq, Eq, Structural)]
pub struct DwellEntry {
    /// The boss entity id.
    pub uid: i64,
    /// First tick under the threshold, or zero.
    pub since_ms: u64,
}

/// The dwell timestamp stored for `uid`: zero when absent or reset.
pub open spec fn spec_dwell(s: Seq<DwellEntry>, uid: i64) -> u64
    decreases s.len(),
{
    if s.len() == 0 {
        0
    } else if s[0].uid == uid {
        s[0].since_ms
    } else {
        spec_dwell(s.drop_first(), uid)
    }
}

/// No two dwell entries share a uid.
pub open spec fn dwell_uids_unique(s: Seq<DwellEntry>) -> bool {
    forall|i: int, j: int| 0 <= i < j < s.len() ==> s[i].uid != s[j].uid
}

/// Whether `uid` stands in the dead list.
pub open spec fn spec_dead_in(s: Seq<i64>, uid: i64) -> bool {
    s.contains(uid)
}

/// Tracks low-HP dwell timers and the set of bosses already promoted to
/// dead in this encounter.
#[derive(Debug, Clone, PartialEq, Eq)]
pub struct BoundaryDetector {
    /// Per-boss dwell entries.
    pub low_hp_bosses: Vec<DwellEntry>,
    /// Bosses promoted to dead, each exactly once.
    pub dead_bosses: Vec<i64>,
}

/// What one observation reported.
#[derive(Debug, Clone, Copy, PartialEq, Eq, Structural)]
pub struct BossObservation {
    /// The boss was promoted to dead by this very observation.
    pub newly_dead: bool,
    /// The boss should be shown with zero HP in this snapshot.
    pub display_dead: bool,
}

/// The one-step contract every observation satisfies for a given uid: a
/// promotion happens only for a boss not yet dead, makes it dead, and the
/// dead set never shrinks. This is what the at-most-once law rests on.
pub open spec fn spec_obs_step_ok(
    pre: BoundaryDetector,
    post: BoundaryDetector,
    uid: i64,
    newly: bool,
) -> bool {
    &&& (newly ==> !spec_dead_in(pre.dead_bosses@, uid) && spec_dead_in(post.dead_bosses@, uid))
    &&& (spec_dead_in(pre.dead_bosses@, uid) ==> !newly)
    &&& (forall|u: i64|
        spec_dead_in(pre.dead_bosses@, u) ==> spec_dead_in(#[trigger] post.dead_bosses@, u))
}

impl BoundaryDetector {
    /// Dwell uids are unique and the dead list holds no duplicates.
    pub open spec fn wf(self) -> bool {
        &&& dwell_uids_unique(self.low_hp_bosses@)
        &&& (forall|i: int, j: int|
            0 <= i < j < self.dead_bosses@.len() ==> self.dead_bosses@[i] != self.dead_bosses@[j])
    }

    /// A fresh detector with no dwell timers and no dead bosses.
    pub fn new() -> (r: BoundaryDetector)
        ensures
            r.wf(),
            r.low_hp_bosses@.len() == 0,
            r.dead_bosses@.len() == 0,
    {
        BoundaryDetector { low_hp_bosses: Vec::new(), dead_bosses: Vec::new() }
    }

    /// Forget all dwell timers and promotions (encounter boundary).
    pub fn reset(&mut self)
        ensures
            final(self).wf(),
            final(self).low_hp_bosses@.len() == 0,
            final(self).dead_bosses@.len() == 0,
    {
        self.low_hp_bosses = Vec::new();
        self.dead_bosses = Vec::new();
    }

    /// Whether `uid` has been promoted to dead.
    pub fn is_dead(&self, uid: i64) -> (r: bool)
        ensures
            r == spec_dead_in(self.dead_bosses@, uid),
    {
        let n: usize = self.dead_bosses.len();
        let mut i: usize = 0;
        while i < n
            invariant
                n == self.dead_bosses@.len(),
                0 <= i <= n,
                forall|j: int| 0 <= j < i ==> self.dead_bosses@[j] != uid,
            decreases n - i,
        {
            if self.dead_bosses[i] == uid {
                return true;
            }
            i = i + 1;
        }
        false
    }

    /// Record one snapshot observation of a boss.
    ///
    /// `is_low` says whether the boss is strictly under the low-HP
    /// threshold, `dps_ok` whether the team damage rate is at or above
    /// [`BOSS_DEATH_MIN_DPS`]. A boss under the threshold starts (or keeps)
    /// its dwell timer; once the timer has run for
    /// [`BOSS_DEATH_DWELL_MS`] the boss is promoted to dead, exactly once.
    /// HP back above the threshold clears the timer. A boss is displayed
    /// dead as soon as it is promoted, or while it is low with the damage
    /// rate up.
    pub fn observe_boss(&mut self, uid: i64, is_low: bool, dps_ok: bool, now_ms: u64) -> (r:
        BossObservation)
        requires
            old(self).wf(),
            now_ms > 0,
        ensures
            final(self).wf(),
            spec_obs_step_ok(*old(self), *final(self), uid, r.newly_dead),
            ({
                let dwell0 = spec_dwell(old(self).low_hp_bosses@, uid);
                let was_dead = spec_dead_in(old(self).dead_bosses@, uid);
                &&& spec_dwell(final(self).low_hp_bosses@, uid) == if is_low {
                    if dwell0 == 0 {
                        now_ms
                    } else {
                        dwell0
                    }
                } else {
                    0u64
                }
                &&& r.newly_dead == (is_low && !was_dead && dwell0 != 0 && now_ms >= dwell0
                    && now_ms - dwell0 >= BOSS_DEATH_DWELL_MS)
                &&& spec_dead_in(final(self).dead_bosses@, uid) == (was_dead || r.newly_dead)
                &&& r.display_dead == (was_dead || r.newly_dead || (is_low && dps_ok))
                &&& (forall|u: i64| u != uid ==> spec_dead_in(final(self).dead_bosses@, u)
                    == spec_dead_in(old(self).dead_bosses@, u))
                &&& (forall|u: i64| u != uid ==> spec_dwell(final(self).low_hp_bosses@, u)
                    == spec_dwell(old(self).low_hp_bosses@, u))
            }),
    {
        let dwell0 = self.get_dwell(uid);
        let was_dead = self.is_dead(uid);
        let mut newly_dead = false;
        if is_low {
            if dwell0 == 0 {
                self.set_dwell(uid, now_ms);
            } else {
                if !was_dead && now_ms >= dwell0 && now_ms - dwell0 >= BOSS_DEATH_DWELL_MS {
                    let ghost d0 = self.dead_bosses@;
                    self.dead_bosses.push(uid);
                    newly_dead = true;
                    proof {
                        assert(forall|j: int| 0 <= j < d0.len() ==> d0[j] != uid);
                        assert(self.dead_bosses@ == d0.push(uid));
                        assert(forall|j: int| 0 <= j < d0.len() ==> self.dead_bosses@[j] == d0[j]);
                        assert(self.dead_bosses@[d0.len() as int] == uid);
                        assert forall|u: i64| spec_dead_in(self.dead_bosses@, u) == (
                        spec_dead_in(d0, u) || u == uid) by {
                            if spec_dead_in(d0, u) {
                                let k = choose|k: int| 0 <= k < d0.len() && d0[k] == u;
                                assert(self.dead_bosses@[k] == u);
                            }
                            if spec_dead_in(self.dead_bosses@, u) {
                                let k = choose|k: int|
                                    0 <= k < self.dead_bosses@.len() && self.dead_bosses@[k] == u;
                                if k < d0.len() {
                                    assert(d0[k] == u);
                                }
                            }
                        }
                    }
                }
            }
        } else {
            self.set_dwell(uid, 0);
        }
        let display_dead = was_dead || newly_dead || (is_low && dps_ok);
        BossObservation { newly_dead, display_dead }
    }

    /// The dwell timestamp stored for `uid`, zero when none.
    fn get_dwell(&self, uid: i64) -> (r: u64)
        ensures
            r == spec_dwell(self.low_hp_bosses@, uid),
    {
        let n: usize = self.low_hp_bosses.len();
        let mut i: usize = 0;
        proof {
            assert(self.low_hp_bosses@.skip(0) =~= self.low_hp_bosses@);
        }
        while i < n
            invariant
                n == self.low_hp_bosses@.len(),
                0 <= i <= n,
                spec_dwell(self.low_hp_bosses@, uid) == spec_dwell(
                    self.low_hp_bosses@.skip(i as int),
                    uid,
                ),
            decreases n - i,
        {
            proof {
                assert(self.low_hp_bosses@.skip(i as int)[0] == self.low_hp_bosses@[i as int]);
                assert(self.low_hp_bosses@.skip(i as int).drop_first() =~= self.low_hp_bosses@.skip(
                    i as int + 1,
                ));
            }
            if self.low_hp_bosses[i].uid == uid {
                return self.low_hp_bosses[i].since_ms;
            }
            i = i + 1;
        }
        proof {
            assert(self.low_hp_bosses@.skip(n as int) =~= Seq::<DwellEntry>::empty());
        }
        0
    }

    /// Store the dwell timestamp for `uid`.
    fn set_dwell(&mut self, uid: i64, since_ms: u64)
        requires
            dwell_uids_unique(old(self).low_hp_bosses@),
        ensures
            dwell_uids_unique(final(self).low_hp_bosses@),
            spec_dwell(final(self).low_hp_bosses@, uid) == since_ms,
            forall|u: i64| u != uid ==> spec_dwell(final(self).low_hp_bosses@, u) == spec_dwell(
                old(self).low_hp_bosses@,
                u,
            ),
            final(self).dead_bosses == old(self).dead_bosses,
    {
        let ghost s0 = self.low_hp_bosses@;
        let n: usize = self.low_hp_bosses.len();
        let mut i: usize = 0;
        while i < n
            invariant
                n == self.low_hp_bosses@.len(),
                self.low_hp_bosses@ == s0,
                s0 == old(self).low_hp_bosses@,
                dwell_uids_unique(s0),
                0 <= i <= n,
                forall|j: int| 0 <= j < i ==> s0[j].uid != uid,
                self.dead_bosses == old(self).dead_bosses,
            decreases n - i,
        {
            if self.low_hp_bosses[i].uid == uid {
                let row = DwellEntry { uid, since_ms };
                self.low_hp_bosses[i] = row;
                proof {
                    let s1 = s0.update(i as int, row);
                    assert(self.low_hp_bosses@ == s1);
                    assert(forall|j: int| 0 <= j < s1.len() ==> s1[j].uid == s0[j].uid);
                    assert(dwell_uids_unique(s1));
                    lemma_dwell_at(s1, i as int);
                    assert forall|u: i64| u != uid implies spec_dwell(s1, u) == spec_dwell(
                        s0,
                        u,
                    ) by {
                        lemma_dwell_update(s0, i as int, row, u);
                    }
                }
                return ;
            }
            i = i + 1;
        }
        let row = DwellEntry { uid, since_ms };
        self.low_hp_bosses.push(row);
        proof {
            let s1 = s0.push(row);
            assert(self.low_hp_bosses@ == s1);
            assert(forall|j: int| 0 <= j < s0.len() ==> s1[j] == s0[j]);
            assert(s1[s0.len() as int] == row);
            assert(dwell_uids_unique(s1));
            lemma_dwell_push(s0, row, uid);
            assert forall|u: i64| u != uid implies spec_dwell(s1, u) == spec_dwell(s0, u) by {
                lemma_dwell_push(s0, row, u);
            }
        }
    }
}

/// With unique uids, the dwell found for a uid is the entry at any matching
/// index.
proof fn lemma_dwell_at(s: Seq<DwellEntry>, i: int)
    requires
        dwell_uids_unique(s),
        0 <= i < s.len(),
    ensures
        spec_dwell(s, s[i].uid) == s[i].since_ms,
    decreases s.len(),
{
    if i > 0 {
        assert(s[0].uid != s[i].uid);
        lemma_dwell_at(s.drop_first(), i - 1);
    }
}

/// Dwell lookups for other uids are unchanged by an update at index `i`.
proof fn lemma_dwell_update(s: Seq<DwellEntry>, i: int, row: DwellEntry, uid: i64)
    requires
        0 <= i < s.len(),
        s[i].uid == row.uid,
        uid != row.uid,
    ensures
        spec_dwell(s.update(i, row), uid) == spec_dwell(s, uid),
    decreases s.len(),
{
    if s.len() > 0 {
        if i == 0 {
            assert(s.update(0, row).drop_first() =~= s.drop_first());
        } else {
            assert(s.update(i, row).drop_first() =~= s.drop_first().update(i - 1, row));
            lemma_dwell_update(s.drop_first(), i - 1, row, uid);
        }
    }
}

/// Dwell lookups in a store extended by a fresh entry.
proof fn lemma_dwell_push(s: Seq<DwellEntry>, row: DwellEntry, uid: i64)
    requires
        forall|j: int| 0 <= j < s.len() ==> s[j].uid != row.uid,
    ensures
        spec_dwell(s.push(row), row.uid) == row.since_ms,
        uid != row.uid ==> spec_dwell(s.push(row), uid) == spec_dwell(s, uid),
    decreases s.len(),
{
    if s.len() == 0 {
        assert(s.push(row)[0] == row);
        assert(s.push(row).drop_first() =~= Seq::<DwellEntry>::empty());
        assert(spec_dwell(s.push(row).drop_first(), uid) == 0);
    } else {
        assert(s.push(row)[0] == s[0]);
        assert(s.push(row).drop_first() =~= s.drop_first().push(row));
        assert(forall|j: int|
            0 <= j < s.drop_first().len() ==> s.drop_first()[j].uid != row.uid);
        lemma_dwell_push(s.drop_first(), row, uid);
    }
}

/// Boss-death events fire at most once per boss and encounter: along any
/// chain of observations that each satisfy the one-step contract, at most
/// one reports the boss newly dead — and none at all once the boss is
/// already dead at the start.
pub proof fn lemma_boss_death_at_most_once(
    states: Seq<BoundaryDetector>,
    flags: Seq<bool>,
    uid: i64,
)
    requires
        states.len() == flags.len() + 1,
        forall|i: int|
            0 <= i < flags.len() ==> spec_obs_step_ok(
                states[i],
                states[i + 1],
                uid,
                #[trigger] flags[i],
            ),
    ensures
        spec_count_true(flags) <= if spec_dead_in(states[0].dead_bosses@, uid) {
            0int
        } else {
            1int
        },
    decreases flags.len(),
{
    if flags.len() > 0 {
        let states2 = states.drop_first();
        let flags2 = flags.drop_first();
        assert forall|i: int|
            0 <= i < flags2.len() implies spec_obs_step_ok(
            states2[i],
            states2[i + 1],
            uid,
            #[trigger] flags2[i],
        ) by {
            assert(flags2[i] == flags[i + 1]);
            assert(states2[i] == states[i + 1]);
            assert(states2[i + 1] == states[i + 2]);
        }
        lemma_boss_death_at_most_once(states2, flags2, uid);
        if spec_dead_in(states[0].dead_bosses@, uid) {
            assert(!flags[0]);
            assert(spec_dead_in(states[1].dead_bosses@, uid));
        } else {
            if flags[0] {
                assert(spec_dead_in(states[1].dead_bosses@, uid));
                assert(spec_count_true(flags2) <= 0);
            }
        }
    }
}

/// How many flags in the sequence are set.
pub open spec fn spec_count_true(flags: Seq<bool>) -> int
    decreases flags.len(),
{
    if flags.len() == 0 {
        0
    } else {
        (if flags[0] {
            1int
        } else {
            0int
        }) + spec_count_true(flags.drop_first())
    }
}

} // verus!

verus! {

/// Membership in a list possibly extended by one uid.
pub proof fn lemma_dead_in_push_cases(s0: Seq<i64>, s1: Seq<i64>, x: i64, u: i64, pushed: bool)
    requires
        s1 == if pushed {
            s0.push(x)
        } else {
            s0
        },
    ensures
        spec_dead_in(s1, u) == (spec_dead_in(s0, u) || (pushed && u == x)),
{
    if pushed {
        if spec_dead_in(s0, u) {
            let k = choose|k: int| 0 <= k < s0.len() && s0[k] == u;
            assert(s1[k] == u);
        }
        if u == x {
            assert(s1[s0.len() as int] == u);
        }
        if spec_dead_in(s1, u) {
            let k = choose|k: int| 0 <= k < s1.len() && s1[k] == u;
            if k < s0.len() {
                assert(s0[k] == u);
            }
        }
    }
}

} // verus!
