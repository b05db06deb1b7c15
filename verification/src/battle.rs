//! The battle state machine: consumes dungeon-state updates and decides
//! when the running encounter must be reset — a new objective, a terminal
//! dungeon state, an expired deferred call, or a full-party wipe.

use vstd::prelude::*;

verus! {

/// Why an encounter is reset automatically.
#[derive(Debug, Clone, Copy, PartialEq, Eq, Structural)]
pub enum EncounterResetReason {
    /// The dungeon objective changed while combat had flowed.
    NewObjective,
    /// Every character was downed at once.
    Wipe,
    /// A scheduled forced reset came due.
    Force,
    /// A scheduled restart came due.
    Restart,
    /// The dungeon state reached a terminal value.
    DungeonStateEnd,
}

/// One scheduled reset: fire `reason` once `due_ms` has passed.
#[derive(Debug, Clone, Copy, PartialEq, Eq, Structural)]
pub struct DeferredCall {
    /// When the call comes due, in epoch milliseconds.
    pub due_ms: u64,
    /// The reason recorded when it was scheduled.
    pub reason: EncounterResetReason,
}

/// Detects encounter boundaries from dungeon-state packets.
#[derive(Debug, Clone, PartialEq, Eq)]
pub struct BattleStateMachine {
    /// The current objective id, when one was seen.
    pub current_objective: Option<i64>,
    /// The current dungeon-state value, when one was seen.
    pub dungeon_state: Option<i32>,
    /// Dungeon-state values that end the run. Configured by the host.
    pub end_states: Vec<i32>,
    /// Scheduled deferred resets, in scheduling order.
    pub deferred: Vec<DeferredCall>,
}

/// Whether `v` stands in the configured terminal set.
pub open spec fn spec_is_end_state(ends: Seq<i32>, v: i32) -> bool {
    ends.contains(v)
}

/// Whether some scheduled call has come due by `now_ms`.
pub open spec fn spec_has_due(s: Seq<DeferredCall>, now_ms: u64) -> bool
    decreases s.len(),
{
    if s.len() == 0 {
        false
    } else {
        s[0].due_ms <= now_ms || spec_has_due(s.drop_first(), now_ms)
    }
}

/// A due entry at any index makes the schedule due.
proof fn lemma_has_due_at(s: Seq<DeferredCall>, i: int, now_ms: u64)
    requires
        0 <= i < s.len(),
        s[i].due_ms <= now_ms,
    ensures
        spec_has_due(s, now_ms),
    decreases s.len(),
{
    if i > 0 {
        lemma_has_due_at(s.drop_first(), i - 1, now_ms);
    }
}

/// A schedule with no due entry is not due.
proof fn lemma_not_due(s: Seq<DeferredCall>, now_ms: u64)
    requires
        forall|j: int| 0 <= j < s.len() ==> (#[trigger] s[j]).due_ms > now_ms,
    ensures
        !spec_has_due(s, now_ms),
    decreases s.len(),
{
    if s.len() > 0 {
        assert(forall|j: int|
            0 <= j < s.drop_first().len() ==> (#[trigger] s.drop_first()[j]).due_ms > now_ms);
        lemma_not_due(s.drop_first(), now_ms);
    }
}

impl BattleStateMachine {
    /// A fresh machine with the given terminal dungeon-state values.
    pub fn new(end_states: Vec<i32>) -> (r: BattleStateMachine)
        ensures
            r.current_objective is None,
            r.dungeon_state is None,
            r.end_states == end_states,
            r.deferred@.len() == 0,
    {
        BattleStateMachine {
            current_objective: None,
            dungeon_state: None,
            end_states,
            deferred: Vec::new(),
        }
    }

    /// Forget tracked objective, state and schedule, keeping the
    /// configured terminal set.
    pub fn reinitialize(&mut self)
        ensures
            final(self).current_objective is None,
            final(self).dungeon_state is None,
            final(self).end_states == old(self).end_states,
            final(self).deferred@.len() == 0,
    {
        self.current_objective = None;
        self.dungeon_state = None;
        self.deferred = Vec::new();
    }

    /// Whether `v` is one of the configured terminal values.
    pub fn is_end_state(&self, v: i32) -> (r: bool)
        ensures
            r == spec_is_end_state(self.end_states@, v),
    {
        let n: usize = self.end_states.len();
        let mut i: usize = 0;
        while i < n
            invariant
                n == self.end_states@.len(),
                0 <= i <= n,
                forall|j: int| 0 <= j < i ==> self.end_states@[j] != v,
            decreases n - i,
        {
            if self.end_states[i] == v {
                return true;
            }
            i = i + 1;
        }
        proof {
            if self.end_states@.contains(v) {
                let k = choose|k: int| 0 <= k < n && self.end_states@[k] == v;
            }
        }
        false
    }

    /// Consume one dungeon-state update.
    ///
    /// A changed objective while combat has flowed yields `NewObjective`;
    /// otherwise a transition into a terminal dungeon-state value while
    /// combat has flowed yields `DungeonStateEnd`; otherwise nothing. The
    /// stored objective and state always follow the packet.
    pub fn process_dungeon_update(
        &mut self,
        objective_id: Option<i64>,
        state: Option<i32>,
        encounter_has_stats: bool,
    ) -> (r: Option<EncounterResetReason>)
        ensures
            final(self).current_objective == if objective_id is Some {
                objective_id
            } else {
                old(self).current_objective
            },
            final(self).dungeon_state == if state is Some {
                state
            } else {
                old(self).dungeon_state
            },
            final(self).end_states == old(self).end_states,
            final(self).deferred == old(self).deferred,
            ({
                let objective_changed = objective_id is Some && old(self).current_objective is Some
                    && objective_id != old(self).current_objective;
                let state_ended = state is Some && old(self).dungeon_state != state
                    && spec_is_end_state(old(self).end_states@, state->Some_0);
                r == if objective_changed && encounter_has_stats {
                    Some(EncounterResetReason::NewObjective)
                } else if state_ended && encounter_has_stats {
                    Some(EncounterResetReason::DungeonStateEnd)
                } else {
                    None::<EncounterResetReason>
                }
            }),
    {
        let mut objective_changed = false;
        match objective_id {
            Some(o) => {
                match self.current_objective {
                    Some(c) => {
                        if o != c {
                            objective_changed = true;
                        }
                    },
                    None => {},
                }
                self.current_objective = Some(o);
            },
            None => {},
        }
        let mut state_ended = false;
        match state {
            Some(st) => {
                let changed = match self.dungeon_state {
                    Some(prev) => prev != st,
                    None => true,
                };
                if changed && self.is_end_state(st) {
                    state_ended = true;
                }
                self.dungeon_state = Some(st);
            },
            None => {},
        }
        if objective_changed && encounter_has_stats {
            Some(EncounterResetReason::NewObjective)
        } else if state_ended && encounter_has_stats {
            Some(EncounterResetReason::DungeonStateEnd)
        } else {
            None
        }
    }

    /// Schedule a deferred reset for `due_ms`.
    pub fn schedule_deferred(&mut self, due_ms: u64, reason: EncounterResetReason)
        ensures
            final(self).deferred@ == old(self).deferred@.push(
                DeferredCall { due_ms, reason },
            ),
            final(self).current_objective == old(self).current_objective,
            final(self).dungeon_state == old(self).dungeon_state,
            final(self).end_states == old(self).end_states,
    {
        self.deferred.push(DeferredCall { due_ms, reason });
    }

    /// Fire the first deferred call whose time has passed, removing it.
    /// Nothing fires while no scheduled time has passed.
    pub fn check_deferred_calls(&mut self, now_ms: u64) -> (r: Option<EncounterResetReason>)
        ensures
            final(self).current_objective == old(self).current_objective,
            final(self).dungeon_state == old(self).dungeon_state,
            final(self).end_states == old(self).end_states,
            r is Some == spec_has_due(old(self).deferred@, now_ms),
            match r {
                Some(reason) => exists|i: int|
                    {
                        &&& 0 <= i < old(self).deferred@.len()
                        &&& (#[trigger] old(self).deferred@[i]).due_ms <= now_ms
                        &&& (forall|j: int|
                            0 <= j < i ==> (#[trigger] old(self).deferred@[j]).due_ms > now_ms)
                        &&& old(self).deferred@[i].reason == reason
                        &&& final(self).deferred@ == old(self).deferred@.remove(i)
                    },
                None => *final(self) == *old(self) && (forall|j: int|
                    0 <= j < old(self).deferred@.len() ==> (#[trigger] old(
                        self,
                    ).deferred@[j]).due_ms > now_ms),
            },
    {
        let n: usize = self.deferred.len();
        let mut i: usize = 0;
        while i < n
            invariant
                n == self.deferred@.len(),
                *self == *old(self),
                0 <= i <= n,
                forall|j: int| 0 <= j < i ==> (#[trigger] self.deferred@[j]).due_ms > now_ms,
            decreases n - i,
        {
            if self.deferred[i].due_ms <= now_ms {
                proof {
                    lemma_has_due_at(self.deferred@, i as int, now_ms);
                }
                let call = self.deferred.remove(i);
                return Some(call.reason);
            }
            i = i + 1;
        }
        proof {
            lemma_not_due(self.deferred@, now_ms);
        }
        None
    }

    /// The wipe check: every character downed at once while combat flowed
    /// recently yields `Wipe`.
    pub fn check_for_wipe(
        &self,
        downed_char_count: usize,
        char_count: usize,
        recent_combat: bool,
    ) -> (r: Option<EncounterResetReason>)
        ensures
            r == if char_count > 0 && downed_char_count == char_count && recent_combat {
                Some(EncounterResetReason::Wipe)
            } else {
                None::<EncounterResetReason>
            },
    {
        if char_count > 0 && downed_char_count == char_count && recent_combat {
            Some(EncounterResetReason::Wipe)
        } else {
            None
        }
    }
}

} // verus!
