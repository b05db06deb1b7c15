//! The dungeon log: an ordered list of segments (trash or boss) for one
//! scene, with at most one segment open; engaging a boss, a boss death, a
//! scene reset and an inactivity timeout all close the open segment and
//! open the next one.

use vstd::prelude::*;

verus! {

/// A segment is closed once no combat packet arrived for this long,
/// in milliseconds.
pub const SEGMENT_INACTIVITY_MS: u64 = 30000;

/// What a segment covers.
#[derive(Debug, Clone, Copy, PartialEq, Eq, Structural)]
pub enum SegmentType {
    /// Fighting towards the next boss.
    Trash,
    /// Fighting a boss.
    Boss,
}

/// One segment of a dungeon run.
#[derive(Debug, Clone, PartialEq, Eq)]
pub struct Segment {
    /// When the segment opened, in epoch milliseconds.
    pub started_at_ms: u64,
    /// When it closed; `None` while it is the open segment.
    pub ended_at_ms: Option<u64>,
    /// Trash or boss.
    pub segment_type: SegmentType,
    /// The boss's display name, for boss segments with a known name.
    pub boss_name: Option<String>,
    /// The scene this segment belongs to.
    pub scene_id: Option<i32>,
    /// The scene's display name.
    pub scene_name: Option<String>,
}

/// The ordered list of segments for the current scene.
#[derive(Debug, Clone, PartialEq, Eq)]
pub struct DungeonLog {
    /// The segments, oldest first; only the last may be open.
    pub segments: Vec<Segment>,
}

impl DungeonLog {
    /// At most the last segment is open.
    pub open spec fn wf(self) -> bool {
        forall|i: int|
            0 <= i < self.segments@.len() - 1 ==> (#[trigger] self.segments@[i]).ended_at_ms
                is Some
    }

    /// Whether the last segment is open.
    pub open spec fn spec_has_open(self) -> bool {
        self.segments@.len() > 0 && self.segments@.last().ended_at_ms is None
    }

    /// An empty log.
    pub fn new() -> (r: DungeonLog)
        ensures
            r.wf(),
            r.segments@.len() == 0,
    {
        DungeonLog { segments: Vec::new() }
    }

    /// Whether the last segment is open.
    pub fn has_open(&self) -> (r: bool)
        ensures
            r == self.spec_has_open(),
    {
        if self.segments.len() == 0 {
            return false;
        }
        match self.segments[self.segments.len() - 1].ended_at_ms {
            None => true,
            Some(_) => false,
        }
    }

    /// Close the open segment, when there is one, at `ended_ms`.
    pub fn close_open(&mut self, ended_ms: u64)
        requires
            old(self).wf(),
        ensures
            final(self).wf(),
            !final(self).spec_has_open(),
            final(self).segments@.len() == old(self).segments@.len(),
            old(self).spec_has_open() ==> final(self).segments@ == old(self).segments@.update(
                old(self).segments@.len() - 1,
                Segment {
                    ended_at_ms: Some(ended_ms),
                    ..old(self).segments@.last()
                },
            ),
            !old(self).spec_has_open() ==> final(self).segments@ == old(self).segments@,
    {
        let n: usize = self.segments.len();
        if n == 0 {
            return ;
        }
        let is_open = match self.segments[n - 1].ended_at_ms {
            None => true,
            Some(_) => false,
        };
        if is_open {
            self.segments[n - 1].ended_at_ms = Some(ended_ms);
            proof {
                assert(final(self).segments@ =~= old(self).segments@.update(
                    old(self).segments@.len() - 1,
                    Segment {
                        ended_at_ms: Some(ended_ms),
                        ..old(self).segments@.last()
                    },
                ));
            }
        }
    }

    /// Open a new segment at `now_ms`; any open segment must have been
    /// closed first.
    pub fn open_segment(
        &mut self,
        now_ms: u64,
        segment_type: SegmentType,
        boss_name: Option<String>,
        scene_id: Option<i32>,
        scene_name: Option<String>,
    )
        requires
            old(self).wf(),
            !old(self).spec_has_open(),
        ensures
            final(self).wf(),
            final(self).spec_has_open(),
            final(self).segments@.len() == old(self).segments@.len() + 1,
            final(self).segments@.last() == (Segment {
                started_at_ms: now_ms,
                ended_at_ms: None,
                segment_type,
                boss_name,
                scene_id,
                scene_name,
            }),
            forall|i: int| 0 <= i < old(self).segments@.len() ==> final(self).segments@[i] == old(
                self,
            ).segments@[i],
    {
        self.segments.push(
            Segment {
                started_at_ms: now_ms,
                ended_at_ms: None,
                segment_type,
                boss_name,
                scene_id,
                scene_name,
            },
        );
    }

    /// Scene reset: clear the log and open an implicit trash segment
    /// anchored at the scene entry time.
    pub fn reset_for_scene(&mut self, now_ms: u64, scene_id: Option<i32>, scene_name: Option<String>)
        ensures
            final(self).wf(),
            final(self).segments@.len() == 1,
            final(self).segments@[0] == (Segment {
                started_at_ms: now_ms,
                ended_at_ms: None,
                segment_type: SegmentType::Trash,
                boss_name: None,
                scene_id,
                scene_name,
            }),
            final(self).spec_has_open(),
    {
        self.segments = Vec::new();
        self.open_segment(now_ms, SegmentType::Trash, None, scene_id, scene_name);
    }

    /// A boss was engaged: close the current segment and open a boss
    /// segment carrying the boss's name.
    pub fn on_boss_engage(
        &mut self,
        now_ms: u64,
        boss_name: Option<String>,
        scene_id: Option<i32>,
        scene_name: Option<String>,
    )
        requires
            old(self).wf(),
        ensures
            final(self).wf(),
            final(self).spec_has_open(),
            final(self).segments@.len() == old(self).segments@.len() + 1,
            final(self).segments@.last() == (Segment {
                started_at_ms: now_ms,
                ended_at_ms: None,
                segment_type: SegmentType::Boss,
                boss_name,
                scene_id,
                scene_name,
            }),
    {
        self.close_open(now_ms);
        self.open_segment(now_ms, SegmentType::Boss, boss_name, scene_id, scene_name);
    }

    /// A boss died: close the boss segment and open a trash segment.
    pub fn on_boss_death(&mut self, now_ms: u64, scene_id: Option<i32>, scene_name: Option<String>)
        requires
            old(self).wf(),
        ensures
            final(self).wf(),
            final(self).spec_has_open(),
            final(self).segments@.len() == old(self).segments@.len() + 1,
            final(self).segments@.last() == (Segment {
                started_at_ms: now_ms,
                ended_at_ms: None,
                segment_type: SegmentType::Trash,
                boss_name: None,
                scene_id,
                scene_name,
            }),
    {
        self.close_open(now_ms);
        self.open_segment(now_ms, SegmentType::Trash, None, scene_id, scene_name);
    }

    /// Inactivity timeout: when the open segment has seen no combat packet
    /// for [`SEGMENT_INACTIVITY_MS`], close it at the last combat time and
    /// open a fresh trash segment. Reports whether a timeout fired.
    pub fn check_timeout(
        &mut self,
        now_ms: u64,
        last_combat_ms: u64,
        scene_id: Option<i32>,
        scene_name: Option<String>,
    ) -> (timed_out: bool)
        requires
            old(self).wf(),
        ensures
            final(self).wf(),
            timed_out == (old(self).spec_has_open() && now_ms >= last_combat_ms && now_ms
                - last_combat_ms >= SEGMENT_INACTIVITY_MS),
            !timed_out ==> *final(self) == *old(self),
            timed_out ==> {
                &&& final(self).spec_has_open()
                &&& final(self).segments@.len() == old(self).segments@.len() + 1
                &&& final(self).segments@.last() == (Segment {
                    started_at_ms: now_ms,
                    ended_at_ms: None,
                    segment_type: SegmentType::Trash,
                    boss_name: None,
                    scene_id,
                    scene_name,
                })
            },
    {
        let open = self.has_open();
        if open && now_ms >= last_combat_ms && now_ms - last_combat_ms >= SEGMENT_INACTIVITY_MS {
            self.close_open(last_combat_ms);
            self.open_segment(now_ms, SegmentType::Trash, None, scene_id, scene_name);
            true
        } else {
            false
        }
    }
}

} // verus!

verus! {

impl DungeonLog {
    /// The type of the open segment, when one is open.
    pub fn open_segment_type(&self) -> (r: Option<SegmentType>)
        ensures
            r is Some == self.spec_has_open(),
            self.spec_has_open() ==> r == Some(self.segments@.last().segment_type),
    {
        if self.segments.len() == 0 {
            return None;
        }
        let last = &self.segments[self.segments.len() - 1];
        match &last.ended_at_ms {
            None => Some(last.segment_type),
            Some(_) => None,
        }
    }
}

} // verus!
