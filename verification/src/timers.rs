//! The queue of one-shot merge schedules: which of them are due, and how a
//! scheduler takes one out in order to fire it.

use crate::rows::{ScheduleAt, SplitMergeSchedule};
use crate::table::lemma_map_entry_is_row;
use crate::world::{World, WorldState};
use vstd::prelude::*;

verus! {

/// A one-shot schedule is due once its time has come. A repeating
/// schedule is never taken out of a queue.
pub open spec fn is_due(at: ScheduleAt, now: u64) -> bool {
    match at {
        ScheduleAt::Time(time) => time <= now,
        ScheduleAt::Interval(_) => false,
    }
}

/// Some merge schedule in the queue is due.
pub open spec fn merge_is_due(s: WorldState, now: u64) -> bool {
    exists|k: u64| #[trigger]
        s.merge_schedules.dom().contains(k) && is_due(s.merge_schedules[k].scheduled_at, now)
}

/// Whether a schedule is due.
pub fn due(at: ScheduleAt, now: u64) -> (yes: bool)
    ensures
        yes == is_due(at, now),
{
    match at {
        ScheduleAt::Time(time) => time <= now,
        ScheduleAt::Interval(_) => false,
    }
}

/// Takes one merge schedule that is due out of the queue, for the caller
/// to fire; nothing where none is due. A schedule is taken out once.
pub fn take_due_merge(world: &mut World, now: u64) -> (fired: Option<SplitMergeSchedule>)
    requires
        old(world).wf(),
    ensures
        final(world).wf(),
        fired.is_some() == merge_is_due(old(world)@, now),
        match fired {
            Some(schedule) => {
                &&& old(world)@.merge_schedules.dom().contains(schedule.scheduled_id)
                &&& old(world)@.merge_schedules[schedule.scheduled_id] == schedule
                &&& is_due(schedule.scheduled_at, now)
                &&& final(world)@ == (WorldState {
                    merge_schedules: old(world)@.merge_schedules.remove(schedule.scheduled_id),
                    ..old(world)@
                })
            },
            None => final(world)@ == old(world)@,
        },
{
    let mut i: usize = 0;
    while i < world.merge_schedules.len()
        invariant
            *world == *old(world),
            world.wf(),
            i <= world.merge_schedules.rows().len(),
            forall|j: int|
                0 <= j < i ==> !is_due(
                    (#[trigger] world.merge_schedules.rows()[j]).scheduled_at,
                    now,
                ),
        decreases world.merge_schedules.rows().len() - i,
    {
        if due(world.merge_schedules.row(i).scheduled_at, now) {
            let schedule = world.merge_schedules.remove(i);
            return Some(schedule);
        }
        i += 1;
    }
    proof {
        assert forall|k: u64| #[trigger] world.merge_schedules@.dom().contains(k) implies !is_due(
            world.merge_schedules@[k].scheduled_at,
            now,
        ) by {
            lemma_map_entry_is_row(world.merge_schedules.rows(), k);
        }
    }
    None
}

} // verus!
