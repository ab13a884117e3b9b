use vstd::prelude::*;

use crate::LwskError;

verus! {

/// What action to perform at one entry of a [`Schedule`].
#[derive(Clone, Copy, Debug, PartialEq, Eq, Structural)]
pub enum ScheduleEntry {
    /// Run the function at this index.
    FunctionInvocation(usize),
    /// Sample an I/O driver, writing into a channel.
    IoIn { from_io_idx: usize, to_channel_idx: usize },
    /// Push data from a channel out via an I/O driver.
    IoOut { from_channel_idx: usize, to_io_idx: usize },
    /// Idle for the given number of nanoseconds.
    Wait(u64),
    /// Make the schedule at this index the active one and reset its cursor.
    SwitchSchedule(usize),
}

/// A named, non-empty, cyclic sequence of actions with a cursor.
pub struct Schedule {
    /// Name of this schedule.
    pub name: String,

    /// Sequence of actions.
    pub sequence: Vec<ScheduleEntry>,

    /// Index into the action sequence of the action most recently returned.
    pub current_action: usize,
}

impl Schedule {
    /// A schedule is well formed when its sequence is non-empty and the
    /// cursor lies inside the sequence.
    pub open spec fn wf(self) -> bool {
        &&& self.sequence.len() > 0
        &&& self.current_action < self.sequence.len()
    }

    /// Initialize a new schedule; a schedule with no entries is refused,
    /// since `next_action` guarantees to return an entry.
    pub fn new(name: String, entries: Vec<ScheduleEntry>) -> (r: Result<Schedule, LwskError>)
        ensures
            r is Ok <==> entries@.len() > 0,
            r matches Ok(s) ==> s.wf() && s.name == name && s.sequence == entries
                && s.current_action == 0,
            r matches Err(e) ==> e is EmptySchedule,
    {
        if entries.len() == 0 {
            return Err(LwskError::EmptySchedule);
        }
        Ok(Schedule { name, sequence: entries, current_action: 0 })
    }

    /// Advance the cursor by one, wrapping at the end of the sequence, and
    /// return the entry now under the cursor. The cursor moves before the
    /// entry is read, so the first call on a fresh schedule returns the entry
    /// at index `1 % len`.
    pub fn next_action(&mut self) -> (r: ScheduleEntry)
        requires
            old(self).wf(),
        ensures
            final(self).wf(),
            final(self).name == old(self).name,
            final(self).sequence == old(self).sequence,
            final(self).current_action as int
                == (old(self).current_action + 1) % (old(self).sequence@.len() as int),
            r == old(self).sequence@[final(self).current_action as int],
    {
        self.current_action = (self.current_action.wrapping_add(1)) % self.sequence.len();
        self.sequence[self.current_action]
    }
}

} // verus!
