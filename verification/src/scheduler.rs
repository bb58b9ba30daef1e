//! The turn scheduler: a process-wide turn counter, the two-phase turn
//! state machine, and a time-indexed wake-up schedule for future actor
//! activation.

use vstd::prelude::*;
use std::collections::HashMap;

verus! {

broadcast use vstd::std_specs::hash::group_hash_axioms;

/// Which side is currently permitted to act.
#[derive(Clone, Copy, PartialEq, Eq, Structural, Debug)]
pub enum TurnPhase {
    ActorTurn,
    OpponentTurn,
}

/// The phase after one turn-end signal.
pub open spec fn toggled(p: TurnPhase) -> TurnPhase {
    match p {
        TurnPhase::ActorTurn => TurnPhase::OpponentTurn,
        TurnPhase::OpponentTurn => TurnPhase::ActorTurn,
    }
}

/// The monotonic turn counter and the wake-up schedule: a mapping from a
/// future counter value to the entities scheduled to act then.
#[derive(Debug)]
pub struct RLTimeSystem {
    pub time: u32,
    pub schedule: HashMap<u32, Vec<u64>>,
}

impl RLTimeSystem {
    /// A fresh scheduler: counter zero, nothing scheduled.
    pub fn new() -> (r: Self)
        ensures
            r.time == 0,
            r.schedule@ == Map::<u32, Vec<u64>>::empty(),
    {
        RLTimeSystem { time: 0, schedule: HashMap::new() }
    }

    pub fn get_time(&self) -> (r: u32)
        ensures
            r == self.time,
    {
        self.time
    }

    /// Advance the turn counter by one.
    pub fn increment(&mut self)
        requires
            old(self).time < u32::MAX,
        ensures
            final(self).time == old(self).time + 1,
            final(self).schedule@ == old(self).schedule@,
    {
        self.time = self.time + 1;
    }

    /// The entities scheduled to wake at the given counter value.
    pub fn get_entities_at_time(&self, time: u32) -> (r: Option<&Vec<u64>>)
        ensures
            match r {
                Some(v) => self.schedule@.contains_key(time) && v@ == self.schedule@[time]@,
                None => !self.schedule@.contains_key(time),
            },
    {
        self.schedule.get(&time)
    }

    /// The entities scheduled to wake right now.
    pub fn get_entities_at_current_time(&self) -> (r: Option<&Vec<u64>>)
        ensures
            match r {
                Some(v) => self.schedule@.contains_key(self.time) && v@
                    == self.schedule@[self.time]@,
                None => !self.schedule@.contains_key(self.time),
            },
    {
        self.get_entities_at_time(self.time)
    }

    /// Schedule an entity to wake `dt` turns from now: it is appended to
    /// the wake-up list for that counter value, every other list staying
    /// untouched.
    pub fn schedule_entity(&mut self, entity: u64, dt: u32)
        requires
            old(self).time + dt <= u32::MAX,
        ensures
            final(self).time == old(self).time,
            final(self).schedule@.contains_key((old(self).time + dt) as u32),
            final(self).schedule@[(old(self).time + dt) as u32]@ == (
            if old(self).schedule@.contains_key((old(self).time + dt) as u32) {
                old(self).schedule@[(old(self).time + dt) as u32]@
            } else {
                Seq::<u64>::empty()
            }).push(entity),
            forall|k: u32|
                k != (old(self).time + dt) as u32 ==> #[trigger] final(self).schedule@.contains_key(
                    k,
                ) == old(self).schedule@.contains_key(k),
            forall|k: u32|
                k != (old(self).time + dt) as u32 && old(self).schedule@.contains_key(k)
                    ==> #[trigger] final(self).schedule@[k] == old(self).schedule@[k],
    {
        let t = self.time + dt;
        let existing = self.schedule.remove(&t);
        let mut entities: Vec<u64> = match existing {
            Some(v) => v,
            None => Vec::new(),
        };
        entities.push(entity);
        self.schedule.insert(t, entities);
    }
}

/// Receive a turn-end signal: advance the global turn counter by one, then
/// toggle the phase.
pub fn update_end_turn(time_system: &mut RLTimeSystem, phase: &mut TurnPhase)
    requires
        old(time_system).time < u32::MAX,
    ensures
        final(time_system).time == old(time_system).time + 1,
        final(time_system).schedule@ == old(time_system).schedule@,
        *final(phase) == toggled(*old(phase)),
{
    time_system.increment();
    *phase = match *phase {
        TurnPhase::ActorTurn => TurnPhase::OpponentTurn,
        TurnPhase::OpponentTurn => TurnPhase::ActorTurn,
    };
}

/// Two turn-end signals in a row return the phase to its original value
/// and advance the turn counter by exactly two.
pub proof fn lemma_turn_end_twice(p: TurnPhase, t: u32)
    requires
        t + 2 <= u32::MAX,
    ensures
        toggled(toggled(p)) == p,
        (t + 1) + 1 == t + 2,
{
}

impl RLTimeSystem {
    /// The counter rendered as a wall clock: hours, minutes and seconds,
    /// one turn per second.
    pub fn clock_parts(&self) -> (r: (u32, u32, u32))
        ensures
            r.0 == self.time / 3600,
            r.1 == (self.time % 3600) / 60,
            r.2 == self.time % 60,
    {
        (self.time / 3600, (self.time % 3600) / 60, self.time % 60)
    }
}

} // verus!
