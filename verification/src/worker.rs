//! Workers and their weekly schedules: at most one shift on each day of the
//! week.

use vstd::prelude::*;

verus! {

/// A time of day in 24-hour format
#[derive(Debug, Clone, Copy, PartialEq, Eq, PartialOrd, Ord, Structural)]
pub struct Time {
    /// Hour of the day (0-23)
    pub hour: u8,
    /// Minute of the hour (0-59)
    pub minute: u8,
}

impl Time {
    /// The time `hour:minute`.
    pub fn new(hour: u8, minute: u8) -> (time: Self)
        ensures
            time == (Time { hour, minute }),
    {
        Time { hour, minute }
    }
}

/// A work shift with start and end times
#[derive(Debug, Clone, Copy, PartialEq, Eq, Structural)]
pub struct WorkShift {
    pub start: Time,
    pub end: Time,
}

impl WorkShift {
    /// The shift from `start` to `end`.
    pub fn new(start: Time, end: Time) -> (shift: Self)
        ensures
            shift == (WorkShift { start, end }),
    {
        WorkShift { start, end }
    }
}

/// Days of the week
#[derive(Debug, Clone, Copy, PartialEq, Eq, Hash, Structural)]
pub enum WeekDay {
    Monday,
    Tuesday,
    Wednesday,
    Thursday,
    Friday,
    Saturday,
    Sunday,
}

/// Simple weekly schedule
#[derive(Debug, Clone, Copy, PartialEq, Eq)]
pub struct Schedule {
    monday: Option<WorkShift>,
    tuesday: Option<WorkShift>,
    wednesday: Option<WorkShift>,
    thursday: Option<WorkShift>,
    friday: Option<WorkShift>,
    saturday: Option<WorkShift>,
    sunday: Option<WorkShift>,
}

impl Schedule {
    /// The shift that the schedule holds for `day`, if any.
    pub closed spec fn shift_on(self, day: WeekDay) -> Option<WorkShift> {
        match day {
            WeekDay::Monday => self.monday,
            WeekDay::Tuesday => self.tuesday,
            WeekDay::Wednesday => self.wednesday,
            WeekDay::Thursday => self.thursday,
            WeekDay::Friday => self.friday,
            WeekDay::Saturday => self.saturday,
            WeekDay::Sunday => self.sunday,
        }
    }

    /// A schedule without shifts.
    pub fn new() -> (schedule: Self)
        ensures
            forall|day: WeekDay| schedule.shift_on(day) is None,
    {
        Schedule {
            monday: None,
            tuesday: None,
            wednesday: None,
            thursday: None,
            friday: None,
            saturday: None,
            sunday: None,
        }
    }

    /// Sets the shift of `day`, in place of the one it had.
    pub fn add_shift(&mut self, day: WeekDay, shift: WorkShift)
        ensures
            final(self).shift_on(day) == Some(shift),
            forall|other: WeekDay|
                other != day ==> final(self).shift_on(other) == old(self).shift_on(other),
    {
        match day {
            WeekDay::Monday => self.monday = Some(shift),
            WeekDay::Tuesday => self.tuesday = Some(shift),
            WeekDay::Wednesday => self.wednesday = Some(shift),
            WeekDay::Thursday => self.thursday = Some(shift),
            WeekDay::Friday => self.friday = Some(shift),
            WeekDay::Saturday => self.saturday = Some(shift),
            WeekDay::Sunday => self.sunday = Some(shift),
        }
    }

    /// Takes the shift of `day` away, if it had one.
    pub fn remove_shift(&mut self, day: WeekDay)
        ensures
            final(self).shift_on(day) is None,
            forall|other: WeekDay|
                other != day ==> final(self).shift_on(other) == old(self).shift_on(other),
    {
        match day {
            WeekDay::Monday => self.monday = None,
            WeekDay::Tuesday => self.tuesday = None,
            WeekDay::Wednesday => self.wednesday = None,
            WeekDay::Thursday => self.thursday = None,
            WeekDay::Friday => self.friday = None,
            WeekDay::Saturday => self.saturday = None,
            WeekDay::Sunday => self.sunday = None,
        }
    }

    /// The shift of `day`, if it has one.
    pub fn get_shift(&self, day: WeekDay) -> (r: Option<&WorkShift>)
        ensures
            r is Some == self.shift_on(day) is Some,
            r is Some ==> *r->Some_0 == self.shift_on(day)->Some_0,
    {
        match day {
            WeekDay::Monday => self.monday.as_ref(),
            WeekDay::Tuesday => self.tuesday.as_ref(),
            WeekDay::Wednesday => self.wednesday.as_ref(),
            WeekDay::Thursday => self.thursday.as_ref(),
            WeekDay::Friday => self.friday.as_ref(),
            WeekDay::Saturday => self.saturday.as_ref(),
            WeekDay::Sunday => self.sunday.as_ref(),
        }
    }
}

/// What can a worker do?
#[derive(Debug, Clone)]
pub enum Specialization {
    Custom(String),
    CncMachineOperator,
}

/// A worker of the factory.
#[derive(Debug, Clone)]
pub struct Worker {
    pub id: String,
    pub name: String,
    pub specialization: Vec<Specialization>,
    pub schedule: Schedule,
}

impl Worker {
    /// A worker with the given skills and schedule.
    pub fn new(id: String, name: String, specialization: Vec<Specialization>, schedule: Schedule) -> (worker:
        Self)
        ensures
            worker.id == id,
            worker.name == name,
            worker.specialization == specialization,
            worker.schedule == schedule,
    {
        Worker { id, name, specialization, schedule }
    }

    /// Get the worker's schedule
    pub fn get_schedule(&self) -> (schedule: &Schedule)
        ensures
            *schedule == self.schedule,
    {
        &self.schedule
    }

    /// Update the worker's schedule
    pub fn set_schedule(&mut self, schedule: Schedule)
        ensures
            final(self).schedule == schedule,
            final(self).id == old(self).id,
            final(self).name == old(self).name,
            final(self).specialization == old(self).specialization,
    {
        self.schedule = schedule;
    }

    /// Add a work shift for a specific day
    pub fn add_work_shift(&mut self, day: WeekDay, start: Time, end: Time)
        ensures
            final(self).schedule.shift_on(day) == Some(WorkShift { start, end }),
            forall|other: WeekDay|
                other != day ==> final(self).schedule.shift_on(other) == old(self).schedule.shift_on(
                    other,
                ),
            final(self).id == old(self).id,
            final(self).name == old(self).name,
            final(self).specialization == old(self).specialization,
    {
        let shift = WorkShift::new(start, end);
        self.schedule.add_shift(day, shift);
    }

    /// Remove a work shift for a specific day
    pub fn remove_work_shift(&mut self, day: WeekDay)
        ensures
            final(self).schedule.shift_on(day) is None,
            forall|other: WeekDay|
                other != day ==> final(self).schedule.shift_on(other) == old(self).schedule.shift_on(
                    other,
                ),
            final(self).id == old(self).id,
            final(self).name == old(self).name,
            final(self).specialization == old(self).specialization,
    {
        self.schedule.remove_shift(day);
    }
}

} // verus!
