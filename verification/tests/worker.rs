use ems_model::worker::{Schedule, Specialization, Time, WeekDay, WorkShift, Worker};

const WEEK: [WeekDay; 7] = [
    WeekDay::Monday,
    WeekDay::Tuesday,
    WeekDay::Wednesday,
    WeekDay::Thursday,
    WeekDay::Friday,
    WeekDay::Saturday,
    WeekDay::Sunday,
];

#[test]
fn time_keeps_hour_and_minute() {
    let time = Time::new(7, 45);
    assert_eq!(time.hour, 7);
    assert_eq!(time.minute, 45);
    assert!(Time::new(7, 45) < Time::new(8, 0));
    assert!(Time::new(7, 45) < Time::new(7, 46));
    assert_eq!(Time::new(23, 59), Time { hour: 23, minute: 59 });
}

#[test]
fn work_shift_keeps_start_and_end() {
    let shift = WorkShift::new(Time::new(8, 0), Time::new(16, 30));
    assert_eq!(shift.start, Time::new(8, 0));
    assert_eq!(shift.end, Time::new(16, 30));
}

#[test]
fn new_schedule_has_no_shift() {
    let schedule = Schedule::new();
    for day in WEEK {
        assert_eq!(schedule.get_shift(day), None);
    }
}

#[test]
fn added_shift_is_found_on_its_day_only() {
    let early = WorkShift::new(Time::new(6, 0), Time::new(14, 0));
    let mut schedule = Schedule::new();
    schedule.add_shift(WeekDay::Wednesday, early);
    for day in WEEK {
        if day == WeekDay::Wednesday {
            assert_eq!(schedule.get_shift(day), Some(&early));
        } else {
            assert_eq!(schedule.get_shift(day), None);
        }
    }
}

#[test]
fn second_shift_replaces_the_first() {
    let early = WorkShift::new(Time::new(6, 0), Time::new(14, 0));
    let late = WorkShift::new(Time::new(14, 0), Time::new(22, 0));
    let mut schedule = Schedule::new();
    schedule.add_shift(WeekDay::Sunday, early);
    schedule.add_shift(WeekDay::Sunday, late);
    assert_eq!(schedule.get_shift(WeekDay::Sunday), Some(&late));
}

#[test]
fn removed_shift_is_gone_and_others_stay() {
    let early = WorkShift::new(Time::new(6, 0), Time::new(14, 0));
    let late = WorkShift::new(Time::new(14, 0), Time::new(22, 0));
    let mut schedule = Schedule::new();
    schedule.add_shift(WeekDay::Monday, early);
    schedule.add_shift(WeekDay::Friday, late);
    schedule.remove_shift(WeekDay::Monday);
    schedule.remove_shift(WeekDay::Tuesday);
    assert_eq!(schedule.get_shift(WeekDay::Monday), None);
    assert_eq!(schedule.get_shift(WeekDay::Tuesday), None);
    assert_eq!(schedule.get_shift(WeekDay::Friday), Some(&late));
}

#[test]
fn worker_shifts_go_through_the_schedule() {
    let mut worker = Worker::new(
        "w1".to_string(),
        "Ada".to_string(),
        vec![
            Specialization::CncMachineOperator,
            Specialization::Custom("Welding".to_string()),
        ],
        Schedule::new(),
    );
    assert_eq!(worker.id, "w1");
    assert_eq!(worker.name, "Ada");
    assert_eq!(worker.specialization.len(), 2);
    assert_eq!(*worker.get_schedule(), Schedule::new());

    worker.add_work_shift(WeekDay::Thursday, Time::new(9, 0), Time::new(17, 0));
    assert_eq!(
        worker.get_schedule().get_shift(WeekDay::Thursday),
        Some(&WorkShift::new(Time::new(9, 0), Time::new(17, 0)))
    );
    assert_eq!(worker.get_schedule().get_shift(WeekDay::Friday), None);

    worker.remove_work_shift(WeekDay::Thursday);
    assert_eq!(*worker.get_schedule(), Schedule::new());

    let mut weekend = Schedule::new();
    weekend.add_shift(
        WeekDay::Saturday,
        WorkShift::new(Time::new(10, 0), Time::new(12, 0)),
    );
    worker.set_schedule(weekend);
    assert_eq!(*worker.get_schedule(), weekend);
    assert_eq!(worker.name, "Ada");
}
