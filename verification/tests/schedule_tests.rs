use tg_trainer::calendar::{Date, Time};
use tg_trainer::models::{RegistrationFullInfo, Training};
use tg_trainer::schedule::{
    bookable_trainings, plan_new_trainings, registrations_by_start, trainer_trainings_between,
    upcoming_registered_trainings, upcoming_trainings, weeks_with_trainings,
};

fn date(y: i32, m: u32, d: u32) -> Date {
    Date::from_ymd(y, m, d).unwrap()
}

fn hm(h: u32, m: u32) -> Time {
    Time::from_hms_opt(h, m, 0).unwrap()
}

fn training(id: u128, day: Date, hour: u32) -> Training {
    Training { id, date: day, start_time: hm(hour, 0), end_time: hm(hour + 1, 0), capacity: 1, enabled: true }
}

fn ids(ts: &[Training]) -> Vec<u128> {
    ts.iter().map(|t| t.id).collect()
}

#[test]
fn week_trainings_from_today_on() {
    let today = date(2025, 9, 24);
    let ts = vec![training(1, date(2025, 9, 23), 9), training(2, today, 9), training(3, date(2025, 9, 26), 9)];
    assert_eq!(ids(&upcoming_trainings(ts, today)), vec![2, 3]);
}

#[test]
fn bookable_trainings_have_not_started() {
    let today = date(2025, 9, 24);
    let ts = vec![
        training(1, today, 9),
        training(2, today, 12),
        training(3, today, 13),
        training(4, date(2025, 9, 25), 9),
        training(5, date(2025, 9, 23), 15),
    ];
    assert_eq!(ids(&bookable_trainings(ts, today, hm(12, 0))), vec![2, 3, 4]);
}

#[test]
fn registered_trainings_ordered_by_day_and_time() {
    let today = date(2025, 9, 24);
    let ts = vec![
        training(1, date(2025, 9, 26), 10),
        training(2, today, 9),
        training(3, today, 11),
        training(4, date(2025, 9, 25), 18),
        training(5, date(2025, 9, 25), 9),
        training(6, date(2025, 9, 20), 9),
    ];
    let now = Time { secs: 9 * 3600 + 30 * 60, nanos: 0 };
    assert_eq!(ids(&upcoming_registered_trainings(ts, today, now)), vec![2, 3, 5, 4, 1]);
}

#[test]
fn registered_trainings_keep_order_of_equal_slots() {
    let today = date(2025, 9, 24);
    let d = date(2025, 9, 25);
    let ts = vec![training(7, d, 9), training(3, d, 8), training(5, d, 9), training(1, d, 9)];
    assert_eq!(ids(&upcoming_registered_trainings(ts, today, hm(0, 0))), vec![3, 7, 5, 1]);
}

#[test]
fn a_training_ending_now_is_over() {
    let today = date(2025, 9, 24);
    let ts = vec![training(1, today, 9)];
    assert!(upcoming_registered_trainings(ts.clone(), today, hm(10, 0)).is_empty());
    assert_eq!(upcoming_registered_trainings(ts, today, Time { secs: 10 * 3600 - 1, nanos: 0 }).len(), 1);
}

#[test]
fn trainer_sees_the_range_by_date() {
    let today = date(2025, 9, 24);
    let ts = vec![
        training(1, date(2025, 9, 27), 9),
        training(2, date(2025, 9, 25), 18),
        training(3, date(2025, 9, 23), 9),
        training(4, date(2025, 9, 25), 9),
        training(5, date(2025, 10, 2), 9),
    ];
    let res = trainer_trainings_between(ts, today, date(2025, 9, 22), date(2025, 9, 28));
    assert_eq!(ids(&res), vec![2, 4, 1]);
}

fn info(name: &str, start: Time) -> RegistrationFullInfo {
    let d = date(2025, 9, 25);
    RegistrationFullInfo { date: d, start_time: start, end_time: start, full_name: name.to_string(), username: name.to_string() }
}

#[test]
fn registrations_ordered_by_start() {
    let res = registrations_by_start(vec![info("c", hm(12, 0)), info("a", hm(9, 0)), info("d", hm(12, 0)), info("b", hm(10, 0))]);
    let names: Vec<String> = res.iter().map(|r| r.full_name.clone()).collect();
    assert_eq!(names, vec!["a", "b", "c", "d"]);
}

#[test]
fn weeks_without_trainings_are_left_out() {
    let weeks = vec![
        vec![date(2025, 9, 22), date(2025, 9, 28)],
        vec![date(2025, 9, 29), date(2025, 10, 5)],
        vec![date(2025, 10, 6), date(2025, 10, 12)],
    ];
    let ts = vec![training(1, date(2025, 10, 12), 9), training(2, date(2025, 9, 22), 9)];
    assert_eq!(
        weeks_with_trainings(weeks, &ts),
        vec![vec![date(2025, 9, 22), date(2025, 9, 28)], vec![date(2025, 10, 6), date(2025, 10, 12)]]
    );
}

#[test]
fn empty_schedule_gets_a_month_of_hourly_slots() {
    let today = date(2025, 9, 24);
    let plan = plan_new_trainings(&vec![], today);
    assert_eq!(plan.len(), 30 * 11);
    assert_eq!(plan[0].date, today);
    assert_eq!(plan[0].start_time, hm(9, 0));
    assert_eq!(plan[0].end_time, hm(10, 0));
    assert_eq!(plan[10].start_time, hm(19, 0));
    assert_eq!(plan[10].end_time, hm(20, 0));
    assert_eq!(plan[11].date, date(2025, 9, 25));
    assert_eq!(plan[329].date, date(2025, 10, 23));
    assert!(plan.iter().all(|t| t.capacity == 1 && t.enabled));
    assert!(plan.iter().all(|t| (t.id >> 76) & 0xf == 4 && (t.id >> 62) & 0x3 == 2));
    let mut ids: Vec<u128> = plan.iter().map(|t| t.id).collect();
    ids.sort();
    ids.dedup();
    assert_eq!(ids.len(), plan.len());
}

#[test]
fn plan_continues_after_the_last_day() {
    let today = date(2025, 9, 24);
    let existing = vec![training(1, today, 9), training(2, date(2025, 9, 25), 9), training(3, date(2025, 9, 26), 9)];
    let plan = plan_new_trainings(&existing, today);
    assert_eq!(plan.len(), 26 * 11);
    assert_eq!(plan[0].date, date(2025, 9, 27));
    assert_eq!(plan.last().unwrap().date, date(2025, 10, 22));
}

#[test]
fn full_schedule_gets_nothing() {
    let today = date(2025, 9, 24);
    let existing: Vec<Training> = (0..30).map(|i| training(i as u128, today.add_days(i), 9)).collect();
    assert!(plan_new_trainings(&existing, today).is_empty());
    let existing: Vec<Training> = (0..29).map(|i| training(i as u128, today.add_days(i), 9)).collect();
    assert!(plan_new_trainings(&existing, today).is_empty());
    let existing: Vec<Training> = (0..28).map(|i| training(i as u128, today.add_days(i), 9)).collect();
    assert_eq!(plan_new_trainings(&existing, today).len(), 11);
}

#[test]
fn short_weeks_are_read_only_as_far_as_needed() {
    assert!(weeks_with_trainings(vec![vec![]], &vec![]).is_empty());
    let ts = vec![training(1, date(2025, 9, 20), 9)];
    assert!(weeks_with_trainings(vec![vec![date(2025, 9, 22)]], &ts).is_empty());
}
