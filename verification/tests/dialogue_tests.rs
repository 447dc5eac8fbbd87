use tg_trainer::calendar::{Date, Time};
use tg_trainer::dialogue::{
    admin_day_keyboard, admin_day_text, confirm_cancel_keyboard, confirm_cancel_text, confirm_registration_text,
    greeting_text, is_creation_time, is_reminder_time, is_trainer, my_trainings_keyboard, my_trainings_text,
    new_user, register_step, reminder_due, route_user_text, selected_date, selected_training, start_step, week_end,
    ChatProfile, Lookup, RegisterStep, StartStep, UserTextAction,
};
use tg_trainer::keyboards::{
    generate_cancel_training_keyboard, generate_days_inline_keyboard, generate_time_inline_keyboard,
    generate_week_inline_keyboard, InlineButton, TRAINER_REPLY_KEYBOARD_EDIT_TEXT, TRAINER_REPLY_KEYBOARD_SHOW_TEXT,
    USER_GET_TRAININGS_REPLY_KEYBOARD_TEXT, USER_REPLY_KEYBOARD_TEXT,
};
use tg_trainer::ids::parse_uuid;
use tg_trainer::models::{RegistrationFullInfo, Training, User};

fn date(y: i32, m: u32, d: u32) -> Date {
    Date::from_ymd(y, m, d).unwrap()
}

fn hm(h: u32, m: u32) -> Time {
    Time::from_hms_opt(h, m, 0).unwrap()
}

fn training(id: u128, day: Date, hour: u32) -> Training {
    Training { id, date: day, start_time: hm(hour, 0), end_time: hm(hour + 1, 0), capacity: 1, enabled: true }
}

fn profile() -> ChatProfile {
    ChatProfile { id: "42".to_string(), username: "neo".to_string(), first_name: "Thomas".to_string(), last_name: "Anderson".to_string() }
}

fn b(text: &str, data: &str) -> InlineButton {
    InlineButton { text: text.to_string(), callback_data: data.to_string() }
}

#[test]
fn reply_texts_answer_only_their_role() {
    assert_eq!(route_user_text(USER_REPLY_KEYBOARD_TEXT, false), UserTextAction::ChooseWeek);
    assert_eq!(route_user_text(USER_REPLY_KEYBOARD_TEXT, true), UserTextAction::Unknown);
    assert_eq!(route_user_text(USER_GET_TRAININGS_REPLY_KEYBOARD_TEXT, false), UserTextAction::ShowRegistrations);
    assert_eq!(route_user_text(TRAINER_REPLY_KEYBOARD_SHOW_TEXT, true), UserTextAction::AdminChooseWeek);
    assert_eq!(route_user_text(TRAINER_REPLY_KEYBOARD_SHOW_TEXT, false), UserTextAction::Unknown);
    assert_eq!(route_user_text(TRAINER_REPLY_KEYBOARD_EDIT_TEXT, true), UserTextAction::EditSchedule);
    assert_eq!(route_user_text("привет", false), UserTextAction::Unknown);
}

#[test]
fn trainers_are_recognised_by_id() {
    let ids = vec!["1".to_string(), "42".to_string()];
    assert!(is_trainer(&ids, "42"));
    assert!(!is_trainer(&ids, "4"));
}

#[test]
fn start_greets_known_users() {
    let user = User { id: "42".to_string(), full_name: "Нео".to_string(), username: String::new(), first_name: String::new(), last_name: String::new(), is_trainer: false };
    match start_step(Some(user), profile(), &vec![]) {
        StartStep::GreetUser { text } => assert_eq!(text, "Здравствуйте, Нео! Чем могу помочь?"),
        _ => panic!("expected a greeting"),
    }
    let boss = User { is_trainer: true, ..User::default() };
    assert!(matches!(start_step(Some(boss), profile(), &vec![]), StartStep::GreetTrainer));
}

#[test]
fn start_makes_trainer_accounts_and_asks_users_their_name() {
    match start_step(None, profile(), &vec!["42".to_string()]) {
        StartStep::RegisterTrainer { user } => {
            assert_eq!(user.id, "42");
            assert_eq!(user.full_name, "boss trainer");
            assert_eq!(user.username, "neo");
            assert_eq!(user.first_name, "Thomas");
            assert_eq!(user.last_name, "Anderson");
            assert!(user.is_trainer);
        }
        _ => panic!("expected a trainer account"),
    }
    assert!(matches!(start_step(None, profile(), &vec!["7".to_string()]), StartStep::AskName));
}

#[test]
fn a_name_makes_a_user_account() {
    let u = new_user(profile(), "Томас");
    assert_eq!(u.full_name, "Томас");
    assert_eq!(u.id, "42");
    assert!(!u.is_trainer);
    assert_eq!(greeting_text("A"), "Здравствуйте, A! Чем могу помочь?");
}

#[test]
fn registrations_list() {
    let ts = vec![training(1, date(2025, 9, 24), 18), training(2, date(2025, 9, 26), 9)];
    assert_eq!(
        my_trainings_text(&ts),
        "<b>Ваши записи:</b>\n\n🥊 Среда, 24.09 — 18:00 \n\n🥊 Пятница, 26.09 — 09:00 \n\n"
    );
    assert_eq!(my_trainings_keyboard().rows, vec![vec![b("❌ Отменить запись", "otm")]]);
}

#[test]
fn day_registrations_for_a_trainer() {
    let d = date(2025, 9, 25);
    let infos = vec![RegistrationFullInfo { date: d, start_time: hm(9, 0), end_time: hm(10, 0), full_name: "Иван".to_string(), username: "ivan".to_string() }];
    assert_eq!(admin_day_text(d, &infos), "<b> Записи на 25.09:</b>\n\n09:00 — Иван, @ivan \n");
    assert_eq!(admin_day_text(d, &vec![]), "<b> Записи на 25.09:</b>\n\n");
    assert_eq!(admin_day_keyboard("x/2025-09-25").rows, vec![vec![b("⬅️ Назад", "back:adminchooseday,x/2025-09-25")]]);
}

#[test]
fn confirmation_questions() {
    let t = training(1, date(2025, 9, 24), 18);
    assert_eq!(confirm_registration_text(&t), "Записаться на 24.09 в 18:00?");
    assert_eq!(confirm_cancel_text(&t), "Вы точно хотите отменить эту тренировку: Среда, 24.09 — 18:00");
    assert_eq!(
        confirm_cancel_keyboard().rows,
        vec![vec![b("❌ Отменить", "cancel")], vec![b("⬅️ Назад", "back:showtrainings,sdf")]]
    );
}

#[test]
fn pressed_buttons_give_back_what_they_were_made_for() {
    let weeks = vec![vec![date(2025, 9, 22), date(2025, 9, 28)]];
    let week_data = generate_week_inline_keyboard(weeks).rows[0][0].callback_data.clone();
    assert_eq!(Date::parse(&week_data), Some(date(2025, 9, 22)));
    assert_eq!(selected_date(&week_data), Some(date(2025, 9, 22)));
    let ts = vec![training(0x1234, date(2025, 9, 24), 18), training(77, date(2025, 9, 25), 9)];
    let days = generate_days_inline_keyboard(ts.clone(), week_data.clone());
    let day_data = days.rows[2][0].callback_data.clone();
    assert_eq!(selected_date(&day_data), Some(date(2025, 9, 25)));
    let times = generate_time_inline_keyboard(ts.clone(), day_data.clone());
    assert_eq!(selected_training(&times.rows[1][0].callback_data), Some(0x1234));
    assert_eq!(selected_training(&times.rows[1][1].callback_data), Some(77));
    let cancel = generate_cancel_training_keyboard(ts);
    assert_eq!(parse_uuid(&cancel.rows[1][0].callback_data), Some(77));
    assert_eq!(selected_training("a/b"), None);
    assert_eq!(selected_date("2025-09-22/nonsense"), None);
}

#[test]
fn a_week_ends_six_days_after_it_starts() {
    assert_eq!(week_end(date(2025, 9, 22)), date(2025, 9, 28));
}

#[test]
fn lookups_decide_registration_and_reminders() {
    assert_eq!(register_step(Lookup::Found), RegisterStep::AlreadyRegistered);
    assert_eq!(register_step(Lookup::Missing), RegisterStep::Create);
    assert_eq!(register_step(Lookup::Failed), RegisterStep::LookupFailed);
    assert!(reminder_due(Lookup::Missing));
    assert!(!reminder_due(Lookup::Found));
    assert!(!reminder_due(Lookup::Failed));
}

#[test]
fn periodic_windows() {
    let sunday = date(2025, 9, 28);
    assert!(is_reminder_time(sunday, hm(18, 0)));
    assert!(is_reminder_time(sunday, hm(18, 20)));
    assert!(!is_reminder_time(sunday, Time { secs: 18 * 3600 + 20 * 60, nanos: 1 }));
    assert!(!is_reminder_time(sunday, hm(17, 59)));
    assert!(!is_reminder_time(date(2025, 9, 27), hm(18, 10)));
    assert!(is_creation_time(hm(0, 0)));
    assert!(is_creation_time(hm(0, 10)));
    assert!(!is_creation_time(hm(0, 11)));
}

use tg_trainer::dialogue::is_reminder_moment;

#[test]
fn reminder_moment_by_weekday_number() {
    assert!(is_reminder_moment(6, hm(18, 5)));
    assert!(!is_reminder_moment(5, hm(18, 5)));
    assert!(!is_reminder_moment(6, hm(18, 21)));
}

#[test]
fn reminder_goes_out_once_per_sunday() {
    let mut recorded: std::collections::HashSet<i32> = std::collections::HashSet::new();
    let mut sent: Vec<Date> = Vec::new();
    let start = date(2025, 9, 26);
    for day in 0..10 {
        let d = start.add_days(day);
        for minute in (17 * 60..19 * 60).step_by(2) {
            let now = hm(minute / 60, minute % 60);
            if is_reminder_time(d, now) {
                let lookup = if recorded.contains(&d.days) { Lookup::Found } else { Lookup::Missing };
                if reminder_due(lookup) {
                    sent.push(d);
                    recorded.insert(d.days);
                }
            }
        }
    }
    assert_eq!(sent, vec![date(2025, 9, 28), date(2025, 10, 5)]);
}
