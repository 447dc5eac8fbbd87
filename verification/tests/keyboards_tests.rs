use tg_trainer::calendar::{Date, Time};
use tg_trainer::ids::format_uuid;
use tg_trainer::keyboards::{
    create_back_button, generate_cancel_training_keyboard, generate_confirm_registration_inline_keyboard,
    generate_days_inline_keyboard, generate_time_inline_keyboard, generate_week_inline_keyboard, get_weeks,
    trainer_reply_keyboard, user_reply_keyboard, weekday_ru, InlineButton, USER_GET_TRAININGS_REPLY_KEYBOARD_TEXT,
    USER_REPLY_KEYBOARD_TEXT, TRAINER_REPLY_KEYBOARD_SHOW_TEXT,
};
use tg_trainer::models::Training;

fn date(y: i32, m: u32, d: u32) -> Date {
    Date::from_ymd(y, m, d).unwrap()
}

fn training(id: u128, day: Date, hour: u32) -> Training {
    Training {
        id,
        date: day,
        start_time: Time::from_hms_opt(hour, 0, 0).unwrap(),
        end_time: Time::from_hms_opt(hour + 1, 0, 0).unwrap(),
        capacity: 1,
        enabled: true,
    }
}

fn b(text: &str, data: &str) -> InlineButton {
    InlineButton { text: text.to_string(), callback_data: data.to_string() }
}

#[test]
fn back_button_carries_step_and_data() {
    assert_eq!(create_back_button("chooseweek", "2025-09-15"), vec![b("⬅️ Назад", "back:chooseweek,2025-09-15")]);
}

#[test]
fn reply_keyboards() {
    let u = user_reply_keyboard();
    assert_eq!(u.rows, vec![vec![USER_REPLY_KEYBOARD_TEXT.to_string(), USER_GET_TRAININGS_REPLY_KEYBOARD_TEXT.to_string()]]);
    assert!(u.resize_keyboard);
    let t = trainer_reply_keyboard();
    assert_eq!(t.rows, vec![vec![TRAINER_REPLY_KEYBOARD_SHOW_TEXT.to_string()]]);
    assert!(t.resize_keyboard);
}

#[test]
fn weekday_names() {
    assert_eq!(weekday_ru(date(2025, 9, 22)), "Понедельник");
    assert_eq!(weekday_ru(date(2025, 9, 24)), "Среда");
    assert_eq!(weekday_ru(date(2025, 9, 28)), "Воскресенье");
}

#[test]
fn confirm_keyboard_goes_back_to_the_day() {
    let k = generate_confirm_registration_inline_keyboard("2025-09-15/2025-09-20/abc".to_string());
    assert_eq!(k.rows, vec![vec![b("✅ Да", "hi")], vec![b("⬅️ Назад", "back:chooseday,2025-09-15/2025-09-20/id")]]);
    let k = generate_confirm_registration_inline_keyboard("plain".to_string());
    assert_eq!(k.rows[1], vec![b("⬅️ Назад", "back:chooseday,/id")]);
}

#[test]
fn time_keyboard_pairs_trainings() {
    let d = date(2025, 9, 20);
    let ts = vec![training(1, d, 9), training(2, d, 10), training(3, d, 11)];
    let k = generate_time_inline_keyboard(ts, "p".to_string());
    assert_eq!(k.rows.len(), 3);
    assert_eq!(k.rows[0], vec![b("⬅️ Назад", "back:chooseweek,p")]);
    assert_eq!(k.rows[1], vec![b("09:00", &format!("p/{}", format_uuid(1))), b("10:00", &format!("p/{}", format_uuid(2)))]);
    assert_eq!(k.rows[2], vec![b("11:00", &format!("p/{}", format_uuid(3)))]);
}

#[test]
fn time_keyboard_of_an_even_count_ends_with_an_empty_row() {
    let d = date(2025, 9, 20);
    let k = generate_time_inline_keyboard(vec![training(1, d, 9), training(2, d, 10)], "p".to_string());
    assert_eq!(k.rows.len(), 3);
    assert!(k.rows[2].is_empty());
    let k = generate_time_inline_keyboard(vec![], "p".to_string());
    assert_eq!(k.rows.len(), 2);
    assert!(k.rows[1].is_empty());
}

#[test]
fn days_keyboard_lists_each_training_day() {
    let ts = vec![training(1, date(2025, 9, 20), 9), training(2, date(2025, 9, 21), 9)];
    let k = generate_days_inline_keyboard(ts, "2025-09-15".to_string());
    assert_eq!(
        k.rows,
        vec![
            vec![b("⬅️ Назад", "back:default,")],
            vec![b("20.09", "2025-09-15/2025-09-20")],
            vec![b("21.09", "2025-09-15/2025-09-21")],
        ]
    );
}

#[test]
fn weeks_start_on_the_monday_of_today() {
    let weeks = get_weeks(date(2025, 9, 24));
    assert_eq!(
        weeks,
        vec![
            vec![date(2025, 9, 22), date(2025, 9, 28)],
            vec![date(2025, 9, 29), date(2025, 10, 5)],
            vec![date(2025, 10, 6), date(2025, 10, 12)],
            vec![date(2025, 10, 13), date(2025, 10, 19)],
        ]
    );
    assert_eq!(get_weeks(date(2025, 9, 22))[0][0], date(2025, 9, 22));
    assert_eq!(get_weeks(date(2025, 9, 28))[0][0], date(2025, 9, 22));
}

#[test]
fn week_keyboard_sends_the_monday() {
    let k = generate_week_inline_keyboard(vec![vec![date(2025, 9, 22), date(2025, 9, 28)]]);
    assert_eq!(k.rows, vec![vec![b("22.09 — 28.09", "2025-09-22")]]);
}

#[test]
fn cancel_keyboard_labels_and_ids() {
    let k = generate_cancel_training_keyboard(vec![training(5, date(2025, 9, 24), 18)]);
    assert_eq!(k.rows, vec![vec![b("Среда, 24.09 — 18:00", &format_uuid(5))]]);
}

use tg_trainer::keyboards::{weekday_name, weeks_from_monday};

#[test]
fn weekday_names_by_number() {
    let names: Vec<&str> = (0..7).map(weekday_name).collect();
    assert_eq!(names, vec!["Понедельник", "Вторник", "Среда", "Четверг", "Пятница", "Суббота", "Воскресенье"]);
}

#[test]
fn four_weeks_from_a_monday() {
    let m = date(2025, 12, 22);
    assert_eq!(
        weeks_from_monday(m),
        vec![
            vec![m, date(2025, 12, 28)],
            vec![date(2025, 12, 29), date(2026, 1, 4)],
            vec![date(2026, 1, 5), date(2026, 1, 11)],
            vec![date(2026, 1, 12), date(2026, 1, 18)],
        ]
    );
}

#[test]
fn weeks_always_run_monday_to_sunday() {
    for offset in 0..30 {
        let today = date(2025, 9, 1).add_days(offset);
        for w in get_weeks(today) {
            assert_eq!(w[0].weekday_from_monday(), 0);
            assert_eq!(w[1].weekday_from_monday(), 6);
        }
    }
}
