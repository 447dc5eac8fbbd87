use tg_trainer::calendar::{Date, Time};
use tg_trainer::cancel::CancelRepo;
use tg_trainer::models::{CancelResponse, CancelTrainingAiRequest, Training, User};

fn date(y: i32, m: u32, d: u32) -> Date {
    Date::from_ymd(y, m, d).unwrap()
}

fn hm(h: u32, m: u32) -> Time {
    Time::from_hms_opt(h, m, 0).unwrap()
}

#[test]
fn ai_request_has_system_then_user_message() {
    let req = CancelTrainingAiRequest::new("prompt".to_string(), "hello".to_string());
    assert_eq!(req.model, "gpt-oss:120b-cloud");
    assert_eq!(req.messages.len(), 2);
    assert_eq!(req.messages[0].role, "system");
    assert_eq!(req.messages[0].content, "prompt");
    assert_eq!(req.messages[1].role, "user");
    assert_eq!(req.messages[1].content, "hello");
    assert!(!req.stream);
}

#[test]
fn ai_request_carries_order_date_and_time() {
    let repo = CancelRepo { promt: "rules".to_string(), url: "u".to_string(), key: "k".to_string() };
    let req = repo.construct_ai_request(
        "Отмени тренировку в 18:00".to_string(),
        date(2025, 9, 20),
        Time { secs: 14 * 3600 + 3 * 60 + 22, nanos: 250_000_000 },
    );
    assert_eq!(req.messages[0].content, "rules");
    assert_eq!(
        req.messages[1].content,
        "Сообщение тренера: Отмени тренировку в 18:00 \n Сегодняшняя дата: 2025-09-20 \n Время отправки сообщения: 14:03:22.250 \n"
    );
}

fn response(from: Date, to: Date, tf: Option<Time>, tt: Option<Time>) -> CancelResponse {
    CancelResponse { date_from: from, date_to: to, time_from: tf, time_to: tt }
}

#[test]
fn cancel_summary_of_one_day_at_one_time() {
    let d = date(2025, 9, 20);
    assert_eq!(response(d, d, Some(hm(18, 0)), Some(hm(18, 0))).to_string(), "Отмена: 20.09 в 18:00");
}

#[test]
fn cancel_summary_of_a_time_range() {
    let d = date(2025, 9, 20);
    assert_eq!(response(d, d, Some(hm(15, 0)), Some(hm(18, 0))).to_string(), "Отмена: 20.09 c 15:00 по 18:00");
}

#[test]
fn cancel_summary_of_several_days() {
    let d = date(2025, 9, 20);
    assert_eq!(response(d, d.add_days(2), None, None).to_string(), "Отмена: 20.09 - 22.09 ");
}

#[test]
fn cancel_summary_with_open_ends() {
    let d = date(2025, 9, 20);
    assert_eq!(response(d, d, Some(hm(17, 0)), None).to_string(), "Отмена: 20.09 c 17:00 до конца дня");
    assert_eq!(response(d, d, None, Some(hm(12, 30))).to_string(), "Отмена: 20.09 c начал дня до 12:30");
}

#[test]
fn defaults_are_empty() {
    let u = User::default();
    assert_eq!(u.id, "");
    assert!(!u.is_trainer);
    let t = Training::default();
    assert_eq!(t.id, 0);
    assert_eq!(t.date.to_text(), "1970-01-01");
    assert_eq!(t.capacity, 0);
    assert!(!t.enabled);
}
