//! The keyboards the bot shows: reply keyboards under the input field and
//! inline keyboards under its messages, each button with the data it sends back.
use vstd::prelude::*;
use crate::calendar::{Date, MAX_DAY, MIN_DAY};
use crate::ids::{format_uuid, uuid_text};
use crate::models::{all_wf, Training};
use crate::text::split_before_last_segment;
use crate::text::before_last_segment;

verus! {

/// The reply button that starts a registration.
pub const USER_REPLY_KEYBOARD_TEXT: &'static str = "Записаться на тренировку";

/// The reply button that lists a user's registrations.
pub const USER_GET_TRAININGS_REPLY_KEYBOARD_TEXT: &'static str = "Посмотреть мои записи";

/// The reply button that shows a trainer the registrations.
pub const TRAINER_REPLY_KEYBOARD_SHOW_TEXT: &'static str = "Посмотреть записи";

/// The reply button that edits the schedule.
pub const TRAINER_REPLY_KEYBOARD_EDIT_TEXT: &'static str = "Изменить расписание";

/// A button under a message: its label and the data it sends back when pressed.
#[derive(Clone, Debug, PartialEq, Eq)]
pub struct InlineButton {
    pub text: String,
    pub callback_data: String,
}

/// A label and the data that a button sends back.
pub type ButtonView = (Seq<char>, Seq<char>);

impl View for InlineButton {
    type V = ButtonView;

    open spec fn view(&self) -> ButtonView {
        (self.text@, self.callback_data@)
    }
}

/// The rows of buttons as labels and data.
pub open spec fn rows_view(rows: Seq<Vec<InlineButton>>) -> Seq<Seq<ButtonView>> {
    rows.map_values(|r: Vec<InlineButton>| r@.map_values(|b: InlineButton| b@))
}

/// Adding a row adds its view.
pub proof fn lemma_rows_view_push(rows: Seq<Vec<InlineButton>>, row: Vec<InlineButton>)
    ensures
        rows_view(rows.push(row)) == rows_view(rows).push(row@.map_values(|b: InlineButton| b@)),
{
    assert(rows_view(rows.push(row)) =~= rows_view(rows).push(row@.map_values(|b: InlineButton| b@)));
}

/// Rows of buttons under a message.
#[derive(Clone, Debug, PartialEq, Eq)]
pub struct InlineKeyboard {
    pub rows: Vec<Vec<InlineButton>>,
}

impl View for InlineKeyboard {
    type V = Seq<Seq<ButtonView>>;

    open spec fn view(&self) -> Seq<Seq<ButtonView>> {
        rows_view(self.rows@)
    }
}

/// Rows of buttons in place of the keyboard, each sending its label.
#[derive(Clone, Debug, PartialEq, Eq)]
pub struct ReplyKeyboard {
    pub rows: Vec<Vec<String>>,
    pub resize_keyboard: bool,
}

impl View for ReplyKeyboard {
    type V = (Seq<Seq<Seq<char>>>, bool);

    open spec fn view(&self) -> (Seq<Seq<Seq<char>>>, bool) {
        (
            self.rows@.map_values(|r: Vec<String>| r@.map_values(|b: String| b@)),
            self.resize_keyboard,
        )
    }
}

/// The Russian name of weekday `w`, Monday being 0.
pub open spec fn weekday_name_ru(w: nat) -> Seq<char> {
    if w == 0 {
        "Понедельник"@
    } else if w == 1 {
        "Вторник"@
    } else if w == 2 {
        "Среда"@
    } else if w == 3 {
        "Четверг"@
    } else if w == 4 {
        "Пятница"@
    } else if w == 5 {
        "Суббота"@
    } else {
        "Воскресенье"@
    }
}

/// The Russian name of the weekday of `date`.
pub fn weekday_ru(date: Date) -> (res: &'static str)
    requires
        date.wf(),
    ensures
        res@ == weekday_name_ru(date.weekday()),
{
    weekday_name(date.weekday_from_monday())
}

/// The Russian name of weekday `w`, Monday being 0.
pub fn weekday_name(w: u32) -> (res: &'static str)
    ensures
        res@ == weekday_name_ru(w as nat),
{
    match w {
        0 => "Понедельник",
        1 => "Вторник",
        2 => "Среда",
        3 => "Четверг",
        4 => "Пятница",
        5 => "Суббота",
        _ => "Воскресенье",
    }
}

/// A button with label `text` that sends `data`.
fn button(text: String, data: String) -> (res: InlineButton)
    ensures
        res@ == (text@, data@),
{
    InlineButton { text, callback_data: data }
}

/// The row with the button that goes back to the step `callback_data`,
/// carrying `data`.
pub open spec fn back_row(callback_data: Seq<char>, data: Seq<char>) -> Seq<ButtonView> {
    seq![("⬅️ Назад"@, "back:"@ + callback_data + ","@ + data)]
}

/// The row with the button that goes back to the step `callback_data`, carrying `data`.
pub fn create_back_button(callback_data: &str, data: &str) -> (res: Vec<InlineButton>)
    ensures
        res@.map_values(|b: InlineButton| b@) == back_row(callback_data@, data@),
{
    let mut sent = String::from_str("back:");
    sent.append(callback_data);
    sent.append(",");
    sent.append(data);
    let mut row: Vec<InlineButton> = Vec::new();
    row.push(button(String::from_str("⬅️ Назад"), sent));
    proof {
        assert(row@.map_values(|b: InlineButton| b@) =~= back_row(callback_data@, data@));
    }
    row
}

/// The reply keyboard of a user: register, and list the registrations.
pub fn user_reply_keyboard() -> (res: ReplyKeyboard)
    ensures
        res@ == (
            seq![seq![USER_REPLY_KEYBOARD_TEXT@, USER_GET_TRAININGS_REPLY_KEYBOARD_TEXT@]],
            true,
        ),
{
    let mut row: Vec<String> = Vec::new();
    row.push(String::from_str(USER_REPLY_KEYBOARD_TEXT));
    row.push(String::from_str(USER_GET_TRAININGS_REPLY_KEYBOARD_TEXT));
    let mut rows: Vec<Vec<String>> = Vec::new();
    rows.push(row);
    let res = ReplyKeyboard { rows, resize_keyboard: true };
    proof {
        assert(res@.0[0] =~= seq![USER_REPLY_KEYBOARD_TEXT@, USER_GET_TRAININGS_REPLY_KEYBOARD_TEXT@]);
        assert(res@.0 =~= seq![seq![USER_REPLY_KEYBOARD_TEXT@, USER_GET_TRAININGS_REPLY_KEYBOARD_TEXT@]]);
    }
    res
}

/// The reply keyboard of a trainer: show the registrations.
pub fn trainer_reply_keyboard() -> (res: ReplyKeyboard)
    ensures
        res@ == (seq![seq![TRAINER_REPLY_KEYBOARD_SHOW_TEXT@]], true),
{
    let mut row: Vec<String> = Vec::new();
    row.push(String::from_str(TRAINER_REPLY_KEYBOARD_SHOW_TEXT));
    let mut rows: Vec<Vec<String>> = Vec::new();
    rows.push(row);
    let res = ReplyKeyboard { rows, resize_keyboard: true };
    proof {
        assert(res@.0[0] =~= seq![TRAINER_REPLY_KEYBOARD_SHOW_TEXT@]);
        assert(res@.0 =~= seq![seq![TRAINER_REPLY_KEYBOARD_SHOW_TEXT@]]);
    }
    res
}

/// The keyboard that confirms a registration: yes, or back to the times of
/// the day that `previous_data` names before its last segment.
pub open spec fn confirm_registration_keyboard(previous_data: Seq<char>) -> Seq<Seq<ButtonView>> {
    seq![
        seq![("✅ Да"@, "hi"@)],
        back_row("chooseday"@, before_last_segment(previous_data) + "/id"@),
    ]
}

/// The keyboard that confirms a registration.
pub fn generate_confirm_registration_inline_keyboard(previous_data: String) -> (res: InlineKeyboard)
    ensures
        res@ == confirm_registration_keyboard(previous_data@),
{
    let yes = button(String::from_str("✅ Да"), String::from_str("hi"));
    let mut first: Vec<InlineButton> = Vec::new();
    first.push(yes);
    let mut back_data = String::from_str(split_before_last_segment(previous_data.as_str()));
    back_data.append("/id");
    let back = create_back_button("chooseday", back_data.as_str());
    let mut rows: Vec<Vec<InlineButton>> = Vec::new();
    rows.push(first);
    rows.push(back);
    let res = InlineKeyboard { rows };
    proof {
        assert(res@[0] =~= seq![("✅ Да"@, "hi"@)]);
        assert(res@ =~= confirm_registration_keyboard(previous_data@));
    }
    res
}

/// The button of a training's start time, sending the step's data and the training.
pub open spec fn time_button(t: Training, previous_data: Seq<char>) -> ButtonView {
    (t.start_time.hour_minute_text(), previous_data + "/"@ + uuid_text(t.id))
}

/// Row `j` of the start times: the buttons of trainings `2j` and `2j + 1`, those there are.
pub open spec fn time_row(ts: Seq<Training>, previous_data: Seq<char>, j: int) -> Seq<ButtonView> {
    let left = ts.len() - 2 * j;
    let n: nat = if left >= 2 { 2 } else if left <= 0 { 0 } else { left as nat };
    Seq::new(n, |k: int| time_button(ts[2 * j + k], previous_data))
}

/// The keyboard of start times: back to the days, then the trainings two to a
/// row, in their order, with one row more than there are pairs.
pub open spec fn time_keyboard(ts: Seq<Training>, previous_data: Seq<char>) -> Seq<Seq<ButtonView>> {
    seq![back_row("chooseweek"@, previous_data)] + Seq::new(
        ts.len() / 2 + 1,
        |j: int| time_row(ts, previous_data, j),
    )
}

/// The button of a training's start time.
fn time_button_of(t: &Training, previous_data: &String) -> (res: InlineButton)
    requires
        t.wf(),
    ensures
        res@ == time_button(*t, previous_data@),
{
    let mut data = previous_data.clone();
    data.append("/");
    data.append(format_uuid(t.id).as_str());
    button(t.start_time.format_hour_minute(), data)
}

/// The keyboard of start times.
pub fn generate_time_inline_keyboard(trainings: Vec<Training>, previous_data: String) -> (res: InlineKeyboard)
    requires
        all_wf(trainings@),
    ensures
        res@ == time_keyboard(trainings@, previous_data@),
{
    let ts = &trainings;
    let n = ts.len();
    let mut rows: Vec<Vec<InlineButton>> = Vec::new();
    rows.push(create_back_button("chooseweek", previous_data.as_str()));
    let mut j: usize = 0;
    while j < n / 2 + 1
        invariant
            n == ts@.len(),
            all_wf(ts@),
            j <= n / 2 + 1,
            rows_view(rows@) =~= seq![back_row("chooseweek"@, previous_data@)] + Seq::new(
                j as nat,
                |jj: int| time_row(ts@, previous_data@, jj),
            ),
        decreases n / 2 + 1 - j,
    {
        let i = 2 * j;
        let mut row: Vec<InlineButton> = Vec::new();
        if i < n {
            row.push(time_button_of(&ts[i], &previous_data));
        }
        if i < n && n - i > 1 {
            row.push(time_button_of(&ts[i + 1], &previous_data));
        }
        proof {
            assert(row@.map_values(|b: InlineButton| b@) =~= time_row(ts@, previous_data@, j as int));
        }
        let ghost old_rows = rows@;
        rows.push(row);
        proof {
            lemma_rows_view_push(old_rows, rows@.last());
            assert(Seq::new((j + 1) as nat, |jj: int| time_row(ts@, previous_data@, jj)) =~= Seq::new(
                j as nat,
                |jj: int| time_row(ts@, previous_data@, jj),
            ).push(time_row(ts@, previous_data@, j as int)));
        }
        j = j + 1;
    }
    let res = InlineKeyboard { rows };
    proof {
        assert(res@ =~= time_keyboard(ts@, previous_data@));
    }
    res
}

/// The button of a training's day, sending the step's data and the date.
pub open spec fn day_button(t: Training, previous_data: Seq<char>) -> ButtonView {
    (t.date.day_month_text(), previous_data + "/"@ + t.date.text())
}

/// The keyboard of days: back to the start, then a row for each training's day, in order.
pub open spec fn days_keyboard(ts: Seq<Training>, previous_data: Seq<char>) -> Seq<Seq<ButtonView>> {
    seq![back_row("default"@, ""@)] + ts.map_values(|t: Training| seq![day_button(t, previous_data)])
}

/// The keyboard of days.
pub fn generate_days_inline_keyboard(trainings: Vec<Training>, previous_data: String) -> (res: InlineKeyboard)
    requires
        all_wf(trainings@),
    ensures
        res@ == days_keyboard(trainings@, previous_data@),
{
    let ts = &trainings;
    let mut rows: Vec<Vec<InlineButton>> = Vec::new();
    rows.push(create_back_button("default", ""));
    let mut i: usize = 0;
    while i < ts.len()
        invariant
            all_wf(ts@),
            i <= ts@.len(),
            rows_view(rows@) =~= seq![back_row("default"@, ""@)] + ts@.subrange(0, i as int).map_values(
                |t: Training| seq![day_button(t, previous_data@)],
            ),
        decreases ts.len() - i,
    {
        let t = &ts[i];
        assert(ts@[i as int].wf());
        let mut data = previous_data.clone();
        data.append("/");
        data.append(t.date.to_text().as_str());
        let mut row: Vec<InlineButton> = Vec::new();
        row.push(button(t.date.format_day_month(), data));
        proof {
            assert(row@.map_values(|b: InlineButton| b@) =~= seq![day_button(*t, previous_data@)]);
            assert(ts@.subrange(0, i + 1) =~= ts@.subrange(0, i as int).push(*t));
        }
        let ghost old_rows = rows@;
        rows.push(row);
        proof {
            lemma_rows_view_push(old_rows, rows@.last());
            assert(ts@.subrange(0, i + 1).map_values(|t: Training| seq![day_button(t, previous_data@)])
                =~= ts@.subrange(0, i as int).map_values(
                |t: Training| seq![day_button(t, previous_data@)],
            ).push(seq![day_button(*t, previous_data@)]));
        }
        i = i + 1;
    }
    let res = InlineKeyboard { rows };
    proof {
        assert(ts@.subrange(0, ts@.len() as int) =~= ts@);
    }
    res
}

/// The Monday of the week of `today`.
pub open spec fn monday_of(today: Date) -> Date {
    today.plus(-(today.weekday() as int))
}

/// Week `i` from the week of `today`: its Monday and its Sunday.
pub open spec fn week_of(today: Date, i: int) -> Seq<Date> {
    week_from(monday_of(today), i)
}

/// The four weeks from the week of `today`, each as its Monday and its Sunday.
pub fn get_weeks(today: Date) -> (res: Vec<Vec<Date>>)
    requires
        today.wf(),
        MIN_DAY <= monday_of(today).days,
        monday_of(today).days + 27 <= MAX_DAY,
    ensures
        res@.len() == 4,
        forall|i: int| 0 <= i < 4 ==> (#[trigger] res@[i])@ == week_of(today, i),
        res@[0]@[0].days <= today.days <= res@[0]@[1].days,
        forall|i: int|
            0 <= i < 4 ==> (#[trigger] res@[i])@[0].weekday() == 0 && res@[i]@[1].weekday() == 6,
        forall|i: int| 0 <= i < 4 ==> (#[trigger] res@[i])@[1].days == res@[i]@[0].days + 6,
        forall|i: int| 0 <= i < 3 ==> (#[trigger] res@[i + 1])@[0].days == res@[i]@[1].days + 1,
{
    let w = today.weekday_from_monday() as i32;
    let monday = today.add_days(-w);
    let weeks = weeks_from_monday(monday);
    proof {
        assert(weeks@[0]@ == week_of(today, 0));
        assert forall|i: int| 0 <= i < 3 implies (#[trigger] weeks@[i + 1])@[0].days == weeks@[i]@[1].days + 1 by {
            assert(weeks@[i + 1]@ == week_of(today, i + 1));
            assert(weeks@[i]@ == week_of(today, i));
        }
        assert forall|i: int| 0 <= i < 4 implies (#[trigger] weeks@[i])@[1].days == weeks@[i]@[0].days + 6 by {
            assert(weeks@[i]@ == week_of(today, i));
        }
        assert forall|i: int|
            0 <= i < 4 implies (#[trigger] weeks@[i])@[0].weekday() == 0 && weeks@[i]@[1].weekday() == 6 by {
            assert(weeks@[i]@ == week_of(today, i));
            let m = monday.days as int;
            assert((m - 1) % 7 == 0);
            assert((m + 7 * i - 1) % 7 == 0) by (nonlinear_arith)
                requires (m - 1) % 7 == 0, 0 <= i < 4;
            assert((m + 7 * i + 6 - 1) % 7 == 6) by (nonlinear_arith)
                requires (m - 1) % 7 == 0, 0 <= i < 4;
        }
    }
    weeks
}

/// Week `i` from the week that starts on `monday`: its first and last day.
pub open spec fn week_from(monday: Date, i: int) -> Seq<Date> {
    seq![monday.plus(7 * i), monday.plus(7 * i + 6)]
}

/// The four weeks from the one that starts on `monday`, each as its first and last day.
pub fn weeks_from_monday(monday: Date) -> (res: Vec<Vec<Date>>)
    requires
        monday.wf(),
        monday.days + 27 <= MAX_DAY,
    ensures
        res@.len() == 4,
        forall|i: int| 0 <= i < 4 ==> (#[trigger] res@[i])@ == week_from(monday, i),
{
    let mut weeks: Vec<Vec<Date>> = Vec::new();
    let mut i: i32 = 0;
    while i < 4
        invariant
            0 <= i <= 4,
            weeks@.len() == i,
            monday.wf(),
            monday.days + 27 <= MAX_DAY,
            forall|k: int| 0 <= k < i ==> (#[trigger] weeks@[k])@ == week_from(monday, k),
        decreases 4 - i,
    {
        let mut week: Vec<Date> = Vec::new();
        week.push(monday.add_days(i * 7));
        week.push(monday.add_days(i * 7 + 6));
        proof {
            assert(week@ =~= week_from(monday, i as int));
        }
        weeks.push(week);
        i = i + 1;
    }
    weeks
}

/// Every week of `weeks` has its first and last day, and they are real days.
pub open spec fn weeks_wf(weeks: Seq<Vec<Date>>) -> bool {
    forall|i: int|
        0 <= i < weeks.len() ==> (#[trigger] weeks[i])@.len() >= 2 && weeks[i]@[0].wf()
            && weeks[i]@[1].wf()
}

/// The button of a week: its first and last day, sending the first.
pub open spec fn week_button(week: Seq<Date>) -> ButtonView {
    (week[0].day_month_text() + " — "@ + week[1].day_month_text(), week[0].text())
}

/// The keyboard of weeks: a row for each week, in order.
pub open spec fn weeks_keyboard(weeks: Seq<Vec<Date>>) -> Seq<Seq<ButtonView>> {
    weeks.map_values(|w: Vec<Date>| seq![week_button(w@)])
}

/// The keyboard of weeks.
pub fn generate_week_inline_keyboard(weeks: Vec<Vec<Date>>) -> (res: InlineKeyboard)
    requires
        weeks_wf(weeks@),
    ensures
        res@ == weeks_keyboard(weeks@),
{
    let mut rows: Vec<Vec<InlineButton>> = Vec::new();
    let mut i: usize = 0;
    while i < weeks.len()
        invariant
            weeks_wf(weeks@),
            i <= weeks@.len(),
            rows_view(rows@) =~= weeks_keyboard(weeks@.subrange(0, i as int)),
        decreases weeks.len() - i,
    {
        let week = &weeks[i];
        let monday = week[0];
        let sunday = week[1];
        let mut text = monday.format_day_month();
        text.append(" — ");
        text.append(sunday.format_day_month().as_str());
        let mut row: Vec<InlineButton> = Vec::new();
        row.push(button(text, monday.to_text()));
        proof {
            assert(row@.map_values(|b: InlineButton| b@) =~= seq![week_button(week@)]);
            assert(weeks@.subrange(0, i + 1) =~= weeks@.subrange(0, i as int).push(*week));
        }
        let ghost old_rows = rows@;
        rows.push(row);
        proof {
            lemma_rows_view_push(old_rows, rows@.last());
            assert(weeks_keyboard(weeks@.subrange(0, i + 1)) =~= weeks_keyboard(
                weeks@.subrange(0, i as int),
            ).push(seq![week_button(week@)]));
        }
        i = i + 1;
    }
    let res = InlineKeyboard { rows };
    proof {
        assert(weeks@.subrange(0, weeks@.len() as int) =~= weeks@);
    }
    res
}

/// The label of a training: its weekday, its date and its start time.
pub open spec fn training_label(t: Training) -> Seq<char> {
    weekday_name_ru(t.date.weekday()) + ", "@ + t.date.day_month_text() + " — "@
        + t.start_time.hour_minute_text()
}

/// The keyboard of a user's trainings to cancel: a row for each, sending its identifier.
pub open spec fn cancel_training_keyboard(ts: Seq<Training>) -> Seq<Seq<ButtonView>> {
    ts.map_values(|t: Training| seq![(training_label(t), uuid_text(t.id))])
}

/// The label of a training: its weekday, its date and its start time.
pub fn format_training_label(t: &Training) -> (res: String)
    requires
        t.wf(),
    ensures
        res@ == training_label(*t),
{
    let mut text = String::from_str(weekday_ru(t.date));
    text.append(", ");
    text.append(t.date.format_day_month().as_str());
    text.append(" — ");
    text.append(t.start_time.format_hour_minute().as_str());
    text
}

/// The keyboard of a user's trainings to cancel.
pub fn generate_cancel_training_keyboard(trainings: Vec<Training>) -> (res: InlineKeyboard)
    requires
        all_wf(trainings@),
    ensures
        res@ == cancel_training_keyboard(trainings@),
{
    let ts = &trainings;
    let mut rows: Vec<Vec<InlineButton>> = Vec::new();
    let mut i: usize = 0;
    while i < ts.len()
        invariant
            all_wf(ts@),
            i <= ts@.len(),
            rows_view(rows@) =~= cancel_training_keyboard(ts@.subrange(0, i as int)),
        decreases ts.len() - i,
    {
        let t = &ts[i];
        assert(ts@[i as int].wf());
        let mut row: Vec<InlineButton> = Vec::new();
        row.push(button(format_training_label(t), format_uuid(t.id)));
        proof {
            assert(row@.map_values(|b: InlineButton| b@) =~= seq![(training_label(*t), uuid_text(t.id))]);
            assert(ts@.subrange(0, i + 1) =~= ts@.subrange(0, i as int).push(*t));
        }
        let ghost old_rows = rows@;
        rows.push(row);
        proof {
            lemma_rows_view_push(old_rows, rows@.last());
            assert(cancel_training_keyboard(ts@.subrange(0, i + 1)) =~= cancel_training_keyboard(
                ts@.subrange(0, i as int),
            ).push(seq![(training_label(*t), uuid_text(t.id))]));
        }
        i = i + 1;
    }
    let res = InlineKeyboard { rows };
    proof {
        assert(ts@.subrange(0, ts@.len() as int) =~= ts@);
    }
    res
}

} // verus!
