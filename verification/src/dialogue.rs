//! What the bot answers at each step of a dialogue: the texts, the
//! keyboards, the next step, and what it reads back from a pressed button.
use vstd::prelude::*;
use crate::calendar::{Date, Time, MAX_DAY};
use crate::ids::{parse_uuid, parsed_uuid, uuid_text};
use crate::calendar::lemma_date_text_lacks_slash;
use crate::ids::lemma_uuid_text_lacks_slash;
use crate::keyboards::{
    cancel_training_keyboard, day_button, days_keyboard, time_button, time_keyboard, time_row,
    week_button, weeks_keyboard, back_row, create_back_button, format_training_label, training_label, ButtonView,
    InlineButton, InlineKeyboard, TRAINER_REPLY_KEYBOARD_EDIT_TEXT,
    TRAINER_REPLY_KEYBOARD_SHOW_TEXT, USER_GET_TRAININGS_REPLY_KEYBOARD_TEXT,
    USER_REPLY_KEYBOARD_TEXT,
};
use crate::models::{all_wf, RegistrationFullInfo, Training, User};
use crate::text::{
    contains_text, last_segment, lemma_last_segment_of_joined, lemma_last_segment_of_plain, same_text,
    split_last_segment,
};

verus! {

/// What the bot knows of a chat when it starts.
pub struct ChatProfile {
    pub id: String,
    pub username: String,
    pub first_name: String,
    pub last_name: String,
}

/// The greeting of a registered user.
pub open spec fn greeting(name: Seq<char>) -> Seq<char> {
    "Здравствуйте, "@ + name + "! Чем могу помочь?"@
}

/// The greeting of a registered user.
pub fn greeting_text(name: &str) -> (res: String)
    ensures
        res@ == greeting(name@),
{
    let mut s = String::from_str("Здравствуйте, ");
    s.append(name);
    s.append("! Чем могу помочь?");
    s
}

/// The account a trainer gets on starting the bot.
pub open spec fn trainer_account(profile: (Seq<char>, Seq<char>, Seq<char>, Seq<char>)) -> (Seq<char>, Seq<char>, Seq<char>, Seq<char>, Seq<char>, bool) {
    (profile.0, "boss trainer"@, profile.1, profile.2, profile.3, true)
}

/// The account a user gets on giving a name.
pub open spec fn user_account(profile: (Seq<char>, Seq<char>, Seq<char>, Seq<char>), name: Seq<char>) -> (Seq<char>, Seq<char>, Seq<char>, Seq<char>, Seq<char>, bool) {
    (profile.0, name, profile.1, profile.2, profile.3, false)
}

impl ChatProfile {
    /// Identifier, user name, first and last name of the chat.
    pub open spec fn view(&self) -> (Seq<char>, Seq<char>, Seq<char>, Seq<char>) {
        (self.id@, self.username@, self.first_name@, self.last_name@)
    }
}

/// The account a trainer gets on starting the bot.
pub fn new_trainer(profile: ChatProfile) -> (res: User)
    ensures
        res@ == trainer_account(profile.view()),
{
    User {
        id: profile.id,
        full_name: String::from_str("boss trainer"),
        username: profile.username,
        first_name: profile.first_name,
        last_name: profile.last_name,
        is_trainer: true,
    }
}

/// The account a user gets on giving `name`.
pub fn new_user(profile: ChatProfile, name: &str) -> (res: User)
    ensures
        res@ == user_account(profile.view(), name@),
{
    User {
        id: profile.id,
        full_name: String::from_str(name),
        username: profile.username,
        first_name: profile.first_name,
        last_name: profile.last_name,
        is_trainer: false,
    }
}

/// What the bot does on the start command.
pub enum StartStep {
    /// Greet a known trainer and show the trainer's keyboard.
    GreetTrainer,
    /// Greet a known user with this text and show the user's keyboard.
    GreetUser { text: String },
    /// Create this trainer's account.
    RegisterTrainer { user: User },
    /// Ask a new user's name.
    AskName,
}

/// The chat `id` is one of the trainers'.
pub open spec fn is_trainer_id(trainer_ids: Seq<String>, id: Seq<char>) -> bool {
    exists|i: int| 0 <= i < trainer_ids.len() && #[trigger] trainer_ids[i]@ == id
}

/// What the bot does on the start command: greet a known account; make an
/// account for a new trainer; ask a new user's name.
pub fn start_step(known: Option<User>, profile: ChatProfile, trainer_ids: &Vec<String>) -> (res: StartStep)
    ensures
        match known {
            Some(u) => if u.is_trainer {
                res is GreetTrainer
            } else {
                res matches StartStep::GreetUser { text } && text@ == greeting(u.full_name@)
            },
            None => if is_trainer_id(trainer_ids@, profile.id@) {
                res matches StartStep::RegisterTrainer { user } && user@ == trainer_account(profile.view())
            } else {
                res is AskName
            },
        },
{
    match known {
        Some(u) => {
            if u.is_trainer {
                StartStep::GreetTrainer
            } else {
                StartStep::GreetUser { text: greeting_text(u.full_name.as_str()) }
            }
        },
        None => {
            if contains_text(trainer_ids, profile.id.as_str()) {
                StartStep::RegisterTrainer { user: new_trainer(profile) }
            } else {
                StartStep::AskName
            }
        },
    }
}

/// What the bot does with a text from the reply keyboard.
#[derive(Clone, Copy, PartialEq, Eq, Structural, Debug)]
pub enum UserTextAction {
    /// A user starts a registration: choose a week.
    ChooseWeek,
    /// A user lists the registrations.
    ShowRegistrations,
    /// A trainer looks at the registrations: choose a week.
    AdminChooseWeek,
    /// A trainer asks to edit the schedule.
    EditSchedule,
    /// Anything else.
    Unknown,
}

/// The action for `text` from a trainer (`is_trainer`) or a user: each
/// reply button answers only the one it is shown to.
pub open spec fn user_text_action(text: Seq<char>, is_trainer: bool) -> UserTextAction {
    if text == USER_REPLY_KEYBOARD_TEXT@ && !is_trainer {
        UserTextAction::ChooseWeek
    } else if text == USER_GET_TRAININGS_REPLY_KEYBOARD_TEXT@ && !is_trainer {
        UserTextAction::ShowRegistrations
    } else if text == TRAINER_REPLY_KEYBOARD_SHOW_TEXT@ && is_trainer {
        UserTextAction::AdminChooseWeek
    } else if text == TRAINER_REPLY_KEYBOARD_EDIT_TEXT@ && is_trainer {
        UserTextAction::EditSchedule
    } else {
        UserTextAction::Unknown
    }
}

/// The action for a text of the reply keyboard.
pub fn route_user_text(text: &str, is_trainer: bool) -> (res: UserTextAction)
    ensures
        res == user_text_action(text@, is_trainer),
{
    if same_text(text, USER_REPLY_KEYBOARD_TEXT) && !is_trainer {
        UserTextAction::ChooseWeek
    } else if same_text(text, USER_GET_TRAININGS_REPLY_KEYBOARD_TEXT) && !is_trainer {
        UserTextAction::ShowRegistrations
    } else if same_text(text, TRAINER_REPLY_KEYBOARD_SHOW_TEXT) && is_trainer {
        UserTextAction::AdminChooseWeek
    } else if same_text(text, TRAINER_REPLY_KEYBOARD_EDIT_TEXT) && is_trainer {
        UserTextAction::EditSchedule
    } else {
        UserTextAction::Unknown
    }
}

/// Whether the chat `id` is one of the trainers'.
pub fn is_trainer(trainer_ids: &Vec<String>, id: &str) -> (res: bool)
    ensures
        res == is_trainer_id(trainer_ids@, id@),
{
    contains_text(trainer_ids, id)
}

/// The line of one of a user's registrations.
pub open spec fn registration_line(t: Training) -> Seq<char> {
    "🥊 "@ + training_label(t) + " \n\n"@
}

/// The lines of a user's registrations, in order.
pub open spec fn registration_lines(ts: Seq<Training>) -> Seq<char>
    decreases ts.len(),
{
    if ts.len() == 0 {
        Seq::empty()
    } else {
        registration_lines(ts.drop_last()) + registration_line(ts.last())
    }
}

/// The list of a user's registrations.
pub open spec fn registrations_text(ts: Seq<Training>) -> Seq<char> {
    "<b>Ваши записи:</b>\n\n"@ + registration_lines(ts)
}

/// The list of a user's registrations.
pub fn my_trainings_text(trainings: &Vec<Training>) -> (res: String)
    requires
        all_wf(trainings@),
    ensures
        res@ == registrations_text(trainings@),
{
    let mut s = String::from_str("<b>Ваши записи:</b>\n\n");
    let mut i: usize = 0;
    while i < trainings.len()
        invariant
            all_wf(trainings@),
            i <= trainings@.len(),
            s@ == "<b>Ваши записи:</b>\n\n"@ + registration_lines(trainings@.subrange(0, i as int)),
        decreases trainings.len() - i,
    {
        let t = &trainings[i];
        assert(trainings@[i as int].wf());
        s.append("🥊 ");
        s.append(format_training_label(t).as_str());
        s.append(" \n\n");
        proof {
            assert(trainings@.subrange(0, i + 1).drop_last() =~= trainings@.subrange(0, i as int));
        }
        i = i + 1;
    }
    assert(trainings@.subrange(0, trainings@.len() as int) =~= trainings@);
    s
}

/// The line of one registration of a day, as a trainer sees it.
pub open spec fn day_registration_line(r: RegistrationFullInfo) -> Seq<char> {
    r.start_time.hour_minute_text() + " — "@ + r.full_name@ + ", @"@ + r.username@ + " \n"@
}

/// The lines of a day's registrations, in order.
pub open spec fn day_registration_lines(rs: Seq<RegistrationFullInfo>) -> Seq<char>
    decreases rs.len(),
{
    if rs.len() == 0 {
        Seq::empty()
    } else {
        day_registration_lines(rs.drop_last()) + day_registration_line(rs.last())
    }
}

/// The registrations of `day`, as a trainer sees them.
pub open spec fn day_registrations_text(day: Date, rs: Seq<RegistrationFullInfo>) -> Seq<char> {
    "<b> Записи на "@ + day.day_month_text() + ":</b>\n\n"@ + day_registration_lines(rs)
}

/// The registrations of `day`, as a trainer sees them.
pub fn admin_day_text(day: Date, infos: &Vec<RegistrationFullInfo>) -> (res: String)
    requires
        day.wf(),
        forall|i: int| 0 <= i < infos@.len() ==> (#[trigger] infos@[i]).start_time.wf(),
    ensures
        res@ == day_registrations_text(day, infos@),
{
    let mut s = String::from_str("<b> Записи на ");
    s.append(day.format_day_month().as_str());
    s.append(":</b>\n\n");
    let mut i: usize = 0;
    while i < infos.len()
        invariant
            day.wf(),
            forall|i: int| 0 <= i < infos@.len() ==> (#[trigger] infos@[i]).start_time.wf(),
            i <= infos@.len(),
            s@ == "<b> Записи на "@ + day.day_month_text() + ":</b>\n\n"@ + day_registration_lines(
                infos@.subrange(0, i as int),
            ),
        decreases infos.len() - i,
    {
        let r = &infos[i];
        assert(infos@[i as int].start_time.wf());
        s.append(r.start_time.format_hour_minute().as_str());
        s.append(" — ");
        s.append(r.full_name.as_str());
        s.append(", @");
        s.append(r.username.as_str());
        s.append(" \n");
        proof {
            assert(infos@.subrange(0, i + 1).drop_last() =~= infos@.subrange(0, i as int));
        }
        i = i + 1;
    }
    assert(infos@.subrange(0, infos@.len() as int) =~= infos@);
    s
}

/// The question that confirms a registration for `t`.
pub open spec fn confirm_registration_question(t: Training) -> Seq<char> {
    "Записаться на "@ + t.date.day_month_text() + " в "@ + t.start_time.hour_minute_text() + "?"@
}

/// The question that confirms a registration.
pub fn confirm_registration_text(t: &Training) -> (res: String)
    requires
        t.wf(),
    ensures
        res@ == confirm_registration_question(*t),
{
    let mut s = String::from_str("Записаться на ");
    s.append(t.date.format_day_month().as_str());
    s.append(" в ");
    s.append(t.start_time.format_hour_minute().as_str());
    s.append("?");
    s
}

/// The question that confirms cancelling the registration for `t`.
pub open spec fn confirm_cancel_question(t: Training) -> Seq<char> {
    "Вы точно хотите отменить эту тренировку: "@ + training_label(t)
}

/// The question that confirms cancelling a registration.
pub fn confirm_cancel_text(t: &Training) -> (res: String)
    requires
        t.wf(),
    ensures
        res@ == confirm_cancel_question(*t),
{
    let mut s = String::from_str("Вы точно хотите отменить эту тренировку: ");
    s.append(format_training_label(t).as_str());
    s
}

/// A keyboard of one row with one button.
fn single_button_keyboard(text: &str, data: &str) -> (res: InlineKeyboard)
    ensures
        res@ == seq![seq![(text@, data@)]],
{
    let mut row: Vec<InlineButton> = Vec::new();
    row.push(InlineButton { text: String::from_str(text), callback_data: String::from_str(data) });
    let mut rows: Vec<Vec<InlineButton>> = Vec::new();
    rows.push(row);
    let res = InlineKeyboard { rows };
    proof {
        assert(res@[0] =~= seq![(text@, data@)]);
        assert(res@ =~= seq![seq![(text@, data@)]]);
    }
    res
}

/// The keyboard under a user's list of registrations: cancel one.
pub fn my_trainings_keyboard() -> (res: InlineKeyboard)
    ensures
        res@ == seq![seq![("❌ Отменить запись"@, "otm"@)]],
{
    single_button_keyboard("❌ Отменить запись", "otm")
}

/// The keyboard that confirms a cancellation: cancel, or back to the list.
pub open spec fn cancel_confirm_keyboard() -> Seq<Seq<ButtonView>> {
    seq![seq![("❌ Отменить"@, "cancel"@)], back_row("showtrainings"@, "sdf"@)]
}

/// The keyboard that confirms a cancellation.
pub fn confirm_cancel_keyboard() -> (res: InlineKeyboard)
    ensures
        res@ == cancel_confirm_keyboard(),
{
    let mut res = single_button_keyboard("❌ Отменить", "cancel");
    let ghost before = res.rows@;
    res.rows.push(create_back_button("showtrainings", "sdf"));
    proof {
        crate::keyboards::lemma_rows_view_push(before, res.rows@.last());
        assert(res@ =~= cancel_confirm_keyboard());
    }
    res
}

/// The keyboard under a day's registrations: back to the days, with the data
/// of the pressed day.
pub fn admin_day_keyboard(data: &str) -> (res: InlineKeyboard)
    ensures
        res@ == seq![back_row("adminchooseday"@, data@)],
{
    let mut rows: Vec<Vec<InlineButton>> = Vec::new();
    rows.push(create_back_button("adminchooseday", data));
    let res = InlineKeyboard { rows };
    proof {
        assert(res@ =~= seq![back_row("adminchooseday"@, data@)]);
    }
    res
}

/// The date that a pressed button's data ends with: the text after its last
/// `/`, read as `%Y-%m-%d`; a date of the years 0 to 9999 written there comes back.
pub fn selected_date(data: &str) -> (res: Option<Date>)
    ensures
        res matches Some(d) ==> Some(d.days) == crate::calendar::parsed_date(last_segment(data@))
            && d.wf(),
        res is None <==> crate::calendar::parsed_date(last_segment(data@)) is None,
        forall|d: Date|
            d.wf() && 0 <= d.year() <= 9999 && last_segment(data@) == #[trigger] d.text() ==> res
                == Some(d),
{
    let last = split_last_segment(data);
    Date::parse(last)
}

/// The training that a pressed button's data ends with: the identifier after
/// its last `/`; an identifier written there in its hyphenated form comes back.
pub fn selected_training(data: &str) -> (res: Option<u128>)
    ensures
        res == parsed_uuid(last_segment(data@)),
        forall|id: u128| last_segment(data@) == #[trigger] uuid_text(id) ==> res == Some(id),
{
    let last = split_last_segment(data);
    parse_uuid(last)
}

/// A day button sends, after its last `/`, the text of its training's date,
/// which is what `selected_date` reads back.
pub proof fn law_day_button_round_trip(ts: Seq<Training>, previous_data: Seq<char>, k: int)
    requires
        0 <= k < ts.len(),
    ensures
        days_keyboard(ts, previous_data)[k + 1] == seq![day_button(ts[k], previous_data)],
        last_segment(day_button(ts[k], previous_data).1) == ts[k].date.text(),
{
    lemma_date_text_lacks_slash(ts[k].date);
    lemma_last_segment_of_joined(previous_data, ts[k].date.text());
    assert(previous_data + "/"@ + ts[k].date.text() == previous_data + seq!['/'] + ts[k].date.text())
        by {
        reveal_strlit("/");
        assert("/"@ =~= seq!['/']);
    }
}

/// A start-time button stands in row `k / 2 + 1`, place `k % 2`, and sends,
/// after its last `/`, the identifier of its training, which is what
/// `selected_training` reads back.
pub proof fn law_time_button_round_trip(ts: Seq<Training>, previous_data: Seq<char>, k: int)
    requires
        0 <= k < ts.len(),
    ensures
        time_keyboard(ts, previous_data)[k / 2 + 1][k % 2] == time_button(ts[k], previous_data),
        last_segment(time_button(ts[k], previous_data).1) == uuid_text(ts[k].id),
{
    lemma_uuid_text_lacks_slash(ts[k].id);
    lemma_last_segment_of_joined(previous_data, uuid_text(ts[k].id));
    assert(previous_data + "/"@ + uuid_text(ts[k].id) == previous_data + seq!['/'] + uuid_text(
        ts[k].id,
    )) by {
        reveal_strlit("/");
        assert("/"@ =~= seq!['/']);
    }
    let j = k / 2;
    assert(time_keyboard(ts, previous_data)[j + 1] == time_row(ts, previous_data, j));
    assert(2 * j + k % 2 == k);
}

/// A week button sends the text of the week's Monday and nothing else: read
/// whole or after its last `/`, it gives the Monday back.
pub proof fn law_week_button_round_trip(weeks: Seq<Vec<Date>>, k: int)
    requires
        0 <= k < weeks.len(),
        weeks[k]@.len() >= 2,
    ensures
        weeks_keyboard(weeks)[k] == seq![week_button(weeks[k]@)],
        last_segment(week_button(weeks[k]@).1) == weeks[k]@[0].text(),
        week_button(weeks[k]@).1 == weeks[k]@[0].text(),
{
    lemma_date_text_lacks_slash(weeks[k]@[0]);
    lemma_last_segment_of_plain(weeks[k]@[0].text());
}

/// A cancel button sends the identifier of its training.
pub proof fn law_cancel_button_sends_id(ts: Seq<Training>, k: int)
    requires
        0 <= k < ts.len(),
    ensures
        cancel_training_keyboard(ts)[k] == seq![(training_label(ts[k]), uuid_text(ts[k].id))],
{
}

/// The last day of the week that starts on `first`.
pub fn week_end(first: Date) -> (res: Date)
    requires
        first.wf(),
        first.days + 6 <= MAX_DAY,
    ensures
        res == first.plus(6),
{
    first.add_days(6)
}

/// What a lookup in storage found.
#[derive(Clone, Copy, PartialEq, Eq, Structural, Debug)]
pub enum Lookup {
    Found,
    Missing,
    Failed,
}

/// What registering an account does after looking it up.
#[derive(Clone, Copy, PartialEq, Eq, Structural, Debug)]
pub enum RegisterStep {
    /// No such account yet: create it.
    Create,
    /// The account exists: refuse.
    AlreadyRegistered,
    /// The lookup failed: report it.
    LookupFailed,
}

/// What registering an account does after looking it up.
pub fn register_step(lookup: Lookup) -> (res: RegisterStep)
    ensures
        lookup is Found ==> res is AlreadyRegistered,
        lookup is Missing ==> res is Create,
        lookup is Failed ==> res is LookupFailed,
{
    match lookup {
        Lookup::Found => RegisterStep::AlreadyRegistered,
        Lookup::Missing => RegisterStep::Create,
        Lookup::Failed => RegisterStep::LookupFailed,
    }
}

/// Whether the weekly reminder goes out after looking up today's record of
/// it: only where none is recorded.
pub fn reminder_due(lookup: Lookup) -> (res: bool)
    ensures
        res <==> lookup is Missing,
{
    match lookup {
        Lookup::Missing => true,
        _ => false,
    }
}

/// `t` lies between `h1`:`m1` and `h2`:`m2`, both included.
pub open spec fn within(t: Time, h1: int, m1: int, h2: int, m2: int) -> bool {
    Time { secs: (h1 * 3600 + m1 * 60) as u32, nanos: 0 }.not_after(t) && t.not_after(
        Time { secs: (h2 * 3600 + m2 * 60) as u32, nanos: 0 },
    )
}

/// The weekly reminder goes out on Sundays between 18:00 and 18:20.
pub open spec fn reminder_time(today: Date, now: Time) -> bool {
    today.weekday() == 6 && within(now, 18, 0, 18, 20)
}

/// Whether it is time for the weekly reminder.
pub fn is_reminder_time(today: Date, now: Time) -> (res: bool)
    requires
        today.wf(),
    ensures
        res == reminder_time(today, now),
{
    is_reminder_moment(today.weekday_from_monday(), now)
}

/// Whether weekday `weekday` (Monday being 0) at `now` is the time of the
/// weekly reminder: Sunday, between 18:00 and 18:20.
pub fn is_reminder_moment(weekday: u32, now: Time) -> (res: bool)
    ensures
        res == (weekday == 6 && within(now, 18, 0, 18, 20)),
{
    let start = Time { secs: 18 * 3600, nanos: 0 };
    let end = Time { secs: 18 * 3600 + 20 * 60, nanos: 0 };
    weekday == 6 && start.is_not_after(&now) && now.is_not_after(&end)
}

/// New trainings are added between 00:00 and 00:10.
pub open spec fn creation_time(now: Time) -> bool {
    within(now, 0, 0, 0, 10)
}

/// Whether it is time to add the new trainings.
pub fn is_creation_time(now: Time) -> (res: bool)
    ensures
        res == creation_time(now),
{
    let start = Time { secs: 0, nanos: 0 };
    let end = Time { secs: 10 * 60, nanos: 0 };
    start.is_not_after(&now) && now.is_not_after(&end)
}

/// What a lookup of the reminder record of `day` finds, where `recorded`
/// holds the day numbers whose reminder was recorded and storage answers.
pub open spec fn stored_lookup(recorded: Set<int>, day: Date) -> Lookup {
    if recorded.contains(day.days as int) {
        Lookup::Found
    } else {
        Lookup::Missing
    }
}

/// The reminder goes out at a tick on `today` at `now` where the lookup of
/// today's record gave `lookup`: what `is_reminder_time` and `reminder_due`
/// decide together.
pub open spec fn reminder_step(today: Date, now: Time, lookup: Lookup) -> bool {
    reminder_time(today, now) && lookup is Missing
}

/// The reminder loop over `ticks` (each the date and time in Moscow), from
/// the records `recorded`, storage answering and recording: the dates it
/// sends the reminder on, in order, and the records afterwards.
pub open spec fn reminder_run(ticks: Seq<(Date, Time)>, recorded: Set<int>) -> (Seq<Date>, Set<int>)
    decreases ticks.len(),
{
    if ticks.len() == 0 {
        (Seq::empty(), recorded)
    } else {
        let (sent, records) = reminder_run(ticks.drop_last(), recorded);
        let (day, now) = ticks.last();
        if reminder_step(day, now, stored_lookup(records, day)) {
            (sent.push(day), records.insert(day.days as int))
        } else {
            (sent, records)
        }
    }
}

/// No date occurs twice among `sent`.
pub open spec fn distinct_dates(sent: Seq<Date>) -> bool {
    forall|i: int, j: int| 0 <= i < j < sent.len() ==> sent[i].days != sent[j].days
}

/// Each date of `sent` is a Sunday, not among `recorded`, and the date of a
/// tick at the reminder's time.
pub open spec fn sent_rightly(sent: Seq<Date>, ticks: Seq<(Date, Time)>, recorded: Set<int>) -> bool {
    forall|i: int|
        0 <= i < sent.len() ==> {
            &&& (#[trigger] sent[i]).weekday() == 6
            &&& !recorded.contains(sent[i].days as int)
            &&& exists|k: int| 0 <= k < ticks.len() && ticks[k].0 == sent[i] && reminder_time(#[trigger] ticks[k].0, ticks[k].1)
        }
}

/// `records` are `recorded` and the dates of `sent`.
pub open spec fn records_after(records: Set<int>, recorded: Set<int>, sent: Seq<Date>) -> bool {
    forall|x: int| #[trigger] records.contains(x) <==> (recorded.contains(x) || exists|i: int|
        0 <= i < sent.len() && (#[trigger] sent[i]).days == x)
}

/// Every tick at the reminder's time has its date among `records`.
pub open spec fn reminder_ticks_recorded(ticks: Seq<(Date, Time)>, records: Set<int>) -> bool {
    forall|k: int|
        0 <= k < ticks.len() && reminder_time(#[trigger] ticks[k].0, ticks[k].1) ==> records.contains(
            ticks[k].0.days as int,
        )
}

/// Over any run of ticks the reminder goes out at most once for each date,
/// only on Sundays between 18:00 and 18:20, only for dates not recorded
/// before; every tick at that time ends with its date recorded, so it goes
/// out for each such date that had none yet; the records afterwards are
/// those before and the dates it went out on.
pub proof fn law_reminder_once_per_date(ticks: Seq<(Date, Time)>, recorded: Set<int>)
    ensures
        distinct_dates(reminder_run(ticks, recorded).0),
        sent_rightly(reminder_run(ticks, recorded).0, ticks, recorded),
        records_after(reminder_run(ticks, recorded).1, recorded, reminder_run(ticks, recorded).0),
        reminder_ticks_recorded(ticks, reminder_run(ticks, recorded).1),
    decreases ticks.len(),
{
    if ticks.len() > 0 {
        let prev = ticks.drop_last();
        law_reminder_once_per_date(prev, recorded);
        let (sent0, rec0) = reminder_run(prev, recorded);
        let (day, now) = ticks.last();
        let (sent, records) = reminder_run(ticks, recorded);
        assert forall|k: int| 0 <= k < prev.len() implies #[trigger] prev[k] == ticks[k] by {}
        if reminder_step(day, now, stored_lookup(rec0, day)) {
            assert(sent == sent0.push(day));
            assert(records == rec0.insert(day.days as int));
            assert(!rec0.contains(day.days as int));
            assert forall|i: int| 0 <= i < sent0.len() implies (#[trigger] sent0[i]).days != day.days by {
                assert(rec0.contains(sent0[i].days as int));
            }
            assert(distinct_dates(sent)) by {
                assert forall|i: int, j: int| 0 <= i < j < sent.len() implies sent[i].days != sent[j].days by {
                    if j == sent.len() - 1 {
                        assert(sent[i] == sent0[i]);
                    } else {
                        assert(sent[i] == sent0[i] && sent[j] == sent0[j]);
                    }
                }
            }
            assert(sent_rightly(sent, ticks, recorded)) by {
                assert forall|i: int| 0 <= i < sent.len() implies {
                    &&& (#[trigger] sent[i]).weekday() == 6
                    &&& !recorded.contains(sent[i].days as int)
                    &&& exists|k: int| 0 <= k < ticks.len() && ticks[k].0 == sent[i] && reminder_time(#[trigger] ticks[k].0, ticks[k].1)
                } by {
                    if i < sent0.len() {
                        assert(sent[i] == sent0[i]);
                        let k = choose|k: int|
                            0 <= k < prev.len() && prev[k].0 == sent0[i] && reminder_time(#[trigger] prev[k].0, prev[k].1);
                        assert(prev[k] == ticks[k]);
                    } else {
                        assert(sent[i] == day);
                        assert(ticks[ticks.len() - 1].0 == sent[i]);
                        assert(!(exists|j: int| 0 <= j < sent0.len() && (#[trigger] sent0[j]).days == day.days));
                    }
                }
            }
            assert(records_after(records, recorded, sent)) by {
                assert forall|x: int| #[trigger] records.contains(x) <==> (recorded.contains(x) || exists|i: int|
                    0 <= i < sent.len() && (#[trigger] sent[i]).days == x) by {
                    if x == day.days as int {
                        assert(sent[sent.len() - 1].days == x);
                    }
                    if exists|i: int| 0 <= i < sent.len() && (#[trigger] sent[i]).days == x {
                        let i = choose|i: int| 0 <= i < sent.len() && (#[trigger] sent[i]).days == x;
                        if i < sent0.len() {
                            assert(sent0[i].days == x);
                        }
                    }
                    if exists|i: int| 0 <= i < sent0.len() && (#[trigger] sent0[i]).days == x {
                        let i = choose|i: int| 0 <= i < sent0.len() && (#[trigger] sent0[i]).days == x;
                        assert(sent[i].days == x);
                    }
                }
            }
        } else {
            assert(sent == sent0 && records == rec0);
            assert(sent_rightly(sent, ticks, recorded)) by {
                assert forall|i: int| 0 <= i < sent.len() implies {
                    &&& (#[trigger] sent[i]).weekday() == 6
                    &&& !recorded.contains(sent[i].days as int)
                    &&& exists|k: int| 0 <= k < ticks.len() && ticks[k].0 == sent[i] && reminder_time(#[trigger] ticks[k].0, ticks[k].1)
                } by {
                    let k = choose|k: int|
                        0 <= k < prev.len() && prev[k].0 == sent0[i] && reminder_time(#[trigger] prev[k].0, prev[k].1);
                    assert(prev[k] == ticks[k]);
                }
            }
        }
        assert(reminder_ticks_recorded(ticks, records)) by {
            assert forall|k: int|
                0 <= k < ticks.len() && reminder_time(#[trigger] ticks[k].0, ticks[k].1) implies records.contains(
                    ticks[k].0.days as int,
                ) by {
                if k < prev.len() {
                    assert(prev[k] == ticks[k]);
                    assert(rec0.contains(prev[k].0.days as int));
                }
            }
        }
    }
}

/// The ticks, among `times` (each the time in Moscow), at which the creation
/// loop adds the new trainings, in order.
pub open spec fn creation_run(times: Seq<Time>) -> Seq<int>
    decreases times.len(),
{
    if times.len() == 0 {
        Seq::empty()
    } else {
        let before = creation_run(times.drop_last());
        if creation_time(times.last()) {
            before.push(times.len() - 1)
        } else {
            before
        }
    }
}

/// Over any run of ticks, the new trainings are added exactly at the ticks
/// between 00:00 and 00:10, once at each, in the order of the ticks.
pub proof fn law_creation_only_in_window(times: Seq<Time>)
    ensures
        forall|k: int| #[trigger] creation_run(times).contains(k) <==> (0 <= k < times.len()
            && creation_time(times[k])),
        forall|i: int, j: int|
            0 <= i < j < creation_run(times).len() ==> creation_run(times)[i] < creation_run(times)[j],
    decreases times.len(),
{
    if times.len() > 0 {
        let prev = times.drop_last();
        law_creation_only_in_window(prev);
        let before = creation_run(prev);
        let run = creation_run(times);
        assert forall|k: int| 0 <= k < prev.len() implies #[trigger] prev[k] == times[k] by {}
        assert forall|i: int| 0 <= i < before.len() implies (#[trigger] before[i]) < prev.len() by {
            assert(before.contains(before[i]));
        }
        assert forall|k: int| #[trigger] run.contains(k) <==> (0 <= k < times.len() && creation_time(
            times[k],
        )) by {
            if creation_time(times.last()) {
                assert(run == before.push(times.len() - 1));
                if run.contains(k) && k != times.len() - 1 {
                    let i = choose|i: int| 0 <= i < run.len() && run[i] == k;
                    assert(before.contains(before[i]));
                }
                if 0 <= k < prev.len() && creation_time(times[k]) {
                    assert(before.contains(k));
                    let i = choose|i: int| 0 <= i < before.len() && before[i] == k;
                    assert(run[i] == k);
                }
                if k == times.len() - 1 {
                    assert(run[run.len() - 1] == k);
                }
            } else {
                if 0 <= k < prev.len() && creation_time(times[k]) {
                    assert(before.contains(k));
                }
            }
        }
    }
}

} // verus!
