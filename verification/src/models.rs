//! The records that the bot keeps and exchanges.
use vstd::prelude::*;
use crate::calendar::{Date, Time, UNIX_EPOCH_DAY};
use crate::ids::new_random_id;

verus! {

/// A person known to the bot: a trainee or a trainer.
pub struct User {
    pub id: String,
    pub full_name: String,
    pub username: String,
    pub first_name: String,
    pub last_name: String,
    pub is_trainer: bool,
}

impl Default for User {
    /// A user with empty names, not a trainer.
    fn default() -> (res: User)
        ensures
            res@ == (Seq::<char>::empty(), Seq::<char>::empty(), Seq::<char>::empty(), Seq::<char>::empty(), Seq::<char>::empty(), false),
    {
        User {
            id: String::new(),
            full_name: String::new(),
            username: String::new(),
            first_name: String::new(),
            last_name: String::new(),
            is_trainer: false,
        }
    }
}

impl View for User {
    type V = (Seq<char>, Seq<char>, Seq<char>, Seq<char>, Seq<char>, bool);

    open spec fn view(&self) -> Self::V {
        (self.id@, self.full_name@, self.username@, self.first_name@, self.last_name@, self.is_trainer)
    }
}

/// A training slot on the schedule.
#[derive(Clone, Copy, PartialEq, Eq, Structural, Debug)]
pub struct Training {
    pub id: u128,
    pub date: Date,
    pub start_time: Time,
    pub end_time: Time,
    pub capacity: u32,
    pub enabled: bool,
}

impl Training {
    /// Date and times name real days and instants.
    pub open spec fn wf(self) -> bool {
        self.date.wf() && self.start_time.wf() && self.end_time.wf()
    }
}

impl Training {
    /// Whether date and times name real days and instants.
    pub fn is_valid(&self) -> (res: bool)
        ensures
            res == self.wf(),
    {
        self.date.is_valid() && self.start_time.is_valid() && self.end_time.is_valid()
    }
}

impl Default for Training {
    /// The nil training: identifier 0, on January 1, 1970, from and to midnight,
    /// no places, not enabled.
    fn default() -> (res: Training)
        ensures
            res == (Training {
                id: 0,
                date: Date { days: UNIX_EPOCH_DAY },
                start_time: Time { secs: 0, nanos: 0 },
                end_time: Time { secs: 0, nanos: 0 },
                capacity: 0,
                enabled: false,
            }),
    {
        Training {
            id: 0,
            date: Date::default(),
            start_time: Time::default(),
            end_time: Time::default(),
            capacity: 0,
            enabled: false,
        }
    }
}

/// Every training of `s` names real days and instants.
pub open spec fn all_wf(s: Seq<Training>) -> bool {
    forall|i: int| 0 <= i < s.len() ==> #[trigger] s[i].wf()
}

/// A user's place in a training.
pub struct Registration {
    pub id: u128,
    pub user_id: String,
    pub training_id: u128,
}

impl Registration {
    /// A new registration of the user `user_id` for the training `training_id`,
    /// under a fresh random identifier.
    pub fn new_for(user_id: String, training_id: u128) -> (res: Registration)
        ensures
            res.user_id == user_id,
            res.training_id == training_id,
            (res.id / 0x1_0000_0000_0000_0000_000) % 16 == 4,
            (res.id / 0x4000_0000_0000_0000) % 4 == 2,
    {
        Registration { id: new_random_id(), user_id, training_id }
    }
}

/// The record that the weekly reminder went out on a date.
#[derive(Clone, Copy, PartialEq, Eq, Structural, Debug)]
pub struct Notification {
    pub id: u128,
    pub date: Date,
}

/// A registration with what a trainer sees of it.
pub struct RegistrationFullInfo {
    pub date: Date,
    pub start_time: Time,
    pub end_time: Time,
    pub full_name: String,
    pub username: String,
}

/// One message of a chat request to the language model.
pub struct Message {
    pub role: String,
    pub content: String,
}

/// A chat request asking the language model to read a cancellation order.
pub struct CancelTrainingAiRequest {
    pub model: String,
    pub messages: Vec<Message>,
    pub stream: bool,
}

/// The model the cancellation requests are sent to.
pub open spec fn cancel_model_name() -> Seq<char> {
    "gpt-oss:120b-cloud"@
}

impl CancelTrainingAiRequest {
    /// A request whose system message is `promt` and whose user message is `message`.
    pub fn new(promt: String, message: String) -> (res: Self)
        ensures
            res.model@ == cancel_model_name(),
            res.messages@.len() == 2,
            res.messages@[0].role@ == "system"@,
            res.messages@[0].content@ == promt@,
            res.messages@[1].role@ == "user"@,
            res.messages@[1].content@ == message@,
            !res.stream,
    {
        let system = Message { role: String::from_str("system"), content: promt };
        let user = Message { role: String::from_str("user"), content: message };
        let mut messages: Vec<Message> = Vec::new();
        messages.push(system);
        messages.push(user);
        CancelTrainingAiRequest {
            model: String::from_str("gpt-oss:120b-cloud"),
            messages,
            stream: false,
        }
    }
}

/// The reply of the language model.
pub struct OllamaResponse {
    pub message: OllamaMessage,
}

/// The message inside a reply of the language model.
pub struct OllamaMessage {
    pub content: String,
}

/// What a trainer's cancellation order asks to cancel: a range of dates
/// and, within each, an optional range of times.
#[derive(Clone, Copy, PartialEq, Eq, Structural, Debug)]
pub struct CancelResponse {
    pub date_from: Date,
    pub date_to: Date,
    pub time_from: Option<Time>,
    pub time_to: Option<Time>,
}

impl CancelResponse {
    /// The dates and times name real days and instants.
    pub open spec fn wf(self) -> bool {
        &&& self.date_from.wf()
        &&& self.date_to.wf()
        &&& self.time_from matches Some(t) ==> t.wf()
        &&& self.time_to matches Some(t) ==> t.wf()
    }

    /// The dates part of the summary.
    pub open spec fn dates_text(self) -> Seq<char> {
        if self.date_from == self.date_to {
            self.date_from.day_month_text() + " "@
        } else {
            self.date_from.day_month_text() + " - "@ + self.date_to.day_month_text() + " "@
        }
    }

    /// The times part of the summary.
    pub open spec fn times_text(self) -> Seq<char> {
        match (self.time_from, self.time_to) {
            (Some(from), Some(to)) => if from == to {
                "в "@ + from.hour_minute_text()
            } else {
                "c "@ + from.hour_minute_text() + " по "@ + to.hour_minute_text()
            },
            (Some(from), None) => "c "@ + from.hour_minute_text() + " до конца дня"@,
            (None, Some(to)) => "c начал дня до "@ + to.hour_minute_text(),
            (None, None) => Seq::empty(),
        }
    }

    /// The summary of the cancellation shown to the trainer.
    pub open spec fn summary(self) -> Seq<char> {
        "Отмена: "@ + self.dates_text() + self.times_text()
    }

    /// The summary of the cancellation shown to the trainer.
    pub fn to_string(&self) -> (res: String)
        requires
            self.wf(),
        ensures
            res@ == self.summary(),
            res@ == "Отмена: "@ + self.dates_text() + self.times_text(),
    {
        let mut res = String::from_str("Отмена: ");
        if self.date_from == self.date_to {
            res.append(self.date_from.format_day_month().as_str());
            res.append(" ");
        } else {
            res.append(self.date_from.format_day_month().as_str());
            res.append(" - ");
            res.append(self.date_to.format_day_month().as_str());
            res.append(" ");
        }
        match (self.time_from, self.time_to) {
            (Some(from), Some(to)) => {
                if from == to {
                    res.append("в ");
                    res.append(from.format_hour_minute().as_str());
                } else {
                    res.append("c ");
                    res.append(from.format_hour_minute().as_str());
                    res.append(" по ");
                    res.append(to.format_hour_minute().as_str());
                }
            },
            (Some(from), None) => {
                res.append("c ");
                res.append(from.format_hour_minute().as_str());
                res.append(" до конца дня");
            },
            (None, Some(to)) => {
                res.append("c начал дня до ");
                res.append(to.format_hour_minute().as_str());
            },
            (None, None) => {},
        }
        proof {
            assert(res@ =~= self.summary());
            law_cancel_summary_parts(*self, *self);
        }
        res
    }
}

/// A cancellation summary is "Отмена: ", then the dates part, then the times
/// part, whatever the dates; the dates part depends on the dates alone and the
/// times part on the times alone, so two orders with the same times end alike.
pub proof fn law_cancel_summary_parts(a: CancelResponse, b: CancelResponse)
    ensures
        a.summary() == "Отмена: "@ + a.dates_text() + a.times_text(),
        a.date_from == b.date_from && a.date_to == b.date_to ==> a.dates_text() == b.dates_text(),
        a.time_from == b.time_from && a.time_to == b.time_to ==> a.times_text() == b.times_text(),
{
}

/// The dates part names one day as `%d.%m` when the order spans a single
/// day, else its first and last day joined by " - "; the times part is empty
/// with no times, "c .. по .." for a range, "c .. до конца дня" with only a
/// start and "c начал дня до .." with only an end.
pub proof fn law_cancel_summary_cases(c: CancelResponse)
    ensures
        c.date_from == c.date_to ==> c.dates_text() == c.date_from.day_month_text() + " "@,
        c.date_from != c.date_to ==> c.dates_text() == c.date_from.day_month_text() + " - "@
            + c.date_to.day_month_text() + " "@,
        c.time_from is None && c.time_to is None ==> c.summary() == "Отмена: "@ + c.dates_text(),
        forall|f: Time, t: Time|
            c.time_from == Some(f) && c.time_to == Some(t) && f != t ==> c.times_text() == "c "@
                + f.hour_minute_text() + " по "@ + t.hour_minute_text(),
        forall|f: Time|
            c.time_from == Some(f) && c.time_to is None ==> c.times_text() == "c "@
                + f.hour_minute_text() + " до конца дня"@,
        forall|t: Time|
            c.time_from is None && c.time_to == Some(t) ==> c.times_text() == "c начал дня до "@
                + t.hour_minute_text(),
{
    assert(c.time_from is None && c.time_to is None ==> c.summary() =~= "Отмена: "@ + c.dates_text());
}

/// An order for a single time `t` ends its summary with "в " and `t` as
/// `%H:%M`, whether it spans one day or several.
pub proof fn law_cancel_single_time(c: CancelResponse, t: Time)
    requires
        c.time_from == Some(t),
        c.time_to == Some(t),
    ensures
        c.summary() == "Отмена: "@ + c.dates_text() + "в "@ + t.hour_minute_text(),
        c.date_from != c.date_to ==> c.summary() == "Отмена: "@ + c.date_from.day_month_text()
            + " - "@ + c.date_to.day_month_text() + " "@ + "в "@ + t.hour_minute_text(),
{
    assert(c.summary() =~= "Отмена: "@ + c.dates_text() + "в "@ + t.hour_minute_text());
}

} // verus!
