//! The steps of a chat's dialogue with the bot, and which handler serves
//! each step.
use vstd::prelude::*;
use vstd::std_specs::convert::FromSpecImpl;
use crate::models::Training;
use crate::text::same_text;

verus! {

/// The step a chat's dialogue is at.
#[derive(Clone, Copy, PartialEq, Eq, Structural, Debug)]
pub enum State {
    Default,
    Register,
    ChooseWeek,
    ChooseDay,
    ChooseTime,
    ConfirmRegistration { training: Training },
    ShowTrainings,
    ChooseCancelTraining,
    ConfirmCancelTraining { training: Training },
    AdminChooseWeek,
    AdminChooseDay,
    AdminShowTrainings,
}

impl Default for State {
    fn default() -> (res: State)
        ensures
            res == State::Default,
    {
        State::Default
    }
}

/// The step a name stands for; every other name stands for the first step.
pub open spec fn state_named(name: Seq<char>) -> State {
    if name == "default"@ {
        State::Default
    } else if name == "register"@ {
        State::Register
    } else if name == "chooseweek"@ {
        State::ChooseWeek
    } else if name == "chooseday"@ {
        State::ChooseDay
    } else if name == "choosetime"@ {
        State::ChooseTime
    } else if name == "showtrainings"@ {
        State::ShowTrainings
    } else if name == "choosecanceltraining"@ {
        State::ChooseCancelTraining
    } else {
        State::Default
    }
}

impl<'a> From<&'a str> for State {
    fn from(value: &'a str) -> (res: State)
        ensures
            res == state_named(value@),
    {
        if same_text(value, "default") {
            State::Default
        } else if same_text(value, "register") {
            State::Register
        } else if same_text(value, "chooseweek") {
            State::ChooseWeek
        } else if same_text(value, "chooseday") {
            State::ChooseDay
        } else if same_text(value, "choosetime") {
            State::ChooseTime
        } else if same_text(value, "showtrainings") {
            State::ShowTrainings
        } else if same_text(value, "choosecanceltraining") {
            State::ChooseCancelTraining
        } else {
            State::Default
        }
    }
}

impl<'a> FromSpecImpl<&'a str> for State {
    open spec fn obeys_from_spec() -> bool {
        true
    }

    open spec fn from_spec(v: &'a str) -> State {
        state_named(v@)
    }
}

/// Which handler answers a text message.
#[derive(Clone, Copy, PartialEq, Eq, Structural, Debug)]
pub enum MessageRoute {
    /// A command: start or help.
    Command,
    /// The name of a user who registers.
    Name,
    /// A text of the reply keyboard, or anything else.
    Text,
}

/// Which handler answers the press of a button under a message.
#[derive(Clone, Copy, PartialEq, Eq, Structural, Debug)]
pub enum CallbackRoute {
    ChooseWeek,
    ChooseDay,
    ChooseTime,
    ConfirmRegistration { training: Training },
    ChooseTrainingToCancel,
    ConfirmCancelTraining,
    CancelTraining { training: Training },
    AdminChooseDay,
    AdminShowTime,
}

/// The handler of a text message at step `state`: commands first, then the
/// name of a registering user, then everything else.
pub open spec fn message_route(state: State, is_command: bool) -> MessageRoute {
    if is_command {
        MessageRoute::Command
    } else if state is Register {
        MessageRoute::Name
    } else {
        MessageRoute::Text
    }
}

/// The handler of a button press at step `state`, if the step takes one.
pub open spec fn callback_route(state: State) -> Option<CallbackRoute> {
    match state {
        State::ChooseWeek => Some(CallbackRoute::ChooseWeek),
        State::ChooseDay => Some(CallbackRoute::ChooseDay),
        State::ChooseTime => Some(CallbackRoute::ChooseTime),
        State::ConfirmRegistration { training } => Some(
            CallbackRoute::ConfirmRegistration { training },
        ),
        State::ShowTrainings => Some(CallbackRoute::ChooseTrainingToCancel),
        State::ChooseCancelTraining => Some(CallbackRoute::ConfirmCancelTraining),
        State::ConfirmCancelTraining { training } => Some(CallbackRoute::CancelTraining { training }),
        State::AdminChooseWeek => Some(CallbackRoute::AdminChooseDay),
        State::AdminChooseDay => Some(CallbackRoute::AdminShowTime),
        _ => None,
    }
}

/// The handler of a text message at step `state`.
pub fn route_message(state: &State, is_command: bool) -> (res: MessageRoute)
    ensures
        res == message_route(*state, is_command),
{
    if is_command {
        MessageRoute::Command
    } else {
        match state {
            State::Register => MessageRoute::Name,
            _ => MessageRoute::Text,
        }
    }
}

/// The handler of a button press at step `state`, if the step takes one.
pub fn route_callback(state: &State) -> (res: Option<CallbackRoute>)
    ensures
        res == callback_route(*state),
{
    match state {
        State::ChooseWeek => Some(CallbackRoute::ChooseWeek),
        State::ChooseDay => Some(CallbackRoute::ChooseDay),
        State::ChooseTime => Some(CallbackRoute::ChooseTime),
        State::ConfirmRegistration { training } => Some(
            CallbackRoute::ConfirmRegistration { training: *training },
        ),
        State::ShowTrainings => Some(CallbackRoute::ChooseTrainingToCancel),
        State::ChooseCancelTraining => Some(CallbackRoute::ConfirmCancelTraining),
        State::ConfirmCancelTraining { training } => Some(
            CallbackRoute::CancelTraining { training: *training },
        ),
        State::AdminChooseWeek => Some(CallbackRoute::AdminChooseDay),
        State::AdminChooseDay => Some(CallbackRoute::AdminShowTime),
        _ => None,
    }
}

/// What happened in a chat, as far as it moves the dialogue.
#[derive(Clone, Copy, PartialEq, Eq, Structural, Debug)]
pub enum DialogueEvent {
    /// A known user or trainer was greeted on the start command.
    Greeted,
    /// A new trainer's account was made on the start command.
    TrainerRegistered,
    /// A new user was asked for a name.
    NameAsked,
    /// A registering user sent a message.
    NameReceived,
    /// A user was shown the weeks to register in.
    WeeksShown,
    /// A user asked for the registrations; `any` tells whether there were some.
    RegistrationsShown { any: bool },
    /// A trainer was shown the weeks with registrations.
    AdminWeeksShown,
    /// A user chose a week and was shown its days.
    WeekChosen,
    /// A user chose a day and was shown its start times.
    DayChosen,
    /// A user chose a start time; the training, if it was found.
    TimeChosen { training: Option<Training> },
    /// A user confirmed a registration.
    RegistrationConfirmed,
    /// A user was shown the registrations to cancel.
    CancelListShown,
    /// A user chose a registration to cancel; the training, if it was found.
    CancelChosen { training: Option<Training> },
    /// A user confirmed a cancellation.
    CancelConfirmed,
    /// A trainer chose a week; `shown` tells whether its days could be shown.
    AdminWeekChosen { shown: bool },
    /// A trainer chose a day and was shown its registrations.
    AdminDayChosen,
    /// A pressed button sent no data.
    DataMissing,
}

/// The step a dialogue moves to on `event`; `None` where it stays where it is.
pub open spec fn next_step(event: DialogueEvent) -> Option<State> {
    match event {
        DialogueEvent::Greeted => Some(State::Default),
        DialogueEvent::TrainerRegistered => None,
        DialogueEvent::NameAsked => Some(State::Register),
        DialogueEvent::NameReceived => Some(State::Default),
        DialogueEvent::WeeksShown => Some(State::ChooseWeek),
        DialogueEvent::RegistrationsShown { any } => if any {
            Some(State::ShowTrainings)
        } else {
            None
        },
        DialogueEvent::AdminWeeksShown => Some(State::AdminChooseWeek),
        DialogueEvent::WeekChosen => Some(State::ChooseDay),
        DialogueEvent::DayChosen => Some(State::ChooseTime),
        DialogueEvent::TimeChosen { training } => match training {
            Some(t) => Some(State::ConfirmRegistration { training: t }),
            None => None,
        },
        DialogueEvent::RegistrationConfirmed => Some(State::Default),
        DialogueEvent::CancelListShown => Some(State::ChooseCancelTraining),
        DialogueEvent::CancelChosen { training } => match training {
            Some(t) => Some(State::ConfirmCancelTraining { training: t }),
            None => Some(State::Default),
        },
        DialogueEvent::CancelConfirmed => Some(State::Default),
        DialogueEvent::AdminWeekChosen { shown } => if shown {
            Some(State::AdminChooseDay)
        } else {
            Some(State::Default)
        },
        DialogueEvent::AdminDayChosen => Some(State::Default),
        DialogueEvent::DataMissing => Some(State::Default),
    }
}

/// The step a dialogue moves to on `event`; `None` where it stays where it is.
pub fn next_state(event: DialogueEvent) -> (res: Option<State>)
    ensures
        res == next_step(event),
{
    match event {
        DialogueEvent::Greeted => Some(State::Default),
        DialogueEvent::TrainerRegistered => None,
        DialogueEvent::NameAsked => Some(State::Register),
        DialogueEvent::NameReceived => Some(State::Default),
        DialogueEvent::WeeksShown => Some(State::ChooseWeek),
        DialogueEvent::RegistrationsShown { any } => if any {
            Some(State::ShowTrainings)
        } else {
            None
        },
        DialogueEvent::AdminWeeksShown => Some(State::AdminChooseWeek),
        DialogueEvent::WeekChosen => Some(State::ChooseDay),
        DialogueEvent::DayChosen => Some(State::ChooseTime),
        DialogueEvent::TimeChosen { training } => match training {
            Some(t) => Some(State::ConfirmRegistration { training: t }),
            None => None,
        },
        DialogueEvent::RegistrationConfirmed => Some(State::Default),
        DialogueEvent::CancelListShown => Some(State::ChooseCancelTraining),
        DialogueEvent::CancelChosen { training } => match training {
            Some(t) => Some(State::ConfirmCancelTraining { training: t }),
            None => Some(State::Default),
        },
        DialogueEvent::CancelConfirmed => Some(State::Default),
        DialogueEvent::AdminWeekChosen { shown } => if shown {
            Some(State::AdminChooseDay)
        } else {
            Some(State::Default)
        },
        DialogueEvent::AdminDayChosen => Some(State::Default),
        DialogueEvent::DataMissing => Some(State::Default),
    }
}

/// Every step a dialogue moves to waits for something it has a handler for:
/// a button press, or, at the first step and while registering, a message.
/// No event leads to the step `AdminShowTrainings`.
pub proof fn law_steps_reached_have_handlers(event: DialogueEvent)
    ensures
        next_step(event) matches Some(s) ==> (s is Default || s is Register || callback_route(s) is Some),
        next_step(event) matches Some(s) ==> !(s is AdminShowTrainings),
        next_step(event) == Some(State::Register) ==> message_route(State::Register, false)
            == MessageRoute::Name,
{
}

/// A registration goes step by step: the weeks, a day, a start time, the
/// confirmation; each step's button press reaches the handler of the next
/// part, and the confirmation of training `t` returns to the first step.
pub proof fn law_registration_flow(t: Training)
    ensures
        next_step(DialogueEvent::WeeksShown) == Some(State::ChooseWeek),
        callback_route(State::ChooseWeek) == Some(CallbackRoute::ChooseWeek),
        next_step(DialogueEvent::WeekChosen) == Some(State::ChooseDay),
        callback_route(State::ChooseDay) == Some(CallbackRoute::ChooseDay),
        next_step(DialogueEvent::DayChosen) == Some(State::ChooseTime),
        callback_route(State::ChooseTime) == Some(CallbackRoute::ChooseTime),
        next_step(DialogueEvent::TimeChosen { training: Some(t) }) == Some(
            State::ConfirmRegistration { training: t },
        ),
        callback_route(State::ConfirmRegistration { training: t }) == Some(
            CallbackRoute::ConfirmRegistration { training: t },
        ),
        next_step(DialogueEvent::RegistrationConfirmed) == Some(State::Default),
{
}

/// A cancellation goes step by step: the list, the choice of training `t`,
/// the confirmation, which returns to the first step.
pub proof fn law_cancellation_flow(t: Training)
    ensures
        next_step(DialogueEvent::RegistrationsShown { any: true }) == Some(State::ShowTrainings),
        callback_route(State::ShowTrainings) == Some(CallbackRoute::ChooseTrainingToCancel),
        next_step(DialogueEvent::CancelListShown) == Some(State::ChooseCancelTraining),
        callback_route(State::ChooseCancelTraining) == Some(CallbackRoute::ConfirmCancelTraining),
        next_step(DialogueEvent::CancelChosen { training: Some(t) }) == Some(
            State::ConfirmCancelTraining { training: t },
        ),
        callback_route(State::ConfirmCancelTraining { training: t }) == Some(
            CallbackRoute::CancelTraining { training: t },
        ),
        next_step(DialogueEvent::CancelConfirmed) == Some(State::Default),
{
}

} // verus!
