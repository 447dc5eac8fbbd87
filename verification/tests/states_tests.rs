use tg_trainer::commands::Command;
use tg_trainer::config::{parse_trainer_ids, Config};
use tg_trainer::models::Training;
use tg_trainer::states::{route_callback, route_message, CallbackRoute, MessageRoute, State};

#[test]
fn states_by_name() {
    assert_eq!(State::from("default"), State::Default);
    assert_eq!(State::from("register"), State::Register);
    assert_eq!(State::from("chooseweek"), State::ChooseWeek);
    assert_eq!(State::from("chooseday"), State::ChooseDay);
    assert_eq!(State::from("choosetime"), State::ChooseTime);
    assert_eq!(State::from("showtrainings"), State::ShowTrainings);
    assert_eq!(State::from("choosecanceltraining"), State::ChooseCancelTraining);
    assert_eq!(State::from("adminchooseday"), State::Default);
    assert_eq!(State::from(""), State::Default);
    assert_eq!(State::default(), State::Default);
}

#[test]
fn messages_go_to_commands_names_or_texts() {
    assert_eq!(route_message(&State::Register, true), MessageRoute::Command);
    assert_eq!(route_message(&State::Register, false), MessageRoute::Name);
    assert_eq!(route_message(&State::ChooseWeek, false), MessageRoute::Text);
    assert_eq!(route_message(&State::Default, false), MessageRoute::Text);
}

#[test]
fn button_presses_go_to_their_step() {
    let t = Training::default();
    assert_eq!(route_callback(&State::ChooseWeek), Some(CallbackRoute::ChooseWeek));
    assert_eq!(route_callback(&State::ChooseDay), Some(CallbackRoute::ChooseDay));
    assert_eq!(route_callback(&State::ChooseTime), Some(CallbackRoute::ChooseTime));
    assert_eq!(route_callback(&State::ConfirmRegistration { training: t }), Some(CallbackRoute::ConfirmRegistration { training: t }));
    assert_eq!(route_callback(&State::ShowTrainings), Some(CallbackRoute::ChooseTrainingToCancel));
    assert_eq!(route_callback(&State::ChooseCancelTraining), Some(CallbackRoute::ConfirmCancelTraining));
    assert_eq!(route_callback(&State::ConfirmCancelTraining { training: t }), Some(CallbackRoute::CancelTraining { training: t }));
    assert_eq!(route_callback(&State::AdminChooseWeek), Some(CallbackRoute::AdminChooseDay));
    assert_eq!(route_callback(&State::AdminChooseDay), Some(CallbackRoute::AdminShowTime));
    assert_eq!(route_callback(&State::Default), None);
    assert_eq!(route_callback(&State::Register), None);
    assert_eq!(route_callback(&State::AdminShowTrainings), None);
}

#[test]
fn trainer_ids_split_at_commas() {
    assert_eq!(parse_trainer_ids("1,22,333"), vec!["1", "22", "333"]);
    assert_eq!(parse_trainer_ids("7"), vec!["7"]);
    assert_eq!(parse_trainer_ids(""), vec![""]);
    assert_eq!(parse_trainer_ids("a,,b,"), vec!["a", "", "b", ""]);
    for s in ["1,22,333", "", ",", "x,y,,z"] {
        assert_eq!(parse_trainer_ids(s).join(","), s);
        let std_split: Vec<String> = s.split(",").map(|x| x.to_string()).collect();
        assert_eq!(parse_trainer_ids(s), std_split);
    }
}

#[test]
fn config_from_parts() {
    let c = Config::from_parts("t".to_string(), "db".to_string(), "1,2", "k".to_string(), "url".to_string(), "p".to_string());
    assert_eq!(c.token, "t");
    assert_eq!(c.database_url, "db");
    assert_eq!(c.trainer_ids, vec!["1", "2"]);
    assert_eq!(c.ai_key, "k");
    assert_eq!(c.ai_api_url, "url");
    assert_eq!(c.promt_path, "p");
    assert_ne!(Command::Start, Command::Help);
}

use tg_trainer::states::{next_state, DialogueEvent};

#[test]
fn registration_flow_moves_step_by_step() {
    let t = Training::default();
    assert_eq!(next_state(DialogueEvent::WeeksShown), Some(State::ChooseWeek));
    assert_eq!(next_state(DialogueEvent::WeekChosen), Some(State::ChooseDay));
    assert_eq!(next_state(DialogueEvent::DayChosen), Some(State::ChooseTime));
    assert_eq!(next_state(DialogueEvent::TimeChosen { training: Some(t) }), Some(State::ConfirmRegistration { training: t }));
    assert_eq!(next_state(DialogueEvent::TimeChosen { training: None }), None);
    assert_eq!(next_state(DialogueEvent::RegistrationConfirmed), Some(State::Default));
}

#[test]
fn other_events_and_their_steps() {
    let t = Training::default();
    assert_eq!(next_state(DialogueEvent::Greeted), Some(State::Default));
    assert_eq!(next_state(DialogueEvent::TrainerRegistered), None);
    assert_eq!(next_state(DialogueEvent::NameAsked), Some(State::Register));
    assert_eq!(next_state(DialogueEvent::NameReceived), Some(State::Default));
    assert_eq!(next_state(DialogueEvent::RegistrationsShown { any: true }), Some(State::ShowTrainings));
    assert_eq!(next_state(DialogueEvent::RegistrationsShown { any: false }), None);
    assert_eq!(next_state(DialogueEvent::AdminWeeksShown), Some(State::AdminChooseWeek));
    assert_eq!(next_state(DialogueEvent::CancelListShown), Some(State::ChooseCancelTraining));
    assert_eq!(next_state(DialogueEvent::CancelChosen { training: Some(t) }), Some(State::ConfirmCancelTraining { training: t }));
    assert_eq!(next_state(DialogueEvent::CancelChosen { training: None }), Some(State::Default));
    assert_eq!(next_state(DialogueEvent::CancelConfirmed), Some(State::Default));
    assert_eq!(next_state(DialogueEvent::AdminWeekChosen { shown: true }), Some(State::AdminChooseDay));
    assert_eq!(next_state(DialogueEvent::AdminWeekChosen { shown: false }), Some(State::Default));
    assert_eq!(next_state(DialogueEvent::AdminDayChosen), Some(State::Default));
    assert_eq!(next_state(DialogueEvent::DataMissing), Some(State::Default));
}

#[test]
fn every_reached_step_has_a_handler() {
    let t = Training::default();
    let events = [
        DialogueEvent::Greeted, DialogueEvent::TrainerRegistered, DialogueEvent::NameAsked, DialogueEvent::NameReceived,
        DialogueEvent::WeeksShown, DialogueEvent::RegistrationsShown { any: true }, DialogueEvent::AdminWeeksShown,
        DialogueEvent::WeekChosen, DialogueEvent::DayChosen, DialogueEvent::TimeChosen { training: Some(t) },
        DialogueEvent::RegistrationConfirmed, DialogueEvent::CancelListShown, DialogueEvent::CancelChosen { training: Some(t) },
        DialogueEvent::CancelConfirmed, DialogueEvent::AdminWeekChosen { shown: true }, DialogueEvent::AdminDayChosen,
        DialogueEvent::DataMissing,
    ];
    for e in events {
        if let Some(s) = next_state(e) {
            assert!(s == State::Default || s == State::Register || route_callback(&s).is_some());
            assert_ne!(s, State::AdminShowTrainings);
        }
    }
}
