pub mod calendar;
pub mod cancel;
pub mod commands;
pub mod config;
pub mod dialogue;
pub mod ids;
pub mod keyboards;
pub mod models;
pub mod schedule;
pub mod sorting;
pub mod states;
pub mod text;
