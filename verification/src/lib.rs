//! The logic of `gh pilot`, a terminal front end for Copilot sessions kept in tmux.

pub mod app;
pub mod chars;
pub mod events;
pub mod foreign;
pub mod groups;
pub mod json;
pub mod keys;
pub mod log;
pub mod markdown;
pub mod numbers;
pub mod order;
pub mod panel;
pub mod paths;
pub mod projects;
pub mod registry;
pub mod remote;
pub mod schedule;
pub mod selection;
pub mod session;
pub mod status;
pub mod store;
pub mod style;
pub mod tables;
pub mod terminal;
pub mod text;
pub mod tmux;
pub mod view;
