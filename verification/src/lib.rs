//! Core of a terminal package manager: user intent, planning, toggling with
//! cascade, list projection, search and progress, kept apart from the terminal
//! and from the native package library.

pub mod apt;
pub mod cascade;
pub mod changelog;
pub mod intent;
pub mod laws;
pub mod manager;
pub mod order;
pub mod planner;
pub mod progress;
pub mod projection;
pub mod registry;
pub mod search;
pub mod state;
pub mod text;
pub mod toggle;
pub mod types;
