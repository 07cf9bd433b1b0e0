//! Save and restore tmux sessions: the verified core of `sess`.
pub mod text;
pub mod sorted;
pub mod model;
pub mod env;
pub mod restore;
pub mod storage;
pub mod state;
pub mod doctor;
pub mod capture;
pub mod picker;
pub mod config;
pub mod autosave;
pub mod commands;
