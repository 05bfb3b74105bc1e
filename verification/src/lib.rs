//! Core of a terminal-resident task manager: a persistent relational store
//! for tasks and subtasks, an incremental fuzzy-filter engine, navigation and
//! selection state, a modal overlay state machine, and a synchronization
//! discipline that keeps the in-memory task list equal to the store after
//! every mutation.
pub mod cli;
pub mod colors;
pub mod controller;
pub mod models;
pub mod search;
pub mod sheet;
pub mod settings;
pub mod gitsync;
pub mod store;
pub mod tasks;
pub mod text;
pub mod ui;
