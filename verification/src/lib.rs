//! Cron-style task scheduling: a registry of tasks, the rule that decides when a
//! task is due, and the decisions of the scheduler loop and of the single-daemon
//! lifecycle, each stated as a contract and proved.

pub mod cli;
pub mod daemon;
pub mod index;
pub mod rule;
pub mod runner;
pub mod scheduler;
pub mod storage;
pub mod text;
pub mod time;
pub mod tui;
