//! Core of a chat bot that gamifies job-search activity.
//!
//! Users complete fixed quests to earn experience points and gold, level up,
//! keep a newest-first activity log and free-text notes, and receive periodic
//! reminder prompts with a penalty for ignoring the previous one.  This crate
//! holds the progression rules, the record codec, the persistent user store
//! and the interaction router; transport and timers live outside it.

pub mod codec;
pub mod menu;
pub mod numfmt;
pub mod progress;
pub mod router;
pub mod store;
pub mod user;
