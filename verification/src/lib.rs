//! Unread agent navigation for Herdr.
//!
//! The crate holds Beacon's rules: the unread ledger, the workspace policy, the
//! shortcut cycles, the hook events and the keybinding installer. Files, sockets,
//! processes and the clock stay with the program around it.

pub mod chord;
pub mod config;
pub mod cycles;
pub mod eligibility;
pub mod error;
pub mod event;
pub mod herdr;
pub mod json;
pub mod jump;
pub mod keybindings;
pub mod laws;
pub mod ledger;
pub mod model;
pub mod outcomes;
pub mod record;
pub mod seqs;
pub mod socket;
pub mod storage;
pub mod text;
pub mod textmap;
