//! Verified core logic of the Presence organ toolkit: argument parsing,
//! manual and agent-card parsing, mood derivation, output bounding,
//! vitals formatting, and the relational and episodic memory rules.

pub mod text;
pub mod ids;
pub mod dict;
pub mod sdk;
pub mod response;
pub mod manual;
pub mod mood;
pub mod shell;
pub mod agent_card;
pub mod vitals;
pub mod winsense;
pub mod acp;
pub mod issues;
pub mod channel;
pub mod packager;
pub mod memory;
pub mod state;
pub mod social;
pub mod vox;
pub mod ask;
pub mod io;
pub mod dashboard;
pub mod cli;
pub mod jsonl;
