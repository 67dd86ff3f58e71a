//! Emote substitution bot core: query documents for the emote provider,
//! assembly and merging of emote records, the emote registry, the
//! per-message triage decision and the administrative add command.

pub mod command;
pub mod emote;
pub mod query;
pub mod resolve;
pub mod table;
pub mod triage;
