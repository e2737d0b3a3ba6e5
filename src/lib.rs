//! Conversation viewport of a desktop messaging client: a bounded, chronologically
//! ordered window of rows over an unboundedly large message log.

pub mod rows;
pub mod ledger;
pub mod window;
pub mod viewport;
pub mod text;
pub mod utils;
pub mod media;
pub mod avatar_cache;
pub mod contact;
pub mod labels;
pub mod scroll;
