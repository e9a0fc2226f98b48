//! Supporting data layer of a chat bot: a lazily filled cache of command
//! toggles and a ledger of per-user, per-chat growth with its statistics.

pub mod toggles;
pub mod ledger;
pub mod config;
