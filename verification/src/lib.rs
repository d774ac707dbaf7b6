//! Core of a "demonlist" ranking site: a ledger of ranked levels ("demons")
//! whose positions always form the dense sequence `1..=max`, a log of every
//! position change, and a reconstruction of the list as it stood at any past
//! instant.

pub mod config;
pub mod demon;
pub mod error;
pub mod head;
pub mod history;
pub mod ledger;
pub mod player;
pub mod record;
pub mod submitter;
