//! Reputation system for the LAU game. Tracks how players are perceived based
//! on their actions, not their words.
//!
//! This crate holds the rules of the system with their contracts: which
//! dimensions an action moves and how ([`action`]), the reputation dimensions
//! and their weights ([`dimension`]), picking the strongest and weakest
//! dimension ([`selection`]), ranking and filtering players ([`ranking`]),
//! per-player storage ([`table`]) and the peer-endorsement log
//! ([`endorsement`]).

pub mod action;
pub mod dimension;
pub mod endorsement;
pub mod ranking;
pub mod selection;
pub mod table;

pub use action::{effects, ActionKind, Effect, Scale};
pub use dimension::Dimension;
pub use endorsement::{Endorsement, EndorsementLog};
pub use ranking::{indices_above, rank_descending};
pub use selection::{first_min_index, last_max_index, strongest_dimension, weakest_dimension};
pub use table::PlayerTable;
